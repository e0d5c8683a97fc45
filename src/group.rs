//! One live collaborative object: its replica, broadcast, subscribers,
//! last-modified instant and the bytes not yet flushed.
use vstd::prelude::*;
use crate::access::{allowed, Action, ObjectKey, ObjectType, PolicyStore, PolicyView};
use crate::broadcast::{
    copy_bytes, oldest_kept, CollabBroadcast, CollabMessage, CollabOrigin, MessageKind, MessageView, Outbound, Subscriber,
};
use crate::codec::{
    chunks_fit, decode_chunks, encode_chunks, frame, lemma_parse_fits, parse, DecodeError,
};

verus! {

/// Capacity of each group's broadcast buffer.
pub const BROADCAST_CAPACITY: usize = 10;

/// The kind of a collaborative object.
#[derive(Clone, Copy, Debug, PartialEq, Eq, Hash, Structural)]
pub enum CollabType {
    Document,
    Database,
    DatabaseRow,
    WorkspaceDatabase,
    Folder,
    UserAwareness,
}

pub open spec fn timeout_of(collab_type: CollabType, debug: bool) -> u64 {
    if debug {
        120
    } else {
        match collab_type {
            CollabType::Document => 600,
            CollabType::Database | CollabType::DatabaseRow => 3600,
            _ => 7200,
        }
    }
}

/// Seconds without a write after which a group of this type may be evicted.
/// Debug profiles use two minutes for every type.
pub fn timeout_secs(collab_type: CollabType, debug: bool) -> (r: u64)
    ensures
        r == timeout_of(collab_type, debug),
{
    if debug {
        2 * 60
    } else {
        match collab_type {
            CollabType::Document => 10 * 60,
            CollabType::Database | CollabType::DatabaseRow => 60 * 60,
            _ => 2 * 60 * 60,
        }
    }
}

/// Why an inbound message was not applied.
#[derive(Clone, Copy, Debug, PartialEq, Eq, Hash, Structural)]
pub enum UpdateError {
    /// The sender lacks the permission the message needs.
    PermissionDenied,
    /// The update is too large to be persisted.
    TooLarge,
    /// The stream has used up its sequence numbers.
    StreamExhausted,
    /// No group is cached for the object.
    GroupNotFound,
}

/// Why a flush wrote nothing.
#[derive(Clone, Copy, Debug, PartialEq, Eq, Hash, Structural)]
pub enum FlushError {
    /// The owning user no longer may write the object.
    PermissionRevoked,
}

/// The updates, in order, that a message history carries.
pub open spec fn updates_of(h: Seq<MessageView>) -> Seq<Seq<u8>>
    decreases h.len(),
{
    if h.len() == 0 {
        Seq::empty()
    } else {
        let rest = updates_of(h.drop_last());
        if h.last().kind == MessageKind::Update {
            rest.push(h.last().payload)
        } else {
            rest
        }
    }
}

/// Whether stored bytes, if any, are an encoded replica.
pub open spec fn stored_decodes(stored: Option<Seq<u8>>) -> bool {
    match stored {
        Some(b) => parse(b) is Some,
        None => true,
    }
}

/// The replica state that stored bytes hold: what they decode to, or an
/// empty base when nothing is stored or the stored replica has no chunk.
pub open spec fn loaded_state(stored: Option<Seq<u8>>) -> Seq<Seq<u8>> {
    match stored {
        Some(b) => match parse(b) {
            Some(cs) => if cs.len() > 0 {
                cs
            } else {
                seq![Seq::<u8>::empty()]
            },
            None => seq![Seq::<u8>::empty()],
        },
        None => seq![Seq::<u8>::empty()],
    }
}

pub open spec fn opt_bytes(stored: Option<&Vec<u8>>) -> Option<Seq<u8>> {
    match stored {
        Some(b) => Some(b@),
        None => None,
    }
}

/// A subscriber's origin and the sequence number it reads next.
pub type SubscriberEntry = ((i64, Seq<char>), u64);

/// `rest` is `es` without the entry of `origin`, or `es` itself when
/// `origin` has no entry.
pub open spec fn entries_without(es: Seq<SubscriberEntry>, origin: (i64, Seq<char>), rest: Seq<SubscriberEntry>) -> bool {
    &&& forall|i: int| 0 <= i < es.len() && #[trigger] es[i].0 == origin ==> rest == es.remove(i)
    &&& !es.map_values(|e: SubscriberEntry| e.0).contains(origin) ==> rest == es
}

/// A group for one live object.
///
/// The replica is kept as the loaded base state followed by the raw bytes of
/// every applied update, in apply order. No CRDT engine runs here: updates
/// are neither merged nor validated (only oversized ones are refused), and a
/// client rebuilds the document by applying the chunks in order.
pub struct CollabGroup {
    object_id: String,
    workspace_id: String,
    owner_uid: i64,
    collab_type: CollabType,
    debug_timeouts: bool,
    state: Vec<Vec<u8>>,
    loaded: usize,
    broadcast: CollabBroadcast,
    subscribers: Vec<Subscriber>,
    modified_at: u64,
    pending: u64,
}

impl CollabGroup {
    pub closed spec fn object_id_view(&self) -> Seq<char> {
        self.object_id@
    }

    pub closed spec fn workspace_id_view(&self) -> Seq<char> {
        self.workspace_id@
    }

    pub closed spec fn owner(&self) -> i64 {
        self.owner_uid
    }

    pub closed spec fn collab_type_view(&self) -> CollabType {
        self.collab_type
    }

    pub closed spec fn debug_view(&self) -> bool {
        self.debug_timeouts
    }

    /// The replica: the loaded base state followed by every applied update.
    pub closed spec fn chunks(&self) -> Seq<Seq<u8>> {
        self.state.deep_view()
    }

    /// Every message broadcast so far.
    pub closed spec fn history(&self) -> Seq<MessageView> {
        self.broadcast.history()
    }

    pub closed spec fn modified(&self) -> u64 {
        self.modified_at
    }

    /// Bytes of updates applied since the last successful flush (saturating).
    pub closed spec fn pending(&self) -> u64 {
        self.pending
    }

    /// The origins of the current subscribers.
    pub open spec fn subscriber_origins(&self) -> Seq<(i64, Seq<char>)> {
        self.subscriber_entries().map_values(|e: SubscriberEntry| e.0)
    }

    /// Each subscriber's origin with where it reads next, in subscription
    /// order.
    pub closed spec fn subscriber_entries(&self) -> Seq<SubscriberEntry> {
        self.subscribers@.map_values(|s: Subscriber| (s.origin@, s.cursor))
    }

    /// Where each subscriber reads next, in the order of
    /// `subscriber_origins`.
    pub open spec fn subscriber_cursors(&self) -> Seq<u64> {
        self.subscriber_entries().map_values(|e: SubscriberEntry| e.1)
    }

    /// The bytes a flush writes.
    pub open spec fn stored_bytes(&self) -> Seq<u8> {
        frame(self.chunks())
    }

    /// Whether the group may be evicted at `now`.
    pub open spec fn inactive_at(&self, now: u64) -> bool {
        now as int - self.modified() as int > timeout_of(self.collab_type_view(), self.debug_view()) as int
    }

    pub closed spec fn wf(&self) -> bool {
        &&& self.broadcast.wf()
        &&& self.broadcast.capacity() == BROADCAST_CAPACITY
        &&& 1 <= self.loaded <= self.state@.len()
        &&& chunks_fit(self.state.deep_view())
        &&& self.state.deep_view().skip(self.loaded as int) == updates_of(self.broadcast.history())
        &&& self.subscriber_origins().no_duplicates()
    }

    /// A group whose replica is loaded from `stored`, the bytes durable
    /// storage holds for the object (if any), last modified at `now`. Stored
    /// bytes that do not decode are reported, never replaced by an empty
    /// replica that a later flush would write over them.
    pub fn new(
        object_id: &str,
        workspace_id: &str,
        owner_uid: i64,
        collab_type: CollabType,
        stored: Option<&Vec<u8>>,
        now: u64,
        debug_timeouts: bool,
    ) -> (r: Result<CollabGroup, DecodeError>)
        ensures
            r is Err <==> !stored_decodes(opt_bytes(stored)),
            r is Ok ==> ({
                let g = r->Ok_0;
                &&& g.wf()
                &&& g.object_id_view() == object_id@
                &&& g.workspace_id_view() == workspace_id@
                &&& g.owner() == owner_uid
                &&& g.collab_type_view() == collab_type
                &&& g.debug_view() == debug_timeouts
                &&& g.chunks() == loaded_state(opt_bytes(stored))
                &&& g.history() == Seq::<MessageView>::empty()
                &&& g.subscriber_origins() == Seq::<(i64, Seq<char>)>::empty()
                &&& g.modified() == now
                &&& g.pending() == 0
            }),
    {
        let mut state: Vec<Vec<u8>> = Vec::new();
        match stored {
            Some(bytes) => {
                match decode_chunks(bytes) {
                    Ok(cs) => {
                        proof {
                            lemma_parse_fits(bytes@);
                        }
                        state = cs;
                    },
                    Err(e) => {
                        return Err(e);
                    },
                }
            },
            None => {},
        }
        if state.len() == 0 {
            let empty: Vec<u8> = Vec::new();
            assert(empty.deep_view() =~= Seq::<u8>::empty());
            state.push(empty);
            assert(state.deep_view() =~= seq![Seq::<u8>::empty()]);
        }
        let loaded = state.len();
        let r = CollabGroup {
            object_id: object_id.to_string(),
            workspace_id: workspace_id.to_string(),
            owner_uid,
            collab_type,
            debug_timeouts,
            state,
            loaded,
            broadcast: CollabBroadcast::new(BROADCAST_CAPACITY),
            subscribers: Vec::new(),
            modified_at: now,
            pending: 0,
        };
        assert(r.subscriber_origins() =~= Seq::<(i64, Seq<char>)>::empty());
        assert(r.chunks().skip(loaded as int) =~= Seq::<Seq<u8>>::empty());
        Ok(r)
    }

    /// The object this group holds.
    pub fn object_id(&self) -> (r: &String)
        ensures
            r@ == self.object_id_view(),
    {
        &self.object_id
    }

    /// The workspace the object belongs to.
    pub fn workspace_id(&self) -> (r: &String)
        ensures
            r@ == self.workspace_id_view(),
    {
        &self.workspace_id
    }

    /// The user on whose behalf the replica is flushed.
    pub fn owner_uid(&self) -> (r: i64)
        ensures
            r == self.owner(),
    {
        self.owner_uid
    }

    /// The kind of the object.
    pub fn collab_type(&self) -> (r: CollabType)
        ensures
            r == self.collab_type_view(),
    {
        self.collab_type
    }

    /// The instant of the last applied update, or of creation.
    pub fn modified_at(&self) -> (r: u64)
        ensures
            r == self.modified(),
    {
        self.modified_at
    }

    /// Position of the subscriber with this origin.
    fn find_subscriber(&self, origin: &CollabOrigin) -> (r: Option<usize>)
        requires
            self.wf(),
        ensures
            match r {
                Some(i) => i < self.subscribers@.len() && self.subscriber_origins()[i as int] == origin@,
                None => !self.subscriber_origins().contains(origin@),
            },
    {
        let mut i: usize = 0;
        while i < self.subscribers.len()
            invariant
                i <= self.subscribers.len(),
                forall|j: int| 0 <= j < i ==> self.subscriber_origins()[j] != origin@,
            decreases self.subscribers.len() - i,
        {
            if self.subscribers[i].origin.same_as(origin) {
                return Some(i);
            }
            i = i + 1;
        }
        None
    }

    /// Whether a client with this origin is subscribed.
    pub fn contains_subscriber(&self, origin: &CollabOrigin) -> (r: bool)
        requires
            self.wf(),
        ensures
            r == self.subscriber_origins().contains(origin@),
    {
        self.find_subscriber(origin).is_some()
    }

    /// Whether the group has no subscriber.
    pub fn is_empty(&self) -> (r: bool)
        ensures
            r == (self.subscriber_origins().len() == 0),
    {
        self.subscribers.len() == 0
    }

    /// Whether the last write is longer ago than the type's timeout. A group
    /// with silent subscribers is inactive all the same.
    pub fn is_inactive(&self, now: u64) -> (r: bool)
        ensures
            r == self.inactive_at(now),
    {
        let timeout = timeout_secs(self.collab_type, self.debug_timeouts);
        now > self.modified_at && now - self.modified_at > timeout
    }

    /// Detaches the subscriber with this origin, if there is one.
    pub fn remove_subscriber(&mut self, origin: &CollabOrigin) -> (r: Option<Subscriber>)
        requires
            old(self).wf(),
        ensures
            final(self).wf(),
            unsubscribe_outcome(*old(self), *final(self), origin@, r),
    {
        match self.find_subscriber(origin) {
            Some(i) => {
                let ghost before = self.subscriber_origins();
                let ghost before_entries = self.subscriber_entries();
                let s = self.subscribers.remove(i);
                assert(self.subscriber_entries() =~= before_entries.remove(i as int));
                assert(self.subscriber_origins() =~= before.remove(i as int));
                proof {
                    assert forall|k: int|
                        0 <= k < before_entries.len() && #[trigger] before_entries[k].0 == origin@ implies
                        self.subscriber_entries() == before_entries.remove(k) by {
                        assert(before[k] == before_entries[k].0);
                        assert(before.no_duplicates());
                    }
                    assert forall|o: (i64, Seq<char>)| #![auto]
                        o != origin@ ==> (self.subscriber_origins().contains(o) <==> before.contains(o)) by {
                        if o != origin@ && before.contains(o) {
                            let k = choose|k: int| 0 <= k < before.len() && before[k] == o;
                            if k < i {
                                assert(self.subscriber_origins()[k] == o);
                            } else {
                                assert(self.subscriber_origins()[k - 1] == o);
                            }
                        }
                    }
                    if self.subscriber_origins().contains(origin@) {
                        let k = choose|k: int|
                            0 <= k < self.subscriber_origins().len() && self.subscriber_origins()[k] == origin@;
                        if k < i {
                            assert(before[k] == before[i as int]);
                        } else {
                            assert(before[k + 1] == before[i as int]);
                        }
                    }
                }
                Some(s)
            },
            None => {
                assert forall|k: int|
                    0 <= k < self.subscriber_entries().len() implies #[trigger] self.subscriber_entries()[k].0
                    != origin@ by {
                    assert(self.subscriber_origins()[k] == self.subscriber_entries()[k].0);
                }
                None
            },
        }
    }

    /// Registers a client; a subscriber with the same origin is replaced. The
    /// new subscriber starts reading at the next message. Returns the
    /// subscriber it replaced, for the caller to stop.
    pub fn subscribe(&mut self, origin: CollabOrigin) -> (r: Option<Subscriber>)
        requires
            old(self).wf(),
        ensures
            final(self).wf(),
            subscribe_outcome(*old(self), *final(self), origin@, r),
    {
        let prior = self.remove_subscriber(&origin);
        let cursor = self.broadcast.next_seq();
        let ghost before = self.subscriber_origins();
        let ghost before_entries = self.subscriber_entries();
        let ghost o = origin@;
        self.subscribers.push(Subscriber { origin, cursor });
        assert(self.subscriber_entries() =~= before_entries.push((o, cursor)));
        assert(self.subscriber_entries().drop_last() =~= before_entries);
        assert(self.subscriber_origins() =~= before.push(o));
        assert(self.subscriber_origins()[before.len() as int] == o);
        proof {
            assert forall|o2: (i64, Seq<char>)| #![auto]
                o2 != o ==> (self.subscriber_origins().contains(o2) <==> before.contains(o2)) by {
                if o2 != o && self.subscriber_origins().contains(o2) {
                    let k = choose|k: int|
                        0 <= k < self.subscriber_origins().len() && self.subscriber_origins()[k] == o2;
                    assert(before[k] == o2);
                }
                if before.contains(o2) {
                    let k = choose|k: int| 0 <= k < before.len() && before[k] == o2;
                    assert(self.subscriber_origins()[k] == o2);
                }
            }
        }
        prior
    }
}

impl CollabGroup {
    /// The object this group holds, as an access-control object.
    fn object(&self) -> (r: ObjectType)
        ensures
            r@ == ObjectKey::Collab(self.object_id_view()),
    {
        ObjectType::Collab(self.object_id.clone())
    }

    /// Applies a client's update to the replica and broadcasts it. The sender
    /// needs `Write` on the object. On success the result is the update's
    /// sequence number in the broadcast, and the group counts as modified at
    /// `now` (the last-modified instant never goes back).
    pub fn apply_update(&mut self, store: &PolicyStore, origin: &CollabOrigin, update: Vec<u8>, now: u64) -> (r: Result<u64, UpdateError>)
        requires
            old(self).wf(),
        ensures
            final(self).wf(),
            update_outcome(*old(self), *final(self), store@, origin@, update@, now, r),
    {
        let object = self.object();
        if !store.check(origin.uid, &object, Action::Write) {
            return Err(UpdateError::PermissionDenied);
        }
        if update.len() as u64 > 0xffff_ffffu64 {
            return Err(UpdateError::TooLarge);
        }
        let seq = self.broadcast.next_seq();
        if seq == u64::MAX {
            return Err(UpdateError::StreamExhausted);
        }
        let ghost old_state = self.state.deep_view();
        let ghost old_hist = self.broadcast.history();
        let stored = copy_bytes(&update);
        let stored_len = stored.len();
        let message = CollabMessage { origin: origin.copy(), kind: MessageKind::Update, payload: update };
        let ghost m = message@;
        self.broadcast.send(message);
        assert(stored.deep_view() =~= stored@);
        self.state.push(stored);
        if now > self.modified_at {
            self.modified_at = now;
        }
        let size = stored_len as u64;
        if self.pending > u64::MAX - size {
            self.pending = u64::MAX;
        } else {
            self.pending = self.pending + size;
        }
        proof {
            let h = self.broadcast.history();
            assert(h.drop_last() =~= old_hist);
            assert(updates_of(h) == updates_of(old_hist).push(m.payload));
            assert(self.state.deep_view() =~= old_state.push(m.payload));
            assert(self.state.deep_view().skip(self.loaded as int) =~= old_state.skip(
                self.loaded as int,
            ).push(m.payload));
            let cs = self.state.deep_view();
            assert forall|i: int| 0 <= i < cs.len() implies #[trigger] cs[i].len() <= u32::MAX by {
                if i < old_state.len() {
                    assert(cs[i] == old_state[i]);
                }
            }
        }
        Ok(seq)
    }

    /// Broadcasts presence information. The sender needs `Read` on the
    /// object; the replica and the last-modified instant stay as they are.
    pub fn apply_awareness(&mut self, store: &PolicyStore, origin: &CollabOrigin, payload: Vec<u8>) -> (r: Result<u64, UpdateError>)
        requires
            old(self).wf(),
        ensures
            final(self).wf(),
            awareness_outcome(*old(self), *final(self), store@, origin@, payload@, r),
    {
        let object = self.object();
        if !store.check(origin.uid, &object, Action::Read) {
            return Err(UpdateError::PermissionDenied);
        }
        let seq = self.broadcast.next_seq();
        if seq == u64::MAX {
            return Err(UpdateError::StreamExhausted);
        }
        let ghost old_hist = self.broadcast.history();
        let message = CollabMessage { origin: origin.copy(), kind: MessageKind::Awareness, payload };
        self.broadcast.send(message);
        proof {
            let h = self.broadcast.history();
            assert(h.drop_last() =~= old_hist);
        }
        Ok(seq)
    }

    /// The encoded replica.
    pub fn encode_v1(&self) -> (r: Vec<u8>)
        requires
            self.wf(),
        ensures
            r@ == self.stored_bytes(),
    {
        encode_chunks(&self.state)
    }

    /// The bytes to write to durable storage, provided the owning user may
    /// still write the object. A successful flush clears the pending count.
    pub fn flush_collab(&mut self, store: &PolicyStore) -> (r: Result<Vec<u8>, FlushError>)
        requires
            old(self).wf(),
        ensures
            final(self).wf(),
            flush_outcome(*old(self), *final(self), store@, r),
    {
        let object = self.object();
        if !store.check(self.owner_uid, &object, Action::Write) {
            return Err(FlushError::PermissionRevoked);
        }
        let bytes = self.encode_v1();
        proof {
            crate::codec::lemma_parse_frame(self.chunks());
        }
        self.pending = 0;
        Ok(bytes)
    }

    /// Whether more than `threshold` bytes of updates wait to be flushed.
    pub fn should_flush(&self, threshold: u64) -> (r: bool)
        ensures
            r == (self.pending() > threshold),
    {
        self.pending > threshold
    }

    /// Bytes of updates applied since the last successful flush.
    pub fn pending_bytes(&self) -> (r: u64)
        ensures
            r == self.pending(),
    {
        self.pending
    }

    /// The next thing to send to the subscriber with this origin, if it is
    /// subscribed; see [`CollabBroadcast::next_for`].
    pub fn next_for(&mut self, origin: &CollabOrigin) -> (r: Option<Outbound>)
        requires
            old(self).wf(),
        ensures
            final(self).wf(),
            next_outcome(*old(self), *final(self), origin@, r),
    {
        match self.find_subscriber(origin) {
            None => None,
            Some(i) => {
                let ghost old_subs = self.subscribers@;
                let mut sub = self.subscribers.remove(i);
                let out = self.broadcast.next_for(&mut sub);
                self.subscribers.insert(i, sub);
                proof {
                    assert(self.subscribers@ =~= old_subs.update(i as int, sub));
                    assert(self.subscriber_origins() =~= old(self).subscriber_origins());
                    assert forall|j: int|
                        0 <= j < old(self).subscriber_origins().len() && old(self).subscriber_origins()[j]
                            != origin@ implies #[trigger] self.subscriber_cursors()[j]
                            == old(self).subscriber_cursors()[j] by {
                        assert(self.subscribers@[j] == old_subs[j]);
                    }
                    assert forall|k: int|
                        0 <= k < old(self).subscriber_origins().len() && #[trigger] old(self).subscriber_origins()[k]
                            == origin@ implies k == i by {
                        assert(old(self).subscriber_origins().no_duplicates());
                    }
                    assert(delivered(
                        old(self).history(),
                        origin@,
                        old(self).subscriber_cursors()[i as int],
                        self.subscriber_cursors()[i as int],
                        out,
                    ));
                }
                Some(out)
            },
        }
    }
}

/// What one step of a subscriber's outbound side may send: read from the
/// message history `h` at `cursor`, moving the cursor to `next`.
pub open spec fn delivered(h: Seq<MessageView>, origin: (i64, Seq<char>), cursor: u64, next: u64, out: Outbound) -> bool {
    let start = oldest_kept(h.len() as int, BROADCAST_CAPACITY as int);
    match out {
        Outbound::Resync { resume } => cursor < start && resume == start && next == resume,
        Outbound::Deliver { seq, message } => {
            &&& start <= cursor <= seq < h.len()
            &&& message@ == h[seq as int]
            &&& message@.origin != origin
            &&& next == seq + 1
            &&& forall|k: int| cursor <= k < seq ==> (#[trigger] h[k]).origin == origin
        },
        Outbound::Idle => {
            &&& start <= cursor
            &&& next as int == if cursor < h.len() {
                h.len() as int
            } else {
                cursor as int
            }
            &&& forall|k: int| cursor <= k < h.len() ==> (#[trigger] h[k]).origin == origin
        },
    }
}

/// What flushing does: with `Write` still held by the owner, hands out the
/// encoded replica and clears the pending count; otherwise changes nothing.
pub open spec fn flush_outcome(a: CollabGroup, b: CollabGroup, ps: Seq<PolicyView>, r: Result<Vec<u8>, FlushError>) -> bool {
    &&& same_identity(a, b)
    &&& b.chunks() == a.chunks()
    &&& b.history() == a.history()
    &&& b.modified() == a.modified()
    &&& b.subscriber_origins() == a.subscriber_origins()
    &&& b.subscriber_cursors() == a.subscriber_cursors()
    &&& if allowed(ps, a.owner(), ObjectKey::Collab(a.object_id_view()), Action::Write) {
        &&& r is Ok
        &&& r->Ok_0@ == a.stored_bytes()
        &&& parse(r->Ok_0@) == Some(a.chunks())
        &&& b.pending() == 0
    } else {
        &&& r == Err::<Vec<u8>, FlushError>(FlushError::PermissionRevoked)
        &&& b.pending() == a.pending()
    }
}

/// Two states of one group with the same identity: object, workspace, owner,
/// type and timeout profile.
pub open spec fn same_identity(a: CollabGroup, b: CollabGroup) -> bool {
    &&& b.object_id_view() == a.object_id_view()
    &&& b.workspace_id_view() == a.workspace_id_view()
    &&& b.owner() == a.owner()
    &&& b.collab_type_view() == a.collab_type_view()
    &&& b.debug_view() == a.debug_view()
}

/// Replica, broadcast, last-modified instant and pending count are as they
/// were.
pub open spec fn same_content(a: CollabGroup, b: CollabGroup) -> bool {
    &&& b.chunks() == a.chunks()
    &&& b.history() == a.history()
    &&& b.modified() == a.modified()
    &&& b.pending() == a.pending()
}

/// The subscriber sets before and after differ at most in `origin`.
pub open spec fn others_kept(a: CollabGroup, b: CollabGroup, origin: (i64, Seq<char>)) -> bool {
    forall|o: (i64, Seq<char>)|
        o != origin ==> (b.subscriber_origins().contains(o) <==> a.subscriber_origins().contains(o))
}

/// `x + y`, or `u64::MAX` when that does not fit.
pub open spec fn saturating_add(x: u64, y: int) -> u64 {
    if x + y > u64::MAX {
        u64::MAX
    } else {
        (x + y) as u64
    }
}

/// What applying an update does: checks `Write`, the size and the sequence
/// space in that order; on success appends the update to the replica and the
/// broadcast and moves the last-modified instant up to `now`.
pub open spec fn update_outcome(
    a: CollabGroup,
    b: CollabGroup,
    ps: Seq<PolicyView>,
    origin: (i64, Seq<char>),
    update: Seq<u8>,
    now: u64,
    r: Result<u64, UpdateError>,
) -> bool {
    let may_write = allowed(ps, origin.0, ObjectKey::Collab(a.object_id_view()), Action::Write);
    &&& same_identity(a, b)
    &&& b.subscriber_origins() == a.subscriber_origins()
    &&& b.subscriber_cursors() == a.subscriber_cursors()
    &&& r == if !may_write {
        Err(UpdateError::PermissionDenied)
    } else if update.len() > u32::MAX {
        Err(UpdateError::TooLarge)
    } else if a.history().len() >= u64::MAX {
        Err(UpdateError::StreamExhausted)
    } else {
        Ok(a.history().len() as u64)
    }
    &&& r is Ok ==> {
        &&& b.chunks() == a.chunks().push(update)
        &&& b.history() == a.history().push(
            MessageView { origin: origin, kind: MessageKind::Update, payload: update },
        )
        &&& b.modified() == if now > a.modified() {
            now
        } else {
            a.modified()
        }
        &&& b.pending() == saturating_add(a.pending(), update.len() as int)
    }
    &&& r is Err ==> same_content(a, b)
}

/// What broadcasting presence does: checks `Read`, then appends to the
/// broadcast only.
pub open spec fn awareness_outcome(
    a: CollabGroup,
    b: CollabGroup,
    ps: Seq<PolicyView>,
    origin: (i64, Seq<char>),
    payload: Seq<u8>,
    r: Result<u64, UpdateError>,
) -> bool {
    let may_read = allowed(ps, origin.0, ObjectKey::Collab(a.object_id_view()), Action::Read);
    &&& same_identity(a, b)
    &&& b.subscriber_origins() == a.subscriber_origins()
    &&& b.subscriber_cursors() == a.subscriber_cursors()
    &&& b.chunks() == a.chunks()
    &&& b.modified() == a.modified()
    &&& b.pending() == a.pending()
    &&& r == if !may_read {
        Err(UpdateError::PermissionDenied)
    } else if a.history().len() >= u64::MAX {
        Err(UpdateError::StreamExhausted)
    } else {
        Ok(a.history().len() as u64)
    }
    &&& b.history() == if r is Ok {
        a.history().push(MessageView { origin: origin, kind: MessageKind::Awareness, payload: payload })
    } else {
        a.history()
    }
}

/// What detaching `origin` does: every other subscriber keeps its place and
/// cursor.
pub open spec fn unsubscribe_outcome(a: CollabGroup, b: CollabGroup, origin: (i64, Seq<char>), r: Option<Subscriber>) -> bool {
    &&& same_identity(a, b)
    &&& same_content(a, b)
    &&& (r is Some <==> a.subscriber_origins().contains(origin))
    &&& (r is Some ==> r->Some_0.origin@ == origin)
    &&& !b.subscriber_origins().contains(origin)
    &&& others_kept(a, b, origin)
    &&& entries_without(a.subscriber_entries(), origin, b.subscriber_entries())
}

/// What subscribing `origin` does: it replaces a prior subscriber of the same
/// origin, which is handed back; the others keep their place and cursor, and
/// the new one comes last and reads from the next message sent.
pub open spec fn subscribe_outcome(a: CollabGroup, b: CollabGroup, origin: (i64, Seq<char>), r: Option<Subscriber>) -> bool {
    &&& same_identity(a, b)
    &&& same_content(a, b)
    &&& (r is Some <==> a.subscriber_origins().contains(origin))
    &&& (r is Some ==> r->Some_0.origin@ == origin)
    &&& b.subscriber_origins().contains(origin)
    &&& others_kept(a, b, origin)
    &&& b.subscriber_entries().len() >= 1
    &&& b.subscriber_entries().last() == (origin, a.history().len() as u64)
    &&& entries_without(a.subscriber_entries(), origin, b.subscriber_entries().drop_last())
}

/// What one outbound step for `origin` does.
pub open spec fn next_outcome(a: CollabGroup, b: CollabGroup, origin: (i64, Seq<char>), r: Option<Outbound>) -> bool {
    &&& same_identity(a, b)
    &&& same_content(a, b)
    &&& b.subscriber_origins() == a.subscriber_origins()
    &&& (r is None <==> !a.subscriber_origins().contains(origin))
    &&& forall|i: int|
        0 <= i < a.subscriber_origins().len() && #[trigger] a.subscriber_origins()[i] == origin ==> r is Some
            && delivered(
            a.history(),
            origin,
            a.subscriber_cursors()[i],
            b.subscriber_cursors()[i],
            r->Some_0,
        )
    &&& forall|j: int|
        0 <= j < a.subscriber_origins().len() && a.subscriber_origins()[j] != origin
            ==> #[trigger] b.subscriber_cursors()[j] == a.subscriber_cursors()[j]
}

/// What is left of an evicted group: its object, the outcome of its final
/// flush, and the subscribers to stop.
#[derive(Debug)]
pub struct Evicted {
    pub object_id: String,
    pub doc_state: Result<Vec<u8>, FlushError>,
    pub subscribers: Vec<Subscriber>,
}

/// `e` is what evicting `g` leaves: the group's object, the outcome of
/// flushing it, and all its subscribers.
pub open spec fn evicted_from(g: CollabGroup, e: Evicted, ps: Seq<PolicyView>) -> bool {
    &&& e.object_id@ == g.object_id_view()
    &&& e.subscribers@.map_values(|s: Subscriber| s.origin@) == g.subscriber_origins()
    &&& if allowed(ps, g.owner(), ObjectKey::Collab(g.object_id_view()), Action::Write) {
        &&& e.doc_state is Ok
        &&& e.doc_state->Ok_0@ == g.stored_bytes()
        &&& parse(e.doc_state->Ok_0@) == Some(g.chunks())
    } else {
        e.doc_state == Err::<Vec<u8>, FlushError>(FlushError::PermissionRevoked)
    }
}

impl CollabGroup {
    /// Tears the group down: flushes the replica first, then hands out the
    /// subscribers to stop.
    pub fn evict(self, store: &PolicyStore) -> (r: Evicted)
        requires
            self.wf(),
        ensures
            evicted_from(self, r, store@),
    {
        let mut g = self;
        let doc_state = g.flush_collab(store);
        let object_id = g.object_id.clone();
        let r = Evicted { object_id, doc_state, subscribers: g.subscribers };
        assert(r.subscribers@.map_values(|s: Subscriber| s.origin@) =~= self.subscriber_origins());
        r
    }
}

/// A successful update leaves the group last modified no earlier than the
/// update's instant, and no earlier than before.
pub proof fn lemma_modified_after_update(
    a: CollabGroup,
    b: CollabGroup,
    ps: Seq<PolicyView>,
    origin: (i64, Seq<char>),
    update: Seq<u8>,
    now: u64,
    r: Result<u64, UpdateError>,
)
    requires
        update_outcome(a, b, ps, origin, update, now, r),
        r is Ok,
    ensures
        b.modified() >= now,
        b.modified() >= a.modified(),
{
}

/// The updates a group has broadcast are the updates applied to its replica,
/// in the same order: they are the replica's last chunks.
pub proof fn lemma_broadcast_order(g: CollabGroup)
    requires
        g.wf(),
    ensures
        updates_of(g.history()).len() <= g.chunks().len(),
        g.chunks().skip(g.chunks().len() - updates_of(g.history()).len()) == updates_of(g.history()),
{
    assert(g.chunks().len() - updates_of(g.history()).len() == g.loaded);
}

/// Decoding the bytes a group writes gives back its replica, byte for byte.
pub proof fn lemma_decode_stored(g: CollabGroup)
    requires
        g.wf(),
    ensures
        parse(g.stored_bytes()) == Some(g.chunks()),
{
    crate::codec::lemma_parse_frame(g.chunks());
}

/// Two flushes with no update in between write the same bytes.
pub proof fn lemma_flush_idempotent(
    a: CollabGroup,
    b: CollabGroup,
    c: CollabGroup,
    ps: Seq<PolicyView>,
    r1: Result<Vec<u8>, FlushError>,
    r2: Result<Vec<u8>, FlushError>,
)
    requires
        flush_outcome(a, b, ps, r1),
        flush_outcome(b, c, ps, r2),
        r1 is Ok,
    ensures
        r2 is Ok,
        r1->Ok_0@ == r2->Ok_0@,
{
}

/// A run of outbound steps for `origin`: step `k` reads history `hs[k]`
/// with cursor `cs[k]`, sends `outs[k]` and leaves the cursor at `cs[k + 1]`;
/// every history read is a prefix of `h`, the history at the end.
pub open spec fn outbound_run(
    h: Seq<MessageView>,
    origin: (i64, Seq<char>),
    hs: Seq<Seq<MessageView>>,
    cs: Seq<u64>,
    outs: Seq<Outbound>,
) -> bool {
    &&& hs.len() == outs.len()
    &&& cs.len() == outs.len() + 1
    &&& forall|k: int| 0 <= k < outs.len() ==> #[trigger] delivered(hs[k], origin, cs[k], cs[k + 1], outs[k])
    &&& forall|k: int| 0 <= k < hs.len() ==> (#[trigger] hs[k]).len() <= h.len() && h.subrange(0, hs[k].len() as int) == hs[k]
}

proof fn lemma_cursor_grows(
    h: Seq<MessageView>,
    origin: (i64, Seq<char>),
    hs: Seq<Seq<MessageView>>,
    cs: Seq<u64>,
    outs: Seq<Outbound>,
    j: int,
    k: int,
)
    requires
        outbound_run(h, origin, hs, cs, outs),
        0 <= j <= k < cs.len(),
    ensures
        cs[j] <= cs[k],
    decreases k - j,
{
    if j < k {
        let m = k - 1;
        lemma_cursor_grows(h, origin, hs, cs, outs, j, m);
        assert(delivered(hs[m], origin, cs[m], cs[m + 1], outs[m]));
    }
}

/// Over any run of outbound steps, what a subscriber is sent is the history
/// read in order with gaps: each delivered message is the one sent at its
/// sequence number and comes from another origin, and the sequence numbers
/// strictly grow, so nothing is reordered or sent twice.
pub proof fn lemma_outbound_run_in_order(
    h: Seq<MessageView>,
    origin: (i64, Seq<char>),
    hs: Seq<Seq<MessageView>>,
    cs: Seq<u64>,
    outs: Seq<Outbound>,
)
    requires
        outbound_run(h, origin, hs, cs, outs),
    ensures
        forall|k: int|
            0 <= k < outs.len() && (#[trigger] outs[k]) is Deliver ==> {
                let seq = outs[k]->Deliver_seq;
                &&& seq < h.len()
                &&& outs[k]->Deliver_message@ == h[seq as int]
                &&& h[seq as int].origin != origin
            },
        forall|j: int, k: int|
            0 <= j < k < outs.len() && (#[trigger] outs[j]) is Deliver && (#[trigger] outs[k]) is Deliver
                ==> outs[j]->Deliver_seq < outs[k]->Deliver_seq,
{
    assert forall|k: int| 0 <= k < outs.len() && (#[trigger] outs[k]) is Deliver implies {
        let seq = outs[k]->Deliver_seq;
        &&& seq < h.len()
        &&& outs[k]->Deliver_message@ == h[seq as int]
        &&& h[seq as int].origin != origin
    } by {
        assert(delivered(hs[k], origin, cs[k], cs[k + 1], outs[k]));
        let seq = outs[k]->Deliver_seq;
        assert(h.subrange(0, hs[k].len() as int)[seq as int] == h[seq as int]);
    }
    assert forall|j: int, k: int|
        0 <= j < k < outs.len() && (#[trigger] outs[j]) is Deliver && (#[trigger] outs[k]) is Deliver implies outs[j]->Deliver_seq
        < outs[k]->Deliver_seq by {
        assert(delivered(hs[j], origin, cs[j], cs[j + 1], outs[j]));
        assert(delivered(hs[k], origin, cs[k], cs[k + 1], outs[k]));
        lemma_cursor_grows(h, origin, hs, cs, outs, j + 1, k);
    }
}

/// A subscriber that fell behind the oldest message still kept is sent a
/// resync, and reading resumes at that message.
pub proof fn lemma_lagging_subscriber_resyncs(
    a: CollabGroup,
    b: CollabGroup,
    origin: (i64, Seq<char>),
    r: Option<Outbound>,
    i: int,
)
    requires
        next_outcome(a, b, origin, r),
        0 <= i < a.subscriber_origins().len(),
        a.subscriber_origins()[i] == origin,
        a.subscriber_cursors()[i] < oldest_kept(a.history().len() as int, BROADCAST_CAPACITY as int),
    ensures
        r == Some(
            Outbound::Resync { resume: oldest_kept(a.history().len() as int, BROADCAST_CAPACITY as int) as u64 },
        ),
        b.subscriber_cursors()[i] == oldest_kept(a.history().len() as int, BROADCAST_CAPACITY as int),
{
    assert(delivered(a.history(), origin, a.subscriber_cursors()[i], b.subscriber_cursors()[i], r->Some_0));
}

} // verus!
