//! The registry of live groups: at most one group per object, created on
//! first access and evicted when inactive.
use vstd::prelude::*;
use crate::access::{PolicyStore, PolicyView};
use crate::codec::DecodeError;
use crate::broadcast::{CollabOrigin, Outbound, Subscriber};
use crate::group::{
    awareness_outcome, loaded_state, opt_bytes, stored_decodes, next_outcome, subscribe_outcome, unsubscribe_outcome,
    update_outcome, evicted_from, flush_outcome, FlushError, CollabGroup, CollabType, Evicted, UpdateError,
};

verus! {

/// How many groups one reaper pass evicts at most.
pub const MAX_EVICTIONS_PER_TICK: usize = 5;

/// The registry of live groups.
pub struct CollabGroupCache {
    groups: Vec<CollabGroup>,
    debug_timeouts: bool,
}

impl CollabGroupCache {
    /// The live groups, in registration order.
    pub closed spec fn groups(&self) -> Seq<CollabGroup> {
        self.groups@
    }

    /// Whether groups use the uniform debug timeout.
    pub closed spec fn debug_view(&self) -> bool {
        self.debug_timeouts
    }

    /// The objects that have a live group, in registration order.
    pub open spec fn ids(&self) -> Seq<Seq<char>> {
        self.groups().map_values(|g: CollabGroup| g.object_id_view())
    }

    pub closed spec fn wf(&self) -> bool {
        &&& forall|i: int| 0 <= i < self.groups@.len() ==> (#[trigger] self.groups@[i]).wf()
        &&& forall|i: int|
            0 <= i < self.groups@.len() ==> (#[trigger] self.groups@[i]).debug_view() == self.debug_timeouts
        &&& self.ids().no_duplicates()
    }

    /// An empty registry.
    pub fn new(debug_timeouts: bool) -> (r: CollabGroupCache)
        ensures
            r.wf(),
            r.groups() == Seq::<CollabGroup>::empty(),
            r.debug_view() == debug_timeouts,
    {
        let r = CollabGroupCache { groups: Vec::new(), debug_timeouts };
        assert(r.ids() =~= Seq::<Seq<char>>::empty());
        r
    }

    /// How many groups are live.
    pub fn number_of_groups(&self) -> (r: usize)
        ensures
            r == self.groups().len(),
    {
        self.groups.len()
    }

    fn find(&self, object_id: &str) -> (r: Option<usize>)
        requires
            self.wf(),
        ensures
            match r {
                Some(i) => i < self.groups().len() && self.ids()[i as int] == object_id@,
                None => !self.ids().contains(object_id@),
            },
    {
        let key = object_id.to_string();
        let mut i: usize = 0;
        while i < self.groups.len()
            invariant
                i <= self.groups.len(),
                key@ == object_id@,
                forall|j: int| 0 <= j < i ==> self.ids()[j] != object_id@,
            decreases self.groups.len() - i,
        {
            if *self.groups[i].object_id() == key {
                return Some(i);
            }
            i = i + 1;
        }
        None
    }

    /// Whether the object has a live group.
    pub fn contains_group(&self, object_id: &str) -> (r: bool)
        requires
            self.wf(),
        ensures
            r == self.ids().contains(object_id@),
    {
        self.find(object_id).is_some()
    }

    /// The live group of the object, if any.
    pub fn get_group(&self, object_id: &str) -> (r: Option<&CollabGroup>)
        requires
            self.wf(),
        ensures
            r is Some <==> self.ids().contains(object_id@),
            forall|i: int|
                0 <= i < self.groups().len() && #[trigger] self.ids()[i] == object_id@ ==> r == Some(
                    &self.groups()[i],
                ),
    {
        match self.find(object_id) {
            Some(i) => {
                proof {
                    self.lemma_index_unique(i as int);
                }
                Some(&self.groups[i])
            },
            None => None,
        }
    }

    proof fn lemma_index_unique(&self, i: int)
        requires
            self.wf(),
            0 <= i < self.groups().len(),
        ensures
            forall|k: int| 0 <= k < self.groups().len() && #[trigger] self.ids()[k] == self.ids()[i] ==> k == i,
    {
    }

    /// Whether the object has a live group and `origin` subscribes to it.
    pub fn contains_user(&self, object_id: &str, origin: &CollabOrigin) -> (r: bool)
        requires
            self.wf(),
        ensures
            r == exists|i: int|
                0 <= i < self.groups().len() && #[trigger] self.ids()[i] == object_id@
                    && self.groups()[i].subscriber_origins().contains(origin@),
    {
        match self.find(object_id) {
            Some(i) => {
                proof {
                    self.lemma_index_unique(i as int);
                }
                self.groups[i].contains_subscriber(origin)
            },
            None => false,
        }
    }

    /// Creates the object's group unless it already has one; the replica is
    /// loaded from `stored`, the bytes durable storage holds for the object.
    /// Returns whether a group was created, or the decode error when the
    /// stored bytes are no encoded replica; then no group is registered.
    pub fn create_group_if_need(
        &mut self,
        uid: i64,
        workspace_id: &str,
        object_id: &str,
        collab_type: CollabType,
        stored: Option<&Vec<u8>>,
        now: u64,
    ) -> (r: Result<bool, DecodeError>)
        requires
            old(self).wf(),
        ensures
            final(self).wf(),
            final(self).debug_view() == old(self).debug_view(),
            old(self).ids().contains(object_id@) ==> r == Ok::<bool, DecodeError>(false),
            !old(self).ids().contains(object_id@) ==> (r is Err <==> !stored_decodes(opt_bytes(stored))),
            !old(self).ids().contains(object_id@) && stored_decodes(opt_bytes(stored)) ==> r == Ok::<
                bool,
                DecodeError,
            >(true),
            r != Ok::<bool, DecodeError>(true) ==> final(self).groups() == old(self).groups(),
            r == Ok::<bool, DecodeError>(true) ==> final(self).groups().len() == old(self).groups().len() + 1,
            r == Ok::<bool, DecodeError>(true) ==> final(self).groups().drop_last() == old(self).groups(),
            r == Ok::<bool, DecodeError>(true) ==> ({
                let g = final(self).groups().last();
                &&& g.object_id_view() == object_id@
                &&& g.workspace_id_view() == workspace_id@
                &&& g.owner() == uid
                &&& g.collab_type_view() == collab_type
                &&& g.chunks() == loaded_state(opt_bytes(stored))
                &&& g.history() == Seq::<crate::broadcast::MessageView>::empty()
                &&& g.subscriber_origins() == Seq::<(i64, Seq<char>)>::empty()
                &&& g.modified() == now
            }),
    {
        if self.find(object_id).is_some() {
            return Ok(false);
        }
        let g = match CollabGroup::new(object_id, workspace_id, uid, collab_type, stored, now, self.debug_timeouts) {
            Ok(g) => g,
            Err(e) => {
                return Err(e);
            },
        };
        let ghost before = self.groups@;
        self.groups.push(g);
        proof {
            assert(self.groups@.drop_last() =~= before);
            assert(self.ids() =~= old(self).ids().push(object_id@));
            assert forall|i: int, j: int|
                0 <= i < self.ids().len() && 0 <= j < self.ids().len() && i != j implies self.ids()[i]
                != self.ids()[j] by {
                if i < before.len() && j < before.len() {
                    assert(old(self).ids()[i] != old(self).ids()[j]);
                } else if i < before.len() {
                    assert(old(self).ids()[i] == self.ids()[i]);
                } else if j < before.len() {
                    assert(old(self).ids()[j] == self.ids()[j]);
                }
            }
        }
        Ok(true)
    }
}

impl CollabGroupCache {
    /// Putting back a group of the same identity keeps the registry sound.
    proof fn lemma_replaced(&self, old_cache: &CollabGroupCache, i: int, g: CollabGroup)
        requires
            old_cache.wf(),
            0 <= i < old_cache.groups().len(),
            g.wf(),
            crate::group::same_identity(old_cache.groups()[i], g),
            self.groups() == old_cache.groups().update(i, g),
            self.debug_view() == old_cache.debug_view(),
        ensures
            self.wf(),
            self.ids() == old_cache.ids(),
    {
        assert(self.ids() =~= old_cache.ids());
    }

    /// Subscribes `origin` to the object's group, replacing a prior
    /// subscriber of the same origin, which is handed back to be stopped.
    pub fn subscribe(&mut self, object_id: &str, origin: CollabOrigin) -> (r: Result<Option<Subscriber>, UpdateError>)
        requires
            old(self).wf(),
        ensures
            final(self).wf(),
            final(self).debug_view() == old(self).debug_view(),
            final(self).ids() == old(self).ids(),
            !old(self).ids().contains(object_id@) ==> r == Err::<Option<Subscriber>, UpdateError>(
                UpdateError::GroupNotFound,
            ) && final(self).groups() == old(self).groups(),
            forall|i: int|
                0 <= i < old(self).groups().len() && #[trigger] old(self).ids()[i] == object_id@ ==> r is Ok
                    && subscribe_outcome(old(self).groups()[i], final(self).groups()[i], origin@, r->Ok_0)
                    && final(self).groups() == old(self).groups().update(i, final(self).groups()[i]),
    {
        match self.find(object_id) {
            None => Err(UpdateError::GroupNotFound),
            Some(i) => {
                proof {
                    old(self).lemma_index_unique(i as int);
                }
                let mut g = self.groups.remove(i);
                let r = g.subscribe(origin);
                let ghost gv = g;
                self.groups.insert(i, g);
                proof {
                    assert(self.groups() =~= old(self).groups().update(i as int, gv));
                    self.lemma_replaced(old(self), i as int, gv);
                }
                Ok(r)
            },
        }
    }

    /// Detaches `origin` from the object's group; the group stays for the
    /// reaper to decide. Returns the subscriber to stop, if there was one.
    pub fn remove_user(&mut self, object_id: &str, origin: &CollabOrigin) -> (r: Option<Subscriber>)
        requires
            old(self).wf(),
        ensures
            final(self).wf(),
            final(self).debug_view() == old(self).debug_view(),
            final(self).ids() == old(self).ids(),
            !old(self).ids().contains(object_id@) ==> r is None && final(self).groups() == old(self).groups(),
            forall|i: int|
                0 <= i < old(self).groups().len() && #[trigger] old(self).ids()[i] == object_id@
                    ==> unsubscribe_outcome(old(self).groups()[i], final(self).groups()[i], origin@, r)
                    && final(self).groups() == old(self).groups().update(i, final(self).groups()[i]),
    {
        match self.find(object_id) {
            None => None,
            Some(i) => {
                proof {
                    old(self).lemma_index_unique(i as int);
                }
                let mut g = self.groups.remove(i);
                let r = g.remove_subscriber(origin);
                let ghost gv = g;
                self.groups.insert(i, g);
                proof {
                    assert(self.groups() =~= old(self).groups().update(i as int, gv));
                    self.lemma_replaced(old(self), i as int, gv);
                }
                r
            },
        }
    }

    /// Applies a client's update to the object's group; see
    /// [`CollabGroup::apply_update`].
    pub fn apply_update(
        &mut self,
        object_id: &str,
        store: &PolicyStore,
        origin: &CollabOrigin,
        update: Vec<u8>,
        now: u64,
    ) -> (r: Result<u64, UpdateError>)
        requires
            old(self).wf(),
        ensures
            final(self).wf(),
            final(self).debug_view() == old(self).debug_view(),
            final(self).ids() == old(self).ids(),
            !old(self).ids().contains(object_id@) ==> r == Err::<u64, UpdateError>(UpdateError::GroupNotFound)
                && final(self).groups() == old(self).groups(),
            forall|i: int|
                0 <= i < old(self).groups().len() && #[trigger] old(self).ids()[i] == object_id@
                    ==> update_outcome(old(self).groups()[i], final(self).groups()[i], store@, origin@, update@, now, r)
                    && final(self).groups() == old(self).groups().update(i, final(self).groups()[i]),
    {
        match self.find(object_id) {
            None => Err(UpdateError::GroupNotFound),
            Some(i) => {
                proof {
                    old(self).lemma_index_unique(i as int);
                }
                let mut g = self.groups.remove(i);
                let r = g.apply_update(store, origin, update, now);
                let ghost gv = g;
                self.groups.insert(i, g);
                proof {
                    assert(self.groups() =~= old(self).groups().update(i as int, gv));
                    self.lemma_replaced(old(self), i as int, gv);
                }
                r
            },
        }
    }

    /// Broadcasts presence information in the object's group; see
    /// [`CollabGroup::apply_awareness`].
    pub fn apply_awareness(&mut self, object_id: &str, store: &PolicyStore, origin: &CollabOrigin, payload: Vec<u8>) -> (r: Result<u64, UpdateError>)
        requires
            old(self).wf(),
        ensures
            final(self).wf(),
            final(self).debug_view() == old(self).debug_view(),
            final(self).ids() == old(self).ids(),
            !old(self).ids().contains(object_id@) ==> r == Err::<u64, UpdateError>(UpdateError::GroupNotFound)
                && final(self).groups() == old(self).groups(),
            forall|i: int|
                0 <= i < old(self).groups().len() && #[trigger] old(self).ids()[i] == object_id@
                    ==> awareness_outcome(old(self).groups()[i], final(self).groups()[i], store@, origin@, payload@, r)
                    && final(self).groups() == old(self).groups().update(i, final(self).groups()[i]),
    {
        match self.find(object_id) {
            None => Err(UpdateError::GroupNotFound),
            Some(i) => {
                proof {
                    old(self).lemma_index_unique(i as int);
                }
                let mut g = self.groups.remove(i);
                let r = g.apply_awareness(store, origin, payload);
                let ghost gv = g;
                self.groups.insert(i, g);
                proof {
                    assert(self.groups() =~= old(self).groups().update(i as int, gv));
                    self.lemma_replaced(old(self), i as int, gv);
                }
                r
            },
        }
    }

    /// Flushes the object's group; see [`CollabGroup::flush_collab`].
    pub fn flush_group(&mut self, object_id: &str, store: &PolicyStore) -> (r: Option<Result<Vec<u8>, FlushError>>)
        requires
            old(self).wf(),
        ensures
            final(self).wf(),
            final(self).debug_view() == old(self).debug_view(),
            final(self).ids() == old(self).ids(),
            !old(self).ids().contains(object_id@) ==> r is None && final(self).groups() == old(self).groups(),
            forall|i: int|
                0 <= i < old(self).groups().len() && #[trigger] old(self).ids()[i] == object_id@ ==> r is Some
                    && flush_outcome(old(self).groups()[i], final(self).groups()[i], store@, r->Some_0)
                    && final(self).groups() == old(self).groups().update(i, final(self).groups()[i]),
    {
        match self.find(object_id) {
            None => None,
            Some(i) => {
                proof {
                    old(self).lemma_index_unique(i as int);
                }
                let mut g = self.groups.remove(i);
                let r = g.flush_collab(store);
                let ghost gv = g;
                self.groups.insert(i, g);
                proof {
                    assert(self.groups() =~= old(self).groups().update(i as int, gv));
                    self.lemma_replaced(old(self), i as int, gv);
                }
                Some(r)
            },
        }
    }

    /// The next thing to send to `origin` in the object's group; see
    /// [`CollabGroup::next_for`].
    pub fn next_for(&mut self, object_id: &str, origin: &CollabOrigin) -> (r: Option<Outbound>)
        requires
            old(self).wf(),
        ensures
            final(self).wf(),
            final(self).debug_view() == old(self).debug_view(),
            final(self).ids() == old(self).ids(),
            !old(self).ids().contains(object_id@) ==> r is None && final(self).groups() == old(self).groups(),
            forall|i: int|
                0 <= i < old(self).groups().len() && #[trigger] old(self).ids()[i] == object_id@
                    ==> next_outcome(old(self).groups()[i], final(self).groups()[i], origin@, r)
                    && final(self).groups() == old(self).groups().update(i, final(self).groups()[i]),
    {
        match self.find(object_id) {
            None => None,
            Some(i) => {
                proof {
                    old(self).lemma_index_unique(i as int);
                }
                let mut g = self.groups.remove(i);
                let r = g.next_for(origin);
                let ghost gv = g;
                self.groups.insert(i, g);
                proof {
                    assert(self.groups() =~= old(self).groups().update(i as int, gv));
                    self.lemma_replaced(old(self), i as int, gv);
                }
                r
            },
        }
    }
}

/// `e` is what evicting one of `groups`, inactive at `now`, leaves.
pub open spec fn evicted_inactive(groups: Seq<CollabGroup>, e: Evicted, now: u64, ps: Seq<PolicyView>) -> bool {
    exists|j: int|
        0 <= j < groups.len() && #[trigger] groups[j].inactive_at(now) && evicted_from(groups[j], e, ps)
}

/// Removing one entry of a sequence without duplicates removes exactly that
/// value.
proof fn lemma_remove_no_dup<A>(s: Seq<A>, i: int)
    requires
        s.no_duplicates(),
        0 <= i < s.len(),
    ensures
        s.remove(i).no_duplicates(),
        forall|x: A| #[trigger] s.remove(i).contains(x) <==> (s.contains(x) && x != s[i]),
{
    let t = s.remove(i);
    assert forall|a: int, b: int| 0 <= a < t.len() && 0 <= b < t.len() && a != b implies t[a] != t[b] by {
        let a2 = if a < i { a } else { a + 1 };
        let b2 = if b < i { b } else { b + 1 };
        assert(t[a] == s[a2] && t[b] == s[b2]);
    }
    assert forall|x: A| #[trigger] t.contains(x) <==> (s.contains(x) && x != s[i]) by {
        if t.contains(x) {
            let k = choose|k: int| 0 <= k < t.len() && t[k] == x;
            let k2 = if k < i { k } else { k + 1 };
            assert(s[k2] == x);
        }
        if s.contains(x) && x != s[i] {
            let k = choose|k: int| 0 <= k < s.len() && s[k] == x;
            if k < i {
                assert(t[k] == x);
            } else {
                assert(t[k - 1] == x);
            }
        }
    }
}

impl CollabGroupCache {
    /// Takes out the group at `i` and evicts it.
    fn evict_at(&mut self, i: usize, store: &PolicyStore) -> (r: Evicted)
        requires
            old(self).wf(),
            i < old(self).groups().len(),
        ensures
            final(self).wf(),
            final(self).debug_view() == old(self).debug_view(),
            final(self).groups() == old(self).groups().remove(i as int),
            final(self).ids() == old(self).ids().remove(i as int),
            evicted_from(old(self).groups()[i as int], r, store@),
            forall|x: Seq<char>| #[trigger] final(self).ids().contains(x) <==> (old(self).ids().contains(x)
                && x != old(self).ids()[i as int]),
    {
        let g = self.groups.remove(i);
        proof {
            assert(self.ids() =~= old(self).ids().remove(i as int));
            lemma_remove_no_dup(old(self).ids(), i as int);
            assert forall|k: int| 0 <= k < self.groups@.len() implies (#[trigger] self.groups@[k]).wf()
                && self.groups@[k].debug_view() == self.debug_timeouts by {
                if k < i {
                    assert(self.groups@[k] == old(self).groups@[k]);
                } else {
                    assert(self.groups@[k] == old(self).groups@[k + 1]);
                }
            }
        }
        g.evict(store)
    }

    /// Removes the object's group: its replica is flushed first, then its
    /// subscribers are handed out to be stopped. Nothing happens when the
    /// object has no group.
    pub fn remove_group(&mut self, object_id: &str, store: &PolicyStore) -> (r: Option<Evicted>)
        requires
            old(self).wf(),
        ensures
            final(self).wf(),
            final(self).debug_view() == old(self).debug_view(),
            r is Some <==> old(self).ids().contains(object_id@),
            !final(self).ids().contains(object_id@),
            forall|x: Seq<char>|
                x != object_id@ ==> (#[trigger] final(self).ids().contains(x) <==> old(self).ids().contains(x)),
            r is None ==> final(self).groups() == old(self).groups(),
            forall|i: int|
                0 <= i < old(self).groups().len() && #[trigger] old(self).ids()[i] == object_id@ ==> r is Some
                    && evicted_from(old(self).groups()[i], r->Some_0, store@)
                    && final(self).groups() == old(self).groups().remove(i),
    {
        match self.find(object_id) {
            None => None,
            Some(i) => {
                proof {
                    old(self).lemma_index_unique(i as int);
                }
                Some(self.evict_at(i, store))
            },
        }
    }

    /// One reaper pass: walks the groups in order and evicts those inactive
    /// at `now`, at most [`MAX_EVICTIONS_PER_TICK`] of them. When it evicts
    /// fewer, no inactive group is left.
    pub fn tick(&mut self, now: u64, store: &PolicyStore) -> (r: Vec<Evicted>)
        requires
            old(self).wf(),
        ensures
            final(self).wf(),
            final(self).debug_view() == old(self).debug_view(),
            r.len() <= MAX_EVICTIONS_PER_TICK,
            r@.map_values(|e: Evicted| e.object_id@).no_duplicates(),
            forall|k: int| 0 <= k < r.len() ==> evicted_inactive(old(self).groups(), #[trigger] r@[k], now, store@),
            forall|x: Seq<char>| #[trigger]
                final(self).ids().contains(x) <==> (old(self).ids().contains(x) && !r@.map_values(
                    |e: Evicted| e.object_id@,
                ).contains(x)),
            forall|k: int|
                0 <= k < final(self).groups().len() ==> old(self).groups().contains(
                    #[trigger] final(self).groups()[k],
                ),
            r.len() < MAX_EVICTIONS_PER_TICK ==> forall|k: int|
                0 <= k < final(self).groups().len() ==> !(#[trigger] final(self).groups()[k]).inactive_at(now),
    {
        let mut evicted: Vec<Evicted> = Vec::new();
        let mut i: usize = 0;
        while i < self.groups.len() && evicted.len() < MAX_EVICTIONS_PER_TICK
            invariant
                self.wf(),
                self.debug_view() == old(self).debug_view(),
                i <= self.groups().len(),
                evicted.len() <= MAX_EVICTIONS_PER_TICK,
                evicted@.map_values(|e: Evicted| e.object_id@).no_duplicates(),
                forall|k: int| 0 <= k < i ==> !(#[trigger] self.groups()[k]).inactive_at(now),
                forall|k: int|
                    0 <= k < evicted.len() ==> evicted_inactive(old(self).groups(), #[trigger] evicted@[k], now, store@),
                forall|x: Seq<char>| #[trigger]
                    self.ids().contains(x) <==> (old(self).ids().contains(x) && !evicted@.map_values(
                        |e: Evicted| e.object_id@,
                    ).contains(x)),
                forall|k: int|
                    0 <= k < self.groups().len() ==> old(self).groups().contains(#[trigger] self.groups()[k]),
            decreases self.groups().len() - i + MAX_EVICTIONS_PER_TICK - evicted.len(),
        {
            if self.groups[i].is_inactive(now) {
                let ghost before = *self;
                let ghost ev_before = evicted@;
                let ghost gi = self.groups()[i as int];
                assert(old(self).groups().contains(gi));
                let ghost j = choose|j: int| 0 <= j < old(self).groups().len() && old(self).groups()[j] == gi;
                let e = self.evict_at(i, store);
                evicted.push(e);
                proof {
                    assert(evicted@[ev_before.len() as int] == e);
                    assert(old(self).ids()[j] == gi.object_id_view());
                    assert forall|k: int|
                        0 <= k < evicted.len() implies evicted_inactive(old(self).groups(), #[trigger] evicted@[k], now, store@) by {
                        if k < ev_before.len() {
                            assert(evicted@[k] == ev_before[k]);
                        } else {
                            assert(old(self).groups()[j].inactive_at(now));
                        }
                    }
                    let evs = evicted@.map_values(|e: Evicted| e.object_id@);
                    let evs0 = ev_before.map_values(|e: Evicted| e.object_id@);
                    assert(evs =~= evs0.push(e.object_id@));
                    assert(before.ids()[i as int] == e.object_id@);
                    assert(before.ids().contains(e.object_id@));
                    assert(!evs0.contains(e.object_id@));
                    assert forall|a: int, b: int| 0 <= a < evs.len() && 0 <= b < evs.len() && a != b implies evs[a]
                        != evs[b] by {
                        if a < evs0.len() && b < evs0.len() {
                            assert(evs[a] == evs0[a] && evs[b] == evs0[b]);
                        } else if a < evs0.len() {
                            assert(evs[a] == evs0[a]);
                        } else if b < evs0.len() {
                            assert(evs[b] == evs0[b]);
                        }
                    }
                    assert forall|x: Seq<char>| #[trigger] self.ids().contains(x) <==> (old(self).ids().contains(x)
                        && !evs.contains(x)) by {
                        if x == e.object_id@ {
                            assert(evs[evs0.len() as int] == x);
                        } else {
                            if evs.contains(x) {
                                let q = choose|q: int| 0 <= q < evs.len() && evs[q] == x;
                                assert(evs0[q] == x);
                            }
                            if evs0.contains(x) {
                                let q = choose|q: int| 0 <= q < evs0.len() && evs0[q] == x;
                                assert(evs[q] == x);
                            }
                        }
                    }
                    assert forall|k: int| 0 <= k < self.groups().len() implies old(self).groups().contains(
                        #[trigger] self.groups()[k],
                    ) by {
                        if k < i {
                            assert(self.groups()[k] == before.groups()[k]);
                        } else {
                            assert(self.groups()[k] == before.groups()[k + 1]);
                        }
                    }
                    assert forall|k: int| 0 <= k < i implies !(#[trigger] self.groups()[k]).inactive_at(now) by {
                        assert(self.groups()[k] == before.groups()[k]);
                    }
                }
            } else {
                i = i + 1;
            }
        }
        evicted
    }
}

/// The registry never holds two groups for one object.
pub proof fn lemma_one_group_per_object(cache: &CollabGroupCache, i: int, j: int)
    requires
        cache.wf(),
        0 <= i < cache.groups().len(),
        0 <= j < cache.groups().len(),
        cache.ids()[i] == cache.ids()[j],
    ensures
        i == j,
{
}

} // verus!
