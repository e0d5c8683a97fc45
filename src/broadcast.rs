//! Per-object fan-out: a bounded buffer of the most recent messages over the
//! full history of what was sent, read by each subscriber through a cursor.
use vstd::prelude::*;

verus! {

/// The author of a message: a user on one device.
#[derive(Clone, Debug)]
pub struct CollabOrigin {
    pub uid: i64,
    pub device_id: String,
}

impl View for CollabOrigin {
    type V = (i64, Seq<char>);

    open spec fn view(&self) -> (i64, Seq<char>) {
        (self.uid, self.device_id@)
    }
}

impl CollabOrigin {
    /// A copy with the same uid and device.
    pub fn copy(&self) -> (r: CollabOrigin)
        ensures
            r@ == self@,
    {
        CollabOrigin { uid: self.uid, device_id: self.device_id.clone() }
    }

    /// Whether two origins name the same user on the same device.
    pub fn same_as(&self, other: &CollabOrigin) -> (r: bool)
        ensures
            r == (self@ == other@),
    {
        self.uid == other.uid && self.device_id == other.device_id
    }
}

/// Whether a message changes the document or only carries presence.
#[derive(Clone, Copy, Debug, PartialEq, Eq, Hash, Structural)]
pub enum MessageKind {
    Update,
    Awareness,
}

/// One message of the broadcast stream.
#[derive(Clone, Debug)]
pub struct CollabMessage {
    pub origin: CollabOrigin,
    pub kind: MessageKind,
    pub payload: Vec<u8>,
}

/// Mathematical form of a [`CollabMessage`].
pub struct MessageView {
    pub origin: (i64, Seq<char>),
    pub kind: MessageKind,
    pub payload: Seq<u8>,
}

impl View for CollabMessage {
    type V = MessageView;

    open spec fn view(&self) -> MessageView {
        MessageView { origin: self.origin@, kind: self.kind, payload: self.payload@ }
    }
}

/// A copy of a byte vector.
pub fn copy_bytes(v: &Vec<u8>) -> (r: Vec<u8>)
    ensures
        r@ == v@,
{
    let mut out: Vec<u8> = Vec::new();
    let mut i: usize = 0;
    while i < v.len()
        invariant
            i <= v.len(),
            out@ == v@.take(i as int),
        decreases v.len() - i,
    {
        out.push(v[i]);
        i = i + 1;
        assert(out@ =~= v@.take(i as int));
    }
    assert(v@.take(v.len() as int) =~= v@);
    out
}

impl CollabMessage {
    /// A copy with the same origin, kind and payload.
    pub fn copy(&self) -> (r: CollabMessage)
        ensures
            r@ == self@,
    {
        CollabMessage { origin: self.origin.copy(), kind: self.kind, payload: copy_bytes(&self.payload) }
    }
}

/// What one read of the stream at a cursor finds.
#[derive(Debug)]
pub enum Received {
    /// The cursor points at messages already dropped; reading resumes at
    /// `resume` after a full resync.
    Lagged { resume: u64 },
    /// The message with sequence number `seq`.
    Message { seq: u64, message: CollabMessage },
    /// Nothing newer than the cursor.
    Empty,
}

/// The bounded per-object broadcast.
pub struct CollabBroadcast {
    buffer: Vec<CollabMessage>,
    start: u64,
    capacity: usize,
    history: Ghost<Seq<MessageView>>,
}

/// Sequence number of the oldest message still held, given how many were sent
/// and how many are kept.
pub open spec fn oldest_kept(sent: int, capacity: int) -> int {
    if sent <= capacity {
        0
    } else {
        sent - capacity
    }
}

impl CollabBroadcast {
    /// Every message sent so far, in the order it was sent.
    pub closed spec fn history(&self) -> Seq<MessageView> {
        self.history@
    }

    /// How many recent messages are kept.
    pub closed spec fn capacity(&self) -> nat {
        self.capacity as nat
    }

    /// Sequence number of the oldest message still held.
    pub open spec fn start_seq(&self) -> int {
        oldest_kept(self.history().len() as int, self.capacity() as int)
    }

    /// Sequence number the next message will get.
    pub open spec fn end_seq(&self) -> int {
        self.history().len() as int
    }

    pub closed spec fn wf(&self) -> bool {
        &&& self.capacity > 0
        &&& self.history@.len() <= u64::MAX
        &&& self.start as int == oldest_kept(self.history@.len() as int, self.capacity as int)
        &&& self.buffer@.len() == self.history@.len() - self.start
        &&& forall|i: int|
            0 <= i < self.buffer@.len() ==> (#[trigger] self.buffer@[i])@ == self.history@[self.start + i]
    }

    /// An empty broadcast that keeps the `capacity` most recent messages.
    pub fn new(capacity: usize) -> (r: CollabBroadcast)
        requires
            capacity > 0,
        ensures
            r.wf(),
            r.history() == Seq::<MessageView>::empty(),
            r.capacity() == capacity,
    {
        CollabBroadcast { buffer: Vec::new(), start: 0, capacity, history: Ghost(Seq::empty()) }
    }

    /// Sequence number the next message will get.
    pub fn next_seq(&self) -> (r: u64)
        requires
            self.wf(),
        ensures
            r == self.end_seq(),
    {
        self.start + self.buffer.len() as u64
    }

    /// Appends a message; when the buffer is full the oldest one is dropped.
    /// Never blocks.
    pub fn send(&mut self, message: CollabMessage)
        requires
            old(self).wf(),
            old(self).end_seq() < u64::MAX,
        ensures
            final(self).wf(),
            final(self).history() == old(self).history().push(message@),
            final(self).capacity() == old(self).capacity(),
    {
        let ghost m = message@;
        self.buffer.push(message);
        self.history = Ghost(self.history@.push(m));
        if self.buffer.len() > self.capacity {
            self.buffer.remove(0);
            self.start = self.start + 1;
        }
        assert forall|i: int| 0 <= i < self.buffer@.len() implies (#[trigger] self.buffer@[i])@
            == self.history@[self.start + i] by {
            if self.start == old(self).start {
                if i < old(self).buffer@.len() {
                    assert(self.buffer@[i] == old(self).buffer@[i]);
                }
            } else {
                assert(self.buffer@[i] == old(self).buffer@.push(message)[i + 1]);
                if i + 1 < old(self).buffer@.len() {
                    assert(old(self).buffer@[i + 1]@ == old(self).history@[old(self).start + i + 1]);
                }
            }
        }
    }

    /// Reads the stream at `cursor`.
    pub fn recv(&self, cursor: u64) -> (r: Received)
        requires
            self.wf(),
        ensures
            cursor < self.start_seq() ==> r == (Received::Lagged { resume: self.start_seq() as u64 }),
            self.start_seq() <= cursor < self.end_seq() ==> (match r {
                Received::Message { seq, message } => seq == cursor && message@ == self.history()[cursor as int],
                _ => false,
            }),
            cursor >= self.end_seq() ==> r is Empty,
    {
        if cursor < self.start {
            Received::Lagged { resume: self.start }
        } else if cursor - self.start < self.buffer.len() as u64 {
            let message = self.buffer[(cursor - self.start) as usize].copy();
            Received::Message { seq: cursor, message }
        } else {
            Received::Empty
        }
    }
}

/// One subscriber's reading position and identity.
#[derive(Debug)]
pub struct Subscriber {
    pub origin: CollabOrigin,
    /// Sequence number of the next message this subscriber will look at.
    pub cursor: u64,
}

/// What a subscriber's outbound side sends next.
#[derive(Debug)]
pub enum Outbound {
    /// Messages were dropped before this subscriber saw them: it must resync
    /// from a full snapshot, and reading resumes at `resume`.
    Resync { resume: u64 },
    /// A message from another origin, with its sequence number.
    Deliver { seq: u64, message: CollabMessage },
    /// Nothing to send right now.
    Idle,
}

impl CollabBroadcast {
    /// The next thing to send to `sub`: skips the subscriber's own messages,
    /// delivers the first message of another origin, or signals a resync when
    /// the subscriber fell behind what is kept. Each delivered message is the
    /// one sent at its sequence number, and sequence numbers only grow.
    pub fn next_for(&self, sub: &mut Subscriber) -> (r: Outbound)
        requires
            self.wf(),
        ensures
            final(sub).origin == old(sub).origin,
            match r {
                Outbound::Resync { resume } => {
                    &&& old(sub).cursor < self.start_seq()
                    &&& resume == self.start_seq()
                    &&& final(sub).cursor == resume
                },
                Outbound::Deliver { seq, message } => {
                    &&& self.start_seq() <= old(sub).cursor <= seq < self.end_seq()
                    &&& message@ == self.history()[seq as int]
                    &&& message@.origin != old(sub).origin@
                    &&& final(sub).cursor == seq + 1
                    &&& forall|k: int|
                        old(sub).cursor <= k < seq ==> (#[trigger] self.history()[k]).origin
                            == old(sub).origin@
                },
                Outbound::Idle => {
                    &&& self.start_seq() <= old(sub).cursor
                    &&& final(sub).cursor as int == if old(sub).cursor < self.end_seq() {
                        self.end_seq()
                    } else {
                        old(sub).cursor as int
                    }
                    &&& forall|k: int|
                        old(sub).cursor <= k < self.end_seq() ==> (#[trigger] self.history()[k]).origin
                            == old(sub).origin@
                },
            },
    {
        if sub.cursor < self.start {
            sub.cursor = self.start;
            return Outbound::Resync { resume: self.start };
        }
        let end = self.next_seq();
        while sub.cursor < end
            invariant
                self.wf(),
                end == self.end_seq(),
                sub.origin == old(sub).origin,
                self.start_seq() <= old(sub).cursor <= sub.cursor,
                sub.cursor <= end || sub.cursor == old(sub).cursor,
                forall|k: int|
                    old(sub).cursor <= k < sub.cursor ==> (#[trigger] self.history()[k]).origin
                        == old(sub).origin@,
            decreases end - sub.cursor,
        {
            let idx = (sub.cursor - self.start) as usize;
            let m = &self.buffer[idx];
            assert(m@ == self.history()[sub.cursor as int]);
            if !m.origin.same_as(&sub.origin) {
                let seq = sub.cursor;
                sub.cursor = seq + 1;
                return Outbound::Deliver { seq, message: m.copy() };
            }
            sub.cursor = sub.cursor + 1;
        }
        Outbound::Idle
    }
}

} // verus!
