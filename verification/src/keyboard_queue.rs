//! The queue of decoded key presses between the keyboard interrupt and the
//! main loop: a fixed ring of 64 slots that never allocates after it is
//! made; when it is full, a new press pushes out the oldest one.
use vstd::prelude::*;
use pc_keyboard::DecodedKey;

verus! {

/// pc_keyboard's `DecodedKey` (a character or a raw key code), which the
/// queue carries without looking inside; nothing is claimed of it.
#[verifier::external_type_specification]
#[verifier::external_body]
pub struct ExDecodedKey(DecodedKey);

pub const CAPACITY: usize = 64;

/// A key press with the state of Ctrl and Alt at the time.
#[derive(Clone, Copy)]
pub struct KeyEvent {
    pub key: DecodedKey,
    pub ctrl: bool,
    pub alt: bool,
}

/// The queue after a press is pushed: appended at the end, and the oldest
/// press dropped when the queue was full.
pub open spec fn queue_push(q: Seq<KeyEvent>, e: KeyEvent) -> Seq<KeyEvent> {
    if q.len() < CAPACITY {
        q.push(e)
    } else {
        q.drop_first().push(e)
    }
}

/// A full queue that takes a new press holds the latest `CAPACITY` presses
/// in the order they came.
pub proof fn law_push_keeps_latest(q: Seq<KeyEvent>, e: KeyEvent)
    requires
        q.len() <= CAPACITY,
    ensures
        queue_push(q, e).len() <= CAPACITY,
        queue_push(q, e) == q.push(e).skip(q.len() + 1 - queue_push(q, e).len()),
        queue_push(q, e).last() == e,
{
    if q.len() < CAPACITY {
        assert(q.push(e).skip(0) =~= q.push(e));
    } else {
        assert(q.push(e).skip(1) =~= q.drop_first().push(e));
    }
}

pub struct RingBuffer {
    buf: Vec<Option<KeyEvent>>,
    head: usize,
    tail: usize,
    len: usize,
}

impl RingBuffer {
    pub closed spec fn wf(&self) -> bool {
        &&& self.buf@.len() == CAPACITY
        &&& self.head < CAPACITY
        &&& self.tail < CAPACITY
        &&& self.len <= CAPACITY
        &&& self.tail == (self.head + self.len) % (CAPACITY as int)
        &&& forall|i: int| 0 <= i < self.len ==> (#[trigger] self.buf@[(self.head + i) % (CAPACITY as int)]) is Some
    }

    /// The queued presses, oldest first.
    pub closed spec fn view(&self) -> Seq<KeyEvent> {
        Seq::new(self.len as nat, |i: int| self.buf@[(self.head + i) % (CAPACITY as int)]->0)
    }

    pub fn new() -> (r: RingBuffer)
        ensures
            r.wf(),
            r.view() == Seq::<KeyEvent>::empty(),
    {
        let mut buf: Vec<Option<KeyEvent>> = Vec::new();
        let mut i: usize = 0;
        while i < CAPACITY
            invariant
                i <= CAPACITY,
                buf@.len() == i,
            decreases CAPACITY - i,
        {
            buf.push(None);
            i = i + 1;
        }
        let r = RingBuffer { buf, head: 0, tail: 0, len: 0 };
        assert(r.view() =~= Seq::<KeyEvent>::empty());
        r
    }

    /// The queue never holds more than `CAPACITY` presses.
    pub proof fn law_bounded(&self)
        requires
            self.wf(),
        ensures
            self.view().len() <= CAPACITY,
    {
    }

    pub fn len(&self) -> (n: usize)
        requires
            self.wf(),
        ensures
            n == self.view().len(),
    {
        self.len
    }

    /// Queues a press; when all 64 slots are taken, the oldest press is
    /// dropped to make room.
    #[verifier::rlimit(30)]
    pub fn push(&mut self, event: KeyEvent)
        requires
            old(self).wf(),
        ensures
            final(self).wf(),
            final(self).view() == queue_push(old(self).view(), event),
    {
        let ghost v0 = self.view();
        if self.len == CAPACITY {
            self.head = (self.head + 1) % CAPACITY;
            self.len = self.len - 1;
            assert(self.view() =~= v0.drop_first()) by {
                assert forall|i: int| 0 <= i < self.len implies #[trigger] self.view()[i] == v0.drop_first()[i] by {
                    assert((old(self).head + (i + 1)) % (CAPACITY as int) == (self.head + i) % (CAPACITY as int));
                }
            }
            assert forall|i: int| 0 <= i < self.len implies (#[trigger] self.buf@[(self.head + i) % (CAPACITY as int)]) is Some by {
                assert((old(self).head + (i + 1)) % (CAPACITY as int) == (self.head + i) % (CAPACITY as int));
            }
        }
        let ghost v1 = self.view();
        let ghost buf1 = self.buf@;
        self.buf.set(self.tail, Some(event));
        self.tail = (self.tail + 1) % CAPACITY;
        self.len = self.len + 1;
        assert(self.view() =~= v1.push(event)) by {
            assert forall|i: int| 0 <= i < self.len implies #[trigger] self.view()[i] == v1.push(event)[i] by {
                if i < self.len - 1 {
                    assert(self.buf@[(self.head + i) % (CAPACITY as int)] == buf1[(self.head + i) % (CAPACITY as int)]);
                }
            }
        }
        assert(v1 == (if v0.len() < CAPACITY { v0 } else { v0.drop_first() }));
    }

    /// Takes the oldest press, if there is one.
    pub fn pop(&mut self) -> (r: Option<KeyEvent>)
        requires
            old(self).wf(),
        ensures
            final(self).wf(),
            old(self).view().len() == 0 ==> r is None && final(self).view() == old(self).view(),
            old(self).view().len() > 0 ==> r == Some(old(self).view()[0]) && final(self).view()
                == old(self).view().drop_first(),
    {
        if self.len == 0 {
            return None;
        }
        let ghost v0 = self.view();
        let event = self.buf[self.head];
        assert(self.buf@[(self.head + 0) % (CAPACITY as int)] is Some);
        assert((self.head + 0) % (CAPACITY as int) == self.head);
        self.buf.set(self.head, None);
        self.head = (self.head + 1) % CAPACITY;
        self.len = self.len - 1;
        assert forall|i: int| 0 <= i < self.len implies (#[trigger] self.buf@[(self.head + i) % (CAPACITY as int)]) is Some by {
            assert((old(self).head + (i + 1)) % (CAPACITY as int) == (self.head + i) % (CAPACITY as int));
        }
        assert(self.view() =~= v0.drop_first()) by {
            assert forall|i: int| 0 <= i < self.len implies #[trigger] self.view()[i] == v0.drop_first()[i] by {
                assert((old(self).head + (i + 1)) % (CAPACITY as int) == (self.head + i) % (CAPACITY as int));
            }
        }
        event
    }
}

} // verus!
