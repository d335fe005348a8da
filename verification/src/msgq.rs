//! Kernel message queues: bounded queues kept in priority order, highest first,
//! first-in first-out among messages of equal priority.
use vstd::prelude::*;
use std::collections::VecDeque;

verus! {

pub const MAX_MSG_SIZE: usize = 512;

pub const MAX_QUEUE_DEPTH: usize = 64;

#[derive(Clone)]
pub struct Message {
    pub priority: u32,
    pub data: Vec<u8>,
}

pub struct MsgQueue {
    queue: VecDeque<Message>,
    cap: usize,
}

/// Priorities never rise from the front of the queue to its back.
pub open spec fn sorted_by_priority(q: Seq<Message>) -> bool {
    forall|i: int, j: int| 0 <= i < j < q.len() ==> q[i].priority >= q[j].priority
}

/// Where a message of priority `p` goes: behind every message of priority `p` or more.
pub open spec fn insert_pos(q: Seq<Message>, p: u32) -> int
    decreases q.len(),
{
    if q.len() == 0 || q[0].priority < p {
        0
    } else {
        1 + insert_pos(q.drop_first(), p)
    }
}

impl View for MsgQueue {
    type V = Seq<Message>;

    /// The queued messages, the next to be received first.
    closed spec fn view(&self) -> Seq<Message> {
        self.queue@
    }
}

impl MsgQueue {
    /// Largest number of messages the queue holds.
    pub closed spec fn capacity(&self) -> nat {
        self.cap as nat
    }

    pub closed spec fn wf(&self) -> bool {
        &&& self.cap <= MAX_QUEUE_DEPTH
        &&& self.queue@.len() <= self.cap
        &&& sorted_by_priority(self.queue@)
        &&& forall|i: int| 0 <= i < self.queue@.len() ==> #[trigger] self.queue@[i].data@.len() <= MAX_MSG_SIZE
    }

    /// An empty queue holding at most `cap` messages, and never more than `MAX_QUEUE_DEPTH`.
    pub fn new(cap: usize) -> (q: Self)
        ensures
            q.wf(),
            q@ == Seq::<Message>::empty(),
            q.capacity() == (if cap < MAX_QUEUE_DEPTH {
                cap
            } else {
                MAX_QUEUE_DEPTH
            }),
    {
        let cap = if cap < MAX_QUEUE_DEPTH {
            cap
        } else {
            MAX_QUEUE_DEPTH
        };
        MsgQueue { queue: VecDeque::new(), cap }
    }

    /// Queues `msg` behind every message of equal or higher priority.
    pub fn send(&mut self, msg: Message) -> (r: Result<(), &'static str>)
        requires
            old(self).wf(),
        ensures
            final(self).wf(),
            final(self).capacity() == old(self).capacity(),
            msg.data@.len() > MAX_MSG_SIZE ==> (r matches Err(e) && e@ == "message too large"@),
            msg.data@.len() <= MAX_MSG_SIZE && old(self)@.len() >= old(self).capacity() ==> (
            r matches Err(e) && e@ == "queue full"@),
            r is Err ==> final(self)@ == old(self)@,
            r is Ok <==> msg.data@.len() <= MAX_MSG_SIZE && old(self)@.len() < old(self).capacity(),
            r is Ok ==> final(self)@ == old(self)@.insert(insert_pos(old(self)@, msg.priority), msg),
    {
        if msg.data.len() > MAX_MSG_SIZE {
            return Err("message too large");
        }
        if self.queue.len() >= self.cap {
            return Err("queue full");
        }
        let mut pos: usize = 0;
        while pos < self.queue.len() && self.queue[pos].priority >= msg.priority
            invariant
                pos <= self.queue@.len(),
                self.queue@ == old(self).queue@,
                forall|i: int| 0 <= i < pos ==> #[trigger] self.queue@[i].priority >= msg.priority,
            decreases self.queue@.len() - pos,
        {
            pos = pos + 1;
        }
        proof {
            lemma_insert_pos(self.queue@, msg.priority, pos as int);
        }
        let ghost q0 = self.queue@;
        self.queue.insert(pos, msg);
        proof {
            let q = self.queue@;
            assert forall|i: int, j: int| 0 <= i < j < q.len() implies q[i].priority
                >= q[j].priority by {
                if j < pos {
                } else if j == pos {
                } else if i < pos {
                    assert(q0[i].priority >= msg.priority);
                } else if i == pos {
                    assert(q0[j - 1].priority < msg.priority || j - 1 < pos);
                }
            }
            assert forall|i: int| 0 <= i < q.len() implies #[trigger] q[i].data@.len() <= MAX_MSG_SIZE by {
                if i < pos {
                    assert(q[i] == q0[i]);
                } else if i > pos {
                    assert(q[i] == q0[i - 1]);
                }
            }
        }
        Ok(())
    }

    /// Takes the highest-priority message, the oldest among equals.
    pub fn recv(&mut self) -> (r: Option<Message>)
        requires
            old(self).wf(),
        ensures
            final(self).wf(),
            final(self).capacity() == old(self).capacity(),
            r is None <==> old(self)@.len() == 0,
            r is None ==> final(self)@ == old(self)@,
            r matches Some(m) ==> m == old(self)@[0] && final(self)@ == old(self)@.drop_first(),
    {
        let r = self.queue.pop_front();
        proof {
            let q = self.queue@;
            assert forall|i: int| 0 <= i < q.len() implies #[trigger] q[i].data@.len() <= MAX_MSG_SIZE by {
                assert(q[i] == old(self).queue@[i + 1]);
            }
        }
        r
    }

    /// Number of queued messages.
    pub fn len(&self) -> (r: usize)
        ensures
            r == self@.len(),
    {
        self.queue.len()
    }

    /// No message is queued.
    pub fn is_empty(&self) -> (r: bool)
        ensures
            r == (self@.len() == 0),
    {
        self.len() == 0
    }
}

/// In a queue sorted by priority, a position after the run of messages of
/// priority `p` or more and before every lower one is `insert_pos`.
proof fn lemma_insert_pos(q: Seq<Message>, p: u32, pos: int)
    requires
        sorted_by_priority(q),
        0 <= pos <= q.len(),
        forall|i: int| 0 <= i < pos ==> #[trigger] q[i].priority >= p,
        pos == q.len() || q[pos].priority < p,
    ensures
        insert_pos(q, p) == pos,
        forall|i: int| pos <= i < q.len() ==> #[trigger] q[i].priority < p,
    decreases q.len(),
{
    if pos > 0 {
        let t = q.drop_first();
        assert forall|i: int, j: int| 0 <= i < j < t.len() implies t[i].priority >= t[j].priority by {
            assert(t[i] == q[i + 1]);
            assert(t[j] == q[j + 1]);
        }
        assert forall|i: int| 0 <= i < pos - 1 implies #[trigger] t[i].priority >= p by {
            assert(t[i] == q[i + 1]);
        }
        lemma_insert_pos(t, p, pos - 1);
        assert forall|i: int| pos <= i < q.len() implies #[trigger] q[i].priority < p by {
            assert(q[i] == t[i - 1]);
        }
    } else {
        assert forall|i: int| pos <= i < q.len() implies #[trigger] q[i].priority < p by {
            assert(q[0].priority >= q[i].priority || i == 0);
        }
    }
}

/// `insert_pos` stops at the first message of lower priority.
proof fn lemma_insert_pos_bounds(q: Seq<Message>, p: u32)
    ensures
        0 <= insert_pos(q, p) <= q.len(),
        forall|i: int| 0 <= i < insert_pos(q, p) ==> #[trigger] q[i].priority >= p,
        insert_pos(q, p) == q.len() || q[insert_pos(q, p)].priority < p,
    decreases q.len(),
{
    if q.len() > 0 && q[0].priority >= p {
        let t = q.drop_first();
        lemma_insert_pos_bounds(t, p);
        assert forall|i: int| 0 <= i < insert_pos(q, p) implies #[trigger] q[i].priority >= p by {
            if i > 0 {
                assert(q[i] == t[i - 1]);
            }
        }
    }
}

/// The message that `recv` returns has the highest priority in the queue.
pub proof fn law_recv_takes_highest(q: &MsgQueue)
    requires
        q.wf(),
        q@.len() > 0,
    ensures
        forall|i: int| 0 <= i < q@.len() ==> q@[0].priority >= #[trigger] q@[i].priority,
{
}

/// A sent message lands behind every queued message of equal or higher priority
/// and ahead of every lower one, so equal priorities leave in the order they came.
pub proof fn law_send_order(q: &MsgQueue, msg: Message)
    requires
        q.wf(),
    ensures
        ({
            let pos = insert_pos(q@, msg.priority);
            let after = q@.insert(pos, msg);
            &&& 0 <= pos <= q@.len()
            &&& sorted_by_priority(after)
            &&& forall|i: int| 0 <= i < pos ==> #[trigger] q@[i].priority >= msg.priority
            &&& forall|i: int| pos <= i < q@.len() ==> #[trigger] q@[i].priority < msg.priority
        }),
{
    let s = q@;
    lemma_insert_pos_bounds(s, msg.priority);
    let pos = insert_pos(s, msg.priority);
    assert(sorted_by_priority(s));
    lemma_insert_pos(s, msg.priority, pos);
    let after = s.insert(pos, msg);
    assert forall|i: int, j: int| 0 <= i < j < after.len() implies after[i].priority
        >= after[j].priority by {
        if j < pos {
        } else if j == pos {
        } else if i < pos {
            assert(s[i].priority >= msg.priority);
        } else if i == pos {
        }
    }
}

/// A queue never holds more messages than its capacity, which is at most
/// `MAX_QUEUE_DEPTH`; it stays sorted by priority and each message fits the size limit.
pub proof fn law_queue_bounded(q: &MsgQueue)
    requires
        q.wf(),
    ensures
        q@.len() <= q.capacity() <= MAX_QUEUE_DEPTH,
        sorted_by_priority(q@),
        forall|i: int| 0 <= i < q@.len() ==> (#[trigger] q@[i]).data@.len() <= MAX_MSG_SIZE,
{
}

} // verus!
