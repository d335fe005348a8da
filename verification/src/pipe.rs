//! Anonymous kernel pipe: a ring buffer of `PIPE_BUF` bytes, no blocking.
use vstd::prelude::*;

verus! {

pub const PIPE_BUF: usize = 4096;

pub struct Pipe {
    buf: Vec<u8>,
    read_pos: usize,
    write_pos: usize,
    filled: usize,
}

/// The `count` bytes of the ring `buf` that start at `from`.
pub open spec fn ring_contents(buf: Seq<u8>, from: int, count: int) -> Seq<u8> {
    Seq::new(count as nat, |i: int| buf[(from + i) % (PIPE_BUF as int)])
}

impl View for Pipe {
    type V = Seq<u8>;

    /// The bytes waiting in the pipe, oldest first.
    closed spec fn view(&self) -> Seq<u8> {
        ring_contents(self.buf@, self.read_pos as int, self.filled as int)
    }
}

impl Pipe {
    pub closed spec fn wf(&self) -> bool {
        &&& self.buf@.len() == PIPE_BUF
        &&& self.read_pos < PIPE_BUF
        &&& self.write_pos < PIPE_BUF
        &&& self.filled <= PIPE_BUF
        &&& self.write_pos as int == (self.read_pos + self.filled) % (PIPE_BUF as int)
    }

    proof fn lemma_view_len(&self)
        requires
            self.wf(),
        ensures
            self@.len() == self.filled,
            self@.len() <= PIPE_BUF,
    {
    }

    /// An empty pipe.
    pub fn new() -> (p: Self)
        ensures
            p.wf(),
            p@ == Seq::<u8>::empty(),
    {
        let mut buf: Vec<u8> = Vec::with_capacity(PIPE_BUF);
        while buf.len() < PIPE_BUF
            invariant
                buf.len() <= PIPE_BUF,
            decreases PIPE_BUF - buf.len(),
        {
            buf.push(0);
        }
        let p = Pipe { buf, read_pos: 0, write_pos: 0, filled: 0 };
        assert(p@ =~= Seq::<u8>::empty());
        p
    }

    /// Appends as many bytes of `data` as there is room for; returns how many.
    pub fn write(&mut self, data: &[u8]) -> (n: usize)
        requires
            old(self).wf(),
        ensures
            final(self).wf(),
            n == (if data.len() <= PIPE_BUF - old(self)@.len() {
                data.len() as int
            } else {
                PIPE_BUF - old(self)@.len()
            }),
            final(self)@ == old(self)@ + data@.take(n as int),
    {
        let space = PIPE_BUF - self.filled;
        let n = if data.len() < space {
            data.len()
        } else {
            space
        };
        let ghost start = self@;
        let mut i: usize = 0;
        while i < n
            invariant
                self.buf@.len() == PIPE_BUF,
                self.read_pos == old(self).read_pos,
                self.filled == old(self).filled,
                self.read_pos < PIPE_BUF,
                self.filled + n <= PIPE_BUF,
                n <= data.len(),
                i <= n,
                self.write_pos as int == (self.read_pos + self.filled + i) % (PIPE_BUF as int),
                start == old(self)@,
                start.len() == self.filled,
                ring_contents(self.buf@, self.read_pos as int, self.filled + i) == start
                    + data@.take(i as int),
            decreases n - i,
        {
            let ghost before = self.buf@;
            let wp = self.write_pos;
            self.buf[wp] = data[i];
            self.write_pos = (wp + 1) % PIPE_BUF;
            proof {
                let r = self.read_pos as int;
                let m = self.filled + i;
                let p = PIPE_BUF as int;
                let prev = ring_contents(before, r, m);
                assert(prev == start + data@.take(i as int));
                assert forall|j: int| 0 <= j < m + 1 implies #[trigger] ring_contents(self.buf@, r, m + 1)[j]
                    == (start + data@.take(i + 1))[j] by {
                    if j < m {
                        assert((r + j) % p != wp as int);
                        assert(ring_contents(self.buf@, r, m + 1)[j] == prev[j]);
                    } else {
                        assert((r + j) % p == wp as int);
                    }
                }
                assert(ring_contents(self.buf@, r, m + 1) =~= start + data@.take(i + 1));
            }
            i = i + 1;
        }
        self.filled = self.filled + n;
        n
    }

    /// Moves up to `buf.len()` of the oldest bytes into `buf`; returns how many.
    pub fn read(&mut self, buf: &mut [u8]) -> (n: usize)
        requires
            old(self).wf(),
        ensures
            final(self).wf(),
            n == (if old(buf).len() <= old(self)@.len() {
                old(buf).len() as int
            } else {
                old(self)@.len() as int
            }),
            final(buf)@ == old(self)@.take(n as int) + old(buf)@.skip(n as int),
            final(self)@ == old(self)@.skip(n as int),
    {
        let n = if buf.len() < self.filled {
            buf.len()
        } else {
            self.filled
        };
        let ghost start = self@;
        let ghost out0 = buf@;
        let ghost r0 = self.read_pos as int;
        let mut i: usize = 0;
        while i < n
            invariant
                self.buf@ == old(self).buf@,
                self.buf@.len() == PIPE_BUF,
                self.filled == old(self).filled,
                self.write_pos == old(self).write_pos,
                self.read_pos < PIPE_BUF,
                r0 == old(self).read_pos,
                r0 < PIPE_BUF,
                self.read_pos as int == (r0 + i) % (PIPE_BUF as int),
                start == old(self)@,
                start == ring_contents(self.buf@, r0, self.filled as int),
                self.filled <= PIPE_BUF,
                n <= self.filled,
                n <= buf.len(),
                buf.len() == out0.len(),
                i <= n,
                forall|j: int| 0 <= j < i ==> #[trigger] buf@[j] == start[j],
                forall|j: int| i <= j < buf.len() ==> #[trigger] buf@[j] == out0[j],
            decreases n - i,
        {
            let rp = self.read_pos;
            buf[i] = self.buf[rp];
            self.read_pos = (rp + 1) % PIPE_BUF;
            assert(self.read_pos as int == (r0 + i + 1) % (PIPE_BUF as int));
            i = i + 1;
        }
        self.filled = self.filled - n;
        proof {
            assert(buf@ =~= start.take(n as int) + out0.skip(n as int));
            let p = PIPE_BUF as int;
            assert forall|j: int| 0 <= j < self.filled implies #[trigger] self@[j] == start.skip(
                n as int,
            )[j] by {
                assert((self.read_pos + j) % p == (r0 + n + j) % p);
            }
            assert(self@ =~= start.skip(n as int));
        }
        n
    }

    /// Number of bytes waiting in the pipe.
    pub fn available(&self) -> (r: usize)
        requires
            self.wf(),
        ensures
            r == self@.len(),
    {
        self.filled
    }

    /// No bytes are waiting.
    pub fn is_empty(&self) -> (r: bool)
        requires
            self.wf(),
        ensures
            r == (self@.len() == 0),
    {
        self.available() == 0
    }
}

impl Default for Pipe {
    fn default() -> (p: Self)
        ensures
            p.wf(),
            p@ == Seq::<u8>::empty(),
    {
        Pipe::new()
    }
}

/// Bytes leave a pipe in the order they entered it: writing `data` that fits
/// behind the `waiting` bytes and then reading everything gives `waiting` followed
/// by `data`, and leaves the pipe empty.
pub proof fn law_pipe_fifo(waiting: Seq<u8>, data: Seq<u8>)
    requires
        waiting.len() + data.len() <= PIPE_BUF,
    ensures
        (waiting + data.take(data.len() as int)).take((waiting.len() + data.len()) as int) == waiting + data,
        (waiting + data.take(data.len() as int)).skip((waiting.len() + data.len()) as int) == Seq::<
            u8,
        >::empty(),
{
    assert(data.take(data.len() as int) =~= data);
    assert((waiting + data).take((waiting.len() + data.len()) as int) =~= waiting + data);
    assert((waiting + data).skip((waiting.len() + data.len()) as int) =~= Seq::<u8>::empty());
}

/// A pipe never holds more than `PIPE_BUF` bytes.
pub proof fn law_pipe_bounded(p: &Pipe)
    requires
        p.wf(),
    ensures
        p@.len() <= PIPE_BUF,
{
    p.lemma_view_len();
}

} // verus!
