//! The transfer engine's byte accounting: the buffered copy strategy, the
//! zero-copy strategy's bookkeeping, and their agreement. The strategies'
//! reads and writes against sockets, files and the kernel pipe happen outside
//! the library; these functions fix which bytes land where and how the
//! progress counter moves.
use vstd::prelude::*;

use crate::meta::Segment;

verus! {

/// Default user-space copy buffer length in bytes (1 MiB).
pub const BUFFER_SIZE: usize = 1048576;

/// The kernel pipe's guaranteed atomic capacity: the zero-copy path never
/// asks a single move for more than this.
pub const PIPE_BUF: usize = 4096;

/// The buffered strategy: the response body crosses user space in chunks of
/// at most `chunk` bytes; each chunk is written to the destination and the
/// segment's counter advanced by its length before the next is read. The
/// destination receives exactly the body, in order.
pub fn buffered_copy(body: &Vec<u8>, chunk: usize, seg: &mut Segment) -> (out: Vec<u8>)
    requires
        chunk >= 1,
        old(seg).wf(),
        old(seg).downloaded + body@.len() <= old(seg).size,
    ensures
        out@ == body@,
        final(seg).offset == old(seg).offset,
        final(seg).size == old(seg).size,
        final(seg).downloaded == old(seg).downloaded + body@.len(),
{
    let n = body.len();
    let mut out: Vec<u8> = Vec::new();
    let mut i: usize = 0;
    while i < n
        invariant
            chunk >= 1,
            n == body@.len(),
            i <= n,
            out@ == body@.take(i as int),
            seg.wf(),
            seg.offset == old(seg).offset,
            seg.size == old(seg).size,
            seg.downloaded == old(seg).downloaded + i,
            old(seg).downloaded + n <= old(seg).size,
        decreases n - i,
    {
        let step = if chunk <= n - i {
            chunk
        } else {
            n - i
        };
        let mut k: usize = 0;
        while k < step
            invariant
                i + step <= n,
                n == body@.len(),
                k <= step,
                out@ == body@.take(i as int + k as int),
            decreases step - k,
        {
            proof {
                assert(body@.take(i + k + 1) =~= body@.take(i as int + k as int).push(
                    body@[i as int + k as int],
                ));
            }
            out.push(body[i + k]);
            k = k + 1;
        }
        seg.advance(step);
        i = i + step;
    }
    proof {
        assert(body@.take(n as int) =~= body@);
    }
    out
}

/// The zero-copy strategy's accounting: the `prefill` bytes that header
/// reading had already pulled into user space are written and counted first;
/// the remaining bytes move through a pipe of capacity `PIPE_BUF`, counted as
/// they leave it. The destination receives the prefill followed by the rest:
/// exactly the response body, in order.
pub fn spliced_copy(prefill: &Vec<u8>, rest: &Vec<u8>, seg: &mut Segment) -> (out: Vec<u8>)
    requires
        old(seg).wf(),
        old(seg).downloaded + prefill@.len() + rest@.len() <= old(seg).size,
    ensures
        out@ == prefill@ + rest@,
        final(seg).offset == old(seg).offset,
        final(seg).size == old(seg).size,
        final(seg).downloaded == old(seg).downloaded + prefill@.len() + rest@.len(),
{
    let mut out: Vec<u8> = Vec::new();
    crate::http::push_bytes(&mut out, prefill);
    seg.advance(prefill.len());
    splice_transfer(rest, rest.len(), &mut out, seg);
    proof {
        assert(rest@.take(rest@.len() as int) =~= rest@);
    }
    out
}

/// The bounded kernel-move loop's accounting: move exactly `n` bytes of
/// `src` into `out`, never holding more than `PIPE_BUF` bytes in flight, the
/// counter advanced as bytes leave the pipe. The number moved equals the
/// requested `n` exactly: the mismatch the caller would treat as a fatal
/// invariant violation cannot happen.
pub fn splice_transfer(src: &Vec<u8>, n: usize, out: &mut Vec<u8>, seg: &mut Segment) -> (moved:
    usize)
    requires
        n <= src@.len(),
        old(seg).wf(),
        old(seg).downloaded + n <= old(seg).size,
    ensures
        moved == n,
        final(out)@ == old(out)@ + src@.take(n as int),
        final(seg).offset == old(seg).offset,
        final(seg).size == old(seg).size,
        final(seg).downloaded == old(seg).downloaded + n,
{
    let mut p: usize = 0;
    while p < n
        invariant
            p <= n <= src@.len(),
            out@ == old(out)@ + src@.take(p as int),
            seg.wf(),
            seg.offset == old(seg).offset,
            seg.size == old(seg).size,
            seg.downloaded == old(seg).downloaded + p,
            old(seg).downloaded + n <= old(seg).size,
        decreases n - p,
    {
        let mut pipe: Vec<u8> = Vec::new();
        let mut z: usize = p;
        while z < n && z - p < PIPE_BUF
            invariant
                p <= z <= n <= src@.len(),
                z - p <= PIPE_BUF,
                pipe@ == src@.subrange(p as int, z as int),
            decreases n - z,
        {
            proof {
                assert(src@.subrange(p as int, z + 1) =~= src@.subrange(p as int, z as int).push(
                    src@[z as int],
                ));
            }
            pipe.push(src[z]);
            z = z + 1;
        }
        crate::http::push_bytes(out, &pipe);
        seg.advance(z - p);
        proof {
            assert(old(out)@ + src@.take(p as int) + src@.subrange(p as int, z as int) =~= old(
                out,
            )@ + src@.take(z as int));
        }
        p = z;
    }
    proof {
        assert(src@.take(p as int) == src@.take(n as int));
    }
    n
}

/// Transfer-path equivalence: both strategies promise to deliver exactly the
/// response body, so for the same body — however it was split between the
/// over-read prefill and the spliced remainder — they write byte-identical
/// destination contents.
pub proof fn lemma_transfer_paths_agree(
    body: Seq<u8>,
    split: int,
    buffered: Seq<u8>,
    spliced: Seq<u8>,
)
    requires
        0 <= split <= body.len(),
        buffered == body,
        spliced == body.take(split) + body.skip(split),
    ensures
        buffered == spliced,
{
    assert(body.take(split) + body.skip(split) =~= body);
}

/// The bookkeeping of the real kernel-move loop, which alternates moves from
/// the source descriptor into a pipe with moves from the pipe to the
/// destination file. The surrounding loop performs the moves and reports
/// each result here; this state fixes how much each move may request and
/// what the totals mean. A move's zero result only means no data was ready:
/// it changes no total.
pub struct SpliceLoop {
    /// How many bytes the loop must move in all.
    pub target: usize,
    /// Bytes moved from the source into the pipe so far.
    pub pulled: usize,
    /// Bytes moved from the pipe to the destination so far.
    pub pushed: usize,
}

impl SpliceLoop {
    /// Nothing leaves the pipe before it entered, nothing enters beyond the
    /// target, and the pipe never holds more than its capacity.
    pub open spec fn wf(self) -> bool {
        &&& self.pushed <= self.pulled <= self.target
        &&& self.pulled - self.pushed <= PIPE_BUF
    }

    /// Start moving `target` bytes.
    pub fn new(target: usize) -> (s: Self)
        ensures
            s.wf(),
            s.target == target,
            s.pulled == 0,
            s.pushed == 0,
    {
        SpliceLoop { target, pulled: 0, pushed: 0 }
    }

    /// How many bytes the next move into the pipe may request: what is still
    /// owed, but never more than the pipe's free room.
    pub fn inbound_budget(&self) -> (r: usize)
        requires
            self.wf(),
        ensures
            r == (if self.target - self.pulled <= PIPE_BUF - (self.pulled - self.pushed) {
                self.target - self.pulled
            } else {
                PIPE_BUF - (self.pulled - self.pushed)
            }),
    {
        let owed = self.target - self.pulled;
        let room = PIPE_BUF - (self.pulled - self.pushed);
        if owed <= room {
            owed
        } else {
            room
        }
    }

    /// A move into the pipe reported `t` bytes.
    pub fn record_pulled(&mut self, t: usize)
        requires
            old(self).wf(),
            t <= old(self).inbound_budget_spec(),
        ensures
            final(self).wf(),
            final(self).target == old(self).target,
            final(self).pulled == old(self).pulled + t,
            final(self).pushed == old(self).pushed,
    {
        self.pulled = self.pulled + t;
    }

    /// What `inbound_budget` returns, for contracts.
    pub open spec fn inbound_budget_spec(self) -> int {
        if self.target - self.pulled <= PIPE_BUF - (self.pulled - self.pushed) {
            self.target - self.pulled
        } else {
            PIPE_BUF - (self.pulled - self.pushed)
        }
    }

    /// How many bytes the next move out of the pipe may request: what the
    /// pipe currently holds.
    pub fn outbound_budget(&self) -> (r: usize)
        requires
            self.wf(),
        ensures
            r == self.pulled - self.pushed,
    {
        self.pulled - self.pushed
    }

    /// A move out of the pipe reported `t` bytes.
    pub fn record_pushed(&mut self, t: usize)
        requires
            old(self).wf(),
            t <= old(self).pulled - old(self).pushed,
        ensures
            final(self).wf(),
            final(self).target == old(self).target,
            final(self).pulled == old(self).pulled,
            final(self).pushed == old(self).pushed + t,
    {
        self.pushed = self.pushed + t;
    }

    /// Has the loop moved everything it owed? When it has, everything that
    /// entered the pipe has also left it: the totals cannot disagree.
    pub fn done(&self) -> (r: bool)
        requires
            self.wf(),
        ensures
            r == (self.pushed == self.target),
            r ==> self.pulled == self.target,
    {
        self.pushed == self.target
    }
}

} // verus!
