//! The download record: a header describing the resource and an ordered list
//! of segments that partition it into contiguous byte ranges.
use vstd::prelude::*;

use crate::schema::{schema_of, spec_schema_of, Schema};

verus! {

/// A parsed resource address: the scheme tag plus the fields the network
/// scheme needs. The port is kept only where the address named one; the
/// request target's query and fragment parts likewise.
pub struct Location {
    pub scheme: Vec<u8>,
    pub host: Vec<u8>,
    pub port: Option<u16>,
    pub path: Vec<u8>,
    pub query: Option<Vec<u8>>,
    pub fragment: Option<Vec<u8>>,
}

/// What a whole download is about: where the resource lives, which file it
/// lands in, and its total size as the size probe reported it. The size is
/// authoritative and never revised.
pub struct Header {
    pub location: Location,
    pub path: String,
    pub size: usize,
}

impl Header {
    /// The scheme provider this download's address selects, if its tag is a
    /// supported one.
    pub fn scheme(&self) -> (r: Option<Schema>)
        ensures
            r == spec_schema_of(self.location.scheme@),
    {
        schema_of(&self.location.scheme)
    }
}

/// Default segment length in bytes (1 MiB).
pub const SEGMENT_SIZE: usize = 1048576;

/// How many segments a resource of `total` bytes splits into when cut into
/// `chunk`-byte pieces: the ceiling of `total / chunk`.
pub open spec fn seg_count(total: int, chunk: int) -> int
    recommends
        total >= 0,
        chunk >= 1,
{
    (total + chunk - 1) / chunk
}

/// One contiguous byte range `[offset, offset + size)` of a resource,
/// together with the count of bytes already landed in the destination file.
pub struct Segment {
    pub offset: usize,
    pub size: usize,
    pub downloaded: usize,
}

impl Segment {
    /// The progress counter never runs ahead of the segment's extent.
    pub open spec fn wf(self) -> bool {
        self.downloaded <= self.size
    }

    /// Record that `n` more bytes of this segment have been handed to the
    /// destination's write path. The counter only ever grows, and never past
    /// the segment's size.
    pub fn advance(&mut self, n: usize)
        requires
            old(self).wf(),
            old(self).downloaded + n <= old(self).size,
        ensures
            final(self).offset == old(self).offset,
            final(self).size == old(self).size,
            final(self).downloaded == old(self).downloaded + n,
            old(self).downloaded <= final(self).downloaded,
            final(self).wf(),
    {
        self.downloaded = self.downloaded + n;
    }

    /// Partition a resource of `file_size` bytes with the default chunk size.
    pub fn build(file_size: usize) -> (segs: Vec<Segment>)
        ensures
            is_partition_of(segs@, file_size as int, SEGMENT_SIZE as int),
            segments_well_formed(segs@, file_size as int),
    {
        partition(file_size, SEGMENT_SIZE)
    }
}

/// The pointwise shape of the partition: segment `i` starts at `i * chunk`
/// and takes a whole chunk, or whatever is left of the resource.
pub open spec fn is_partition_of(segs: Seq<Segment>, total: int, chunk: int) -> bool {
    &&& segs.len() == seg_count(total, chunk)
    &&& forall|i: int|
        0 <= i < segs.len() ==> (#[trigger] segs[i]).offset == i * chunk
    &&& forall|i: int|
        0 <= i < segs.len() ==> (#[trigger] segs[i]).size == (if chunk <= total - i * chunk {
            chunk
        } else {
            total - i * chunk
        })
    &&& forall|i: int| 0 <= i < segs.len() ==> (#[trigger] segs[i]).downloaded == 0
}

/// Segments are sorted by offset, contiguous, nonempty, and exactly cover
/// `[0, total)`: the download record's structural invariant.
pub open spec fn segments_well_formed(segs: Seq<Segment>, total: int) -> bool {
    &&& (segs.len() == 0 ==> total == 0)
    &&& (segs.len() > 0 ==> segs[0].offset == 0)
    &&& (segs.len() > 0 ==> segs[segs.len() - 1].offset + segs[segs.len() - 1].size == total)
    &&& forall|i: int|
        0 <= i < segs.len() - 1 ==> (#[trigger] segs[i]).offset + segs[i].size == segs[i + 1].offset
    &&& forall|i: int| 0 <= i < segs.len() ==> (#[trigger] segs[i]).size >= 1
}

/// Cut `[0, total_size)` into `chunk_size`-byte ranges; the last range keeps
/// whatever remains. An empty resource yields no segments at all.
pub fn partition(total_size: usize, chunk_size: usize) -> (segs: Vec<Segment>)
    requires
        chunk_size >= 1,
    ensures
        is_partition_of(segs@, total_size as int, chunk_size as int),
        segments_well_formed(segs@, total_size as int),
{
    let mut segs: Vec<Segment> = Vec::new();
    let mut off: usize = 0;
    let mut i: usize = 0;
    while off < total_size
        invariant
            chunk_size >= 1,
            segs@.len() == i,
            off <= total_size,
            off as int == (if i as int * chunk_size as int <= total_size as int {
                i as int * chunk_size as int
            } else {
                total_size as int
            }),
            i > 0 ==> ((i - 1) as int) * (chunk_size as int) < total_size as int,
            forall|k: int|
                0 <= k < i ==> (#[trigger] segs@[k]).offset == k * chunk_size,
            forall|k: int|
                0 <= k < i ==> (#[trigger] segs@[k]).size == (
                if chunk_size as int <= total_size - k * chunk_size as int {
                    chunk_size as int
                } else {
                    total_size - k * chunk_size as int
                }),
            forall|k: int| 0 <= k < i ==> (#[trigger] segs@[k]).downloaded == 0,
        decreases total_size - off,
    {
        proof {
            assert(i as int * chunk_size as int <= total_size as int);
            assert((i as int + 1) * chunk_size as int == i as int * chunk_size as int
                + chunk_size as int) by (nonlinear_arith);
            assert(i as int <= i as int * chunk_size as int) by (nonlinear_arith)
                requires
                    i as int >= 0,
                    chunk_size as int >= 1,
            ;
        }
        let remaining: usize = total_size - off;
        let size: usize = if chunk_size <= remaining {
            chunk_size
        } else {
            remaining
        };
        segs.push(Segment { offset: off, size: size, downloaded: 0 });
        off = off + size;
        i = i + 1;
    }
    proof {
        if total_size == 0 {
            lemma_ceil_of_zero(chunk_size as int);
        } else {
            assert(i >= 1);
            assert(i as int * chunk_size as int >= total_size as int);
            lemma_ceil_count(total_size as int, chunk_size as int, i as int);
        }
        lemma_partition_well_formed(segs@, total_size as int, chunk_size as int);
    }
    segs
}

/// An empty resource needs no segments.
proof fn lemma_ceil_of_zero(chunk: int)
    requires
        chunk >= 1,
    ensures
        seg_count(0, chunk) == 0,
{
    assert((chunk - 1) / chunk == 0) by (nonlinear_arith)
        requires
            chunk >= 1,
    ;
}

/// The segment count `i` reached by the building loop is exactly the ceiling
/// of `total / chunk`.
proof fn lemma_ceil_count(total: int, chunk: int, i: int)
    requires
        chunk >= 1,
        total >= 1,
        i >= 1,
        i * chunk >= total,
        (i - 1) * chunk < total,
    ensures
        i == seg_count(total, chunk),
{
    let q = (total + chunk - 1) / chunk;
    let r = (total + chunk - 1) % chunk;
    vstd::arithmetic::div_mod::lemma_fundamental_div_mod(total + chunk - 1, chunk);
    assert(total + chunk - 1 == q * chunk + r);
    vstd::arithmetic::div_mod::lemma_mod_bound(total + chunk - 1, chunk);
    assert(0 <= r < chunk);
    assert(q * chunk >= total) by (nonlinear_arith)
        requires
            total + chunk - 1 == q * chunk + r,
            0 <= r < chunk,
    ;
    assert(q * chunk > (i - 1) * chunk);
    assert(q > i - 1) by (nonlinear_arith)
        requires
            q * chunk > (i - 1) * chunk,
            chunk >= 1,
    ;
    assert(q * chunk <= total + chunk - 1);
    assert(q * chunk < i * chunk + chunk);
    assert(q * chunk < (i + 1) * chunk) by (nonlinear_arith)
        requires
            q * chunk < i * chunk + chunk,
    ;
    assert(q < i + 1) by (nonlinear_arith)
        requires
            q * chunk < (i + 1) * chunk,
            chunk >= 1,
    ;
}

/// A pointwise-exact partition is sorted, contiguous, nonempty and covers
/// `[0, total)`.
proof fn lemma_partition_well_formed(segs: Seq<Segment>, total: int, chunk: int)
    requires
        chunk >= 1,
        total >= 0,
        is_partition_of(segs, total, chunk),
    ensures
        segments_well_formed(segs, total),
{
    let n = segs.len() as int;
    lemma_ceil_bounds(total, chunk);
    if n > 0 {
        assert(segs[0].offset == 0 * chunk);
        assert(0 * chunk == 0) by (nonlinear_arith);
        assert forall|i: int| 0 <= i < n implies (#[trigger] segs[i]).size >= 1
            && segs[i].offset + segs[i].size == (if (i + 1) * chunk <= total {
            (i + 1) * chunk
        } else {
            total
        }) by {
            assert(i * chunk < total && (i + 1) * chunk == i * chunk + chunk) by (nonlinear_arith)
                requires
                    0 <= i < n,
                    (n - 1) * chunk < total,
                    chunk >= 1,
            ;
        }
        assert forall|i: int|
            0 <= i < n - 1 implies (#[trigger] segs[i]).offset + segs[i].size == segs[i + 1].offset
            by {
            assert((i + 1) * chunk <= (n - 1) * chunk) by (nonlinear_arith)
                requires
                    0 <= i < n - 1,
                    chunk >= 1,
            ;
        }
        assert((n - 1 + 1) * chunk == n * chunk) by (nonlinear_arith);
        assert(segs[n - 1].offset + segs[n - 1].size == total);
    }
}

/// Total of the segments' extents, in order.
pub open spec fn sum_sizes(segs: Seq<Segment>) -> int
    decreases segs.len(),
{
    if segs.len() == 0 {
        0
    } else {
        segs[0].size + sum_sizes(segs.drop_first())
    }
}

/// Total of the segments' progress counters, in order.
pub open spec fn sum_downloaded(segs: Seq<Segment>) -> int
    decreases segs.len(),
{
    if segs.len() == 0 {
        0
    } else {
        segs[0].downloaded + sum_downloaded(segs.drop_first())
    }
}

proof fn lemma_sum_downloaded_push(s: Seq<Segment>, x: Segment)
    ensures
        sum_downloaded(s.push(x)) == sum_downloaded(s) + x.downloaded,
    decreases s.len(),
{
    if s.len() == 0 {
        assert(s.push(x).drop_first() =~= Seq::<Segment>::empty());
        assert(s.push(x)[0] == x);
        assert(sum_downloaded(s.push(x).drop_first()) == 0);
        assert(sum_downloaded(s) == 0);
    } else {
        assert(s.push(x).drop_first() =~= s.drop_first().push(x));
        lemma_sum_downloaded_push(s.drop_first(), x);
        assert(s.push(x)[0] == s[0]);
        assert(sum_downloaded(s.push(x)) == s[0].downloaded + sum_downloaded(
            s.drop_first().push(x),
        ));
        assert(sum_downloaded(s) == s[0].downloaded + sum_downloaded(s.drop_first()));
    }
}

proof fn lemma_sum_downloaded_le_sizes(s: Seq<Segment>)
    requires
        forall|i: int| 0 <= i < s.len() ==> (#[trigger] s[i]).wf(),
    ensures
        0 <= sum_downloaded(s) <= sum_sizes(s),
    decreases s.len(),
{
    if s.len() > 0 {
        assert(s[0].wf());
        lemma_sum_downloaded_le_sizes(s.drop_first());
    }
}

proof fn lemma_sum_downloaded_all_zero(s: Seq<Segment>)
    requires
        forall|i: int| 0 <= i < s.len() ==> (#[trigger] s[i]).downloaded == 0,
    ensures
        sum_downloaded(s) == 0,
    decreases s.len(),
{
    if s.len() > 0 {
        lemma_sum_downloaded_all_zero(s.drop_first());
    }
}

/// For a run of contiguous segments the sizes telescope: they sum to the
/// distance from the first offset to the end of the last segment.
proof fn lemma_sum_contiguous(segs: Seq<Segment>)
    requires
        segs.len() > 0,
        forall|i: int|
            0 <= i < segs.len() - 1 ==> (#[trigger] segs[i]).offset + segs[i].size == segs[i
                + 1].offset,
    ensures
        sum_sizes(segs) == segs[segs.len() - 1].offset + segs[segs.len() - 1].size
            - segs[0].offset,
    decreases segs.len(),
{
    if segs.len() == 1 {
        assert(sum_sizes(segs.drop_first()) == 0);
    } else {
        let tail = segs.drop_first();
        assert forall|i: int|
            0 <= i < tail.len() - 1 implies (#[trigger] tail[i]).offset + tail[i].size == tail[i
            + 1].offset by {
            assert(tail[i] == segs[i + 1]);
            assert(tail[i + 1] == segs[i + 2]);
        }
        lemma_sum_contiguous(tail);
        assert(tail[tail.len() - 1] == segs[segs.len() - 1]);
        assert(tail[0] == segs[1]);
    }
}

/// In a well-formed record the segment ranges keep their order: everything of
/// segment `i` lies strictly before everything of segment `j` when `i < j`.
proof fn lemma_offsets_monotonic(segs: Seq<Segment>, total: int, i: int, j: int)
    requires
        segments_well_formed(segs, total),
        0 <= i < j < segs.len(),
    ensures
        segs[i].offset + segs[i].size <= segs[j].offset,
    decreases j - i,
{
    if j == i + 1 {
    } else {
        lemma_offsets_monotonic(segs, total, i, j - 1);
        assert(segs[j - 1].offset + segs[j - 1].size == segs[j].offset);
    }
}

/// Partition completeness: in a well-formed record the segment ranges are
/// pairwise disjoint, sorted by offset, contiguous from zero, and their sizes
/// sum exactly to the resource's total size.
pub proof fn lemma_partition_complete(segs: Seq<Segment>, total: int)
    requires
        segments_well_formed(segs, total),
    ensures
        sum_sizes(segs) == total,
        forall|i: int, j: int|
            0 <= i < j < segs.len() ==> (#[trigger] segs[i]).offset + segs[i].size
                <= (#[trigger] segs[j]).offset,
        forall|i: int, j: int|
            0 <= i < j < segs.len() ==> (#[trigger] segs[i]).offset < (#[trigger] segs[j]).offset,
{
    if segs.len() == 0 {
    } else {
        lemma_sum_contiguous(segs);
    }
    assert forall|i: int, j: int|
        0 <= i < j < segs.len() implies (#[trigger] segs[i]).offset + segs[i].size
        <= (#[trigger] segs[j]).offset && segs[i].offset < segs[j].offset by {
        lemma_offsets_monotonic(segs, total, i, j);
        assert(segs[i].size >= 1);
    }
}

/// Bounds that the ceiling obeys: `count * chunk` reaches `total`, while one
/// chunk fewer falls short.
proof fn lemma_ceil_bounds(total: int, chunk: int)
    requires
        total >= 0,
        chunk >= 1,
    ensures
        seg_count(total, chunk) * chunk >= total,
        total > 0 ==> (seg_count(total, chunk) - 1) * chunk < total,
        total == 0 ==> seg_count(total, chunk) == 0,
        seg_count(total, chunk) >= 0,
{
    let q = (total + chunk - 1) / chunk;
    let r = (total + chunk - 1) % chunk;
    vstd::arithmetic::div_mod::lemma_fundamental_div_mod(total + chunk - 1, chunk);
    vstd::arithmetic::div_mod::lemma_mod_bound(total + chunk - 1, chunk);
    assert(q * chunk >= total && (total > 0 ==> (q - 1) * chunk < total) && q >= 0)
        by (nonlinear_arith)
        requires
            total + chunk - 1 == q * chunk + r,
            0 <= r < chunk,
            total >= 0,
            chunk >= 1,
    ;
    if total == 0 {
        lemma_ceil_of_zero(chunk);
    }
}

/// The download record: one header and the segments that partition
/// `[0, header.size)`. Immutable but for each segment's progress counter.
pub struct Meta {
    pub header: Header,
    pub segments: Vec<Segment>,
}

impl Meta {
    /// The record's invariant: the segments exactly partition the resource,
    /// and no counter runs past its segment.
    pub open spec fn wf(self) -> bool {
        &&& segments_well_formed(self.segments@, self.header.size as int)
        &&& forall|i: int| 0 <= i < self.segments@.len() ==> (#[trigger] self.segments@[i]).wf()
    }

    /// How far the whole download has come: the sum of its counters.
    pub open spec fn spec_progress(self) -> int {
        sum_downloaded(self.segments@)
    }

    /// A download is complete exactly when its counters sum to its size.
    pub open spec fn spec_complete(self) -> bool {
        self.spec_progress() == self.header.size as int
    }

    /// Assemble the record for a resource whose size the probe has already
    /// reported, partitioned with the default chunk size, nothing downloaded
    /// yet.
    pub fn new(location: Location, path: String, size: usize) -> (m: Meta)
        ensures
            m.wf(),
            m.header.location == location,
            m.header.path == path,
            m.header.size == size,
            is_partition_of(m.segments@, size as int, SEGMENT_SIZE as int),
            m.spec_progress() == 0,
    {
        let segments = Segment::build(size);
        proof {
            lemma_sum_downloaded_all_zero(segments@);
        }
        Meta { header: Header { location, path, size }, segments }
    }

    /// The completion predicate: reports complete if and only if the summed
    /// progress counters equal the header's total size.
    pub fn is_complete(&self) -> (r: bool)
        requires
            self.wf(),
        ensures
            r == self.spec_complete(),
    {
        let total = self.progress();
        total == self.header.size
    }

    /// Sum the segments' progress counters, as an external progress reader
    /// does when it polls the record.
    pub fn progress(&self) -> (total: usize)
        requires
            self.wf(),
        ensures
            total as int == self.spec_progress(),
            total <= self.header.size,
    {
        let ghost segs = self.segments@;
        let n = self.segments.len();
        let mut acc: usize = 0;
        let mut j: usize = 0;
        while j < n
            invariant
                self.wf(),
                n == segs.len(),
                segs == self.segments@,
                j <= n,
                acc as int == sum_downloaded(segs.take(j as int)),
                acc <= self.header.size,
            decreases n - j,
        {
            proof {
                assert(segs.take(j as int + 1) =~= segs.take(j as int).push(segs[j as int]));
                lemma_sum_downloaded_push(segs.take(j as int), segs[j as int]);
                lemma_downloaded_prefix_bound(segs, self.header.size as int, j as int + 1);
            }
            acc = acc + self.segments[j].downloaded;
            j = j + 1;
        }
        proof {
            assert(segs.take(n as int) =~= segs);
        }
        acc
    }
}

/// Any prefix of a well-formed record's counters sums to at most the total
/// size: what makes the progress sum safe to take in machine arithmetic.
proof fn lemma_downloaded_prefix_bound(segs: Seq<Segment>, total: int, j: int)
    requires
        segments_well_formed(segs, total),
        forall|i: int| 0 <= i < segs.len() ==> (#[trigger] segs[i]).wf(),
        0 <= j <= segs.len(),
    ensures
        0 <= sum_downloaded(segs.take(j)) <= total,
{
    let prefix = segs.take(j);
    assert forall|i: int| 0 <= i < prefix.len() implies (#[trigger] prefix[i]).wf() by {
        assert(prefix[i] == segs[i]);
    }
    lemma_sum_downloaded_le_sizes(prefix);
    if j == 0 {
        assert(sum_sizes(prefix) == 0);
        if segs.len() > 0 {
            lemma_partition_complete(segs, total);
        }
    } else {
        assert forall|i: int|
            0 <= i < prefix.len() - 1 implies (#[trigger] prefix[i]).offset + prefix[i].size
            == prefix[i + 1].offset by {
            assert(prefix[i] == segs[i]);
            assert(prefix[i + 1] == segs[i + 1]);
        }
        lemma_sum_contiguous(prefix);
        if j == segs.len() {
            assert(prefix[j - 1] == segs[segs.len() - 1]);
        } else {
            lemma_offsets_monotonic(segs, total, j - 1, segs.len() - 1);
            assert(segs[segs.len() - 1].offset + segs[segs.len() - 1].size == total);
        }
        assert(prefix[0] == segs[0]);
    }
}

} // verus!

