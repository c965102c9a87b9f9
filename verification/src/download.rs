//! Download bookkeeping: which chunks of an in-progress download have been
//! received, where each one's bytes land in the output, and when the
//! download is complete.

use vstd::prelude::*;
use std::collections::HashSet;
use vstd::relations::injective_on;
use vstd::set_lib::lemma_int_range;
use vstd::set_lib::lemma_len_subset;
use vstd::set_lib::lemma_map_size;
use vstd::set_lib::lemma_subset_equality;
use vstd::set_lib::set_int_range;
use crate::chunk::Chunk;
use crate::chunk::lemma_chunk_bounds;
use crate::chunk::spec_chunk_len;
use crate::chunk::spec_total_chunks;

verus! {

broadcast use vstd::std_specs::hash::group_hash_axioms;

/// The set of all chunk indices of a file with `n` chunks.
pub open spec fn all_indices(n: u64) -> Set<u64> {
    Set::new(|i: u64| i < n)
}

/// `all_indices(n)` is a finite set of exactly `n` indices.
pub proof fn lemma_all_indices_card(n: u64)
    ensures
        all_indices(n).finite(),
        all_indices(n).len() == n,
{
    let ints = set_int_range(0, n as int);
    let f = |i: int| i as u64;
    lemma_int_range(0, n as int);
    assert(injective_on(f, ints));
    assert forall|u: u64| all_indices(n).contains(u) implies ints.map(f).contains(u) by {
        assert(ints.contains(u as int) && f(u as int) == u);
    }
    assert(ints.map(f) =~= all_indices(n));
    lemma_map_size(ints, all_indices(n), f);
}

/// The output bytes after the bytes of one chunk have been written at its
/// offset: the byte range `[index * chunk_size, index * chunk_size +
/// data.len())` now holds `data`, every other byte is untouched.
pub open spec fn spec_write_region(
    out: Seq<u8>,
    chunk_size: int,
    index: int,
    data: Seq<u8>,
) -> Seq<u8>
    recommends
        chunk_size >= 1,
        index >= 0,
        index * chunk_size + data.len() <= out.len(),
{
    out.subrange(0, index * chunk_size) + data + out.subrange(
        index * chunk_size + data.len(),
        out.len() as int,
    )
}

/// What one write changes and what it leaves alone: the result has the same
/// length, carries `data` at the chunk's offset, and agrees with the old
/// output everywhere outside the written range.
pub proof fn lemma_write_region_facts(out: Seq<u8>, chunk_size: int, index: int, data: Seq<u8>)
    requires
        chunk_size >= 1,
        index >= 0,
        index * chunk_size + data.len() <= out.len(),
    ensures
        spec_write_region(out, chunk_size, index, data).len() == out.len(),
        spec_write_region(out, chunk_size, index, data).subrange(
            index * chunk_size,
            index * chunk_size + data.len(),
        ) == data,
        forall|k: int|
            0 <= k < out.len() && !(index * chunk_size <= k < index * chunk_size + data.len())
                ==> #[trigger] spec_write_region(out, chunk_size, index, data)[k] == out[k],
{
    let w = spec_write_region(out, chunk_size, index, data);
    assert(index * chunk_size >= 0) by (nonlinear_arith)
        requires
            chunk_size >= 1,
            index >= 0,
    ;
    assert(w.subrange(index * chunk_size, index * chunk_size + data.len()) =~= data);
}

/// Writing the same chunk twice leaves the received set and the output
/// exactly as one write left them.
pub proof fn lemma_write_idempotent(
    out: Seq<u8>,
    received: Set<u64>,
    chunk_size: int,
    index: u64,
    data: Seq<u8>,
)
    requires
        chunk_size >= 1,
        index * chunk_size + data.len() <= out.len(),
    ensures
        spec_write_region(
            spec_write_region(out, chunk_size, index as int, data),
            chunk_size,
            index as int,
            data,
        ) == spec_write_region(out, chunk_size, index as int, data),
        received.insert(index).insert(index) == received.insert(index),
{
    let w = spec_write_region(out, chunk_size, index as int, data);
    lemma_write_region_facts(out, chunk_size, index as int, data);
    lemma_write_region_facts(w, chunk_size, index as int, data);
    assert(spec_write_region(w, chunk_size, index as int, data) =~= w);
    assert(received.insert(index).insert(index) =~= received.insert(index));
}

/// Distinct chunk indices write disjoint byte ranges of the output: no byte
/// position `k` of chunk `i`'s range lies in chunk `j`'s range.
pub proof fn lemma_regions_disjoint(total_length: int, chunk_size: int, i: int, j: int, k: int)
    requires
        chunk_size >= 1,
        total_length >= 0,
        0 <= i < spec_total_chunks(total_length, chunk_size),
        0 <= j < spec_total_chunks(total_length, chunk_size),
        i != j,
        i * chunk_size <= k < i * chunk_size + spec_chunk_len(total_length, chunk_size, i),
    ensures
        !(j * chunk_size <= k < j * chunk_size + spec_chunk_len(total_length, chunk_size, j)),
{
    lemma_chunk_bounds(total_length, chunk_size, i);
    lemma_chunk_bounds(total_length, chunk_size, j);
    if i < j {
        assert(i * chunk_size + chunk_size <= j * chunk_size) by (nonlinear_arith)
            requires
                chunk_size >= 1,
                i < j,
        ;
    } else {
        assert(j * chunk_size + chunk_size <= i * chunk_size) by (nonlinear_arith)
            requires
                chunk_size >= 1,
                j < i,
        ;
    }
}

/// What `next_missing` answers: either the smallest index below `total`
/// that is not yet in `received`, or nothing when every index below `total`
/// has been received.
pub open spec fn is_next_missing(received: Set<u64>, total: u64, r: Option<u64>) -> bool {
    match r {
        Some(i) => {
            &&& i < total
            &&& !received.contains(i)
            &&& forall|j: u64| j < i ==> received.contains(j)
        },
        None => forall|i: u64| i < total ==> received.contains(i),
    }
}

/// Across calls against a monotonically growing received set, the indices
/// `next_missing` returns are strictly increasing: once a returned index
/// has been received, the next answer is strictly larger.
pub proof fn lemma_next_missing_strictly_increases(
    r1: Set<u64>,
    r2: Set<u64>,
    total: u64,
    i1: u64,
    i2: u64,
)
    requires
        r1.subset_of(r2),
        is_next_missing(r1, total, Some(i1)),
        r2.contains(i1),
        is_next_missing(r2, total, Some(i2)),
    ensures
        i2 > i1,
{
    if i2 < i1 {
        assert(r1.contains(i2));
    }
}

/// The chunk count times the chunk size covers the whole file, and the
/// count itself never exceeds the file length.
pub proof fn lemma_total_chunks_mul(total_length: int, chunk_size: int)
    requires
        chunk_size >= 1,
        total_length >= 0,
    ensures
        spec_total_chunks(total_length, chunk_size) * chunk_size >= total_length,
        0 <= spec_total_chunks(total_length, chunk_size) <= total_length,
{
    let q = total_length / chunk_size;
    let r = total_length % chunk_size;
    assert(total_length == q * chunk_size + r && 0 <= r < chunk_size && 0 <= q <= q * chunk_size
        && (q + 1) * chunk_size == q * chunk_size + chunk_size) by (nonlinear_arith)
        requires
            chunk_size >= 1,
            total_length >= 0,
            q == total_length / chunk_size,
            r == total_length % chunk_size,
    ;
}

/// Tracks an in-progress download: which chunk indices have been received,
/// and the output bytes, preallocated to `total_chunks * chunk_size` and
/// cut back to `total_length` when the download finalizes.
///
/// `received` only ever grows, and a chunk is recorded exactly when its
/// bytes stand in the output, so an abandoned download leaves every
/// already-written chunk valid.
pub struct DownloadState {
    total_chunks: u64,
    chunk_size: u64,
    total_length: u64,
    received: HashSet<u64>,
    output: Vec<u8>,
}

impl DownloadState {
    /// The set of chunk indices received so far.
    pub closed spec fn received_spec(&self) -> Set<u64> {
        self.received@
    }

    /// Number of chunks the download expects.
    pub closed spec fn total_chunks_spec(&self) -> u64 {
        self.total_chunks
    }

    /// Size in bytes of every chunk but possibly the last.
    pub closed spec fn chunk_size_spec(&self) -> u64 {
        self.chunk_size
    }

    /// Size in bytes of the finished file.
    pub closed spec fn total_length_spec(&self) -> u64 {
        self.total_length
    }

    /// The output bytes, still at their preallocated length.
    pub closed spec fn out_spec(&self) -> Seq<u8> {
        self.output@
    }

    /// The chunk geometry is consistent, the output holds its preallocated
    /// length, and every received index lies below the chunk count.
    pub open spec fn wf(&self) -> bool {
        &&& self.chunk_size_spec() >= 1
        &&& self.total_chunks_spec() == spec_total_chunks(
            self.total_length_spec() as int,
            self.chunk_size_spec() as int,
        )
        &&& self.out_spec().len() == self.total_chunks_spec() * self.chunk_size_spec()
        &&& self.received_spec().finite()
        &&& forall|i: u64| self.received_spec().contains(i) ==> i < self.total_chunks_spec()
    }

    /// Whether every chunk has been received.
    pub open spec fn is_complete_spec(&self) -> bool {
        self.received_spec().len() == self.total_chunks_spec()
    }

    /// Start a download of `total_chunks` chunks of `chunk_size` bytes and
    /// a finished length of `total_length`: nothing received yet, the
    /// output preallocated to `total_chunks * chunk_size` zero bytes.
    pub fn new(total_chunks: u64, chunk_size: u64, total_length: u64) -> (s: Self)
        requires
            chunk_size >= 1,
            total_chunks == spec_total_chunks(total_length as int, chunk_size as int),
            total_chunks * chunk_size <= usize::MAX,
        ensures
            s.wf(),
            s.total_chunks_spec() == total_chunks,
            s.chunk_size_spec() == chunk_size,
            s.total_length_spec() == total_length,
            s.received_spec() == Set::<u64>::empty(),
            s.out_spec() == Seq::new((total_chunks * chunk_size) as nat, |i: int| 0u8),
    {
        let size = total_chunks * chunk_size;
        let mut output: Vec<u8> = Vec::new();
        output.resize(size as usize, 0u8);
        proof {
            assert(output@ =~= Seq::new((total_chunks * chunk_size) as nat, |i: int| 0u8));
        }
        DownloadState {
            total_chunks,
            chunk_size,
            total_length,
            received: HashSet::new(),
            output,
        }
    }

    /// Record one received chunk: its bytes land at `index * chunk_size`
    /// in the output, every byte outside that range is untouched, and the
    /// index joins `received`. Writing the same chunk again is idempotent.
    pub fn write_chunk(&mut self, chunk: Chunk)
        requires
            old(self).wf(),
            chunk.index < old(self).total_chunks_spec(),
            chunk.data@.len() == spec_chunk_len(
                old(self).total_length_spec() as int,
                old(self).chunk_size_spec() as int,
                chunk.index as int,
            ),
        ensures
            final(self).wf(),
            final(self).total_chunks_spec() == old(self).total_chunks_spec(),
            final(self).chunk_size_spec() == old(self).chunk_size_spec(),
            final(self).total_length_spec() == old(self).total_length_spec(),
            final(self).received_spec() == old(self).received_spec().insert(chunk.index),
            final(self).out_spec() == spec_write_region(
                old(self).out_spec(),
                old(self).chunk_size_spec() as int,
                chunk.index as int,
                chunk.data@,
            ),
            final(self).out_spec().subrange(
                chunk.index * old(self).chunk_size_spec(),
                chunk.index * old(self).chunk_size_spec() + chunk.data@.len(),
            ) == chunk.data@,
            forall|k: int|
                0 <= k < old(self).out_spec().len() && !(chunk.index * old(self).chunk_size_spec()
                    <= k < chunk.index * old(self).chunk_size_spec() + chunk.data@.len())
                    ==> #[trigger] final(self).out_spec()[k] == old(self).out_spec()[k],
    {
        proof {
            lemma_chunk_bounds(
                self.total_length_spec() as int,
                self.chunk_size_spec() as int,
                chunk.index as int,
            );
            lemma_total_chunks_mul(
                self.total_length_spec() as int,
                self.chunk_size_spec() as int,
            );
        }
        let out_len = self.output.len();
        let offset = chunk.index * self.chunk_size;
        let data_len = chunk.data.len();
        let ghost out0 = self.output@;
        let ghost off = offset as int;
        let mut k: usize = 0;
        while k < data_len
            invariant
                0 <= k <= data_len,
                data_len == chunk.data@.len(),
                off == offset as int,
                off + data_len <= out0.len() <= usize::MAX,
                self.output@.len() == out0.len(),
                self.total_chunks == old(self).total_chunks_spec(),
                self.chunk_size == old(self).chunk_size_spec(),
                self.total_length == old(self).total_length_spec(),
                self.received@ == old(self).received_spec(),
                self.output@.subrange(off, off + k) == chunk.data@.subrange(0, k as int),
                forall|m: int|
                    0 <= m < out0.len() && !(off <= m < off + k) ==> #[trigger] self.output@[m]
                        == out0[m],
            decreases data_len - k,
        {
            let pos = offset as usize + k;
            self.output[pos] = chunk.data[k];
            k = k + 1;
            proof {
                assert(self.output@.subrange(off, off + k) =~= chunk.data@.subrange(
                    0,
                    k as int,
                ));
            }
        }
        self.received.insert(chunk.index);
        proof {
            let w = spec_write_region(
                out0,
                old(self).chunk_size_spec() as int,
                chunk.index as int,
                chunk.data@,
            );
            assert(chunk.data@.subrange(0, chunk.data@.len() as int) =~= chunk.data@);
            assert forall|m: int| 0 <= m < out0.len() implies self.output@[m] == w[m] by {
                if off <= m < off + chunk.data@.len() {
                    assert(self.output@.subrange(off, off + chunk.data@.len())[m - off]
                        == self.output@[m]);
                }
            }
            assert(self.output@ =~= w);
        }
    }

    /// The smallest chunk index not yet received, or nothing exactly when
    /// every chunk has been received, which is exactly when the size of
    /// `received` equals the chunk count.
    pub fn next_missing(&self) -> (r: Option<u64>)
        requires
            self.wf(),
        ensures
            is_next_missing(self.received_spec(), self.total_chunks_spec(), r),
            r is None <==> self.is_complete_spec(),
    {
        let mut i: u64 = 0;
        while i < self.total_chunks
            invariant
                self.wf(),
                0 <= i <= self.total_chunks,
                forall|j: u64| j < i ==> self.received_spec().contains(j),
            decreases self.total_chunks - i,
        {
            if !self.received.contains(&i) {
                proof {
                    lemma_all_indices_card(self.total_chunks_spec());
                    lemma_len_subset(
                        self.received_spec(),
                        all_indices(self.total_chunks_spec()).remove(i),
                    );
                    assert(self.received_spec().subset_of(
                        all_indices(self.total_chunks_spec()).remove(i),
                    ));
                    assert(all_indices(self.total_chunks_spec()).remove(i).len()
                        == self.total_chunks_spec() - 1);
                }
                return Some(i);
            }
            i = i + 1;
        }
        proof {
            lemma_all_indices_card(self.total_chunks_spec());
            assert(self.received_spec() =~= all_indices(self.total_chunks_spec()));
        }
        None
    }

    /// Whether every chunk has been received: exactly when the size of
    /// `received` equals the chunk count, and exactly when no index below
    /// the chunk count is missing.
    pub fn is_complete(&self) -> (r: bool)
        requires
            self.wf(),
        ensures
            r == self.is_complete_spec(),
            r <==> forall|i: u64|
                i < self.total_chunks_spec() ==> self.received_spec().contains(i),
    {
        let r = self.received.len() as u64 == self.total_chunks;
        proof {
            lemma_all_indices_card(self.total_chunks_spec());
            if self.is_complete_spec() {
                lemma_subset_equality(
                    self.received_spec(),
                    all_indices(self.total_chunks_spec()),
                );
            }
            if forall|i: u64|
                i < self.total_chunks_spec() ==> self.received_spec().contains(i) {
                assert(self.received_spec() =~= all_indices(self.total_chunks_spec()));
            }
        }
        r
    }

    /// Number of chunks the download expects.
    pub fn total_chunks(&self) -> (n: u64)
        ensures
            n == self.total_chunks_spec(),
    {
        self.total_chunks
    }

    /// Size in bytes of every chunk but possibly the last.
    pub fn chunk_size(&self) -> (n: u64)
        ensures
            n == self.chunk_size_spec(),
    {
        self.chunk_size
    }

    /// Size in bytes of the finished file.
    pub fn total_length(&self) -> (n: u64)
        ensures
            n == self.total_length_spec(),
    {
        self.total_length
    }

    /// Finish a complete download: cut the preallocated output back to
    /// `total_length` and hand the finished bytes out, consuming the
    /// download so it finalizes exactly once.
    pub fn finalize(self) -> (out: Vec<u8>)
        requires
            self.wf(),
            self.is_complete_spec(),
        ensures
            out@ == self.out_spec().subrange(0, self.total_length_spec() as int),
            out@.len() == self.total_length_spec(),
    {
        proof {
            lemma_total_chunks_mul(
                self.total_length_spec() as int,
                self.chunk_size_spec() as int,
            );
        }
        let mut output = self.output;
        output.truncate(self.total_length as usize);
        output
    }
}

/// The round trip law: an output whose every chunk range holds the chunk
/// bytes that the store cut from `data`, cut back to the file's length, is
/// byte-identical to `data` — whatever order the chunks arrived in, and
/// also when the file length is no multiple of the chunk size.
pub proof fn lemma_round_trip(data: Seq<u8>, out: Seq<u8>, chunk_size: int)
    requires
        chunk_size >= 1,
        out.len() >= data.len(),
        forall|i: int|
            0 <= i < spec_total_chunks(data.len() as int, chunk_size) ==> out.subrange(
                i * chunk_size,
                i * chunk_size + spec_chunk_len(data.len() as int, chunk_size, i),
            ) == #[trigger] crate::chunk::spec_chunk_data(data, chunk_size, i),
    ensures
        out.subrange(0, data.len() as int) == data,
{
    let len = data.len() as int;
    assert forall|k: int| 0 <= k < len implies out[k] == data[k] by {
        let q = k / chunk_size;
        let r = k % chunk_size;
        assert(k == q * chunk_size + r && 0 <= r < chunk_size && q >= 0) by (nonlinear_arith)
            requires
                chunk_size >= 1,
                k >= 0,
                q == k / chunk_size,
                r == k % chunk_size,
        ;
        lemma_chunk_bounds(len, chunk_size, q);
        assert(q < spec_total_chunks(len, chunk_size));
        let cd = crate::chunk::spec_chunk_data(data, chunk_size, q);
        assert(out.subrange(
            q * chunk_size,
            q * chunk_size + spec_chunk_len(len, chunk_size, q),
        ) == cd);
        assert(r < spec_chunk_len(len, chunk_size, q));
        assert(out.subrange(
            q * chunk_size,
            q * chunk_size + spec_chunk_len(len, chunk_size, q),
        )[r] == out[k]);
        assert(cd[r] == data[k]);
    }
    assert(out.subrange(0, len) =~= data);
}

} // verus!
