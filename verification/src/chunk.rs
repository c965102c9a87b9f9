//! The chunking layer: a file is an ordered sequence of fixed-size pieces,
//! the last of which may be shorter.

use vstd::prelude::*;
use crate::Error;

verus! {

/// Number of chunks of a file of `total_length` bytes cut into pieces of
/// `chunk_size` bytes each: the ceiling of `total_length / chunk_size`.
pub open spec fn spec_total_chunks(total_length: int, chunk_size: int) -> int
    recommends
        chunk_size >= 1,
{
    if total_length % chunk_size == 0 {
        total_length / chunk_size
    } else {
        total_length / chunk_size + 1
    }
}

/// Length in bytes of chunk `index` of a file of `total_length` bytes:
/// `chunk_size` for every chunk but possibly the last.
pub open spec fn spec_chunk_len(total_length: int, chunk_size: int, index: int) -> int
    recommends
        chunk_size >= 1,
        0 <= index < spec_total_chunks(total_length, chunk_size),
{
    if (index + 1) * chunk_size <= total_length {
        chunk_size
    } else {
        total_length - index * chunk_size
    }
}

/// The bytes of chunk `index` of the file `data`: the slice starting at
/// `index * chunk_size`, running to the next chunk boundary or to the end
/// of the file, whichever comes first.
pub open spec fn spec_chunk_data(data: Seq<u8>, chunk_size: int, index: int) -> Seq<u8>
    recommends
        chunk_size >= 1,
        0 <= index < spec_total_chunks(data.len() as int, chunk_size),
{
    data.subrange(
        index * chunk_size,
        index * chunk_size + spec_chunk_len(data.len() as int, chunk_size, index),
    )
}

/// Every chunk index below the chunk count starts strictly inside the file,
/// has a positive length of at most `chunk_size`, and its end stays within
/// the file; conversely an index at or past the count starts at or past the
/// end of the file.
pub proof fn lemma_chunk_bounds(total_length: int, chunk_size: int, index: int)
    requires
        chunk_size >= 1,
        total_length >= 0,
        index >= 0,
    ensures
        index < spec_total_chunks(total_length, chunk_size) ==> {
            &&& index * chunk_size < total_length
            &&& 1 <= spec_chunk_len(total_length, chunk_size, index) <= chunk_size
            &&& index * chunk_size + spec_chunk_len(total_length, chunk_size, index)
                <= total_length
        },
        index >= spec_total_chunks(total_length, chunk_size) ==> index * chunk_size
            >= total_length,
{
    let q = total_length / chunk_size;
    let r = total_length % chunk_size;
    assert(total_length == q * chunk_size + r && 0 <= r < chunk_size && q >= 0)
        by (nonlinear_arith)
        requires
            chunk_size >= 1,
            total_length >= 0,
            q == total_length / chunk_size,
            r == total_length % chunk_size,
    ;
    if index < spec_total_chunks(total_length, chunk_size) {
        assert((index + 1) * chunk_size == index * chunk_size + chunk_size && index * chunk_size
            < total_length) by (nonlinear_arith)
            requires
                chunk_size >= 1,
                total_length == q * chunk_size + r,
                0 <= r < chunk_size,
                0 <= index,
                r == 0 ==> index < q,
                r != 0 ==> index <= q,
        ;
    } else {
        assert(index * chunk_size >= total_length) by (nonlinear_arith)
            requires
                chunk_size >= 1,
                total_length == q * chunk_size + r,
                0 <= r < chunk_size,
                r == 0 ==> index >= q,
                r != 0 ==> index >= q + 1,
        ;
    }
}

/// A single piece of a file: its ascending index and its bytes.
/// Immutable once constructed.
pub struct Chunk {
    /// Position of the piece in the file's chunk sequence.
    pub index: u64,
    /// The piece's bytes: exactly `chunk_size` of them for every chunk but
    /// the file's last, which may carry fewer.
    pub data: Vec<u8>,
}

/// What a file looks like on the network: its name and its chunk geometry.
/// Derived once when a file is opened for sharing or learned from a remote
/// peer; never mutated.
pub struct FileMetadata {
    /// Name under which the file is advertised and requested.
    pub filename: String,
    /// Size in bytes of every chunk but possibly the last.
    pub chunk_size: u64,
    /// Size of the whole file in bytes.
    pub total_length: u64,
    /// Number of chunks: the ceiling of `total_length / chunk_size`.
    pub total_chunks: u64,
}

impl FileMetadata {
    /// The chunk count is the one derived from length and chunk size, and
    /// the chunk size is positive.
    pub open spec fn wf(&self) -> bool {
        &&& self.chunk_size >= 1
        &&& self.total_chunks == spec_total_chunks(
            self.total_length as int,
            self.chunk_size as int,
        )
    }
}

/// Number of chunks of a file of `total_length` bytes at `chunk_size` bytes
/// per chunk.
pub fn total_chunks_for(total_length: u64, chunk_size: u64) -> (n: u64)
    requires
        chunk_size >= 1,
    ensures
        n == spec_total_chunks(total_length as int, chunk_size as int),
{
    let q = total_length / chunk_size;
    let r = total_length % chunk_size;
    if r == 0 {
        q
    } else {
        assert(q * chunk_size + r == total_length && q <= q * chunk_size) by (nonlinear_arith)
            requires
                chunk_size >= 1,
                q == total_length / chunk_size,
                r == total_length % chunk_size,
        ;
        q + 1
    }
}

/// The chunk store: holds a file's bytes and serves arbitrary chunks by
/// index, as well as a forward-only walk over all chunks in order,
/// independent of networking.
pub struct FileChunks {
    data: Vec<u8>,
    chunk_size: u64,
    current_index: u64,
}

impl FileChunks {
    /// The file's bytes.
    pub closed spec fn data_spec(&self) -> Seq<u8> {
        self.data@
    }

    /// The store's chunk size in bytes.
    pub closed spec fn chunk_size_spec(&self) -> u64 {
        self.chunk_size
    }

    /// Position of the forward-only walk: the index the next call of
    /// `next` will serve.
    pub closed spec fn cursor_spec(&self) -> u64 {
        self.current_index
    }

    /// Number of chunks the store serves.
    pub open spec fn total_chunks_spec(&self) -> int {
        spec_total_chunks(self.data_spec().len() as int, self.chunk_size_spec() as int)
    }

    /// The chunk size is positive and the walk never runs past the chunk
    /// count.
    pub open spec fn wf(&self) -> bool {
        &&& self.chunk_size_spec() >= 1
        &&& self.cursor_spec() <= self.total_chunks_spec()
    }

    /// Open a store over a file's bytes, with the walk at the first chunk.
    pub fn new(data: Vec<u8>, chunk_size: u64) -> (s: Self)
        requires
            chunk_size >= 1,
        ensures
            s.wf(),
            s.data_spec() == data@,
            s.chunk_size_spec() == chunk_size,
            s.cursor_spec() == 0,
    {
        FileChunks { data, chunk_size, current_index: 0 }
    }

    /// The store's file metadata under the given advertised name.
    pub fn metadata(&self, filename: String) -> (m: FileMetadata)
        requires
            self.wf(),
        ensures
            m.wf(),
            m.filename == filename,
            m.chunk_size == self.chunk_size_spec(),
            m.total_length == self.data_spec().len(),
            m.total_chunks == self.total_chunks_spec(),
    {
        let total_length = self.data.len() as u64;
        let total_chunks = total_chunks_for(total_length, self.chunk_size);
        FileMetadata { filename, chunk_size: self.chunk_size, total_length, total_chunks }
    }

    /// Number of chunks the store serves.
    pub fn total_chunks(&self) -> (n: u64)
        requires
            self.wf(),
        ensures
            n == self.total_chunks_spec(),
    {
        total_chunks_for(self.data.len() as u64, self.chunk_size)
    }

    /// Serve the chunk with the given index: exactly the bytes at
    /// `[index * chunk_size, min((index + 1) * chunk_size, total_length))`.
    /// Any index within the file's chunk count is served; any other index
    /// is refused with `OutOfRange`, so reads need not arrive in order.
    pub fn read_chunk(&self, index: u64) -> (r: Result<Chunk, Error>)
        requires
            self.wf(),
        ensures
            index < self.total_chunks_spec() <==> r is Ok,
            r matches Ok(c) ==> {
                &&& c.index == index
                &&& c.data@ == spec_chunk_data(
                    self.data_spec(),
                    self.chunk_size_spec() as int,
                    index as int,
                )
            },
            index >= self.total_chunks_spec() ==> r == Err::<Chunk, Error>(Error::OutOfRange),
    {
        let total = self.total_chunks();
        if index >= total {
            return Err(Error::OutOfRange);
        }
        let data_len = self.data.len() as u64;
        proof {
            lemma_chunk_bounds(
                self.data_spec().len() as int,
                self.chunk_size_spec() as int,
                index as int,
            );
        }
        let offset = index * self.chunk_size;
        let remaining = data_len - offset;
        let len = if remaining < self.chunk_size {
            remaining
        } else {
            self.chunk_size
        };
        let mut buf: Vec<u8> = Vec::new();
        let mut j: u64 = 0;
        while j < len
            invariant
                0 <= j <= len,
                offset == index * self.chunk_size_spec(),
                offset + len <= self.data_spec().len(),
                self.data_spec().len() <= usize::MAX,
                buf@ == self.data_spec().subrange(offset as int, offset + j),
            decreases len - j,
        {
            buf.push(self.data[(offset + j) as usize]);
            j = j + 1;
            proof {
                assert(buf@ =~= self.data_spec().subrange(offset as int, offset + j));
            }
        }
        proof {
            assert(buf@ =~= spec_chunk_data(
                self.data_spec(),
                self.chunk_size_spec() as int,
                index as int,
            ));
        }
        Ok(Chunk { index, data: buf })
    }

    /// Advance the forward-only walk: serve the chunk at the cursor and move
    /// the cursor past it, or report the walk finished.
    pub fn next(&mut self) -> (r: Option<Chunk>)
        requires
            old(self).wf(),
        ensures
            final(self).wf(),
            final(self).data_spec() == old(self).data_spec(),
            final(self).chunk_size_spec() == old(self).chunk_size_spec(),
            old(self).cursor_spec() < old(self).total_chunks_spec() ==> {
                &&& final(self).cursor_spec() == old(self).cursor_spec() + 1
                &&& r matches Some(c) && c.index == old(self).cursor_spec() && c.data@
                    == spec_chunk_data(
                    old(self).data_spec(),
                    old(self).chunk_size_spec() as int,
                    old(self).cursor_spec() as int,
                )
            },
            old(self).cursor_spec() >= old(self).total_chunks_spec() ==> {
                &&& final(self).cursor_spec() == old(self).cursor_spec()
                &&& r is None
            },
    {
        let total = self.total_chunks();
        if self.current_index >= total {
            return None;
        }
        let r = self.read_chunk(self.current_index);
        match r {
            Ok(c) => {
                self.current_index = self.current_index + 1;
                Some(c)
            },
            Err(_) => None,
        }
    }
}

} // verus!
