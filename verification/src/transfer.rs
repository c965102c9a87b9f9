//! The transfer service's server side: the catalog of locally shared files,
//! and the resolution of one inbound chunk request against it.

use vstd::prelude::*;
use crate::Error;
use crate::chunk::Chunk;
use crate::chunk::FileChunks;
use crate::chunk::spec_chunk_data;
use crate::protocol::ChunkRequest;

verus! {

/// Whether two byte strings hold the same bytes.
pub fn bytes_eq(a: &Vec<u8>, b: &Vec<u8>) -> (r: bool)
    ensures
        r == (a@ == b@),
{
    if a.len() != b.len() {
        proof {
            assert(a@.len() != b@.len());
        }
        return false;
    }
    let mut j: usize = 0;
    while j < a.len()
        invariant
            0 <= j <= a@.len(),
            a@.len() == b@.len(),
            forall|m: int| 0 <= m < j ==> a@[m] == b@[m],
        decreases a@.len() - j,
    {
        if a[j] != b[j] {
            return false;
        }
        j = j + 1;
    }
    proof {
        assert(a@ =~= b@);
    }
    true
}

/// One locally shared file: the name it is served under and its chunk
/// store.
pub struct Share {
    /// The name remote peers request the file by, as its bytes on the wire.
    pub name: Vec<u8>,
    /// The store that serves the file's chunks.
    pub store: FileChunks,
}

/// No two shares carry the same name, and every store is well formed.
pub open spec fn catalog_wf(s: Seq<Share>) -> bool {
    &&& forall|i: int, j: int| 0 <= i < j < s.len() ==> s[i].name@ != s[j].name@
    &&& forall|i: int| 0 <= i < s.len() ==> (#[trigger] s[i]).store.wf()
}

/// Whether some share of the sequence carries the name.
pub open spec fn catalog_has(s: Seq<Share>, name: Seq<u8>) -> bool {
    exists|i: int| 0 <= i < s.len() && (#[trigger] s[i]).name@ == name
}

/// The set of files this process shares and serves to remote peers.
pub struct SharedCatalog {
    shares: Vec<Share>,
}

impl SharedCatalog {
    /// The catalog's shares.
    pub closed spec fn shares_spec(&self) -> Seq<Share> {
        self.shares@
    }

    /// No two shares carry the same name, every store well formed.
    pub open spec fn wf(&self) -> bool {
        catalog_wf(self.shares_spec())
    }

    /// An empty catalog: nothing is shared yet.
    pub fn new() -> (r: Self)
        ensures
            r.wf(),
            r.shares_spec() == Seq::<Share>::empty(),
    {
        SharedCatalog { shares: Vec::new() }
    }

    /// Register a file under a name, replacing what the name pointed to
    /// before: afterwards exactly one share carries the name and holds the
    /// given store, and every other share is untouched.
    pub fn share(&mut self, name: Vec<u8>, store: FileChunks)
        requires
            old(self).wf(),
            store.wf(),
        ensures
            final(self).wf(),
            exists|i: int|
                {
                    &&& 0 <= i < final(self).shares_spec().len()
                    &&& (#[trigger] final(self).shares_spec()[i]).name@ == name@
                    &&& final(self).shares_spec()[i].store == store
                    &&& forall|k: int|
                        0 <= k < final(self).shares_spec().len() && k != i ==> k < old(
                            self,
                        ).shares_spec().len() && #[trigger] final(self).shares_spec()[k] == old(
                            self,
                        ).shares_spec()[k]
                },
    {
        let entry = Share { name, store };
        let mut i: usize = 0;
        while i < self.shares.len()
            invariant
                old(self).wf(),
                *self == *old(self),
                0 <= i <= self.shares_spec().len(),
                forall|k: int|
                    0 <= k < i ==> (#[trigger] self.shares_spec()[k]).name@ != entry.name@,
                entry.store == store,
                entry.name@ == name@,
                store.wf(),
            decreases self.shares_spec().len() - i,
        {
            if bytes_eq(&self.shares[i].name, &entry.name) {
                self.shares[i] = entry;
                proof {
                    let fs = self.shares_spec();
                    let os = old(self).shares_spec();
                    let ii = i as int;
                    assert(fs[ii].name@ == name@ && fs[ii].store == store);
                    assert(forall|k: int|
                        0 <= k < fs.len() && k != ii ==> #[trigger] fs[k] == os[k]);
                    assert forall|a: int, b: int| 0 <= a < b < fs.len() implies fs[a].name@
                        != fs[b].name@ by {
                        assert(os[a].name@ != os[b].name@);
                    }
                }
                return ;
            }
            i = i + 1;
        }
        self.shares.push(entry);
        proof {
            let fs = self.shares_spec();
            let os = old(self).shares_spec();
            let n = fs.len() - 1;
            assert(fs[n].name@ == name@ && fs[n].store == store);
            assert(forall|k: int| 0 <= k < fs.len() && k != n ==> #[trigger] fs[k] == os[k]);
            assert forall|a: int, b: int| 0 <= a < b < fs.len() implies fs[a].name@
                != fs[b].name@ by {
                if b < n {
                    assert(os[a].name@ != os[b].name@);
                } else {
                    assert(fs[a] == os[a]);
                }
            }
        }
    }

    /// Answer one inbound chunk request from the catalog: `NotFound` when
    /// no share carries the requested name; otherwise the named store's
    /// answer — the requested chunk, or `OutOfRange` for any index at or
    /// past the file's chunk count, never a partial or foreign chunk.
    pub fn handle_request(&self, req: &ChunkRequest) -> (r: Result<Chunk, Error>)
        requires
            self.wf(),
        ensures
            !catalog_has(self.shares_spec(), req.name@) <==> r == Err::<Chunk, Error>(
                Error::NotFound,
            ),
            forall|i: int|
                0 <= i < self.shares_spec().len() && (#[trigger] self.shares_spec()[i]).name@
                    == req.name@ ==> {
                    &&& (req.index < self.shares_spec()[i].store.total_chunks_spec() <==> r is Ok)
                    &&& (r matches Ok(c) ==> c.index == req.index && c.data@ == spec_chunk_data(
                        self.shares_spec()[i].store.data_spec(),
                        self.shares_spec()[i].store.chunk_size_spec() as int,
                        req.index as int,
                    ))
                    &&& (req.index >= self.shares_spec()[i].store.total_chunks_spec() ==> r
                        == Err::<Chunk, Error>(Error::OutOfRange))
                },
    {
        let mut i: usize = 0;
        while i < self.shares.len()
            invariant
                self.wf(),
                0 <= i <= self.shares_spec().len(),
                forall|k: int|
                    0 <= k < i ==> (#[trigger] self.shares_spec()[k]).name@ != req.name@,
            decreases self.shares_spec().len() - i,
        {
            if bytes_eq(&self.shares[i].name, &req.name) {
                let r = self.shares[i].store.read_chunk(req.index);
                proof {
                    assert(catalog_has(self.shares_spec(), req.name@));
                    assert(r != Err::<Chunk, Error>(Error::NotFound));
                    assert forall|k: int|
                        0 <= k < self.shares_spec().len()
                            && (#[trigger] self.shares_spec()[k]).name@ == req.name@ implies k
                        == i as int by {
                        if k != i as int {
                            assert(self.shares_spec()[k].name@
                                != self.shares_spec()[i as int].name@);
                        }
                    }
                }
                return r;
            }
            i = i + 1;
        }
        proof {
            assert(!catalog_has(self.shares_spec(), req.name@));
        }
        Err(Error::NotFound)
    }
}

} // verus!
