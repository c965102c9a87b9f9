//! The peer registry: the process-wide table of known peers, their serving
//! ports, their advertised files and when each was last heard from, with
//! staleness eviction.

use vstd::prelude::*;

verus! {

/// A peer's network address: host and discovery port, as plain values.
/// Uniquely identifies a peer for registry purposes.
#[derive(Clone, Copy, Debug, PartialEq, Eq, Structural)]
pub struct PeerId {
    /// The peer's host address, as the 32-bit value of its four octets.
    pub host: u32,
    /// The source port the peer announced from.
    pub port: u16,
}

/// One file a peer advertises: what a peer announcement carries per file.
#[derive(Debug)]
pub struct AdvertisedFile {
    /// Name under which the file can be requested.
    pub filename: String,
    /// Size in bytes of every chunk but possibly the last.
    pub chunk_size: u64,
    /// Size of the whole file in bytes.
    pub total_length: u64,
    /// Number of chunks of the file.
    pub total_chunks: u64,
}

/// What the registry knows of one peer: created or refreshed on each
/// received announcement.
#[derive(Debug)]
pub struct PeerEntry {
    /// The peer's address.
    pub peer_id: PeerId,
    /// The port on which the peer answers chunk requests.
    pub tcp_port: u16,
    /// The files the peer's latest announcement advertised.
    pub advertised_files: Vec<AdvertisedFile>,
    /// When the peer was last heard from.
    pub last_seen: u64,
}

/// Whether an entry has gone stale: its peer has not been heard from for
/// longer than `staleness_ttl`.
pub open spec fn is_stale(e: PeerEntry, now: u64, staleness_ttl: u64) -> bool {
    e.last_seen < now && now - e.last_seen > staleness_ttl
}

/// The predicate a sweep keeps entries by: not stale at the given time.
pub open spec fn keep_fresh(now: u64, staleness_ttl: u64) -> spec_fn(PeerEntry) -> bool {
    |e: PeerEntry| !is_stale(e, now, staleness_ttl)
}

/// No two entries of the sequence belong to the same peer.
pub open spec fn unique_ids(s: Seq<PeerEntry>) -> bool {
    forall|i: int, j: int| 0 <= i < j < s.len() ==> s[i].peer_id != s[j].peer_id
}

/// Whether some position of the sequence belongs to the peer.
pub open spec fn contains_peer(s: Seq<PeerEntry>, id: PeerId) -> bool {
    exists|i: int| 0 <= i < s.len() && s[i].peer_id == id
}

/// Whether the entry's peer advertises a file of the given name.
pub open spec fn advertises(e: PeerEntry, name: Seq<char>) -> bool {
    exists|j: int| 0 <= j < e.advertised_files@.len() && e.advertised_files@[j].filename@ == name
}

/// Whether some entry of the sequence belongs to the peer and advertises a
/// file of the given name.
pub open spec fn peer_listed(s: Seq<PeerEntry>, name: Seq<char>, id: PeerId) -> bool {
    exists|i: int| 0 <= i < s.len() && (#[trigger] s[i]).peer_id == id && advertises(s[i], name)
}

/// What `find_peers` answers: every returned id belongs to a current entry
/// advertising the name, every current entry advertising the name has its
/// id in the answer, and no id is answered twice — the answer is a set.
pub open spec fn is_find_peers_result(s: Seq<PeerEntry>, name: Seq<char>, r: Seq<PeerId>) -> bool {
    &&& forall|k: int| 0 <= k < r.len() ==> peer_listed(s, name, #[trigger] r[k])
    &&& forall|i: int|
        0 <= i < s.len() && advertises(#[trigger] s[i], name) ==> r.contains(s[i].peer_id)
    &&& forall|k1: int, k2: int| 0 <= k1 < k2 < r.len() ==> r[k1] != r[k2]
}

/// Every element of a filtered sequence is an element of the sequence it
/// was filtered from.
proof fn lemma_filter_elements<A>(s: Seq<A>, pred: spec_fn(A) -> bool)
    ensures
        forall|k: int| 0 <= k < s.filter(pred).len() ==> s.contains(#[trigger] s.filter(pred)[k]),
    decreases s.len(),
{
    reveal(Seq::filter);
    if s.len() > 0 {
        let sub = s.drop_last();
        lemma_filter_elements(sub, pred);
        assert forall|k: int| 0 <= k < s.filter(pred).len() implies s.contains(
            #[trigger] s.filter(pred)[k],
        ) by {
            if k < sub.filter(pred).len() {
                assert(s.filter(pred)[k] == sub.filter(pred)[k]);
                assert(sub.contains(sub.filter(pred)[k]));
                let m = choose|m: int| 0 <= m < sub.len() && sub[m] == sub.filter(pred)[k];
                assert(s[m] == s.filter(pred)[k]);
            } else {
                assert(s.filter(pred)[k] == s.last());
                assert(s[s.len() - 1] == s.last());
            }
        }
    }
}

/// Filtering keeps entries' peers distinct.
proof fn lemma_filter_unique_ids(s: Seq<PeerEntry>, pred: spec_fn(PeerEntry) -> bool)
    requires
        unique_ids(s),
    ensures
        unique_ids(s.filter(pred)),
    decreases s.len(),
{
    reveal(Seq::filter);
    if s.len() > 0 {
        let sub = s.drop_last();
        assert(unique_ids(sub));
        lemma_filter_unique_ids(sub, pred);
        lemma_filter_elements(sub, pred);
        if pred(s.last()) {
            let f = s.filter(pred);
            assert forall|i: int, j: int| 0 <= i < j < f.len() implies f[i].peer_id
                != f[j].peer_id by {
                if j == f.len() - 1 {
                    assert(f[i] == sub.filter(pred)[i]);
                    assert(sub.contains(f[i]));
                    let m = choose|m: int| 0 <= m < sub.len() && sub[m] == f[i];
                    assert(s[m] == f[i] && s[s.len() - 1] == f[j]);
                }
            }
        }
    }
}

/// The registry: one entry per known peer, written by the discovery side
/// and read by the orchestrator. Insertion order carries no meaning.
pub struct PeerRegistry {
    entries: Vec<PeerEntry>,
}

impl PeerRegistry {
    /// The registry's entries.
    pub closed spec fn entries_spec(&self) -> Seq<PeerEntry> {
        self.entries@
    }

    /// No two entries belong to the same peer.
    pub open spec fn wf(&self) -> bool {
        unique_ids(self.entries_spec())
    }

    /// An empty registry.
    pub fn new() -> (r: Self)
        ensures
            r.wf(),
            r.entries_spec() == Seq::<PeerEntry>::empty(),
    {
        PeerRegistry { entries: Vec::new() }
    }

    /// How many peers the registry currently holds.
    pub fn len(&self) -> (n: usize)
        ensures
            n == self.entries_spec().len(),
    {
        self.entries.len()
    }

    /// The entry at one position, for listing the registry's contents.
    pub fn get(&self, i: usize) -> (e: &PeerEntry)
        requires
            i < self.entries_spec().len(),
        ensures
            *e == self.entries_spec()[i as int],
    {
        &self.entries[i]
    }

    /// Record an announcement: refresh the announcing peer's entry, or
    /// create one if the peer is new. The refreshed entry carries the
    /// announced serving port and file list and the given time; every other
    /// peer's entry is untouched.
    pub fn upsert(
        &mut self,
        peer_id: PeerId,
        tcp_port: u16,
        files: Vec<AdvertisedFile>,
        now: u64,
    )
        requires
            old(self).wf(),
        ensures
            final(self).wf(),
            exists|i: int|
                {
                    &&& 0 <= i < final(self).entries_spec().len()
                    &&& (#[trigger] final(self).entries_spec()[i]).peer_id == peer_id
                    &&& final(self).entries_spec()[i].tcp_port == tcp_port
                    &&& final(self).entries_spec()[i].advertised_files@ == files@
                    &&& final(self).entries_spec()[i].last_seen == now
                    &&& forall|k: int|
                        0 <= k < final(self).entries_spec().len() && k != i ==> k < old(
                            self,
                        ).entries_spec().len() && #[trigger] final(self).entries_spec()[k] == old(
                            self,
                        ).entries_spec()[k]
                },
            final(self).entries_spec().len() == if contains_peer(
                old(self).entries_spec(),
                peer_id,
            ) {
                old(self).entries_spec().len()
            } else {
                old(self).entries_spec().len() + 1
            },
    {
        let entry = PeerEntry { peer_id, tcp_port, advertised_files: files, last_seen: now };
        let mut i: usize = 0;
        while i < self.entries.len()
            invariant
                old(self).wf(),
                *self == *old(self),
                0 <= i <= self.entries_spec().len(),
                forall|k: int| 0 <= k < i ==> (#[trigger] self.entries_spec()[k]).peer_id != entry.peer_id,
                entry == (PeerEntry { peer_id, tcp_port, advertised_files: files, last_seen: now }),
            decreases self.entries_spec().len() - i,
        {
            if self.entries[i].peer_id == peer_id {
                proof {
                    assert(contains_peer(old(self).entries_spec(), peer_id));
                }
                self.entries[i] = entry;
                proof {
                    let fs = self.entries_spec();
                    let os = old(self).entries_spec();
                    let ii = i as int;
                    assert(fs[ii].peer_id == peer_id);
                    assert(fs[ii].tcp_port == tcp_port);
                    assert(fs[ii].advertised_files@ == files@);
                    assert(fs[ii].last_seen == now);
                    assert(forall|k: int|
                        0 <= k < fs.len() && k != ii ==> #[trigger] fs[k] == os[k]);
                    assert forall|a: int, b: int|
                        0 <= a < b < self.entries@.len() implies self.entries@[a].peer_id
                        != self.entries@[b].peer_id by {
                        assert(old(self).entries_spec()[a].peer_id != old(
                            self,
                        ).entries_spec()[b].peer_id);
                    }
                }
                return ;
            }
            i = i + 1;
        }
        proof {
            assert(!contains_peer(self.entries_spec(), peer_id));
        }
        self.entries.push(entry);
        proof {
            let fs = self.entries_spec();
            let os = old(self).entries_spec();
            let n = self.entries@.len() - 1;
            assert(fs[n] == entry);
            assert(fs[n].peer_id == peer_id && fs[n].tcp_port == tcp_port
                && fs[n].advertised_files@ == files@ && fs[n].last_seen == now);
            assert(forall|k: int| 0 <= k < fs.len() && k != n ==> #[trigger] fs[k] == os[k]);
            assert forall|a: int, b: int|
                0 <= a < b < self.entries@.len() implies self.entries@[a].peer_id
                != self.entries@[b].peer_id by {
                if b < n {
                    assert(old(self).entries_spec()[a].peer_id != old(
                        self,
                    ).entries_spec()[b].peer_id);
                } else {
                    assert(self.entries@[a] == old(self).entries_spec()[a]);
                }
            }
        }
    }

    /// Evict every entry that has gone stale: after the sweep the registry
    /// holds exactly the entries that were not stale, in their old order.
    pub fn sweep(&mut self, now: u64, staleness_ttl: u64)
        requires
            old(self).wf(),
        ensures
            final(self).wf(),
            final(self).entries_spec() == old(self).entries_spec().filter(
                keep_fresh(now, staleness_ttl),
            ),
    {
        let ghost s = self.entries@;
        let mut rest: Vec<PeerEntry> = Vec::new();
        core::mem::swap(&mut self.entries, &mut rest);
        let ghost mut i: int = 0;
        while rest.len() > 0
            invariant
                0 <= i <= s.len(),
                rest@ == s.subrange(i, s.len() as int),
                self.entries@ == s.take(i).filter(keep_fresh(now, staleness_ttl)),
            decreases rest@.len(),
        {
            let ghost keep = keep_fresh(now, staleness_ttl);
            let e = rest.remove(0);
            proof {
                assert(e == s[i]);
                assert(rest@ =~= s.subrange(i + 1, s.len() as int));
            }
            let stale = e.last_seen < now && now - e.last_seen > staleness_ttl;
            if !stale {
                self.entries.push(e);
            }
            proof {
                reveal(Seq::filter);
                assert(s.take(i + 1).drop_last() =~= s.take(i));
                assert(s.take(i + 1).last() == s[i]);
                assert(keep(s[i]) == !stale);
                assert(s.take(i + 1).filter(keep) == if keep(s[i]) {
                    s.take(i).filter(keep).push(s[i])
                } else {
                    s.take(i).filter(keep)
                });
                i = i + 1;
            }
        }
        proof {
            assert(s.take(s.len() as int) =~= s);
            lemma_filter_unique_ids(s, keep_fresh(now, staleness_ttl));
        }
    }

    /// The peers that currently advertise a file of the given name: every
    /// such peer and no other. An empty answer, never an error, when no
    /// peer advertises it.
    pub fn find_peers(&self, filename: &String) -> (r: Vec<PeerId>)
        requires
            self.wf(),
        ensures
            is_find_peers_result(self.entries_spec(), filename@, r@),
    {
        let mut r: Vec<PeerId> = Vec::new();
        let mut i: usize = 0;
        while i < self.entries.len()
            invariant
                self.wf(),
                0 <= i <= self.entries_spec().len(),
                forall|k: int|
                    0 <= k < r@.len() ==> peer_listed(
                        self.entries_spec().take(i as int),
                        filename@,
                        #[trigger] r@[k],
                    ),
                forall|m: int|
                    0 <= m < i && advertises(#[trigger] self.entries_spec()[m], filename@)
                        ==> r@.contains(self.entries_spec()[m].peer_id),
                forall|k1: int, k2: int| 0 <= k1 < k2 < r@.len() ==> r@[k1] != r@[k2],
            decreases self.entries_spec().len() - i,
        {
            let ghost r0 = r@;
            if entry_advertises(&self.entries[i], filename) {
                r.push(self.entries[i].peer_id);
                proof {
                    let s = self.entries_spec();
                    let pre = s.take(i as int);
                    let post = s.take(i + 1);
                    assert forall|k: int| 0 <= k < r@.len() implies peer_listed(
                        post,
                        filename@,
                        #[trigger] r@[k],
                    ) by {
                        if k < r0.len() {
                            assert(r@[k] == r0[k]);
                            assert(peer_listed(pre, filename@, r0[k]));
                            let m = choose|m: int|
                                0 <= m < pre.len() && pre[m].peer_id == r0[k] && advertises(
                                    pre[m],
                                    filename@,
                                );
                            assert(post[m] == pre[m]);
                        } else {
                            assert(r@[k] == s[i as int].peer_id);
                            assert(post[i as int] == s[i as int]);
                            assert((post[i as int]).peer_id == r@[k] && advertises(
                                post[i as int],
                                filename@,
                            ));
                        }
                    }
                    assert forall|k1: int, k2: int| 0 <= k1 < k2 < r@.len() implies r@[k1]
                        != r@[k2] by {
                        if k2 == r@.len() - 1 {
                            assert(r@[k1] == r0[k1]);
                            assert(peer_listed(pre, filename@, r0[k1]));
                            let m = choose|m: int|
                                0 <= m < pre.len() && pre[m].peer_id == r0[k1] && advertises(
                                    pre[m],
                                    filename@,
                                );
                            assert(pre[m] == s[m]);
                            assert(s[m].peer_id != s[i as int].peer_id);
                        }
                    }
                    assert forall|m: int|
                        0 <= m < i + 1 && advertises(
                            #[trigger] self.entries_spec()[m],
                            filename@,
                        ) implies r@.contains(self.entries_spec()[m].peer_id) by {
                        if m < i {
                            let k = choose|k: int|
                                0 <= k < r0.len() && r0[k] == self.entries_spec()[m].peer_id;
                            assert(r@[k] == self.entries_spec()[m].peer_id);
                        } else {
                            assert(r@[r@.len() - 1] == self.entries_spec()[m].peer_id);
                        }
                    }
                }
            } else {
                proof {
                    let s = self.entries_spec();
                    assert forall|k: int| 0 <= k < r@.len() implies peer_listed(
                        s.take(i + 1),
                        filename@,
                        #[trigger] r@[k],
                    ) by {
                        assert(peer_listed(s.take(i as int), filename@, r@[k]));
                        let m = choose|m: int|
                            0 <= m < s.take(i as int).len() && s.take(i as int)[m].peer_id
                                == r@[k] && advertises(s.take(i as int)[m], filename@);
                        assert(s.take(i + 1)[m] == s.take(i as int)[m]);
                    }
                }
            }
            i = i + 1;
        }
        proof {
            assert(self.entries_spec().take(self.entries_spec().len() as int)
                =~= self.entries_spec());
        }
        r
    }
}

/// Registry eviction law: a peer whose entry has gone stale is absent from
/// `find_peers` answers taken after the next sweep.
pub proof fn lemma_stale_peer_evicted(
    s: Seq<PeerEntry>,
    now: u64,
    staleness_ttl: u64,
    id: PeerId,
    name: Seq<char>,
    r: Seq<PeerId>,
)
    requires
        forall|i: int|
            0 <= i < s.len() && (#[trigger] s[i]).peer_id == id ==> is_stale(
                s[i],
                now,
                staleness_ttl,
            ),
        is_find_peers_result(s.filter(keep_fresh(now, staleness_ttl)), name, r),
    ensures
        !r.contains(id),
{
    let keep = keep_fresh(now, staleness_ttl);
    let f = s.filter(keep);
    lemma_filter_elements(s, keep);
    if r.contains(id) {
        let k = choose|k: int| 0 <= k < r.len() && r[k] == id;
        let i = choose|i: int| 0 <= i < f.len() && f[i].peer_id == r[k] && advertises(f[i], name);
        assert(s.contains(f[i]));
        let m = choose|m: int| 0 <= m < s.len() && s[m] == f[i];
        assert(is_stale(s[m], now, staleness_ttl));
        broadcast use vstd::seq_lib::group_filter_ensures;

        assert(keep(f[i]));
    }
}

/// Whether the entry advertises a file of the given name.
fn entry_advertises(e: &PeerEntry, filename: &String) -> (b: bool)
    ensures
        b == advertises(*e, filename@),
{
    let mut j: usize = 0;
    while j < e.advertised_files.len()
        invariant
            0 <= j <= e.advertised_files@.len(),
            forall|m: int| 0 <= m < j ==> (#[trigger] e.advertised_files@[m]).filename@ != filename@,
        decreases e.advertised_files@.len() - j,
    {
        if e.advertised_files[j].filename == *filename {
            return true;
        }
        j = j + 1;
    }
    false
}

} // verus!
