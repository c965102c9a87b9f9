//! The download orchestrator's decision logic: resolving peers for a
//! filename, validating learned metadata, selecting peers with degradation,
//! guarding received chunks, and the phase machine of one download. The
//! sockets and timers that carry these decisions out live outside the
//! library.

use vstd::prelude::*;
use crate::Error;
use crate::chunk::Chunk;
use crate::chunk::spec_chunk_len;
use crate::chunk::spec_total_chunks;
use crate::chunk::total_chunks_for;
use crate::download::DownloadState;
use crate::registry::PeerId;
use crate::registry::PeerRegistry;
use crate::registry::is_find_peers_result;

verus! {

/// The phases one download passes through, in order, with `Failed`
/// reachable from every phase that is not terminal.
#[derive(Clone, Copy, Debug, PartialEq, Eq, Structural)]
pub enum DownloadPhase {
    /// Querying the registry for peers that advertise the filename.
    Resolving,
    /// Learning the file's chunk geometry from a candidate peer.
    FetchingMetadata,
    /// Fetching missing chunks from the candidate peers.
    Downloading,
    /// Every chunk received; the output is being cut to its final length.
    Finalizing,
    /// The download succeeded and its resources are released.
    Done,
    /// The download failed for good; the process keeps running.
    Failed,
}

/// The transitions the download machine may take: each phase steps to its
/// successor, any non-terminal phase may fail, terminal phases hold still.
pub open spec fn phase_steps_to(from: DownloadPhase, to: DownloadPhase) -> bool {
    match from {
        DownloadPhase::Resolving => to == DownloadPhase::FetchingMetadata || to
            == DownloadPhase::Failed,
        DownloadPhase::FetchingMetadata => to == DownloadPhase::Downloading || to
            == DownloadPhase::Failed,
        DownloadPhase::Downloading => to == DownloadPhase::Finalizing || to
            == DownloadPhase::Failed,
        DownloadPhase::Finalizing => to == DownloadPhase::Done || to == DownloadPhase::Failed,
        DownloadPhase::Done => to == DownloadPhase::Done,
        DownloadPhase::Failed => to == DownloadPhase::Failed,
    }
}

/// Step the download machine: on success the phase advances to its
/// successor, on failure any non-terminal phase falls to `Failed`, and the
/// terminal phases stay what they are.
pub fn next_phase(p: DownloadPhase, ok: bool) -> (r: DownloadPhase)
    ensures
        phase_steps_to(p, r),
        ok ==> r == (match p {
            DownloadPhase::Resolving => DownloadPhase::FetchingMetadata,
            DownloadPhase::FetchingMetadata => DownloadPhase::Downloading,
            DownloadPhase::Downloading => DownloadPhase::Finalizing,
            DownloadPhase::Finalizing => DownloadPhase::Done,
            DownloadPhase::Done => DownloadPhase::Done,
            DownloadPhase::Failed => DownloadPhase::Failed,
        }),
        !ok ==> r == (match p {
            DownloadPhase::Done => DownloadPhase::Done,
            _ => DownloadPhase::Failed,
        }),
{
    match p {
        DownloadPhase::Resolving => if ok {
            DownloadPhase::FetchingMetadata
        } else {
            DownloadPhase::Failed
        },
        DownloadPhase::FetchingMetadata => if ok {
            DownloadPhase::Downloading
        } else {
            DownloadPhase::Failed
        },
        DownloadPhase::Downloading => if ok {
            DownloadPhase::Finalizing
        } else {
            DownloadPhase::Failed
        },
        DownloadPhase::Finalizing => if ok {
            DownloadPhase::Done
        } else {
            DownloadPhase::Failed
        },
        DownloadPhase::Done => DownloadPhase::Done,
        DownloadPhase::Failed => DownloadPhase::Failed,
    }
}

/// Resolve the candidate peers for a filename: exactly the registry's
/// peers that advertise it, and `NoPeersFound` exactly when there is none.
pub fn resolve_peers(registry: &PeerRegistry, filename: &String) -> (r: Result<Vec<PeerId>, Error>)
    requires
        registry.wf(),
    ensures
        r matches Ok(peers) ==> peers@.len() > 0 && is_find_peers_result(
            registry.entries_spec(),
            filename@,
            peers@,
        ),
        r matches Err(e) ==> e == Error::NoPeersFound && is_find_peers_result(
            registry.entries_spec(),
            filename@,
            Seq::<PeerId>::empty(),
        ),
{
    let peers = registry.find_peers(filename);
    if peers.len() == 0 {
        proof {
            assert(peers@ =~= Seq::<PeerId>::empty());
        }
        Err(Error::NoPeersFound)
    } else {
        Ok(peers)
    }
}

/// Validate metadata learned from a peer and open the download state for
/// it: rejected with `MetadataUnavailable` exactly when the chunk size is
/// zero or the preallocated output would not fit in memory; otherwise the
/// download expects the derived chunk count and has received nothing.
pub fn start_download(chunk_size: u64, total_length: u64) -> (r: Result<DownloadState, Error>)
    ensures
        r is Ok <==> chunk_size >= 1 && spec_total_chunks(total_length as int, chunk_size as int)
            * chunk_size <= usize::MAX,
        r matches Ok(s) ==> {
            &&& s.wf()
            &&& s.chunk_size_spec() == chunk_size
            &&& s.total_length_spec() == total_length
            &&& s.total_chunks_spec() == spec_total_chunks(total_length as int, chunk_size as int)
            &&& s.received_spec() == Set::<u64>::empty()
        },
        r matches Err(e) ==> e == Error::MetadataUnavailable,
{
    if chunk_size == 0 {
        return Err(Error::MetadataUnavailable);
    }
    let total_chunks = total_chunks_for(total_length, chunk_size);
    if total_chunks > usize::MAX as u64 / chunk_size {
        proof {
            assert(total_chunks * chunk_size > usize::MAX) by (nonlinear_arith)
                requires
                    chunk_size >= 1,
                    total_chunks > usize::MAX as u64 / chunk_size,
            ;
        }
        return Err(Error::MetadataUnavailable);
    }
    proof {
        assert(total_chunks * chunk_size <= usize::MAX) by (nonlinear_arith)
            requires
                chunk_size >= 1,
                total_chunks <= usize::MAX as u64 / chunk_size,
        ;
    }
    Ok(DownloadState::new(total_chunks, chunk_size, total_length))
}

/// Select the peer for the next request: scanning round-robin from the
/// cursor, the first candidate not yet marked degraded for this download;
/// nothing exactly when every candidate is degraded.
pub fn select_peer(peers: &Vec<PeerId>, degraded: &Vec<bool>, cursor: usize) -> (r: Option<usize>)
    requires
        peers@.len() == degraded@.len(),
        peers@.len() > 0,
        cursor < peers@.len(),
    ensures
        r matches Some(k) ==> k < peers@.len() && !degraded@[k as int],
        r matches Some(k) ==> (k >= cursor ==> forall|j: int|
            cursor <= j < k ==> #[trigger] degraded@[j]),
        r matches Some(k) ==> (k < cursor ==> (forall|j: int|
            cursor <= j < peers@.len() ==> #[trigger] degraded@[j]) && (forall|j: int|
            0 <= j < k ==> #[trigger] degraded@[j])),
        r is None <==> forall|k: int| 0 <= k < degraded@.len() ==> degraded@[k],
{
    let n = peers.len();
    let mut step: usize = 0;
    while step < n
        invariant
            0 <= step <= n,
            n == peers@.len() == degraded@.len(),
            cursor < n,
            forall|j: int| cursor <= j < n && j - cursor < step ==> #[trigger] degraded@[j],
            forall|j: int| 0 <= j < cursor && n - cursor + j < step ==> #[trigger] degraded@[j],
        decreases n - step,
    {
        let k = if cursor < n - step {
            cursor + step
        } else {
            cursor - (n - step)
        };
        if !degraded[k] {
            return Some(k);
        }
        step = step + 1;
    }
    None
}

/// Whether a chunk that came back from a peer is the one the download
/// asked for and of the exact length the file's geometry gives that index
/// — anything else is discarded as a protocol violation, so no partial or
/// foreign chunk ever reaches the output.
pub fn chunk_acceptable(state: &DownloadState, index: u64, chunk: &Chunk) -> (r: bool)
    requires
        state.wf(),
    ensures
        r == (chunk.index == index && index < state.total_chunks_spec() && chunk.data@.len()
            == spec_chunk_len(
            state.total_length_spec() as int,
            state.chunk_size_spec() as int,
            index as int,
        )),
{
    if chunk.index != index {
        return false;
    }
    let total = crate::chunk::total_chunks_for(state.total_length(), state.chunk_size());
    if index >= total {
        return false;
    }
    proof {
        crate::chunk::lemma_chunk_bounds(
            state.total_length_spec() as int,
            state.chunk_size_spec() as int,
            index as int,
        );
        assert((index as int + 1) * (state.chunk_size_spec() as int) == index as int
            * (state.chunk_size_spec() as int) + state.chunk_size_spec()) by (nonlinear_arith);
    }
    let offset = index * state.chunk_size();
    let remaining = state.total_length() - offset;
    let expected = if remaining < state.chunk_size() {
        remaining
    } else {
        state.chunk_size()
    };
    chunk.data.len() as u64 == expected
}

/// How many fetch attempts one chunk may consume: a failed attempt either
/// moves to the next attempt or, once the budget is spent, fails the whole
/// download with `ChunkUnavailable` for that index.
pub fn next_attempt(attempts: u64, max_retries: u64, index: u64) -> (r: Result<u64, Error>)
    ensures
        attempts < max_retries <==> r == Ok::<u64, Error>((attempts + 1) as u64),
        attempts >= max_retries <==> r == Err::<u64, Error>(Error::ChunkUnavailable(index)),
{
    if attempts < max_retries {
        Ok(attempts + 1)
    } else {
        Err(Error::ChunkUnavailable(index))
    }
}

} // verus!
