//! A peer-to-peer file distribution library: files are split into fixed-size
//! chunks and reassembled from chunks fetched from one or more peers.
//!
//! The crate holds the verified core of the system: the chunking and
//! reassembly layer, the download bookkeeping, the peer registry with
//! staleness eviction, the wire codec for discovery and transfer messages,
//! the server-side request resolution, the download orchestrator's decision
//! logic, and the command-line grammar. Sockets, files and timers live
//! outside the library and hand it plain values.

use vstd::prelude::*;

pub mod chunk;
pub mod cli;
pub mod download;
pub mod orchestrator;
pub mod protocol;
pub mod registry;
pub mod transfer;

verus! {

/// The error taxonomy of the library.
///
/// `IoError`, `PeerUnreachable`, `NotFound` and `OutOfRange` describe a
/// single failed operation; `NoPeersFound`, `MetadataUnavailable` and
/// `ChunkUnavailable` are terminal for one download.
#[derive(Clone, Copy, Debug, PartialEq, Eq, Structural)]
pub enum Error {
    /// A disk or file failure, fatal to the single operation.
    IoError,
    /// A network failure talking to one peer.
    PeerUnreachable,
    /// The requested filename is not shared by the addressed peer.
    NotFound,
    /// The requested chunk index lies outside the file's chunk range.
    OutOfRange,
    /// No peer currently advertises the requested filename.
    NoPeersFound,
    /// Every candidate peer failed to serve the file's metadata.
    MetadataUnavailable,
    /// The retry budget ran out on the chunk with this index.
    ChunkUnavailable(u64),
}

} // verus!
