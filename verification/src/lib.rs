//! Rolling-window archival cache for a blockchain data-availability network.
//!
//! The crate keeps a bounded, contiguous span of recent block heights: for
//! each height in the window it retains a compact, proof-bearing header
//! (`StrippedHeader`) and the height's erasure-coded payload blob, treated
//! here as an opaque byte sequence.  The windowed store enforces that exactly
//! the heights between its two boundary markers are present, and every
//! boundary-and-record update is emitted as one atomic batch of key/value
//! operations so a persistence engine can commit it all-or-nothing.

use vstd::prelude::*;

pub mod codec;
pub mod header;
pub mod merkle;
pub mod store;
pub mod worker;

verus! {

/// The failures the library distinguishes.
#[derive(Debug, Clone, Copy, PartialEq, Eq, Structural)]
pub enum SyncError {
    /// The Merkle root recomputed over a header's canonical fields disagrees
    /// with the hash the header declares: a protocol-invariant violation.
    RootMismatch,
    /// A height arrived out of sequence: the window may only be advanced by
    /// the height adjacent to its upper boundary.
    Desync { expected: u64, got: u64 },
    /// Persisted bytes do not parse as a record of this crate.
    Malformed,
}

impl SyncError {
    /// A short human-readable description.
    pub fn describe(&self) -> (r: &'static str) {
        match self {
            SyncError::RootMismatch => "recomputed merkle root disagrees with the declared header hash",
            SyncError::Desync { .. } => "received height is not adjacent to the window's upper boundary",
            SyncError::Malformed => "stored bytes do not parse as a record",
        }
    }
}

} // verus!
