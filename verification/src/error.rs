//! The error taxonomy of the client core.

use vstd::prelude::*;

verus! {

/// Everything that can go wrong between a metainfo file and a finished
/// download, as seen by callers of this library.
#[derive(Debug, Clone, Copy, PartialEq, Eq, Structural)]
pub enum Error {
    /// Malformed bencode or a missing metainfo field.
    Metainfo,
    /// Network failure exhausted the tracker retry budget.
    TrackerUnreachable,
    /// The tracker answered, but not with a well-formed response.
    TrackerProtocol,
    /// A peer answered the handshake with an unexpected header.
    PeerHandshake,
    /// A peer broke the message protocol (bad frame, bad sequence).
    PeerProtocol,
    /// A peer transport failed.
    PeerIo,
    /// An assembled piece failed its SHA-1 check.
    PieceHashMismatch,
    /// No surviving peer holds a piece that is still needed.
    NoPeersForPiece,
}

} // verus!
