//! A verified core for a BitTorrent leecher.
//!
//! The crate covers the protocol logic of the client: the bit-exact framing
//! codecs (peer handshake, peer messages, block transfer, tracker UDP
//! packets), the bencoded metainfo parser with its canonical re-encoding and
//! info-hash, the tracker announce flows, and the rarest-first piece
//! scheduler with per-piece SHA-1 verification.  All network and file I/O is
//! left to the surrounding application, which drives the state machines
//! defined here.

pub mod bencode;
pub mod block;
pub mod digest;
pub mod download;
pub mod error;
pub mod peer;
pub mod piece;
pub mod torrent;
pub mod tracker;
pub mod wire;

pub use wire::BLOCK_SIZE;
