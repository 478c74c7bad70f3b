//! The per-piece metadata the scheduler works with: index, expected hash,
//! effective length and the set of peers that claim the piece, ordered
//! rarest first.
//!
//! The pending pieces live in a plain vector; `pop_rarest` removes a piece
//! no other pending piece beats, where fewer holders beat more holders and
//! ties go to the lower index.

use vstd::prelude::*;

use crate::peer::{spec_has_piece, Peer};
use crate::torrent::{hashes_wf, spec_total_length, Torrent};

verus! {

/// The effective length of piece `i`: the nominal piece length, or what
/// remains of the content before the end.
pub open spec fn spec_piece_length(plength: int, total: int, i: int) -> int {
    if total - i * plength < plength {
        total - i * plength
    } else {
        plength
    }
}

/// When the content length is an exact multiple of the piece length, the
/// last piece is full-sized rather than empty.
pub proof fn lemma_full_last_piece(plength: int, k: int)
    requires
        plength >= 1,
        k >= 1,
    ensures
        spec_piece_length(plength, k * plength, k - 1) == plength,
{
    assert((k - 1) * plength == k * plength - plength) by (nonlinear_arith);
}

/// One piece of the torrent, as the scheduler sees it.
#[derive(Debug, Clone)]
pub struct Piece {
    index: usize,
    length: usize,
    hash: Vec<u8>,
    peers: Vec<usize>,
}

impl Piece {
    /// The piece index, for contracts.
    pub closed spec fn spec_index(&self) -> usize {
        self.index
    }

    /// The effective length, for contracts.
    pub closed spec fn spec_length(&self) -> usize {
        self.length
    }

    /// The expected digest, for contracts.
    pub closed spec fn spec_hash(&self) -> Seq<u8> {
        self.hash@
    }

    /// The participating peer indices, for contracts.
    pub closed spec fn spec_peers(&self) -> Seq<usize> {
        self.peers@
    }

    /// Builds piece `piece_i` of `t`: its expected hash, its effective
    /// length, and the indices into `peers` whose bitfield claims it.
    pub fn new(piece_i: usize, t: &Torrent, peers: &Vec<Peer>) -> (p: Piece)
        requires
            piece_i < t.info.pieces.0@.len(),
            hashes_wf(t.info.pieces),
            spec_total_length(t.info.keys) <= usize::MAX,
            t.info.plength >= 1,
            (piece_i as int) * (t.info.plength as int) < spec_total_length(t.info.keys),
        ensures
            p.spec_index() == piece_i,
            p.spec_length() == spec_piece_length(
                t.info.plength as int,
                spec_total_length(t.info.keys),
                piece_i as int,
            ),
            p.spec_hash() == t.info.pieces.0@[piece_i as int]@,
            p.spec_hash().len() == 20,
            forall|k1: int, k2: int| 0 <= k1 < k2 < p.spec_peers().len() ==> p.spec_peers()[k1]
                < p.spec_peers()[k2],
            forall|j: usize| p.spec_peers().contains(j) <==> (j as int) < peers@.len()
                && spec_has_piece(peers@[j as int].bitfield@, piece_i as int),
    {
        let total = t.length();
        let begin = piece_i * t.info.plength;
        let remaining = total - begin;
        let length = if remaining < t.info.plength {
            remaining
        } else {
            t.info.plength
        };
        let hash = vstd::slice::slice_to_vec(t.info.pieces.0[piece_i].as_slice());
        let mut holders: Vec<usize> = Vec::new();
        let mut j: usize = 0;
        while j < peers.len()
            invariant
                j <= peers@.len(),
                forall|k: int| 0 <= k < holders@.len() ==> (holders@[k] as int) < j as int,
                forall|k1: int, k2: int| 0 <= k1 < k2 < holders@.len() ==> holders@[k1]
                    < holders@[k2],
                forall|i: usize| (i as int) < j as int ==> (holders@.contains(i) <==> (
                spec_has_piece(peers@[i as int].bitfield@, piece_i as int))),
            decreases peers@.len() - j,
        {
            if peers[j].has_piece(piece_i) {
                let ghost old_h = holders@;
                holders.push(j);
                proof {
                    assert forall|i: usize| (i as int) < j + 1 implies (holders@.contains(i) <==> (
                    spec_has_piece(peers@[i as int].bitfield@, piece_i as int))) by {
                        if holders@.contains(i) {
                            let k = choose|k: int| 0 <= k < holders@.len() && holders@[k] == i;
                            if k < old_h.len() {
                                assert(old_h.contains(i));
                            } else {
                                assert(i == j);
                            }
                        }
                        if spec_has_piece(peers@[i as int].bitfield@, piece_i as int) {
                            if (i as int) < j as int {
                                assert(old_h.contains(i));
                                let k = choose|k: int| 0 <= k < old_h.len() && old_h[k] == i;
                                assert(holders@[k] == i);
                            } else {
                                assert(holders@[holders@.len() - 1] == i);
                            }
                        }
                    }
                }
            }
            j = j + 1;
        }
        Piece { index: piece_i, length, hash, peers: holders }
    }

    /// The piece index.
    pub fn index(&self) -> (i: usize)
        ensures
            i == self.spec_index(),
    {
        self.index
    }

    /// The effective length in bytes.
    pub fn length(&self) -> (n: usize)
        ensures
            n == self.spec_length(),
    {
        self.length
    }

    /// The expected SHA-1 digest.
    pub fn hash(&self) -> (h: &Vec<u8>)
        ensures
            h@ == self.spec_hash(),
    {
        &self.hash
    }

    /// The indices of the peers that claim this piece.
    pub fn peers(&self) -> (ps: &Vec<usize>)
        ensures
            ps@ == self.spec_peers(),
    {
        &self.peers
    }
}

/// Whether `a` is at least as urgent as `b`: held by fewer peers, or held
/// by as many with the lower index.
pub open spec fn spec_prio_le(a: Piece, b: Piece) -> bool {
    a.spec_peers().len() < b.spec_peers().len() || (a.spec_peers().len() == b.spec_peers().len()
        && a.spec_index() <= b.spec_index())
}

/// Removes and returns a rarest pending piece: one that no other pending
/// piece beats in the rarest-first order.
pub fn pop_rarest(pieces: &mut Vec<Piece>) -> (r: Option<Piece>)
    ensures
        old(pieces)@.len() == 0 ==> r is None && final(pieces)@ == old(pieces)@,
        old(pieces)@.len() > 0 ==> (r matches Some(p) && exists|i: int|
            0 <= i < old(pieces)@.len() && old(pieces)@[i] == p && final(pieces)@ == old(
                pieces,
            )@.remove(i) && (forall|j: int| 0 <= j < old(pieces)@.len() ==> spec_prio_le(
                p,
                #[trigger] old(pieces)@[j],
            ))),
{
    if pieces.len() == 0 {
        return None;
    }
    let mut best: usize = 0;
    let mut k: usize = 1;
    while k < pieces.len()
        invariant
            pieces@.len() > 0,
            best < k <= pieces@.len(),
            forall|j: int| 0 <= j < k as int ==> spec_prio_le(
                pieces@[best as int],
                #[trigger] pieces@[j],
            ),
        decreases pieces@.len() - k,
    {
        let better = pieces[k].peers.len() < pieces[best].peers.len() || (pieces[k].peers.len()
            == pieces[best].peers.len() && pieces[k].index < pieces[best].index);
        if better {
            best = k;
        }
        k = k + 1;
    }
    let p = pieces.remove(best);
    Some(p)
}

} // verus!
