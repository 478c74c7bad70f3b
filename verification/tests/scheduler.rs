//! Scheduler behaviour: rarest-first ordering, block assembly, choke
//! handling, hash verification and the final split into files.

use bittorrent_cli::block::{Request as BlockRequest, Response as BlockResponse};
use bittorrent_cli::digest;
use bittorrent_cli::download::{
    settle_round, Assembly, Download, Downloaded, DownloadedIter, RoundDecision, RoundOutcome,
};
use bittorrent_cli::error::Error;
use bittorrent_cli::peer::{Bitfield, BlockOutcome, Message, MessageId, Peer};
use bittorrent_cli::piece::{pop_rarest, Piece};
use bittorrent_cli::torrent::{Hashes, Info, Keys, Torrent};

/// Pseudo-random but deterministic content of `n` bytes.
fn content_bytes(n: usize) -> Vec<u8> {
    (0..n).map(|i| ((i * 31 + 7) % 251) as u8).collect()
}

/// A single-file torrent over `content` with piece length `plength`.
fn make_torrent(content: &[u8], plength: usize) -> Torrent {
    let mut hashes: Vec<Vec<u8>> = Vec::new();
    let mut at = 0;
    while at < content.len() {
        let end = (at + plength).min(content.len());
        hashes.push(digest::sha1_digest(&content[at..end]));
        at = end;
    }
    Torrent {
        announce: b"http://tracker.example/announce".to_vec(),
        info: Info {
            name: b"a.bin".to_vec(),
            plength,
            pieces: Hashes(hashes),
            keys: Keys::SingleFile { length: content.len() },
        },
    }
}

/// Serves block `b` of `piece_index` out of `piece` (the piece's bytes)
/// as the peer-wire message a remote would send.
fn serve_block(piece_index: u32, b: u32, piece: &[u8], piece_length: u32) -> Message {
    let req = BlockRequest::new(piece_index, b, piece_length);
    let data = piece[req.begin as usize..(req.begin + req.length) as usize].to_vec();
    Message {
        id: MessageId::Piece,
        payload: BlockResponse::from_parts(piece_index, req.begin, data).encode(),
    }
}

#[test]
fn rarest_first_pops_fewest_holders_then_lowest_index() {
    let content = content_bytes(300);
    let t = make_torrent(&content, 100);
    // peer 0 holds pieces 0..3, peer 1 holds only piece 0
    let peers = vec![
        Peer::new(Bitfield::from_payload(vec![0xE0])),
        Peer::new(Bitfield::from_payload(vec![0x80])),
    ];
    let mut pending = vec![
        Piece::new(0, &t, &peers),
        Piece::new(1, &t, &peers),
        Piece::new(2, &t, &peers),
    ];
    assert_eq!(pending[0].peers(), &vec![0usize, 1]);
    assert_eq!(pending[1].peers(), &vec![0usize]);
    let order: Vec<usize> = std::iter::from_fn(|| pop_rarest(&mut pending).map(|p| p.index()))
        .collect();
    assert_eq!(order, vec![1, 2, 0]);
}

#[test]
fn last_piece_full_when_exact_multiple() {
    let content = content_bytes(300);
    let t = make_torrent(&content, 100);
    let peers = vec![Peer::new(Bitfield::from_payload(vec![0xE0]))];
    let p = Piece::new(2, &t, &peers);
    assert_eq!(p.length(), 100);
}

#[test]
fn one_peer_one_piece_download() {
    // piece length 32768, total 32768: one piece of exactly two blocks
    let content = content_bytes(32768);
    let t = make_torrent(&content, 32768);
    let peers = vec![Peer::new(Bitfield::from_payload(vec![0x80]))];
    let piece = Piece::new(0, &t, &peers);
    assert_eq!(piece.peers(), &vec![0usize]);

    let mut session = Peer::new(Bitfield::from_payload(vec![0x80]));
    assert!(session.choked);
    assert!(session.mark_interested());
    assert!(!session.mark_interested());
    session.on_idle_message(&Message { id: MessageId::Unchoke, payload: Vec::new() });
    assert!(!session.choked);

    let mut round = Assembly::new(0, 32768);
    assert_eq!(round.queue, vec![0, 1]);
    while let Some(b) = round.take_block() {
        let msg = serve_block(0, b, &content, 32768);
        match session.on_block_message(0, b, 32768, &msg).unwrap() {
            BlockOutcome::Delivered(res) => {
                round.accept_block(res.begin() / 16384, res.block().as_slice());
            }
            _ => panic!("the served block must be delivered"),
        }
    }
    assert!(round.complete());

    let mut d = Download::new(&t);
    let mut pending: Vec<Piece> = Vec::new();
    match settle_round(&mut d, &mut pending, piece, RoundOutcome::Complete(round.buf)) {
        RoundDecision::Committed => {}
        _ => panic!("a verified piece must commit"),
    }
    assert!(d.finished());

    let out = Downloaded::new(d, &t);
    assert_eq!(out.bytes, content);
    let mut it = DownloadedIter::new(&out);
    let f = it.next().unwrap();
    assert_eq!(f.path(), &vec![b"a.bin".to_vec()]);
    assert_eq!(f.bytes(), &content);
    assert!(it.next().is_none());
}

#[test]
fn single_peer_completes_every_piece() {
    let content = content_bytes(2 * 16384 + 1000);
    let t = make_torrent(&content, 16384);
    let peers = vec![Peer::new(Bitfield::from_payload(vec![0xE0]))];
    let mut pending: Vec<Piece> = (0..3).map(|i| Piece::new(i, &t, &peers)).collect();
    let mut d = Download::new(&t);
    let mut session = Peer::new(Bitfield::from_payload(vec![0xE0]));
    session.mark_interested();
    session.on_idle_message(&Message { id: MessageId::Unchoke, payload: Vec::new() });
    while let Some(piece) = pop_rarest(&mut pending) {
        assert_eq!(piece.peers().len(), 1);
        let plen = piece.length() as u32;
        let index = piece.index() as u32;
        let start = piece.index() * t.info.plength;
        let bytes = &content[start..start + piece.length()];
        let mut round = Assembly::new(index, plen);
        while let Some(b) = round.take_block() {
            let msg = serve_block(index, b, bytes, plen);
            match session.on_block_message(index, b, plen, &msg).unwrap() {
                BlockOutcome::Delivered(res) => {
                    round.accept_block(res.begin() / 16384, res.block().as_slice());
                }
                _ => panic!("the served block must be delivered"),
            }
        }
        assert!(round.complete());
        match settle_round(&mut d, &mut pending, piece, RoundOutcome::Complete(round.buf)) {
            RoundDecision::Committed => {}
            _ => panic!("a verified piece must commit"),
        }
    }
    assert!(d.finished());
    assert_eq!(Downloaded::new(d, &t).bytes, content);
}

#[test]
fn hash_mismatch_reenqueues_piece() {
    let content = content_bytes(100);
    let t = make_torrent(&content, 100);
    let peers = vec![
        Peer::new(Bitfield::from_payload(vec![0x80])),
        Peer::new(Bitfield::from_payload(vec![0x80])),
    ];
    let piece = Piece::new(0, &t, &peers);
    let mut d = Download::new(&t);
    let mut pending: Vec<Piece> = Vec::new();

    // first attempt: a peer serves wrong bytes for the only block
    let mut wrong = content.clone();
    wrong[0] ^= 0xFF;
    match settle_round(&mut d, &mut pending, piece, RoundOutcome::Complete(wrong)) {
        RoundDecision::Requeued(e) => assert_eq!(e, Error::PieceHashMismatch),
        _ => panic!("a corrupt piece must be requeued"),
    }
    assert!(!d.finished());
    assert_eq!(pending.len(), 1);

    // second attempt from another peer with the right bytes
    let retry = pop_rarest(&mut pending).unwrap();
    match settle_round(&mut d, &mut pending, retry, RoundOutcome::Complete(content.clone())) {
        RoundDecision::Committed => {}
        _ => panic!("the corrected piece must commit"),
    }
    assert!(d.finished());
    assert_eq!(Downloaded::new(d, &t).bytes, content);
}

#[test]
fn incomplete_round_without_peers_is_fatal() {
    let content = content_bytes(100);
    let t = make_torrent(&content, 100);
    let no_peers: Vec<Peer> = Vec::new();
    let piece = Piece::new(0, &t, &no_peers);
    let mut d = Download::new(&t);
    let mut pending: Vec<Piece> = Vec::new();
    match settle_round(&mut d, &mut pending, piece, RoundOutcome::Incomplete) {
        RoundDecision::Fatal(e) => assert_eq!(e, Error::NoPeersForPiece),
        _ => panic!("an unheld piece must fail the download"),
    }
    assert!(pending.is_empty());
}

#[test]
fn choke_returns_block_to_queue() {
    // two blocks; the first peer serves one block and then chokes
    let content = content_bytes(32768);
    let t = make_torrent(&content, 32768);
    let mut round = Assembly::new(0, 32768);

    let mut first = Peer::new(Bitfield::from_payload(vec![0x80]));
    first.mark_interested();
    first.on_idle_message(&Message { id: MessageId::Unchoke, payload: Vec::new() });
    let b0 = round.take_block().unwrap();
    let msg = serve_block(0, b0, &content, 32768);
    match first.on_block_message(0, b0, 32768, &msg).unwrap() {
        BlockOutcome::Delivered(res) => {
            round.accept_block(res.begin() / 16384, res.block().as_slice());
        }
        _ => panic!("the served block must be delivered"),
    }
    let b1 = round.take_block().unwrap();
    let choke = Message { id: MessageId::Choke, payload: Vec::new() };
    match first.on_block_message(0, b1, 32768, &choke).unwrap() {
        BlockOutcome::Requeue => round.requeue(b1),
        _ => panic!("a choke must return the block to the queue"),
    }
    assert!(first.choked);
    assert!(!round.complete());

    // a second peer picks the returned block up and completes the piece
    let mut second = Peer::new(Bitfield::from_payload(vec![0x80]));
    second.mark_interested();
    second.on_idle_message(&Message { id: MessageId::Unchoke, payload: Vec::new() });
    let b2 = round.take_block().unwrap();
    assert_eq!(b2, b1);
    let msg2 = serve_block(0, b2, &content, 32768);
    match second.on_block_message(0, b2, 32768, &msg2).unwrap() {
        BlockOutcome::Delivered(res) => {
            round.accept_block(res.begin() / 16384, res.block().as_slice());
        }
        _ => panic!("the served block must be delivered"),
    }
    assert!(round.complete());
    assert_eq!(round.buf, content);
}

#[test]
fn stale_and_malformed_piece_messages() {
    let mut session = Peer::new(Bitfield::from_payload(vec![0x80]));
    session.mark_interested();
    session.on_idle_message(&Message { id: MessageId::Unchoke, payload: Vec::new() });
    // a Piece for another piece index is stale, not an error
    let stale = Message {
        id: MessageId::Piece,
        payload: BlockResponse::from_parts(9, 0, vec![1, 2, 3]).encode(),
    };
    assert!(matches!(
        session.on_block_message(0, 0, 32768, &stale),
        Ok(BlockOutcome::Ignored)
    ));
    // an unrelated id is ignored
    let have = Message { id: MessageId::Have, payload: vec![0, 0, 0, 1] };
    assert!(matches!(session.on_block_message(0, 0, 32768, &have), Ok(BlockOutcome::Ignored)));
    // an empty block fails the session
    let empty = Message {
        id: MessageId::Piece,
        payload: BlockResponse::from_parts(0, 0, Vec::new()).encode(),
    };
    assert_eq!(session.on_block_message(0, 0, 32768, &empty).unwrap_err(), Error::PeerProtocol);
}
