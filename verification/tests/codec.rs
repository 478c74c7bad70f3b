//! Byte-level codec behaviour: block payloads, peer messages, handshake,
//! bitfield layout and hex rendering.

use bittorrent_cli::block::{block_size_for, num_blocks, Request, Response};
use bittorrent_cli::digest;
use bittorrent_cli::error::Error;
use bittorrent_cli::peer::{Bitfield, Handshake, Message, MessageId};
use bittorrent_cli::wire;

#[test]
fn request_payload_round_trip() {
    let r = Request { piece_index: 7, begin: 16384, length: 16384 };
    let payload = r.encode();
    assert_eq!(payload.len(), 12);
    assert_eq!(&payload[0..4], &[0, 0, 0, 7]);
    assert_eq!(&payload[4..8], &[0, 0, 0x40, 0]);
    let back = Request::decode(payload.as_slice()).unwrap();
    assert_eq!(back, r);
}

#[test]
fn request_payload_wrong_length_rejected() {
    assert_eq!(Request::decode(&[0u8; 11]), Err(Error::PeerProtocol));
    assert_eq!(Request::decode(&[0u8; 13]), Err(Error::PeerProtocol));
}

#[test]
fn piece_payload_round_trip() {
    let res = Response::from_parts(3, 32768, vec![1, 2, 3, 4]);
    let payload = res.encode();
    let back = Response::new(payload.as_slice()).unwrap();
    assert_eq!(back.index(), 3);
    assert_eq!(back.begin(), 32768);
    assert_eq!(back.block(), &vec![1, 2, 3, 4]);
}

#[test]
fn piece_payload_too_short_rejected() {
    assert!(matches!(Response::new(&[0u8; 7]), Err(Error::PeerProtocol)));
}

#[test]
fn bitfield_bit_layout() {
    let bytes = [0xA1u8, 0x80];
    let b = Bitfield::from_payload(bytes.to_vec());
    for i in 0..16usize {
        let expected = (bytes[i / 8] >> (7 - i % 8)) & 1 == 1;
        assert_eq!(b.has_piece(i), expected);
    }
}

#[test]
fn bitfield_short_queries_false() {
    let b = Bitfield::from_payload(vec![0xFF]);
    assert!(b.has_piece(0));
    assert!(b.has_piece(7));
    assert!(!b.has_piece(8));
    assert!(!b.has_piece(1000));
}

#[test]
fn bitfield_pieces_lists_set_bits() {
    let b = Bitfield::from_payload(vec![0x80, 0x01]);
    assert_eq!(b.pieces(), vec![0, 15]);
}

#[test]
fn single_block_piece() {
    assert_eq!(num_blocks(10000), 1);
    assert_eq!(block_size_for(10000, 0), 10000);
    assert_eq!(num_blocks(16384), 1);
    assert_eq!(block_size_for(16384, 0), 16384);
    assert_eq!(num_blocks(16385), 2);
    assert_eq!(block_size_for(16385, 0), 16384);
    assert_eq!(block_size_for(16385, 1), 1);
}

#[test]
fn message_frame_round_trip() {
    let m = Message { id: MessageId::Piece, payload: vec![9, 8, 7] };
    let frame = m.encode();
    assert_eq!(&frame[0..4], &[0, 0, 0, 4]);
    assert_eq!(frame[4], 7);
    let back = Message::decode(frame.as_slice()).unwrap().unwrap();
    assert_eq!(back.id, MessageId::Piece);
    assert_eq!(back.payload, vec![9, 8, 7]);
}

#[test]
fn keepalive_frame_round_trip() {
    let frame = Message::keepalive();
    assert_eq!(frame, vec![0, 0, 0, 0]);
    assert!(Message::decode(frame.as_slice()).unwrap().is_none());
}

#[test]
fn truncated_frame_rejected() {
    let m = Message { id: MessageId::Have, payload: vec![0, 0, 0, 5] };
    let mut frame = m.encode();
    frame.pop();
    assert!(matches!(Message::decode(frame.as_slice()), Err(Error::PeerProtocol)));
}

#[test]
fn unknown_id_carried_not_fatal() {
    let id = MessageId::from_u8(13);
    assert_eq!(id, MessageId::Unknown(13));
    assert_eq!(id.to_u8(), 13);
    for code in 0..=8u8 {
        assert_eq!(MessageId::from_u8(code).to_u8(), code);
    }
}

#[test]
fn handshake_round_trip() {
    let info_hash = [7u8; 20];
    let h = Handshake::new(&info_hash);
    let bytes = h.bytes();
    assert_eq!(bytes.len(), 68);
    assert_eq!(bytes[0], 19);
    assert_eq!(&bytes[1..20], b"BitTorrent protocol");
    assert_eq!(&bytes[20..28], &[0u8; 8]);
    let h2 = Handshake::from_bytes(bytes.as_slice());
    assert!(h2.validate().is_ok());
    assert_eq!(h2.info_hash, vec![7u8; 20]);
    assert_eq!(h2.peer_id, b"00112233445566778899".to_vec());
}

#[test]
fn handshake_bad_protocol_rejected() {
    let h = Handshake::new(&[7u8; 20]);
    let mut bytes = h.bytes();
    bytes[1] = b'X';
    let h2 = Handshake::from_bytes(bytes.as_slice());
    assert_eq!(h2.validate(), Err(Error::PeerHandshake));
}

#[test]
fn sha1_known_answer() {
    let d = digest::sha1_digest(b"abc");
    assert_eq!(
        bittorrent_cli::wire::to_hex(d.as_slice()),
        b"a9993e364706816aba3e25717850c26c9cd0d89d".to_vec()
    );
    assert_eq!(
        bittorrent_cli::wire::to_hex(digest::sha1_digest(b"").as_slice()),
        b"da39a3ee5e6b4b0d3255bfef95601890afd80709".to_vec()
    );
}

#[test]
fn hex_rendering() {
    assert_eq!(wire::to_hex(&[0xD8, 0x01, 0xAF]), b"d801af".to_vec());
    assert_eq!(wire::to_hex(&[]), Vec::<u8>::new());
}
