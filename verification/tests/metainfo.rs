//! Metainfo parsing, canonical re-encoding and the info-hash.

use bittorrent_cli::bencode;
use bittorrent_cli::digest;
use bittorrent_cli::error::Error;
use bittorrent_cli::torrent::{File, Hashes, Info, Keys, Torrent};
use bittorrent_cli::wire;

fn wrap_torrent(announce: &[u8], info: &Info) -> Vec<u8> {
    let mut b: Vec<u8> = Vec::new();
    b.push(b'd');
    bencode::push_bytestring(&mut b, b"announce");
    bencode::push_bytestring(&mut b, announce);
    bencode::push_bytestring(&mut b, b"info");
    let enc = info.encode();
    b.extend(enc);
    b.push(b'e');
    b
}

#[test]
fn parse_single_file_torrent() {
    let info = Info {
        name: b"a.iso".to_vec(),
        plength: 262144,
        pieces: Hashes(vec![vec![0xAB; 20], vec![0xCD; 20]]),
        keys: Keys::SingleFile { length: 524288 },
    };
    let bytes = wrap_torrent(b"http://tracker.example/announce", &info);
    let t = Torrent::new(bytes.as_slice()).unwrap();
    assert_eq!(t.announce, b"http://tracker.example/announce".to_vec());
    assert_eq!(t.length(), 524288);
    assert_eq!(t.info.name, b"a.iso".to_vec());
    assert_eq!(t.info.plength, 262144);
    assert_eq!(t.info.pieces.0.len(), 2);
    assert_eq!(t.info.pieces.0[0], vec![0xAB; 20]);
    let ih = t.info_hash();
    assert_eq!(ih.len(), 20);
    assert_eq!(wire::to_hex(ih.as_slice()).len(), 40);
}

#[test]
fn parse_multi_file_torrent() {
    let info = Info {
        name: b"album".to_vec(),
        plength: 16384,
        pieces: Hashes(vec![vec![1; 20]]),
        keys: Keys::MultiFile {
            files: vec![
                File { length: 10, path: vec![b"cd1".to_vec(), b"one.flac".to_vec()] },
                File { length: 22, path: vec![b"two.flac".to_vec()] },
            ],
        },
    };
    let bytes = wrap_torrent(b"udp://tracker.example:6969/announce", &info);
    let t = Torrent::new(bytes.as_slice()).unwrap();
    assert_eq!(t.length(), 32);
    match &t.info.keys {
        Keys::MultiFile { files } => {
            assert_eq!(files.len(), 2);
            assert_eq!(files[0].length, 10);
            assert_eq!(files[0].path, vec![b"cd1".to_vec(), b"one.flac".to_vec()]);
            assert_eq!(files[1].length, 22);
        }
        _ => panic!("expected a multi-file layout"),
    }
}

#[test]
fn canonicalisation_is_stable() {
    let info = Info {
        name: b"a.iso".to_vec(),
        plength: 262144,
        pieces: Hashes(vec![vec![0x11; 20], vec![0x22; 20]]),
        keys: Keys::SingleFile { length: 524288 },
    };
    let enc1 = info.encode();
    let bytes = wrap_torrent(b"http://t.example/a", &info);
    let t = Torrent::new(bytes.as_slice()).unwrap();
    let enc2 = t.info.encode();
    assert_eq!(enc1, enc2);
    assert_eq!(t.info_hash(), digest::sha1_digest(enc1.as_slice()));
}

#[test]
fn unknown_keys_skipped() {
    let info = Info {
        name: b"x".to_vec(),
        plength: 1,
        pieces: Hashes(vec![vec![9; 20]]),
        keys: Keys::SingleFile { length: 1 },
    };
    // hand-build a torrent with extra keys before and inside the known ones
    let mut b: Vec<u8> = Vec::new();
    b.push(b'd');
    bencode::push_bytestring(&mut b, b"announce");
    bencode::push_bytestring(&mut b, b"http://t/a");
    bencode::push_bytestring(&mut b, b"comment");
    bencode::push_bytestring(&mut b, b"no need to read this");
    bencode::push_bytestring(&mut b, b"creation date");
    bencode::push_int(&mut b, 1700000000);
    bencode::push_bytestring(&mut b, b"info");
    // an info dictionary with an extra "private" key
    let mut i: Vec<u8> = Vec::new();
    i.push(b'd');
    bencode::push_bytestring(&mut i, b"length");
    bencode::push_int(&mut i, 1);
    bencode::push_bytestring(&mut i, b"name");
    bencode::push_bytestring(&mut i, b"x");
    bencode::push_bytestring(&mut i, b"piece length");
    bencode::push_int(&mut i, 1);
    bencode::push_bytestring(&mut i, b"pieces");
    bencode::push_bytestring(&mut i, &[9u8; 20]);
    bencode::push_bytestring(&mut i, b"private");
    bencode::push_int(&mut i, 1);
    i.push(b'e');
    b.extend(i);
    b.push(b'e');
    let t = Torrent::new(b.as_slice()).unwrap();
    assert_eq!(t.info.name, info.name);
    assert_eq!(t.info.plength, 1);
    assert_eq!(t.info.pieces.0, vec![vec![9u8; 20]]);
}

#[test]
fn malformed_metainfo_rejected() {
    // not a dictionary
    assert_eq!(Torrent::new(b"4:spam").unwrap_err(), Error::Metainfo);
    // missing info
    let mut b: Vec<u8> = Vec::new();
    b.push(b'd');
    bencode::push_bytestring(&mut b, b"announce");
    bencode::push_bytestring(&mut b, b"http://t/a");
    b.push(b'e');
    assert_eq!(Torrent::new(b.as_slice()).unwrap_err(), Error::Metainfo);
    // pieces not a multiple of 20 bytes
    let mut c: Vec<u8> = Vec::new();
    c.push(b'd');
    bencode::push_bytestring(&mut c, b"announce");
    bencode::push_bytestring(&mut c, b"http://t/a");
    bencode::push_bytestring(&mut c, b"info");
    c.push(b'd');
    bencode::push_bytestring(&mut c, b"length");
    bencode::push_int(&mut c, 1);
    bencode::push_bytestring(&mut c, b"name");
    bencode::push_bytestring(&mut c, b"x");
    bencode::push_bytestring(&mut c, b"piece length");
    bencode::push_int(&mut c, 1);
    bencode::push_bytestring(&mut c, b"pieces");
    bencode::push_bytestring(&mut c, &[9u8; 19]);
    c.push(b'e');
    c.push(b'e');
    assert_eq!(Torrent::new(c.as_slice()).unwrap_err(), Error::Metainfo);
    // trailing bytes after the dictionary
    let info = Info {
        name: b"x".to_vec(),
        plength: 1,
        pieces: Hashes(vec![vec![9; 20]]),
        keys: Keys::SingleFile { length: 1 },
    };
    let mut d = wrap_torrent(b"http://t/a", &info);
    d.push(b'!');
    assert_eq!(Torrent::new(d.as_slice()).unwrap_err(), Error::Metainfo);
}

#[test]
fn bencode_leaf_values() {
    let mut b: Vec<u8> = Vec::new();
    bencode::push_int(&mut b, -42);
    assert_eq!(b, b"i-42e".to_vec());
    assert_eq!(bencode::parse_int(b.as_slice(), 0), Some((-42, 5)));
    let mut c: Vec<u8> = Vec::new();
    bencode::push_bytestring(&mut c, b"spam");
    assert_eq!(c, b"4:spam".to_vec());
    let (v, end) = bencode::parse_bytestring(c.as_slice(), 0).unwrap();
    assert_eq!(v, b"spam".to_vec());
    assert_eq!(end, 6);
    assert_eq!(bencode::skip_value(b"l4:spami3ee", 0), Some(11));
    assert_eq!(bencode::parse_int(b"i9999999999999999999999e", 0), None);
}
