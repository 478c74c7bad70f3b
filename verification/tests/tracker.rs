//! Tracker behaviour: the announce URL, the bencoded HTTP response, the
//! UDP packet codecs and the two-step connect/announce flow.

use bittorrent_cli::error::Error;
use bittorrent_cli::torrent::{Hashes, Info, Keys, Torrent};
use bittorrent_cli::tracker::http;
use bittorrent_cli::tracker::udp;
use bittorrent_cli::tracker::{get_addr, parse_peers, Addr, PeerAddr};

#[test]
fn test_build_tracker_url() {
    let t = Torrent {
        announce: b"http://bttracker.debian.org:6969/announce".to_vec(),
        info: Info {
            name: b"debian-10.2.0-amd64-netinst.iso".to_vec(),
            plength: 262144,
            pieces: Hashes(vec![
                vec![
                    49, 50, 51, 52, 53, 54, 55, 56, 57, 48, 97, 98, 99, 100, 101, 102, 103, 104,
                    105, 106,
                ],
                vec![
                    97, 98, 99, 100, 101, 102, 103, 104, 105, 106, 49, 50, 51, 52, 53, 54, 55, 56,
                    57, 48,
                ],
            ]),
            keys: Keys::SingleFile { length: 351272960 },
        },
    };
    let info_hash = vec![
        216, 247, 57, 206, 195, 40, 149, 108, 204, 91, 191, 31, 134, 217, 253, 207, 219, 168, 206,
        182,
    ];
    let length = t.length();
    let tracker_req = http::Request::new(info_hash.as_slice(), length);
    let url = tracker_req.url(t.announce.as_slice());
    assert_eq!(
        url,
        b"http://bttracker.debian.org:6969/announce?info_hash=%D8%F79%CE%C3%28%95l%CC%5B%BF%1F%86%D9%FD%CF%DB%A8%CE%B6&peer_id=00112233445566778899&port=6881&uploaded=0&downloaded=0&left=351272960&compact=1".to_vec()
    );
}

#[test]
fn test_request_peers() {
    let mut body: Vec<u8> = Vec::new();
    body.extend(b"d8:intervali900e5:peers12:");
    body.extend([192, 0, 2, 123, 0x1A, 0xE1]);
    body.extend([127, 0, 0, 1, 0x1A, 0xE9]);
    body.extend(b"e");
    let res = http::Response::parse(body.as_slice()).unwrap();
    assert_eq!(res.interval, 900);
    let expected = vec![
        PeerAddr { ip: (192, 0, 2, 123), port: 6881 },
        PeerAddr { ip: (127, 0, 0, 1), port: 6889 },
    ];
    assert_eq!(res.peers.0, expected);
}

#[test]
fn compact_peers_round_trip() {
    let ps = vec![
        PeerAddr { ip: (10, 0, 0, 1), port: 6881 },
        PeerAddr { ip: (203, 0, 113, 9), port: 51413 },
    ];
    let bytes = http::Peers(ps.clone()).to_bytes();
    assert_eq!(bytes.len(), 12);
    assert_eq!(parse_peers(bytes.as_slice()), ps);
}

#[test]
fn compact_peers_trailing_fragment_ignored() {
    let bytes = [10, 0, 0, 1, 0x1A, 0xE1, 9, 9, 9];
    assert_eq!(parse_peers(&bytes), vec![PeerAddr { ip: (10, 0, 0, 1), port: 6881 }]);
}

#[test]
fn announce_scheme_dispatch() {
    match get_addr(b"http://tracker.example/announce").unwrap() {
        Addr::Http(url) => assert_eq!(url, b"http://tracker.example/announce".to_vec()),
        _ => panic!("expected an HTTP destination"),
    }
    match get_addr(b"https://tracker.example/announce").unwrap() {
        Addr::Http(_) => {}
        _ => panic!("expected an HTTP destination"),
    }
    match get_addr(b"udp://tracker.example:6969/announce").unwrap() {
        Addr::Udp(host) => assert_eq!(host, b"tracker.example:6969".to_vec()),
        _ => panic!("expected a UDP destination"),
    }
    assert_eq!(get_addr(b"ftp://tracker.example/x"), Err(Error::TrackerProtocol));
    assert_eq!(get_addr(b"udp://tracker.example:6969/scrape"), Err(Error::TrackerProtocol));
}

#[test]
fn udp_connect_request_layout() {
    let req = udp::Request::from(udp::ConnectRequest::new(0xDEADBEEF));
    let mut buf: Vec<u8> = Vec::new();
    req.write(&mut buf);
    assert_eq!(buf.len(), 16);
    assert_eq!(&buf[0..8], &[0x00, 0x00, 0x04, 0x17, 0x27, 0x10, 0x19, 0x80]);
    assert_eq!(&buf[8..12], &[0, 0, 0, 0]);
    assert_eq!(&buf[12..16], &[0xDE, 0xAD, 0xBE, 0xEF]);
}

#[test]
fn udp_announce_request_layout() {
    let req = udp::AnnounceRequest::new(0x1122334455667788, 0xCAFEBABE, vec![5u8; 20], 42);
    let mut buf: Vec<u8> = Vec::new();
    udp::Request::from(req).write(&mut buf);
    assert_eq!(buf.len(), 98);
    assert_eq!(&buf[0..8], &[0x11, 0x22, 0x33, 0x44, 0x55, 0x66, 0x77, 0x88]);
    assert_eq!(&buf[8..12], &[0, 0, 0, 1]);
    assert_eq!(&buf[12..16], &[0xCA, 0xFE, 0xBA, 0xBE]);
    assert_eq!(&buf[16..36], &[5u8; 20]);
    assert_eq!(&buf[36..56], b"00112233445566778899");
    assert_eq!(&buf[64..72], &[0, 0, 0, 0, 0, 0, 0, 42]);
    assert_eq!(&buf[92..96], &[0xFF, 0xFF, 0xFF, 0xFF]);
    assert_eq!(&buf[96..98], &[0, 0]);
}

#[test]
fn udp_connect_response_round_trip() {
    let c = udp::ConnectResponse {
        connection_id: udp::ConnectionId(0x1122334455667788),
        transaction_id: udp::TransactionId(0xCAFEBABE),
    };
    let mut out: Vec<u8> = Vec::new();
    udp::Response::write_connect(&c, &mut out);
    match udp::Response::read(out.as_slice()).unwrap() {
        udp::Response::Connect(back) => assert_eq!(back, c),
        _ => panic!("expected a connect response"),
    }
}

#[test]
fn udp_announce_response_round_trip() {
    let a = udp::AnnounceResponse {
        transaction_id: udp::TransactionId(0x01020304),
        interval: 900,
        leechers: 3,
        seeders: 9,
        peers: vec![
            PeerAddr { ip: (192, 0, 2, 123), port: 6881 },
            PeerAddr { ip: (127, 0, 0, 1), port: 6889 },
        ],
    };
    let mut out: Vec<u8> = Vec::new();
    udp::Response::write_announce(&a, &mut out);
    match udp::Response::read(out.as_slice()).unwrap() {
        udp::Response::Announce(back) => assert_eq!(back, a),
        _ => panic!("expected an announce response"),
    }
}

#[test]
fn udp_error_response_round_trip() {
    let e = udp::ErrorResponse {
        transaction_id: udp::TransactionId(0xF00D),
        message: b"torrent gone".to_vec(),
    };
    let mut out: Vec<u8> = Vec::new();
    udp::Response::write_error(&e, &mut out);
    match udp::Response::read(out.as_slice()).unwrap() {
        udp::Response::Error(back) => assert_eq!(back, e),
        _ => panic!("expected an error response"),
    }
}

#[test]
fn udp_malformed_response_rejected() {
    assert_eq!(udp::Response::read(&[0u8; 7]), Err(Error::TrackerProtocol));
    let mut short_connect = vec![0u8, 0, 0, 0, 0, 0, 0, 1];
    short_connect.extend([0u8; 4]);
    assert_eq!(udp::Response::read(short_connect.as_slice()), Err(Error::TrackerProtocol));
    let unknown_action = [0u8, 0, 0, 9, 0, 0, 0, 1];
    assert_eq!(udp::Response::read(&unknown_action), Err(Error::TrackerProtocol));
}

#[test]
fn udp_flow_connect_then_announce() {
    let mut flow = udp::AnnounceFlow::new(0xCAFEBABE);
    let info_hash = vec![1u8; 20];
    match flow.current_request(&info_hash, 1000) {
        udp::Request::Connect(c) => assert_eq!(c.transaction_id.0, 0xCAFEBABE),
        _ => panic!("expected a connect request first"),
    }
    let resp = udp::Response::Connect(udp::ConnectResponse {
        connection_id: udp::ConnectionId(0x1122334455667788),
        transaction_id: udp::TransactionId(0xCAFEBABE),
    });
    assert!(flow.on_response(resp, 0x0BADF00D).is_none());
    match flow.current_request(&info_hash, 1000) {
        udp::Request::Announce(a) => {
            assert_eq!(a.connection_id.0, 0x1122334455667788);
            assert_eq!(a.transaction_id.0, 0x0BADF00D);
            assert_eq!(a.info_hash, info_hash);
            assert_eq!(a.left, 1000);
        }
        _ => panic!("expected an announce request after the connect step"),
    }
    let peers = vec![PeerAddr { ip: (10, 0, 0, 1), port: 6881 }];
    let done = flow.on_response(
        udp::Response::Announce(udp::AnnounceResponse {
            transaction_id: udp::TransactionId(0x0BADF00D),
            interval: 900,
            leechers: 0,
            seeders: 1,
            peers: peers.clone(),
        }),
        7,
    );
    assert_eq!(done.unwrap(), peers);
}

#[test]
fn udp_flow_discards_mismatched_transaction() {
    let mut flow = udp::AnnounceFlow::new(1);
    let resp = udp::Response::Connect(udp::ConnectResponse {
        connection_id: udp::ConnectionId(99),
        transaction_id: udp::TransactionId(2),
    });
    assert!(flow.on_response(resp, 3).is_none());
    match flow.current_request(&vec![0u8; 20], 0) {
        udp::Request::Connect(c) => assert_eq!(c.transaction_id.0, 1),
        _ => panic!("a mismatched connect must not advance the flow"),
    }
}

#[test]
fn udp_flow_falls_back_to_connect_on_expiry() {
    let mut flow = udp::AnnounceFlow::new(4);
    let resp = udp::Response::Connect(udp::ConnectResponse {
        connection_id: udp::ConnectionId(55),
        transaction_id: udp::TransactionId(4),
    });
    assert!(flow.on_response(resp, 5).is_none());
    match flow.current_request(&vec![0u8; 20], 0) {
        udp::Request::Announce(_) => {}
        _ => panic!("expected the announce step"),
    }
    flow.on_connection_expired(6);
    match flow.current_request(&vec![0u8; 20], 0) {
        udp::Request::Connect(c) => assert_eq!(c.transaction_id.0, 6),
        _ => panic!("expiry must fall back to the connect step"),
    }
}

#[test]
fn udp_flow_retry_backoff() {
    let mut flow = udp::AnnounceFlow::new(1);
    let mut delays: Vec<u64> = Vec::new();
    while let Some(d) = flow.on_timeout() {
        delays.push(d);
    }
    assert_eq!(delays, vec![15, 30, 60, 120, 240, 480, 960, 1920]);
    assert!(flow.on_timeout().is_none());
}
