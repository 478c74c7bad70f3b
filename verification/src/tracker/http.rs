//! The HTTP(S) tracker announce: the GET query string with its
//! percent-encoded binary parameters, and the bencoded response with its
//! compact peer list.

use vstd::prelude::*;

use crate::bencode;
use crate::error::Error;
use crate::peer;
use crate::tracker::{spec_parse_peers, write_peers, PeerAddr};

verus! {

/// Whether a byte is left bare by percent-encoding: ASCII letters and
/// digits, `-`, `.`, `_` and `~`.
pub open spec fn spec_unreserved(b: u8) -> bool {
    (48 <= b <= 57) || (65 <= b <= 90) || (97 <= b <= 122) || b == 45 || b == 46 || b == 95 || b
        == 126
}

/// The upper-case hex digit of a value below 16.
pub open spec fn spec_hex_digit(n: int) -> u8 {
    if n < 10 {
        (48 + n) as u8
    } else {
        (55 + n) as u8
    }
}

/// The percent-encoding of one byte: itself if unreserved, else `%` and
/// two upper-case hex digits.
pub open spec fn spec_percent_byte(b: u8) -> Seq<u8> {
    if spec_unreserved(b) {
        seq![b]
    } else {
        seq![37u8, spec_hex_digit(b as int / 16), spec_hex_digit(b as int % 16)]
    }
}

/// The percent-encoding of a byte string, byte by byte.
pub open spec fn spec_percent_encode(s: Seq<u8>) -> Seq<u8>
    decreases s.len(),
{
    if s.len() == 0 {
        Seq::empty()
    } else {
        spec_percent_byte(s[0]) + spec_percent_encode(s.drop_first())
    }
}

/// The percent-encoding of a non-empty string ends with its last byte's
/// encoding.
proof fn lemma_percent_encode_unsnoc(s: Seq<u8>)
    requires
        s.len() > 0,
    ensures
        spec_percent_encode(s) == spec_percent_encode(s.drop_last()) + spec_percent_byte(s.last()),
    decreases s.len(),
{
    if s.len() == 1 {
        assert(s.drop_first() =~= Seq::<u8>::empty());
        assert(s.drop_last() =~= Seq::<u8>::empty());
        assert(spec_percent_encode(s) =~= spec_percent_encode(s.drop_last()) + spec_percent_byte(
            s.last(),
        ));
    } else {
        lemma_percent_encode_unsnoc(s.drop_first());
        assert(s.drop_last().drop_first() =~= s.drop_first().drop_last());
        assert(s.drop_first().last() == s.last());
        assert(spec_percent_encode(s) =~= spec_percent_encode(s.drop_last()) + spec_percent_byte(
            s.last(),
        ));
    }
}

/// Appends the percent-encoding of `data`.
pub fn push_percent(out: &mut Vec<u8>, data: &[u8])
    ensures
        final(out)@ == old(out)@ + spec_percent_encode(data@),
{
    let mut i: usize = 0;
    proof {
        assert(data@.take(0) =~= Seq::<u8>::empty());
        assert(out@ =~= old(out)@ + spec_percent_encode(data@.take(0)));
    }
    while i < data.len()
        invariant
            i <= data@.len(),
            out@ == old(out)@ + spec_percent_encode(data@.take(i as int)),
        decreases data@.len() - i,
    {
        let b = data[i];
        let bare = (48 <= b && b <= 57) || (65 <= b && b <= 90) || (97 <= b && b <= 122) || b == 45
            || b == 46 || b == 95 || b == 126;
        if bare {
            out.push(b);
        } else {
            out.push(37);
            let hi = b / 16;
            let lo = b % 16;
            out.push(
                if hi < 10 {
                    48 + hi
                } else {
                    55 + hi
                },
            );
            out.push(
                if lo < 10 {
                    48 + lo
                } else {
                    55 + lo
                },
            );
        }
        i = i + 1;
        proof {
            lemma_percent_encode_unsnoc(data@.take(i as int));
            assert(data@.take(i as int).drop_last() =~= data@.take(i - 1));
            assert(data@.take(i as int).last() == data@[i - 1]);
            assert(out@ =~= old(out)@ + spec_percent_encode(data@.take(i as int)));
        }
    }
    proof {
        assert(data@.take(data@.len() as int) =~= data@);
    }
}

/// An announce request to an HTTP tracker, one value per query parameter.
#[derive(Debug, Clone)]
pub struct Request {
    pub info_hash: Vec<u8>,
    pub peer_id: Vec<u8>,
    pub port: u16,
    pub uploaded: usize,
    pub downloaded: usize,
    pub left: usize,
    pub compact: u8,
}

/// The ASCII bytes of `"?info_hash="`.
pub open spec fn lit_info_hash() -> Seq<u8> {
    seq![63u8, 105, 110, 102, 111, 95, 104, 97, 115, 104, 61]
}

/// The ASCII bytes of `"&peer_id="`.
pub open spec fn lit_peer_id() -> Seq<u8> {
    seq![38u8, 112, 101, 101, 114, 95, 105, 100, 61]
}

/// The ASCII bytes of `"&port="`.
pub open spec fn lit_port() -> Seq<u8> {
    seq![38u8, 112, 111, 114, 116, 61]
}

/// The ASCII bytes of `"&uploaded="`.
pub open spec fn lit_uploaded() -> Seq<u8> {
    seq![38u8, 117, 112, 108, 111, 97, 100, 101, 100, 61]
}

/// The ASCII bytes of `"&downloaded="`.
pub open spec fn lit_downloaded() -> Seq<u8> {
    seq![38u8, 100, 111, 119, 110, 108, 111, 97, 100, 101, 100, 61]
}

/// The ASCII bytes of `"&left="`.
pub open spec fn lit_left() -> Seq<u8> {
    seq![38u8, 108, 101, 102, 116, 61]
}

/// The ASCII bytes of `"&compact="`.
pub open spec fn lit_compact() -> Seq<u8> {
    seq![38u8, 99, 111, 109, 112, 97, 99, 116, 61]
}

/// The full GET URL for an announce: the announce URL, then each query
/// parameter — `info_hash` and `peer_id` percent-encoded as raw bytes, the
/// counters in decimal.
pub open spec fn spec_tracker_url(r: Request, announce: Seq<u8>) -> Seq<u8> {
    announce + lit_info_hash() + spec_percent_encode(r.info_hash@) + lit_peer_id()
        + spec_percent_encode(r.peer_id@) + lit_port() + bencode::spec_digits(r.port as int)
        + lit_uploaded() + bencode::spec_digits(r.uploaded as int) + lit_downloaded()
        + bencode::spec_digits(r.downloaded as int) + lit_left() + bencode::spec_digits(
        r.left as int,
    ) + lit_compact() + bencode::spec_digits(r.compact as int)
}

impl Request {
    /// The request this client makes: the torrent's info-hash, the fixed
    /// peer id, port 6881, `left` bytes still wanted, compact responses.
    pub fn new(info_hash: &[u8], left: usize) -> (r: Request)
        ensures
            r.info_hash@ == info_hash@,
            r.peer_id@ == peer::spec_peer_id(),
            r.port == 6881,
            r.uploaded == 0,
            r.downloaded == 0,
            r.left == left,
            r.compact == 1,
    {
        Request {
            info_hash: vstd::slice::slice_to_vec(info_hash),
            peer_id: peer::peer_id_bytes(),
            port: 6881,
            uploaded: 0,
            downloaded: 0,
            left,
            compact: 1,
        }
    }

    /// The GET URL of this request against `announce`.
    #[verifier::rlimit(60)]
    pub fn url(&self, announce: &[u8]) -> (r: Vec<u8>)
        ensures
            r@ == spec_tracker_url(*self, announce@),
    {
        let mut url = vstd::slice::slice_to_vec(announce);
        url.push(63);
        url.push(105);
        url.push(110);
        url.push(102);
        url.push(111);
        url.push(95);
        url.push(104);
        url.push(97);
        url.push(115);
        url.push(104);
        url.push(61);
        assert(url@ =~= announce@ + lit_info_hash());
        push_percent(&mut url, self.info_hash.as_slice());
        url.push(38);
        url.push(112);
        url.push(101);
        url.push(101);
        url.push(114);
        url.push(95);
        url.push(105);
        url.push(100);
        url.push(61);
        assert(url@ =~= announce@ + lit_info_hash() + spec_percent_encode(self.info_hash@)
            + lit_peer_id());
        push_percent(&mut url, self.peer_id.as_slice());
        url.push(38);
        url.push(112);
        url.push(111);
        url.push(114);
        url.push(116);
        url.push(61);
        assert(url@ =~= announce@ + lit_info_hash() + spec_percent_encode(self.info_hash@)
            + lit_peer_id() + spec_percent_encode(self.peer_id@) + lit_port());
        bencode::push_decimal(&mut url, self.port as u64);
        url.push(38);
        url.push(117);
        url.push(112);
        url.push(108);
        url.push(111);
        url.push(97);
        url.push(100);
        url.push(101);
        url.push(100);
        url.push(61);
        assert(url@ =~= announce@ + lit_info_hash() + spec_percent_encode(self.info_hash@)
            + lit_peer_id() + spec_percent_encode(self.peer_id@) + lit_port()
            + bencode::spec_digits(self.port as int) + lit_uploaded());
        bencode::push_decimal(&mut url, self.uploaded as u64);
        url.push(38);
        url.push(100);
        url.push(111);
        url.push(119);
        url.push(110);
        url.push(108);
        url.push(111);
        url.push(97);
        url.push(100);
        url.push(101);
        url.push(100);
        url.push(61);
        assert(url@ =~= announce@ + lit_info_hash() + spec_percent_encode(self.info_hash@)
            + lit_peer_id() + spec_percent_encode(self.peer_id@) + lit_port()
            + bencode::spec_digits(self.port as int) + lit_uploaded() + bencode::spec_digits(
            self.uploaded as int,
        ) + lit_downloaded());
        bencode::push_decimal(&mut url, self.downloaded as u64);
        url.push(38);
        url.push(108);
        url.push(101);
        url.push(102);
        url.push(116);
        url.push(61);
        assert(url@ =~= announce@ + lit_info_hash() + spec_percent_encode(self.info_hash@)
            + lit_peer_id() + spec_percent_encode(self.peer_id@) + lit_port()
            + bencode::spec_digits(self.port as int) + lit_uploaded() + bencode::spec_digits(
            self.uploaded as int,
        ) + lit_downloaded() + bencode::spec_digits(self.downloaded as int) + lit_left());
        bencode::push_decimal(&mut url, self.left as u64);
        url.push(38);
        url.push(99);
        url.push(111);
        url.push(109);
        url.push(112);
        url.push(97);
        url.push(99);
        url.push(116);
        url.push(61);
        assert(url@ =~= announce@ + lit_info_hash() + spec_percent_encode(self.info_hash@)
            + lit_peer_id() + spec_percent_encode(self.peer_id@) + lit_port()
            + bencode::spec_digits(self.port as int) + lit_uploaded() + bencode::spec_digits(
            self.uploaded as int,
        ) + lit_downloaded() + bencode::spec_digits(self.downloaded as int) + lit_left()
            + bencode::spec_digits(self.left as int) + lit_compact());
        bencode::push_decimal(&mut url, self.compact as u64);
        assert(url@ =~= spec_tracker_url(*self, announce@));
        url
    }
}

/// The peer list of an announce response, decoded from its compact form.
#[derive(Debug, Clone, PartialEq, Eq)]
pub struct Peers(pub Vec<PeerAddr>);

impl Peers {
    /// The compact byte form of this peer list, 6 bytes per peer.
    pub fn to_bytes(&self) -> (r: Vec<u8>)
        ensures
            r@ == crate::tracker::spec_peers_bytes(self.0@),
    {
        let mut out: Vec<u8> = Vec::new();
        write_peers(&mut out, &self.0);
        out
    }
}

/// A tracker's announce response: the re-announce interval and the peers.
#[derive(Debug, Clone)]
pub struct Response {
    pub interval: u32,
    pub peers: Peers,
}

/// The ASCII bytes of the response key `"interval"`.
pub open spec fn key_interval() -> Seq<u8> {
    seq![105u8, 110, 116, 101, 114, 118, 97, 108]
}

/// The ASCII bytes of the response key `"peers"`.
pub open spec fn key_peers() -> Seq<u8> {
    seq![112u8, 101, 101, 114, 115]
}

/// Builds the bytes of `"interval"`.
fn make_key_interval() -> (v: Vec<u8>)
    ensures
        v@ == key_interval(),
{
    let mut v: Vec<u8> = Vec::new();
    v.push(105);
    v.push(110);
    v.push(116);
    v.push(101);
    v.push(114);
    v.push(118);
    v.push(97);
    v.push(108);
    assert(v@ =~= key_interval());
    v
}

/// Builds the bytes of `"peers"`.
fn make_key_peers() -> (v: Vec<u8>)
    ensures
        v@ == key_peers(),
{
    let mut v: Vec<u8> = Vec::new();
    v.push(112);
    v.push(101);
    v.push(101);
    v.push(114);
    v.push(115);
    assert(v@ =~= key_peers());
    v
}

/// The parsed form of the response dictionary's entries: an `interval`
/// integer and a `peers` byte string whose length is a multiple of 6;
/// unknown keys skipped, duplicates refused, both required.
pub open spec fn spec_parse_response_entries(
    s: Seq<u8>,
    i: int,
    interval: Option<int>,
    peers: Option<Seq<PeerAddr>>,
) -> Option<((int, Seq<PeerAddr>), int)>
    decreases s.len() - i,
{
    if i < 0 || i >= s.len() {
        None
    } else if s[i] == 101 {
        match (interval, peers) {
            (Some(n), Some(ps)) => Some(((n, ps), i + 1)),
            _ => None,
        }
    } else {
        match bencode::spec_parse_bytestring(s, i) {
            None => None,
            Some(kp) => {
                let key = kp.0;
                let e = kp.1;
                if e <= i || e > s.len() {
                    None
                } else if key == key_interval() {
                    if interval is Some {
                        None
                    } else {
                        match bencode::spec_parse_int(s, e) {
                            None => None,
                            Some(vp) => {
                                if vp.0 < 0 || vp.0 > u32::MAX || vp.1 <= e || vp.1 > s.len() {
                                    None
                                } else {
                                    spec_parse_response_entries(s, vp.1, Some(vp.0), peers)
                                }
                            },
                        }
                    }
                } else if key == key_peers() {
                    if peers is Some {
                        None
                    } else {
                        match bencode::spec_parse_bytestring(s, e) {
                            None => None,
                            Some(vp) => {
                                if vp.0.len() % 6 != 0 || vp.1 <= e || vp.1 > s.len() {
                                    None
                                } else {
                                    spec_parse_response_entries(
                                        s,
                                        vp.1,
                                        interval,
                                        Some(spec_parse_peers(vp.0)),
                                    )
                                }
                            },
                        }
                    }
                } else {
                    match bencode::spec_skip_value(s, e) {
                        None => None,
                        Some(e2) => {
                            if e2 <= i || e2 > s.len() {
                                None
                            } else {
                                spec_parse_response_entries(s, e2, interval, peers)
                            }
                        },
                    }
                }
            },
        }
    }
}

/// The parsed form of a whole announce response: a bencoded dictionary
/// with nothing after it.
pub open spec fn spec_parse_response(s: Seq<u8>) -> Option<(int, Seq<PeerAddr>)> {
    if s.len() >= 1 && s[0] == 100 {
        match spec_parse_response_entries(s, 1, None, None) {
            None => None,
            Some(rp) => {
                if rp.1 == s.len() {
                    Some(rp.0)
                } else {
                    None
                }
            },
        }
    } else {
        None
    }
}

impl Response {
    /// An empty response: no peers, a zero interval.
    pub fn new() -> (r: Response)
        ensures
            r.interval == 0,
            r.peers.0@.len() == 0,
    {
        Response { interval: 0, peers: Peers(Vec::new()) }
    }

    /// Parses a bencoded announce response, exactly as
    /// `spec_parse_response`; anything else is a tracker protocol error.
    pub fn parse(bytes: &[u8]) -> (r: Result<Response, Error>)
        ensures
            match r {
                Ok(resp) => spec_parse_response(bytes@) == Some(
                    (resp.interval as int, resp.peers.0@),
                ),
                Err(e) => spec_parse_response(bytes@) is None && e == Error::TrackerProtocol,
            },
    {
        if bytes.len() < 1 || bytes[0] != 100 {
            return Err(Error::TrackerProtocol);
        }
        let key_interval_bytes = make_key_interval();
        let key_peers_bytes = make_key_peers();
        let mut interval: Option<u32> = None;
        let mut peers: Option<Vec<PeerAddr>> = None;
        let mut p: usize = 1;
        loop
            invariant
                1 <= p <= bytes@.len(),
                spec_parse_response_entries(bytes@, 1, None, None) == spec_parse_response_entries(
                    bytes@,
                    p as int,
                    match interval {
                        Some(n) => Some(n as int),
                        None => None,
                    },
                    match peers {
                        Some(ps) => Some(ps@),
                        None => None,
                    },
                ),
                key_interval_bytes@ == key_interval(),
                key_peers_bytes@ == key_peers(),
                bytes@.len() >= 1 && bytes@[0] == 100,
            decreases bytes@.len() - p,
        {
            if p >= bytes.len() {
                return Err(Error::TrackerProtocol);
            }
            if bytes[p] == 101 {
                match (interval, peers) {
                    (Some(n), Some(ps)) => {
                        if p + 1 != bytes.len() {
                            return Err(Error::TrackerProtocol);
                        }
                        return Ok(Response { interval: n, peers: Peers(ps) });
                    },
                    _ => {
                        return Err(Error::TrackerProtocol);
                    },
                }
            }
            let kp = match bencode::parse_bytestring(bytes, p) {
                Some(kp) => kp,
                None => {
                    return Err(Error::TrackerProtocol);
                },
            };
            let e = kp.1;
            if crate::wire::bytes_eq(kp.0.as_slice(), key_interval_bytes.as_slice()) {
                if matches!(interval, Some(_)) {
                    return Err(Error::TrackerProtocol);
                }
                match bencode::parse_int(bytes, e) {
                    Some(vp) => {
                        if vp.0 < 0 || vp.0 > u32::MAX as i64 {
                            return Err(Error::TrackerProtocol);
                        }
                        interval = Some(vp.0 as u32);
                        p = vp.1;
                    },
                    None => {
                        return Err(Error::TrackerProtocol);
                    },
                }
            } else if crate::wire::bytes_eq(kp.0.as_slice(), key_peers_bytes.as_slice()) {
                if matches!(peers, Some(_)) {
                    return Err(Error::TrackerProtocol);
                }
                match bencode::parse_bytestring(bytes, e) {
                    Some(vp) => {
                        if vp.0.len() % 6 != 0 {
                            return Err(Error::TrackerProtocol);
                        }
                        peers = Some(crate::tracker::parse_peers(vp.0.as_slice()));
                        p = vp.1;
                    },
                    None => {
                        return Err(Error::TrackerProtocol);
                    },
                }
            } else {
                match bencode::skip_value(bytes, e) {
                    Some(e2) => {
                        p = e2;
                    },
                    None => {
                        return Err(Error::TrackerProtocol);
                    },
                }
            }
        }
    }
}

} // verus!
