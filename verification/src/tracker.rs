//! Trackers: dispatch on the announce URL scheme, and the compact peer list
//! representation shared by the HTTP and UDP announce protocols.

use vstd::prelude::*;

use crate::error::Error;
use crate::wire;

pub mod http;
pub mod udp;

verus! {

/// A peer's IPv4 address and TCP port, the 6-byte compact form decoded.
#[derive(Debug, Clone, Copy, PartialEq, Eq)]
pub struct PeerAddr {
    /// The four address octets.
    pub ip: (u8, u8, u8, u8),
    /// The TCP port.
    pub port: u16,
}

/// The 6-byte compact image of one peer: the address octets, then the port
/// big-endian.
pub open spec fn spec_peer_bytes(p: PeerAddr) -> Seq<u8> {
    seq![p.ip.0, p.ip.1, p.ip.2, p.ip.3] + wire::u16_bytes(p.port)
}

/// The compact image of a peer list.
pub open spec fn spec_peers_bytes(ps: Seq<PeerAddr>) -> Seq<u8>
    decreases ps.len(),
{
    if ps.len() == 0 {
        Seq::empty()
    } else {
        spec_peer_bytes(ps[0]) + spec_peers_bytes(ps.drop_first())
    }
}

/// The peer list a compact byte string denotes: 6 bytes per peer, a
/// trailing fragment shorter than 6 bytes ignored.
pub open spec fn spec_parse_peers(s: Seq<u8>) -> Seq<PeerAddr>
    decreases s.len(),
{
    if s.len() < 6 {
        Seq::empty()
    } else {
        seq![
            PeerAddr { ip: (s[0], s[1], s[2], s[3]), port: wire::be_u16(s.subrange(4, 6)) },
        ] + spec_parse_peers(s.skip(6))
    }
}

/// Appends the compact form of `ps`.
pub fn write_peers(out: &mut Vec<u8>, ps: &Vec<PeerAddr>)
    ensures
        final(out)@ == old(out)@ + spec_peers_bytes(ps@),
{
    let mut i: usize = 0;
    while i < ps.len()
        invariant
            i <= ps@.len(),
            out@ == old(out)@ + spec_peers_bytes(ps@.take(i as int)),
        decreases ps@.len() - i,
    {
        let p = ps[i];
        out.push(p.ip.0);
        out.push(p.ip.1);
        out.push(p.ip.2);
        out.push(p.ip.3);
        wire::push_u16(out, p.port);
        i = i + 1;
        proof {
            lemma_peers_bytes_unsnoc(ps@.take(i as int));
            assert(ps@.take(i as int).drop_last() =~= ps@.take(i - 1));
            assert(out@ =~= old(out)@ + spec_peers_bytes(ps@.take(i as int)));
        }
    }
    proof {
        assert(ps@.take(ps@.len() as int) =~= ps@);
    }
}

/// Parses the compact form: one peer per full 6-byte group.
pub fn parse_peers(s: &[u8]) -> (ps: Vec<PeerAddr>)
    ensures
        ps@ == spec_parse_peers(s@),
{
    let mut ps: Vec<PeerAddr> = Vec::new();
    let mut pos: usize = 0;
    proof {
        assert(s@.skip(0) =~= s@);
    }
    while s.len() - pos >= 6
        invariant
            pos <= s@.len(),
            spec_parse_peers(s@) =~= ps@ + spec_parse_peers(s@.skip(pos as int)),
        decreases s@.len() - pos,
    {
        let port = wire::read_u16(s, pos + 4);
        let p = PeerAddr { ip: (s[pos], s[pos + 1], s[pos + 2], s[pos + 3]), port };
        proof {
            let rest = s@.skip(pos as int);
            assert(rest.subrange(4, 6) =~= s@.subrange(pos + 4, pos + 6));
            assert(rest.skip(6) =~= s@.skip(pos + 6));
            assert(spec_parse_peers(rest) == seq![
                PeerAddr {
                    ip: (rest[0], rest[1], rest[2], rest[3]),
                    port: wire::be_u16(rest.subrange(4, 6)),
                },
            ] + spec_parse_peers(s@.skip(pos + 6)));
        }
        ps.push(p);
        pos = pos + 6;
        proof {
            assert(spec_parse_peers(s@) =~= ps@ + spec_parse_peers(s@.skip(pos as int)));
        }
    }
    proof {
        assert(spec_parse_peers(s@.skip(pos as int)) =~= Seq::<PeerAddr>::empty());
        assert(ps@ =~= spec_parse_peers(s@));
    }
    ps
}

/// Parsing inverts the compact encoding for every peer list.
pub proof fn lemma_peers_round_trip(ps: Seq<PeerAddr>)
    ensures
        spec_parse_peers(spec_peers_bytes(ps)) == ps,
    decreases ps.len(),
{
    if ps.len() == 0 {
        assert(spec_parse_peers(spec_peers_bytes(ps)) =~= ps);
    } else {
        let s = spec_peers_bytes(ps);
        assert(s.len() == 6 + spec_peers_bytes(ps.drop_first()).len()) by {
            lemma_peers_bytes_len(ps.drop_first());
        }
        assert(s.subrange(4, 6) =~= wire::u16_bytes(ps[0].port));
        wire::lemma_u16_round_trip(ps[0].port);
        assert(s.skip(6) =~= spec_peers_bytes(ps.drop_first()));
        lemma_peers_round_trip(ps.drop_first());
        assert(spec_parse_peers(s) =~= ps);
    }
}

/// The compact form of a peer list takes 6 bytes per peer.
pub proof fn lemma_peers_bytes_len(ps: Seq<PeerAddr>)
    ensures
        spec_peers_bytes(ps).len() == 6 * ps.len(),
    decreases ps.len(),
{
    if ps.len() > 0 {
        lemma_peers_bytes_len(ps.drop_first());
    }
}

/// The compact form of a non-empty peer list ends with its last peer.
proof fn lemma_peers_bytes_unsnoc(ps: Seq<PeerAddr>)
    requires
        ps.len() > 0,
    ensures
        spec_peers_bytes(ps) == spec_peers_bytes(ps.drop_last()) + spec_peer_bytes(ps.last()),
    decreases ps.len(),
{
    if ps.len() == 1 {
        assert(ps.drop_first() =~= Seq::<PeerAddr>::empty());
        assert(ps.drop_last() =~= Seq::<PeerAddr>::empty());
        assert(spec_peers_bytes(ps) =~= spec_peers_bytes(ps.drop_last()) + spec_peer_bytes(
            ps.last(),
        ));
    } else {
        lemma_peers_bytes_unsnoc(ps.drop_first());
        assert(ps.drop_last().drop_first() =~= ps.drop_first().drop_last());
        assert(ps.drop_first().last() == ps.last());
        assert(spec_peers_bytes(ps) =~= spec_peers_bytes(ps.drop_last()) + spec_peer_bytes(
            ps.last(),
        ));
    }
}

/// The position of the first occurrence of `pat` in `s`, if any.
pub open spec fn spec_find(s: Seq<u8>, pat: Seq<u8>) -> Option<int>
    decreases s.len(),
{
    if pat.len() == 0 {
        Some(0int)
    } else if s.len() < pat.len() {
        None
    } else if s.take(pat.len() as int) == pat {
        Some(0int)
    } else {
        match spec_find(s.skip(1), pat) {
            Some(i) => Some(i + 1),
            None => None,
        }
    }
}

/// A found occurrence lies within the text.
pub proof fn lemma_find_bound(s: Seq<u8>, pat: Seq<u8>)
    requires
        spec_find(s, pat) matches Some(i),
    ensures
        spec_find(s, pat) matches Some(i) && 0 <= i && i + pat.len() <= s.len(),
    decreases s.len(),
{
    if pat.len() == 0 {
    } else if s.len() < pat.len() {
    } else if s.take(pat.len() as int) == pat {
    } else {
        lemma_find_bound(s.skip(1), pat);
    }
}

/// An announce destination: the `udp://` host and port to resolve, or the
/// full `http://` or `https://` URL to request.
#[derive(Debug, Clone, PartialEq, Eq)]
pub enum Addr {
    Udp(Vec<u8>),
    Http(Vec<u8>),
}

/// Placeholder namespace for tracker-wide state.
pub struct Tracker {}

/// The ASCII bytes of `"http://"`.
pub open spec fn spec_http_prefix() -> Seq<u8> {
    seq![104u8, 116, 116, 112, 58, 47, 47]
}

/// The ASCII bytes of `"https://"`.
pub open spec fn spec_https_prefix() -> Seq<u8> {
    seq![104u8, 116, 116, 112, 115, 58, 47, 47]
}

/// The ASCII bytes of `"udp://"`.
pub open spec fn spec_udp_prefix() -> Seq<u8> {
    seq![117u8, 100, 112, 58, 47, 47]
}

/// The ASCII bytes of `"/announce"`.
pub open spec fn spec_announce_path() -> Seq<u8> {
    seq![47u8, 97, 110, 110, 111, 117, 110, 99, 101]
}

/// Whether `s` begins with `prefix`.
pub open spec fn spec_starts_with(s: Seq<u8>, prefix: Seq<u8>) -> bool {
    s.len() >= prefix.len() && s.take(prefix.len() as int) == prefix
}

/// Dispatches an announce URL on its scheme: `http://` and `https://` URLs
/// are requested whole; for `udp://` the host-and-port part before the
/// first `/announce` is resolved.  Anything else is a tracker protocol
/// error.
pub fn get_addr(announce: &[u8]) -> (r: Result<Addr, Error>)
    ensures
        match r {
            Ok(a) => match a {
                Addr::Http(url) => (spec_starts_with(announce@, spec_http_prefix())
                    || spec_starts_with(announce@, spec_https_prefix())) && url@ == announce@,
                Addr::Udp(host) => spec_starts_with(announce@, spec_udp_prefix()) && {
                    let rest = announce@.skip(6);
                    spec_find(rest, spec_announce_path()) matches Some(i) && host@ == rest.take(i)
                },
            },
            Err(e) => e == Error::TrackerProtocol && !spec_starts_with(
                announce@,
                spec_http_prefix(),
            ) && !spec_starts_with(announce@, spec_https_prefix()) && (!spec_starts_with(
                announce@,
                spec_udp_prefix(),
            ) || spec_find(announce@.skip(6), spec_announce_path()) is None),
        },
{
    let mut http: Vec<u8> = Vec::new();
    http.push(104);
    http.push(116);
    http.push(116);
    http.push(112);
    http.push(58);
    http.push(47);
    http.push(47);
    assert(http@ =~= spec_http_prefix());
    let mut https: Vec<u8> = Vec::new();
    https.push(104);
    https.push(116);
    https.push(116);
    https.push(112);
    https.push(115);
    https.push(58);
    https.push(47);
    https.push(47);
    assert(https@ =~= spec_https_prefix());
    let mut udp: Vec<u8> = Vec::new();
    udp.push(117);
    udp.push(100);
    udp.push(112);
    udp.push(58);
    udp.push(47);
    udp.push(47);
    assert(udp@ =~= spec_udp_prefix());
    if starts_with(announce, http.as_slice()) || starts_with(announce, https.as_slice()) {
        return Ok(Addr::Http(vstd::slice::slice_to_vec(announce)));
    }
    if starts_with(announce, udp.as_slice()) {
        let mut path: Vec<u8> = Vec::new();
        path.push(47);
        path.push(97);
        path.push(110);
        path.push(110);
        path.push(111);
        path.push(117);
        path.push(110);
        path.push(99);
        path.push(101);
        assert(path@ =~= spec_announce_path());
        let rest = vstd::slice::slice_subrange(announce, 6, announce.len());
        match find(rest, path.as_slice()) {
            Some(i) => {
                proof {
                    lemma_find_bound(rest@, path@);
                }
                let host = vstd::slice::slice_to_vec(vstd::slice::slice_subrange(rest, 0, i));
                proof {
                    assert(host@ =~= announce@.skip(6).take(i as int));
                }
                return Ok(Addr::Udp(host));
            },
            None => {
                return Err(Error::TrackerProtocol);
            },
        }
    }
    Err(Error::TrackerProtocol)
}

/// Whether `s` begins with `prefix`.
fn starts_with(s: &[u8], prefix: &[u8]) -> (r: bool)
    ensures
        r == spec_starts_with(s@, prefix@),
{
    if s.len() < prefix.len() {
        return false;
    }
    let head = vstd::slice::slice_subrange(s, 0, prefix.len());
    wire::bytes_eq(head, prefix)
}

/// The position of the first occurrence of `pat` in `s`, if any.
fn find(s: &[u8], pat: &[u8]) -> (r: Option<usize>)
    ensures
        match r {
            Some(i) => spec_find(s@, pat@) == Some(i as int),
            None => spec_find(s@, pat@) is None,
        },
{
    if pat.len() == 0 {
        return Some(0);
    }
    let mut pos: usize = 0;
    proof {
        assert(s@.skip(0) =~= s@);
    }
    loop
        invariant
            pat@.len() >= 1,
            pos <= s@.len(),
            match spec_find(s@, pat@) {
                Some(i) => spec_find(s@.skip(pos as int), pat@) == Some(i - pos as int),
                None => spec_find(s@.skip(pos as int), pat@) is None,
            },
        ensures
            match spec_find(s@, pat@) {
                Some(i) => pos as int == i,
                None => true,
            },
        decreases s@.len() - pos,
    {
        if pat.len() > s.len() - pos {
            proof {
                lemma_find_short(s@.skip(pos as int), pat@);
            }
            return None;
        }
        let head = vstd::slice::slice_subrange(s, pos, pos + pat.len());
        proof {
            assert(head@ =~= s@.skip(pos as int).take(pat@.len() as int));
        }
        if wire::bytes_eq(head, pat) {
            proof {
                assert(spec_find(s@.skip(pos as int), pat@) == Some(0int));
                lemma_find_shift(s@, pat@, pos as int);
            }
            return Some(pos);
        }
        proof {
            assert(s@.skip(pos as int).skip(1) =~= s@.skip(pos + 1));
            lemma_find_shift(s@, pat@, pos as int);
        }
        pos = pos + 1;
    }
}

/// A pattern longer than the text never occurs in it.
proof fn lemma_find_short(s: Seq<u8>, pat: Seq<u8>)
    requires
        s.len() < pat.len(),
    ensures
        spec_find(s, pat) is None,
{
}

/// Scanning one position relates a search to the search of the tail.
proof fn lemma_find_shift(s: Seq<u8>, pat: Seq<u8>, pos: int)
    requires
        0 <= pos,
        1 <= pat.len(),
        pos + pat.len() <= s.len(),
    ensures
        s.skip(pos).take(pat.len() as int) == pat ==> spec_find(s.skip(pos), pat) == Some(0int),
        s.skip(pos).take(pat.len() as int) != pat ==> spec_find(s.skip(pos), pat) == (match
            spec_find(s.skip(pos + 1), pat) {
            Some(i) => Some(i + 1),
            None => None::<int>,
        }),
{
    assert(s.skip(pos).skip(1) =~= s.skip(pos + 1));
}

} // verus!
