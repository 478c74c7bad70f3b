//! The UDP tracker protocol: bit-exact request and response packets, and
//! the two-step connect/announce flow with its retransmission schedule.

use vstd::prelude::*;

use crate::error::Error;
use crate::peer;
use crate::torrent::{spec_hashes_bytes, Hashes};
use crate::tracker::{spec_parse_peers, spec_peers_bytes, write_peers, PeerAddr};
use crate::wire;

verus! {

/// The magic constant opening every connect request.
pub const PROTOCOL_IDENTIFIER: u64 = 0x417_2710_1980;

/// The id a client picks per request and the tracker echoes back.
#[derive(PartialEq, Eq, Hash, Clone, Copy, Debug, Structural)]
pub struct TransactionId(pub u32);

/// The id a tracker grants with a connect response, quoted by announces.
#[derive(PartialEq, Eq, Hash, Clone, Copy, Debug, Structural)]
pub struct ConnectionId(pub u64);

/// One torrent's counters in a scrape response.
#[derive(Debug, Copy, Clone, PartialEq, Eq, Structural)]
pub struct TorrentScrapeStatistics {
    pub seeders: u32,
    pub completed: u32,
    pub leechers: u32,
}

/// A connect request: magic constant, action 0, transaction id.
#[derive(PartialEq, Eq, Hash, Clone, Copy, Debug, Structural)]
pub struct ConnectRequest {
    pub protocol_id: u64,
    pub action: u32,
    pub transaction_id: TransactionId,
}

impl ConnectRequest {
    /// A connect request bearing `transaction_id`.
    pub fn new(transaction_id: u32) -> (r: ConnectRequest)
        ensures
            r.protocol_id == PROTOCOL_IDENTIFIER,
            r.action == 0,
            r.transaction_id.0 == transaction_id,
    {
        ConnectRequest {
            protocol_id: PROTOCOL_IDENTIFIER,
            action: 0,
            transaction_id: TransactionId(transaction_id),
        }
    }
}

/// An announce request: everything the tracker needs to register this
/// client and answer with a peer list.
#[derive(Debug, Clone, PartialEq, Eq)]
pub struct AnnounceRequest {
    pub connection_id: ConnectionId,
    pub transaction_id: TransactionId,
    pub info_hash: Vec<u8>,
    pub peer_id: Vec<u8>,
    pub downloaded: u64,
    pub left: u64,
    pub uploaded: u64,
    pub event: u32,
    pub ip_address: u32,
    pub key: u32,
    pub num_want: i32,
    pub port: u16,
}

impl AnnounceRequest {
    /// An announce request quoting `connection_id`, bearing
    /// `transaction_id`, for the torrent named by `info_hash`, with `left`
    /// bytes still wanted; every other field at its default.
    pub fn new(connection_id: u64, transaction_id: u32, info_hash: Vec<u8>, left: u64) -> (r:
        AnnounceRequest)
        ensures
            r.connection_id.0 == connection_id,
            r.transaction_id.0 == transaction_id,
            r.info_hash@ == info_hash@,
            r.peer_id@ == peer::spec_peer_id(),
            r.downloaded == 0,
            r.left == left,
            r.uploaded == 0,
            r.event == 0,
            r.ip_address == 0,
            r.key == 0,
            r.num_want == -1,
            r.port == 0,
    {
        AnnounceRequest {
            connection_id: ConnectionId(connection_id),
            transaction_id: TransactionId(transaction_id),
            info_hash,
            peer_id: peer::peer_id_bytes(),
            downloaded: 0,
            left,
            uploaded: 0,
            event: 0,
            ip_address: 0,
            key: 0,
            num_want: -1,
            port: 0,
        }
    }
}

/// A scrape request for a list of torrents.
#[derive(PartialEq, Eq, Clone, Debug)]
pub struct ScrapeRequest {
    pub connection_id: ConnectionId,
    pub transaction_id: TransactionId,
    pub info_hashes: Hashes,
}

/// Any packet a client sends to a UDP tracker.
#[derive(Debug, Clone, PartialEq, Eq)]
pub enum Request {
    Connect(ConnectRequest),
    Announce(AnnounceRequest),
    Scrape(ScrapeRequest),
}

impl From<ConnectRequest> for Request {
    fn from(value: ConnectRequest) -> (r: Request) {
        Request::Connect(value)
    }
}

impl vstd::std_specs::convert::FromSpecImpl<ConnectRequest> for Request {
    open spec fn obeys_from_spec() -> bool {
        true
    }

    open spec fn from_spec(value: ConnectRequest) -> Request {
        Request::Connect(value)
    }
}

impl From<AnnounceRequest> for Request {
    fn from(value: AnnounceRequest) -> (r: Request) {
        Request::Announce(value)
    }
}

impl vstd::std_specs::convert::FromSpecImpl<AnnounceRequest> for Request {
    open spec fn obeys_from_spec() -> bool {
        true
    }

    open spec fn from_spec(value: AnnounceRequest) -> Request {
        Request::Announce(value)
    }
}

impl From<ScrapeRequest> for Request {
    fn from(value: ScrapeRequest) -> (r: Request) {
        Request::Scrape(value)
    }
}

impl vstd::std_specs::convert::FromSpecImpl<ScrapeRequest> for Request {
    open spec fn obeys_from_spec() -> bool {
        true
    }

    open spec fn from_spec(value: ScrapeRequest) -> Request {
        Request::Scrape(value)
    }
}

/// The 16-byte image of a connect request.
pub open spec fn spec_connect_request_bytes(transaction_id: u32) -> Seq<u8> {
    wire::u64_bytes(PROTOCOL_IDENTIFIER) + wire::u32_bytes(0) + wire::u32_bytes(transaction_id)
}

/// The 98-byte image of an announce request.
pub open spec fn spec_announce_request_bytes(r: AnnounceRequest) -> Seq<u8> {
    wire::u64_bytes(r.connection_id.0) + wire::u32_bytes(1) + wire::u32_bytes(r.transaction_id.0)
        + r.info_hash@ + r.peer_id@ + wire::u64_bytes(r.downloaded) + wire::u64_bytes(r.left)
        + wire::u64_bytes(r.uploaded) + wire::u32_bytes(r.event) + wire::u32_bytes(r.ip_address)
        + wire::u32_bytes(r.key) + wire::i32_bytes(r.num_want) + wire::u16_bytes(r.port)
}

/// The image of a scrape request: header, then the digests back to back.
pub open spec fn spec_scrape_request_bytes(r: ScrapeRequest) -> Seq<u8> {
    wire::u64_bytes(r.connection_id.0) + wire::u32_bytes(2) + wire::u32_bytes(r.transaction_id.0)
        + spec_hashes_bytes(r.info_hashes.0@)
}

/// The image of any request packet.
pub open spec fn spec_request_bytes(req: Request) -> Seq<u8> {
    match req {
        Request::Connect(r) => spec_connect_request_bytes(r.transaction_id.0),
        Request::Announce(r) => spec_announce_request_bytes(r),
        Request::Scrape(r) => spec_scrape_request_bytes(r),
    }
}

impl Request {
    /// Appends the packet image of this request.
    pub fn write(&self, bytes: &mut Vec<u8>)
        ensures
            final(bytes)@ == old(bytes)@ + spec_request_bytes(*self),
    {
        match self {
            Request::Connect(r) => {
                wire::push_u64(bytes, PROTOCOL_IDENTIFIER);
                wire::push_u32(bytes, 0);
                wire::push_u32(bytes, r.transaction_id.0);
                assert(bytes@ =~= old(bytes)@ + spec_request_bytes(*self));
            },
            Request::Announce(r) => {
                wire::push_u64(bytes, r.connection_id.0);
                wire::push_u32(bytes, 1);
                wire::push_u32(bytes, r.transaction_id.0);
                wire::push_bytes(bytes, r.info_hash.as_slice());
                wire::push_bytes(bytes, r.peer_id.as_slice());
                wire::push_u64(bytes, r.downloaded);
                wire::push_u64(bytes, r.left);
                wire::push_u64(bytes, r.uploaded);
                wire::push_u32(bytes, r.event);
                wire::push_u32(bytes, r.ip_address);
                wire::push_u32(bytes, r.key);
                wire::push_i32(bytes, r.num_want);
                wire::push_u16(bytes, r.port);
                assert(bytes@ =~= old(bytes)@ + spec_request_bytes(*self));
            },
            Request::Scrape(r) => {
                wire::push_u64(bytes, r.connection_id.0);
                wire::push_u32(bytes, 2);
                wire::push_u32(bytes, r.transaction_id.0);
                let ghost header = bytes@;
                let hs = &r.info_hashes.0;
                let mut i: usize = 0;
                while i < hs.len()
                    invariant
                        i <= hs@.len(),
                        bytes@ == header + spec_hashes_bytes(hs@.take(i as int)),
                    decreases hs@.len() - i,
                {
                    wire::push_bytes(bytes, hs[i].as_slice());
                    i = i + 1;
                    proof {
                        crate::torrent::lemma_hashes_bytes_unsnoc(hs@.take(i as int));
                        assert(hs@.take(i as int).drop_last() =~= hs@.take(i - 1));
                        assert(bytes@ =~= header + spec_hashes_bytes(hs@.take(i as int)));
                    }
                }
                proof {
                    assert(hs@.take(hs@.len() as int) =~= hs@);
                    assert(bytes@ =~= old(bytes)@ + spec_request_bytes(*self));
                }
            },
        }
    }
}

/// A connect response: the granted connection id, echoing the transaction
/// id of the request.
#[derive(PartialEq, Eq, Clone, Copy, Debug, Structural)]
pub struct ConnectResponse {
    pub connection_id: ConnectionId,
    pub transaction_id: TransactionId,
}

/// An announce response: re-announce interval, swarm counters, and the
/// compact peer list.
#[derive(PartialEq, Eq, Clone, Debug)]
pub struct AnnounceResponse {
    pub transaction_id: TransactionId,
    pub interval: u32,
    pub leechers: u32,
    pub seeders: u32,
    pub peers: Vec<PeerAddr>,
}

/// A scrape response: counters per requested torrent.
#[derive(PartialEq, Eq, Clone, Debug)]
pub struct ScrapeResponse {
    pub transaction_id: TransactionId,
    pub torrent_stats: Vec<TorrentScrapeStatistics>,
}

/// An error response: the raw message bytes the tracker sent.
#[derive(Debug, Clone, PartialEq, Eq)]
pub struct ErrorResponse {
    pub transaction_id: TransactionId,
    pub message: Vec<u8>,
}

/// Any packet a UDP tracker sends back.
#[derive(PartialEq, Eq, Clone, Debug)]
pub enum Response {
    Connect(ConnectResponse),
    Announce(AnnounceResponse),
    Scrape(ScrapeResponse),
    Error(ErrorResponse),
}

/// The statistics a scrape body denotes: one triple per full 12-byte
/// group, a shorter trailing fragment ignored.
pub open spec fn spec_parse_stats(s: Seq<u8>) -> Seq<TorrentScrapeStatistics>
    decreases s.len(),
{
    if s.len() < 12 {
        Seq::empty()
    } else {
        seq![
            TorrentScrapeStatistics {
                seeders: wire::be_u32(s.subrange(0, 4)),
                completed: wire::be_u32(s.subrange(4, 8)),
                leechers: wire::be_u32(s.subrange(8, 12)),
            },
        ] + spec_parse_stats(s.skip(12))
    }
}

/// A packet too short for its action, or with an unknown action.
pub open spec fn spec_response_malformed(s: Seq<u8>) -> bool {
    s.len() < 8 || {
        let action = wire::be_u32(s.subrange(0, 4));
        action > 3 || (action == 0 && s.len() < 16) || (action == 1 && s.len() < 20)
    }
}

impl Response {
    /// Parses a tracker packet.  The action field selects the variant; the
    /// remainder of the packet is its body.  Packets too short for their
    /// action, and unknown actions, are tracker protocol errors.
    pub fn read(bytes: &[u8]) -> (r: Result<Response, Error>)
        ensures
            match r {
                Ok(resp) => !spec_response_malformed(bytes@) && {
                    let action = wire::be_u32(bytes@.subrange(0, 4));
                    match resp {
                        Response::Connect(c) => action == 0 && c.transaction_id.0 == wire::be_u32(
                            bytes@.subrange(4, 8),
                        ) && c.connection_id.0 == wire::be_u64(bytes@.subrange(8, 16)),
                        Response::Announce(a) => action == 1 && a.transaction_id.0 == wire::be_u32(
                            bytes@.subrange(4, 8),
                        ) && a.interval == wire::be_u32(bytes@.subrange(8, 12)) && a.leechers
                            == wire::be_u32(bytes@.subrange(12, 16)) && a.seeders == wire::be_u32(
                            bytes@.subrange(16, 20),
                        ) && a.peers@ == spec_parse_peers(bytes@.skip(20)),
                        Response::Scrape(sc) => action == 2 && sc.transaction_id.0 == wire::be_u32(
                            bytes@.subrange(4, 8),
                        ) && sc.torrent_stats@ == spec_parse_stats(bytes@.skip(8)),
                        Response::Error(e) => action == 3 && e.transaction_id.0 == wire::be_u32(
                            bytes@.subrange(4, 8),
                        ) && e.message@ == bytes@.skip(8),
                    }
                },
                Err(e) => spec_response_malformed(bytes@) && e == Error::TrackerProtocol,
            },
    {
        if bytes.len() < 8 {
            return Err(Error::TrackerProtocol);
        }
        let action = wire::read_u32(bytes, 0);
        let transaction_id = TransactionId(wire::read_u32(bytes, 4));
        if action == 0 {
            if bytes.len() < 16 {
                return Err(Error::TrackerProtocol);
            }
            let connection_id = ConnectionId(wire::read_u64(bytes, 8));
            Ok(Response::Connect(ConnectResponse { connection_id, transaction_id }))
        } else if action == 1 {
            if bytes.len() < 20 {
                return Err(Error::TrackerProtocol);
            }
            let interval = wire::read_u32(bytes, 8);
            let leechers = wire::read_u32(bytes, 12);
            let seeders = wire::read_u32(bytes, 16);
            let peers = crate::tracker::parse_peers(
                vstd::slice::slice_subrange(bytes, 20, bytes.len()),
            );
            proof {
                assert(bytes@.subrange(20, bytes@.len() as int) =~= bytes@.skip(20));
            }
            Ok(
                Response::Announce(
                    AnnounceResponse { transaction_id, interval, leechers, seeders, peers },
                ),
            )
        } else if action == 2 {
            let mut stats: Vec<TorrentScrapeStatistics> = Vec::new();
            let mut pos: usize = 8;
            proof {
                assert(spec_parse_stats(bytes@.skip(8)) =~= stats@ + spec_parse_stats(
                    bytes@.skip(8),
                ));
            }
            while bytes.len() - pos >= 12
                invariant
                    8 <= pos <= bytes@.len(),
                    spec_parse_stats(bytes@.skip(8)) =~= stats@ + spec_parse_stats(
                        bytes@.skip(pos as int),
                    ),
                decreases bytes@.len() - pos,
            {
                let st = TorrentScrapeStatistics {
                    seeders: wire::read_u32(bytes, pos),
                    completed: wire::read_u32(bytes, pos + 4),
                    leechers: wire::read_u32(bytes, pos + 8),
                };
                proof {
                    let rest = bytes@.skip(pos as int);
                    assert(rest.subrange(0, 4) =~= bytes@.subrange(pos as int, pos + 4));
                    assert(rest.subrange(4, 8) =~= bytes@.subrange(pos + 4, pos + 8));
                    assert(rest.subrange(8, 12) =~= bytes@.subrange(pos + 8, pos + 12));
                    assert(rest.skip(12) =~= bytes@.skip(pos + 12));
                }
                stats.push(st);
                pos = pos + 12;
                proof {
                    assert(spec_parse_stats(bytes@.skip(8)) =~= stats@ + spec_parse_stats(
                        bytes@.skip(pos as int),
                    ));
                }
            }
            proof {
                assert(spec_parse_stats(bytes@.skip(pos as int)) =~= Seq::<
                    TorrentScrapeStatistics,
                >::empty());
                assert(stats@ =~= spec_parse_stats(bytes@.skip(8)));
            }
            Ok(Response::Scrape(ScrapeResponse { transaction_id, torrent_stats: stats }))
        } else if action == 3 {
            let message = vstd::slice::slice_to_vec(
                vstd::slice::slice_subrange(bytes, 8, bytes.len()),
            );
            proof {
                assert(message@ =~= bytes@.skip(8));
            }
            Ok(Response::Error(ErrorResponse { transaction_id, message }))
        } else {
            Err(Error::TrackerProtocol)
        }
    }
}

/// The packet image of a connect response.
pub open spec fn spec_connect_response_bytes(c: ConnectResponse) -> Seq<u8> {
    wire::u32_bytes(0) + wire::u32_bytes(c.transaction_id.0) + wire::u64_bytes(c.connection_id.0)
}

/// The packet image of an announce response.
pub open spec fn spec_announce_response_bytes(a: AnnounceResponse) -> Seq<u8> {
    wire::u32_bytes(1) + wire::u32_bytes(a.transaction_id.0) + wire::u32_bytes(a.interval)
        + wire::u32_bytes(a.leechers) + wire::u32_bytes(a.seeders) + spec_peers_bytes(a.peers@)
}

/// The packet image of an error response.
pub open spec fn spec_error_response_bytes(e: ErrorResponse) -> Seq<u8> {
    wire::u32_bytes(3) + wire::u32_bytes(e.transaction_id.0) + e.message@
}

impl Response {
    /// Appends the packet image of a connect response, as a tracker sends
    /// it.
    pub fn write_connect(c: &ConnectResponse, out: &mut Vec<u8>)
        ensures
            final(out)@ == old(out)@ + spec_connect_response_bytes(*c),
    {
        wire::push_u32(out, 0);
        wire::push_u32(out, c.transaction_id.0);
        wire::push_u64(out, c.connection_id.0);
        assert(out@ =~= old(out)@ + spec_connect_response_bytes(*c));
    }

    /// Appends the packet image of an announce response.
    pub fn write_announce(a: &AnnounceResponse, out: &mut Vec<u8>)
        ensures
            final(out)@ == old(out)@ + spec_announce_response_bytes(*a),
    {
        wire::push_u32(out, 1);
        wire::push_u32(out, a.transaction_id.0);
        wire::push_u32(out, a.interval);
        wire::push_u32(out, a.leechers);
        wire::push_u32(out, a.seeders);
        write_peers(out, &a.peers);
        assert(out@ =~= old(out)@ + spec_announce_response_bytes(*a));
    }

    /// Appends the packet image of an error response.
    pub fn write_error(e: &ErrorResponse, out: &mut Vec<u8>)
        ensures
            final(out)@ == old(out)@ + spec_error_response_bytes(*e),
    {
        wire::push_u32(out, 3);
        wire::push_u32(out, e.transaction_id.0);
        wire::push_bytes(out, e.message.as_slice());
        assert(out@ =~= old(out)@ + spec_error_response_bytes(*e));
    }
}

/// The image of a connect response is well formed and denotes exactly its
/// fields, so parsing it recovers them.
pub proof fn lemma_connect_response_round_trip(c: ConnectResponse)
    ensures
        !spec_response_malformed(spec_connect_response_bytes(c)),
        wire::be_u32(spec_connect_response_bytes(c).subrange(0, 4)) == 0,
        wire::be_u32(spec_connect_response_bytes(c).subrange(4, 8)) == c.transaction_id.0,
        wire::be_u64(spec_connect_response_bytes(c).subrange(8, 16)) == c.connection_id.0,
{
    let s = spec_connect_response_bytes(c);
    assert(s.subrange(0, 4) =~= wire::u32_bytes(0));
    assert(s.subrange(4, 8) =~= wire::u32_bytes(c.transaction_id.0));
    assert(s.subrange(8, 16) =~= wire::u64_bytes(c.connection_id.0));
    wire::lemma_u32_round_trip(0);
    wire::lemma_u32_round_trip(c.transaction_id.0);
    wire::lemma_u64_round_trip(c.connection_id.0);
}

/// The image of an announce response is well formed and denotes exactly
/// its fields, the peer list included, so parsing it recovers them.
pub proof fn lemma_announce_response_round_trip(a: AnnounceResponse)
    ensures
        !spec_response_malformed(spec_announce_response_bytes(a)),
        wire::be_u32(spec_announce_response_bytes(a).subrange(0, 4)) == 1,
        wire::be_u32(spec_announce_response_bytes(a).subrange(4, 8)) == a.transaction_id.0,
        wire::be_u32(spec_announce_response_bytes(a).subrange(8, 12)) == a.interval,
        wire::be_u32(spec_announce_response_bytes(a).subrange(12, 16)) == a.leechers,
        wire::be_u32(spec_announce_response_bytes(a).subrange(16, 20)) == a.seeders,
        spec_parse_peers(spec_announce_response_bytes(a).skip(20)) == a.peers@,
{
    let s = spec_announce_response_bytes(a);
    assert(s.subrange(0, 4) =~= wire::u32_bytes(1));
    assert(s.subrange(4, 8) =~= wire::u32_bytes(a.transaction_id.0));
    assert(s.subrange(8, 12) =~= wire::u32_bytes(a.interval));
    assert(s.subrange(12, 16) =~= wire::u32_bytes(a.leechers));
    assert(s.subrange(16, 20) =~= wire::u32_bytes(a.seeders));
    assert(s.skip(20) =~= spec_peers_bytes(a.peers@));
    wire::lemma_u32_round_trip(1);
    wire::lemma_u32_round_trip(a.transaction_id.0);
    wire::lemma_u32_round_trip(a.interval);
    wire::lemma_u32_round_trip(a.leechers);
    wire::lemma_u32_round_trip(a.seeders);
    crate::tracker::lemma_peers_round_trip(a.peers@);
}

/// The image of an error response is well formed and denotes exactly its
/// transaction id and message, so parsing it recovers them.
pub proof fn lemma_error_response_round_trip(e: ErrorResponse)
    ensures
        !spec_response_malformed(spec_error_response_bytes(e)),
        wire::be_u32(spec_error_response_bytes(e).subrange(0, 4)) == 3,
        wire::be_u32(spec_error_response_bytes(e).subrange(4, 8)) == e.transaction_id.0,
        spec_error_response_bytes(e).skip(8) == e.message@,
{
    let s = spec_error_response_bytes(e);
    assert(s.subrange(0, 4) =~= wire::u32_bytes(3));
    assert(s.subrange(4, 8) =~= wire::u32_bytes(e.transaction_id.0));
    assert(s.skip(8) =~= e.message@);
    wire::lemma_u32_round_trip(3);
    wire::lemma_u32_round_trip(e.transaction_id.0);
}

/// Which request the two-step announce flow sends next.
#[derive(Debug, Clone, Copy, PartialEq, Eq, Structural)]
pub enum FlowState {
    /// No valid connection id yet: send connect requests.
    Connect,
    /// A connection id is held: send announce requests.
    Announce,
}

/// The client side of the UDP announce exchange: which packet to send,
/// which responses to accept, and the retransmission schedule with
/// exponential backoff.  The caller owns the socket and the clock.
#[derive(Debug, Clone, PartialEq, Eq, Structural)]
pub struct AnnounceFlow {
    /// Connect or announce step.
    pub state: FlowState,
    /// The transaction id of the outstanding request.
    pub transaction_id: u32,
    /// The id granted by the last matched connect response.
    pub connection_id: u64,
    /// Requests sent so far without an accepted response.
    pub attempts: u32,
    /// Seconds to wait before the next retransmission.
    pub delay: u64,
}

/// How many unanswered requests end the exchange.
pub const MAX_ATTEMPTS: u32 = 8;

/// The first retransmission delay, in seconds.
pub const BASE_DELAY_SECS: u64 = 15;

impl AnnounceFlow {
    /// A fresh exchange, about to send a connect request bearing
    /// `transaction_id`.
    pub fn new(transaction_id: u32) -> (f: AnnounceFlow)
        ensures
            f.state == FlowState::Connect,
            f.transaction_id == transaction_id,
            f.attempts == 0,
            f.delay == BASE_DELAY_SECS,
    {
        AnnounceFlow {
            state: FlowState::Connect,
            transaction_id,
            connection_id: 0,
            attempts: 0,
            delay: BASE_DELAY_SECS,
        }
    }

    /// The request to send now: a connect request in the connect step, an
    /// announce request quoting the granted connection id in the announce
    /// step.
    pub fn current_request(&self, info_hash: &Vec<u8>, left: u64) -> (r: Request)
        ensures
            self.state == FlowState::Connect ==> (r matches Request::Connect(c)
                && c.transaction_id.0 == self.transaction_id),
            self.state == FlowState::Announce ==> (r matches Request::Announce(a)
                && a.connection_id.0 == self.connection_id && a.transaction_id.0
                == self.transaction_id && a.info_hash@ == info_hash@ && a.left == left),
    {
        match self.state {
            FlowState::Connect => Request::Connect(ConnectRequest::new(self.transaction_id)),
            FlowState::Announce => Request::Announce(
                AnnounceRequest::new(
                    self.connection_id,
                    self.transaction_id,
                    vstd::slice::slice_to_vec(info_hash.as_slice()),
                    left,
                ),
            ),
        }
    }

    /// Books one more unanswered send.  Returns how long to wait before
    /// retrying, doubling each time, or `None` once the attempt budget is
    /// spent — the exchange then fails as unreachable.
    pub fn on_timeout(&mut self) -> (retry: Option<u64>)
        ensures
            final(self).state == old(self).state,
            final(self).transaction_id == old(self).transaction_id,
            final(self).connection_id == old(self).connection_id,
            old(self).attempts >= MAX_ATTEMPTS ==> retry is None && *final(self) == *old(self),
            old(self).attempts < MAX_ATTEMPTS ==> {
                &&& retry == Some(old(self).delay)
                &&& final(self).attempts == old(self).attempts + 1
                &&& old(self).delay * 2 <= u64::MAX ==> final(self).delay == old(self).delay * 2
                &&& old(self).delay * 2 > u64::MAX ==> final(self).delay == old(self).delay
            },
    {
        if self.attempts >= MAX_ATTEMPTS {
            return None;
        }
        self.attempts = self.attempts + 1;
        let wait = self.delay;
        if self.delay <= u64::MAX / 2 {
            self.delay = self.delay * 2;
        }
        Some(wait)
    }

    /// Falls back to the connect step, as when the granted connection id
    /// has outlived its validity window without a completed announce.  The
    /// next request is a connect request bearing `fresh_transaction_id`,
    /// with the retransmission schedule reset.
    pub fn on_connection_expired(&mut self, fresh_transaction_id: u32)
        ensures
            final(self).state == FlowState::Connect,
            final(self).transaction_id == fresh_transaction_id,
            final(self).attempts == 0,
            final(self).delay == BASE_DELAY_SECS,
    {
        self.state = FlowState::Connect;
        self.transaction_id = fresh_transaction_id;
        self.attempts = 0;
        self.delay = BASE_DELAY_SECS;
    }

    /// Feeds one received packet to the flow.  A connect response whose
    /// transaction id matches, in the connect step, grants the connection
    /// id and moves to the announce step under `fresh_transaction_id`, with
    /// the retransmission schedule reset.  An announce response whose
    /// transaction id matches, in the announce step, ends the exchange
    /// with its peer list.  Everything else is discarded silently.
    pub fn on_response(&mut self, resp: Response, fresh_transaction_id: u32) -> (done: Option<
        Vec<PeerAddr>,
    >)
        ensures
            match resp {
                Response::Connect(c) => done is None && if old(self).state == FlowState::Connect
                    && c.transaction_id.0 == old(self).transaction_id {
                    final(self).state == FlowState::Announce && final(self).connection_id
                        == c.connection_id.0 && final(self).transaction_id == fresh_transaction_id
                        && final(self).attempts == 0 && final(self).delay == BASE_DELAY_SECS
                } else {
                    *final(self) == *old(self)
                },
                Response::Announce(a) => if old(self).state == FlowState::Announce
                    && a.transaction_id.0 == old(self).transaction_id {
                    done matches Some(peers) && peers@ == a.peers@ && *final(self) == *old(self)
                } else {
                    done is None && *final(self) == *old(self)
                },
                _ => done is None && *final(self) == *old(self),
            },
    {
        match resp {
            Response::Connect(c) => {
                if matches!(self.state, FlowState::Connect) && c.transaction_id.0
                    == self.transaction_id {
                    self.state = FlowState::Announce;
                    self.connection_id = c.connection_id.0;
                    self.transaction_id = fresh_transaction_id;
                    self.attempts = 0;
                    self.delay = BASE_DELAY_SECS;
                }
                None
            },
            Response::Announce(a) => {
                if matches!(self.state, FlowState::Announce) && a.transaction_id.0
                    == self.transaction_id {
                    Some(a.peers)
                } else {
                    None
                }
            },
            _ => None,
        }
    }
}

} // verus!
