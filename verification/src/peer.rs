//! The peer-wire protocol: handshake, message framing, bitfield, and the
//! per-peer session state machine that takes part in a piece download.
//!
//! Only byte-level logic and protocol decisions live here; the surrounding
//! application owns the TCP connection, reads frames, and performs the
//! actions these functions decide on.

use vstd::prelude::*;

use crate::block;
use crate::block::Response;
use crate::error::Error;
use crate::wire;
use crate::wire::BLOCK_SIZE;

verus! {

/// The ASCII bytes of `"BitTorrent protocol"`.
pub open spec fn spec_protocol() -> Seq<u8> {
    seq![66u8, 105, 116, 84, 111, 114, 114, 101, 110, 116, 32, 112, 114, 111, 116, 111, 99, 111, 108]
}

/// The fixed 20-byte peer id this client sends, the ASCII digits
/// `"00112233445566778899"`.
pub open spec fn spec_peer_id() -> Seq<u8> {
    Seq::new(20, |i: int| (48 + i / 2) as u8)
}

/// Builds the fixed peer id at run time.
pub fn peer_id_bytes() -> (r: Vec<u8>)
    ensures
        r@ == spec_peer_id(),
{
    let mut r: Vec<u8> = Vec::new();
    let mut j: usize = 0;
    while j < 20
        invariant
            j <= 20,
            r@ =~= spec_peer_id().subrange(0, j as int),
        decreases 20 - j,
    {
        r.push(48 + (j / 2) as u8);
        j = j + 1;
        assert(r@ =~= spec_peer_id().subrange(0, j as int));
    }
    assert(r@ =~= spec_peer_id());
    r
}

/// Builds the protocol string at run time.
fn protocol_bytes() -> (r: Vec<u8>)
    ensures
        r@ == spec_protocol(),
{
    let mut r: Vec<u8> = Vec::new();
    r.push(66);
    r.push(105);
    r.push(116);
    r.push(84);
    r.push(111);
    r.push(114);
    r.push(114);
    r.push(101);
    r.push(110);
    r.push(116);
    r.push(32);
    r.push(112);
    r.push(114);
    r.push(111);
    r.push(116);
    r.push(111);
    r.push(99);
    r.push(111);
    r.push(108);
    assert(r@ =~= spec_protocol());
    r
}

/// The 68-byte peer handshake, split into its five fields.
#[derive(Debug, Clone)]
pub struct Handshake {
    pub length: u8,
    pub protocol: Vec<u8>,
    pub reserved: Vec<u8>,
    pub info_hash: Vec<u8>,
    pub peer_id: Vec<u8>,
}

/// The field lengths a handshake must have to occupy exactly 68 bytes.
pub open spec fn handshake_wf(h: Handshake) -> bool {
    h.protocol@.len() == 19 && h.reserved@.len() == 8 && h.info_hash@.len() == 20
        && h.peer_id@.len() == 20
}

/// The 68-byte image of a handshake.
pub open spec fn spec_handshake_bytes(h: Handshake) -> Seq<u8> {
    seq![h.length] + h.protocol@ + h.reserved@ + h.info_hash@ + h.peer_id@
}

impl Handshake {
    /// The handshake this client offers for `info_hash`: length byte 19, the
    /// protocol string, eight reserved zero bytes, and the fixed peer id.
    pub fn new(info_hash: &[u8]) -> (h: Handshake)
        requires
            info_hash@.len() == 20,
        ensures
            handshake_wf(h),
            h.length == 19,
            h.protocol@ == spec_protocol(),
            h.reserved@ == Seq::new(8, |i: int| 0u8),
            h.info_hash@ == info_hash@,
            h.peer_id@ == spec_peer_id(),
    {
        let mut reserved: Vec<u8> = Vec::new();
        let mut k: usize = 0;
        while k < 8
            invariant
                k <= 8,
                reserved@ =~= Seq::new(k as nat, |i: int| 0u8),
            decreases 8 - k,
        {
            reserved.push(0);
            k = k + 1;
            assert(reserved@ =~= Seq::new(k as nat, |i: int| 0u8));
        }
        let peer_id = peer_id_bytes();
        Handshake {
            length: 19,
            protocol: protocol_bytes(),
            reserved,
            info_hash: vstd::slice::slice_to_vec(info_hash),
            peer_id,
        }
    }

    /// Splits a received 68-byte handshake into its fields.
    pub fn from_bytes(bytes: &[u8]) -> (h: Handshake)
        requires
            bytes@.len() == 68,
        ensures
            handshake_wf(h),
            h.length == bytes@[0],
            h.protocol@ == bytes@.subrange(1, 20),
            h.reserved@ == bytes@.subrange(20, 28),
            h.info_hash@ == bytes@.subrange(28, 48),
            h.peer_id@ == bytes@.subrange(48, 68),
    {
        Handshake {
            length: bytes[0],
            protocol: vstd::slice::slice_to_vec(vstd::slice::slice_subrange(bytes, 1, 20)),
            reserved: vstd::slice::slice_to_vec(vstd::slice::slice_subrange(bytes, 20, 28)),
            info_hash: vstd::slice::slice_to_vec(vstd::slice::slice_subrange(bytes, 28, 48)),
            peer_id: vstd::slice::slice_to_vec(vstd::slice::slice_subrange(bytes, 48, 68)),
        }
    }

    /// The 68-byte wire form of this handshake.
    pub fn bytes(&self) -> (r: Vec<u8>)
        requires
            handshake_wf(*self),
        ensures
            r@ == spec_handshake_bytes(*self),
            r@.len() == 68,
    {
        let mut r: Vec<u8> = Vec::new();
        r.push(self.length);
        wire::push_bytes(&mut r, self.protocol.as_slice());
        wire::push_bytes(&mut r, self.reserved.as_slice());
        wire::push_bytes(&mut r, self.info_hash.as_slice());
        wire::push_bytes(&mut r, self.peer_id.as_slice());
        assert(r@ =~= spec_handshake_bytes(*self));
        r
    }

    /// Accepts the handshake iff its length byte is 19 and its protocol
    /// string is `"BitTorrent protocol"`.
    pub fn validate(&self) -> (r: Result<(), Error>)
        ensures
            r is Ok <==> self.length == 19 && self.protocol@ == spec_protocol(),
            r is Err ==> r->Err_0 == Error::PeerHandshake,
    {
        if self.length != 19 {
            return Err(Error::PeerHandshake);
        }
        let expected = protocol_bytes();
        if !wire::bytes_eq(self.protocol.as_slice(), expected.as_slice()) {
            return Err(Error::PeerHandshake);
        }
        Ok(())
    }
}

/// Splitting the 68 bytes of a well-formed handshake recovers its fields.
pub proof fn lemma_handshake_round_trip(h: Handshake)
    requires
        handshake_wf(h),
    ensures
        spec_handshake_bytes(h).len() == 68,
        spec_handshake_bytes(h)[0] == h.length,
        spec_handshake_bytes(h).subrange(1, 20) == h.protocol@,
        spec_handshake_bytes(h).subrange(20, 28) == h.reserved@,
        spec_handshake_bytes(h).subrange(28, 48) == h.info_hash@,
        spec_handshake_bytes(h).subrange(48, 68) == h.peer_id@,
{
    let s = spec_handshake_bytes(h);
    assert(s.subrange(1, 20) =~= h.protocol@);
    assert(s.subrange(20, 28) =~= h.reserved@);
    assert(s.subrange(28, 48) =~= h.info_hash@);
    assert(s.subrange(48, 68) =~= h.peer_id@);
}

/// A remote peer's piece inventory: one bit per piece, most significant bit
/// of byte 0 first.
#[derive(Debug, Clone)]
pub struct Bitfield {
    payload: Vec<u8>,
}

/// Bit `i` of `s`, MSB-first within each byte; `false` past the end of `s`.
pub open spec fn spec_has_piece(s: Seq<u8>, i: int) -> bool {
    0 <= i && i / 8 < s.len() && (s[i / 8] >> ((7 - (i % 8)) as u8)) & 1 == 1
}

impl Bitfield {
    /// The set of bytes as received in a `Bitfield` message.
    pub fn from_payload(payload: Vec<u8>) -> (b: Bitfield)
        ensures
            b@ == payload@,
    {
        Bitfield { payload }
    }

    /// The raw bytes, for contracts.
    pub closed spec fn view(&self) -> Seq<u8> {
        self.payload@
    }

    /// Whether the remote claims piece `piece_i`: bit `piece_i % 8` of byte
    /// `piece_i / 8`, MSB first.  Queries beyond the end of the field are
    /// `false` rather than an error.
    pub fn has_piece(&self, piece_i: usize) -> (r: bool)
        ensures
            r == spec_has_piece(self@, piece_i as int),
    {
        let byte_i = piece_i / 8;
        if byte_i >= self.payload.len() {
            return false;
        }
        let byte = self.payload[byte_i];
        let sh: u8 = 7 - (piece_i % 8) as u8;
        (byte >> sh) & 1 == 1
    }

    /// Every piece index the remote claims, in increasing order.
    pub fn pieces(&self) -> (r: Vec<usize>)
        requires
            self@.len() * 8 <= usize::MAX,
        ensures
            forall|k1: int, k2: int| 0 <= k1 < k2 < r@.len() ==> r@[k1] < r@[k2],
            forall|i: usize| r@.contains(i) <==> spec_has_piece(self@, i as int),
    {
        let mut r: Vec<usize> = Vec::new();
        let end = self.payload.len() * 8;
        let mut i: usize = 0;
        while i < end
            invariant
                end == self@.len() * 8,
                i <= end,
                forall|k: int| 0 <= k < r@.len() ==> (r@[k] as int) < i as int,
                forall|k1: int, k2: int| 0 <= k1 < k2 < r@.len() ==> r@[k1] < r@[k2],
                forall|j: usize| (j as int) < i as int ==> (r@.contains(j) <==> spec_has_piece(
                    self@,
                    j as int,
                )),
            decreases end - i,
        {
            if self.has_piece(i) {
                let ghost old_r = r@;
                r.push(i);
                proof {
                    assert(r@ == old_r.push(i));
                    assert forall|j: usize| (j as int) < i + 1 implies (r@.contains(j)
                        <==> spec_has_piece(self@, j as int)) by {
                        if r@.contains(j) {
                            let k = choose|k: int| 0 <= k < r@.len() && r@[k] == j;
                            if k < old_r.len() {
                                assert(old_r.contains(j));
                            } else {
                                assert(j == i);
                            }
                        }
                        if spec_has_piece(self@, j as int) {
                            if (j as int) < i as int {
                                assert(old_r.contains(j));
                                let k = choose|k: int| 0 <= k < old_r.len() && old_r[k] == j;
                                assert(r@[k] == j);
                            } else {
                                assert(r@[r@.len() - 1] == j);
                            }
                        }
                    }
                }
            } else {
                proof {
                    assert forall|j: usize| (j as int) < i + 1 implies (r@.contains(j)
                        <==> spec_has_piece(self@, j as int)) by {}
                }
            }
            i = i + 1;
        }
        proof {
            assert forall|j: usize| r@.contains(j) implies spec_has_piece(self@, j as int) by {}
            assert forall|j: usize| spec_has_piece(self@, j as int) implies r@.contains(j) by {
                assert((j as int) / 8 < self@.len());
                assert((j as int) < end as int) by {
                    assert((j as int) / 8 * 8 + (j as int) % 8 == j as int);
                }
            }
        }
        r
    }
}

/// The one-byte id of a peer-wire message.  Ids outside 0..=8 are carried as
/// `Unknown` so that they can be drained and skipped instead of failing the
/// session.
#[derive(Debug, Clone, Copy, PartialEq, Eq, Structural)]
pub enum MessageId {
    Choke,
    Unchoke,
    Interested,
    NotInterested,
    Have,
    Bitfield,
    Request,
    Piece,
    Cancel,
    Unknown(u8),
}

/// The wire code of a message id.
pub open spec fn spec_id_code(id: MessageId) -> u8 {
    match id {
        MessageId::Choke => 0,
        MessageId::Unchoke => 1,
        MessageId::Interested => 2,
        MessageId::NotInterested => 3,
        MessageId::Have => 4,
        MessageId::Bitfield => 5,
        MessageId::Request => 6,
        MessageId::Piece => 7,
        MessageId::Cancel => 8,
        MessageId::Unknown(c) => c,
    }
}

/// The message id a wire code denotes.
pub open spec fn spec_id_of(code: u8) -> MessageId {
    if code == 0 {
        MessageId::Choke
    } else if code == 1 {
        MessageId::Unchoke
    } else if code == 2 {
        MessageId::Interested
    } else if code == 3 {
        MessageId::NotInterested
    } else if code == 4 {
        MessageId::Have
    } else if code == 5 {
        MessageId::Bitfield
    } else if code == 6 {
        MessageId::Request
    } else if code == 7 {
        MessageId::Piece
    } else if code == 8 {
        MessageId::Cancel
    } else {
        MessageId::Unknown(code)
    }
}

impl MessageId {
    /// The id a received code denotes.
    pub fn from_u8(code: u8) -> (id: MessageId)
        ensures
            id == spec_id_of(code),
    {
        if code == 0 {
            MessageId::Choke
        } else if code == 1 {
            MessageId::Unchoke
        } else if code == 2 {
            MessageId::Interested
        } else if code == 3 {
            MessageId::NotInterested
        } else if code == 4 {
            MessageId::Have
        } else if code == 5 {
            MessageId::Bitfield
        } else if code == 6 {
            MessageId::Request
        } else if code == 7 {
            MessageId::Piece
        } else if code == 8 {
            MessageId::Cancel
        } else {
            MessageId::Unknown(code)
        }
    }

    /// The code this id is sent as.
    pub fn to_u8(&self) -> (code: u8)
        ensures
            code == spec_id_code(*self),
    {
        match *self {
            MessageId::Choke => 0,
            MessageId::Unchoke => 1,
            MessageId::Interested => 2,
            MessageId::NotInterested => 3,
            MessageId::Have => 4,
            MessageId::Bitfield => 5,
            MessageId::Request => 6,
            MessageId::Piece => 7,
            MessageId::Cancel => 8,
            MessageId::Unknown(c) => c,
        }
    }

    /// Whether this id carries a code some named variant already covers, so
    /// that decoding its code would not return `Unknown`.
    pub open spec fn canonical(self) -> bool {
        match self {
            MessageId::Unknown(c) => c > 8,
            _ => true,
        }
    }
}

/// Decoding a code inverts encoding for every canonical id.
pub proof fn lemma_id_round_trip(id: MessageId)
    requires
        id.canonical(),
    ensures
        spec_id_of(spec_id_code(id)) == id,
{
}

/// Encoding an id inverts decoding for every code.
pub proof fn lemma_code_round_trip(code: u8)
    ensures
        spec_id_code(spec_id_of(code)) == code,
{
}

/// A non-keep-alive peer-wire message: an id and its payload.
#[derive(Debug, Clone)]
pub struct Message {
    pub id: MessageId,
    pub payload: Vec<u8>,
}

/// The framed image of a message: big-endian length prefix counting the id
/// byte and the payload, then the id byte, then the payload.
pub open spec fn spec_encode_frame(id: MessageId, payload: Seq<u8>) -> Seq<u8> {
    wire::u32_bytes((payload.len() + 1) as u32) + seq![spec_id_code(id)] + payload
}

/// The four-byte keep-alive frame: a zero length prefix and nothing else.
pub open spec fn spec_keepalive_frame() -> Seq<u8> {
    wire::u32_bytes(0)
}

/// What a complete frame denotes: `None` for a keep-alive, the id and
/// payload otherwise; no value if the frame length does not match its
/// prefix.
pub open spec fn spec_decode_frame(s: Seq<u8>) -> Option<Option<(MessageId, Seq<u8>)>> {
    if s.len() < 4 {
        None
    } else {
        let n = wire::be_u32(s.subrange(0, 4)) as int;
        if n == 0 {
            if s.len() == 4 {
                Some(None)
            } else {
                None
            }
        } else if s.len() == 4 + n {
            Some(Some((spec_id_of(s[4]), s.skip(5))))
        } else {
            None
        }
    }
}

impl Message {
    /// Frames this message: big-endian length prefix, id byte, payload.
    pub fn encode(&self) -> (frame: Vec<u8>)
        requires
            self.payload@.len() + 1 <= u32::MAX,
        ensures
            frame@ == spec_encode_frame(self.id, self.payload@),
    {
        let mut frame: Vec<u8> = Vec::new();
        let n = self.payload.len() as u32 + 1;
        wire::push_u32(&mut frame, n);
        frame.push(self.id.to_u8());
        wire::push_bytes(&mut frame, self.payload.as_slice());
        assert(frame@ =~= spec_encode_frame(self.id, self.payload@));
        frame
    }

    /// The frame a keep-alive is sent as.
    pub fn keepalive() -> (frame: Vec<u8>)
        ensures
            frame@ == spec_keepalive_frame(),
    {
        let mut frame: Vec<u8> = Vec::new();
        wire::push_u32(&mut frame, 0);
        frame
    }

    /// Parses one complete frame: `Ok(None)` for a keep-alive, the message
    /// otherwise; a frame whose length disagrees with its prefix is a
    /// protocol error.
    pub fn decode(frame: &[u8]) -> (r: Result<Option<Message>, Error>)
        ensures
            match r {
                Ok(Some(m)) => spec_decode_frame(frame@) == Some(Some((m.id, m.payload@))),
                Ok(None) => spec_decode_frame(frame@) == Some(None::<(MessageId, Seq<u8>)>),
                Err(e) => spec_decode_frame(frame@) is None && e == Error::PeerProtocol,
            },
    {
        if frame.len() < 4 {
            return Err(Error::PeerProtocol);
        }
        let n = wire::read_u32(frame, 0);
        if n == 0 {
            if frame.len() == 4 {
                return Ok(None);
            }
            return Err(Error::PeerProtocol);
        }
        if frame.len() - 4 != n as usize {
            return Err(Error::PeerProtocol);
        }
        let id = MessageId::from_u8(frame[4]);
        let payload = vstd::slice::slice_to_vec(
            vstd::slice::slice_subrange(frame, 5, frame.len()),
        );
        proof {
            assert(payload@ =~= frame@.skip(5));
        }
        Ok(Some(Message { id, payload }))
    }
}

/// Decoding inverts framing for every canonical message.
pub proof fn lemma_frame_round_trip(id: MessageId, payload: Seq<u8>)
    requires
        payload.len() + 1 <= u32::MAX,
        id.canonical(),
    ensures
        spec_decode_frame(spec_encode_frame(id, payload)) == Some(Some((id, payload))),
{
    let s = spec_encode_frame(id, payload);
    let n = (payload.len() + 1) as u32;
    assert(s.subrange(0, 4) =~= wire::u32_bytes(n));
    wire::lemma_u32_round_trip(n);
    assert(s[4] == spec_id_code(id));
    assert(s.skip(5) =~= payload);
    lemma_id_round_trip(id);
}

/// What the session decides to do with a message received while it waits
/// for a requested block.
#[derive(Debug)]
pub enum BlockOutcome {
    /// The block arrived: hand it to the scheduler's result sink.
    Delivered(Response),
    /// The peer choked us: the block index goes back on the shared queue.
    Requeue,
    /// A stale or irrelevant message: keep waiting.
    Ignored,
}

/// The per-peer session state that survives between messages.  The owning
/// application pairs it with the actual TCP connection.
#[derive(Debug, Clone)]
pub struct Peer {
    /// True from the start of the session until an Unchoke is seen, and
    /// again after any Choke.
    pub choked: bool,
    /// Whether Interested has been sent on this session already.
    pub interested_sent: bool,
    /// What the remote claimed to hold in its Bitfield message.
    pub bitfield: Bitfield,
}

impl Peer {
    /// A fresh session around a received bitfield: choked, not interested.
    pub fn new(bitfield: Bitfield) -> (p: Peer)
        ensures
            p.choked,
            !p.interested_sent,
            p.bitfield@ == bitfield@,
    {
        Peer { choked: true, interested_sent: false, bitfield }
    }

    /// Whether the remote claims piece `piece_i`.
    pub fn has_piece(&self, piece_i: usize) -> (r: bool)
        ensures
            r == spec_has_piece(self.bitfield@, piece_i as int),
    {
        self.bitfield.has_piece(piece_i)
    }

    /// Records that Interested is being sent; returns whether it still has
    /// to go out on the wire.
    pub fn mark_interested(&mut self) -> (send: bool)
        ensures
            final(self).interested_sent,
            send == !old(self).interested_sent,
            final(self).choked == old(self).choked,
            final(self).bitfield@ == old(self).bitfield@,
    {
        let send = !self.interested_sent;
        self.interested_sent = true;
        send
    }

    /// One message observed while waiting to be unchoked: Unchoke clears the
    /// flag, everything else leaves the session choked.
    pub fn on_idle_message(&mut self, m: &Message)
        requires
            old(self).choked,
        ensures
            final(self).choked == (m.id != MessageId::Unchoke),
            final(self).interested_sent == old(self).interested_sent,
            final(self).bitfield@ == old(self).bitfield@,
    {
        if matches!(m.id, MessageId::Unchoke) {
            self.choked = false;
        }
    }

    /// One message observed while block `b` of piece `piece_index` is
    /// outstanding.  A Choke returns the block to the queue; a Piece for
    /// exactly this block is delivered; a Piece for anything else is stale
    /// and ignored; a malformed or empty Piece fails the session; any other
    /// id is ignored.
    pub fn on_block_message(&mut self, piece_index: u32, b: u32, piece_length: u32, m: &Message)
        -> (r: Result<BlockOutcome, Error>)
        requires
            0 <= b < block::spec_num_blocks(piece_length as int),
        ensures
            final(self).interested_sent == old(self).interested_sent,
            final(self).bitfield@ == old(self).bitfield@,
            final(self).choked == (old(self).choked || m.id == MessageId::Choke),
            m.id == MessageId::Choke ==> (r matches Ok(o) && o is Requeue),
            m.id == MessageId::Piece ==> match block::spec_decode_piece(m.payload@) {
                Option::None => r matches Err(e) && e == Error::PeerProtocol,
                Option::Some(parts) => {
                    if parts.2.len() == 0 {
                        r matches Err(e) && e == Error::PeerProtocol
                    } else if parts.0 != piece_index || parts.1 != b * (BLOCK_SIZE as int) {
                        r matches Ok(o) && o is Ignored
                    } else {
                        r matches Ok(o) && o matches BlockOutcome::Delivered(res)
                            && res.spec_index() == piece_index
                            && res.spec_begin() == b * (BLOCK_SIZE as int)
                            && res.spec_block() == parts.2
                    }
                },
            },
            m.id != MessageId::Choke && m.id != MessageId::Piece ==> (r matches Ok(o)
                && o is Ignored),
    {
        proof {
            block::lemma_block_bounds(piece_length as int, b as int);
        }
        match m.id {
            MessageId::Choke => {
                self.choked = true;
                Ok(BlockOutcome::Requeue)
            },
            MessageId::Piece => {
                let res = match Response::new(m.payload.as_slice()) {
                    Ok(res) => res,
                    Err(e) => {
                        return Err(e);
                    },
                };
                if res.block().len() == 0 {
                    return Err(Error::PeerProtocol);
                }
                if res.index() != piece_index || res.begin() != b * BLOCK_SIZE {
                    return Ok(BlockOutcome::Ignored);
                }
                Ok(BlockOutcome::Delivered(res))
            },
            _ => Ok(BlockOutcome::Ignored),
        }
    }
}

} // verus!
