//! Block-level transfer: sizing of the blocks that make up a piece, and the
//! bit-exact payloads of the peer-wire `Request` and `Piece` messages.

use vstd::prelude::*;

use crate::error::Error;
use crate::wire;
use crate::wire::BLOCK_SIZE;

verus! {

/// Number of blocks of a piece of `piece_length` bytes: one per started
/// 16 384-byte span.
pub open spec fn spec_num_blocks(piece_length: int) -> int {
    (piece_length + (BLOCK_SIZE - 1)) / (BLOCK_SIZE as int)
}

/// Length of block `b` of a piece of `piece_length` bytes: 16 384 for every
/// block but possibly the last, which covers what remains.
pub open spec fn spec_block_size(piece_length: int, b: int) -> int {
    if (b + 1) * (BLOCK_SIZE as int) <= piece_length {
        BLOCK_SIZE as int
    } else {
        piece_length - b * (BLOCK_SIZE as int)
    }
}

/// How many blocks a piece of `piece_length` bytes is split into.
pub fn num_blocks(piece_length: u32) -> (n: u32)
    ensures
        n == spec_num_blocks(piece_length as int),
{
    if piece_length % BLOCK_SIZE == 0 {
        piece_length / BLOCK_SIZE
    } else {
        piece_length / BLOCK_SIZE + 1
    }
}

/// The length of block `b` of a piece of `piece_length` bytes.
pub fn block_size_for(piece_length: u32, b: u32) -> (size: u32)
    requires
        0 <= b < spec_num_blocks(piece_length as int),
    ensures
        size == spec_block_size(piece_length as int, b as int),
        1 <= size <= BLOCK_SIZE,
{
    proof {
        lemma_block_bounds(piece_length as int, b as int);
    }
    let begin = b * BLOCK_SIZE;
    let remaining = piece_length - begin;
    if remaining >= BLOCK_SIZE {
        BLOCK_SIZE
    } else {
        remaining
    }
}

/// A block inside the bounds of its piece starts strictly before the piece
/// ends and has a positive length of at most 16 384 bytes.
pub proof fn lemma_block_bounds(piece_length: int, b: int)
    requires
        0 <= b < spec_num_blocks(piece_length),
    ensures
        b * (BLOCK_SIZE as int) < piece_length,
        1 <= spec_block_size(piece_length, b) <= BLOCK_SIZE as int,
        b * (BLOCK_SIZE as int) + spec_block_size(piece_length, b) <= piece_length,
{
    let k = BLOCK_SIZE as int;
    let nb = spec_num_blocks(piece_length);
    assert((nb - 1) * k <= piece_length - 1) by {
        vstd::arithmetic::div_mod::lemma_fundamental_div_mod(piece_length + (k - 1), k);
        assert((nb - 1) * k == nb * k - k) by (nonlinear_arith);
    }
    assert(b * k <= (nb - 1) * k) by (nonlinear_arith)
        requires
            b <= nb - 1,
            k > 0,
    ;
    assert((b + 1) * k == b * k + k) by (nonlinear_arith);
}

/// A piece shorter than one block is exactly one block, covering the whole
/// piece.
pub proof fn lemma_short_piece_single_block(piece_length: int)
    requires
        0 < piece_length < BLOCK_SIZE as int,
    ensures
        spec_num_blocks(piece_length) == 1,
        spec_block_size(piece_length, 0) == piece_length,
{
}

/// A `Request` message payload: ask for `length` bytes at offset `begin` of
/// piece `piece_index`.
#[derive(Debug, Clone, Copy, PartialEq, Eq, Structural)]
pub struct Request {
    pub piece_index: u32,
    pub begin: u32,
    pub length: u32,
}

/// The 12-byte image of a `Request` payload.
pub open spec fn spec_encode_request(r: Request) -> Seq<u8> {
    wire::u32_bytes(r.piece_index) + wire::u32_bytes(r.begin) + wire::u32_bytes(r.length)
}

/// The `Request` denoted by a 12-byte payload, or nothing.
pub open spec fn spec_decode_request(s: Seq<u8>) -> Option<Request> {
    if s.len() == 12 {
        Some(
            Request {
                piece_index: wire::be_u32(s.subrange(0, 4)),
                begin: wire::be_u32(s.subrange(4, 8)),
                length: wire::be_u32(s.subrange(8, 12)),
            },
        )
    } else {
        None
    }
}

impl Request {
    /// The request for block `b` of piece `piece_index`, whose piece is
    /// `piece_length` bytes long.
    pub fn new(piece_index: u32, b: u32, piece_length: u32) -> (r: Request)
        requires
            0 <= b < spec_num_blocks(piece_length as int),
        ensures
            r.piece_index == piece_index,
            r.begin == b * (BLOCK_SIZE as int),
            r.length == spec_block_size(piece_length as int, b as int),
    {
        proof {
            lemma_block_bounds(piece_length as int, b as int);
        }
        Request { piece_index, begin: b * BLOCK_SIZE, length: block_size_for(piece_length, b) }
    }

    /// The 12-byte wire payload of this request.
    pub fn encode(&self) -> (payload: Vec<u8>)
        ensures
            payload@ == spec_encode_request(*self),
    {
        let mut payload: Vec<u8> = Vec::new();
        wire::push_u32(&mut payload, self.piece_index);
        wire::push_u32(&mut payload, self.begin);
        wire::push_u32(&mut payload, self.length);
        assert(payload@ =~= spec_encode_request(*self));
        payload
    }

    /// Parses a 12-byte `Request` payload; any other length is a protocol
    /// error.
    pub fn decode(payload: &[u8]) -> (r: Result<Request, Error>)
        ensures
            match r {
                Ok(req) => spec_decode_request(payload@) == Some(req),
                Err(e) => spec_decode_request(payload@) is None && e == Error::PeerProtocol,
            },
    {
        if payload.len() != 12 {
            return Err(Error::PeerProtocol);
        }
        Ok(
            Request {
                piece_index: wire::read_u32(payload, 0),
                begin: wire::read_u32(payload, 4),
                length: wire::read_u32(payload, 8),
            },
        )
    }
}

/// Decoding inverts encoding for every `Request` payload.
pub proof fn lemma_request_round_trip(r: Request)
    ensures
        spec_decode_request(spec_encode_request(r)) == Some(r),
{
    let s = spec_encode_request(r);
    assert(s.subrange(0, 4) =~= wire::u32_bytes(r.piece_index));
    assert(s.subrange(4, 8) =~= wire::u32_bytes(r.begin));
    assert(s.subrange(8, 12) =~= wire::u32_bytes(r.length));
    wire::lemma_u32_round_trip(r.piece_index);
    wire::lemma_u32_round_trip(r.begin);
    wire::lemma_u32_round_trip(r.length);
}

/// A `Piece` message payload: `data` delivered at offset `begin` of piece
/// `index`.
#[derive(Debug, Clone, PartialEq, Eq)]
pub struct Response {
    index: u32,
    begin: u32,
    block: Vec<u8>,
}

/// The wire image of a `Piece` payload.
pub open spec fn spec_encode_piece(index: u32, begin: u32, data: Seq<u8>) -> Seq<u8> {
    wire::u32_bytes(index) + wire::u32_bytes(begin) + data
}

/// The fields denoted by a `Piece` payload of at least 8 bytes, or nothing.
pub open spec fn spec_decode_piece(s: Seq<u8>) -> Option<(u32, u32, Seq<u8>)> {
    if s.len() >= 8 {
        Some((wire::be_u32(s.subrange(0, 4)), wire::be_u32(s.subrange(4, 8)), s.skip(8)))
    } else {
        None
    }
}

impl Response {
    /// The piece index, for contracts.
    pub closed spec fn spec_index(&self) -> u32 {
        self.index
    }

    /// The block offset, for contracts.
    pub closed spec fn spec_begin(&self) -> u32 {
        self.begin
    }

    /// The delivered bytes, for contracts.
    pub closed spec fn spec_block(&self) -> Seq<u8> {
        self.block@
    }

    /// Parses a `Piece` payload; fewer than 8 bytes is a protocol error.
    pub fn new(payload: &[u8]) -> (r: Result<Response, Error>)
        ensures
            match r {
                Ok(res) => spec_decode_piece(payload@) == Some(
                    (res.spec_index(), res.spec_begin(), res.spec_block()),
                ),
                Err(e) => spec_decode_piece(payload@) is None && e == Error::PeerProtocol,
            },
    {
        if payload.len() < 8 {
            return Err(Error::PeerProtocol);
        }
        let index = wire::read_u32(payload, 0);
        let begin = wire::read_u32(payload, 4);
        let block = vstd::slice::slice_to_vec(
            vstd::slice::slice_subrange(payload, 8, payload.len()),
        );
        proof {
            assert(block@ =~= payload@.skip(8));
        }
        Ok(Response { index, begin, block })
    }

    /// Builds the payload fields directly, as a serving peer would.
    pub fn from_parts(index: u32, begin: u32, block: Vec<u8>) -> (r: Response)
        ensures
            r.spec_index() == index,
            r.spec_begin() == begin,
            r.spec_block() == block@,
    {
        Response { index, begin, block }
    }

    /// The wire payload of this response.
    pub fn encode(&self) -> (payload: Vec<u8>)
        ensures
            payload@ == spec_encode_piece(self.spec_index(), self.spec_begin(), self.spec_block()),
    {
        let mut payload: Vec<u8> = Vec::new();
        wire::push_u32(&mut payload, self.index);
        wire::push_u32(&mut payload, self.begin);
        wire::push_bytes(&mut payload, self.block.as_slice());
        assert(payload@ =~= spec_encode_piece(self.spec_index(), self.spec_begin(), self.spec_block()));
        payload
    }

    /// The piece this block belongs to.
    pub fn index(&self) -> (i: u32)
        ensures
            i == self.spec_index(),
    {
        self.index
    }

    /// The byte offset of this block within its piece.
    pub fn begin(&self) -> (b: u32)
        ensures
            b == self.spec_begin(),
    {
        self.begin
    }

    /// The delivered bytes.
    pub fn block(&self) -> (data: &Vec<u8>)
        ensures
            data@ == self.spec_block(),
    {
        &self.block
    }
}

/// Decoding inverts encoding for every `Piece` payload.
pub proof fn lemma_piece_round_trip(index: u32, begin: u32, data: Seq<u8>)
    ensures
        spec_decode_piece(spec_encode_piece(index, begin, data)) == Some((index, begin, data)),
{
    let s = spec_encode_piece(index, begin, data);
    assert(s.subrange(0, 4) =~= wire::u32_bytes(index));
    assert(s.subrange(4, 8) =~= wire::u32_bytes(begin));
    assert(s.skip(8) =~= data);
    wire::lemma_u32_round_trip(index);
    wire::lemma_u32_round_trip(begin);
}

} // verus!
