//! Big-endian byte-level encoding of the fixed-width integers used by the
//! BitTorrent wire formats, together with round-trip lemmas.
//!
//! Every multi-byte field of the peer-wire protocol and of the tracker UDP
//! protocol is big-endian; the spec functions here are the single definition
//! of that byte layout, and the executable readers and writers are proved
//! against them.

use vstd::prelude::*;

verus! {

/// Transfer unit of the peer-wire protocol: blocks are at most 16 384 bytes.
pub const BLOCK_SIZE: u32 = 16384;

/// The big-endian byte image of a `u16`.
pub open spec fn u16_bytes(x: u16) -> Seq<u8> {
    seq![(x / 0x100) as u8, (x % 0x100) as u8]
}

/// The `u16` denoted by two big-endian bytes.
pub open spec fn be_u16(s: Seq<u8>) -> u16
    recommends
        s.len() == 2,
{
    (s[0] as int * 0x100 + s[1] as int) as u16
}

/// The big-endian byte image of a `u32`.
pub open spec fn u32_bytes(x: u32) -> Seq<u8> {
    seq![
        (x / 0x100_0000) as u8,
        ((x / 0x1_0000) % 0x100) as u8,
        ((x / 0x100) % 0x100) as u8,
        (x % 0x100) as u8,
    ]
}

/// The `u32` denoted by four big-endian bytes.
pub open spec fn be_u32(s: Seq<u8>) -> u32
    recommends
        s.len() == 4,
{
    (s[0] as int * 0x100_0000 + s[1] as int * 0x1_0000 + s[2] as int * 0x100 + s[3] as int) as u32
}

/// The big-endian byte image of a `u64`.
pub open spec fn u64_bytes(x: u64) -> Seq<u8> {
    seq![
        (x / 0x100_0000_0000_0000) as u8,
        ((x / 0x1_0000_0000_0000) % 0x100) as u8,
        ((x / 0x100_0000_0000) % 0x100) as u8,
        ((x / 0x1_0000_0000) % 0x100) as u8,
        ((x / 0x100_0000) % 0x100) as u8,
        ((x / 0x1_0000) % 0x100) as u8,
        ((x / 0x100) % 0x100) as u8,
        (x % 0x100) as u8,
    ]
}

/// The `u64` denoted by eight big-endian bytes.
pub open spec fn be_u64(s: Seq<u8>) -> u64
    recommends
        s.len() == 8,
{
    (s[0] as int * 0x100_0000_0000_0000 + s[1] as int * 0x1_0000_0000_0000
        + s[2] as int * 0x100_0000_0000 + s[3] as int * 0x1_0000_0000 + s[4] as int * 0x100_0000
        + s[5] as int * 0x1_0000 + s[6] as int * 0x100 + s[7] as int) as u64
}

/// The big-endian byte image of an `i32`, in two's complement.
pub open spec fn i32_bytes(x: i32) -> Seq<u8> {
    u32_bytes(x as u32)
}

/// Decoding inverts encoding for `u16`.
pub proof fn lemma_u16_round_trip(x: u16)
    ensures
        be_u16(u16_bytes(x)) == x,
{
    assert((x / 0x100) * 0x100 + (x % 0x100) == x) by (bit_vector);
}

/// Encoding inverts decoding for two bytes.
pub proof fn lemma_u16_bytes_round_trip(s: Seq<u8>)
    requires
        s.len() == 2,
    ensures
        u16_bytes(be_u16(s)) == s,
{
    let a = s[0];
    let b = s[1];
    assert((a as u16 * 0x100 + b as u16) / 0x100 == a as u16 && (a as u16 * 0x100 + b as u16)
        % 0x100 == b as u16) by (bit_vector);
    assert(u16_bytes(be_u16(s)) =~= s);
}

/// Decoding inverts encoding for `u32`.
pub proof fn lemma_u32_round_trip(x: u32)
    ensures
        be_u32(u32_bytes(x)) == x,
{
    assert((x / 0x100_0000) * 0x100_0000 + ((x / 0x1_0000) % 0x100) * 0x1_0000 + ((x / 0x100)
        % 0x100) * 0x100 + (x % 0x100) == x) by (bit_vector);
}

/// Encoding inverts decoding for four bytes.
pub proof fn lemma_u32_bytes_round_trip(s: Seq<u8>)
    requires
        s.len() == 4,
    ensures
        u32_bytes(be_u32(s)) == s,
{
    let a = s[0];
    let b = s[1];
    let c = s[2];
    let d = s[3];
    let v = a as u32 * 0x100_0000 + b as u32 * 0x1_0000 + c as u32 * 0x100 + d as u32;
    assert({
        let v = a as u32 * 0x100_0000 + b as u32 * 0x1_0000 + c as u32 * 0x100 + d as u32;
        &&& v / 0x100_0000 == a as u32
        &&& (v / 0x1_0000) % 0x100 == b as u32
        &&& (v / 0x100) % 0x100 == c as u32
        &&& v % 0x100 == d as u32
    }) by (bit_vector);
    assert(u32_bytes(be_u32(s)) =~= s);
}

/// Decoding inverts encoding for `u64`.
pub proof fn lemma_u64_round_trip(x: u64)
    ensures
        be_u64(u64_bytes(x)) == x,
{
    assert((x / 0x100_0000_0000_0000) * 0x100_0000_0000_0000 + ((x / 0x1_0000_0000_0000) % 0x100)
        * 0x1_0000_0000_0000 + ((x / 0x100_0000_0000) % 0x100) * 0x100_0000_0000 + ((x
        / 0x1_0000_0000) % 0x100) * 0x1_0000_0000 + ((x / 0x100_0000) % 0x100) * 0x100_0000 + ((x
        / 0x1_0000) % 0x100) * 0x1_0000 + ((x / 0x100) % 0x100) * 0x100 + (x % 0x100) == x)
        by (bit_vector);
}

/// Encoding inverts decoding for eight bytes.
pub proof fn lemma_u64_bytes_round_trip(s: Seq<u8>)
    requires
        s.len() == 8,
    ensures
        u64_bytes(be_u64(s)) == s,
{
    let b0 = s[0];
    let b1 = s[1];
    let b2 = s[2];
    let b3 = s[3];
    let b4 = s[4];
    let b5 = s[5];
    let b6 = s[6];
    let b7 = s[7];
    assert({
        let v = b0 as u64 * 0x100_0000_0000_0000 + b1 as u64 * 0x1_0000_0000_0000 + b2 as u64
            * 0x100_0000_0000 + b3 as u64 * 0x1_0000_0000 + b4 as u64 * 0x100_0000 + b5 as u64
            * 0x1_0000 + b6 as u64 * 0x100 + b7 as u64;
        &&& v / 0x100_0000_0000_0000 == b0 as u64
        &&& (v / 0x1_0000_0000_0000) % 0x100 == b1 as u64
        &&& (v / 0x100_0000_0000) % 0x100 == b2 as u64
        &&& (v / 0x1_0000_0000) % 0x100 == b3 as u64
        &&& (v / 0x100_0000) % 0x100 == b4 as u64
        &&& (v / 0x1_0000) % 0x100 == b5 as u64
        &&& (v / 0x100) % 0x100 == b6 as u64
        &&& v % 0x100 == b7 as u64
    }) by (bit_vector);
    assert(u64_bytes(be_u64(s)) =~= s);
}

/// Decoding as `u32` and reinterpreting inverts `i32` encoding.
pub proof fn lemma_i32_round_trip(x: i32)
    ensures
        be_u32(i32_bytes(x)) as i32 == x,
{
    lemma_u32_round_trip(x as u32);
    assert((x as u32) as i32 == x) by (bit_vector);
}

/// Appends the two big-endian bytes of `x`.
pub fn push_u16(out: &mut Vec<u8>, x: u16)
    ensures
        final(out)@ == old(out)@ + u16_bytes(x),
{
    out.push((x / 0x100) as u8);
    out.push((x % 0x100) as u8);
    assert(out@ =~= old(out)@ + u16_bytes(x));
}

/// Appends the four big-endian bytes of `x`.
pub fn push_u32(out: &mut Vec<u8>, x: u32)
    ensures
        final(out)@ == old(out)@ + u32_bytes(x),
{
    out.push((x / 0x100_0000) as u8);
    out.push(((x / 0x1_0000) % 0x100) as u8);
    out.push(((x / 0x100) % 0x100) as u8);
    out.push((x % 0x100) as u8);
    assert(out@ =~= old(out)@ + u32_bytes(x));
}

/// Appends the eight big-endian bytes of `x`.
pub fn push_u64(out: &mut Vec<u8>, x: u64)
    ensures
        final(out)@ == old(out)@ + u64_bytes(x),
{
    out.push((x / 0x100_0000_0000_0000) as u8);
    out.push(((x / 0x1_0000_0000_0000) % 0x100) as u8);
    out.push(((x / 0x100_0000_0000) % 0x100) as u8);
    out.push(((x / 0x1_0000_0000) % 0x100) as u8);
    out.push(((x / 0x100_0000) % 0x100) as u8);
    out.push(((x / 0x1_0000) % 0x100) as u8);
    out.push(((x / 0x100) % 0x100) as u8);
    out.push((x % 0x100) as u8);
    assert(out@ =~= old(out)@ + u64_bytes(x));
}

/// Appends the four big-endian bytes of a signed `x`.
pub fn push_i32(out: &mut Vec<u8>, x: i32)
    ensures
        final(out)@ == old(out)@ + i32_bytes(x),
{
    push_u32(out, x as u32);
}

/// The lower-case hex digit of a value below 16.
pub open spec fn spec_hex_lower(n: int) -> u8 {
    if n < 10 {
        (48 + n) as u8
    } else {
        (87 + n) as u8
    }
}

/// The lower-case hex image of a byte string: two digits per byte.
pub open spec fn spec_hex_bytes(s: Seq<u8>) -> Seq<u8>
    decreases s.len(),
{
    if s.len() == 0 {
        Seq::empty()
    } else {
        seq![spec_hex_lower(s[0] as int / 16), spec_hex_lower(s[0] as int % 16)]
            + spec_hex_bytes(s.drop_first())
    }
}

/// The hex image of a non-empty string ends with its last byte's digits.
proof fn lemma_hex_bytes_unsnoc(s: Seq<u8>)
    requires
        s.len() > 0,
    ensures
        spec_hex_bytes(s) == spec_hex_bytes(s.drop_last()) + seq![
            spec_hex_lower(s.last() as int / 16),
            spec_hex_lower(s.last() as int % 16),
        ],
    decreases s.len(),
{
    if s.len() == 1 {
        assert(s.drop_first() =~= Seq::<u8>::empty());
        assert(s.drop_last() =~= Seq::<u8>::empty());
        assert(spec_hex_bytes(s) =~= spec_hex_bytes(s.drop_last()) + seq![
            spec_hex_lower(s.last() as int / 16),
            spec_hex_lower(s.last() as int % 16),
        ]);
    } else {
        lemma_hex_bytes_unsnoc(s.drop_first());
        assert(s.drop_last().drop_first() =~= s.drop_first().drop_last());
        assert(s.drop_first().last() == s.last());
        assert(spec_hex_bytes(s) =~= spec_hex_bytes(s.drop_last()) + seq![
            spec_hex_lower(s.last() as int / 16),
            spec_hex_lower(s.last() as int % 16),
        ]);
    }
}

/// The lower-case hex rendering of `data`, two digits per byte.
pub fn to_hex(data: &[u8]) -> (r: Vec<u8>)
    ensures
        r@ == spec_hex_bytes(data@),
{
    let mut r: Vec<u8> = Vec::new();
    let mut i: usize = 0;
    proof {
        assert(data@.take(0) =~= Seq::<u8>::empty());
        assert(r@ =~= spec_hex_bytes(data@.take(0)));
    }
    while i < data.len()
        invariant
            i <= data@.len(),
            r@ == spec_hex_bytes(data@.take(i as int)),
        decreases data@.len() - i,
    {
        let b = data[i];
        let hi = b / 16;
        let lo = b % 16;
        r.push(
            if hi < 10 {
                48 + hi
            } else {
                87 + hi
            },
        );
        r.push(
            if lo < 10 {
                48 + lo
            } else {
                87 + lo
            },
        );
        i = i + 1;
        proof {
            lemma_hex_bytes_unsnoc(data@.take(i as int));
            assert(data@.take(i as int).drop_last() =~= data@.take(i - 1));
            assert(data@.take(i as int).last() == data@[i - 1]);
            assert(r@ =~= spec_hex_bytes(data@.take(i as int)));
        }
    }
    proof {
        assert(data@.take(data@.len() as int) =~= data@);
    }
    r
}

/// A vector of `n` zero bytes.
pub fn zero_vec(n: usize) -> (v: Vec<u8>)
    ensures
        v@.len() == n,
        forall|i: int| 0 <= i < n ==> v@[i] == 0,
{
    let mut v: Vec<u8> = Vec::new();
    let mut k: usize = 0;
    while k < n
        invariant
            k <= n,
            v@.len() == k,
            forall|i: int| 0 <= i < k ==> v@[i] == 0,
        decreases n - k,
    {
        v.push(0);
        k = k + 1;
    }
    v
}

/// Overwrites `buf[at .. at + data.len()]` with `data`, leaving the rest of
/// `buf` as it was.
pub fn splice(buf: &mut Vec<u8>, at: usize, data: &[u8])
    requires
        at + data@.len() <= old(buf)@.len(),
    ensures
        final(buf)@.len() == old(buf)@.len(),
        final(buf)@.subrange(at as int, at + data@.len()) == data@,
        forall|i: int| 0 <= i < at ==> final(buf)@[i] == old(buf)@[i],
        forall|i: int| at + data@.len() <= i < old(buf)@.len() ==> final(buf)@[i] == old(buf)@[i],
{
    let n = buf.len();
    let mut k: usize = 0;
    while k < data.len()
        invariant
            k <= data@.len(),
            at + data@.len() <= buf@.len(),
            buf@.len() <= usize::MAX,
            buf@.len() == old(buf)@.len(),
            forall|i: int| 0 <= i < k ==> buf@[at + i] == data@[i],
            forall|i: int| 0 <= i < at ==> buf@[i] == old(buf)@[i],
            forall|i: int| at + data@.len() <= i < old(buf)@.len() ==> buf@[i] == old(buf)@[i],
        decreases data@.len() - k,
    {
        buf.set(at + k, data[k]);
        k = k + 1;
    }
    proof {
        assert(buf@.subrange(at as int, at + data@.len()) =~= data@);
    }
}

/// Whether two byte strings hold the same bytes.
pub fn bytes_eq(a: &[u8], b: &[u8]) -> (r: bool)
    ensures
        r == (a@ == b@),
{
    if a.len() != b.len() {
        proof {
            assert(a@.len() != b@.len());
        }
        return false;
    }
    let mut i: usize = 0;
    while i < a.len()
        invariant
            a@.len() == b@.len(),
            i <= a@.len(),
            forall|j: int| 0 <= j < i ==> a@[j] == b@[j],
        decreases a@.len() - i,
    {
        if a[i] != b[i] {
            return false;
        }
        i = i + 1;
    }
    proof {
        assert(a@ =~= b@);
    }
    true
}

/// Appends every byte of `data`.
pub fn push_bytes(out: &mut Vec<u8>, data: &[u8])
    ensures
        final(out)@ == old(out)@ + data@,
{
    let mut i: usize = 0;
    while i < data.len()
        invariant
            i <= data@.len(),
            out@ == old(out)@ + data@.subrange(0, i as int),
        decreases data@.len() - i,
    {
        out.push(data[i]);
        i = i + 1;
        assert(out@ =~= old(out)@ + data@.subrange(0, i as int));
    }
    assert(data@.subrange(0, data@.len() as int) =~= data@);
}

/// Reads the big-endian `u16` at `at`.
pub fn read_u16(bytes: &[u8], at: usize) -> (x: u16)
    requires
        at + 2 <= bytes@.len(),
    ensures
        x == be_u16(bytes@.subrange(at as int, at + 2)),
{
    let x = bytes[at] as u16 * 0x100 + bytes[at + 1] as u16;
    proof {
        let s = bytes@.subrange(at as int, at + 2);
        assert(s[0] == bytes@[at as int] && s[1] == bytes@[at + 1]);
    }
    x
}

/// Reads the big-endian `u32` at `at`.
pub fn read_u32(bytes: &[u8], at: usize) -> (x: u32)
    requires
        at + 4 <= bytes@.len(),
    ensures
        x == be_u32(bytes@.subrange(at as int, at + 4)),
{
    let x = bytes[at] as u32 * 0x100_0000 + bytes[at + 1] as u32 * 0x1_0000 + bytes[at + 2] as u32
        * 0x100 + bytes[at + 3] as u32;
    proof {
        let s = bytes@.subrange(at as int, at + 4);
        assert(s[0] == bytes@[at as int] && s[1] == bytes@[at + 1] && s[2] == bytes@[at + 2] && s[3]
            == bytes@[at + 3]);
    }
    x
}

/// Reads the big-endian `u64` at `at`.
pub fn read_u64(bytes: &[u8], at: usize) -> (x: u64)
    requires
        at + 8 <= bytes@.len(),
    ensures
        x == be_u64(bytes@.subrange(at as int, at + 8)),
{
    let x = bytes[at] as u64 * 0x100_0000_0000_0000 + bytes[at + 1] as u64 * 0x1_0000_0000_0000
        + bytes[at + 2] as u64 * 0x100_0000_0000 + bytes[at + 3] as u64 * 0x1_0000_0000 + bytes[at
        + 4] as u64 * 0x100_0000 + bytes[at + 5] as u64 * 0x1_0000 + bytes[at + 6] as u64 * 0x100
        + bytes[at + 7] as u64;
    proof {
        let s = bytes@.subrange(at as int, at + 8);
        assert(s[0] == bytes@[at as int] && s[1] == bytes@[at + 1] && s[2] == bytes@[at + 2] && s[3]
            == bytes@[at + 3] && s[4] == bytes@[at + 4] && s[5] == bytes@[at + 5] && s[6]
            == bytes@[at + 6] && s[7] == bytes@[at + 7]);
    }
    x
}

} // verus!
