//! Bencode, the encoding of metainfo files and HTTP tracker responses:
//! decimal integers, length-prefixed byte strings, lists and dictionaries.
//!
//! Parsing is defined by spec functions that scan the input from an index;
//! the executable parsers are proved equal to them.  Encoding is canonical:
//! no leading zeros, dictionary keys emitted in sorted order by the users
//! of this module.

use vstd::prelude::*;

verus! {

/// Whether `b` is an ASCII decimal digit.
pub open spec fn is_digit(b: u8) -> bool {
    48 <= b <= 57
}

/// Scans the digit run of `s` starting at `i`, folding the digits onto
/// `acc` most significant first; yields the folded value and the index
/// just past the run.
pub open spec fn spec_scan_nat(s: Seq<u8>, i: int, acc: int) -> (int, int)
    decreases s.len() - i,
{
    if i < 0 || i >= s.len() || !is_digit(s[i]) {
        (acc, i)
    } else {
        spec_scan_nat(s, i + 1, acc * 10 + (s[i] - 48))
    }
}

/// Scanning never loses the accumulator and never moves backwards.
pub proof fn lemma_scan_nat_grows(s: Seq<u8>, i: int, acc: int)
    requires
        acc >= 0,
    ensures
        spec_scan_nat(s, i, acc).0 >= acc,
        spec_scan_nat(s, i, acc).1 >= i,
        spec_scan_nat(s, i, acc).1 <= s.len() || spec_scan_nat(s, i, acc).1 == i,
    decreases s.len() - i,
{
    if !(i < 0 || i >= s.len() || !is_digit(s[i])) {
        lemma_scan_nat_grows(s, i + 1, acc * 10 + (s[i] - 48));
        assert(acc * 10 + (s[i] - 48) >= acc) by (nonlinear_arith)
            requires
                acc >= 0 && s[i] >= 48,
        ;
    }
}

/// The canonical decimal digits of `n`, most significant first, no leading
/// zeros.
pub open spec fn spec_digits(n: int) -> Seq<u8>
    recommends
        n >= 0,
    decreases n,
{
    if n < 10 {
        seq![(48 + if n >= 0 { n } else { 0 }) as u8]
    } else {
        spec_digits(n / 10) + seq![(48 + n % 10) as u8]
    }
}

/// Ten to the `k`.
pub open spec fn pow10(k: int) -> int
    decreases k,
{
    if k <= 0 {
        1int
    } else {
        10 * pow10(k - 1)
    }
}

/// Every canonical digit string is non-empty and all digits.
pub proof fn lemma_digits_are_digits(n: int)
    requires
        n >= 0,
    ensures
        spec_digits(n).len() >= 1,
        forall|k: int| 0 <= k < spec_digits(n).len() ==> is_digit(#[trigger] spec_digits(n)[k]),
    decreases n,
{
    if n >= 10 {
        lemma_digits_are_digits(n / 10);
    }
}

/// Scanning a region that holds exactly the digits of `n` folds `n` onto
/// the accumulator and continues at the end of the region.
pub proof fn lemma_scan_digits_partial(s: Seq<u8>, i: int, acc: int, n: int)
    requires
        n >= 0,
        acc >= 0,
        0 <= i,
        i + spec_digits(n).len() <= s.len(),
        s.subrange(i, i + spec_digits(n).len() as int) == spec_digits(n),
    ensures
        spec_scan_nat(s, i, acc) == spec_scan_nat(
            s,
            i + spec_digits(n).len(),
            acc * pow10(spec_digits(n).len() as int) + n,
        ),
    decreases n,
{
    let ds = spec_digits(n);
    let k = ds.len() as int;
    assert(s.subrange(i, i + k) == ds);
    if n < 10 {
        assert(s[i] == ds[0]) by {
            assert(s.subrange(i, i + k)[0] == ds[0]);
        }
        assert(is_digit(s[i]));
        assert(spec_scan_nat(s, i, acc) == spec_scan_nat(s, i + 1, acc * 10 + n));
        assert(pow10(0) == 1);
        assert(pow10(1) == 10);
    } else {
        let hs = spec_digits(n / 10);
        let hk = hs.len() as int;
        assert(ds == hs + seq![(48 + n % 10) as u8]);
        assert(s.subrange(i, i + hk) =~= hs) by {
            assert forall|m: int| 0 <= m < hk implies s.subrange(i, i + hk)[m] == hs[m] by {
                assert(s.subrange(i, i + hk)[m] == s[i + m]);
                assert(s.subrange(i, i + k)[m] == s[i + m]);
                assert(s.subrange(i, i + k)[m] == ds[m]);
                assert(ds[m] == hs[m]);
            }
        }
        lemma_scan_digits_partial(s, i, acc, n / 10);
        let mid = acc * pow10(hk) + n / 10;
        lemma_pow10_pos(hk);
        assert(mid >= 0) by (nonlinear_arith)
            requires
                acc >= 0,
                n >= 10,
                pow10(hk) >= 1,
                mid == acc * pow10(hk) + n / 10,
        ;
        assert(s[i + hk] == ds[k - 1]) by {
            assert(s.subrange(i, i + k)[k - 1] == ds[k - 1]);
            assert(s.subrange(i, i + k)[k - 1] == s[i + k - 1]);
            assert(hk == k - 1);
        }
        assert(is_digit(s[i + hk]));
        assert(spec_scan_nat(s, i + hk, mid) == spec_scan_nat(s, i + hk + 1, mid * 10 + (n % 10)));
        assert(pow10(k) == 10 * pow10(k - 1));
        assert(mid * 10 + n % 10 == acc * pow10(k) + n) by (nonlinear_arith)
            requires
                mid == acc * pow10(hk) + n / 10,
                hk == k - 1,
                pow10(k) == 10 * pow10(hk),
                n >= 10,
                n / 10 * 10 + n % 10 == n,
        ;
    }
}

/// Ten to the `k` is positive.
pub proof fn lemma_pow10_pos(k: int)
    ensures
        pow10(k) >= 1,
    decreases k,
{
    if k > 0 {
        lemma_pow10_pos(k - 1);
    }
}

/// Scanning from the start of a region holding exactly the digits of `n`,
/// with nothing but a non-digit (or the end) after it, yields `n` and
/// stops at the region's end.
pub proof fn lemma_scan_digits(s: Seq<u8>, i: int, n: int)
    requires
        n >= 0,
        0 <= i,
        i + spec_digits(n).len() <= s.len(),
        s.subrange(i, i + spec_digits(n).len() as int) == spec_digits(n),
        i + spec_digits(n).len() == s.len() || !is_digit(s[i + spec_digits(n).len()]),
    ensures
        spec_scan_nat(s, i, 0) == (n, i + spec_digits(n).len() as int),
{
    lemma_scan_digits_partial(s, i, 0, n);
    let e = i + spec_digits(n).len() as int;
    assert(0 * pow10(spec_digits(n).len() as int) + n == n) by (nonlinear_arith);
    assert(spec_scan_nat(s, e, n) == (n, e));
}

/// The parsed form of a length-prefixed byte string at `i`: its contents
/// and the index just past it.
pub open spec fn spec_parse_bytestring(s: Seq<u8>, i: int) -> Option<(Seq<u8>, int)> {
    let scanned = spec_scan_nat(s, i, 0);
    let n = scanned.0;
    let e = scanned.1;
    if e == i || n > usize::MAX {
        None
    } else if e < s.len() && s[e] == 58 && e + 1 + n <= s.len() {
        Some((s.subrange(e + 1, e + 1 + n), e + 1 + n))
    } else {
        None
    }
}

/// The parsed form of an integer `i...e` at `i`: its value and the index
/// just past the closing `e`.  Values beyond `i64` magnitude are refused.
pub open spec fn spec_parse_int(s: Seq<u8>, i: int) -> Option<(int, int)> {
    if 0 <= i < s.len() && s[i] == 105 {
        if i + 1 < s.len() && s[i + 1] == 45 {
            let scanned = spec_scan_nat(s, i + 2, 0);
            let n = scanned.0;
            let e = scanned.1;
            if e == i + 2 || n > i64::MAX {
                None
            } else if e < s.len() && s[e] == 101 {
                Some((-n, e + 1))
            } else {
                None
            }
        } else {
            let scanned = spec_scan_nat(s, i + 1, 0);
            let n = scanned.0;
            let e = scanned.1;
            if e == i + 1 || n > i64::MAX {
                None
            } else if e < s.len() && s[e] == 101 {
                Some((n, e + 1))
            } else {
                None
            }
        }
    } else {
        None
    }
}

/// The index just past the bencoded value at `i`, whatever it is, or
/// nothing if no well-formed value starts there.
pub open spec fn spec_skip_value(s: Seq<u8>, i: int) -> Option<int>
    decreases s.len() - i, 0int,
{
    if i < 0 || i >= s.len() {
        None
    } else if is_digit(s[i]) {
        match spec_parse_bytestring(s, i) {
            Some(p) => Some(p.1),
            None => None,
        }
    } else if s[i] == 105 {
        match spec_parse_int(s, i) {
            Some(p) => Some(p.1),
            None => None,
        }
    } else if s[i] == 108 || s[i] == 100 {
        spec_skip_items(s, i + 1)
    } else {
        None
    }
}

/// The index just past the `e` that closes a run of bencoded values
/// starting at `i`, as inside a list or a dictionary.
pub open spec fn spec_skip_items(s: Seq<u8>, i: int) -> Option<int>
    decreases s.len() - i, 1int,
{
    if i < 0 || i >= s.len() {
        None
    } else if s[i] == 101 {
        Some(i + 1)
    } else {
        match spec_skip_value(s, i) {
            None => None,
            Some(e) => {
                if e <= i || e > s.len() {
                    None
                } else {
                    spec_skip_items(s, e)
                }
            },
        }
    }
}

/// A parsed byte string ends after where it starts.
pub proof fn lemma_parse_bytestring_advances(s: Seq<u8>, i: int)
    requires
        spec_parse_bytestring(s, i) matches Some(p),
    ensures
        spec_parse_bytestring(s, i) matches Some(p) && i < p.1 <= s.len(),
{
    lemma_scan_nat_grows(s, i, 0);
}

/// A parsed integer ends after where it starts.
pub proof fn lemma_parse_int_advances(s: Seq<u8>, i: int)
    requires
        spec_parse_int(s, i) matches Some(p),
    ensures
        spec_parse_int(s, i) matches Some(p) && i < p.1 <= s.len(),
{
    if 0 <= i < s.len() && s[i] == 105 {
        if i + 1 < s.len() && s[i + 1] == 45 {
            lemma_scan_nat_grows(s, i + 2, 0);
        } else {
            lemma_scan_nat_grows(s, i + 1, 0);
        }
    }
}

/// A skipped value ends after where it starts.
pub proof fn lemma_skip_value_advances(s: Seq<u8>, i: int)
    ensures
        spec_skip_value(s, i) matches Some(e) ==> i < e <= s.len(),
        spec_skip_items(s, i) matches Some(e) ==> i < e <= s.len(),
    decreases s.len() - i, 2int,
{
    if 0 <= i < s.len() {
        if is_digit(s[i]) {
            if spec_parse_bytestring(s, i) is Some {
                lemma_parse_bytestring_advances(s, i);
            }
        } else if s[i] == 105 {
            if spec_parse_int(s, i) is Some {
                lemma_parse_int_advances(s, i);
            }
        } else if s[i] == 108 || s[i] == 100 {
            lemma_skip_value_advances(s, i + 1);
        }
        if s[i] != 101 {
            match spec_skip_value(s, i) {
                Some(e) => {
                    lemma_skip_value_advances_value_only(s, i);
                    if i < e {
                        lemma_skip_value_advances(s, e);
                    }
                },
                None => {},
            }
        }
    }
}

/// Helper: just the value half, to seed the items induction.
proof fn lemma_skip_value_advances_value_only(s: Seq<u8>, i: int)
    ensures
        spec_skip_value(s, i) matches Some(e) ==> i < e <= s.len(),
    decreases s.len() - i, 1int,
{
    if 0 <= i < s.len() {
        if is_digit(s[i]) {
            if spec_parse_bytestring(s, i) is Some {
                lemma_parse_bytestring_advances(s, i);
            }
        } else if s[i] == 105 {
            if spec_parse_int(s, i) is Some {
                lemma_parse_int_advances(s, i);
            }
        } else if s[i] == 108 || s[i] == 100 {
            lemma_skip_items_advances(s, i + 1);
        }
    }
}

/// Helper: just the items half, by mutual induction with the value half.
proof fn lemma_skip_items_advances(s: Seq<u8>, i: int)
    ensures
        spec_skip_items(s, i) matches Some(e) ==> i < e <= s.len(),
    decreases s.len() - i, 2int,
{
    if 0 <= i < s.len() && s[i] != 101 {
        match spec_skip_value(s, i) {
            Some(e) => {
                lemma_skip_value_advances_value_only(s, i);
                if i < e {
                    lemma_skip_items_advances(s, e);
                }
            },
            None => {},
        }
    }
}

/// Scans a decimal run, exactly as `spec_scan_nat` from a zero
/// accumulator; `None` when the run's value exceeds `u64`.
pub fn scan_nat(s: &[u8], pos: usize) -> (r: Option<(u64, usize)>)
    requires
        pos <= s@.len(),
    ensures
        match r {
            Some(p) => spec_scan_nat(s@, pos as int, 0) == (p.0 as int, p.1 as int) && pos <= p.1
                <= s@.len(),
            None => spec_scan_nat(s@, pos as int, 0).0 > u64::MAX,
        },
{
    let mut val: u64 = 0;
    let mut p = pos;
    while p < s.len() && 48 <= s[p] && s[p] <= 57
        invariant
            pos <= p <= s@.len(),
            spec_scan_nat(s@, pos as int, 0) == spec_scan_nat(s@, p as int, val as int),
        ensures
            pos <= p <= s@.len(),
            (p == s@.len() || !is_digit(s@[p as int]) || val as int * 10 + (s@[p as int] - 48)
                > u64::MAX),
            spec_scan_nat(s@, pos as int, 0) == spec_scan_nat(s@, p as int, val as int),
        decreases s@.len() - p,
    {
        let d = s[p] - 48;
        if val > (u64::MAX - d as u64) / 10 {
            proof {
                assert(val * 10 + d > u64::MAX) by (nonlinear_arith)
                    requires
                        val > (u64::MAX - d as u64) / 10 && 0 <= d <= 9 && (u64::MAX - d as u64)
                            / 10 * 10 + (u64::MAX - d as u64) % 10 == u64::MAX - d as u64 && (
                        u64::MAX - d as u64) % 10 < 10,
                ;
            }
            break;
        }
        val = val * 10 + d as u64;
        p = p + 1;
    }
    proof {
        lemma_scan_nat_grows(s@, p as int, val as int);
    }
    if p < s.len() && 48 <= s[p] && s[p] <= 57 {
        proof {
            assert(spec_scan_nat(s@, p as int, val as int) == spec_scan_nat(
                s@,
                p as int + 1,
                val as int * 10 + (s@[p as int] - 48),
            ));
            lemma_scan_nat_grows(s@, p as int + 1, val as int * 10 + (s@[p as int] - 48));
        }
        return None;
    }
    Some((val, p))
}

/// Parses a length-prefixed byte string, exactly as
/// `spec_parse_bytestring`.
pub fn parse_bytestring(s: &[u8], pos: usize) -> (r: Option<(Vec<u8>, usize)>)
    requires
        pos <= s@.len(),
    ensures
        match r {
            Some(p) => spec_parse_bytestring(s@, pos as int) matches Some(q) && q.0 == p.0@ && q.1
                == p.1 as int && pos < p.1 <= s@.len(),
            None => spec_parse_bytestring(s@, pos as int) is None,
        },
{
    let scanned = match scan_nat(s, pos) {
        Some(sc) => sc,
        None => {
            return None;
        },
    };
    let n = scanned.0;
    let e = scanned.1;
    if e == pos {
        return None;
    }
    if n > usize::MAX as u64 {
        return None;
    }
    let n = n as usize;
    if e >= s.len() || s[e] != 58 {
        return None;
    }
    if n > s.len() - (e + 1) {
        return None;
    }
    let content = vstd::slice::slice_to_vec(vstd::slice::slice_subrange(s, e + 1, e + 1 + n));
    Some((content, e + 1 + n))
}

/// Parses an integer frame `i...e`, exactly as `spec_parse_int`.
pub fn parse_int(s: &[u8], pos: usize) -> (r: Option<(i64, usize)>)
    requires
        pos <= s@.len(),
    ensures
        match r {
            Some(p) => spec_parse_int(s@, pos as int) == Some((p.0 as int, p.1 as int)) && pos
                < p.1 <= s@.len(),
            None => spec_parse_int(s@, pos as int) is None,
        },
{
    if pos >= s.len() || s[pos] != 105 {
        return None;
    }
    let negative = pos + 1 < s.len() && s[pos + 1] == 45;
    let start = if negative {
        pos + 2
    } else {
        pos + 1
    };
    let scanned = match scan_nat(s, start) {
        Some(sc) => sc,
        None => {
            return None;
        },
    };
    let n = scanned.0;
    let e = scanned.1;
    if e == start {
        return None;
    }
    if n > i64::MAX as u64 {
        return None;
    }
    if e >= s.len() || s[e] != 101 {
        return None;
    }
    if negative {
        Some((-(n as i64), e + 1))
    } else {
        Some((n as i64, e + 1))
    }
}

/// Steps past one bencoded value, exactly as `spec_skip_value`.
pub fn skip_value(s: &[u8], pos: usize) -> (r: Option<usize>)
    requires
        pos <= s@.len(),
    ensures
        match r {
            Some(e) => spec_skip_value(s@, pos as int) == Some(e as int) && pos < e <= s@.len(),
            None => spec_skip_value(s@, pos as int) is None,
        },
    decreases s@.len() - pos, 0int,
{
    proof {
        lemma_skip_value_advances(s@, pos as int);
    }
    if pos >= s.len() {
        return None;
    }
    let b = s[pos];
    if 48 <= b && b <= 57 {
        match parse_bytestring(s, pos) {
            Some(p) => Some(p.1),
            None => None,
        }
    } else if b == 105 {
        match parse_int(s, pos) {
            Some(p) => Some(p.1),
            None => None,
        }
    } else if b == 108 || b == 100 {
        skip_items(s, pos + 1)
    } else {
        None
    }
}

/// Steps past a run of values and its closing `e`, exactly as
/// `spec_skip_items`.
pub fn skip_items(s: &[u8], pos: usize) -> (r: Option<usize>)
    requires
        pos <= s@.len(),
    ensures
        match r {
            Some(e) => spec_skip_items(s@, pos as int) == Some(e as int) && pos < e <= s@.len(),
            None => spec_skip_items(s@, pos as int) is None,
        },
    decreases s@.len() - pos, 1int,
{
    let mut p = pos;
    loop
        invariant
            pos <= p <= s@.len(),
            spec_skip_items(s@, pos as int) == spec_skip_items(s@, p as int),
        ensures
            pos <= p < s@.len(),
            s@[p as int] == 101,
            spec_skip_items(s@, pos as int) == Some(p as int + 1),
        decreases s@.len() - p,
    {
        proof {
            lemma_skip_value_advances(s@, p as int);
        }
        if p >= s.len() {
            proof {
                assert(spec_skip_items(s@, p as int) is None);
            }
            return None;
        }
        if s[p] == 101 {
            break;
        }
        match skip_value(s, p) {
            Some(e) => {
                p = e;
            },
            None => {
                return None;
            },
        }
    }
    let n = s.len();
    assert(p < n);
    Some(p + 1)
}

/// Appends the canonical decimal digits of `n`.
pub fn push_decimal(out: &mut Vec<u8>, n: u64)
    ensures
        final(out)@ == old(out)@ + spec_digits(n as int),
    decreases n,
{
    if n < 10 {
        out.push(48 + n as u8);
        assert(out@ =~= old(out)@ + spec_digits(n as int));
    } else {
        push_decimal(out, n / 10);
        out.push(48 + (n % 10) as u8);
        assert(out@ =~= old(out)@ + spec_digits(n as int));
    }
}

/// The canonical image of an integer: `i`, the sign and digits, `e`.
pub open spec fn spec_enc_int(n: int) -> Seq<u8> {
    if n < 0 {
        seq![105u8, 45u8] + spec_digits(-n) + seq![101u8]
    } else {
        seq![105u8] + spec_digits(n) + seq![101u8]
    }
}

/// The canonical image of a byte string: decimal length, `:`, the bytes.
pub open spec fn spec_enc_bytes(b: Seq<u8>) -> Seq<u8> {
    spec_digits(b.len() as int) + seq![58u8] + b
}

/// Appends the canonical integer frame for `n`.
pub fn push_int(out: &mut Vec<u8>, n: i64)
    requires
        n > i64::MIN,
    ensures
        final(out)@ == old(out)@ + spec_enc_int(n as int),
{
    out.push(105);
    if n < 0 {
        out.push(45);
        push_decimal(out, (-n) as u64);
    } else {
        push_decimal(out, n as u64);
    }
    out.push(101);
    assert(out@ =~= old(out)@ + spec_enc_int(n as int));
}

/// Appends the canonical byte-string frame for `b`.
pub fn push_bytestring(out: &mut Vec<u8>, b: &[u8])
    ensures
        final(out)@ == old(out)@ + spec_enc_bytes(b@),
{
    push_decimal(out, b.len() as u64);
    out.push(58);
    crate::wire::push_bytes(out, b);
    assert(out@ =~= old(out)@ + spec_enc_bytes(b@));
}

/// A region of `s` that holds `x + y` holds `x` and then `y`.
pub proof fn lemma_region_split(s: Seq<u8>, i: int, x: Seq<u8>, y: Seq<u8>)
    requires
        0 <= i,
        i + x.len() + y.len() <= s.len(),
        s.subrange(i, i + x.len() + y.len()) == x + y,
    ensures
        s.subrange(i, i + x.len() as int) == x,
        s.subrange(i + x.len(), i + x.len() + y.len()) == y,
{
    let both = s.subrange(i, i + x.len() + y.len());
    assert(s.subrange(i, i + x.len() as int) =~= x) by {
        assert forall|m: int| 0 <= m < x.len() implies s.subrange(i, i + x.len() as int)[m]
            == x[m] by {
            assert(both[m] == (x + y)[m]);
        }
    }
    assert(s.subrange(i + x.len(), i + x.len() + y.len()) =~= y) by {
        assert forall|m: int| 0 <= m < y.len() implies s.subrange(
            i + x.len(),
            i + x.len() + y.len(),
        )[m] == y[m] by {
            assert(both[x.len() + m] == (x + y)[x.len() + m]);
        }
    }
}

/// Parsing recovers a canonically encoded byte string placed at `i`, and
/// ends exactly at its end.
pub proof fn lemma_parse_enc_bytes(s: Seq<u8>, i: int, b: Seq<u8>)
    requires
        0 <= i,
        b.len() <= usize::MAX,
        i + spec_enc_bytes(b).len() <= s.len(),
        s.subrange(i, i + spec_enc_bytes(b).len() as int) == spec_enc_bytes(b),
    ensures
        spec_parse_bytestring(s, i) == Some((b, i + spec_enc_bytes(b).len() as int)),
{
    let ds = spec_digits(b.len() as int);
    let k = ds.len() as int;
    let whole = spec_enc_bytes(b);
    lemma_digits_are_digits(b.len() as int);
    assert(s.subrange(i, i + k) =~= ds) by {
        assert forall|m: int| 0 <= m < k implies s.subrange(i, i + k)[m] == ds[m] by {
            assert(s.subrange(i, i + whole.len() as int)[m] == whole[m]);
            assert(whole[m] == ds[m]);
        }
    }
    assert(s[i + k] == 58) by {
        assert(s.subrange(i, i + whole.len() as int)[k] == whole[k]);
    }
    lemma_scan_digits(s, i, b.len() as int);
    assert(s.subrange(i + k + 1, i + k + 1 + b.len() as int) =~= b) by {
        assert forall|m: int| 0 <= m < b.len() implies s.subrange(
            i + k + 1,
            i + k + 1 + b.len() as int,
        )[m] == b[m] by {
            assert(s.subrange(i, i + whole.len() as int)[k + 1 + m] == whole[k + 1 + m]);
            assert(whole[k + 1 + m] == b[m]);
        }
    }
}

/// Parsing recovers a canonically encoded integer placed at `i`, and ends
/// exactly at its end.
pub proof fn lemma_parse_enc_int(s: Seq<u8>, i: int, n: int)
    requires
        0 <= i,
        -(i64::MAX as int) <= n <= i64::MAX,
        i + spec_enc_int(n).len() <= s.len(),
        s.subrange(i, i + spec_enc_int(n).len() as int) == spec_enc_int(n),
    ensures
        spec_parse_int(s, i) == Some((n, i + spec_enc_int(n).len() as int)),
{
    let whole = spec_enc_int(n);
    let mag = if n < 0 {
        -n
    } else {
        n
    };
    let ds = spec_digits(mag);
    let k = ds.len() as int;
    lemma_digits_are_digits(mag);
    let start = if n < 0 {
        i + 2
    } else {
        i + 1
    };
    assert(s[i] == 105) by {
        assert(s.subrange(i, i + whole.len() as int)[0] == whole[0]);
    }
    if n < 0 {
        assert(s[i + 1] == 45) by {
            assert(s.subrange(i, i + whole.len() as int)[1] == whole[1]);
        }
    } else {
        assert(s[i + 1] == ds[0]) by {
            assert(s.subrange(i, i + whole.len() as int)[1] == whole[1]);
        }
        assert(s[i + 1] != 45);
    }
    assert(s.subrange(start, start + k) =~= ds) by {
        assert forall|m: int| 0 <= m < k implies s.subrange(start, start + k)[m] == ds[m] by {
            assert(s.subrange(i, i + whole.len() as int)[start - i + m] == whole[start - i + m]);
            assert(whole[start - i + m] == ds[m]);
        }
    }
    assert(s[start + k] == 101) by {
        assert(s.subrange(i, i + whole.len() as int)[start - i + k] == whole[start - i + k]);
    }
    lemma_scan_digits(s, start, mag);
}

} // verus!
