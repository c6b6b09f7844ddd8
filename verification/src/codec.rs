//! Byte-level canonical encoding shared by the block and genesis documents.
//!
//! The chain's canonical block encoding is a fixed-order textual document;
//! this module defines its primitive pieces: lowercase hexadecimal for byte
//! payloads and decimal for unsigned integers, together with the exact
//! parsers for both.

use vstd::prelude::*;

verus! {

/// ASCII decimal digit `0`..=`9`.
pub open spec fn is_digit(b: u8) -> bool {
    0x30 <= b <= 0x39
}

/// ASCII lowercase hexadecimal digit `0`..=`9`, `a`..=`f`.
pub open spec fn is_lower_hex(b: u8) -> bool {
    is_digit(b) || (0x61 <= b <= 0x66)
}

/// The ASCII byte encoding the hexadecimal digit `n`.
pub open spec fn hex_digit_of(n: u8) -> u8
    recommends
        n < 16,
{
    if n < 10 {
        (0x30 + n) as u8
    } else {
        (0x57 + n) as u8
    }
}

/// The numeric value of an ASCII lowercase hexadecimal digit.
pub open spec fn hex_val(b: u8) -> u8
    recommends
        is_lower_hex(b),
{
    if b <= 0x39 {
        (b - 0x30) as u8
    } else {
        (b - 0x57) as u8
    }
}

/// Lowercase hexadecimal text for a byte sequence: two digits per byte,
/// high nibble first.
pub open spec fn hex_of(bs: Seq<u8>) -> Seq<u8> {
    Seq::new(
        bs.len() * 2,
        |i: int| if i % 2 == 0 { hex_digit_of(bs[i / 2] / 16) } else { hex_digit_of(bs[i / 2] % 16) },
    )
}

/// The bytes spelled by a run of hexadecimal digits (of even length).
pub open spec fn unhex(s: Seq<u8>) -> Seq<u8> {
    Seq::new(s.len() / 2, |i: int| (hex_val(s[2 * i]) * 16 + hex_val(s[2 * i + 1])) as u8)
}

/// Hexadecimal text spells only hexadecimal digits.
pub proof fn lemma_hex_of_is_hex(bs: Seq<u8>)
    ensures
        forall|i: int| 0 <= i < hex_of(bs).len() ==> is_lower_hex(#[trigger] hex_of(bs)[i]),
{
    assert forall|i: int| 0 <= i < hex_of(bs).len() implies is_lower_hex(#[trigger] hex_of(bs)[i]) by {
        let b = bs[i / 2];
        assert(b / 16 < 16 && b % 16 < 16);
    }
}

/// Parsing hexadecimal text recovers the bytes it was made from.
pub proof fn lemma_unhex_hex_of(bs: Seq<u8>)
    ensures
        unhex(hex_of(bs)) == bs,
{
    assert forall|i: int| 0 <= i < bs.len() implies unhex(hex_of(bs))[i] == bs[i] by {
        let b = bs[i];
        assert(hex_of(bs)[2 * i] == hex_digit_of(b / 16));
        assert(hex_of(bs)[2 * i + 1] == hex_digit_of(b % 16));
        assert(hex_val(hex_digit_of(b / 16)) == b / 16);
        assert(hex_val(hex_digit_of(b % 16)) == b % 16);
    }
    assert(unhex(hex_of(bs)) =~= bs);
}

/// Appends the two hexadecimal digits of one byte.
fn push_hex_byte(out: &mut Vec<u8>, b: u8)
    ensures
        final(out)@ == old(out)@ + seq![hex_digit_of(b / 16), hex_digit_of(b % 16)],
{
    let hi = b / 16;
    let lo = b % 16;
    out.push(if hi < 10 { 0x30 + hi } else { 0x57 + hi });
    out.push(if lo < 10 { 0x30 + lo } else { 0x57 + lo });
}

/// Appends the lowercase hexadecimal text of `bs`.
pub fn push_hex(out: &mut Vec<u8>, bs: &[u8])
    ensures
        final(out)@ == old(out)@ + hex_of(bs@),
{
    let ghost base = out@;
    let mut i: usize = 0;
    while i < bs.len()
        invariant
            i <= bs@.len(),
            out@ == base + hex_of(bs@.take(i as int)),
        decreases bs@.len() - i,
    {
        push_hex_byte(out, bs[i]);
        proof {
            assert(hex_of(bs@.take(i + 1)) =~= hex_of(bs@.take(i as int)) + seq![
                hex_digit_of(bs@[i as int] / 16),
                hex_digit_of(bs@[i as int] % 16),
            ]);
        }
        i = i + 1;
    }
    proof {
        assert(bs@.take(bs@.len() as int) =~= bs@);
    }
}

/// Reads the `n` hexadecimal digits starting at `pos` back into bytes.
pub fn read_hex(s: &[u8], pos: usize, n: usize) -> (out: Vec<u8>)
    requires
        pos + n <= s@.len(),
        n % 2 == 0,
        forall|i: int| pos <= i < pos + n ==> is_lower_hex(#[trigger] s@[i]),
    ensures
        out@ == unhex(s@.subrange(pos as int, pos + n)),
{
    let slen = s.len();
    let mut out: Vec<u8> = Vec::new();
    let mut i: usize = 0;
    while i + 1 < n
        invariant
            i % 2 == 0,
            i <= n,
            pos + n <= slen == s@.len(),
            n % 2 == 0,
            forall|j: int| pos <= j < pos + n ==> is_lower_hex(#[trigger] s@[j]),
            out@ == unhex(s@.subrange(pos as int, pos + i)),
        decreases n - i,
    {
        let hi = s[pos + i];
        let lo = s[pos + i + 1];
        let hv = if hi <= 0x39 { hi - 0x30 } else { hi - 0x57 };
        let lv = if lo <= 0x39 { lo - 0x30 } else { lo - 0x57 };
        out.push(hv * 16 + lv);
        proof {
            let sub1 = s@.subrange(pos as int, pos + i + 2);
            let sub0 = s@.subrange(pos as int, pos + i as int);
            assert(hv == hex_val(s@[pos + i]));
            assert(lv == hex_val(s@[pos + i + 1]));
            assert forall|k: int| 0 <= k < sub1.len() / 2 implies unhex(sub1)[k] == out@[k] by {
                if k < sub0.len() / 2 {
                    assert(unhex(sub0)[k] == out@[k]);
                    assert(sub1[2 * k] == sub0[2 * k]);
                    assert(sub1[2 * k + 1] == sub0[2 * k + 1]);
                } else {
                    assert(2 * k == i);
                    assert(sub1[2 * k] == s@[pos + i]);
                    assert(sub1[2 * k + 1] == s@[pos + i + 1]);
                }
            }
            assert(unhex(sub1) =~= out@);
        }
        i = i + 2;
    }
    out
}

/// Decimal text for `n`: most significant digit first, no leading zeros.
pub open spec fn dec_digits(n: nat) -> Seq<u8>
    decreases n,
{
    if n < 10 {
        seq![(0x30 + n) as u8]
    } else {
        dec_digits(n / 10).push((0x30 + n % 10) as u8)
    }
}

/// The number spelled by a run of decimal digits, most significant first.
pub open spec fn dec_val(ds: Seq<u8>) -> nat
    decreases ds.len(),
{
    if ds.len() == 0 {
        0
    } else {
        dec_val(ds.drop_last()) * 10 + (if is_digit(ds.last()) {
            (ds.last() - 0x30) as nat
        } else {
            0
        })
    }
}

/// Decimal text spells only decimal digits, is never empty, and starts
/// with `0` only for the number zero itself.
pub proof fn lemma_dec_digits_shape(n: nat)
    ensures
        dec_digits(n).len() >= 1,
        forall|i: int| 0 <= i < dec_digits(n).len() ==> is_digit(#[trigger] dec_digits(n)[i]),
        n >= 1 ==> dec_digits(n)[0] != 0x30,
        n == 0 ==> dec_digits(n) == seq![0x30u8],
    decreases n,
{
    if n < 10 {
        assert(dec_digits(n) == seq![(0x30 + n) as u8]);
    } else {
        lemma_dec_digits_shape(n / 10);
        assert(dec_digits(n)[0] == dec_digits(n / 10)[0]);
    }
}

/// Parsing decimal text recovers the number it was made from.
pub proof fn lemma_dec_val_digits(n: nat)
    ensures
        dec_val(dec_digits(n)) == n,
    decreases n,
{
    if n < 10 {
        let ds = dec_digits(n);
        assert(ds.last() == (0x30 + n) as u8);
        assert(is_digit(ds.last()));
        assert(ds.drop_last() =~= Seq::<u8>::empty());
        assert(dec_val(ds) == dec_val(ds.drop_last()) * 10 + (ds.last() - 0x30) as nat);
    } else {
        lemma_dec_val_digits(n / 10);
        let ds = dec_digits(n);
        let d = (0x30 + n % 10) as u8;
        assert(ds.last() == d);
        assert(is_digit(d));
        assert(ds.drop_last() =~= dec_digits(n / 10));
        assert(dec_val(ds) == dec_val(dec_digits(n / 10)) * 10 + (d - 0x30) as nat);
        assert((n / 10) * 10 + n % 10 == n);
    }
}

/// Appends the decimal text of `n`.
pub fn push_dec(out: &mut Vec<u8>, n: u64)
    ensures
        final(out)@ == old(out)@ + dec_digits(n as nat),
{
    let ghost base = out@;
    let mut tmp: Vec<u8> = Vec::new();
    let mut m: u64 = n;
    while m >= 10
        invariant
            dec_digits(n as nat) == dec_digits(m as nat) + tmp@.reverse(),
        decreases m,
    {
        let d: u8 = 0x30 + (m % 10) as u8;
        tmp.push(d);
        proof {
            assert(dec_digits(m as nat) == dec_digits((m / 10) as nat).push(d));
            assert(tmp@.reverse() =~= seq![d] + tmp@.drop_last().reverse());
            assert(dec_digits((m / 10) as nat) + tmp@.reverse() =~= dec_digits(
                (m / 10) as nat,
            ).push(d) + tmp@.drop_last().reverse());
        }
        m = m / 10;
    }
    let d: u8 = 0x30 + (m % 10) as u8;
    tmp.push(d);
    proof {
        assert(dec_digits(m as nat) == seq![d]);
        assert(tmp@.reverse() =~= seq![d] + tmp@.drop_last().reverse());
        assert(dec_digits(n as nat) =~= tmp@.reverse());
    }
    let mut j: usize = tmp.len();
    while j > 0
        invariant
            j <= tmp@.len(),
            out@ == base + tmp@.reverse().take(tmp@.len() - j),
            dec_digits(n as nat) == tmp@.reverse(),
        decreases j,
    {
        j = j - 1;
        out.push(tmp[j]);
        proof {
            let r = tmp@.reverse();
            assert(r[tmp@.len() - j - 1] == tmp@[j as int]);
            assert(r.take(tmp@.len() - j) =~= r.take(tmp@.len() - j - 1).push(tmp@[j as int]));
        }
    }
    proof {
        assert(tmp@.reverse().take(tmp@.len() as int) =~= tmp@.reverse());
    }
}

/// Length of the run of decimal digits starting at `p`.
pub open spec fn digit_run(s: Seq<u8>, p: int) -> int
    decreases s.len() - p when p <= s.len()
{
    if p < 0 || p >= s.len() || !is_digit(s[p]) {
        0
    } else {
        1 + digit_run(s, p + 1)
    }
}

/// Length of the run of lowercase hexadecimal digits starting at `p`.
pub open spec fn hex_run(s: Seq<u8>, p: int) -> int
    decreases s.len() - p when p <= s.len()
{
    if p < 0 || p >= s.len() || !is_lower_hex(s[p]) {
        0
    } else {
        1 + hex_run(s, p + 1)
    }
}

/// A run is exactly `n` long when `n` matching bytes are followed by the
/// end of the input or a byte that does not match.
pub proof fn lemma_digit_run_exact(s: Seq<u8>, p: int, n: int)
    requires
        0 <= p,
        0 <= n,
        p + n <= s.len(),
        forall|i: int| p <= i < p + n ==> is_digit(#[trigger] s[i]),
        p + n == s.len() || !is_digit(s[p + n]),
    ensures
        digit_run(s, p) == n,
    decreases n,
{
    if n == 0 {
    } else {
        assert(is_digit(s[p]));
        lemma_digit_run_exact(s, p + 1, n - 1);
    }
}

/// See [`lemma_digit_run_exact`].
pub proof fn lemma_hex_run_exact(s: Seq<u8>, p: int, n: int)
    requires
        0 <= p,
        0 <= n,
        p + n <= s.len(),
        forall|i: int| p <= i < p + n ==> is_lower_hex(#[trigger] s[i]),
        p + n == s.len() || !is_lower_hex(s[p + n]),
    ensures
        hex_run(s, p) == n,
    decreases n,
{
    if n == 0 {
    } else {
        assert(is_lower_hex(s[p]));
        lemma_hex_run_exact(s, p + 1, n - 1);
    }
}

/// Counts the decimal digits from `pos` on.
pub fn scan_digits(s: &[u8], pos: usize) -> (n: usize)
    requires
        pos <= s@.len(),
    ensures
        n == digit_run(s@, pos as int),
        pos + n <= s@.len(),
{
    let slen = s.len();
    let mut q: usize = pos;
    while q < slen && 0x30 <= s[q] && s[q] <= 0x39
        invariant
            pos <= q <= slen == s@.len(),
            digit_run(s@, pos as int) == q - pos + digit_run(s@, q as int),
            forall|i: int| pos <= i < q ==> is_digit(#[trigger] s@[i]),
        decreases slen - q,
    {
        proof {
            lemma_run_step_digit(s@, q as int);
        }
        q = q + 1;
    }
    q - pos
}

/// Unfolds one step of `digit_run`.
proof fn lemma_run_step_digit(s: Seq<u8>, q: int)
    requires
        0 <= q < s.len(),
        is_digit(s[q]),
    ensures
        digit_run(s, q) == 1 + digit_run(s, q + 1),
{
}

/// Unfolds one step of `hex_run`.
proof fn lemma_run_step_hex(s: Seq<u8>, q: int)
    requires
        0 <= q < s.len(),
        is_lower_hex(s[q]),
    ensures
        hex_run(s, q) == 1 + hex_run(s, q + 1),
{
}

/// Counts the lowercase hexadecimal digits from `pos` on.
pub fn scan_hex(s: &[u8], pos: usize) -> (n: usize)
    requires
        pos <= s@.len(),
    ensures
        n == hex_run(s@, pos as int),
        pos + n <= s@.len(),
{
    let slen = s.len();
    let mut q: usize = pos;
    while q < slen && ((0x30 <= s[q] && s[q] <= 0x39) || (0x61 <= s[q] && s[q] <= 0x66))
        invariant
            pos <= q <= slen == s@.len(),
            hex_run(s@, pos as int) == q - pos + hex_run(s@, q as int),
            forall|i: int| pos <= i < q ==> is_lower_hex(#[trigger] s@[i]),
        decreases slen - q,
    {
        proof {
            lemma_run_step_hex(s@, q as int);
        }
        q = q + 1;
    }
    q - pos
}

/// Every byte inside the run is a decimal digit.
pub proof fn lemma_digit_run_digits(s: Seq<u8>, p: int)
    requires
        0 <= p <= s.len(),
    ensures
        p + digit_run(s, p) <= s.len(),
        forall|i: int| p <= i < p + digit_run(s, p) ==> is_digit(#[trigger] s[i]),
    decreases s.len() - p,
{
    if p < s.len() && is_digit(s[p]) {
        lemma_digit_run_digits(s, p + 1);
    }
}

/// Every byte inside the run is a hexadecimal digit.
pub proof fn lemma_hex_run_hex(s: Seq<u8>, p: int)
    requires
        0 <= p <= s.len(),
    ensures
        p + hex_run(s, p) <= s.len(),
        forall|i: int| p <= i < p + hex_run(s, p) ==> is_lower_hex(#[trigger] s[i]),
    decreases s.len() - p,
{
    if p < s.len() && is_lower_hex(s[p]) {
        lemma_hex_run_hex(s, p + 1);
    }
}

/// A prefix of a digit run never spells a larger number than the whole.
pub proof fn lemma_dec_val_prefix(ds: Seq<u8>, i: int)
    requires
        0 <= i <= ds.len(),
    ensures
        dec_val(ds.take(i)) <= dec_val(ds),
    decreases ds.len(),
{
    if i < ds.len() {
        lemma_dec_val_prefix(ds.drop_last(), i);
        assert(ds.drop_last().take(i) =~= ds.take(i));
    } else {
        assert(ds.take(i) =~= ds);
    }
}

/// The exact decimal number parse at position `p`: fails on an empty run,
/// a leading zero, or a value that does not fit in a `u64`.
pub open spec fn parse_u64_at(s: Seq<u8>, p: int) -> Option<(u64, int)> {
    let n = digit_run(s, p);
    if n < 1 {
        None
    } else if n > 1 && s[p] == 0x30 {
        None
    } else if dec_val(s.subrange(p, p + n)) > u64::MAX {
        None
    } else {
        Some((dec_val(s.subrange(p, p + n)) as u64, p + n))
    }
}

/// Reads the decimal number at `pos` as the spec parser does.
pub fn read_u64(s: &[u8], pos: usize) -> (r: Option<(u64, usize)>)
    requires
        pos <= s@.len(),
    ensures
        match r {
            None => parse_u64_at(s@, pos as int) is None,
            Some((v, q)) => parse_u64_at(s@, pos as int) == Some((v, q as int)) && q <= s@.len(),
        },
{
    let n = scan_digits(s, pos);
    if n == 0 {
        return None;
    }
    if n > 1 && s[pos] == 0x30 {
        return None;
    }
    proof {
        lemma_digit_run_digits(s@, pos as int);
    }
    let ghost ds = s@.subrange(pos as int, pos + n);
    let slen = s.len();
    let mut val: u64 = 0;
    let mut i: usize = 0;
    while i < n
        invariant
            i <= n,
            pos + n <= slen == s@.len(),
            n == digit_run(s@, pos as int),
            ds == s@.subrange(pos as int, pos + n),
            forall|j: int| pos <= j < pos + n ==> is_digit(#[trigger] s@[j]),
            val == dec_val(ds.take(i as int)),
        decreases n - i,
    {
        proof {
            assert(is_digit(s@[pos + i]));
        }
        let d = s[pos + i] - 0x30;
        if val > (u64::MAX - d as u64) / 10 {
            proof {
                assert(ds.take(i + 1).drop_last() =~= ds.take(i as int));
                assert(ds.take(i + 1).last() == s@[pos + i]);
                assert(dec_val(ds.take(i + 1)) == dec_val(ds.take(i as int)) * 10 + d);
                assert(val * 10 + d > u64::MAX) by {
                    let cap = (u64::MAX - d as u64) as int;
                    assert(val >= cap / 10 + 1);
                    assert((cap / 10) * 10 + cap % 10 == cap);
                    assert(val * 10 >= (cap / 10 + 1) * 10) by (nonlinear_arith)
                        requires
                            val >= cap / 10 + 1,
                    ;
                }
                lemma_dec_val_prefix(ds, i + 1);
            }
            return None;
        }
        proof {
            assert(ds.take(i + 1).drop_last() =~= ds.take(i as int));
            assert(ds.take(i + 1).last() == s@[pos + i]);
            assert(val * 10 + d <= u64::MAX) by {
                let cap = (u64::MAX - d as u64) as int;
                assert((cap / 10) * 10 <= cap);
                assert(val * 10 <= (cap / 10) * 10) by (nonlinear_arith)
                    requires
                        val <= cap / 10,
                ;
            }
        }
        val = val * 10 + d as u64;
        i = i + 1;
    }
    proof {
        assert(ds.take(n as int) =~= ds);
    }
    Some((val, pos + n))
}

/// The opening of the block document, through the `0x` of the parent field.
pub open spec fn lit_parent() -> Seq<u8> {
    seq![0x7bu8, 0x22, 0x70, 0x61, 0x72, 0x65, 0x6e, 0x74, 0x5f, 0x69, 0x64, 0x22, 0x3a, 0x22, 0x30, 0x78]
}

/// The separator between the parent and height fields.
pub open spec fn lit_height() -> Seq<u8> {
    seq![0x22u8, 0x2c, 0x22, 0x68, 0x65, 0x69, 0x67, 0x68, 0x74, 0x22, 0x3a]
}

/// The separator between the height and timestamp fields.
pub open spec fn lit_timestamp() -> Seq<u8> {
    seq![0x2cu8, 0x22, 0x74, 0x69, 0x6d, 0x65, 0x73, 0x74, 0x61, 0x6d, 0x70, 0x22, 0x3a]
}

/// The separator between the timestamp and data fields, through `0x`.
pub open spec fn lit_data() -> Seq<u8> {
    seq![0x2cu8, 0x22, 0x64, 0x61, 0x74, 0x61, 0x22, 0x3a, 0x22, 0x30, 0x78]
}

/// The closing quote and brace of the block document.
pub open spec fn lit_end() -> Seq<u8> {
    seq![0x22u8, 0x7d]
}

/// Builds the opening literal.
pub fn lit_parent_vec() -> (v: Vec<u8>)
    ensures
        v@ == lit_parent(),
{
    let mut v: Vec<u8> = Vec::new();
    v.push(0x7b);
    v.push(0x22);
    v.push(0x70);
    v.push(0x61);
    v.push(0x72);
    v.push(0x65);
    v.push(0x6e);
    v.push(0x74);
    v.push(0x5f);
    v.push(0x69);
    v.push(0x64);
    v.push(0x22);
    v.push(0x3a);
    v.push(0x22);
    v.push(0x30);
    v.push(0x78);
    proof {
        assert(v@ =~= lit_parent());
    }
    v
}

/// Builds the height separator.
pub fn lit_height_vec() -> (v: Vec<u8>)
    ensures
        v@ == lit_height(),
{
    let mut v: Vec<u8> = Vec::new();
    v.push(0x22);
    v.push(0x2c);
    v.push(0x22);
    v.push(0x68);
    v.push(0x65);
    v.push(0x69);
    v.push(0x67);
    v.push(0x68);
    v.push(0x74);
    v.push(0x22);
    v.push(0x3a);
    proof {
        assert(v@ =~= lit_height());
    }
    v
}

/// Builds the timestamp separator.
pub fn lit_timestamp_vec() -> (v: Vec<u8>)
    ensures
        v@ == lit_timestamp(),
{
    let mut v: Vec<u8> = Vec::new();
    v.push(0x2c);
    v.push(0x22);
    v.push(0x74);
    v.push(0x69);
    v.push(0x6d);
    v.push(0x65);
    v.push(0x73);
    v.push(0x74);
    v.push(0x61);
    v.push(0x6d);
    v.push(0x70);
    v.push(0x22);
    v.push(0x3a);
    proof {
        assert(v@ =~= lit_timestamp());
    }
    v
}

/// Builds the data separator.
pub fn lit_data_vec() -> (v: Vec<u8>)
    ensures
        v@ == lit_data(),
{
    let mut v: Vec<u8> = Vec::new();
    v.push(0x2c);
    v.push(0x22);
    v.push(0x64);
    v.push(0x61);
    v.push(0x74);
    v.push(0x61);
    v.push(0x22);
    v.push(0x3a);
    v.push(0x22);
    v.push(0x30);
    v.push(0x78);
    proof {
        assert(v@ =~= lit_data());
    }
    v
}

/// Builds the closing literal.
pub fn lit_end_vec() -> (v: Vec<u8>)
    ensures
        v@ == lit_end(),
{
    let mut v: Vec<u8> = Vec::new();
    v.push(0x22);
    v.push(0x7d);
    proof {
        assert(v@ =~= lit_end());
    }
    v
}

/// True when `lit` occurs in `s` at position `pos`.
pub fn match_at(s: &[u8], pos: usize, lit: &Vec<u8>) -> (r: bool)
    requires
        pos <= s@.len(),
    ensures
        r == (pos + lit@.len() <= s@.len() && s@.subrange(pos as int, pos + lit@.len()) == lit@),
{
    let slen = s.len();
    let llen = lit.len();
    if llen > slen - pos {
        return false;
    }
    let mut i: usize = 0;
    while i < llen
        invariant
            i <= llen == lit@.len(),
            pos + llen <= slen == s@.len(),
            forall|j: int| 0 <= j < i ==> s@[pos + j] == lit@[j],
        decreases llen - i,
    {
        if s[pos + i] != lit[i] {
            proof {
                assert(s@.subrange(pos as int, pos + lit@.len())[i as int] != lit@[i as int]);
            }
            return false;
        }
        i = i + 1;
    }
    proof {
        assert(s@.subrange(pos as int, pos + lit@.len()) =~= lit@);
    }
    true
}

/// The canonical block document: fixed field order, parent and data in
/// lowercase hexadecimal, height and timestamp in decimal.
pub open spec fn encode_block_spec(p: Seq<u8>, h: u64, t: u64, d: Seq<u8>) -> Seq<u8> {
    lit_parent() + hex_of(p) + lit_height() + dec_digits(h as nat) + lit_timestamp() + dec_digits(
        t as nat,
    ) + lit_data() + hex_of(d) + lit_end()
}

/// Encodes one block document.
pub fn encode_block(parent: &[u8], height: u64, timestamp: u64, data: &[u8]) -> (out: Vec<u8>)
    ensures
        out@ == encode_block_spec(parent@, height, timestamp, data@),
{
    let mut out: Vec<u8> = Vec::new();
    let l1 = lit_parent_vec();
    out.extend_from_slice(l1.as_slice());
    push_hex(&mut out, parent);
    let l2 = lit_height_vec();
    out.extend_from_slice(l2.as_slice());
    push_dec(&mut out, height);
    let l3 = lit_timestamp_vec();
    out.extend_from_slice(l3.as_slice());
    push_dec(&mut out, timestamp);
    let l4 = lit_data_vec();
    out.extend_from_slice(l4.as_slice());
    push_hex(&mut out, data);
    let l5 = lit_end_vec();
    out.extend_from_slice(l5.as_slice());
    out
}

/// The exact block document parse: `None` on anything but a canonical
/// document whose numbers fit in `u64`.
pub open spec fn decode_block_spec(s: Seq<u8>) -> Option<(Seq<u8>, u64, u64, Seq<u8>)> {
    if s.len() < 16 || s.subrange(0, 16) != lit_parent() {
        None
    } else if hex_run(s, 16) < 64 {
        None
    } else if 91 > s.len() || s.subrange(80, 91) != lit_height() {
        None
    } else {
        match parse_u64_at(s, 91) {
            None => None,
            Some((h, q1)) => if q1 + 13 > s.len() || s.subrange(q1, q1 + 13) != lit_timestamp() {
                None
            } else {
                match parse_u64_at(s, q1 + 13) {
                    None => None,
                    Some((t, q2)) => if q2 + 11 > s.len() || s.subrange(q2, q2 + 11) != lit_data() {
                        None
                    } else {
                        let ds = q2 + 11;
                        let dn = hex_run(s, ds);
                        if dn % 2 != 0 {
                            None
                        } else if ds + dn + 2 != s.len() {
                            None
                        } else if s[ds + dn] != 0x22 || s[ds + dn + 1] != 0x7d {
                            None
                        } else {
                            Some(
                                (
                                    unhex(s.subrange(16, 80)),
                                    h,
                                    t,
                                    unhex(s.subrange(ds, ds + dn)),
                                ),
                            )
                        }
                    },
                }
            },
        }
    }
}

/// Decodes one block document as the spec parser does.
pub fn decode_block(s: &[u8]) -> (r: Option<(Vec<u8>, u64, u64, Vec<u8>)>)
    ensures
        match r {
            None => decode_block_spec(s@) is None,
            Some(x) => decode_block_spec(s@) == Some((x.0@, x.1, x.2, x.3@)),
        },
{
    let slen = s.len();
    let l1 = lit_parent_vec();
    if !match_at(s, 0, &l1) {
        return None;
    }
    let hn = scan_hex(s, 16);
    if hn < 64 {
        return None;
    }
    proof {
        lemma_hex_run_hex(s@, 16);
    }
    let parent = read_hex(s, 16, 64);
    let l2 = lit_height_vec();
    if !match_at(s, 80, &l2) {
        return None;
    }
    let (h, q1) = match read_u64(s, 91) {
        None => {
            return None;
        },
        Some(x) => x,
    };
    let l3 = lit_timestamp_vec();
    if !match_at(s, q1, &l3) {
        return None;
    }
    let (t, q2) = match read_u64(s, q1 + 13) {
        None => {
            return None;
        },
        Some(x) => x,
    };
    let l4 = lit_data_vec();
    if !match_at(s, q2, &l4) {
        return None;
    }
    let ds = q2 + 11;
    let dn = scan_hex(s, ds);
    if dn % 2 != 0 {
        return None;
    }
    if ds + dn != slen - 2 {
        return None;
    }
    if s[ds + dn] != 0x22 || s[ds + dn + 1] != 0x7d {
        return None;
    }
    proof {
        lemma_hex_run_hex(s@, ds as int);
    }
    let data = read_hex(s, ds, dn);
    Some((parent, h, t, data))
}

/// Re-encoding parsed hexadecimal text reproduces it: lowercase
/// hexadecimal of even length is canonical.
pub proof fn lemma_hex_of_unhex(s: Seq<u8>)
    requires
        s.len() % 2 == 0,
        forall|i: int| 0 <= i < s.len() ==> is_lower_hex(#[trigger] s[i]),
    ensures
        hex_of(unhex(s)) == s,
{
    assert forall|i: int| 0 <= i < s.len() implies hex_of(unhex(s))[i] == s[i] by {
        let k = i / 2;
        let x = hex_val(s[2 * k]);
        let y = hex_val(s[2 * k + 1]);
        assert(is_lower_hex(s[2 * k]) && is_lower_hex(s[2 * k + 1]));
        assert(x < 16 && y < 16);
        let b = unhex(s)[k];
        assert(b == (x * 16 + y) as u8);
        assert(b / 16 == x && b % 16 == y);
        assert(hex_digit_of(hex_val(s[2 * k])) == s[2 * k]);
        assert(hex_digit_of(hex_val(s[2 * k + 1])) == s[2 * k + 1]);
        if i % 2 == 0 {
            assert(2 * k == i);
        } else {
            assert(2 * k + 1 == i);
        }
    }
    assert(hex_of(unhex(s)) =~= s);
}

/// The number a digit run spells is at least its first digit's value.
proof fn lemma_dec_val_lower_bound(ds: Seq<u8>)
    requires
        ds.len() >= 1,
        forall|i: int| 0 <= i < ds.len() ==> is_digit(#[trigger] ds[i]),
    ensures
        dec_val(ds) >= ds[0] - 0x30,
    decreases ds.len(),
{
    if ds.len() > 1 {
        let init = ds.drop_last();
        lemma_dec_val_lower_bound(init);
        assert(init[0] == ds[0]);
        assert(dec_val(ds) >= dec_val(init) * 10);
    }
}

/// Writing a parsed number back in decimal reproduces the digit run:
/// decimal text without leading zeros is canonical.
pub proof fn lemma_dec_digits_of_val(ds: Seq<u8>)
    requires
        ds.len() >= 1,
        forall|i: int| 0 <= i < ds.len() ==> is_digit(#[trigger] ds[i]),
        ds[0] == 0x30 ==> ds.len() == 1,
    ensures
        dec_digits(dec_val(ds)) == ds,
    decreases ds.len(),
{
    if ds.len() == 1 {
        assert(ds.drop_last() =~= Seq::<u8>::empty());
        assert(ds.last() == ds[0]);
        assert(is_digit(ds.last()));
        assert(dec_val(Seq::<u8>::empty()) == 0);
        assert(dec_val(ds) == (ds[0] - 0x30) as nat);
        assert(dec_digits(dec_val(ds)) =~= ds);
    } else {
        let init = ds.drop_last();
        let d = ds.last();
        let dv = (d - 0x30) as nat;
        assert(init[0] == ds[0]);
        assert(forall|i: int| 0 <= i < init.len() ==> is_digit(#[trigger] init[i]));
        lemma_dec_digits_of_val(init);
        lemma_dec_val_lower_bound(init);
        assert(ds[0] != 0x30);
        assert(dec_val(init) >= 1);
        let v = dec_val(ds);
        assert(v == dec_val(init) * 10 + dv);
        assert(v >= 10);
        assert(v / 10 == dec_val(init) && v % 10 == dv);
        assert(dec_digits(v) == dec_digits(dec_val(init)).push((0x30 + v % 10) as u8));
        assert(init.push(d) =~= ds);
    }
}

/// A successful parse always yields a 32-byte parent identifier.
pub proof fn lemma_decode_block_shape(s: Seq<u8>)
    ensures
        decode_block_spec(s) matches Some(f) ==> f.0.len() == 32,
{
    if decode_block_spec(s) is Some {
        assert(decode_block_spec(s)->Some_0.0 == unhex(s.subrange(16, 80)));
    }
}

/// Canonicity: the parser accepts nothing but canonical documents. When
/// a parse succeeds, the input is exactly the encoding of the fields
/// parsed out of it — so equal fields always mean equal bytes.
pub proof fn lemma_decode_block_canonical(s: Seq<u8>)
    requires
        decode_block_spec(s) is Some,
    ensures
        ({
            let f = decode_block_spec(s)->Some_0;
            s == encode_block_spec(f.0, f.1, f.2, f.3)
        }),
{
    let f = decode_block_spec(s)->Some_0;
    let hn = hex_run(s, 16);
    lemma_hex_run_hex(s, 16);
    // exactly 64 parent digits: a 65th hex digit would sit where the
    // height separator's quote must be
    assert(s.subrange(80, 91) == lit_height());
    assert(s[80] == lit_height()[0]);
    assert(hn == 64) by {
        if hn > 64 {
            assert(is_lower_hex(s[80]));
        }
    }
    let parent_sub = s.subrange(16, 80);
    assert(forall|i: int| 0 <= i < 64 ==> is_lower_hex(#[trigger] parent_sub[i]));
    lemma_hex_of_unhex(parent_sub);
    // the height digits
    let n1 = digit_run(s, 91);
    let q1 = 91 + n1;
    lemma_digit_run_digits(s, 91);
    let sub1 = s.subrange(91, q1);
    assert(forall|i: int| 0 <= i < n1 ==> is_digit(#[trigger] sub1[i]));
    assert(sub1[0] == s[91]);
    lemma_dec_digits_of_val(sub1);
    assert(f.1 as nat == dec_val(sub1));
    assert(dec_digits(f.1 as nat) == sub1);
    // the timestamp digits
    let n2 = digit_run(s, q1 + 13);
    let q2 = q1 + 13 + n2;
    lemma_digit_run_digits(s, q1 + 13);
    let sub2 = s.subrange(q1 + 13, q2);
    assert(forall|i: int| 0 <= i < n2 ==> is_digit(#[trigger] sub2[i]));
    assert(sub2[0] == s[q1 + 13]);
    lemma_dec_digits_of_val(sub2);
    assert(f.2 as nat == dec_val(sub2));
    assert(dec_digits(f.2 as nat) == sub2);
    // the data digits
    let dstart = q2 + 11;
    let dn = hex_run(s, dstart);
    lemma_hex_run_hex(s, dstart);
    let data_sub = s.subrange(dstart, dstart + dn);
    assert(forall|i: int| 0 <= i < dn ==> is_lower_hex(#[trigger] data_sub[i]));
    lemma_hex_of_unhex(data_sub);
    // assemble: every byte of the input is the corresponding byte of the
    // re-encoding
    let e = encode_block_spec(f.0, f.1, f.2, f.3);
    assert(hex_of(f.0) == parent_sub);
    assert(hex_of(f.3) == data_sub);
    assert(e.len() == 16 + 64 + 11 + n1 + 13 + n2 + 11 + dn + 2);
    assert(s.len() == dstart + dn + 2);
    assert forall|i: int| 0 <= i < s.len() implies s[i] == e[i] by {
        if i < 16 {
            assert(s.subrange(0, 16)[i] == s[i]);
            assert(e[i] == lit_parent()[i]);
        } else if i < 80 {
            assert(parent_sub[i - 16] == s[i]);
            assert(e[i] == hex_of(f.0)[i - 16]);
        } else if i < 91 {
            assert(s.subrange(80, 91)[i - 80] == s[i]);
            assert(e[i] == lit_height()[i - 80]);
        } else if i < q1 {
            assert(sub1[i - 91] == s[i]);
            assert(e[i] == dec_digits(f.1 as nat)[i - 91]);
        } else if i < q1 + 13 {
            assert(s.subrange(q1, q1 + 13)[i - q1] == s[i]);
            assert(e[i] == lit_timestamp()[i - q1]);
        } else if i < q2 {
            assert(sub2[i - (q1 + 13)] == s[i]);
            assert(e[i] == dec_digits(f.2 as nat)[i - (q1 + 13)]);
        } else if i < q2 + 11 {
            assert(s.subrange(q2, q2 + 11)[i - q2] == s[i]);
            assert(e[i] == lit_data()[i - q2]);
        } else if i < dstart + dn {
            assert(data_sub[i - dstart] == s[i]);
            assert(e[i] == hex_of(f.3)[i - dstart]);
        } else {
            assert(s[dstart + dn] == 0x22 && s[dstart + dn + 1] == 0x7d);
            assert(e[i] == lit_end()[i - (dstart + dn)]);
        }
    }
    assert(s =~= e);
}

/// Round trip: the exact parser accepts every canonical block document
/// and recovers exactly the fields it was encoded from.
pub proof fn lemma_decode_encode_block(p: Seq<u8>, h: u64, t: u64, d: Seq<u8>)
    requires
        p.len() == 32,
    ensures
        decode_block_spec(encode_block_spec(p, h, t, d)) == Some((p, h, t, d)),
{
    lemma_dec_digits_shape(h as nat);
    lemma_dec_digits_shape(t as nat);
    lemma_dec_val_digits(h as nat);
    lemma_dec_val_digits(t as nat);
    lemma_hex_of_is_hex(p);
    lemma_hex_of_is_hex(d);
    lemma_unhex_hex_of(p);
    lemma_unhex_hex_of(d);
    let hp = hex_of(p);
    let dh = dec_digits(h as nat);
    let dt = dec_digits(t as nat);
    let hd = hex_of(d);
    let nh = dh.len() as int;
    let nt = dt.len() as int;
    let nd = hd.len() as int;
    let s1 = lit_parent() + hp;
    let s2 = s1 + lit_height();
    let s3 = s2 + dh;
    let s4 = s3 + lit_timestamp();
    let s5 = s4 + dt;
    let s6 = s5 + lit_data();
    let s7 = s6 + hd;
    let e = s7 + lit_end();
    assert(e == encode_block_spec(p, h, t, d));
    let q1 = 91 + nh;
    let q2 = q1 + 13 + nt;
    let dstart = q2 + 11;
    assert(e.len() == dstart + nd + 2);
    // the opening literal
    assert(e.subrange(0, 16) =~= lit_parent());
    // the parent hex digits, closed off by the quote that opens lit_height
    assert forall|i: int| 16 <= i < 80 implies e[i] == hp[i - 16] by {}
    assert(e[80] == lit_height()[0]);
    assert(!is_lower_hex(0x22));
    lemma_hex_run_exact(e, 16, 64);
    // the height separator
    assert(e.subrange(80, 91) =~= lit_height());
    // the height digits, closed off by the comma that opens lit_timestamp
    assert forall|i: int| 91 <= i < q1 implies e[i] == dh[i - 91] by {}
    assert(e[q1] == lit_timestamp()[0]);
    assert(!is_digit(0x2c));
    lemma_digit_run_exact(e, 91, nh);
    assert(e.subrange(91, q1) =~= dh);
    assert(parse_u64_at(e, 91) == Some((h, q1)));
    // the timestamp separator
    assert(e.subrange(q1, q1 + 13) =~= lit_timestamp());
    // the timestamp digits, closed off by the comma that opens lit_data
    assert forall|i: int| q1 + 13 <= i < q2 implies e[i] == dt[i - (q1 + 13)] by {}
    assert(e[q2] == lit_data()[0]);
    lemma_digit_run_exact(e, q1 + 13, nt);
    assert(e.subrange(q1 + 13, q2) =~= dt);
    assert(parse_u64_at(e, q1 + 13) == Some((t, q2)));
    // the data separator
    assert(e.subrange(q2, q2 + 11) =~= lit_data());
    // the data hex digits, closed off by the closing quote
    assert forall|i: int| dstart <= i < dstart + nd implies e[i] == hd[i - dstart] by {}
    assert(e[dstart + nd] == lit_end()[0]);
    assert(e[dstart + nd + 1] == lit_end()[1]);
    lemma_hex_run_exact(e, dstart, nd);
    assert(e.subrange(dstart, dstart + nd) =~= hd);
    // the recovered fields
    assert(e.subrange(16, 80) =~= hp);
    assert(unhex(e.subrange(16, 80)) == p);
    assert(unhex(e.subrange(dstart, dstart + nd)) == d);
}

/// Every byte of a canonical block document is ASCII.
pub proof fn lemma_encode_block_ascii(p: Seq<u8>, h: u64, t: u64, d: Seq<u8>)
    ensures
        forall|i: int|
            0 <= i < encode_block_spec(p, h, t, d).len() ==> #[trigger] encode_block_spec(
                p,
                h,
                t,
                d,
            )[i] < 0x80,
{
    lemma_dec_digits_shape(h as nat);
    lemma_dec_digits_shape(t as nat);
    lemma_hex_of_is_hex(p);
    lemma_hex_of_is_hex(d);
    let e = encode_block_spec(p, h, t, d);
    assert forall|i: int| 0 <= i < e.len() implies e[i] < 0x80 by {}
}

/// An all-ASCII byte sequence is valid UTF-8.
pub proof fn lemma_ascii_valid_utf8(bytes: Seq<u8>)
    requires
        forall|i: int| 0 <= i < bytes.len() ==> #[trigger] bytes[i] < 0x80,
    ensures
        vstd::utf8::valid_utf8(bytes),
{
    assert(bytes.subrange(0, 0) =~= Seq::<u8>::empty());
    assert(vstd::utf8::valid_utf8(bytes.subrange(0, 0)));
    assert(vstd::utf8::partial_valid_utf8(bytes, 0));
    assert forall|i: int| 0 <= i < bytes.len() implies vstd::utf8::is_leading_byte_width_1(
        bytes[i],
    ) by {}
    vstd::utf8::partial_valid_utf8_extend_ascii_block(bytes, 0, bytes.len() as int);
    assert(bytes.subrange(0, bytes.len() as int) =~= bytes);
}

/// Relies on `String::from_utf8`: it succeeds exactly on valid UTF-8 and
/// yields the characters those bytes encode; its error is mapped away.
#[verifier::external_body]
pub(crate) fn string_from_utf8(v: Vec<u8>) -> (r: Option<String>)
    ensures
        r is Some <==> vstd::utf8::valid_utf8(v@),
        r matches Some(s) ==> s@ == vstd::utf8::decode_utf8(v@),
{
    match String::from_utf8(v) {
        Ok(s) => Some(s),
        Err(_) => None,
    }
}

} // verus!
