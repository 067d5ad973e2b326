//! Byte-level text utilities: line assembly, decimal formatting and parsing.

use vstd::prelude::*;

verus! {

/// Appends `line` to `text` followed by a single newline byte.
pub fn write_line(text: &mut Vec<u8>, line: &[u8])
    ensures
        final(text)@ == old(text)@ + line@ + seq![10u8],
{
    let mut i: usize = 0;
    while i < line.len()
        invariant
            i <= line.len(),
            text@ == old(text)@ + line@.subrange(0, i as int),
        decreases line.len() - i,
    {
        text.push(line[i]);
        i = i + 1;
        proof {
            assert(line@.subrange(0, i as int) =~= line@.subrange(0, i - 1) + seq![line@[i - 1]]);
            assert(old(text)@ + line@.subrange(0, i - 1) + seq![line@[i - 1]]
                =~= old(text)@ + line@.subrange(0, i as int));
        }
    }
    proof {
        assert(line@.subrange(0, line@.len() as int) =~= line@);
    }
    text.push(10u8);
    proof {
        assert(old(text)@ + line@ + seq![10u8] =~= text@);
    }
}

/// Ten to the power `e`.
pub open spec fn pow10(e: nat) -> nat
    decreases e,
{
    if e == 0 {
        1
    } else {
        10 * pow10((e - 1) as nat)
    }
}

pub proof fn lemma_pow10_mono(a: nat, b: nat)
    requires
        a <= b,
    ensures
        pow10(a) <= pow10(b),
    decreases b,
{
    if a < b {
        lemma_pow10_mono(a, (b - 1) as nat);
        assert(pow10(b) == 10 * pow10((b - 1) as nat));
    }
}

pub proof fn lemma_pow10_pos(e: nat)
    ensures
        pow10(e) >= 1,
    decreases e,
{
    if e > 0 {
        lemma_pow10_pos((e - 1) as nat);
    }
}

proof fn lemma_pow10_19()
    ensures
        pow10(19) == 10_000_000_000_000_000_000,
{
    reveal_with_fuel(pow10, 21);
}

proof fn lemma_pow10_9()
    ensures
        pow10(9) == 1_000_000_000,
{
    reveal_with_fuel(pow10, 11);
}

/// Ten to the power `e`, executable.
pub fn pow10_u64(e: u32) -> (r: u64)
    requires
        e <= 19,
    ensures
        r == pow10(e as nat),
    decreases e,
{
    if e == 0 {
        1
    } else {
        let p = pow10_u64(e - 1);
        proof {
            lemma_pow10_mono((e - 1) as nat, 18);
            lemma_pow10_19();
            assert(pow10(18) * 10 == pow10(19));
        }
        10 * p
    }
}

/// The decimal digits of `n`, most significant first, no leading zeros
/// (a single `0` for zero).
pub open spec fn dec_digits(n: nat) -> Seq<u8>
    decreases n,
{
    if n < 10 {
        seq![(48 + n) as u8]
    } else {
        dec_digits(n / 10).push((48 + n % 10) as u8)
    }
}

/// The low `width` decimal digits of `n`, zero padded to exactly `width`.
pub open spec fn pad_digits(n: nat, width: nat) -> Seq<u8>
    decreases width,
{
    if width == 0 {
        Seq::empty()
    } else {
        pad_digits(n / 10, (width - 1) as nat).push((48 + n % 10) as u8)
    }
}

/// Writes `n` in decimal.
pub fn fmt_u64(n: u64) -> (r: Vec<u8>)
    ensures
        r@ == dec_digits(n as nat),
    decreases n,
{
    if n < 10 {
        let mut v: Vec<u8> = Vec::new();
        v.push(48 + n as u8);
        proof {
            assert(v@ =~= dec_digits(n as nat));
        }
        v
    } else {
        let mut v = fmt_u64(n / 10);
        v.push(48 + (n % 10) as u8);
        v
    }
}

/// Writes the low `width` decimal digits of `n`, zero padded.
pub fn fmt_padded(n: u64, width: u32) -> (r: Vec<u8>)
    ensures
        r@ == pad_digits(n as nat, width as nat),
    decreases width,
{
    if width == 0 {
        let v: Vec<u8> = Vec::new();
        proof {
            assert(v@ =~= pad_digits(n as nat, 0));
        }
        v
    } else {
        let mut v = fmt_padded(n / 10, width - 1);
        v.push(48 + (n % 10) as u8);
        v
    }
}

/// The text of the fixed-point value `v` carrying `d` decimal places:
/// an optional minus sign, the integer digits, a dot, then exactly `d`
/// fractional digits.
pub open spec fn fixed_text(v: int, d: nat) -> Seq<u8> {
    let m = (if v < 0 { -v } else { v }) as nat;
    let sign: Seq<u8> = if v < 0 { seq![45u8] } else { Seq::empty() };
    sign + dec_digits(m / pow10(d)) + seq![46u8] + pad_digits(m % pow10(d), d)
}

/// Writes the fixed-point value `v` with `d` decimal places.
pub fn fmt_fixed(v: i64, d: u32) -> (r: Vec<u8>)
    requires
        1 <= d <= 9,
        v > i64::MIN,
    ensures
        r@ == fixed_text(v as int, d as nat),
{
    let m: u64 = if v < 0 { (-v) as u64 } else { v as u64 };
    let p = pow10_u64(d);
    proof {
        lemma_pow10_pos(d as nat);
    }
    let mut out: Vec<u8> = Vec::new();
    if v < 0 {
        out.push(45);
    }
    let mut intpart = fmt_u64(m / p);
    out.append(&mut intpart);
    out.push(46);
    let mut frac = fmt_padded(m % p, d);
    out.append(&mut frac);
    proof {
        assert(out@ =~= fixed_text(v as int, d as nat));
    }
    out
}

/// `c` is a decimal digit.
pub open spec fn is_digit(c: u8) -> bool {
    48 <= c <= 57
}

/// Every byte of `s` is a decimal digit.
pub open spec fn all_digits(s: Seq<u8>) -> bool {
    forall|i: int| 0 <= i < s.len() ==> is_digit(#[trigger] s[i])
}

/// The value of a string of decimal digits.
pub open spec fn digits_val(s: Seq<u8>) -> nat
    decreases s.len(),
{
    if s.len() == 0 {
        0
    } else {
        (digits_val(s.drop_last()) * 10 + (s.last() - 48)) as nat
    }
}

/// Prepending digits never lowers a digit string's value.
pub proof fn lemma_digits_val_take_le(s: Seq<u8>, k: int)
    requires
        0 <= k <= s.len(),
        all_digits(s),
    ensures
        digits_val(s.take(k)) <= digits_val(s),
    decreases s.len(),
{
    if k < s.len() {
        assert(s.take(k) =~= s.drop_last().take(k));
        assert(all_digits(s.drop_last()));
        lemma_digits_val_take_le(s.drop_last(), k);
        assert(digits_val(s) == digits_val(s.drop_last()) * 10 + (s.last() - 48));
        assert(digits_val(s.drop_last()) * 10 >= digits_val(s.drop_last()));
    } else {
        assert(s.take(k) =~= s);
    }
}

/// The first index at or after `i` holding byte `b`, or the length.
pub open spec fn find_from(s: Seq<u8>, i: nat, b: u8) -> nat
    decreases s.len() - i when i <= s.len()
{
    if i >= s.len() {
        s.len()
    } else if s[i as int] == b {
        i
    } else {
        find_from(s, i + 1, b)
    }
}

/// What `find_from` returns: the first occurrence of `b` at or after `i`.
pub proof fn lemma_find_from(s: Seq<u8>, i: nat, b: u8)
    requires
        i <= s.len(),
    ensures
        i <= find_from(s, i, b) <= s.len(),
        forall|j: int| i <= j < find_from(s, i, b) ==> s[j] != b,
        find_from(s, i, b) < s.len() ==> s[find_from(s, i, b) as int] == b,
    decreases s.len() - i,
{
    if i < s.len() && s[i as int] != b {
        lemma_find_from(s, i + 1, b);
    }
}

/// Length of the sign prefix of `s`: one for a leading plus or minus.
pub open spec fn sign_len(s: Seq<u8>) -> int {
    if s.len() > 0 && (s[0] == 43 || s[0] == 45) {
        1
    } else {
        0
    }
}

/// `s` begins with a minus sign.
pub open spec fn is_neg(s: Seq<u8>) -> bool {
    s.len() > 0 && s[0] == 45
}

/// The digits of `s` past its sign and before its dot, if any.
pub open spec fn int_part(s: Seq<u8>) -> Seq<u8> {
    let t = s.skip(sign_len(s));
    t.take(find_from(t, 0, 46) as int)
}

/// The digits of `s` past its dot; empty when there is no dot.
pub open spec fn frac_part(s: Seq<u8>) -> Seq<u8> {
    let t = s.skip(sign_len(s));
    let p = find_from(t, 0, 46);
    if p < t.len() {
        t.skip(p as int + 1)
    } else {
        Seq::empty()
    }
}

/// `s` is a plain decimal number: an optional sign, digits, and at most one
/// dot, with at least one digit in all.
pub open spec fn fixed_valid(s: Seq<u8>) -> bool {
    all_digits(int_part(s)) && all_digits(frac_part(s))
    && int_part(s).len() + frac_part(s).len() >= 1
}

/// The value of the fraction digits `fp` scaled to `d` decimal places;
/// digits past the `d`-th are dropped.
pub open spec fn frac_val(fp: Seq<u8>, d: nat) -> nat {
    if fp.len() <= d {
        digits_val(fp) * pow10((d - fp.len()) as nat)
    } else {
        digits_val(fp.take(d as int))
    }
}

/// The magnitude of the decimal string `s` in units of `10^-d`.
pub open spec fn fixed_mag(s: Seq<u8>, d: nat) -> nat {
    digits_val(int_part(s)) * pow10(d) + frac_val(frac_part(s), d)
}

/// The value of the decimal string `s` in units of `10^-d`.
pub open spec fn fixed_value(s: Seq<u8>, d: nat) -> int {
    if is_neg(s) {
        -(fixed_mag(s, d) as int)
    } else {
        fixed_mag(s, d) as int
    }
}

/// Reads a decimal number into a fixed-point value carrying `d` decimal
/// places. Fraction digits past the `d`-th are dropped. Returns `None` for
/// text that is not a plain decimal number, and for values whose magnitude
/// leaves `i64`.
#[verifier::loop_isolation(false)]
#[verifier::rlimit(60)]
pub fn parse_fixed(s: &[u8], d: u32) -> (r: Option<i64>)
    requires
        1 <= d <= 9,
    ensures
        match r {
            Some(v) => fixed_valid(s@) && v == fixed_value(s@, d as nat)
                && fixed_mag(s@, d as nat) <= i64::MAX,
            None => !fixed_valid(s@) || fixed_mag(s@, d as nat) > i64::MAX,
        },
{
    let ghost whole = s@;
    let mut neg = false;
    let mut start: usize = 0;
    if s.len() > 0 && (s[0] == 43 || s[0] == 45) {
        neg = s[0] == 45;
        start = 1;
    }
    let t = vstd::slice::slice_subrange(s, start, s.len());
    proof {
        assert(t@ =~= whole.skip(sign_len(whole)));
        assert(neg == is_neg(whole));
    }
    // locate the dot
    let mut p: usize = 0;
    while p < t.len() && t[p] != 46
        invariant
            0 <= p <= t@.len(),
            find_from(t@, 0, 46) == find_from(t@, p as nat, 46),
        decreases t@.len() - p,
    {
        p = p + 1;
    }
    proof {
        assert(find_from(t@, p as nat, 46) == p);
        assert(int_part(whole) =~= t@.take(p as int));
        if p < t@.len() {
            assert(frac_part(whole) =~= t@.skip(p as int + 1));
        } else {
            assert(frac_part(whole) =~= Seq::<u8>::empty());
        }
    }
    let ip = vstd::slice::slice_subrange(t, 0, p);
    let fp = if p < t.len() {
        vstd::slice::slice_subrange(t, p + 1, t.len())
    } else {
        vstd::slice::slice_subrange(t, p, p)
    };
    proof {
        assert(ip@ == int_part(whole));
        assert(fp@ == frac_part(whole));
    }
    if ip.len() == 0 && fp.len() == 0 {
        return None;
    }
    // integer digits
    let mut iv: u64 = 0;
    let mut i: usize = 0;
    while i < ip.len()
        invariant
            0 <= i <= ip@.len(),
            all_digits(ip@.take(i as int)),
            iv == digits_val(ip@.take(i as int)),
            iv <= i64::MAX,
        decreases ip@.len() - i,
    {
        let c = ip[i];
        if c < 48 || c > 57 {
            proof {
                assert(!is_digit(int_part(whole)[i as int]));
            }
            return None;
        }
        proof {
            assert(ip@.take(i + 1).drop_last() =~= ip@.take(i as int));
            assert(ip@.take(i + 1).last() == ip@[i as int]);
        }
        let dig = (c - 48) as u64;
        if iv > (i64::MAX as u64 - dig) / 10 {
            // the integer digits alone exceed the representable range
            proof {
                assert(digits_val(ip@.take(i + 1)) == iv * 10 + dig);
                assert(iv * 10 + dig > i64::MAX);
                assert(all_digits(ip@.take(i + 1)));
                if all_digits(ip@) && all_digits(fp@) {
                    lemma_prefix_too_big(ip@, i + 1, d as nat);
                    assert(fixed_mag(whole, d as nat) >= digits_val(ip@) * pow10(d as nat));
                } else {
                    assert(!fixed_valid(whole));
                }
            }
            return None;
        }
        iv = iv * 10 + dig;
        i = i + 1;
    }
    proof {
        assert(ip@.take(ip@.len() as int) =~= ip@);
    }
    // fraction digits: the first `d` count, the rest only need to be digits
    let mut fv: u64 = 0;
    let mut j: usize = 0;
    while j < fp.len()
        invariant
            0 <= j <= fp@.len(),
            1 <= d <= 9,
            all_digits(fp@.take(j as int)),
            fv == digits_val(fp@.take(if j <= d { j as int } else { d as int })),
            fv < pow10(if j <= d as nat { j as nat } else { d as nat }),
        decreases fp@.len() - j,
    {
        let c = fp[j];
        if c < 48 || c > 57 {
            proof {
                assert(!is_digit(frac_part(whole)[j as int]));
            }
            return None;
        }
        if j < d as usize {
            proof {
                assert(fp@.take(j + 1).drop_last() =~= fp@.take(j as int));
                assert(fp@.take(j + 1).last() == fp@[j as int]);
                lemma_pow10_mono((j + 1) as nat, 9);
                lemma_pow10_9();
                assert(pow10((j + 1) as nat) == 10 * pow10(j as nat));
            }
            fv = fv * 10 + (c - 48) as u64;
            proof {
                assert(fp@.take(if j + 1 <= d { j as int + 1 } else { d as int })
                    =~= fp@.take(j as int + 1));
            }
        } else {
            proof {
                assert(fp@.take(if j + 1 <= d as int { j as int + 1 } else { d as int })
                    =~= fp@.take(d as int));
                assert(fp@.take(j + 1).drop_last() =~= fp@.take(j as int));
            }
        }
        j = j + 1;
    }
    proof {
        assert(fp@.take(fp@.len() as int) =~= fp@);
        assert(fixed_valid(whole));
    }
    // scale the fraction when fewer than `d` digits were given
    let scaled_fv: u64 = if fp.len() < d as usize {
        proof {
            lemma_pow10_pos((d - fp@.len()) as nat);
            lemma_pow10_mono(fp@.len() as nat, 9);
            lemma_pow10_9();
            assert(fv * pow10((d - fp@.len()) as nat) < pow10(fp@.len() as nat) * pow10(
                (d - fp@.len()) as nat)) by (nonlinear_arith)
                requires
                    fv < pow10(fp@.len() as nat),
                    pow10((d - fp@.len()) as nat) >= 1,
            ;
            lemma_pow10_add(fp@.len() as nat, (d - fp@.len()) as nat);
            lemma_pow10_mono(d as nat, 9);
        }
        fv * pow10_u64(d - fp.len() as u32)
    } else {
        fv
    };
    proof {
        if fp@.len() < d {
            assert(fv == digits_val(fp@));
            assert(scaled_fv == digits_val(fp@) * pow10((d - fp@.len()) as nat));
            assert(scaled_fv == frac_val(fp@, d as nat));
        } else if fp@.len() == d {
            assert(fv == digits_val(fp@.take(d as int)));
            assert(fp@.take(d as int) =~= fp@);
            assert(pow10((d - fp@.len()) as nat) == 1);
            assert(scaled_fv == frac_val(fp@, d as nat));
        } else {
            assert(fv == digits_val(fp@.take(d as int)));
            assert(scaled_fv == frac_val(fp@, d as nat));
        }
        lemma_pow10_mono(d as nat, 9);
        lemma_pow10_9();
    }
    // combine; the product fits easily in u128
    let pd = pow10_u64(d);
    proof {
        assert((iv as u128) * (pd as u128) <= (i64::MAX as u128) * 1_000_000_000u128)
            by (nonlinear_arith)
            requires
                iv <= i64::MAX as u128,
                (pd as u128) <= 1_000_000_000u128,
        ;
    }
    let mag: u128 = (iv as u128) * (pd as u128) + (scaled_fv as u128);
    if mag > i64::MAX as u128 {
        return None;
    }
    if neg {
        Some(-(mag as i64))
    } else {
        Some(mag as i64)
    }
}

/// When a digit prefix is already too large, the whole magnitude is.
proof fn lemma_prefix_too_big(ip: Seq<u8>, k: int, d: nat)
    requires
        0 <= k <= ip.len(),
        all_digits(ip),
        digits_val(ip.take(k)) > i64::MAX,
    ensures
        digits_val(ip) * pow10(d) > i64::MAX,
{
    lemma_digits_val_take_le(ip, k);
    lemma_pow10_pos(d);
    assert(digits_val(ip) * pow10(d) >= digits_val(ip) * 1) by (nonlinear_arith)
        requires
            pow10(d) >= 1,
            digits_val(ip) >= 0,
    ;
}

/// `s` is a plain decimal integer: an optional sign, then digits only.
pub open spec fn int_valid(s: Seq<u8>) -> bool {
    let t = s.skip(sign_len(s));
    all_digits(t) && t.len() >= 1
}

/// The value of the decimal integer `s`.
pub open spec fn int_value(s: Seq<u8>) -> int {
    let t = s.skip(sign_len(s));
    if is_neg(s) {
        -(digits_val(t) as int)
    } else {
        digits_val(t) as int
    }
}

/// Reads a plain decimal integer. Returns `None` for text that is not one,
/// and for values whose magnitude leaves `i64`.
#[verifier::loop_isolation(false)]
pub fn parse_int(s: &[u8]) -> (r: Option<i64>)
    ensures
        match r {
            Some(v) => int_valid(s@) && v == int_value(s@)
                && -i64::MAX <= int_value(s@) <= i64::MAX,
            None => !int_valid(s@) || int_value(s@) > i64::MAX || int_value(s@) < -i64::MAX,
        },
{
    let ghost whole = s@;
    let mut neg = false;
    let mut start: usize = 0;
    if s.len() > 0 && (s[0] == 43 || s[0] == 45) {
        neg = s[0] == 45;
        start = 1;
    }
    let t = vstd::slice::slice_subrange(s, start, s.len());
    proof {
        assert(t@ =~= whole.skip(sign_len(whole)));
        assert(neg == is_neg(whole));
    }
    if t.len() == 0 {
        return None;
    }
    let mut iv: u64 = 0;
    let mut i: usize = 0;
    while i < t.len()
        invariant
            0 <= i <= t@.len(),
            all_digits(t@.take(i as int)),
            iv == digits_val(t@.take(i as int)),
            iv <= i64::MAX,
        decreases t@.len() - i,
    {
        let c = t[i];
        if c < 48 || c > 57 {
            proof {
                assert(!is_digit(t@[i as int]));
            }
            return None;
        }
        proof {
            assert(t@.take(i + 1).drop_last() =~= t@.take(i as int));
            assert(t@.take(i + 1).last() == t@[i as int]);
        }
        let dig = (c - 48) as u64;
        if iv > (i64::MAX as u64 - dig) / 10 {
            proof {
                assert(digits_val(t@.take(i + 1)) == iv * 10 + dig);
                if all_digits(t@) {
                    lemma_digits_val_take_le(t@, i + 1);
                } else {
                    assert(!int_valid(whole));
                }
            }
            return None;
        }
        iv = iv * 10 + dig;
        i = i + 1;
    }
    proof {
        assert(t@.take(t@.len() as int) =~= t@);
    }
    if neg {
        Some(-(iv as i64))
    } else {
        Some(iv as i64)
    }
}

/// `c` is a blank: space, tab, or carriage return.
pub open spec fn is_ws(c: u8) -> bool {
    c == 32 || c == 9 || c == 13
}

/// The first blank at or after `i`, or the length.
pub open spec fn token_end(s: Seq<u8>, i: nat) -> nat
    decreases s.len() - i when i <= s.len()
{
    if i >= s.len() {
        s.len()
    } else if is_ws(s[i as int]) {
        i
    } else {
        token_end(s, i + 1)
    }
}

/// The first non-blank at or after `i`, or the length.
pub open spec fn next_token_start(s: Seq<u8>, i: nat) -> nat
    decreases s.len() - i when i <= s.len()
{
    if i >= s.len() {
        s.len()
    } else if !is_ws(s[i as int]) {
        i
    } else {
        next_token_start(s, i + 1)
    }
}

pub proof fn lemma_token_end(s: Seq<u8>, i: nat)
    requires
        i <= s.len(),
    ensures
        i <= token_end(s, i) <= s.len(),
        i < s.len() && !is_ws(s[i as int]) ==> token_end(s, i) > i,
    decreases s.len() - i,
{
    if i < s.len() && !is_ws(s[i as int]) {
        lemma_token_end(s, i + 1);
    }
}

pub proof fn lemma_next_token_start(s: Seq<u8>, i: nat)
    requires
        i <= s.len(),
    ensures
        i <= next_token_start(s, i) <= s.len(),
        next_token_start(s, i) < s.len() ==> !is_ws(s[next_token_start(s, i) as int]),
    decreases s.len() - i,
{
    if i < s.len() && is_ws(s[i as int]) {
        lemma_next_token_start(s, i + 1);
    }
}

/// The blank-separated words of `s` from position `i` on.
pub open spec fn tokens_from(s: Seq<u8>, i: nat) -> Seq<Seq<u8>>
    decreases s.len() - i when i <= s.len() via tokens_from_decreases
{
    if i >= s.len() {
        Seq::empty()
    } else {
        let j = next_token_start(s, i);
        if j >= s.len() {
            Seq::empty()
        } else {
            let k = token_end(s, j);
            seq![s.subrange(j as int, k as int)] + tokens_from(s, k)
        }
    }
}

#[via_fn]
proof fn tokens_from_decreases(s: Seq<u8>, i: nat) {
    if i < s.len() {
        lemma_next_token_start(s, i);
        let j = next_token_start(s, i);
        if j < s.len() {
            lemma_token_end(s, j);
        }
    }
}

/// The blank-separated words of `s`.
pub open spec fn tokens(s: Seq<u8>) -> Seq<Seq<u8>> {
    tokens_from(s, 0)
}

/// Splits `line` into its blank-separated words.
#[verifier::loop_isolation(false)]
pub fn tokenize(line: &[u8]) -> (r: Vec<Vec<u8>>)
    ensures
        r@.map_values(|t: Vec<u8>| t@) == tokens(line@),
{
    let ghost s = line@;
    let mut r: Vec<Vec<u8>> = Vec::new();
    let mut i: usize = 0;
    proof {
        assert(r@.map_values(|t: Vec<u8>| t@) =~= Seq::<Seq<u8>>::empty());
    }
    while i < line.len()
        invariant
            0 <= i <= s.len(),
            tokens(s) == r@.map_values(|t: Vec<u8>| t@) + tokens_from(s, i as nat),
        decreases s.len() - i,
    {
        if is_ws_exec(line[i]) {
            proof {
                assert(next_token_start(s, i as nat) == next_token_start(s, i as nat + 1));
                assert(tokens_from(s, i as nat) == tokens_from(s, i as nat + 1));
            }
            i = i + 1;
        } else {
            let ts = i;
            let mut k = i + 1;
            proof {
                lemma_token_end(s, ts as nat);
            }
            while k < line.len() && !is_ws_exec(line[k])
                invariant
                    ts < k <= s.len(),
                    token_end(s, ts as nat) == token_end(s, k as nat),
                decreases s.len() - k,
            {
                k = k + 1;
            }
            proof {
                assert(token_end(s, k as nat) == k);
                assert(next_token_start(s, ts as nat) == ts);
            }
            let tok = vstd::slice::slice_to_vec(vstd::slice::slice_subrange(line, ts, k));
            let ghost before = r@.map_values(|t: Vec<u8>| t@);
            r.push(tok);
            proof {
                assert(tokens_from(s, ts as nat) == seq![s.subrange(ts as int, k as int)]
                    + tokens_from(s, k as nat));
                assert(r@.map_values(|t: Vec<u8>| t@) =~= before
                    + seq![s.subrange(ts as int, k as int)]);
            }
            i = k;
        }
    }
    proof {
        assert(tokens_from(s, i as nat) =~= Seq::<Seq<u8>>::empty());
        assert(tokens(s) =~= r@.map_values(|t: Vec<u8>| t@));
    }
    r
}

/// Blank test, executable.
pub fn is_ws_exec(c: u8) -> (r: bool)
    ensures
        r == is_ws(c),
{
    c == 32 || c == 9 || c == 13
}

/// `l` without a trailing carriage return.
pub open spec fn strip_cr(l: Seq<u8>) -> Seq<u8> {
    if l.len() > 0 && l.last() == 13 {
        l.drop_last()
    } else {
        l
    }
}

/// The lines of `s` from position `i` on: split at newlines, each line
/// without its trailing carriage return, no line for a trailing newline.
pub open spec fn lines_from(s: Seq<u8>, i: nat) -> Seq<Seq<u8>>
    decreases s.len() - i when i <= s.len() via lines_from_decreases
{
    if i >= s.len() {
        Seq::empty()
    } else {
        let j = find_from(s, i, 10);
        seq![strip_cr(s.subrange(i as int, j as int))] + if j < s.len() {
            lines_from(s, j + 1)
        } else {
            Seq::empty()
        }
    }
}

#[via_fn]
proof fn lines_from_decreases(s: Seq<u8>, i: nat) {
    if i < s.len() {
        lemma_find_from(s, i, 10);
    }
}

/// The lines of `s`.
pub open spec fn lines(s: Seq<u8>) -> Seq<Seq<u8>> {
    lines_from(s, 0)
}

/// The text of a duration: minutes and seconds over a minute, seconds and
/// milliseconds over a second, milliseconds below that.
pub open spec fn elapsed_text(secs: nat, millis: nat) -> Seq<u8> {
    if secs > 60 {
        dec_digits(secs / 60) + seq![109u8, 32u8] + dec_digits(secs % 60) + seq![115u8]
    } else if secs > 0 {
        dec_digits(secs) + seq![115u8, 32u8] + dec_digits(millis) + seq![109u8, 115u8]
    } else {
        dec_digits(millis) + seq![109u8, 115u8]
    }
}

/// Writes a duration the way the run summary shows it.
pub fn elapsed_time(secs: u64, millis: u32) -> (r: Vec<u8>)
    ensures
        r@ == elapsed_text(secs as nat, millis as nat),
{
    let mut out: Vec<u8> = Vec::new();
    if secs > 60 {
        let mut mins = fmt_u64(secs / 60);
        out.append(&mut mins);
        out.push(109);
        out.push(32);
        let mut rem = fmt_u64(secs % 60);
        out.append(&mut rem);
        out.push(115);
    } else if secs > 0 {
        let mut sd = fmt_u64(secs);
        out.append(&mut sd);
        out.push(115);
        out.push(32);
        let mut md = fmt_u64(millis as u64);
        out.append(&mut md);
        out.push(109);
        out.push(115);
    } else {
        let mut md = fmt_u64(millis as u64);
        out.append(&mut md);
        out.push(109);
        out.push(115);
    }
    proof {
        assert(out@ =~= elapsed_text(secs as nat, millis as nat));
    }
    out
}

pub proof fn lemma_pow10_add(a: nat, b: nat)
    ensures
        pow10(a) * pow10(b) == pow10((a + b) as nat),
    decreases a,
{
    if a == 0 {
        assert(pow10(0) == 1);
    } else {
        lemma_pow10_add((a - 1) as nat, b);
        assert(pow10(a) == 10 * pow10((a - 1) as nat));
        assert(pow10((a + b) as nat) == 10 * pow10((a + b - 1) as nat));
        assert((10 * pow10((a - 1) as nat)) * pow10(b) == 10 * (pow10((a - 1) as nat) * pow10(b)))
            by (nonlinear_arith);
    }
}

/// The bytes of an ascii string literal.
pub open spec fn lit(s: &str) -> Seq<u8> {
    s@.map_values(|c: char| c as u8)
}

/// Appends an ascii literal's bytes to `out`.
pub fn put_str(out: &mut Vec<u8>, s: &str)
    requires
        s.is_ascii(),
    ensures
        final(out)@ == old(out)@ + lit(s),
{
    broadcast use vstd::string::is_ascii_spec_bytes;
    let b = s.as_bytes();
    proof {
        assert(b@ =~= lit(s));
    }
    out.extend_from_slice(b);
    proof {
        assert(out@ =~= old(out)@ + lit(s));
    }
}

/// Appends a byte sequence to `out`.
pub fn put_bytes(out: &mut Vec<u8>, b: &[u8])
    ensures
        final(out)@ == old(out)@ + b@,
{
    out.extend_from_slice(b);
    proof {
        assert(out@ =~= old(out)@ + b@);
    }
}

/// First position of `b` in `s` at or past `from`, or the length of `s`.
#[verifier::loop_isolation(false)]
pub fn find_byte(s: &[u8], from: usize, b: u8) -> (r: usize)
    requires
        from <= s@.len(),
    ensures
        r == find_from(s@, from as nat, b),
{
    let mut i: usize = from;
    while i < s.len() && s[i] != b
        invariant
            from <= i <= s@.len(),
            find_from(s@, from as nat, b) == find_from(s@, i as nat, b),
        decreases s@.len() - i,
    {
        i = i + 1;
    }
    i
}

/// How many newline bytes `s` holds: one per line it ends.
pub open spec fn count_nl(s: Seq<u8>) -> nat
    decreases s.len(),
{
    if s.len() == 0 {
        0
    } else {
        count_nl(s.drop_last()) + if s.last() == 10 {
            1nat
        } else {
            0nat
        }
    }
}

/// No byte of `s` is a newline.
pub open spec fn no_nl(s: Seq<u8>) -> bool {
    forall|i: int| 0 <= i < s.len() ==> s[i] != 10
}

pub proof fn lemma_count_nl_concat(a: Seq<u8>, b: Seq<u8>)
    ensures
        count_nl(a + b) == count_nl(a) + count_nl(b),
    decreases b.len(),
{
    if b.len() == 0 {
        assert(a + b =~= a);
    } else {
        assert((a + b).drop_last() =~= a + b.drop_last());
        lemma_count_nl_concat(a, b.drop_last());
    }
}

pub proof fn lemma_no_nl_count(s: Seq<u8>)
    requires
        no_nl(s),
    ensures
        count_nl(s) == 0,
    decreases s.len(),
{
    if s.len() > 0 {
        assert(no_nl(s.drop_last()));
        lemma_no_nl_count(s.drop_last());
    }
}

/// Decimal digits never hold a newline.
pub proof fn lemma_dec_digits_no_nl(n: nat)
    ensures
        no_nl(dec_digits(n)),
    decreases n,
{
    if n >= 10 {
        lemma_dec_digits_no_nl(n / 10);
    }
}

pub proof fn lemma_pad_digits_no_nl(n: nat, width: nat)
    ensures
        no_nl(pad_digits(n, width)),
    decreases width,
{
    if width > 0 {
        lemma_pad_digits_no_nl(n / 10, (width - 1) as nat);
    }
}

/// A fixed-point number's text never holds a newline.
pub proof fn lemma_fixed_text_no_nl(v: int, d: nat)
    ensures
        no_nl(fixed_text(v, d)),
{
    let m = (if v < 0 { -v } else { v }) as nat;
    lemma_dec_digits_no_nl(m / pow10(d));
    lemma_pad_digits_no_nl(m % pow10(d), d);
}

} // verus!
