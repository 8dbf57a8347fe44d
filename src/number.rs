use vstd::prelude::*;
use vstd::string::StrSliceExecFns;

verus! {

/// An ASCII decimal digit.
pub open spec fn digit(c: char) -> bool {
    '0' as u32 <= c as u32 && c as u32 <= '9' as u32
}

/// A sign in front of a number or an exponent.
pub open spec fn sign(c: char) -> bool {
    c == '+' || c == '-'
}

/// The value of a digit character; zero for any other character.
pub open spec fn digit_value(c: char) -> nat {
    if digit(c) {
        (c as u32 - '0' as u32) as nat
    } else {
        0
    }
}

/// The first position at or after `i` that holds no decimal digit.
pub open spec fn digit_run(t: Seq<char>, i: int) -> int
    decreases t.len() - i,
{
    if 0 <= i < t.len() && digit(t[i]) {
        digit_run(t, i + 1)
    } else {
        i
    }
}

/// The value of a string of decimal digits (the empty string counts as zero).
pub open spec fn digits_value(d: Seq<char>) -> nat
    decreases d.len(),
{
    if d.len() == 0 {
        0
    } else {
        digits_value(d.drop_last()) * 10 + digit_value(d.last())
    }
}

/// Ten to the power `k`.
pub open spec fn pow10(k: nat) -> nat
    decreases k,
{
    if k == 0 {
        1
    } else {
        10 * pow10((k - 1) as nat)
    }
}

/// The whole part of the number whose significant digits are `m` with the
/// decimal point after the first `p` of them (`p` may lie outside `m`).
pub open spec fn scaled_whole(m: Seq<char>, p: int) -> nat {
    if p <= 0 {
        0
    } else if p <= m.len() {
        digits_value(m.subrange(0, p))
    } else {
        digits_value(m) * pow10((p - m.len()) as nat)
    }
}

// The grammar of a number token, as a floating-point literal:
//   [+|-] mantissa [ (e|E) [+|-] digits ]
// where the mantissa is `digits`, `digits.`, `digits.digits` or `.digits`.

/// Where the mantissa starts: after a leading sign, if any.
pub open spec fn lead(t: Seq<char>) -> int {
    if t.len() > 0 && sign(t[0]) { 1 } else { 0 }
}

/// Where the digits before the point end.
pub open spec fn int_end(t: Seq<char>) -> int {
    digit_run(t, lead(t))
}

pub open spec fn has_point(t: Seq<char>) -> bool {
    int_end(t) < t.len() && t[int_end(t)] == '.'
}

/// Where the mantissa ends.
pub open spec fn frac_end(t: Seq<char>) -> int {
    if has_point(t) { digit_run(t, int_end(t) + 1) } else { int_end(t) }
}

/// The digits of the mantissa, without the point.
pub open spec fn mantissa(t: Seq<char>) -> Seq<char> {
    if has_point(t) {
        t.subrange(lead(t), int_end(t)) + t.subrange(int_end(t) + 1, frac_end(t))
    } else {
        t.subrange(lead(t), int_end(t))
    }
}

pub open spec fn has_exponent(t: Seq<char>) -> bool {
    frac_end(t) < t.len()
}

/// Where the digits of the exponent start.
pub open spec fn exp_start(t: Seq<char>) -> int {
    if frac_end(t) + 1 < t.len() && sign(t[frac_end(t) + 1]) {
        frac_end(t) + 2
    } else {
        frac_end(t) + 1
    }
}

pub open spec fn exp_negative(t: Seq<char>) -> bool {
    frac_end(t) + 1 < t.len() && t[frac_end(t) + 1] == '-'
}

/// The token is a finite floating-point literal.
pub open spec fn is_float(t: Seq<char>) -> bool {
    &&& mantissa(t).len() > 0
    &&& has_exponent(t) ==> {
        &&& t[frac_end(t)] == 'e' || t[frac_end(t)] == 'E'
        &&& exp_start(t) < t.len()
        &&& digit_run(t, exp_start(t)) == t.len()
    }
}

/// The power of ten that the mantissa is scaled by.
pub open spec fn exponent(t: Seq<char>) -> int {
    if !has_exponent(t) {
        0
    } else if exp_negative(t) {
        -digits_value(t.subrange(exp_start(t), t.len() as int))
    } else {
        digits_value(t.subrange(exp_start(t), t.len() as int)) as int
    }
}

/// The number of mantissa digits before the point once the exponent is applied.
pub open spec fn point_pos(t: Seq<char>) -> int {
    (int_end(t) - lead(t)) + exponent(t)
}

/// The magnitude of the number, truncated toward zero.
pub open spec fn whole_part(t: Seq<char>) -> nat {
    scaled_whole(mantissa(t), point_pos(t))
}

pub open spec fn negative(t: Seq<char>) -> bool {
    t.len() > 0 && t[0] == '-'
}

/// The number of whole seconds that a token states: a floating-point
/// literal truncated toward zero, which must not be negative.
pub open spec fn float_seconds(t: Seq<char>) -> Option<nat> {
    if is_float(t) && !(negative(t) && whole_part(t) > 0) {
        Some(whole_part(t))
    } else {
        None
    }
}

proof fn lemma_digits_value_grows(m: Seq<char>, s: int, p: int, q: int)
    requires
        0 <= s <= p <= q <= m.len(),
    ensures
        digits_value(m.subrange(s, p)) <= digits_value(m.subrange(s, q)),
    decreases q - p,
{
    if p < q {
        lemma_digits_value_grows(m, s, p, q - 1);
        assert(m.subrange(s, q).drop_last() =~= m.subrange(s, q - 1));
    }
}

proof fn lemma_pow10_grows(a: nat, b: nat)
    requires
        a <= b,
    ensures
        1 <= pow10(a) <= pow10(b),
    decreases b,
{
    if a < b {
        lemma_pow10_grows(a, (b - 1) as nat);
    } else if a > 0 {
        lemma_pow10_grows((a - 1) as nat, (a - 1) as nat);
    }
}

/// Far enough from the digits, moving the point changes nothing that a
/// `u64` can tell: to the left the whole part stays zero, and to the right it
/// stays zero or stays beyond `u64`.
proof fn lemma_far_point(m: Seq<char>, p1: int, p2: int)
    requires
        (p1 <= 0 && p2 <= 0) || (p1 >= m.len() + 21 && p2 >= m.len() + 21),
    ensures
        (scaled_whole(m, p1) <= u64::MAX) == (scaled_whole(m, p2) <= u64::MAX),
        scaled_whole(m, p1) <= u64::MAX ==> scaled_whole(m, p1) == scaled_whole(m, p2),
{
    if p1 > 0 {
        let v = digits_value(m);
        let k1 = (p1 - m.len()) as nat;
        let k2 = (p2 - m.len()) as nat;
        lemma_pow10_grows(21, k1);
        lemma_pow10_grows(21, k2);
        assert(pow10(21) > u64::MAX) by {
            reveal_with_fuel(pow10, 22);
        }
        if v > 0 {
            assert(v * pow10(k1) >= pow10(k1)) by (nonlinear_arith)
                requires v > 0;
            assert(v * pow10(k2) >= pow10(k2)) by (nonlinear_arith)
                requires v > 0;
        } else {
            assert(v * pow10(k1) == 0) by (nonlinear_arith)
                requires v == 0;
            assert(v * pow10(k2) == 0) by (nonlinear_arith)
                requires v == 0;
        }
    }
}

fn is_digit(c: char) -> (r: bool)
    ensures
        r == digit(c),
{
    '0' as u32 <= c as u32 && c as u32 <= '9' as u32
}

fn is_sign(c: char) -> (r: bool)
    ensures
        r == sign(c),
{
    c == '+' || c == '-'
}

fn value_of_digit(c: char) -> (r: u64)
    ensures
        r == digit_value(c),
        r <= 9,
{
    if is_digit(c) {
        (c as u32 - '0' as u32) as u64
    } else {
        0
    }
}

/// The whole part of the number with significant digits `m` and the point
/// after the first `p` of them; `None` where it exceeds `u64`.
pub fn scaled_whole_u64(m: &Vec<char>, p: i128) -> (r: Option<u64>)
    ensures
        r is Some <==> scaled_whole(m@, p as int) <= u64::MAX,
        r is Some ==> r->0 == scaled_whole(m@, p as int),
{
    if p <= 0 {
        return Some(0);
    }
    let n = m.len();
    let q: usize = if p < n as i128 { p as usize } else { n };
    let mut v: u64 = 0;
    let mut i: usize = 0;
    proof {
        if p > n {
            lemma_pow10_grows(0, (p - n) as nat);
            assert(digits_value(m@) <= digits_value(m@) * pow10((p - n) as nat))
                by (nonlinear_arith)
                requires pow10((p - n) as nat) >= 1;
        }
        assert(m@.subrange(0, n as int) =~= m@);
    }
    while i < q
        invariant
            i <= q <= n,
            n == m@.len(),
            q == (if p < n { p as int } else { n as int }),
            v == digits_value(m@.subrange(0, i as int)),
            scaled_whole(m@, p as int) >= digits_value(m@.subrange(0, q as int)),
        decreases q - i,
    {
        let d = value_of_digit(m[i]);
        proof {
            assert(m@.subrange(0, i + 1).drop_last() =~= m@.subrange(0, i as int));
        }
        if v > (u64::MAX - d) / 10 {
            proof {
                assert(v * 10 + d > u64::MAX) by (nonlinear_arith)
                    requires v > (u64::MAX - d) / 10, d <= 9;
                lemma_digits_value_grows(m@, 0, i + 1, q as int);
            }
            return None;
        }
        v = v * 10 + d;
        i = i + 1;
    }
    if p <= n as i128 {
        return Some(v);
    }
    let ghost k = (p - n) as nat;
    let mut pad: i128 = p - n as i128;
    while pad > 0 && v != 0
        invariant
            0 <= pad <= k,
            k == p - n,
            n == m@.len(),
            v * pow10(pad as nat) == digits_value(m@) * pow10(k),
            scaled_whole(m@, p as int) == digits_value(m@) * pow10(k),
        decreases pad,
    {
        let ghost rest = pow10((pad - 1) as nat);
        assert(pow10(pad as nat) == 10 * rest);
        if v > u64::MAX / 10 {
            proof {
                lemma_pow10_grows(0, (pad - 1) as nat);
                assert(v * pow10(pad as nat) > u64::MAX) by (nonlinear_arith)
                    requires v > u64::MAX / 10, pow10(pad as nat) == 10 * rest, rest >= 1;
            }
            return None;
        }
        assert(v * pow10(pad as nat) == (v * 10) * rest) by (nonlinear_arith)
            requires pow10(pad as nat) == 10 * rest;
        v = v * 10;
        pad = pad - 1;
    }
    proof {
        let w = digits_value(m@) * pow10(k);
        if v == 0 {
            assert(v * pow10(pad as nat) == 0);
            assert(w == 0);
        } else {
            assert(pad == 0);
            assert(pow10(0) == 1);
            assert(v * pow10(0) == v) by (nonlinear_arith)
                requires pow10(0) == 1;
            assert(w == v);
        }
        assert(scaled_whole(m@, p as int) == w);
    }
    Some(v)
}

proof fn lemma_digit_run_bounds(t: Seq<char>, i: int)
    requires
        0 <= i <= t.len(),
    ensures
        i <= digit_run(t, i) <= t.len(),
    decreases t.len() - i,
{
    if i < t.len() && digit(t[i]) {
        lemma_digit_run_bounds(t, i + 1);
    }
}

fn skip_digits(t: &str, len: usize, i: usize) -> (j: usize)
    requires
        len == t@.len(),
        i <= len,
    ensures
        j == digit_run(t@, i as int),
        i <= j <= len,
{
    let mut j: usize = i;
    while j < len && is_digit(t.get_char(j))
        invariant
            i <= j <= len,
            len == t@.len(),
            digit_run(t@, i as int) == digit_run(t@, j as int),
        decreases len - j,
    {
        j = j + 1;
    }
    j
}

/// Appends the characters of `t` from `from` up to `to` to `m`.
fn push_range(m: &mut Vec<char>, t: &str, from: usize, to: usize)
    requires
        from <= to <= t@.len(),
    ensures
        final(m)@ == old(m)@ + t@.subrange(from as int, to as int),
{
    let mut k: usize = from;
    while k < to
        invariant
            from <= k <= to <= t@.len(),
            m@ == old(m)@ + t@.subrange(from as int, k as int),
        decreases to - k,
    {
        m.push(t.get_char(k));
        proof {
            assert(t@.subrange(from as int, k + 1) =~= t@.subrange(from as int, k as int).push(
                t@[k as int],
            ));
        }
        k = k + 1;
    }
}

/// Reads a number of seconds written as a floating-point literal and
/// truncates it toward zero. `None` where the token is no finite literal
/// (`inf` and `nan` are not taken), where its truncation is negative, or
/// where it exceeds `u64`. The value is computed exactly from the digits.
pub fn parse_whole_seconds(t: &str) -> (r: Option<u64>)
    ensures
        r is Some <==> float_seconds(t@) is Some && float_seconds(t@)->0 <= u64::MAX,
        r is Some ==> r->0 == float_seconds(t@)->0,
{
    let len = t.unicode_len();
    let lead: usize = if len > 0 && is_sign(t.get_char(0)) { 1 } else { 0 };
    let ie = skip_digits(t, len, lead);
    let point = ie < len && t.get_char(ie) == '.';
    let fe = if point { skip_digits(t, len, ie + 1) } else { ie };
    let mut m: Vec<char> = Vec::new();
    push_range(&mut m, t, lead, ie);
    if point {
        push_range(&mut m, t, ie + 1, fe);
    }
    proof {
        assert(m@ =~= mantissa(t@));
    }
    if m.len() == 0 {
        return None;
    }
    let cap: u128 = len as u128 + 21;
    let mut ev: u128 = 0;
    let mut neg_exp = false;
    if fe < len {
        let c = t.get_char(fe);
        if c != 'e' && c != 'E' {
            return None;
        }
        let mut s: usize = fe + 1;
        if s < len && is_sign(t.get_char(s)) {
            neg_exp = t.get_char(s) == '-';
            s = s + 1;
        }
        if s >= len || skip_digits(t, len, s) != len {
            return None;
        }
        let mut k: usize = s;
        while k < len
            invariant
                s <= k <= len,
                len == t@.len(),
                cap == len + 21,
                ev <= 10 * cap + 9,
                ev <= cap ==> ev == digits_value(t@.subrange(s as int, k as int)),
                ev > cap ==> digits_value(t@.subrange(s as int, k as int)) > cap,
            decreases len - k,
        {
            let d = value_of_digit(t.get_char(k));
            proof {
                assert(t@.subrange(s as int, k + 1).drop_last() =~= t@.subrange(s as int, k as int));
                lemma_digits_value_grows(t@, s as int, k as int, k + 1);
            }
            if ev <= cap {
                ev = ev * 10 + d as u128;
            }
            k = k + 1;
        }
        proof {
            assert(exp_start(t@) == s);
            assert(exp_negative(t@) == neg_exp);
        }
    }
    let il: i128 = (ie - lead) as i128;
    let p: i128 = if neg_exp { il - ev as i128 } else { il + ev as i128 };
    proof {
        let at = point_pos(t@);
        if ev > cap {
            lemma_far_point(m@, p as int, at);
        } else {
            assert(p == at);
        }
    }
    let w = scaled_whole_u64(&m, p);
    match w {
        None => None,
        Some(v) => {
            if lead == 1 && t.get_char(0) == '-' && v > 0 {
                None
            } else {
                Some(v)
            }
        },
    }
}

} // verus!
