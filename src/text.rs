use vstd::prelude::*;
use vstd::string::{StrSliceExecFns, StringExecFns};

verus! {

/// Unicode white space, the characters that separate the tokens of a line.
pub open spec fn space(c: char) -> bool {
    let u = c as u32;
    (0x9 <= u && u <= 0xd) || u == 0x20 || u == 0x85 || u == 0xa0 || u == 0x1680
        || (0x2000 <= u && u <= 0x200a) || u == 0x2028 || u == 0x2029 || u == 0x202f
        || u == 0x205f || u == 0x3000
}

/// Tells whether `c` is white space.
pub fn is_space(c: char) -> (r: bool)
    ensures
        r == space(c),
{
    let u = c as u32;
    (0x9 <= u && u <= 0xd) || u == 0x20 || u == 0x85 || u == 0xa0 || u == 0x1680
        || (0x2000 <= u && u <= 0x200a) || u == 0x2028 || u == 0x2029 || u == 0x202f
        || u == 0x205f || u == 0x3000
}

/// The first position at or after `i` that holds no white space.
pub open spec fn skip_spaces(s: Seq<char>, i: int) -> int
    decreases s.len() - i,
{
    if 0 <= i < s.len() && space(s[i]) {
        skip_spaces(s, i + 1)
    } else {
        i
    }
}

/// The first position at or after `i` that holds white space.
pub open spec fn skip_word(s: Seq<char>, i: int) -> int
    decreases s.len() - i,
{
    if 0 <= i < s.len() && !space(s[i]) {
        skip_word(s, i + 1)
    } else {
        i
    }
}

/// The white-space separated tokens of `s` from position `i` on.
pub open spec fn tokens_from(s: Seq<char>, i: int) -> Seq<Seq<char>>
    decreases s.len() - i via tokens_from_decreases
{
    let a = skip_spaces(s, i);
    if i < 0 || a >= s.len() {
        seq![]
    } else {
        let b = skip_word(s, a);
        seq![s.subrange(a, b)] + tokens_from(s, b)
    }
}

/// The white-space separated tokens of `s`, in order.
pub open spec fn tokens(s: Seq<char>) -> Seq<Seq<char>> {
    tokens_from(s, 0)
}

pub proof fn lemma_skip_spaces_bounds(s: Seq<char>, i: int)
    requires
        0 <= i <= s.len(),
    ensures
        i <= skip_spaces(s, i) <= s.len(),
    decreases s.len() - i,
{
    if i < s.len() && space(s[i]) {
        lemma_skip_spaces_bounds(s, i + 1);
    }
}

pub proof fn lemma_skip_word_bounds(s: Seq<char>, i: int)
    requires
        0 <= i <= s.len(),
    ensures
        i <= skip_word(s, i) <= s.len(),
    decreases s.len() - i,
{
    if i < s.len() && !space(s[i]) {
        lemma_skip_word_bounds(s, i + 1);
    }
}

proof fn lemma_skip_spaces_fixed(s: Seq<char>, i: int)
    requires
        0 <= i <= s.len(),
    ensures
        skip_spaces(s, i) < s.len() ==> !space(s[skip_spaces(s, i)]),
    decreases s.len() - i,
{
    if i < s.len() && space(s[i]) {
        lemma_skip_spaces_fixed(s, i + 1);
    }
}

#[via_fn]
proof fn tokens_from_decreases(s: Seq<char>, i: int) {
    let a = skip_spaces(s, i);
    if 0 <= i && a < s.len() {
        if i > s.len() {
            assert(a == i);
        }
        lemma_skip_spaces_bounds(s, i);
        assert(!space(s[a])) by {
            if space(s[a]) {
                lemma_skip_spaces_fixed(s, i);
            }
        }
        lemma_skip_word_bounds(s, a + 1);
        assert(skip_word(s, a) == skip_word(s, a + 1));
    }
}

fn next_non_space(s: &str, len: usize, i: usize) -> (j: usize)
    requires
        len == s@.len(),
        i <= len,
    ensures
        j == skip_spaces(s@, i as int),
        i <= j <= len,
{
    let mut j: usize = i;
    while j < len && is_space(s.get_char(j))
        invariant
            i <= j <= len,
            len == s@.len(),
            skip_spaces(s@, i as int) == skip_spaces(s@, j as int),
        decreases len - j,
    {
        j = j + 1;
    }
    j
}

fn next_space(s: &str, len: usize, i: usize) -> (j: usize)
    requires
        len == s@.len(),
        i <= len,
    ensures
        j == skip_word(s@, i as int),
        i <= j <= len,
{
    let mut j: usize = i;
    while j < len && !is_space(s.get_char(j))
        invariant
            i <= j <= len,
            len == s@.len(),
            skip_word(s@, i as int) == skip_word(s@, j as int),
        decreases len - j,
    {
        j = j + 1;
    }
    j
}

/// Splits `s` at white space, dropping empty tokens.
pub fn split_tokens(s: &str) -> (r: Vec<String>)
    ensures
        r.deep_view() == tokens(s@),
{
    let len = s.unicode_len();
    let mut r: Vec<String> = Vec::new();
    let mut i: usize = 0;
    while i < len
        invariant
            i <= len,
            len == s@.len(),
            r.deep_view() + tokens_from(s@, i as int) == tokens(s@),
        decreases len - i,
    {
        let a = next_non_space(s, len, i);
        if a >= len {
            assert(tokens_from(s@, i as int) == Seq::<Seq<char>>::empty());
            i = len;
            assert(tokens_from(s@, i as int) == Seq::<Seq<char>>::empty());
        } else {
            let b = next_space(s, len, a);
            proof {
                if a + 1 <= len {
                    lemma_skip_word_bounds(s@, a + 1);
                }
            }
            let word = String::from_str(s.substring_char(a, b));
            let ghost before = r.deep_view();
            r.push(word);
            assert(r.deep_view() =~= before.push(s@.subrange(a as int, b as int)));
            assert(tokens_from(s@, i as int) == seq![s@.subrange(a as int, b as int)]
                + tokens_from(s@, b as int));
            assert(r.deep_view() + tokens_from(s@, b as int) =~= before + tokens_from(
                s@,
                i as int,
            ));
            i = b;
        }
    }
    assert(tokens_from(s@, len as int) == Seq::<Seq<char>>::empty());
    assert(r.deep_view() + Seq::<Seq<char>>::empty() =~= r.deep_view());
    r
}

/// The character of a decimal digit.
pub open spec fn digit_char(d: nat) -> char {
    if d == 0 { '0' }
    else if d == 1 { '1' }
    else if d == 2 { '2' }
    else if d == 3 { '3' }
    else if d == 4 { '4' }
    else if d == 5 { '5' }
    else if d == 6 { '6' }
    else if d == 7 { '7' }
    else if d == 8 { '8' }
    else { '9' }
}

/// The decimal notation of `n`, without leading zeros.
pub open spec fn decimal(n: nat) -> Seq<char>
    decreases n,
{
    if n < 10 {
        seq![digit_char(n)]
    } else {
        decimal(n / 10).push(digit_char(n % 10))
    }
}

/// The decimal notation of `n` with at least two digits.
pub open spec fn two_digits(n: nat) -> Seq<char> {
    if n < 10 {
        seq!['0'] + decimal(n)
    } else {
        decimal(n)
    }
}

fn digit_str(d: u64) -> (r: &'static str)
    requires
        d < 10,
    ensures
        r@ == seq![digit_char(d as nat)],
{
    proof {
        reveal_strlit("0");
        reveal_strlit("1");
        reveal_strlit("2");
        reveal_strlit("3");
        reveal_strlit("4");
        reveal_strlit("5");
        reveal_strlit("6");
        reveal_strlit("7");
        reveal_strlit("8");
        reveal_strlit("9");
    }
    let r = if d == 0 { "0" }
    else if d == 1 { "1" }
    else if d == 2 { "2" }
    else if d == 3 { "3" }
    else if d == 4 { "4" }
    else if d == 5 { "5" }
    else if d == 6 { "6" }
    else if d == 7 { "7" }
    else if d == 8 { "8" }
    else { "9" };
    assert(r@ =~= seq![digit_char(d as nat)]);
    r
}

/// Appends the decimal notation of `n` to `s`.
pub fn push_decimal(s: &mut String, n: u64)
    ensures
        final(s)@ == old(s)@ + decimal(n as nat),
    decreases n,
{
    if n >= 10 {
        push_decimal(s, n / 10);
    }
    s.append(digit_str(n % 10));
    assert(s@ =~= old(s)@ + decimal(n as nat));
}

/// Appends the decimal notation of `n` to `s`, with a leading zero below ten.
pub fn push_two_digits(s: &mut String, n: u64)
    ensures
        final(s)@ == old(s)@ + two_digits(n as nat),
{
    if n < 10 {
        proof {
            reveal_strlit("0");
        }
        s.append("0");
    }
    push_decimal(s, n);
    assert(s@ =~= old(s)@ + two_digits(n as nat));
}

} // verus!
