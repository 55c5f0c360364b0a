use vstd::prelude::*;

use vstd::string::StrSliceExecFns;

verus! {

/// The decimal digit character for a value in 0..=9.
pub open spec fn digit_char(d: int) -> char {
    if d == 0 {
        '0'
    } else if d == 1 {
        '1'
    } else if d == 2 {
        '2'
    } else if d == 3 {
        '3'
    } else if d == 4 {
        '4'
    } else if d == 5 {
        '5'
    } else if d == 6 {
        '6'
    } else if d == 7 {
        '7'
    } else if d == 8 {
        '8'
    } else {
        '9'
    }
}

/// The decimal digits of a non-negative integer, most significant first,
/// with no leading zeros (a single '0' for zero).
pub open spec fn dec_digits(n: nat) -> Seq<char>
    decreases n,
{
    if n < 10 {
        seq![digit_char(n as int)]
    } else {
        dec_digits(n / 10).push(digit_char((n % 10) as int))
    }
}

/// The decimal text of an integer: a leading '-' for negative values.
pub open spec fn int_text(n: int) -> Seq<char> {
    if n < 0 {
        seq!['-'] + dec_digits((-n) as nat)
    } else {
        dec_digits(n as nat)
    }
}

/// Whether a character is an ASCII decimal digit.
pub open spec fn is_digit_char(c: char) -> bool {
    '0' as u32 <= c as u32 <= '9' as u32
}

/// The numeric value of an ASCII decimal digit character.
pub open spec fn digit_value(c: char) -> int {
    c as u32 - '0' as u32
}

/// The character for a decimal digit value.
pub fn digit_to_char(d: u8) -> (c: char)
    requires
        d <= 9,
    ensures
        c == digit_char(d as int),
{
    if d == 0 {
        '0'
    } else if d == 1 {
        '1'
    } else if d == 2 {
        '2'
    } else if d == 3 {
        '3'
    } else if d == 4 {
        '4'
    } else if d == 5 {
        '5'
    } else if d == 6 {
        '6'
    } else if d == 7 {
        '7'
    } else if d == 8 {
        '8'
    } else {
        '9'
    }
}

/// The digit value of a character, if it is an ASCII decimal digit.
pub fn char_digit(c: char) -> (r: Option<u8>)
    ensures
        r is Some <==> is_digit_char(c),
        r is Some ==> r->0 as int == digit_value(c) && r->0 <= 9,
{
    let v = c as u32;
    if v >= 48 && v <= 57 {
        Some((v - 48) as u8)
    } else {
        None
    }
}

/// Relies on `String::push` from std: appends one character to the string.
#[verifier::external_body]
pub fn push_char(s: &mut String, c: char)
    ensures
        final(s)@ == old(s)@.push(c),
{
    s.push(c);
}

/// Appends the decimal digits of `n` to `s`.
pub fn push_uint_digits(s: &mut String, n: u128)
    ensures
        final(s)@ == old(s)@ + dec_digits(n as nat),
    decreases n,
{
    if n < 10 {
        let c = digit_to_char(n as u8);
        push_char(s, c);
        assert(final(s)@ =~= old(s)@ + dec_digits(n as nat));
    } else {
        push_uint_digits(s, n / 10);
        let c = digit_to_char((n % 10) as u8);
        push_char(s, c);
        assert(final(s)@ =~= old(s)@ + dec_digits(n as nat));
    }
}

/// Appends the decimal text of a signed integer to `s`.
pub fn push_int(s: &mut String, n: i64)
    ensures
        final(s)@ == old(s)@ + int_text(n as int),
{
    if n < 0 {
        push_char(s, '-');
        let mag: u128 = (-(n as i128)) as u128;
        push_uint_digits(s, mag);
        assert(final(s)@ =~= old(s)@ + int_text(n as int));
    } else {
        push_uint_digits(s, n as u128);
    }
}

/// The text from position `i` on with each doubled quote collapsed to a
/// single quote, scanning left to right.
pub open spec fn unescape_from(s: Seq<char>, i: int) -> Seq<char>
    decreases s.len() - i,
{
    if i < 0 || i >= s.len() {
        Seq::empty()
    } else if s[i] == '"' && i + 1 < s.len() && s[i + 1] == '"' {
        seq!['"'] + unescape_from(s, i + 2)
    } else {
        seq![s[i]] + unescape_from(s, i + 1)
    }
}

/// The text with each doubled quote collapsed to a single quote.
pub open spec fn unescape_dq(s: Seq<char>) -> Seq<char> {
    unescape_from(s, 0)
}

/// Collapses each doubled quote in `s` to a single quote.
pub fn unescape_quotes(s: &str) -> (r: String)
    ensures
        r@ == unescape_dq(s@),
{
    let n = s.unicode_len();
    let mut out = String::new();
    let mut i: usize = 0;
    proof {
        assert(out@ + unescape_from(s@, 0) =~= unescape_from(s@, 0));
    }
    while i < n
        invariant
            i <= n,
            n == s@.len(),
            out@ + unescape_from(s@, i as int) == unescape_dq(s@),
        decreases n - i,
    {
        let c = s.get_char(i);
        if c == '"' && i + 1 < n && s.get_char(i + 1) == '"' {
            push_char(&mut out, '"');
            i += 2;
        } else {
            push_char(&mut out, c);
            i += 1;
        }
        proof {
            assert(out@ + unescape_from(s@, i as int) =~= unescape_dq(s@));
        }
    }
    proof {
        assert(out@ =~= unescape_dq(s@));
    }
    out
}

/// Strict lexicographic order on character sequences, comparing from
/// position `i`: by code point at the first difference, with a proper
/// prefix ordered first.
pub open spec fn lex_lt_from(a: Seq<char>, b: Seq<char>, i: int) -> bool
    decreases b.len() - i,
{
    if i < 0 || i >= b.len() {
        false
    } else if i >= a.len() {
        true
    } else if a[i] != b[i] {
        (a[i] as u32) < (b[i] as u32)
    } else {
        lex_lt_from(a, b, i + 1)
    }
}

/// Strict lexicographic order on character sequences.
pub open spec fn lex_lt(a: Seq<char>, b: Seq<char>) -> bool {
    lex_lt_from(a, b, 0)
}

/// Whether `a` is lexicographically before `b`.
pub fn str_lt(a: &str, b: &str) -> (r: bool)
    ensures
        r == lex_lt(a@, b@),
{
    let la = a.unicode_len();
    let lb = b.unicode_len();
    let mut i: usize = 0;
    while i < la && i < lb
        invariant
            i <= la,
            i <= lb,
            la == a@.len(),
            lb == b@.len(),
            lex_lt(a@, b@) == lex_lt_from(a@, b@, i as int),
        decreases la - i,
    {
        let ca = a.get_char(i);
        let cb = b.get_char(i);
        if ca != cb {
            return (ca as u32) < (cb as u32);
        }
        i += 1;
    }
    i < lb
}

/// Whether `r` is a suffix of `l`.
pub open spec fn is_suffix_of(r: Seq<char>, l: Seq<char>) -> bool {
    r.len() <= l.len() && l.subrange(l.len() - r.len(), l.len() as int) == r
}

/// Whether `l` ends with `r`.
pub fn str_ends_with(l: &str, r: &str) -> (res: bool)
    ensures
        res == is_suffix_of(r@, l@),
{
    let ll = l.unicode_len();
    let rl = r.unicode_len();
    if rl > ll {
        return false;
    }
    let mut i: usize = 0;
    while i < rl
        invariant
            i <= rl,
            rl <= ll,
            ll == l@.len(),
            rl == r@.len(),
            forall|j: int| 0 <= j < i ==> l@[ll - rl + j] == r@[j],
        decreases rl - i,
    {
        let cl = l.get_char(ll - rl + i);
        let cr = r.get_char(i);
        if cl != cr {
            proof {
                assert(l@.subrange(ll - rl, ll as int)[i as int] != r@[i as int]);
            }
            return false;
        }
        i += 1;
    }
    proof {
        assert(l@.subrange(ll - rl, ll as int) =~= r@);
    }
    true
}

/// `s` repeated `k` times.
pub open spec fn repeat_text(s: Seq<char>, k: nat) -> Seq<char>
    decreases k,
{
    if k == 0 {
        Seq::empty()
    } else {
        repeat_text(s, (k - 1) as nat) + s
    }
}

/// Repeats `s` `count` times.
pub fn repeat_str(s: &str, count: u64) -> (r: String)
    ensures
        r@ == repeat_text(s@, count as nat),
{
    let mut out = String::new();
    let mut j: u64 = 0;
    proof {
        assert(out@ =~= repeat_text(s@, 0));
    }
    while j < count
        invariant
            j <= count,
            out@ == repeat_text(s@, j as nat),
        decreases count - j,
    {
        out.append(s);
        j += 1;
    }
    out
}

/// The first `n` characters of `s`.
pub fn str_take(s: &str, n: usize) -> (r: String)
    requires
        n <= s@.len(),
    ensures
        r@ == s@.subrange(0, n as int),
{
    s.substring_char(0, n).to_owned()
}

/// Whether two string slices hold the same characters.
pub fn str_eq(a: &str, b: &str) -> (r: bool)
    ensures
        r == (a@ == b@),
{
    let la = a.unicode_len();
    let lb = b.unicode_len();
    if la != lb {
        assert(a@ != b@);
        return false;
    }
    let mut i: usize = 0;
    while i < la
        invariant
            la == a@.len(),
            la == b@.len(),
            i <= la,
            forall|j: int| 0 <= j < i ==> a@[j] == b@[j],
        decreases la - i,
    {
        let ca = a.get_char(i);
        let cb = b.get_char(i);
        if ca != cb {
            assert(a@ != b@);
            return false;
        }
        i += 1;
    }
    assert(a@ =~= b@);
    true
}

} // verus!
