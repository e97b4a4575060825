//! Character-level helpers shared by the parsers and formatters.

use vstd::prelude::*;
use vstd::std_specs::iter::IteratorSpec;

verus! {

/// The characters of `s` in order, which is the view that vstd gives a `&str`.
pub(crate) fn chars_of(s: &str) -> (r: Vec<char>)
    ensures
        r@ == s@,
{
    broadcast use vstd::string::axiom_spec_iter, vstd::string::next_postcondition;

    let mut out: Vec<char> = Vec::new();
    let mut it = s.chars();
    assert(it.remaining() == s@);
    loop
        invariant
            it.obeys_prophetic_iter_laws(),
            it.decrease() is Some,
            out@ + it.remaining() == s@,
        ensures
            out@ == s@,
        decreases it.decrease()->0,
    {
        let ghost before = it.remaining();
        match it.next() {
            Some(c) => {
                assert(before.len() > 0);
                assert(out@.push(c) + it.remaining() =~= out@ + before);
                out.push(c);
            },
            None => {
                assert(before.len() == 0);
                assert(out@ + before =~= out@);
                break;
            },
        }
    }
    out
}

/// `String`'s `FromIterator<&char>`: the string made of the given characters, in
/// order.
#[verifier::external_body]
pub(crate) fn string_of(chars: &[char]) -> (r: String)
    ensures
        r@ == chars@,
{
    chars.iter().collect()
}

pub open spec fn is_digit(c: char) -> bool {
    '0' <= c <= '9'
}

pub open spec fn digit_value(c: char) -> int {
    c as int - '0' as int
}

/// The value of a non-empty run of decimal digits.
pub open spec fn decimal_value(s: Seq<char>) -> int
    decreases s.len(),
{
    if s.len() == 0 {
        0
    } else {
        decimal_value(s.drop_last()) * 10 + digit_value(s.last())
    }
}

pub open spec fn all_digits(s: Seq<char>) -> bool {
    forall|i: int| 0 <= i < s.len() ==> is_digit(#[trigger] s[i])
}

pub proof fn lemma_decimal_nonneg(s: Seq<char>)
    requires
        all_digits(s),
    ensures
        decimal_value(s) >= 0,
    decreases s.len(),
{
    if s.len() > 0 {
        lemma_decimal_nonneg(s.drop_last());
    }
}

/// Parses a decimal unsigned integer the way `str::parse::<u64>` does: an optional
/// leading `+`, then at least one ASCII digit, with no overflow.
pub open spec fn spec_parse_u64(s: Seq<char>) -> Option<u64> {
    let digits = if s.len() > 0 && s[0] == '+' { s.drop_first() } else { s };
    if digits.len() > 0 && all_digits(digits) && decimal_value(digits) <= u64::MAX {
        Some(decimal_value(digits) as u64)
    } else {
        None
    }
}

pub fn parse_u64(s: &[char]) -> (r: Option<u64>)
    ensures
        r == spec_parse_u64(s@),
{
    let start: usize = if s.len() > 0 && s[0] == '+' { 1 } else { 0 };
    let ghost digits = if s@.len() > 0 && s@[0] == '+' { s@.drop_first() } else { s@ };
    assert(digits =~= s@.subrange(start as int, s@.len() as int));
    if start >= s.len() {
        return None;
    }
    let mut value: u64 = 0;
    let mut i: usize = start;
    while i < s.len()
        invariant
            start <= i <= s.len(),
            digits =~= s@.subrange(start as int, s@.len() as int),
            digits == (if s@.len() > 0 && s@[0] == '+' { s@.drop_first() } else { s@ }),
            all_digits(s@.subrange(start as int, i as int)),
            value as int == decimal_value(s@.subrange(start as int, i as int)),
        decreases s.len() - i,
    {
        let c = s[i];
        let ghost prefix = s@.subrange(start as int, i as int);
        let ghost next = s@.subrange(start as int, i + 1);
        assert(next.drop_last() =~= prefix);
        if !('0' <= c && c <= '9') {
            proof {
                assert(digits[i - start] == c);
                assert(!is_digit(digits[(i - start) as int]));

            }
            return None;
        }
        let d: u64 = (c as u32 - '0' as u32) as u64;
        assert(all_digits(next)) by {
            assert forall|k: int| 0 <= k < next.len() implies is_digit(#[trigger] next[k]) by {
                if k < prefix.len() {
                    assert(next[k] == prefix[k]);
                }
            }
        }
        if value > 1844674407370955161 || (value == 1844674407370955161 && d > 5) {
            proof {
                assert(decimal_value(next) > u64::MAX);
                if all_digits(digits) {
                    lemma_decimal_prefix_bound(digits, (i + 1 - start) as int);
                    assert(digits.subrange(0, (i + 1 - start) as int) =~= next);
                }
            }
            return None;
        }
        value = value * 10 + d;
        i = i + 1;
    }
    assert(s@.subrange(start as int, s@.len() as int) =~= digits);
    Some(value)
}

/// A prefix of a digit run never exceeds the value of the whole run.
proof fn lemma_decimal_prefix_bound(s: Seq<char>, n: int)
    requires
        all_digits(s),
        0 <= n <= s.len(),
    ensures
        decimal_value(s.subrange(0, n)) <= decimal_value(s),
    decreases s.len(),
{
    if n < s.len() {
        assert(s.drop_last() =~= s.subrange(0, s.len() - 1));
        lemma_decimal_prefix_bound(s.drop_last(), n);
        assert(s.drop_last().subrange(0, n) =~= s.subrange(0, n));
        assert(all_digits(s.drop_last()));
        lemma_decimal_nonneg(s.drop_last());
    } else {
        assert(s.subrange(0, n) =~= s);
    }
}

/// Appends the characters of `tail` to `out`.
pub fn extend_chars(out: &mut Vec<char>, tail: &[char])
    ensures
        final(out)@ == old(out)@ + tail@,
{
    let ghost start = out@;
    let mut i: usize = 0;
    while i < tail.len()
        invariant
            i <= tail.len(),
            out@ =~= start + tail@.subrange(0, i as int),
        decreases tail.len() - i,
    {
        out.push(tail[i]);
        i = i + 1;
    }
    assert(tail@.subrange(0, tail@.len() as int) =~= tail@);
}

/// Character-wise equality of two string slices.
pub fn str_eq(a: &str, b: &str) -> (r: bool)
    ensures
        r == (a@ == b@),
{
    let ac = chars_of(a);
    let bc = chars_of(b);
    crate::paths::seq_eq(ac.as_slice(), bc.as_slice())
}

pub open spec fn hex_char(d: int) -> char {
    if d < 10 {
        ((d + '0' as int) as u32) as char
    } else {
        ((d - 10 + 'a' as int) as u32) as char
    }
}

/// The lowest `n` hexadecimal digits of `d`, most significant first, in lowercase.
pub open spec fn hex_fixed(d: nat, n: nat) -> Seq<char>
    decreases n,
{
    if n == 0 {
        Seq::empty()
    } else {
        hex_fixed(d / 16, (n - 1) as nat).push(hex_char((d % 16) as int))
    }
}

pub fn hex_digits(d: u64, n: usize) -> (r: Vec<char>)
    ensures
        r@ == hex_fixed(d as nat, n as nat),
    decreases n,
{
    if n == 0 {
        return Vec::new();
    }
    let mut out = hex_digits(d / 16, n - 1);
    let digit = d % 16;
    let c: char = if digit < 10 {
        ((digit as u8) + 48u8) as char
    } else {
        ((digit as u8) - 10 + 97u8) as char
    };
    assert(c == hex_char((d as nat % 16) as int));
    out.push(c);
    out
}

/// The decimal digits of `n` without leading zeros (`0` for zero).
pub open spec fn decimal_string(n: nat) -> Seq<char>
    decreases n,
{
    if n < 10 {
        seq![((n + '0' as int) as u32) as char]
    } else {
        decimal_string(n / 10).push((((n % 10) + '0' as int) as u32) as char)
    }
}

pub fn decimal_digits(n: u64) -> (r: Vec<char>)
    ensures
        r@ == decimal_string(n as nat),
    decreases n,
{
    if n < 10 {
        let mut out = Vec::new();
        out.push(((n as u8) + 48u8) as char);
        assert(out@ =~= decimal_string(n as nat));
        return out;
    }
    let mut out = decimal_digits(n / 10);
    out.push((((n % 10) as u8) + 48u8) as char);
    out
}

} // verus!
