//! Whitespace, line splitting and UTF-8 decoding, stated the way the standard
//! library's `str` methods behave.

use vstd::prelude::*;
use vstd::utf8::valid_utf8;
use vstd::utf8::decode_utf8;

verus! {

/// Unicode `White_Space`, the set that `char::is_whitespace` tests.
pub open spec fn is_space(c: char) -> bool {
    ('\t' <= c && c <= '\r') || c == ' ' || c == '\u{85}' || c == '\u{a0}' || c == '\u{1680}'
        || ('\u{2000}' <= c && c <= '\u{200a}') || c == '\u{2028}' || c == '\u{2029}' || c
        == '\u{202f}' || c == '\u{205f}' || c == '\u{3000}'
}

pub fn is_space_char(c: char) -> (r: bool)
    ensures
        r == is_space(c),
{
    ('\t' <= c && c <= '\r') || c == ' ' || c == '\u{85}' || c == '\u{a0}' || c == '\u{1680}'
        || ('\u{2000}' <= c && c <= '\u{200a}') || c == '\u{2028}' || c == '\u{2029}' || c
        == '\u{202f}' || c == '\u{205f}' || c == '\u{3000}'
}

/// The number of whitespace characters at the start of `s`.
pub open spec fn leading_spaces(s: Seq<char>) -> nat
    decreases s.len(),
{
    if s.len() > 0 && is_space(s[0]) {
        1 + leading_spaces(s.drop_first())
    } else {
        0
    }
}

/// The number of whitespace characters at the end of `s`.
pub open spec fn trailing_spaces(s: Seq<char>) -> nat
    decreases s.len(),
{
    if s.len() > 0 && is_space(s.last()) {
        1 + trailing_spaces(s.drop_last())
    } else {
        0
    }
}

/// `s` without leading whitespace (`str::trim_start`).
pub open spec fn trim_start(s: Seq<char>) -> Seq<char> {
    s.subrange(leading_spaces(s) as int, s.len() as int)
}

/// `s` without trailing whitespace (`str::trim_end`).
pub open spec fn trim_end(s: Seq<char>) -> Seq<char> {
    s.subrange(0, s.len() - trailing_spaces(s))
}

/// `s` without leading or trailing whitespace (`str::trim`).
pub open spec fn trim(s: Seq<char>) -> Seq<char> {
    trim_end(trim_start(s))
}

pub proof fn lemma_leading_bound(s: Seq<char>)
    ensures
        leading_spaces(s) <= s.len(),
        forall|j: int| 0 <= j < leading_spaces(s) ==> is_space(#[trigger] s[j]),
        leading_spaces(s) < s.len() ==> !is_space(s[leading_spaces(s) as int]),
    decreases s.len(),
{
    if s.len() > 0 && is_space(s[0]) {
        lemma_leading_bound(s.drop_first());
        assert forall|j: int| 0 <= j < leading_spaces(s) implies is_space(#[trigger] s[j]) by {
            if j > 0 {
                assert(s[j] == s.drop_first()[j - 1]);
            }
        }
    }
}

pub proof fn lemma_trailing_bound(s: Seq<char>)
    ensures
        trailing_spaces(s) <= s.len(),
        forall|j: int| s.len() - trailing_spaces(s) <= j < s.len() ==> is_space(#[trigger] s[j]),
        trailing_spaces(s) < s.len() ==> !is_space(s[s.len() - trailing_spaces(s) - 1]),
    decreases s.len(),
{
    if s.len() > 0 && is_space(s.last()) {
        lemma_trailing_bound(s.drop_last());
        assert forall|j: int| s.len() - trailing_spaces(s) <= j < s.len() implies is_space(
            #[trigger] s[j],
        ) by {
            if j < s.len() - 1 {
                assert(s[j] == s.drop_last()[j]);
            }
        }
    }
}

/// Leading whitespace counted from position `i` on.
proof fn lemma_leading_step(s: Seq<char>, i: int)
    requires
        0 <= i < s.len(),
        forall|j: int| 0 <= j < i ==> is_space(#[trigger] s[j]),
    ensures
        leading_spaces(s) == i + leading_spaces(s.subrange(i, s.len() as int)),
    decreases i,
{
    if i > 0 {
        assert(is_space(s[0]));
        let t = s.drop_first();
        assert forall|j: int| 0 <= j < i - 1 implies is_space(#[trigger] t[j]) by {
            assert(t[j] == s[j + 1]);
        }
        lemma_leading_step(t, i - 1);
        assert(t.subrange(i - 1, t.len() as int) =~= s.subrange(i, s.len() as int));
    } else {
        assert(s.subrange(0, s.len() as int) =~= s);
    }
}

proof fn lemma_leading_all(s: Seq<char>)
    requires
        forall|j: int| 0 <= j < s.len() ==> is_space(#[trigger] s[j]),
    ensures
        leading_spaces(s) == s.len(),
    decreases s.len(),
{
    if s.len() > 0 {
        let t = s.drop_first();
        assert forall|j: int| 0 <= j < t.len() implies is_space(#[trigger] t[j]) by {
            assert(t[j] == s[j + 1]);
        }
        lemma_leading_all(t);
    }
}

proof fn lemma_trailing_step(s: Seq<char>, k: int)
    requires
        0 <= k < s.len(),
        forall|j: int| s.len() - k <= j < s.len() ==> is_space(#[trigger] s[j]),
    ensures
        trailing_spaces(s) == k + trailing_spaces(s.subrange(0, s.len() - k)),
    decreases k,
{
    if k > 0 {
        assert(is_space(s.last()));
        let t = s.drop_last();
        assert forall|j: int| t.len() - (k - 1) <= j < t.len() implies is_space(#[trigger] t[j]) by {
            assert(t[j] == s[j]);
        }
        lemma_trailing_step(t, k - 1);
        assert(t.subrange(0, t.len() - (k - 1)) =~= s.subrange(0, s.len() - k));
    } else {
        assert(s.subrange(0, s.len() as int) =~= s);
    }
}

/// The index of the first non-whitespace character of `s`, or its length.
pub fn leading_space_count(s: &[char]) -> (r: usize)
    ensures
        r == leading_spaces(s@),
{
    let mut i: usize = 0;
    while i < s.len() && is_space_char(s[i])
        invariant
            i <= s.len(),
            forall|j: int| 0 <= j < i ==> is_space(#[trigger] s@[j]),
        decreases s.len() - i,
    {
        i = i + 1;
    }
    proof {
        if i < s.len() {
            lemma_leading_step(s@, i as int);
            assert(s@.subrange(i as int, s@.len() as int)[0] == s@[i as int]);
        } else {
            lemma_leading_all(s@);
        }
    }
    i
}

pub fn trailing_space_count(s: &[char]) -> (r: usize)
    ensures
        r == trailing_spaces(s@),
{
    let mut k: usize = 0;
    while k < s.len() && is_space_char(s[s.len() - 1 - k])
        invariant
            k <= s.len(),
            forall|j: int| s.len() - k <= j < s.len() ==> is_space(#[trigger] s@[j]),
        decreases s.len() - k,
    {
        k = k + 1;
    }
    proof {
        if k < s.len() {
            lemma_trailing_step(s@, k as int);
            let t = s@.subrange(0, s@.len() - k);
            assert(t.last() == s@[s@.len() - 1 - k]);
        } else {
            lemma_trailing_step_all(s@);
        }
    }
    k
}

proof fn lemma_trailing_step_all(s: Seq<char>)
    requires
        forall|j: int| 0 <= j < s.len() ==> is_space(#[trigger] s[j]),
    ensures
        trailing_spaces(s) == s.len(),
    decreases s.len(),
{
    if s.len() > 0 {
        let t = s.drop_last();
        assert forall|j: int| 0 <= j < t.len() implies is_space(#[trigger] t[j]) by {
            assert(t[j] == s[j]);
        }
        lemma_trailing_step_all(t);
    }
}

/// The characters of `s[from..to]`.
pub fn slice_chars(s: &[char], from: usize, to: usize) -> (r: Vec<char>)
    requires
        from <= to <= s.len(),
    ensures
        r@ == s@.subrange(from as int, to as int),
{
    let mut out: Vec<char> = Vec::new();
    let mut i = from;
    while i < to
        invariant
            from <= i <= to <= s.len(),
            out@ == s@.subrange(from as int, i as int),
        decreases to - i,
    {
        out.push(s[i]);
        i = i + 1;
        assert(out@ =~= s@.subrange(from as int, i as int));
    }
    out
}

/// `str::trim` on characters.
pub fn trim_chars(s: &[char]) -> (r: Vec<char>)
    ensures
        r@ == trim(s@),
{
    let a = leading_space_count(s);
    proof {
        lemma_leading_bound(s@);
    }
    let rest = slice_chars(s, a, s.len());
    let b = trailing_space_count(rest.as_slice());
    proof {
        lemma_trailing_bound(rest@);
    }
    slice_chars(rest.as_slice(), 0, rest.len() - b)
}

/// `s` with one trailing carriage return removed.
pub open spec fn strip_cr(s: Seq<char>) -> Seq<char> {
    if s.len() > 0 && s.last() == '\r' {
        s.drop_last()
    } else {
        s
    }
}

/// The index of the first `c` in `s`, or the length of `s` when there is none.
pub open spec fn index_of(s: Seq<char>, c: char) -> int
    decreases s.len(),
{
    if s.len() == 0 {
        0
    } else if s[0] == c {
        0
    } else {
        1 + index_of(s.drop_first(), c)
    }
}

pub proof fn lemma_index_of(s: Seq<char>, c: char, i: int)
    requires
        0 <= i <= s.len(),
        forall|j: int| 0 <= j < i ==> s[j] != c,
        i == s.len() || s[i] == c,
    ensures
        index_of(s, c) == i,
    decreases i,
{
    if i > 0 {
        let t = s.drop_first();
        assert forall|j: int| 0 <= j < i - 1 implies t[j] != c by {
            assert(t[j] == s[j + 1]);
        }
        if i < s.len() {
            assert(t[i - 1] == s[i]);
        }
        lemma_index_of(t, c, i - 1);
    }
}

/// The lines of `s` as `str::lines` yields them: split after each `\n`, with the
/// `\n` and one `\r` before it removed, and no empty line after a final `\n`.
pub open spec fn lines(s: Seq<char>) -> Seq<Seq<char>>
    decreases s.len(),
{
    if s.len() == 0 {
        Seq::empty()
    } else {
        let i = index_of(s, '\n');
        if i >= s.len() {
            seq![s]
        } else {
            proof {
                lemma_index_bound(s, '\n');
            }
            seq![strip_cr(s.subrange(0, i))] + lines(s.subrange(i + 1, s.len() as int))
        }
    }
}

pub proof fn lemma_index_bound(s: Seq<char>, c: char)
    ensures
        0 <= index_of(s, c) <= s.len(),
        index_of(s, c) < s.len() ==> s[index_of(s, c)] == c,
        forall|j: int| 0 <= j < index_of(s, c) ==> s[j] != c,
    decreases s.len(),
{
    if s.len() > 0 && s[0] != c {
        let t = s.drop_first();
        lemma_index_bound(t, c);
        assert forall|j: int| 0 <= j < index_of(s, c) implies s[j] != c by {
            if j > 0 {
                assert(s[j] == t[j - 1]);
            }
        }
    }
}

/// `str::lines` on characters.
pub fn split_lines(s: &[char]) -> (r: Vec<Vec<char>>)
    ensures
        r@.len() == lines(s@).len(),
        forall|k: int| 0 <= k < r@.len() ==> (#[trigger] r@[k])@ == lines(s@)[k],
{
    let mut out: Vec<Vec<char>> = Vec::new();
    let ghost mut acc: Seq<Seq<char>> = Seq::empty();
    let mut start: usize = 0;
    let mut i: usize = 0;
    assert(s@.subrange(0, s@.len() as int) =~= s@);
    assert(acc + lines(s@) =~= lines(s@));
    while i < s.len()
        invariant
            start <= i <= s.len(),
            forall|j: int| start <= j < i ==> s@[j] != '\n',
            acc + lines(s@.subrange(start as int, s@.len() as int)) == lines(s@),
            out@.len() == acc.len(),
            forall|k: int| 0 <= k < out@.len() ==> (#[trigger] out@[k])@ == acc[k],
        decreases s.len() - i,
    {
        if s[i] == '\n' {
            let ghost t = s@.subrange(start as int, s@.len() as int);
            proof {
                assert forall|j: int| 0 <= j < i - start implies t[j] != '\n' by {
                    assert(t[j] == s@[start + j]);
                }
                assert(t[i - start] == s@[i as int]);
                lemma_index_of(t, '\n', i - start);
                assert(t.subrange(0, i - start) =~= s@.subrange(start as int, i as int));
                assert(t.subrange(i - start + 1, t.len() as int) =~= s@.subrange(
                    i + 1,
                    s@.len() as int,
                ));
            }
            let mut line = slice_chars(s, start, i);
            if line.len() > 0 && line[line.len() - 1] == '\r' {
                line.pop();
                assert(line@ =~= strip_cr(s@.subrange(start as int, i as int)));
            }
            proof {
                assert(lines(t) == seq![strip_cr(s@.subrange(start as int, i as int))] + lines(
                    s@.subrange(i + 1, s@.len() as int),
                ));
                assert(acc.push(line@) + lines(s@.subrange(i + 1, s@.len() as int)) =~= acc
                    + lines(t));
                acc = acc.push(line@);
            }
            out.push(line);
            start = i + 1;
        }
        i = i + 1;
    }
    if start < s.len() {
        let last = slice_chars(s, start, s.len());
        proof {
            let t = s@.subrange(start as int, s@.len() as int);
            lemma_index_of(t, '\n', t.len() as int);
            assert(lines(t) == seq![t]);
            assert(acc.push(t) =~= acc + lines(t));
            acc = acc.push(t);
        }
        out.push(last);
    } else {
        proof {
            assert(lines(s@.subrange(start as int, s@.len() as int)) =~= Seq::<Seq<char>>::empty());
            assert(acc + Seq::<Seq<char>>::empty() =~= acc);
        }
    }
    out
}

/// `std::str::from_utf8`: the text when the bytes are valid UTF-8.
#[verifier::external_body]
pub(crate) fn utf8_text(bytes: &[u8]) -> (r: Option<String>)
    ensures
        r is Some <==> valid_utf8(bytes@),
        r matches Some(s) ==> s@ == decode_utf8(bytes@),
{
    std::str::from_utf8(bytes).ok().map(|text| text.to_owned())
}

/// What `String::from_utf8_lossy` makes of some bytes.
pub uninterp spec fn lossy_utf8(bytes: Seq<u8>) -> Seq<char>;

/// `String::from_utf8_lossy`: the bytes decoded, with each invalid sequence replaced
/// by U+FFFD. Valid UTF-8 decodes unchanged; how invalid sequences are replaced is
/// left to the name.
#[verifier::external_body]
pub(crate) fn lossy_text(bytes: &[u8]) -> (r: String)
    ensures
        r@ == lossy_utf8(bytes@),
        valid_utf8(bytes@) ==> r@ == decode_utf8(bytes@),
{
    String::from_utf8_lossy(bytes).into_owned()
}

/// The number of non-whitespace characters at the start of `s`.
pub open spec fn token_len(s: Seq<char>) -> nat
    decreases s.len(),
{
    if s.len() > 0 && !is_space(s[0]) {
        1 + token_len(s.drop_first())
    } else {
        0
    }
}

/// The first whitespace-separated word of `s` (`str::split_whitespace().next()`).
pub open spec fn first_word(s: Seq<char>) -> Option<Seq<char>> {
    let t = trim_start(s);
    if t.len() == 0 {
        None
    } else {
        Some(t.subrange(0, token_len(t) as int))
    }
}

proof fn lemma_token_step(s: Seq<char>, i: int)
    requires
        0 <= i <= s.len(),
        forall|j: int| 0 <= j < i ==> !is_space(#[trigger] s[j]),
        i == s.len() || is_space(s[i]),
    ensures
        token_len(s) == i,
    decreases i,
{
    if i > 0 {
        let t = s.drop_first();
        assert forall|j: int| 0 <= j < i - 1 implies !is_space(#[trigger] t[j]) by {
            assert(t[j] == s[j + 1]);
        }
        if i < s.len() {
            assert(t[i - 1] == s[i]);
        }
        lemma_token_step(t, i - 1);
    }
}

pub fn first_word_of(s: &[char]) -> (r: Option<Vec<char>>)
    ensures
        match first_word(s@) {
            None => r is None,
            Some(w) => r matches Some(v) && v@ == w,
        },
{
    let a = leading_space_count(s);
    proof {
        lemma_leading_bound(s@);
    }
    if a >= s.len() {
        return None;
    }
    let mut i = a;
    while i < s.len() && !is_space_char(s[i])
        invariant
            a <= i <= s.len(),
            forall|j: int| a <= j < i ==> !is_space(#[trigger] s@[j]),
        decreases s.len() - i,
    {
        i = i + 1;
    }
    proof {
        let t = trim_start(s@);
        assert(t =~= s@.subrange(a as int, s@.len() as int));
        assert forall|j: int| 0 <= j < i - a implies !is_space(#[trigger] t[j]) by {
            assert(t[j] == s@[a + j]);
        }
        if i < s.len() {
            assert(t[i - a] == s@[i as int]);
        }
        lemma_token_step(t, i - a);
        assert(t.subrange(0, i - a) =~= s@.subrange(a as int, i as int));
    }
    Some(slice_chars(s, a, i))
}

/// `pattern` occurs in `s` as a contiguous run.
pub open spec fn contains_run(s: Seq<char>, pattern: Seq<char>) -> bool {
    exists|i: int| 0 <= i && i + pattern.len() <= s.len() && #[trigger] s.subrange(i, i + pattern.len()) == pattern
}

pub fn contains_chars(s: &[char], pattern: &[char]) -> (r: bool)
    ensures
        r == contains_run(s@, pattern@),
{
    if pattern.len() > s.len() {
        return false;
    }
    let mut i: usize = 0;
    while i <= s.len() - pattern.len()
        invariant
            pattern.len() <= s.len(),
            i <= s.len() - pattern.len() + 1,
            forall|k: int|
                0 <= k < i ==> #[trigger] s@.subrange(k, k + pattern@.len()) != pattern@,
        decreases s.len() - i,
    {
        let mut j: usize = 0;
        while j < pattern.len() && s[i + j] == pattern[j]
            invariant
                i + pattern.len() <= s.len(),
                j <= pattern.len(),
                forall|m: int| 0 <= m < j ==> s@[i + m] == pattern@[m],
            decreases pattern.len() - j,
        {
            j = j + 1;
        }
        if j == pattern.len() {
            assert(s@.subrange(i as int, i + pattern@.len()) =~= pattern@);
            return true;
        }
        assert(s@.subrange(i as int, i + pattern@.len())[j as int] != pattern@[j as int]);
        i = i + 1;
    }
    false
}

} // verus!
