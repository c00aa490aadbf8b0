//! Character-level text rules shared by the playlist, URL and classification
//! logic. Every rule is stated over `Seq<char>` and implemented over `&[char]`.

use vstd::prelude::*;
use vstd::slice::slice_subrange;

verus! {

/// The characters of an optional string.
pub open spec fn option_text(s: Option<String>) -> Option<Seq<char>> {
    match s {
        Some(t) => Some(t@),
        None => None,
    }
}

/// Whether `c` carries the Unicode `White_Space` property.
pub open spec fn is_whitespace(c: char) -> bool {
    let u = c as u32;
    (0x09 <= u <= 0x0D) || u == 0x20 || u == 0x85 || u == 0xA0 || u == 0x1680 || (0x2000 <= u
        <= 0x200A) || u == 0x2028 || u == 0x2029 || u == 0x202F || u == 0x205F || u == 0x3000
}

/// `s` without its leading white space.
pub open spec fn trim_start(s: Seq<char>) -> Seq<char>
    decreases s.len(),
{
    if s.len() > 0 && is_whitespace(s[0]) {
        trim_start(s.drop_first())
    } else {
        s
    }
}

/// `s` without its trailing white space.
pub open spec fn trim_end(s: Seq<char>) -> Seq<char>
    decreases s.len(),
{
    if s.len() > 0 && is_whitespace(s.last()) {
        trim_end(s.drop_last())
    } else {
        s
    }
}

/// `s` without leading and trailing white space.
pub open spec fn trim(s: Seq<char>) -> Seq<char> {
    trim_end(trim_start(s))
}

/// `s` without its leading run of the character `c`.
pub open spec fn strip_leading(s: Seq<char>, c: char) -> Seq<char>
    decreases s.len(),
{
    if s.len() > 0 && s[0] == c {
        strip_leading(s.drop_first(), c)
    } else {
        s
    }
}

/// `s` without its trailing run of the character `c`.
pub open spec fn strip_trailing(s: Seq<char>, c: char) -> Seq<char>
    decreases s.len(),
{
    if s.len() > 0 && s.last() == c {
        strip_trailing(s.drop_last(), c)
    } else {
        s
    }
}

/// The part of `s` before the first occurrence of `c`; all of `s` when `c`
/// does not occur.
pub open spec fn before_char(s: Seq<char>, c: char) -> Seq<char>
    decreases s.len(),
{
    if s.len() == 0 || s[0] == c {
        Seq::empty()
    } else {
        seq![s[0]] + before_char(s.drop_first(), c)
    }
}

/// The part of `s` after the last occurrence of `c`; all of `s` when `c` does
/// not occur.
pub open spec fn after_last(s: Seq<char>, c: char) -> Seq<char>
    decreases s.len(),
{
    if s.len() == 0 || s.last() == c {
        Seq::empty()
    } else {
        after_last(s.drop_last(), c).push(s.last())
    }
}

/// The part of `s` before the last occurrence of `c`; empty when `c` does not
/// occur.
pub open spec fn before_last(s: Seq<char>, c: char) -> Seq<char>
    decreases s.len(),
{
    if s.len() == 0 {
        s
    } else if s.last() == c {
        s.drop_last()
    } else {
        before_last(s.drop_last(), c)
    }
}

/// How often `c` occurs in `s`.
pub open spec fn count_char(s: Seq<char>, c: char) -> nat
    decreases s.len(),
{
    if s.len() == 0 {
        0
    } else {
        count_char(s.drop_last(), c) + if s.last() == c {
            1nat
        } else {
            0nat
        }
    }
}

/// Whether `p` occurs in `s` at position `i`.
pub open spec fn matches_at(s: Seq<char>, p: Seq<char>, i: int) -> bool {
    0 <= i && i + p.len() <= s.len() && s.subrange(i, i + p.len()) == p
}

/// Whether `p` occurs somewhere in `s`.
pub open spec fn has_substring(s: Seq<char>, p: Seq<char>) -> bool {
    exists|i: int| matches_at(s, p, i)
}

/// Whether `s` ends with `p`.
pub open spec fn ends_with(s: Seq<char>, p: Seq<char>) -> bool {
    matches_at(s, p, s.len() - p.len())
}

/// The pieces of `s` between its line feeds. A text with `n` line feeds has
/// `n + 1` pieces; the last one is empty when the text ends in a line feed.
pub open spec fn split_lines(s: Seq<char>) -> Seq<Seq<char>>
    decreases s.len(),
{
    if s.len() == 0 {
        seq![Seq::empty()]
    } else {
        let before = split_lines(s.drop_last());
        if s.last() == '\n' {
            before.push(Seq::empty())
        } else {
            before.drop_last().push(before.last().push(s.last()))
        }
    }
}

/// Whether `spans` marks, in order, the pieces of `split_lines(s)` inside `s`:
/// the first span begins the text, each further one begins behind the line
/// feed that ends the one before, and the last one ends the text.
pub open spec fn spans_mark_lines(s: Seq<char>, spans: Seq<(usize, usize)>) -> bool {
    &&& spans.len() == split_lines(s).len()
    &&& spans[0].0 == 0
    &&& spans.last().1 == s.len()
    &&& forall|i: int| 0 <= i < spans.len() - 1 ==> (#[trigger] spans[i]).1 + 1 == spans[i + 1].0
    &&& forall|i: int|
        0 <= i < spans.len() ==> {
            &&& (#[trigger] spans[i]).0 <= spans[i].1 <= s.len()
            &&& s.subrange(spans[i].0 as int, spans[i].1 as int) == split_lines(s)[i]
        }
}

/// Whether `c` is white space.
pub fn is_space(c: char) -> (b: bool)
    ensures
        b == is_whitespace(c),
{
    let u: u32 = c as u32;
    (0x09 <= u && u <= 0x0D) || u == 0x20 || u == 0x85 || u == 0xA0 || u == 0x1680 || (0x2000
        <= u && u <= 0x200A) || u == 0x2028 || u == 0x2029 || u == 0x202F || u == 0x205F || u
        == 0x3000
}

/// The characters of `s`, in order.
pub fn chars_of(s: &str) -> (v: Vec<char>)
    ensures
        v@ == s@,
{
    broadcast use vstd::string::group_string_axioms;

    let mut v: Vec<char> = Vec::new();
    for c in it: s.chars()
        invariant
            v@ == it.seq().take(it.index()),
            it.seq() == s@,
    {
        v.push(c);
    }
    v
}

/// `std::string::String::push`: appends the one character to the string.
#[verifier::external_body]
fn push_char(s: &mut String, c: char)
    ensures
        final(s)@ == old(s)@.push(c),
{
    s.push(c)
}

/// The string that holds the characters of `chars`, in order.
pub fn string_of(chars: &[char]) -> (s: String)
    ensures
        s@ == chars@,
{
    let mut s = String::new();
    let mut i: usize = 0;
    while i < chars.len()
        invariant
            i <= chars.len(),
            s@ == chars@.take(i as int),
        decreases chars.len() - i,
    {
        push_char(&mut s, chars[i]);
        i += 1;
        assert(chars@.take(i as int) == chars@.take(i - 1).push(chars@[i - 1]));
    }
    assert(chars@.take(chars.len() as int) == chars@);
    s
}

/// Leading white space may be skipped before trimming at the start.
pub proof fn lemma_trim_start_skip(s: Seq<char>, n: int)
    requires
        0 <= n <= s.len(),
        forall|k: int| 0 <= k < n ==> is_whitespace(s[k]),
    ensures
        trim_start(s) == trim_start(s.skip(n)),
    decreases n,
{
    if n > 0 {
        assert(s.drop_first().skip(n - 1) =~= s.skip(n));
        lemma_trim_start_skip(s.drop_first(), n - 1);
    } else {
        assert(s.skip(0) =~= s);
    }
}

/// Trailing white space may be cut off before trimming at the end.
pub proof fn lemma_trim_end_take(s: Seq<char>, n: int)
    requires
        0 <= n <= s.len(),
        forall|k: int| n <= k < s.len() ==> is_whitespace(s[k]),
    ensures
        trim_end(s) == trim_end(s.take(n)),
    decreases s.len() - n,
{
    if n < s.len() {
        assert(s.drop_last().take(n) =~= s.take(n));
        lemma_trim_end_take(s.drop_last(), n);
    } else {
        assert(s.take(n) =~= s);
    }
}

/// `text` without leading and trailing white space.
pub fn trim_slice<'a>(text: &'a [char]) -> (trimmed: &'a [char])
    ensures
        trimmed@ == trim(text@),
{
    let mut a: usize = 0;
    while a < text.len() && is_space(text[a])
        invariant
            a <= text.len(),
            forall|k: int| 0 <= k < a ==> is_whitespace(text@[k]),
        decreases text.len() - a,
    {
        a += 1;
    }
    let mut b: usize = text.len();
    while b > a && is_space(text[b - 1])
        invariant
            a <= b <= text.len(),
            forall|k: int| b <= k < text.len() ==> is_whitespace(text@[k]),
        decreases b,
    {
        b -= 1;
    }
    proof {
        let rest = text@.skip(a as int);
        lemma_trim_start_skip(text@, a as int);
        assert(trim_start(text@) == rest);
        lemma_trim_end_take(rest, b - a);
        assert(rest.take(b - a) =~= text@.subrange(a as int, b as int));
        assert(trim_end(text@.subrange(a as int, b as int)) == text@.subrange(a as int, b as int));
    }
    slice_subrange(text, a, b)
}

/// What is left after stripping a trailing run of `c` begins the text and
/// does not end in `c`.
pub proof fn lemma_strip_trailing_ends(s: Seq<char>, c: char)
    ensures
        strip_trailing(s, c).len() <= s.len(),
        strip_trailing(s, c) == s.take(strip_trailing(s, c).len() as int),
        strip_trailing(s, c).len() == 0 || strip_trailing(s, c).last() != c,
    decreases s.len(),
{
    if s.len() > 0 && s.last() == c {
        lemma_strip_trailing_ends(s.drop_last(), c);
        let rest = strip_trailing(s.drop_last(), c);
        assert(s.drop_last().take(rest.len() as int) =~= s.take(rest.len() as int));
    } else {
        assert(s.take(s.len() as int) =~= s);
    }
}

/// A leading run of `c` may be skipped before stripping it.
pub proof fn lemma_strip_leading_skip(s: Seq<char>, c: char, n: int)
    requires
        0 <= n <= s.len(),
        forall|k: int| 0 <= k < n ==> s[k] == c,
    ensures
        strip_leading(s, c) == strip_leading(s.skip(n), c),
    decreases n,
{
    if n > 0 {
        assert(s.drop_first().skip(n - 1) =~= s.skip(n));
        lemma_strip_leading_skip(s.drop_first(), c, n - 1);
    } else {
        assert(s.skip(0) =~= s);
    }
}

/// A trailing run of `c` may be cut off before stripping it.
pub proof fn lemma_strip_trailing_take(s: Seq<char>, c: char, n: int)
    requires
        0 <= n <= s.len(),
        forall|k: int| n <= k < s.len() ==> s[k] == c,
    ensures
        strip_trailing(s, c) == strip_trailing(s.take(n), c),
    decreases s.len() - n,
{
    if n < s.len() {
        assert(s.drop_last().take(n) =~= s.take(n));
        lemma_strip_trailing_take(s.drop_last(), c, n);
    } else {
        assert(s.take(n) =~= s);
    }
}

/// `text` without its leading run of `c`.
pub fn strip_leading_slice<'a>(text: &'a [char], c: char) -> (rest: &'a [char])
    ensures
        rest@ == strip_leading(text@, c),
{
    let mut a: usize = 0;
    while a < text.len() && text[a] == c
        invariant
            a <= text.len(),
            forall|k: int| 0 <= k < a ==> text@[k] == c,
        decreases text.len() - a,
    {
        a += 1;
    }
    proof {
        lemma_strip_leading_skip(text@, c, a as int);
        assert(text@.skip(a as int) =~= text@.subrange(a as int, text.len() as int));
    }
    slice_subrange(text, a, text.len())
}

/// `text` without its trailing run of `c`.
pub fn strip_trailing_slice<'a>(text: &'a [char], c: char) -> (rest: &'a [char])
    ensures
        rest@ == strip_trailing(text@, c),
{
    let mut b: usize = text.len();
    while b > 0 && text[b - 1] == c
        invariant
            b <= text.len(),
            forall|k: int| b <= k < text.len() ==> text@[k] == c,
        decreases b,
    {
        b -= 1;
    }
    proof {
        lemma_strip_trailing_take(text@, c, b as int);
        assert(text@.take(b as int) =~= text@.subrange(0, b as int));
    }
    slice_subrange(text, 0, b)
}

/// The part before the first `c` ends at the first position that holds `c`,
/// or at the end of the text where none does.
pub proof fn lemma_before_char_take(s: Seq<char>, c: char, n: int)
    requires
        0 <= n <= s.len(),
        forall|k: int| 0 <= k < n ==> s[k] != c,
        n == s.len() || s[n] == c,
    ensures
        before_char(s, c) == s.take(n),
    decreases n,
{
    if n > 0 {
        lemma_before_char_take(s.drop_first(), c, n - 1);
        assert(seq![s[0]] + s.drop_first().take(n - 1) =~= s.take(n));
    } else {
        assert(s.take(0) =~= Seq::<char>::empty());
    }
}

/// The part of `text` before the first `c`.
pub fn before_char_slice<'a>(text: &'a [char], c: char) -> (head: &'a [char])
    ensures
        head@ == before_char(text@, c),
{
    let mut n: usize = 0;
    while n < text.len() && text[n] != c
        invariant
            n <= text.len(),
            forall|k: int| 0 <= k < n ==> text@[k] != c,
        decreases text.len() - n,
    {
        n += 1;
    }
    proof {
        lemma_before_char_take(text@, c, n as int);
        assert(text@.take(n as int) =~= text@.subrange(0, n as int));
    }
    slice_subrange(text, 0, n)
}

/// The part after the last `c` begins behind the last position that holds
/// `c`, or at the start of the text where none does.
pub proof fn lemma_after_last_skip(s: Seq<char>, c: char, n: int)
    requires
        0 <= n <= s.len(),
        forall|k: int| n <= k < s.len() ==> s[k] != c,
        n == 0 || s[n - 1] == c,
    ensures
        after_last(s, c) == s.skip(n),
    decreases s.len() - n,
{
    if n < s.len() {
        lemma_after_last_skip(s.drop_last(), c, n);
        assert(s.drop_last().skip(n).push(s.last()) =~= s.skip(n));
    } else {
        assert(s.skip(n) =~= Seq::<char>::empty());
    }
}

/// The part before the last `c` ends before the last position that holds
/// `c`, and is empty where none does.
pub proof fn lemma_before_last_take(s: Seq<char>, c: char, n: int)
    requires
        0 <= n <= s.len(),
        forall|k: int| n <= k < s.len() ==> s[k] != c,
        n == 0 || s[n - 1] == c,
    ensures
        before_last(s, c) == if n == 0 {
            Seq::<char>::empty()
        } else {
            s.take(n - 1)
        },
    decreases s.len() - n,
{
    if n < s.len() {
        lemma_before_last_take(s.drop_last(), c, n);
        if n > 0 {
            assert(s.drop_last().take(n - 1) =~= s.take(n - 1));
        }
    } else if n > 0 {
        assert(s.drop_last() =~= s.take(n - 1));
    }
}

/// The position just behind the last `c` in `text`; 0 when there is none.
fn after_last_position(text: &[char], c: char) -> (n: usize)
    ensures
        n <= text.len(),
        forall|k: int| n <= k < text.len() ==> text@[k] != c,
        n == 0 || text@[n - 1] == c,
{
    let mut n: usize = text.len();
    while n > 0 && text[n - 1] != c
        invariant
            n <= text.len(),
            forall|k: int| n <= k < text.len() ==> text@[k] != c,
        decreases n,
    {
        n -= 1;
    }
    n
}

/// The part of `text` after the last `c`.
pub fn after_last_slice<'a>(text: &'a [char], c: char) -> (tail: &'a [char])
    ensures
        tail@ == after_last(text@, c),
{
    let n = after_last_position(text, c);
    proof {
        lemma_after_last_skip(text@, c, n as int);
        assert(text@.skip(n as int) =~= text@.subrange(n as int, text.len() as int));
    }
    slice_subrange(text, n, text.len())
}

/// The part of `text` before the last `c`.
pub fn before_last_slice<'a>(text: &'a [char], c: char) -> (head: &'a [char])
    ensures
        head@ == before_last(text@, c),
{
    let n = after_last_position(text, c);
    proof {
        lemma_before_last_take(text@, c, n as int);
    }
    if n == 0 {
        assert(text@.subrange(0, 0) =~= Seq::<char>::empty());
        slice_subrange(text, 0, 0)
    } else {
        assert(text@.take(n - 1) =~= text@.subrange(0, n - 1));
        slice_subrange(text, 0, n - 1)
    }
}

/// How often `c` occurs in `text`.
pub fn count_char_slice(text: &[char], c: char) -> (n: usize)
    ensures
        n == count_char(text@, c),
{
    let mut n: usize = 0;
    let mut i: usize = 0;
    while i < text.len()
        invariant
            i <= text.len(),
            n <= i,
            n == count_char(text@.take(i as int), c),
        decreases text.len() - i,
    {
        assert(text@.take(i + 1).drop_last() =~= text@.take(i as int));
        if text[i] == c {
            n += 1;
        }
        i += 1;
    }
    assert(text@.take(text.len() as int) =~= text@);
    n
}

/// Whether `pattern` occurs in `text` at position `i`.
pub fn slice_matches_at(text: &[char], pattern: &[char], i: usize) -> (b: bool)
    ensures
        b == matches_at(text@, pattern@, i as int),
{
    if pattern.len() > text.len() || i > text.len() - pattern.len() {
        return false;
    }
    let mut j: usize = 0;
    while j < pattern.len()
        invariant
            j <= pattern.len(),
            i + pattern.len() <= text.len(),
            forall|k: int| 0 <= k < j ==> text@[i + k] == pattern@[k],
        decreases pattern.len() - j,
    {
        if text[i + j] != pattern[j] {
            assert(text@.subrange(i as int, i + pattern.len())[j as int] != pattern@[j as int]);
            return false;
        }
        j += 1;
    }
    assert(text@.subrange(i as int, i + pattern.len()) =~= pattern@);
    true
}

/// Whether `pattern` occurs somewhere in `text`.
pub fn slice_contains(text: &[char], pattern: &[char]) -> (b: bool)
    ensures
        b == has_substring(text@, pattern@),
{
    if pattern.len() > text.len() {
        return false;
    }
    let last: usize = text.len() - pattern.len();
    let mut i: usize = 0;
    loop
        invariant
            i <= last,
            last == text.len() - pattern.len(),
            forall|k: int| 0 <= k < i ==> !matches_at(text@, pattern@, k),
        decreases last - i,
    {
        if slice_matches_at(text, pattern, i) {
            return true;
        }
        if i == last {
            return false;
        }
        i += 1;
    }
}

/// Whether `text` ends with `pattern`.
pub fn slice_ends_with(text: &[char], pattern: &[char]) -> (b: bool)
    ensures
        b == ends_with(text@, pattern@),
{
    if pattern.len() > text.len() {
        return false;
    }
    slice_matches_at(text, pattern, text.len() - pattern.len())
}

/// The spans of the pieces of `text` between its line feeds.
pub fn line_spans(text: &[char]) -> (spans: Vec<(usize, usize)>)
    ensures
        spans_mark_lines(text@, spans@),
{
    let mut spans: Vec<(usize, usize)> = Vec::new();
    let mut start: usize = 0;
    let mut i: usize = 0;
    while i < text.len()
        invariant
            start <= i <= text.len(),
            spans.len() + 1 == split_lines(text@.take(i as int)).len(),
            text@.subrange(start as int, i as int) == split_lines(text@.take(i as int)).last(),
            spans.len() == 0 ==> start == 0,
            spans.len() > 0 ==> spans[0].0 == 0 && spans[spans.len() - 1].1 + 1 == start,
            forall|k: int|
                0 <= k < spans.len() - 1 ==> (#[trigger] spans[k]).1 + 1 == spans[k + 1].0,
            forall|k: int|
                0 <= k < spans.len() ==> {
                    &&& (#[trigger] spans[k]).0 <= spans[k].1 <= i
                    &&& text@.subrange(spans[k].0 as int, spans[k].1 as int) == split_lines(
                        text@.take(i as int),
                    )[k]
                },
        decreases text.len() - i,
    {
        let ghost before = split_lines(text@.take(i as int));
        assert(text@.take(i + 1).drop_last() =~= text@.take(i as int));
        if text[i] == '\n' {
            spans.push((start, i));
            start = i + 1;
            assert(text@.subrange(start as int, start as int) =~= Seq::<char>::empty());
        } else {
            assert(text@.subrange(start as int, i + 1) =~= before.last().push(text@[i as int]));
        }
        i += 1;
    }
    assert(text@.take(text.len() as int) =~= text@);
    spans.push((start, text.len()));
    spans
}

} // verus!
