//! Character-level text handling: conversion between strings and character
//! buffers, whitespace, comments and line splitting.
//!
//! Specifications speak of `Seq<char>`; the executable functions work on
//! character slices, so that a line can be narrowed without copying it.

use vstd::prelude::*;
use vstd::slice::*;
use vstd::string::*;

verus! {

/// What is assumed of `String::push`, for which vstd has no specification:
/// the string holds afterwards what it held before, followed by `ch`.
pub assume_specification[ String::push ](s: &mut String, ch: char)
    ensures
        final(s)@ == old(s)@.push(ch),
;

/// Whether `c` has the Unicode property `White_Space`.
pub open spec fn is_space(c: char) -> bool {
    ||| '\u{9}' <= c <= '\u{d}'
    ||| c == ' '
    ||| c == '\u{85}'
    ||| c == '\u{a0}'
    ||| c == '\u{1680}'
    ||| '\u{2000}' <= c <= '\u{200a}'
    ||| c == '\u{2028}'
    ||| c == '\u{2029}'
    ||| c == '\u{202f}'
    ||| c == '\u{205f}'
    ||| c == '\u{3000}'
}

/// `s` without its leading whitespace.
pub open spec fn trimmed_start(s: Seq<char>) -> Seq<char>
    decreases s.len(),
{
    if s.len() > 0 && is_space(s.first()) {
        trimmed_start(s.drop_first())
    } else {
        s
    }
}

/// `s` without its trailing whitespace.
pub open spec fn trimmed_end(s: Seq<char>) -> Seq<char>
    decreases s.len(),
{
    if s.len() > 0 && is_space(s.last()) {
        trimmed_end(s.drop_last())
    } else {
        s
    }
}

/// `s` without surrounding whitespace.
pub open spec fn trimmed(s: Seq<char>) -> Seq<char> {
    trimmed_end(trimmed_start(s))
}

/// Whether the comment marker `//` stands at position `i` of `s`.
pub open spec fn marker_at(s: Seq<char>, i: int) -> bool {
    0 <= i && i + 1 < s.len() && s[i] == '/' && s[i + 1] == '/'
}

/// The position of the first comment marker in `s`, or the length of `s`
/// where it holds none.
pub open spec fn comment_start(s: Seq<char>) -> int
    decreases s.len(),
{
    if s.len() < 2 {
        s.len() as int
    } else if marker_at(s, 0) {
        0
    } else {
        1 + comment_start(s.drop_first())
    }
}

/// `s` up to its first comment marker.
pub open spec fn without_comment(s: Seq<char>) -> Seq<char> {
    s.take(comment_start(s))
}

/// A raw source line reduced to what it states: the comment is cut off,
/// then the surrounding whitespace.
pub open spec fn normalized(raw: Seq<char>) -> Seq<char> {
    trimmed(without_comment(raw))
}

/// Whether `s` holds nothing but whitespace.
pub open spec fn is_blank(s: Seq<char>) -> bool {
    forall|i: int| 0 <= i < s.len() ==> is_space(#[trigger] s[i])
}

/// Whether a raw line holds nothing but a comment and the whitespace in
/// front of it.
pub open spec fn is_comment_only(raw: Seq<char>) -> bool {
    exists|k: int| #[trigger] marker_at(raw, k) && is_blank(raw.take(k))
}

/// The position of the first `c` in `s`, or the length of `s` where it
/// holds none.
pub open spec fn first_index(s: Seq<char>, c: char) -> int
    decreases s.len(),
{
    if s.len() == 0 || s.first() == c {
        0
    } else {
        1 + first_index(s.drop_first(), c)
    }
}

/// The lines of `text`, split at each line feed. A text of `n` line feeds
/// has `n + 1` lines; the last one is empty where the text ends in a line
/// feed.
pub open spec fn lines_of(text: Seq<char>) -> Seq<Seq<char>>
    decreases text.len(),
{
    let n = first_index(text, '\n');
    if 0 <= n < text.len() {
        seq![text.take(n)] + lines_of(text.skip(n + 1))
    } else {
        seq![text]
    }
}

/// The views of a sequence of lines.
pub open spec fn lines_view(lines: Seq<&[char]>) -> Seq<Seq<char>> {
    lines.map_values(|line: &[char]| line@)
}

/// Where whitespace fills `s` up to position `i` and no further,
/// `trimmed_start` cuts at `i`.
pub proof fn lemma_trimmed_start(s: Seq<char>, i: int)
    requires
        0 <= i <= s.len(),
        forall|j: int| 0 <= j < i ==> is_space(#[trigger] s[j]),
        i < s.len() ==> !is_space(s[i]),
    ensures
        trimmed_start(s) == s.skip(i),
    decreases i,
{
    if i == 0 {
        assert(s.skip(0) =~= s);
    } else {
        let rest = s.drop_first();
        assert forall|j: int| 0 <= j < i - 1 implies is_space(#[trigger] rest[j]) by {
            assert(rest[j] == s[j + 1]);
        }
        lemma_trimmed_start(rest, i - 1);
        assert(rest.skip(i - 1) =~= s.skip(i));
    }
}

/// Where whitespace fills `s` from position `i` on and no earlier,
/// `trimmed_end` cuts at `i`.
pub proof fn lemma_trimmed_end(s: Seq<char>, i: int)
    requires
        0 <= i <= s.len(),
        forall|j: int| i <= j < s.len() ==> is_space(#[trigger] s[j]),
        0 < i ==> !is_space(s[i - 1]),
    ensures
        trimmed_end(s) == s.take(i),
    decreases s.len() - i,
{
    if i == s.len() {
        assert(s.take(i) =~= s);
    } else {
        let rest = s.drop_last();
        lemma_trimmed_end(rest, i);
        assert(rest.take(i) =~= s.take(i));
    }
}

/// Where `i` is the first comment marker of `s`, or its length and `s`
/// holds no marker, the comment starts at `i`.
pub proof fn lemma_comment_start(s: Seq<char>, i: int)
    requires
        0 <= i <= s.len(),
        forall|j: int| 0 <= j < i ==> !marker_at(s, j),
        marker_at(s, i) || i == s.len(),
    ensures
        comment_start(s) == i,
    decreases s.len(),
{
    if s.len() < 2 {
    } else if marker_at(s, 0) {
    } else {
        let rest = s.drop_first();
        assert(i > 0);
        assert forall|j: int| 0 <= j < i - 1 implies !marker_at(rest, j) by {
            assert(!marker_at(s, j + 1));
        }
        if marker_at(s, i) {
            assert(marker_at(rest, i - 1));
        }
        lemma_comment_start(rest, i - 1);
    }
}

/// What `trimmed_start` takes off is whitespace, and what it leaves does
/// not begin with whitespace.
pub proof fn lemma_trimmed_start_is_suffix(s: Seq<char>)
    ensures
        trimmed_start(s).len() <= s.len(),
        trimmed_start(s) == s.skip(s.len() - trimmed_start(s).len()),
        forall|i: int| 0 <= i < s.len() - trimmed_start(s).len() ==> is_space(#[trigger] s[i]),
        trimmed_start(s).len() > 0 ==> !is_space(trimmed_start(s).first()),
    decreases s.len(),
{
    if s.len() > 0 && is_space(s.first()) {
        let rest = s.drop_first();
        lemma_trimmed_start_is_suffix(rest);
        let n = rest.len() - trimmed_start(rest).len();
        assert(rest.skip(n) =~= s.skip(n + 1));
        assert forall|i: int| 0 <= i < n + 1 implies is_space(#[trigger] s[i]) by {
            if i > 0 {
                assert(s[i] == rest[i - 1]);
            }
        }
    } else {
        assert(s.skip(0) =~= s);
    }
}

/// What `trimmed_end` takes off is whitespace, and what it leaves does not
/// end in whitespace.
pub proof fn lemma_trimmed_end_is_prefix(s: Seq<char>)
    ensures
        trimmed_end(s).len() <= s.len(),
        trimmed_end(s) == s.take(trimmed_end(s).len() as int),
        forall|i: int| trimmed_end(s).len() <= i < s.len() ==> is_space(#[trigger] s[i]),
        trimmed_end(s).len() > 0 ==> !is_space(trimmed_end(s).last()),
    decreases s.len(),
{
    if s.len() > 0 && is_space(s.last()) {
        let rest = s.drop_last();
        lemma_trimmed_end_is_prefix(rest);
        let n = trimmed_end(rest).len() as int;
        assert(rest.take(n) =~= s.take(n));
        assert forall|i: int| n <= i < s.len() implies is_space(#[trigger] s[i]) by {
            if i < rest.len() {
                assert(s[i] == rest[i]);
            }
        }
    } else {
        assert(s.take(s.len() as int) =~= s);
    }
}

/// Trimming leaves nothing exactly of a blank sequence.
pub proof fn lemma_trimmed_blank(s: Seq<char>)
    ensures
        trimmed(s).len() == 0 <==> is_blank(s),
{
    let t = trimmed_start(s);
    lemma_trimmed_start_is_suffix(s);
    lemma_trimmed_end_is_prefix(t);
    if is_blank(s) {
        if t.len() > 0 {
            assert(t.first() == s[s.len() - t.len()]);
        }
    } else {
        let i = choose|i: int| 0 <= i < s.len() && !is_space(#[trigger] s[i]);
        assert(t.len() > 0);
        if trimmed_end(t).len() == 0 {
            assert(is_space(t[0]));
        }
    }
}

/// The length of the whitespace in front of `s`.
pub open spec fn indent(s: Seq<char>) -> int {
    s.len() - trimmed_start(s).len()
}

/// What trimming leaves is the part of `s` between the whitespace at its
/// ends: whitespace fills what precedes it and what follows it, and it
/// neither begins nor ends with whitespace.
pub proof fn lemma_trimmed_is_middle(s: Seq<char>)
    ensures
        0 <= indent(s) <= indent(s) + trimmed(s).len() <= s.len(),
        trimmed(s) == s.subrange(indent(s), indent(s) + trimmed(s).len()),
        is_blank(s.take(indent(s))),
        is_blank(s.skip(indent(s) + trimmed(s).len())),
        trimmed(s).len() > 0 ==> !is_space(trimmed(s).first()) && !is_space(trimmed(s).last()),
{
    let t = trimmed_start(s);
    lemma_trimmed_start_is_suffix(s);
    lemma_trimmed_end_is_prefix(t);
    assert(trimmed(s) =~= s.subrange(indent(s), indent(s) + trimmed(s).len()));
    let hi = indent(s) + trimmed(s).len();
    assert forall|j: int| 0 <= j < s.len() - hi implies is_space(#[trigger] s.skip(hi)[j]) by {
        assert(s.skip(hi)[j] == t[trimmed(s).len() + j]);
    }
    if trimmed(s).len() > 0 {
        assert(trimmed(s).first() == t.first());
    }
}

/// A part of `s` that whitespace surrounds, and that neither begins nor
/// ends with whitespace, is what trimming leaves.
pub proof fn lemma_trimmed_middle(s: Seq<char>, lo: int, hi: int)
    requires
        0 <= lo <= hi <= s.len(),
        is_blank(s.take(lo)),
        is_blank(s.skip(hi)),
        lo < hi ==> !is_space(s[lo]) && !is_space(s[hi - 1]),
    ensures
        trimmed(s) == s.subrange(lo, hi),
{
    assert forall|j: int| 0 <= j < lo implies is_space(#[trigger] s[j]) by {
        assert(s.take(lo)[j] == s[j]);
    }
    assert forall|j: int| hi <= j < s.len() implies is_space(#[trigger] s[j]) by {
        assert(s.skip(hi)[j - hi] == s[j]);
    }
    if lo < hi {
        lemma_trimmed_start(s, lo);
        lemma_trimmed_end(s.skip(lo), hi - lo);
        assert(s.skip(lo).take(hi - lo) =~= s.subrange(lo, hi));
    } else {
        assert(is_blank(s));
        lemma_trimmed_blank(s);
        assert(trimmed(s) =~= s.subrange(lo, hi));
    }
}

/// Whitespace at the ends of a sequence does not matter to trimming: to
/// leave some of it out gives the same.
pub proof fn lemma_trimmed_within(s: Seq<char>, lo: int, hi: int)
    requires
        0 <= lo <= hi <= s.len(),
        is_blank(s.take(lo)),
        is_blank(s.skip(hi)),
    ensures
        trimmed(s.subrange(lo, hi)) == trimmed(s),
{
    let v = s.subrange(lo, hi);
    let x = indent(v);
    let y = x + trimmed(v).len();
    lemma_trimmed_is_middle(v);
    assert forall|j: int| 0 <= j < lo + x implies is_space(#[trigger] s.take(lo + x)[j]) by {
        if j < lo {
            assert(s.take(lo)[j] == s[j]);
        } else {
            assert(v.take(x)[j - lo] == s[j]);
        }
    }
    assert forall|j: int| 0 <= j < s.len() - (lo + y) implies is_space(
        #[trigger] s.skip(lo + y)[j],
    ) by {
        if lo + y + j < hi {
            assert(v.skip(y)[j] == s[lo + y + j]);
        } else {
            assert(s.skip(hi)[lo + y + j - hi] == s[lo + y + j]);
        }
    }
    if x < y {
        assert(trimmed(v).first() == s[lo + x]);
        assert(trimmed(v).last() == s[lo + y - 1]);
    }
    lemma_trimmed_middle(s, lo + x, lo + y);
    assert(s.subrange(lo + x, lo + y) =~= v.subrange(x, y));
}

/// To normalize a line, it does not matter whether the whitespace around
/// it is cut before the comment is: the whitespace that is then left in
/// front of the comment is cut in either case.
pub proof fn lemma_normalized_of_trimmed(raw: Seq<char>)
    ensures
        normalized(trimmed(raw)) == normalized(raw),
{
    let c = comment_start(raw);
    let lo = indent(raw);
    let hi = lo + trimmed(raw).len();
    let t = trimmed(raw);
    lemma_trimmed_is_middle(raw);
    lemma_comment_start_is_first(raw);
    assert forall|j: int| 0 <= j < lo implies is_space(#[trigger] raw[j]) by {
        assert(raw.take(lo)[j] == raw[j]);
    }
    assert forall|j: int| hi <= j < raw.len() implies is_space(#[trigger] raw[j]) by {
        assert(raw.skip(hi)[j - hi] == raw[j]);
    }
    assert forall|j: int| marker_at(t, j) implies marker_at(raw, j + lo) by {
        assert(t[j] == raw[j + lo] && t[j + 1] == raw[j + lo + 1]);
    }
    if c < raw.len() {
        assert(marker_at(raw, c));
        assert(!is_space(raw[c]) && !is_space(raw[c + 1]));
        assert(lo <= c && c + 2 <= hi);
        assert(t[c - lo] == raw[c] && t[c - lo + 1] == raw[c + 1]);
        assert(marker_at(t, c - lo));
        lemma_comment_start(t, c - lo);
        assert(t.take(c - lo) =~= raw.take(c).subrange(lo, c));
        assert(is_blank(raw.take(c).take(lo))) by {
            assert(raw.take(c).take(lo) =~= raw.take(lo));
        }
        assert(is_blank(raw.take(c).skip(c)));
        lemma_trimmed_within(raw.take(c), lo, c);
    } else {
        lemma_comment_start(t, t.len() as int);
        assert(t.take(t.len() as int) =~= t);
        assert(raw.take(c) =~= raw);
        lemma_trimmed_within(raw, lo, hi);
    }
}

/// A normalized line is normalized: to normalize it again changes
/// nothing.
pub proof fn lemma_normalized_twice(raw: Seq<char>)
    ensures
        normalized(normalized(raw)) == normalized(raw),
{
    let c = comment_start(raw);
    let u = raw.take(c);
    let n = normalized(raw);
    lemma_comment_start_is_first(raw);
    lemma_trimmed_is_middle(u);
    let lo = indent(u);
    assert forall|j: int| marker_at(n, j) implies marker_at(raw, j + lo) by {
        assert(n[j] == raw[j + lo] && n[j + 1] == raw[j + lo + 1]);
    }
    lemma_comment_start(n, n.len() as int);
    assert(n.take(n.len() as int) =~= n);
    assert(is_blank(n.take(0)));
    assert(is_blank(n.skip(n.len() as int)));
    lemma_trimmed_middle(n, 0, n.len() as int);
    assert(n.subrange(0, n.len() as int) =~= n);
}

/// The comment of a line begins at its first comment marker, and there is
/// no marker before it.
pub proof fn lemma_comment_start_is_first(s: Seq<char>)
    ensures
        0 <= comment_start(s) <= s.len(),
        comment_start(s) < s.len() ==> marker_at(s, comment_start(s)),
        forall|j: int| 0 <= j < comment_start(s) ==> !marker_at(s, j),
    decreases s.len(),
{
    if s.len() < 2 {
    } else if marker_at(s, 0) {
    } else {
        let rest = s.drop_first();
        lemma_comment_start_is_first(rest);
        let c = comment_start(rest);
        if c < rest.len() {
            assert(marker_at(rest, c));
            assert(s[c + 1] == rest[c] && s[c + 2] == rest[c + 1]);
        }
        assert forall|j: int| 0 <= j < 1 + c implies !marker_at(s, j) by {
            if j > 0 && marker_at(s, j) {
                assert(rest[j - 1] == s[j] && rest[j] == s[j + 1]);
                assert(marker_at(rest, j - 1));
            }
        }
    }
}

/// A raw line normalizes to the empty line exactly if it is blank or holds
/// nothing but a comment.
pub proof fn lemma_normalized_empty(raw: Seq<char>)
    ensures
        normalized(raw).len() == 0 <==> is_blank(raw) || is_comment_only(raw),
{
    let c = comment_start(raw);
    lemma_comment_start_is_first(raw);
    lemma_trimmed_blank(raw.take(c));
    if is_blank(raw) {
        assert forall|j: int| 0 <= j < raw.len() implies !marker_at(raw, j) by {
            assert(is_space(raw[j]));
        }
        assert(c == raw.len());
        assert(raw.take(c) =~= raw);
    }
    if is_comment_only(raw) {
        let k = choose|k: int| #[trigger] marker_at(raw, k) && is_blank(raw.take(k));
        assert forall|j: int| 0 <= j < k implies !marker_at(raw, j) by {
            assert(raw.take(k)[j] == raw[j]);
            assert(is_space(raw[j]));
        }
        lemma_comment_start(raw, k);
    }
    if normalized(raw).len() == 0 {
        if c < raw.len() {
            assert(marker_at(raw, c));
        } else {
            assert(raw.take(c) =~= raw);
        }
    }
}

/// Where `c` stands at `i` and nowhere before, or `i` is the length of `s`
/// and `c` stands nowhere, the first index of `c` is `i`.
pub proof fn lemma_first_index(s: Seq<char>, c: char, i: int)
    requires
        0 <= i <= s.len(),
        forall|j: int| 0 <= j < i ==> #[trigger] s[j] != c,
        i < s.len() ==> s[i] == c,
    ensures
        first_index(s, c) == i,
    decreases i,
{
    if i > 0 {
        let rest = s.drop_first();
        assert(s[0] != c);
        assert forall|j: int| 0 <= j < i - 1 implies #[trigger] rest[j] != c by {
            assert(rest[j] == s[j + 1]);
        }
        lemma_first_index(rest, c, i - 1);
    }
}

/// The first index of a character is a position in the sequence or its
/// length; the character stands there and nowhere before.
pub proof fn lemma_first_index_is_first(s: Seq<char>, c: char)
    ensures
        0 <= first_index(s, c) <= s.len(),
        first_index(s, c) < s.len() ==> s[first_index(s, c)] == c,
        forall|j: int| 0 <= j < first_index(s, c) ==> #[trigger] s[j] != c,
        first_index(s, c) < s.len() <==> s.contains(c),
    decreases s.len(),
{
    if s.len() == 0 || s.first() == c {
    } else {
        let rest = s.drop_first();
        lemma_first_index_is_first(rest, c);
        let k = first_index(rest, c);
        assert forall|j: int| 0 <= j < 1 + k implies #[trigger] s[j] != c by {
            if j > 0 {
                assert(s[j] == rest[j - 1]);
            }
        }
        if k < rest.len() {
            assert(s[k + 1] == rest[k]);
        }
        if s.contains(c) {
            let w = choose|w: int| 0 <= w < s.len() && s[w] == c;
            assert(rest[w - 1] == c);
        }
    }
}

/// Whether `c` is a whitespace character.
pub fn is_whitespace(c: char) -> (b: bool)
    ensures
        b == is_space(c),
{
    ('\u{9}' <= c && c <= '\u{d}') || c == ' ' || c == '\u{85}' || c == '\u{a0}' || c
        == '\u{1680}' || ('\u{2000}' <= c && c <= '\u{200a}') || c == '\u{2028}' || c
        == '\u{2029}' || c == '\u{202f}' || c == '\u{205f}' || c == '\u{3000}'
}

/// Copies the characters of `s` into a vector.
pub fn to_chars(s: &str) -> (chars: Vec<char>)
    ensures
        chars@ == s@,
{
    let mut chars: Vec<char> = Vec::new();
    for c in it: s.chars()
        invariant
            it.seq() == s@,
            chars@ == s@.take(it.index() as int),
    {
        chars.push(c);
    }
    chars
}

/// Builds the string that holds the characters of `chars`.
pub fn to_string(chars: &[char]) -> (s: String)
    ensures
        s@ == chars@,
{
    let mut s = String::new();
    let mut i: usize = 0;
    while i < chars.len()
        invariant
            i <= chars.len(),
            s@ == chars@.take(i as int),
        decreases chars.len() - i,
    {
        s.push(chars[i]);
        i += 1;
        assert(chars@.take(i as int) =~= chars@.take(i - 1).push(chars@[i - 1]));
    }
    assert(chars@.take(i as int) =~= chars@);
    s
}

/// Narrows `s` to what follows its leading whitespace.
pub fn trim_start(s: &[char]) -> (t: &[char])
    ensures
        t@ == trimmed_start(s@),
{
    let mut i: usize = 0;
    while i < s.len() && is_whitespace(s[i])
        invariant
            i <= s.len(),
            forall|j: int| 0 <= j < i ==> is_space(#[trigger] s@[j]),
        decreases s.len() - i,
    {
        i += 1;
    }
    proof {
        lemma_trimmed_start(s@, i as int);
    }
    slice_subrange(s, i, s.len())
}

/// Narrows `s` to what precedes its trailing whitespace.
pub fn trim_end(s: &[char]) -> (t: &[char])
    ensures
        t@ == trimmed_end(s@),
{
    let mut i: usize = s.len();
    while i > 0 && is_whitespace(s[i - 1])
        invariant
            i <= s.len(),
            forall|j: int| i <= j < s.len() ==> is_space(#[trigger] s@[j]),
        decreases i,
    {
        i -= 1;
    }
    proof {
        lemma_trimmed_end(s@, i as int);
    }
    slice_subrange(s, 0, i)
}

/// Narrows `s` to what stands between its surrounding whitespace.
pub fn trim(s: &[char]) -> (t: &[char])
    ensures
        t@ == trimmed(s@),
{
    trim_end(trim_start(s))
}

/// Narrows `s` to what precedes its first comment marker.
pub fn strip_comment(s: &[char]) -> (t: &[char])
    ensures
        t@ == without_comment(s@),
{
    let mut i: usize = 0;
    while i < s.len() && !(i + 1 < s.len() && s[i] == '/' && s[i + 1] == '/')
        invariant
            i <= s.len(),
            forall|j: int| 0 <= j < i ==> !marker_at(s@, j),
        decreases s.len() - i,
    {
        i += 1;
    }
    proof {
        lemma_comment_start(s@, i as int);
    }
    slice_subrange(s, 0, i)
}

/// Narrows a raw source line to its normalized form.
pub fn normalize(raw: &[char]) -> (line: &[char])
    ensures
        line@ == normalized(raw@),
{
    trim(strip_comment(raw))
}

/// The position of the first `c` in `s`, or the length of `s`.
pub fn find(s: &[char], c: char) -> (i: usize)
    ensures
        i == first_index(s@, c),
        i <= s.len(),
{
    let mut i: usize = 0;
    while i < s.len() && s[i] != c
        invariant
            i <= s.len(),
            forall|j: int| 0 <= j < i ==> #[trigger] s@[j] != c,
        decreases s.len() - i,
    {
        i += 1;
    }
    proof {
        lemma_first_index(s@, c, i as int);
    }
    i
}

/// Splits `text` at its line feeds.
pub fn split_lines<'a>(text: &'a [char]) -> (lines: Vec<&'a [char]>)
    ensures
        lines_view(lines@) == lines_of(text@),
{
    let mut lines: Vec<&'a [char]> = Vec::new();
    let mut start: usize = 0;
    let mut i: usize = 0;
    proof {
        assert(text@.skip(0) =~= text@);
        assert(lines_view(lines@) + lines_of(text@) =~= lines_of(text@));
    }
    while i < text.len()
        invariant
            start <= i <= text.len(),
            forall|j: int| start <= j < i ==> #[trigger] text@[j] != '\n',
            lines_of(text@) == lines_view(lines@) + lines_of(text@.skip(start as int)),
        decreases text.len() - i,
    {
        if text[i] == '\n' {
            let line = slice_subrange(text, start, i);
            proof {
                let rest = text@.skip(start as int);
                lemma_first_index(rest, '\n', i - start);
                assert(rest.take(i - start) =~= line@);
                assert(rest.skip(i - start + 1) =~= text@.skip(i + 1));
                assert(lines_view(lines@.push(line)) =~= lines_view(lines@) + seq![line@]);
            }
            lines.push(line);
            start = i + 1;
        }
        i += 1;
    }
    let line = slice_subrange(text, start, i);
    proof {
        let rest = text@.skip(start as int);
        lemma_first_index(rest, '\n', i - start);
        assert(rest =~= line@);
        assert(lines_view(lines@.push(line)) =~= lines_view(lines@) + seq![line@]);
    }
    lines.push(line);
    lines
}

} // verus!
