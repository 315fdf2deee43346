//! What trimming, searching, splitting and changing case come to, character by
//! character.
use vstd::prelude::*;

use crate::text;

verus! {

/// White space is the tab, the line feed, the vertical tab, the form feed and
/// the carriage return, the space, and the spaces and line ends that Unicode
/// adds to them.
pub proof fn law_white_space(c: char)
    ensures
        text::white_space(c) <==> c == '\t' || c == '\n' || c == '\u{b}' || c == '\u{c}' || c
            == '\r' || c == ' ' || c == '\u{85}' || c == '\u{a0}' || c == '\u{1680}' || (
        '\u{2000}' <= c && c <= '\u{200a}') || c == '\u{2028}' || c == '\u{2029}' || c
            == '\u{202f}' || c == '\u{205f}' || c == '\u{3000}',
{
}

/// Everything from `a` up to `b` is white space.
pub open spec fn blank_between(s: Seq<char>, a: int, b: int) -> bool {
    forall|i: int| a <= i < b ==> text::white_space(#[trigger] s[i])
}

proof fn lemma_blank_start(s: Seq<char>)
    ensures
        blank_between(s, 0, s.len() - text::trim_start(s).len()),
    decreases s.len(),
{
    if s.len() > 0 && text::white_space(s[0]) {
        let t = s.skip(1);
        lemma_blank_start(t);
        text::lemma_trim_start(t);
        assert forall|i: int| 0 <= i < s.len() - text::trim_start(s).len() implies
            text::white_space(#[trigger] s[i]) by {
            if i > 0 {
                assert(t[i - 1] == s[i]);
            }
        }
    }
}

proof fn lemma_blank_end(s: Seq<char>)
    ensures
        blank_between(s, text::trim_end(s).len() as int, s.len() as int),
    decreases s.len(),
{
    if s.len() > 0 && text::white_space(s.last()) {
        let t = s.drop_last();
        lemma_blank_end(t);
        text::lemma_trim_end(t);
        assert forall|i: int| text::trim_end(s).len() <= i < s.len() implies text::white_space(
            #[trigger] s[i],
        ) by {
            if i < t.len() {
                assert(t[i] == s[i]);
            }
        }
    }
}

/// Trimming takes white space off the two ends and nothing else: what stays is
/// one piece of the text, all before it and all behind it is white space, and
/// it neither starts nor ends with white space.
pub proof fn law_trim(s: Seq<char>)
    ensures
        exists|a: int, b: int|
            0 <= a <= b <= s.len() && text::trim(s) == #[trigger] s.subrange(a, b)
                && blank_between(s, 0, a) && blank_between(s, b, s.len() as int) && (a < b
                ==> !text::white_space(s[a]) && !text::white_space(s[b - 1])),
{
    let m = text::trim_start(s);
    let r = text::trim(s);
    text::lemma_trim_start(s);
    text::lemma_trim_end(m);
    lemma_blank_start(s);
    lemma_blank_end(m);
    let a = s.len() - m.len();
    let b = a + r.len();
    assert(r =~= s.subrange(a, b));
    assert forall|i: int| b <= i < s.len() implies text::white_space(#[trigger] s[i]) by {
        assert(m[i - a] == s[i]);
    }
    if a < b {
        assert(r[0] == s[a]);
        assert(r[0] == m[0]);
        assert(r.last() == s[b - 1]);
    }
}

/// Trimming the end takes white space off the end and nothing else.
pub proof fn law_trim_end(s: Seq<char>)
    ensures
        exists|b: int|
            0 <= b <= s.len() && text::trim_end(s) == #[trigger] s.take(b) && blank_between(
                s,
                b,
                s.len() as int,
            ) && (0 < b ==> !text::white_space(s[b - 1])),
{
    let b = text::trim_end(s).len() as int;
    text::lemma_trim_end(s);
    lemma_blank_end(s);
    if b > 0 {
        assert(s.take(b).last() == s[b - 1]);
    }
    assert(text::trim_end(s) == s.take(b));
}

/// Trimming the start takes white space off the start and nothing else.
pub proof fn law_trim_start(s: Seq<char>)
    ensures
        exists|a: int|
            0 <= a <= s.len() && text::trim_start(s) == #[trigger] s.skip(a) && blank_between(
                s,
                0,
                a,
            ) && (a < s.len() ==> !text::white_space(s[a])),
{
    let a = s.len() - text::trim_start(s).len();
    text::lemma_trim_start(s);
    lemma_blank_start(s);
    assert(text::trim_start(s) == s.skip(a));
}

/// A text stands in another where each of its characters does.
pub proof fn law_stands_at(s: Seq<char>, p: Seq<char>, i: int)
    ensures
        text::has_at(s, p, i) <==> 0 <= i && i + p.len() <= s.len() && forall|j: int|
            0 <= j < p.len() ==> #[trigger] p[j] == s[i + j],
{
    if text::has_at(s, p, i) {
        assert forall|j: int| 0 <= j < p.len() implies #[trigger] p[j] == s[i + j] by {
            assert(s.subrange(i, i + p.len())[j] == s[i + j]);
        }
    }
    if 0 <= i && i + p.len() <= s.len() && forall|j: int|
        0 <= j < p.len() ==> #[trigger] p[j] == s[i + j] {
        assert(s.subrange(i, i + p.len()) =~= p);
    }
}

/// A text begins with what it is more of, and ends with what it is more of.
pub proof fn law_begins_and_ends(s: Seq<char>, p: Seq<char>)
    ensures
        text::begins(s, p) <==> exists|rest: Seq<char>| s == #[trigger] (p + rest),
        text::ends(s, p) <==> exists|rest: Seq<char>| s == #[trigger] (rest + p),
{
    if text::begins(s, p) {
        assert(s =~= p + s.skip(p.len() as int));
    }
    if text::ends(s, p) {
        assert(s =~= s.take(s.len() - p.len()) + p);
    }
    if exists|rest: Seq<char>| s == #[trigger] (p + rest) {
        assert(s.subrange(0, p.len() as int) =~= p);
    }
    if exists|rest: Seq<char>| s == #[trigger] (rest + p) {
        assert(s.subrange(s.len() - p.len(), s.len() as int) =~= p);
    }
}

/// A search finds the first place at which a text stands, a search from the end
/// the last one, and each finds none exactly where there is none.
pub proof fn law_search(s: Seq<char>, p: Seq<char>, k: int)
    ensures
        text::find(s, p) == Some(k) <==> text::has_at(s, p, k) && forall|j: int|
            0 <= j < k ==> !#[trigger] text::has_at(s, p, j),
        text::rfind(s, p) == Some(k) <==> text::has_at(s, p, k) && forall|j: int|
            k < j <= s.len() ==> !#[trigger] text::has_at(s, p, j),
        text::find(s, p) is None <==> forall|j: int|
            0 <= j <= s.len() ==> !#[trigger] text::has_at(s, p, j),
        text::rfind(s, p) is None <==> forall|j: int|
            0 <= j <= s.len() ==> !#[trigger] text::has_at(s, p, j),
        text::contains(s, p) <==> exists|j: int|
            0 <= j <= s.len() && #[trigger] text::has_at(s, p, j),
{
    text::lemma_find(s, p);
    text::lemma_rfind(s, p);
    if text::has_at(s, p, k) && forall|j: int|
        0 <= j < k ==> !#[trigger] text::has_at(s, p, j) {
        text::lemma_find_at(s, p, k);
    }
    if text::has_at(s, p, k) && forall|j: int|
        k < j <= s.len() ==> !#[trigger] text::has_at(s, p, j) {
        text::lemma_rfind_at(s, p, k);
    }
}

/// What stands before a text is all of what it first stands in up to there, and
/// all of it where it does not stand in it.
pub proof fn law_before(s: Seq<char>, p: Seq<char>, k: int)
    ensures
        text::has_at(s, p, k) && (forall|j: int|
            0 <= j < k ==> !#[trigger] text::has_at(s, p, j)) ==> text::before(s, p) == s.take(k),
        (forall|j: int| 0 <= j <= s.len() ==> !#[trigger] text::has_at(s, p, j)) ==> text::before(
            s,
            p,
        ) == s,
{
    law_search(s, p, k);
}

/// A character stands nowhere in a text.
pub open spec fn without(s: Seq<char>, c: char) -> bool {
    forall|i: int| 0 <= i < s.len() ==> #[trigger] s[i] != c
}

proof fn lemma_first(a: Seq<char>, c: char, b: Seq<char>)
    requires
        without(a, c),
    ensures
        text::find(a + seq![c] + b, seq![c]) == Some(a.len() as int),
        text::find(a, seq![c]) is None,
        (a + seq![c] + b).take(a.len() as int) == a,
        (a + seq![c] + b).skip(a.len() as int + 1) == b,
{
    let s = a + seq![c] + b;
    assert(s.subrange(a.len() as int, a.len() as int + 1) =~= seq![c]);
    assert forall|j: int| 0 <= j < a.len() implies !text::has_at(s, seq![c], j) by {
        if text::has_at(s, seq![c], j) {
            assert(s.subrange(j, j + 1)[0] == a[j]);
            assert(seq![c][0] == c);
        }
    }
    text::lemma_find_at(s, seq![c], a.len() as int);
    text::lemma_find(a, seq![c]);
    if text::find(a, seq![c]) is Some {
        let k = text::find(a, seq![c])->0;
        assert(a.subrange(k, k + 1)[0] == a[k]);
        assert(seq![c][0] == c);
    }
    assert(s.take(a.len() as int) =~= a);
    assert(s.skip(a.len() as int + 1) =~= b);
}

/// Splitting gives the part before the first separator, and then what splitting
/// the rest gives; a text without the separator is one part.
pub proof fn law_split(a: Seq<char>, sep: char, b: Seq<char>)
    requires
        without(a, sep),
    ensures
        text::split(a, sep) == seq![a],
        text::split(a + seq![sep] + b, sep) == seq![a] + text::split(b, sep),
{
    lemma_first(a, sep, b);
}

/// The lines of a text are its first line and then the lines of the rest. A
/// line loses its line feed and one carriage return before that; the last one,
/// without a line feed, is as it stands, and an empty text has none.
pub proof fn law_lines(a: Seq<char>, b: Seq<char>)
    requires
        without(a, '\n'),
    ensures
        text::lines(Seq::empty()).len() == 0,
        a.len() > 0 ==> text::lines(a) == seq![a],
        a.len() == 0 || a.last() != '\r' ==> text::lines(a + seq!['\n'] + b) == seq![a]
            + text::lines(b),
        a.len() > 0 && a.last() == '\r' ==> text::lines(a + seq!['\n'] + b) == seq![a.drop_last()]
            + text::lines(b),
{
    lemma_first(a, '\n', b);
}

/// Changing case changes ASCII letters, each into its counterpart, and nothing
/// else.
pub proof fn law_ascii_case(s: Seq<char>, i: int)
    requires
        0 <= i < s.len(),
    ensures
        text::ascii_upper(s).len() == s.len(),
        text::ascii_lower(s).len() == s.len(),
        text::ascii_upper(s)[i] as u32 == if 'a' <= s[i] && s[i] <= 'z' {
            s[i] as u32 - 32
        } else {
            s[i] as u32 as int
        },
        text::ascii_lower(s)[i] as u32 == if 'A' <= s[i] && s[i] <= 'Z' {
            s[i] as u32 + 32
        } else {
            s[i] as u32 as int
        },
{
}

/// A number is written as the digits of its tenth part and then its last digit.
pub proof fn law_decimal(n: nat, d: nat)
    requires
        d < 10,
    ensures
        text::decimal(d).len() == 1,
        text::decimal(d)[0] as u32 == '0' as u32 + d,
        n > 0 ==> text::decimal(n * 10 + d) == text::decimal(n) + text::decimal(d),
{
    if n > 0 {
        assert((n * 10 + d) / 10 == n);
        assert((n * 10 + d) % 10 == d);
        assert(text::decimal(n).push(text::digit(d)) =~= text::decimal(n) + text::decimal(d));
    }
}

} // verus!
