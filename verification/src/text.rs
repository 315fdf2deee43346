//! Text as a sequence of characters: trimming, searching, splitting, and the
//! ASCII case rules, each stated on `Seq<char>` and computed on slices.
use vstd::prelude::*;
use vstd::slice::*;
use vstd::string::*;

verus! {

/// `String::push` appends one character to the end of the string.
pub assume_specification[ String::push ](s: &mut String, c: char)
    ensures
        final(s)@ == old(s)@.push(c),
;

/// The characters of a string, in order.
pub fn chars_of(s: &str) -> (v: Vec<char>)
    ensures
        v@ == s@,
{
    let mut v: Vec<char> = Vec::new();
    for c in it: s.chars()
        invariant
            it.seq() == s@,
            v@ == it.seq().take(it.index()),
    {
        v.push(c);
    }
    v
}

/// The string made of some characters.
pub fn string_of(v: &[char]) -> (s: String)
    ensures
        s@ == v@,
{
    let mut s = String::new();
    for i in 0..v.len()
        invariant
            s@ == v@.take(i as int),
    {
        s.push(v[i]);
    }
    s
}

/// Whether two texts are the same.
pub fn same(a: &[char], b: &[char]) -> (r: bool)
    ensures
        r == (a@ == b@),
{
    if a.len() != b.len() {
        return false;
    }
    for i in 0..a.len()
        invariant
            a@.len() == b@.len(),
            forall|j: int| 0 <= j < i ==> a@[j] == b@[j],
    {
        if a[i] != b[i] {
            return false;
        }
    }
    assert(a@ =~= b@);
    true
}

/// Whether two strings are the same text.
pub fn same_str(a: &str, b: &str) -> (r: bool)
    ensures
        r == (a@ == b@),
{
    same(chars_of(a).as_slice(), chars_of(b).as_slice())
}

/// Whether two texts that may be missing are the same.
pub fn same_opt(a: &Option<String>, b: &Option<String>) -> (r: bool)
    ensures
        r == (a.deep_view() == b.deep_view()),
{
    match (a, b) {
        (Some(x), Some(y)) => same_str(x.as_str(), y.as_str()),
        (None, None) => true,
        _ => false,
    }
}

/// Whether a text that may be missing is `s`.
pub fn is_text(o: &Option<String>, s: &str) -> (r: bool)
    ensures
        r == (o.deep_view() == Some(s@)),
{
    match o {
        Some(x) => same_str(x.as_str(), s),
        None => false,
    }
}

// ── White space ───────────────────────────────────────────────────────────

/// The characters with Unicode's `White_Space` property.
pub open spec fn white_space(c: char) -> bool {
    let n = c as u32;
    ||| 0x9 <= n <= 0xd
    ||| n == 0x20
    ||| n == 0x85
    ||| n == 0xa0
    ||| n == 0x1680
    ||| 0x2000 <= n <= 0x200a
    ||| n == 0x2028
    ||| n == 0x2029
    ||| n == 0x202f
    ||| n == 0x205f
    ||| n == 0x3000
}

/// Whether a character is white space.
pub fn is_white_space(c: char) -> (b: bool)
    ensures
        b == white_space(c),
{
    let n: u32 = c as u32;
    (0x9 <= n && n <= 0xd) || n == 0x20 || n == 0x85 || n == 0xa0 || n == 0x1680 || (0x2000 <= n
        && n <= 0x200a) || n == 0x2028 || n == 0x2029 || n == 0x202f || n == 0x205f || n == 0x3000
}

/// A text without its leading white space.
pub open spec fn trim_start(s: Seq<char>) -> Seq<char>
    decreases s.len(),
{
    if s.len() > 0 && white_space(s[0]) {
        trim_start(s.skip(1))
    } else {
        s
    }
}

/// A text without its trailing white space.
pub open spec fn trim_end(s: Seq<char>) -> Seq<char>
    decreases s.len(),
{
    if s.len() > 0 && white_space(s.last()) {
        trim_end(s.drop_last())
    } else {
        s
    }
}

/// A text without white space at either end.
pub open spec fn trim(s: Seq<char>) -> Seq<char> {
    trim_end(trim_start(s))
}

/// No line feed stands in the text.
pub open spec fn one_line(s: Seq<char>) -> bool {
    forall|i: int| 0 <= i < s.len() ==> s[i] != '\n'
}

/// Trimming the end keeps a prefix that does not end in white space.
pub proof fn lemma_trim_end(s: Seq<char>)
    ensures
        trim_end(s).len() <= s.len(),
        trim_end(s) == s.take(trim_end(s).len() as int),
        trim_end(s).len() > 0 ==> !white_space(trim_end(s).last()),
        trim_end(trim_end(s)) == trim_end(s),
        one_line(s) ==> one_line(trim_end(s)),
    decreases s.len(),
{
    if s.len() > 0 && white_space(s.last()) {
        lemma_trim_end(s.drop_last());
        assert(s.drop_last().take(trim_end(s).len() as int) =~= s.take(trim_end(s).len() as int));
    } else {
        assert(s =~= s.take(s.len() as int));
    }
}

/// Trimming the start keeps a suffix that does not start with white space.
pub proof fn lemma_trim_start(s: Seq<char>)
    ensures
        trim_start(s).len() <= s.len(),
        trim_start(s) == s.skip(s.len() - trim_start(s).len()),
        trim_start(s).len() > 0 ==> !white_space(trim_start(s)[0]),
    decreases s.len(),
{
    if s.len() > 0 && white_space(s[0]) {
        lemma_trim_start(s.skip(1));
        assert(s.skip(1).skip(s.skip(1).len() - trim_start(s).len()) =~= s.skip(
            s.len() - trim_start(s).len(),
        ));
    } else {
        assert(s =~= s.skip(0));
    }
}

/// A text has nothing to trim exactly when white space stands at neither end.
pub proof fn lemma_trimmed(s: Seq<char>)
    ensures
        (trim(s) == s) == (s.len() == 0 || (!white_space(s[0]) && !white_space(s.last()))),
{
    lemma_trim_start(s);
    lemma_trim_end(trim_start(s));
}

/// Trimming keeps a part of the text, in one piece; `o` is where it starts.
pub proof fn lemma_trim(s: Seq<char>) -> (o: int)
    ensures
        0 <= o,
        o + trim(s).len() <= s.len(),
        trim(s) == s.subrange(o, o + trim(s).len()),
        trim(trim(s)) == trim(s),
        trim(s).len() > 0 ==> !white_space(trim(s)[0]) && !white_space(trim(s).last()),
        one_line(s) ==> one_line(trim(s)),
{
    lemma_trim_start(s);
    let m = trim_start(s);
    lemma_trim_end(m);
    let o = s.len() - m.len();
    assert(m.take(trim(s).len() as int) =~= s.subrange(o, o + trim(s).len()));
    lemma_trimmed(trim(s));
    o
}

/// The part of `v` before its trailing white space.
pub fn trimmed_end(v: &[char]) -> (r: &[char])
    ensures
        r@ == trim_end(v@),
{
    let mut n: usize = v.len();
    assert(v@.take(n as int) =~= v@);
    while n > 0 && is_white_space(v[n - 1])
        invariant
            n <= v@.len(),
            trim_end(v@.take(n as int)) == trim_end(v@),
        decreases n,
    {
        assert(v@.take(n as int).drop_last() =~= v@.take(n - 1));
        n = n - 1;
    }
    slice_subrange(v, 0, n)
}

/// The part of `v` after its leading white space.
pub fn trimmed_start(v: &[char]) -> (r: &[char])
    ensures
        r@ == trim_start(v@),
{
    let mut n: usize = 0;
    assert(v@.skip(0) =~= v@);
    while n < v.len() && is_white_space(v[n])
        invariant
            n <= v@.len(),
            trim_start(v@.skip(n as int)) == trim_start(v@),
        decreases v@.len() - n,
    {
        assert(v@.skip(n as int).skip(1) =~= v@.skip(n + 1));
        n = n + 1;
    }
    slice_subrange(v, n, v.len())
}

/// `v` without white space at either end.
pub fn trimmed(v: &[char]) -> (r: &[char])
    ensures
        r@ == trim(v@),
{
    trimmed_end(trimmed_start(v))
}

/// A string without white space at either end.
pub fn trimmed_string(s: &str) -> (r: String)
    ensures
        r@ == trim(s@),
{
    string_of(trimmed(chars_of(s).as_slice()))
}

// ── Prefixes, suffixes, occurrences ───────────────────────────────────────

/// `p` stands in `s` at position `i`.
pub open spec fn has_at(s: Seq<char>, p: Seq<char>, i: int) -> bool {
    0 <= i && i + p.len() <= s.len() && s.subrange(i, i + p.len()) == p
}

/// `s` starts with `p`.
pub open spec fn begins(s: Seq<char>, p: Seq<char>) -> bool {
    has_at(s, p, 0)
}

/// `s` ends with `p`.
pub open spec fn ends(s: Seq<char>, p: Seq<char>) -> bool {
    has_at(s, p, s.len() - p.len())
}

/// The first position at or after `i` at which `p` stands in `s`.
pub open spec fn find_from(s: Seq<char>, p: Seq<char>, i: int) -> Option<int>
    decreases s.len() - i + 1,
{
    if i < 0 || i + p.len() > s.len() {
        None
    } else if has_at(s, p, i) {
        Some(i)
    } else {
        find_from(s, p, i + 1)
    }
}

/// The first position at which `p` stands in `s`.
pub open spec fn find(s: Seq<char>, p: Seq<char>) -> Option<int> {
    find_from(s, p, 0)
}

/// The last position at or before `i` at which `p` stands in `s`.
pub open spec fn rfind_from(s: Seq<char>, p: Seq<char>, i: int) -> Option<int>
    decreases i + 1,
{
    if i < 0 {
        None
    } else if has_at(s, p, i) {
        Some(i)
    } else {
        rfind_from(s, p, i - 1)
    }
}

/// The last position at which `p` stands in `s`.
pub open spec fn rfind(s: Seq<char>, p: Seq<char>) -> Option<int> {
    rfind_from(s, p, s.len() - p.len())
}

/// `p` stands somewhere in `s`.
pub open spec fn contains(s: Seq<char>, p: Seq<char>) -> bool {
    exists|i: int| has_at(s, p, i)
}

/// `s` up to the first `p`, or all of it.
pub open spec fn before(s: Seq<char>, p: Seq<char>) -> Seq<char> {
    match find(s, p) {
        Some(i) => s.take(i),
        None => s,
    }
}

pub proof fn lemma_find_from(s: Seq<char>, p: Seq<char>, i: int)
    requires
        0 <= i,
    ensures
        match find_from(s, p, i) {
            Some(k) => i <= k && has_at(s, p, k) && forall|j: int| i <= j < k ==> !has_at(s, p, j),
            None => forall|j: int| i <= j ==> !has_at(s, p, j),
        },
    decreases s.len() - i + 1,
{
    if i + p.len() <= s.len() && !has_at(s, p, i) {
        lemma_find_from(s, p, i + 1);
    }
}

/// What `find` says: the first occurrence, or that there is none.
pub proof fn lemma_find(s: Seq<char>, p: Seq<char>)
    ensures
        match find(s, p) {
            Some(k) => has_at(s, p, k) && forall|j: int| j < k ==> !has_at(s, p, j),
            None => forall|j: int| !has_at(s, p, j),
        },
        contains(s, p) == (find(s, p) is Some),
{
    lemma_find_from(s, p, 0);
}

/// An occurrence with none before it is what `find` gives.
pub proof fn lemma_find_at(s: Seq<char>, p: Seq<char>, k: int)
    requires
        has_at(s, p, k),
        forall|j: int| 0 <= j < k ==> !has_at(s, p, j),
    ensures
        find(s, p) == Some(k),
{
    lemma_find(s, p);
}

pub proof fn lemma_rfind_from(s: Seq<char>, p: Seq<char>, i: int)
    ensures
        match rfind_from(s, p, i) {
            Some(k) => k <= i && has_at(s, p, k) && forall|j: int| k < j <= i ==> !has_at(s, p, j),
            None => forall|j: int| j <= i ==> !has_at(s, p, j),
        },
    decreases i + 1,
{
    if i >= 0 && !has_at(s, p, i) {
        lemma_rfind_from(s, p, i - 1);
    }
}

/// What `rfind` says: the last occurrence, or that there is none.
pub proof fn lemma_rfind(s: Seq<char>, p: Seq<char>)
    ensures
        match rfind(s, p) {
            Some(k) => has_at(s, p, k) && forall|j: int| k < j ==> !has_at(s, p, j),
            None => forall|j: int| !has_at(s, p, j),
        },
        contains(s, p) == (rfind(s, p) is Some),
{
    lemma_rfind_from(s, p, s.len() - p.len());
}

/// An occurrence with none after it is what `rfind` gives.
pub proof fn lemma_rfind_at(s: Seq<char>, p: Seq<char>, k: int)
    requires
        has_at(s, p, k),
        forall|j: int| k < j ==> !has_at(s, p, j),
    ensures
        rfind(s, p) == Some(k),
{
    lemma_rfind(s, p);
}

/// Whether `p` stands in `v` at position `i`.
pub fn stands_at(v: &[char], p: &[char], i: usize) -> (r: bool)
    ensures
        r == has_at(v@, p@, i as int),
{
    if i > v.len() || p.len() > v.len() - i {
        return false;
    }
    same(slice_subrange(v, i, i + p.len()), p)
}

/// Whether `v` starts with `p`.
pub fn starts_with(v: &[char], p: &[char]) -> (r: bool)
    ensures
        r == begins(v@, p@),
{
    stands_at(v, p, 0)
}

/// Whether `v` ends with `p`.
pub fn ends_with(v: &[char], p: &[char]) -> (r: bool)
    ensures
        r == ends(v@, p@),
{
    p.len() <= v.len() && stands_at(v, p, v.len() - p.len())
}

/// The first position of `p` in `v`.
pub fn find_in(v: &[char], p: &[char]) -> (r: Option<usize>)
    ensures
        match r {
            Some(k) => find(v@, p@) == Some(k as int) && k + p@.len() <= v@.len() <= usize::MAX,
            None => find(v@, p@) is None,
        },
{
    if p.len() > v.len() {
        return None;
    }
    let last: usize = v.len() - p.len();
    let mut i: usize = 0;
    while i <= last
        invariant
            last == v@.len() - p@.len(),
            v@.len() <= usize::MAX,
            i <= last + 1,
            find_from(v@, p@, i as int) == find(v@, p@),
        decreases last + 1 - i,
    {
        if stands_at(v, p, i) {
            return Some(i);
        }
        if i == last {
            assert(find_from(v@, p@, i + 1) is None);
            return None;
        }
        i = i + 1;
    }
    None
}

/// The last position of `p` in `v`.
pub fn rfind_in(v: &[char], p: &[char]) -> (r: Option<usize>)
    ensures
        match r {
            Some(k) => rfind(v@, p@) == Some(k as int) && k + p@.len() <= v@.len() <= usize::MAX,
            None => rfind(v@, p@) is None,
        },
{
    if p.len() > v.len() {
        return None;
    }
    let mut i: usize = v.len() - p.len();
    loop
        invariant
            i + p@.len() <= v@.len() <= usize::MAX,
            rfind_from(v@, p@, i as int) == rfind(v@, p@),
        decreases i,
    {
        if stands_at(v, p, i) {
            return Some(i);
        }
        if i == 0 {
            assert(rfind_from(v@, p@, -1) is None);
            return None;
        }
        i = i - 1;
    }
}

/// Whether `p` stands anywhere in `s`.
pub fn holds(s: &str, p: &str) -> (r: bool)
    ensures
        r == contains(s@, p@),
{
    proof {
        lemma_find(s@, p@);
    }
    find_in(chars_of(s).as_slice(), chars_of(p).as_slice()).is_some()
}

/// `v` up to the first `p`, or all of it.
pub fn up_to<'a>(v: &'a [char], p: &[char]) -> (r: &'a [char])
    ensures
        r@ == before(v@, p@),
{
    match find_in(v, p) {
        Some(i) => slice_subrange(v, 0, i),
        None => v,
    }
}

// ── Splitting ─────────────────────────────────────────────────────────────

/// The texts behind a sequence of slices.
pub open spec fn texts(v: Seq<&[char]>) -> Seq<Seq<char>> {
    v.map_values(|x: &[char]| x@)
}

/// The pieces of `s` between the separators.
pub open spec fn split(s: Seq<char>, sep: char) -> Seq<Seq<char>>
    decreases s.len(),
{
    match find(s, seq![sep]) {
        Some(i) => if 0 <= i < s.len() {
            seq![s.take(i)] + split(s.skip(i + 1), sep)
        } else {
            seq![s]
        },
        None => seq![s],
    }
}

/// A line without the one carriage return that may end it.
pub open spec fn chop_return(s: Seq<char>) -> Seq<char> {
    if s.len() > 0 && s.last() == '\r' {
        s.drop_last()
    } else {
        s
    }
}

/// The lines of a text. A line ends at a line feed, or at a carriage return
/// with a line feed; what follows the last line feed is a line if it is not
/// empty.
pub open spec fn lines(s: Seq<char>) -> Seq<Seq<char>>
    decreases s.len(),
{
    if s.len() == 0 {
        seq![]
    } else {
        match find(s, seq!['\n']) {
            Some(i) => if 0 <= i < s.len() {
                seq![chop_return(s.take(i))] + lines(s.skip(i + 1))
            } else {
                seq![s]
            },
            None => seq![s],
        }
    }
}

/// The first line of a text that starts with a line and its line feed.
pub proof fn lemma_lines_first(l: Seq<char>, rest: Seq<char>)
    requires
        one_line(l),
    ensures
        lines(l + seq!['\n'] + rest) == seq![chop_return(l)] + lines(rest),
{
    let s = l + seq!['\n'] + rest;
    let n = l.len() as int;
    assert(s.subrange(n, n + 1) =~= seq!['\n']);
    assert forall|j: int| 0 <= j < n implies !has_at(s, seq!['\n'], j) by {
        assert(s.subrange(j, j + 1)[0] == l[j]);
    }
    lemma_find_at(s, seq!['\n'], n);
    assert(s.take(n) =~= l);
    assert(s.skip(n + 1) =~= rest);
}

/// No line holds a line feed.
pub proof fn lemma_lines_one_line(s: Seq<char>, k: int)
    requires
        0 <= k < lines(s).len(),
    ensures
        one_line(lines(s)[k]),
    decreases s.len(),
{
    if s.len() > 0 {
        lemma_find(s, seq!['\n']);
        match find(s, seq!['\n']) {
            Some(i) => {
                if k == 0 {
                    assert forall|j: int| 0 <= j < i implies s[j] != '\n' by {
                        if s[j] == '\n' {
                            assert(s.subrange(j, j + 1) =~= seq!['\n']);
                            assert(has_at(s, seq!['\n'], j));
                        }
                    }
                } else {
                    assert(lines(s)[k] == lines(s.skip(i + 1))[k - 1]);
                    lemma_lines_one_line(s.skip(i + 1), k - 1);
                }
            },
            None => {
                assert forall|j: int| 0 <= j < s.len() implies s[j] != '\n' by {
                    if s[j] == '\n' {
                        assert(s.subrange(j, j + 1) =~= seq!['\n']);
                        assert(has_at(s, seq!['\n'], j));
                    }
                }
            },
        }
    }
}

/// `v` without the one carriage return that may end it.
pub fn without_return(v: &[char]) -> (r: &[char])
    ensures
        r@ == chop_return(v@),
{
    if v.len() > 0 && v[v.len() - 1] == '\r' {
        slice_subrange(v, 0, v.len() - 1)
    } else {
        v
    }
}

/// The pieces of `v` between the separators.
pub fn split_at<'a>(v: &'a [char], sep: char) -> (r: Vec<&'a [char]>)
    ensures
        texts(r@) == split(v@, sep),
{
    let mut out: Vec<&'a [char]> = Vec::new();
    let mut rest: &'a [char] = v;
    let mark: Vec<char> = vec![sep];
    assert(mark@ =~= seq![sep]);
    loop
        invariant
            mark@ == seq![sep],
            mark@.len() == 1,
            texts(out@) + split(rest@, sep) == split(v@, sep),
        decreases rest@.len(),
    {
        let n: usize = rest.len();
        match find_in(rest, mark.as_slice()) {
            Some(i) => {
                let piece = slice_subrange(rest, 0, i);
                let ghost done = texts(out@);
                out.push(piece);
                proof {
                    assert(texts(out@) =~= done.push(piece@));
                    assert(done.push(piece@) + split(rest@.skip(i + 1), sep) =~= done + (
                    seq![piece@] + split(rest@.skip(i + 1), sep)));
                }
                rest = slice_subrange(rest, i + 1, n);
            },
            None => {
                let ghost done = texts(out@);
                out.push(rest);
                proof {
                    assert(texts(out@) =~= done + seq![rest@]);
                }
                return out;
            },
        }
    }
}

/// The lines of `v`.
pub fn lines_of<'a>(v: &'a [char]) -> (r: Vec<&'a [char]>)
    ensures
        texts(r@) == lines(v@),
{
    let mut out: Vec<&'a [char]> = Vec::new();
    let mut rest: &'a [char] = v;
    let mark: Vec<char> = vec!['\n'];
    assert(mark@ =~= seq!['\n']);
    assert(texts(out@) + lines(rest@) =~= lines(v@));
    while rest.len() > 0
        invariant
            mark@ == seq!['\n'],
            mark@.len() == 1,
            texts(out@) + lines(rest@) == lines(v@),
        decreases rest@.len(),
    {
        let n: usize = rest.len();
        match find_in(rest, mark.as_slice()) {
            Some(i) => {
                let piece = without_return(slice_subrange(rest, 0, i));
                let ghost done = texts(out@);
                out.push(piece);
                proof {
                    assert(texts(out@) =~= done.push(piece@));
                    assert(done.push(piece@) + lines(rest@.skip(i + 1)) =~= done + (seq![piece@]
                        + lines(rest@.skip(i + 1))));
                }
                rest = slice_subrange(rest, i + 1, n);
            },
            None => {
                let ghost done = texts(out@);
                out.push(rest);
                proof {
                    assert(texts(out@) =~= done + seq![rest@]);
                }
                return out;
            },
        }
    }
    assert(texts(out@) + lines(rest@) =~= texts(out@));
    out
}

// ── ASCII letter case ─────────────────────────────────────────────────────

/// An ASCII letter in upper case, any other character as it is.
pub open spec fn ascii_upper_char(c: char) -> char {
    if 'a' <= c && c <= 'z' {
        ((c as u8) - 32) as char
    } else {
        c
    }
}

/// An ASCII letter in lower case, any other character as it is.
pub open spec fn ascii_lower_char(c: char) -> char {
    if 'A' <= c && c <= 'Z' {
        ((c as u8) + 32) as char
    } else {
        c
    }
}

/// A text with its ASCII letters in upper case.
pub open spec fn ascii_upper(s: Seq<char>) -> Seq<char> {
    s.map_values(|c: char| ascii_upper_char(c))
}

/// A text with its ASCII letters in lower case.
pub open spec fn ascii_lower(s: Seq<char>) -> Seq<char> {
    s.map_values(|c: char| ascii_lower_char(c))
}

/// The characters of `v` with the ASCII letters in upper case.
pub fn to_ascii_upper(v: &[char]) -> (r: Vec<char>)
    ensures
        r@ == ascii_upper(v@),
{
    let mut out: Vec<char> = Vec::new();
    for i in 0..v.len()
        invariant
            out@ == ascii_upper(v@).take(i as int),
    {
        let c = v[i];
        let u = if 'a' <= c && c <= 'z' {
            ((c as u8) - 32) as char
        } else {
            c
        };
        out.push(u);
    }
    out
}

/// The characters of `v` with the ASCII letters in lower case.
pub fn to_ascii_lower(v: &[char]) -> (r: Vec<char>)
    ensures
        r@ == ascii_lower(v@),
{
    let mut out: Vec<char> = Vec::new();
    for i in 0..v.len()
        invariant
            out@ == ascii_lower(v@).take(i as int),
    {
        let c = v[i];
        let u = if 'A' <= c && c <= 'Z' {
            ((c as u8) + 32) as char
        } else {
            c
        };
        out.push(u);
    }
    out
}

/// Whether two texts differ at most in the case of ASCII letters.
pub fn same_but_case(a: &[char], b: &[char]) -> (r: bool)
    ensures
        r == (ascii_upper(a@) == ascii_upper(b@)),
{
    same(to_ascii_upper(a).as_slice(), to_ascii_upper(b).as_slice())
}

// ── Letter case ───────────────────────────────────────────────────────────

/// A text in lower case by Unicode's rules: what `str::to_lowercase` gives.
pub uninterp spec fn lowercase(s: Seq<char>) -> Seq<char>;

/// A text of ASCII characters alone.
pub open spec fn is_ascii(s: Seq<char>) -> bool {
    forall|i: int| 0 <= i < s.len() ==> (#[trigger] s[i] as u32) < 128
}

/// `str::to_lowercase`, whose result is named `lowercase`: it follows
/// Unicode's derived property `Lowercase` and its tables, and depends on the
/// text alone. Of a text of ASCII characters it makes what
/// `str::to_ascii_lowercase` does: the letters `A` to `Z` become `a` to `z`.
#[verifier::external_body]
pub(crate) fn to_lowercase(s: &str) -> (r: String)
    ensures
        r@ == lowercase(s@),
        is_ascii(s@) ==> r@ == ascii_lower(s@),
{
    s.to_lowercase()
}

// ── Numbers ───────────────────────────────────────────────────────────────

/// The digit of a number below ten.
pub open spec fn digit(n: nat) -> char {
    ((48 + n) as u8) as char
}

/// A number in decimal, without leading zeros.
pub open spec fn decimal(n: nat) -> Seq<char>
    decreases n,
{
    if n < 10 {
        seq![digit(n)]
    } else {
        decimal(n / 10).push(digit(n % 10))
    }
}

proof fn lemma_digit(a: nat, b: nat)
    requires
        a < 10,
        b < 10,
        digit(a) == digit(b),
    ensures
        a == b,
{
    assert(digit(a) as u32 == 48 + a);
    assert(digit(b) as u32 == 48 + b);
}

/// Different numbers are written differently.
pub proof fn law_decimal_injective(a: nat, b: nat)
    requires
        decimal(a) == decimal(b),
    ensures
        a == b,
    decreases a,
{
    lemma_decimal_len(a);
    lemma_decimal_len(b);
    assert(decimal(a).last() == digit(a % 10));
    assert(decimal(b).last() == digit(b % 10));
    lemma_digit(a % 10, b % 10);
    if a >= 10 && b >= 10 {
        assert(decimal(a).drop_last() =~= decimal(a / 10));
        assert(decimal(b).drop_last() =~= decimal(b / 10));
        law_decimal_injective(a / 10, b / 10);
    }
}

proof fn lemma_decimal_len(n: nat)
    ensures
        decimal(n).len() >= 1,
        n >= 10 ==> decimal(n).len() >= 2,
    decreases n,
{
    if n >= 10 {
        lemma_decimal_len(n / 10);
    }
}

/// A number in decimal.
pub fn decimal_string(n: u128) -> (r: String)
    ensures
        r@ == decimal(n as nat),
    decreases n,
{
    if n < 10 {
        let mut s = String::new();
        s.push((48 + n as u8) as char);
        assert(s@ =~= decimal(n as nat));
        s
    } else {
        let mut s = decimal_string(n / 10);
        s.push((48 + (n % 10) as u8) as char);
        s
    }
}

} // verus!
