//! What the lines of a calendar say of its item: which of them speak of it, and
//! what each of them says.
use vstd::prelude::*;

use crate::ical;
use crate::ical_laws;
use crate::seqs;
use crate::text;
use crate::text_laws;

verus! {

// ── Lines ─────────────────────────────────────────────────────────────────

proof fn lemma_first_sep(s: Seq<char>, sep: char) -> (k: int)
    ensures
        -1 <= k < s.len(),
        k >= 0 ==> s[k] == sep && text_laws::without(s.take(k), sep) && s == s.take(k) + seq![sep]
            + s.skip(k + 1),
        k < 0 ==> text_laws::without(s, sep),
    decreases s.len(),
{
    if s.len() == 0 {
        -1
    } else if s[0] == sep {
        assert(s =~= s.take(0) + seq![sep] + s.skip(1));
        0
    } else {
        let t = s.skip(1);
        let m = lemma_first_sep(t, sep);
        if m < 0 {
            assert forall|i: int| 0 <= i < s.len() implies #[trigger] s[i] != sep by {
                if i > 0 {
                    assert(t[i - 1] == s[i]);
                }
            }
            -1
        } else {
            let k = m + 1;
            assert forall|i: int| 0 <= i < k implies #[trigger] s.take(k)[i] != sep by {
                if i > 0 {
                    assert(t.take(m)[i - 1] == s[i]);
                }
            }
            assert(s =~= s.take(k) + seq![sep] + s.skip(k + 1));
            k
        }
    }
}

proof fn lemma_split_apart(x: Seq<char>, sep: char, z: Seq<char>)
    ensures
        text::split(x + seq![sep] + z, sep) == text::split(x, sep) + text::split(z, sep),
    decreases x.len(),
{
    let k = lemma_first_sep(x, sep);
    if k < 0 {
        text_laws::law_split(x, sep, z);
    } else {
        let a = x.take(k);
        let b = x.skip(k + 1);
        text_laws::law_split(a, sep, b);
        text_laws::law_split(a, sep, b + seq![sep] + z);
        assert(x + seq![sep] + z =~= a + seq![sep] + (b + seq![sep] + z));
        lemma_split_apart(b, sep, z);
        assert(seq![a] + (text::split(b, sep) + text::split(z, sep)) =~= (seq![a] + text::split(
            b,
            sep,
        )) + text::split(z, sep));
    }
}

/// Two texts put together: the last part of the first and the first part of the
/// second are one.
spec fn put_side_by_side(a: Seq<Seq<char>>, b: Seq<Seq<char>>) -> Seq<Seq<char>> {
    a.drop_last() + seq![a.last() + b[0]] + b.skip(1)
}

proof fn lemma_split_together(x: Seq<char>, y: Seq<char>, sep: char)
    ensures
        text::split(x, sep).len() > 0,
        text::split(y, sep).len() > 0,
        text::split(x + y, sep) == put_side_by_side(text::split(x, sep), text::split(y, sep)),
        text_laws::without(x, sep) ==> text::split(x, sep).last() == x,
    decreases x.len(),
{
    let k = lemma_first_sep(x, sep);
    let m = lemma_first_sep(y, sep);
    if k < 0 {
        text_laws::law_split(x, sep, Seq::empty());
        if m < 0 {
            text_laws::law_split(y, sep, Seq::empty());
            assert(text_laws::without(x + y, sep));
            text_laws::law_split(x + y, sep, Seq::empty());
            assert(put_side_by_side(seq![x], seq![y]) =~= seq![x + y]);
        } else {
            let a = y.take(m);
            let b = y.skip(m + 1);
            text_laws::law_split(a, sep, b);
            assert(text_laws::without(x + a, sep));
            text_laws::law_split(x + a, sep, b);
            assert(x + y =~= (x + a) + seq![sep] + b);
            assert((seq![a] + text::split(b, sep)).skip(1) =~= text::split(b, sep));
            assert(put_side_by_side(seq![x], seq![a] + text::split(b, sep)) =~= seq![x + a]
                + text::split(b, sep));
        }
    } else {
        let a = x.take(k);
        let b = x.skip(k + 1);
        text_laws::law_split(a, sep, b);
        text_laws::law_split(a, sep, b + y);
        assert(x + y =~= a + seq![sep] + (b + y));
        lemma_split_together(b, y, sep);
        let s = text::split(b, sep);
        let t = text::split(y, sep);
        assert((seq![a] + s).drop_last() =~= seq![a] + s.drop_last());
        assert((seq![a] + s).last() == s.last());
        assert(seq![a] + put_side_by_side(s, t) =~= put_side_by_side(seq![a] + s, t));
    }
}

proof fn lemma_last_line(x: Seq<char>)
    requires
        x.len() > 0,
        x.last() != '\n',
    ensures
        text::split(x, '\n').last().len() > 0,
        text::split(x, '\n').last().last() == x.last(),
    decreases x.len(),
{
    let k = lemma_first_sep(x, '\n');
    if k < 0 {
        text_laws::law_split(x, '\n', Seq::empty());
    } else {
        let b = x.skip(k + 1);
        text_laws::law_split(x.take(k), '\n', b);
        assert(b.len() > 0) by {
            if b.len() == 0 {
                assert(x.last() == x[k]);
            }
        }
        lemma_last_line(b);
        lemma_split_together(b, Seq::empty(), '\n');
    }
}

proof fn lemma_together_tail(a: Seq<Seq<char>>, b: Seq<Seq<char>>, tail: Seq<Seq<char>>)
    requires
        ical::put_together(a) == ical::put_together(b),
    ensures
        ical::put_together(a + tail) == ical::put_together(b + tail),
    decreases tail.len(),
{
    if tail.len() == 0 {
        assert(a + tail =~= a);
        assert(b + tail =~= b);
    } else {
        lemma_together_tail(a, b, tail.drop_last());
        assert((a + tail).drop_last() =~= a + tail.drop_last());
        assert((b + tail).drop_last() =~= b + tail.drop_last());
    }
}

proof fn lemma_fold(
    head: Seq<Seq<char>>,
    l: Seq<char>,
    w: char,
    c: Seq<char>,
    tail: Seq<Seq<char>>,
)
    requires
        l.len() > 0,
        w == ' ' || w == '\t',
    ensures
        ical::put_together(head + seq![l, seq![w] + c] + tail) == ical::put_together(
            head + seq![l + c] + tail,
        ),
{
    let a = head + seq![l, seq![w] + c];
    let b = head + seq![l + c];
    let one = head + seq![l];
    assert(a.drop_last() =~= one);
    assert(a.last() == seq![w] + c);
    assert(one.drop_last() =~= head);
    assert(one.last() == l);
    assert(b.drop_last() =~= head);
    assert(b.last() == l + c);
    assert((seq![w] + c).skip(1) =~= c);
    assert((l + c).skip(1) =~= l.skip(1) + c);
    assert((seq![w] + c)[0] == w);
    assert((l + c)[0] == l[0]);
    let r = ical::put_together(head);
    let q = ical::put_together(one);
    if ical::is_folded(l) && r.len() > 0 {
        assert(q.last() == r.last() + l.skip(1));
        assert(q.last() + c =~= r.last() + (l.skip(1) + c));
        assert(q.update(q.len() - 1, q.last() + c) =~= r.update(
            r.len() - 1,
            r.last() + (l + c).skip(1),
        ));
    } else {
        assert(q == r.push(l));
        assert(q.update(q.len() - 1, q.last() + c) =~= r.push(l + c));
    }
    assert(ical::put_together(a) == ical::put_together(b));
    lemma_together_tail(a, b, tail);
}

/// A line may be folded anywhere: a line end with a space or a tab behind it,
/// set into a line behind its first character, changes nothing of what is read.
pub proof fn law_folds_vanish(x: Seq<char>, w: char, y: Seq<char>)
    requires
        x.len() > 0,
        x.last() != '\n',
        x.last() != '\r',
        w == ' ' || w == '\t',
    ensures
        ical::logical_lines(x + seq!['\n', w] + y) == ical::logical_lines(x + y),
        ical::logical_lines(x + seq!['\r', '\n', w] + y) == ical::logical_lines(x + y),
{
    let chop = |l: Seq<char>| text::chop_return(l);
    let z = seq![w] + y;
    let s = text::split(x, '\n');
    let t = text::split(y, '\n');
    let l = s.last();
    let xr = x.push('\r');
    let sr = text::split(xr, '\n');
    assert(x + seq!['\n', w] + y =~= x + seq!['\n'] + z);
    assert(x + seq!['\r', '\n', w] + y =~= xr + seq!['\n'] + z);
    lemma_split_apart(x, '\n', z);
    lemma_split_apart(xr, '\n', z);
    lemma_split_together(x, y, '\n');
    lemma_split_together(seq![w], y, '\n');
    text_laws::law_split(seq![w], '\n', Seq::empty());
    lemma_last_line(x);
    lemma_split_together(x, seq!['\r'], '\n');
    text_laws::law_split(seq!['\r'], '\n', Seq::empty());
    assert(x + seq!['\r'] =~= xr);
    assert(sr =~= s.drop_last() + seq![l + seq!['\r']]);
    let head = s.drop_last().map_values(chop);
    let tail = t.skip(1).map_values(chop);
    let c = text::chop_return(t[0]);
    assert(text::split(z, '\n') =~= seq![seq![w] + t[0]] + t.skip(1));
    assert(text::chop_return(l) == l);
    assert((l + seq!['\r']).drop_last() =~= l);
    assert(text::chop_return(l + seq!['\r']) == l);
    assert(text::chop_return(seq![w] + t[0]) =~= seq![w] + c) by {
        if t[0].len() > 0 {
            assert((seq![w] + t[0]).last() == t[0].last());
            assert((seq![w] + t[0]).drop_last() =~= seq![w] + t[0].drop_last());
        }
    }
    assert(text::chop_return(l + t[0]) =~= l + c) by {
        if t[0].len() > 0 {
            assert((l + t[0]).last() == t[0].last());
            assert((l + t[0]).drop_last() =~= l + t[0].drop_last());
        } else {
            assert(l + t[0] =~= l);
        }
    }
    let folded = head + seq![l, seq![w] + c] + tail;
    let whole = head + seq![l + c] + tail;
    assert(ical::raw_lines(x + seq!['\n', w] + y) =~= folded);
    assert(ical::raw_lines(x + seq!['\r', '\n', w] + y) =~= folded);
    assert(ical::raw_lines(x + y) =~= whole);
    lemma_fold(head, l, w, c, tail);
}

proof fn lemma_put_apart(a: Seq<Seq<char>>, b: Seq<Seq<char>>)
    requires
        b.len() > 0,
        !ical::is_folded(b[0]),
    ensures
        ical::put_together(a + b) == ical::put_together(a) + ical::put_together(b),
        ical::put_together(b).len() > 0,
    decreases b.len(),
{
    let c = b.drop_last();
    assert((a + b).drop_last() =~= a + c);
    assert((a + b).last() == b.last());
    if b.len() == 1 {
        assert(a + c =~= a);
        assert(c =~= Seq::<Seq<char>>::empty());
        assert(b.last() == b[0]);
        assert(ical::put_together(b) =~= seq![b[0]]);
        assert(ical::put_together(a + b) =~= ical::put_together(a) + seq![b[0]]);
    } else {
        lemma_put_apart(a, c);
        let p = ical::put_together(a);
        let q = ical::put_together(c);
        assert((p + q).last() == q.last());
        if ical::is_folded(b.last()) {
            assert((p + q).update((p + q).len() - 1, (p + q).last() + b.last().skip(1)) =~= p
                + q.update(q.len() - 1, q.last() + b.last().skip(1)));
        } else {
            assert((p + q).push(b.last()) =~= p + q.push(b.last()));
        }
    }
}

proof fn lemma_filter_apart(a: Seq<Seq<char>>, b: Seq<Seq<char>>, p: spec_fn(Seq<char>) -> bool)
    ensures
        (a + b).filter(p) == a.filter(p) + b.filter(p),
    decreases b.len(),
{
    reveal(Seq::filter);
    if b.len() == 0 {
        assert(a + b =~= a);
        assert(a.filter(p) + b.filter(p) =~= a.filter(p));
    } else {
        lemma_filter_apart(a, b.drop_last(), p);
        assert((a + b).drop_last() =~= a + b.drop_last());
        assert((a + b).last() == b.last());
        if p(b.last()) {
            assert(a.filter(p) + b.drop_last().filter(p).push(b.last()) =~= (a.filter(p)
                + b.drop_last().filter(p)).push(b.last()));
        }
    }
}

/// A text that goes on behind a line end with no space and no tab goes on with
/// another line: the lines of the whole are those of its two parts.
pub proof fn law_lines_are_apart(x: Seq<char>, z: Seq<char>)
    requires
        z.len() > 0 ==> z[0] != ' ' && z[0] != '\t',
    ensures
        ical::logical_lines(x + seq!['\n'] + z) == ical::logical_lines(x) + ical::logical_lines(
            z,
        ),
{
    let chop = |l: Seq<char>| text::chop_return(l);
    lemma_split_apart(x, '\n', z);
    lemma_split_together(z, Seq::empty(), '\n');
    let a = text::split(x, '\n');
    let b = text::split(z, '\n');
    assert((a + b).map_values(chop) =~= a.map_values(chop) + b.map_values(chop));
    let k = lemma_first_sep(z, '\n');
    if k < 0 {
        text_laws::law_split(z, '\n', Seq::empty());
        assert(b[0] == z);
    } else {
        text_laws::law_split(z.take(k), '\n', z.skip(k + 1));
        assert(b[0] == z.take(k));
    }
    let first = ical::raw_lines(z)[0];
    assert(first == text::chop_return(b[0]));
    assert(!ical::is_folded(first)) by {
        if first.len() > 0 {
            assert(first[0] == z[0]);
        }
    }
    lemma_put_apart(ical::raw_lines(x), ical::raw_lines(z));
    lemma_filter_apart(
        ical::put_together(ical::raw_lines(x)),
        ical::put_together(ical::raw_lines(z)),
        |l: Seq<char>| l.len() > 0,
    );
}

/// A folded line behind an empty one is a line of its own, without the space or
/// the tab that it starts with.
pub proof fn law_fold_behind_empty_line(x: Seq<char>, w: char, y: Seq<char>)
    requires
        w == ' ' || w == '\t',
        text_laws::without(y, '\n'),
        y.len() > 0,
        y.last() != '\r',
    ensures
        ical::logical_lines(x + seq!['\n', '\n', w] + y) == ical::logical_lines(x) + seq![y],
{
    let chop = |l: Seq<char>| text::chop_return(l);
    let p = |l: Seq<char>| l.len() > 0;
    let z = seq![w] + y;
    let empty = Seq::<char>::empty();
    let s = text::split(x, '\n');
    assert(x + seq!['\n', '\n', w] + y =~= x + seq!['\n'] + (empty + seq!['\n'] + z));
    lemma_split_apart(x, '\n', empty + seq!['\n'] + z);
    lemma_split_apart(empty, '\n', z);
    text_laws::law_split(empty, '\n', Seq::empty());
    assert(text_laws::without(z, '\n'));
    text_laws::law_split(z, '\n', Seq::empty());
    assert(z.last() == y.last());
    let a = ical::raw_lines(x);
    let one = a.push(empty);
    let two = one.push(z);
    assert(ical::raw_lines(x + seq!['\n', '\n', w] + y) =~= two);
    assert(one.drop_last() =~= a);
    assert(two.drop_last() =~= one);
    let r = ical::put_together(a);
    assert(ical::put_together(one) == r.push(empty));
    assert(z.skip(1) =~= y);
    assert(z[0] == w);
    assert(empty + y =~= y);
    assert(ical::put_together(two) =~= r + seq![y]);
    lemma_filter_apart(r, seq![y], p);
    reveal(Seq::filter);
    assert(seq![y].drop_last() =~= Seq::<Seq<char>>::empty());
    assert(Seq::<Seq<char>>::empty().filter(p) =~= Seq::<Seq<char>>::empty());
    assert(seq![y].filter(p) =~= seq![y]);
}

/// One line is itself, without a carriage return that ends it, and an empty one
/// is none.
pub proof fn law_single_line(a: Seq<char>)
    requires
        text_laws::without(a, '\n'),
    ensures
        a.len() > 0 && a.last() != '\r' ==> ical::logical_lines(a) == seq![a],
        a.len() > 1 && a.last() == '\r' ==> ical::logical_lines(a) == seq![a.drop_last()],
        a.len() == 0 || a == seq!['\r'] ==> ical::logical_lines(a).len() == 0,
{
    text_laws::law_split(a, '\n', Seq::empty());
    let l = text::chop_return(a);
    assert(ical::raw_lines(a) =~= seq![l]);
    assert(seq![l].drop_last() =~= Seq::<Seq<char>>::empty());
    assert(ical::put_together(Seq::empty()) == Seq::<Seq<char>>::empty());
    assert(seq![l].last() == l);
    assert(ical::put_together(seq![l]) =~= seq![l]);
    reveal(Seq::filter);
    let p = |l: Seq<char>| l.len() > 0;
    assert(Seq::<Seq<char>>::empty().filter(p) =~= Seq::<Seq<char>>::empty());
    assert(seq![l].filter(p) =~= if l.len() > 0 {
        seq![l]
    } else {
        Seq::empty()
    });
}

// ── Properties ────────────────────────────────────────────────────────────

/// How many quotes stand in a text.
pub open spec fn quotes(s: Seq<char>) -> nat {
    s.filter(|c: char| c == '"').len()
}

/// A colon stands at `i`, outside of quotes.
pub open spec fn open_colon(line: Seq<char>, i: int) -> bool {
    0 <= i < line.len() && line[i] == ':' && quotes(line.take(i)) % 2 == 0
}

proof fn lemma_quotes(line: Seq<char>, i: int)
    requires
        0 <= i < line.len(),
    ensures
        quotes(line.take(i + 1)) == quotes(line.take(i)) + if line[i] == '"' {
            1nat
        } else {
            0nat
        },
{
    seqs::lemma_filter_take(line, |c: char| c == '"', i);
}

proof fn lemma_colon_at(line: Seq<char>, i: int, k: int, in_quotes: bool)
    requires
        0 <= i <= k,
        open_colon(line, k),
        forall|j: int| i <= j < k ==> !#[trigger] open_colon(line, j),
        in_quotes == (quotes(line.take(i)) % 2 == 1),
    ensures
        ical::colon_from(line, i, in_quotes) == Some(k),
    decreases k - i,
{
    if i < k {
        assert(!open_colon(line, i));
        lemma_quotes(line, i);
        if line[i] == '"' {
            lemma_colon_at(line, i + 1, k, !in_quotes);
        } else {
            lemma_colon_at(line, i + 1, k, in_quotes);
        }
    }
}

proof fn lemma_no_colon(line: Seq<char>, i: int, in_quotes: bool)
    requires
        0 <= i <= line.len(),
        forall|j: int| i <= j < line.len() ==> !#[trigger] open_colon(line, j),
        in_quotes == (quotes(line.take(i)) % 2 == 1),
    ensures
        ical::colon_from(line, i, in_quotes) is None,
    decreases line.len() - i,
{
    if i < line.len() {
        assert(!open_colon(line, i));
        lemma_quotes(line, i);
        if line[i] == '"' {
            lemma_no_colon(line, i + 1, !in_quotes);
        } else {
            lemma_no_colon(line, i + 1, in_quotes);
        }
    }
}

/// A line is parted by its first colon outside of quotes: what stands behind it
/// is the value, and what stands before it, up to the first semicolon, is the
/// name, whose small letters count as capitals.
pub proof fn law_property(line: Seq<char>, i: int, j: int)
    requires
        open_colon(line, i),
        forall|k: int| 0 <= k < i ==> !#[trigger] open_colon(line, k),
        0 <= j <= i,
        j < i ==> line[j] == ';',
        forall|k: int| 0 <= k < j ==> line[k] != ';',
    ensures
        ical::content(line) == Some((line.take(i), line.skip(i + 1))),
        ical::prop_value(line) == line.skip(i + 1),
        ical::prop_name(line).len() == j,
        forall|k: int|
            0 <= k < j ==> #[trigger] ical::prop_name(line)[k] as u32 == if 'a' <= line[k]
                && line[k] <= 'z' {
                line[k] as u32 - 32
            } else {
                line[k] as u32 as int
            },
{
    assert(line.take(0).filter(|c: char| c == '"') =~= Seq::empty()) by {
        reveal(Seq::filter);
    }
    lemma_colon_at(line, 0, i, false);
    let head = line.take(i);
    reveal_strlit(";");
    assert(";"@ =~= seq![';']);
    assert forall|k: int| 0 <= k < j implies !text::has_at(head, ";"@, k) by {
        if text::has_at(head, ";"@, k) {
            assert(head.subrange(k, k + 1)[0] == head[k]);
        }
    }
    if j < i {
        assert(head.subrange(j, j + 1) =~= ";"@);
        text::lemma_find_at(head, ";"@, j);
    } else {
        text::lemma_find(head, ";"@);
    }
    assert(text::before(head, ";"@) =~= line.take(j));
}

/// A line without a colon outside of quotes says nothing.
pub proof fn law_no_property(line: Seq<char>)
    requires
        forall|k: int| 0 <= k < line.len() ==> !#[trigger] open_colon(line, k),
    ensures
        ical::content(line) is None,
        ical::prop_name(line).len() == 0,
        ical::prop_value(line).len() == 0,
{
    assert(line.take(0).filter(|c: char| c == '"') =~= Seq::empty()) by {
        reveal(Seq::filter);
    }
    lemma_no_colon(line, 0, false);
}

// ── Text values ───────────────────────────────────────────────────────────

/// A value is read from its start: a character that is no backslash stands for
/// itself; behind a backslash `n` and `N` stand for a space, and every other
/// character for itself; a backslash that ends the value stands for nothing.
pub proof fn law_unescaped(c: char, rest: Seq<char>)
    ensures
        ical::unescaped(Seq::empty()).len() == 0,
        ical::unescaped(seq!['\\']).len() == 0,
        c != '\\' ==> ical::unescaped(seq![c] + rest) == seq![c] + ical::unescaped(rest),
        c == 'n' || c == 'N' ==> ical::unescaped(seq!['\\', c] + rest) == seq![' ']
            + ical::unescaped(rest),
        c != 'n' && c != 'N' ==> ical::unescaped(seq!['\\', c] + rest) == seq![c]
            + ical::unescaped(rest),
{
    assert((seq![c] + rest).skip(1) =~= rest);
    assert((seq!['\\', c] + rest).skip(2) =~= rest);
}

/// A value is written character by character: a backslash, a comma and a
/// semicolon behind a backslash, a line feed as `n` behind a backslash, and every
/// other character as itself.
pub proof fn law_escaped(v: Seq<char>, c: char)
    ensures
        ical::escaped(Seq::empty()).len() == 0,
        c == '\\' || c == ',' || c == ';' ==> ical::escaped(v.push(c)) == ical::escaped(v)
            + seq!['\\', c],
        c == '\n' ==> ical::escaped(v.push(c)) == ical::escaped(v) + seq!['\\', 'n'],
        c != '\\' && c != ',' && c != ';' && c != '\n' ==> ical::escaped(v.push(c))
            == ical::escaped(v) + seq![c],
{
    assert(v.push(c).drop_last() =~= v);
}

// ── Lines of the item ─────────────────────────────────────────────────────

/// A line that begins an item.
pub open spec fn begins_item(line: Seq<char>) -> bool {
    ical::prop_name(line) == "BEGIN"@ && text::ascii_upper(ical::prop_value(line)) == "VTODO"@
}

/// A line that ends an item.
pub open spec fn ends_item(line: Seq<char>) -> bool {
    ical::prop_name(line) == "END"@ && text::ascii_upper(ical::prop_value(line)) == "VTODO"@
}

/// The line at `k` stands in an item: one begins before it and does not end
/// before it.
pub open spec fn stands_inside(lines: Seq<Seq<char>>, k: int) -> bool {
    exists|b: int|
        0 <= b < k && begins_item(#[trigger] lines[b]) && forall|e: int|
            b < e < k ==> !ends_item(#[trigger] lines[e])
}

/// The line at `k` stands in an item and is a property of a name.
pub open spec fn says(lines: Seq<Seq<char>>, k: int, name: Seq<char>) -> bool {
    0 <= k < lines.len() && stands_inside(lines, k) && ical::prop_name(lines[k]) == name
}

/// The line at `k` says that its item is done: it is completed, or all of it is.
pub open spec fn completes(lines: Seq<Seq<char>>, k: int) -> bool {
    let value = text::trim(ical::prop_value(lines[k]));
    ||| says(lines, k, "COMPLETED"@)
    ||| says(lines, k, "STATUS"@) && text::ascii_upper(value) == "COMPLETED"@
    ||| says(lines, k, "PERCENT-COMPLETE"@) && value == "100"@
}

/// The line at `k` says that its item comes again.
pub open spec fn recurs(lines: Seq<Seq<char>>, k: int) -> bool {
    says(lines, k, "RRULE"@) || says(lines, k, "RDATE"@)
}

proof fn lemma_more_names()
    ensures
        "UID"@ != "SUMMARY"@,
        "UID"@ != "STATUS"@,
        "UID"@ != "COMPLETED"@,
        "UID"@ != "PERCENT-COMPLETE"@,
        "RRULE"@ != "BEGIN"@,
        "RRULE"@ != "END"@,
        "RRULE"@ != "UID"@,
        "RDATE"@ != "BEGIN"@,
        "RDATE"@ != "END"@,
        "RDATE"@ != "UID"@,
        "UID"@.len() > 0,
        "SUMMARY"@.len() > 0,
        "STATUS"@.len() > 0,
        "COMPLETED"@.len() > 0,
        "PERCENT-COMPLETE"@.len() > 0,
        "RRULE"@.len() > 0,
        "RDATE"@.len() > 0,
{
    reveal_strlit("BEGIN");
    reveal_strlit("END");
    reveal_strlit("UID");
    reveal_strlit("SUMMARY");
    reveal_strlit("STATUS");
    reveal_strlit("COMPLETED");
    reveal_strlit("PERCENT-COMPLETE");
    reveal_strlit("RRULE");
    reveal_strlit("RDATE");
    assert("UID"@[0] == 'U');
    assert("RRULE"@[1] == 'R');
    assert("RDATE"@[1] == 'D');
}

proof fn lemma_inside(lines: Seq<Seq<char>>, n: int)
    requires
        0 <= n <= lines.len(),
    ensures
        ical::read_lines(lines.take(n)).in_todo == stands_inside(lines, n),
    decreases n,
{
    if n > 0 {
        lemma_inside(lines, n - 1);
        ical_laws::lemma_names_differ();
        assert(lines.take(n).drop_last() =~= lines.take(n - 1));
        let line = lines[n - 1];
        assert(lines.take(n).last() == line);
        if begins_item(line) {
            assert(begins_item(lines[n - 1]));
            assert(stands_inside(lines, n));
        } else if ends_item(line) {
            assert forall|b: int| 0 <= b < n && begins_item(#[trigger] lines[b]) implies exists|
                e: int,
            | b < e < n && ends_item(#[trigger] lines[e]) by {
                assert(ends_item(lines[n - 1]));
            }
            assert(!stands_inside(lines, n));
        } else {
            if stands_inside(lines, n - 1) {
                let b = choose|b: int|
                    0 <= b < n - 1 && begins_item(#[trigger] lines[b]) && forall|e: int|
                        b < e < n - 1 ==> !ends_item(#[trigger] lines[e]);
                assert(begins_item(lines[b]));
                assert forall|e: int| b < e < n implies !ends_item(#[trigger] lines[e]) by {}
                assert(stands_inside(lines, n));
            }
            if stands_inside(lines, n) {
                let b = choose|b: int|
                    0 <= b < n && begins_item(#[trigger] lines[b]) && forall|e: int|
                        b < e < n ==> !ends_item(#[trigger] lines[e]);
                assert(b < n - 1);
                assert(begins_item(lines[b]));
                assert(stands_inside(lines, n - 1));
            }
        }
    }
}

/// What is read of one more line.
proof fn lemma_step(lines: Seq<Seq<char>>, n: int)
    requires
        0 <= n < lines.len(),
    ensures
        ({
            let t = ical::read_lines(lines.take(n));
            let u = ical::read_lines(lines.take(n + 1));
            let value = text::trim(ical::prop_value(lines[n]));
            &&& u.uid == if says(lines, n, "UID"@) {
                value
            } else {
                t.uid
            }
            &&& u.summary == if says(lines, n, "SUMMARY"@) {
                ical::unescaped(value)
            } else {
                t.summary
            }
            &&& u.done == (t.done || completes(lines, n))
            &&& u.recurring == (t.recurring || recurs(lines, n))
        }),
{
    lemma_inside(lines, n);
    ical_laws::lemma_names_differ();
    lemma_more_names();
    assert(lines.take(n + 1).drop_last() =~= lines.take(n));
    assert(lines.take(n + 1).last() == lines[n]);
}

proof fn lemma_flags(lines: Seq<Seq<char>>, n: int)
    requires
        0 <= n <= lines.len(),
    ensures
        ical::read_lines(lines.take(n)).done == exists|k: int|
            0 <= k < n && #[trigger] completes(lines, k),
        ical::read_lines(lines.take(n)).recurring == exists|k: int|
            0 <= k < n && #[trigger] recurs(lines, k),
    decreases n,
{
    if n > 0 {
        lemma_flags(lines, n - 1);
        lemma_step(lines, n - 1);
    }
}

/// A calendar is read as one that comes again exactly where a line that stands
/// in its item is a rule or a date of recurrence. Lines outside of the item,
/// such as those of a time zone, say nothing of it.
pub proof fn law_recurring_is_read(lines: Seq<Seq<char>>)
    ensures
        ical::read_lines(lines).recurring <==> exists|k: int|
            0 <= k < lines.len() && #[trigger] stands_inside(lines, k) && (ical::prop_name(
                lines[k],
            ) == "RRULE"@ || ical::prop_name(lines[k]) == "RDATE"@),
{
    lemma_flags(lines, lines.len() as int);
    assert(lines.take(lines.len() as int) =~= lines);
    assert forall|k: int| 0 <= k < lines.len() implies #[trigger] recurs(lines, k) == (
    stands_inside(lines, k) && (ical::prop_name(lines[k]) == "RRULE"@ || ical::prop_name(lines[k])
        == "RDATE"@)) by {}
    if ical::read_lines(lines).recurring {
        let k = choose|k: int| 0 <= k < lines.len() && #[trigger] recurs(lines, k);
        assert(stands_inside(lines, k));
    }
    if exists|k: int|
        0 <= k < lines.len() && #[trigger] stands_inside(lines, k) && (ical::prop_name(lines[k])
            == "RRULE"@ || ical::prop_name(lines[k]) == "RDATE"@) {
        let k = choose|k: int|
            0 <= k < lines.len() && #[trigger] stands_inside(lines, k) && (ical::prop_name(lines[k])
                == "RRULE"@ || ical::prop_name(lines[k]) == "RDATE"@);
        assert(recurs(lines, k));
    }
}

/// A calendar is read as done exactly where a line that stands in its item says
/// when it was completed, or that its status is completed, or that all of it is.
pub proof fn law_done_is_read(lines: Seq<Seq<char>>)
    ensures
        ical::read_lines(lines).done <==> exists|k: int|
            0 <= k < lines.len() && #[trigger] stands_inside(lines, k) && {
                let name = ical::prop_name(lines[k]);
                let value = text::trim(ical::prop_value(lines[k]));
                ||| name == "COMPLETED"@
                ||| name == "STATUS"@ && text::ascii_upper(value) == "COMPLETED"@
                ||| name == "PERCENT-COMPLETE"@ && value == "100"@
            },
{
    lemma_flags(lines, lines.len() as int);
    assert(lines.take(lines.len() as int) =~= lines);
    if ical::read_lines(lines).done {
        let k = choose|k: int| 0 <= k < lines.len() && #[trigger] completes(lines, k);
        assert(stands_inside(lines, k));
    }
    if exists|k: int|
        0 <= k < lines.len() && #[trigger] stands_inside(lines, k) && {
            let name = ical::prop_name(lines[k]);
            let value = text::trim(ical::prop_value(lines[k]));
            ||| name == "COMPLETED"@
            ||| name == "STATUS"@ && text::ascii_upper(value) == "COMPLETED"@
            ||| name == "PERCENT-COMPLETE"@ && value == "100"@
        } {
        let k = choose|k: int|
            0 <= k < lines.len() && #[trigger] stands_inside(lines, k) && {
                let name = ical::prop_name(lines[k]);
                let value = text::trim(ical::prop_value(lines[k]));
                ||| name == "COMPLETED"@
                ||| name == "STATUS"@ && text::ascii_upper(value) == "COMPLETED"@
                ||| name == "PERCENT-COMPLETE"@ && value == "100"@
            };
        assert(completes(lines, k));
    }
}

proof fn lemma_uid(lines: Seq<Seq<char>>, n: int, k: int)
    requires
        0 <= n <= lines.len(),
        k < n,
        0 <= k ==> says(lines, k, "UID"@),
        forall|j: int| k < j < n && 0 <= j ==> !#[trigger] says(lines, j, "UID"@),
    ensures
        ical::read_lines(lines.take(n)).uid == if 0 <= k {
            text::trim(ical::prop_value(lines[k]))
        } else {
            Seq::empty()
        },
    decreases n,
{
    if n > 0 {
        lemma_step(lines, n - 1);
        if k < n - 1 {
            assert(!says(lines, n - 1, "UID"@));
            lemma_uid(lines, n - 1, k);
        }
    }
}

proof fn lemma_summary(lines: Seq<Seq<char>>, n: int, k: int)
    requires
        0 <= n <= lines.len(),
        k < n,
        0 <= k ==> says(lines, k, "SUMMARY"@),
        forall|j: int| k < j < n && 0 <= j ==> !#[trigger] says(lines, j, "SUMMARY"@),
    ensures
        ical::read_lines(lines.take(n)).summary == if 0 <= k {
            ical::unescaped(text::trim(ical::prop_value(lines[k])))
        } else {
            Seq::empty()
        },
    decreases n,
{
    if n > 0 {
        lemma_step(lines, n - 1);
        if k < n - 1 {
            assert(!says(lines, n - 1, "SUMMARY"@));
            lemma_summary(lines, n - 1, k);
        }
    }
}

/// The identity that is read is the value of the last identity that stands in
/// the item, without white space at its ends.
pub proof fn law_uid_is_read(lines: Seq<Seq<char>>, k: int)
    requires
        says(lines, k, "UID"@),
        forall|j: int| k < j < lines.len() ==> !#[trigger] says(lines, j, "UID"@),
    ensures
        ical::read_lines(lines).uid == text::trim(ical::prop_value(lines[k])),
{
    lemma_uid(lines, lines.len() as int, k);
    assert(lines.take(lines.len() as int) =~= lines);
}

/// The summary that is read is the value of the last summary that stands in the
/// item, without white space at its ends, and with its escapes read.
pub proof fn law_summary_is_read(lines: Seq<Seq<char>>, k: int)
    requires
        says(lines, k, "SUMMARY"@),
        forall|j: int| k < j < lines.len() ==> !#[trigger] says(lines, j, "SUMMARY"@),
    ensures
        ical::read_lines(lines).summary == ical::unescaped(
            text::trim(ical::prop_value(lines[k])),
        ),
{
    lemma_summary(lines, lines.len() as int, k);
    assert(lines.take(lines.len() as int) =~= lines);
}

/// Where no identity or no summary stands in the item, the one that is read is
/// empty.
pub proof fn law_missing_properties(lines: Seq<Seq<char>>)
    ensures
        (forall|j: int| 0 <= j < lines.len() ==> !#[trigger] says(lines, j, "UID"@))
            ==> ical::read_lines(lines).uid.len() == 0,
        (forall|j: int| 0 <= j < lines.len() ==> !#[trigger] says(lines, j, "SUMMARY"@))
            ==> ical::read_lines(lines).summary.len() == 0,
{
    assert(lines.take(lines.len() as int) =~= lines);
    if forall|j: int| 0 <= j < lines.len() ==> !#[trigger] says(lines, j, "UID"@) {
        lemma_uid(lines, lines.len() as int, -1);
    }
    if forall|j: int| 0 <= j < lines.len() ==> !#[trigger] says(lines, j, "SUMMARY"@) {
        lemma_summary(lines, lines.len() as int, -1);
    }
}

} // verus!
