//! The order of texts: by their first differing character, a prefix before
//! what it is a prefix of. It is the order of the texts' UTF-8 bytes too.
use vstd::prelude::*;

use crate::text::chars_of;

verus! {

/// `a` comes strictly before `b`.
pub open spec fn precedes(a: Seq<char>, b: Seq<char>) -> bool
    decreases a.len(),
{
    if b.len() == 0 {
        false
    } else if a.len() == 0 {
        true
    } else if a[0] != b[0] {
        a[0] < b[0]
    } else {
        precedes(a.skip(1), b.skip(1))
    }
}

/// Every text comes before all that follow it.
pub open spec fn ascending(s: Seq<Seq<char>>) -> bool {
    forall|i: int, j: int| 0 <= i < j < s.len() ==> precedes(#[trigger] s[i], #[trigger] s[j])
}

/// No text comes before itself.
pub proof fn law_precedes_irreflexive(a: Seq<char>)
    ensures
        !precedes(a, a),
    decreases a.len(),
{
    if a.len() > 0 {
        law_precedes_irreflexive(a.skip(1));
    }
}

/// The order is transitive.
pub proof fn law_precedes_transitive(a: Seq<char>, b: Seq<char>, c: Seq<char>)
    requires
        precedes(a, b),
        precedes(b, c),
    ensures
        precedes(a, c),
    decreases a.len(),
{
    if a.len() > 0 && a[0] == b[0] && b[0] == c[0] {
        law_precedes_transitive(a.skip(1), b.skip(1), c.skip(1));
    }
}

/// Of two different texts exactly one comes before the other.
pub proof fn law_precedes_total(a: Seq<char>, b: Seq<char>)
    ensures
        a == b || precedes(a, b) || precedes(b, a),
        !(precedes(a, b) && precedes(b, a)),
    decreases a.len(),
{
    if a.len() == 0 || b.len() == 0 {
        if a.len() == 0 && b.len() == 0 {
            assert(a =~= b);
        }
    } else if a[0] == b[0] {
        law_precedes_total(a.skip(1), b.skip(1));
        if a.skip(1) == b.skip(1) {
            assert(a =~= seq![a[0]] + a.skip(1));
            assert(b =~= seq![b[0]] + b.skip(1));
        }
    }
}

/// An ascending sequence holds nothing twice.
pub proof fn lemma_ascending_distinct(s: Seq<Seq<char>>)
    requires
        ascending(s),
    ensures
        s.no_duplicates(),
{
    assert forall|i: int, j: int| 0 <= i < s.len() && 0 <= j < s.len() && i != j implies s[i]
        != s[j] by {
        law_precedes_irreflexive(s[i]);
        law_precedes_irreflexive(s[j]);
        if i < j {
            assert(precedes(s[i], s[j]));
        } else {
            assert(precedes(s[j], s[i]));
        }
    }
}

/// There is one way to put given texts in ascending order.
pub proof fn law_ascending_unique(a: Seq<Seq<char>>, b: Seq<Seq<char>>)
    requires
        ascending(a),
        ascending(b),
        a.to_set() == b.to_set(),
    ensures
        a == b,
    decreases a.len(),
{
    if a.len() == 0 {
        if b.len() > 0 {
            assert(b.to_set().contains(b[0]));
            assert(a.to_set().contains(b[0]));
        }
        assert(a =~= b);
    } else {
        assert(a.to_set().contains(a.last()));
        assert(b.to_set().contains(a.last()));
        let k = choose|k: int| 0 <= k < b.len() && b[k] == a.last();
        assert(b.to_set().contains(b.last()));
        assert(a.to_set().contains(b.last()));
        let m = choose|m: int| 0 <= m < a.len() && a[m] == b.last();
        if k < b.len() - 1 {
            assert(precedes(b[k], b[b.len() - 1]));
            if m < a.len() - 1 {
                assert(precedes(a[m], a[a.len() - 1]));
            }
            law_precedes_total(a.last(), b.last());
            law_precedes_irreflexive(a.last());
        }
        assert(a.last() == b.last());
        lemma_ascending_distinct(a);
        lemma_ascending_distinct(b);
        let a1 = a.drop_last();
        let b1 = b.drop_last();
        assert forall|x: Seq<char>| a1.to_set().contains(x) == b1.to_set().contains(x) by {
            if a1.to_set().contains(x) {
                let i = choose|i: int| 0 <= i < a1.len() && a1[i] == x;
                assert(a[i] == x);
                assert(a.to_set().contains(x));
                assert(b.to_set().contains(x));
                let j = choose|j: int| 0 <= j < b.len() && b[j] == x;
                assert(b1[j] == x);
            }
            if b1.to_set().contains(x) {
                let i = choose|i: int| 0 <= i < b1.len() && b1[i] == x;
                assert(b[i] == x);
                assert(b.to_set().contains(x));
                assert(a.to_set().contains(x));
                let j = choose|j: int| 0 <= j < a.len() && a[j] == x;
                assert(a1[j] == x);
            }
        }
        assert(a1.to_set() =~= b1.to_set());
        law_ascending_unique(a1, b1);
        assert(a =~= a1.push(a.last()));
        assert(b =~= b1.push(b.last()));
    }
}

/// The texts of a set, in ascending order.
pub open spec fn in_order(s: Set<Seq<char>>) -> Seq<Seq<char>> {
    choose|q: Seq<Seq<char>>| ascending(q) && q.to_set() == s
}

/// An ascending sequence is its own set in order.
pub proof fn lemma_in_order(q: Seq<Seq<char>>)
    requires
        ascending(q),
    ensures
        in_order(q.to_set()) == q,
{
    law_ascending_unique(in_order(q.to_set()), q);
}

/// Every finite set of texts can be put in ascending order.
pub proof fn law_in_order(s: Set<Seq<char>>)
    requires
        s.finite(),
    ensures
        ascending(in_order(s)),
        in_order(s).to_set() == s,
        in_order(s).no_duplicates(),
        in_order(s).len() == s.len(),
    decreases s.len(),
{
    let none = Seq::<Seq<char>>::empty();
    if s.len() == 0 {
        assert(none.to_set() =~= s);
        assert(ascending(none));
    } else {
        let x = s.choose();
        let rest = in_order(s.remove(x));
        law_in_order(s.remove(x));
        assert(!rest.contains(x)) by {
            if rest.contains(x) {
                assert(rest.to_set().contains(x));
            }
        }
        let k = place_of(rest, x, rest.len() as int);
        lemma_place_of(rest, x, rest.len() as int);
        let q = rest.insert(k, x);
        assert forall|i: int, j: int| 0 <= i < j < q.len() implies precedes(
            #[trigger] q[i],
            #[trigger] q[j],
        ) by {
            let i0 = if i < k { i } else { i - 1 };
            let j0 = if j < k { j } else { j - 1 };
            if i != k && j != k {
                assert(q[i] == rest[i0] && q[j] == rest[j0]);
            } else if i == k {
                assert(q[j] == rest[j0]);
            } else {
                assert(q[i] == rest[i0]);
            }
        }
        assert forall|y: Seq<char>| q.to_set().contains(y) == s.contains(y) by {
            if q.contains(y) {
                let i = choose|i: int| 0 <= i < q.len() && q[i] == y;
                if i != k {
                    let i0 = if i < k { i } else { i - 1 };
                    assert(rest[i0] == y);
                    assert(rest.to_set().contains(y));
                }
            }
            if s.contains(y) {
                if y == x {
                    assert(q[k] == y);
                } else {
                    assert(rest.to_set().contains(y));
                    let i = choose|i: int| 0 <= i < rest.len() && rest[i] == y;
                    let i1 = if i < k { i } else { i + 1 };
                    assert(q[i1] == y);
                }
            }
        }
        assert(q.to_set() =~= s);
    }
    lemma_ascending_distinct(in_order(s));
    in_order(s).unique_seq_to_set();
}

/// How many of the first `n` texts come before `x`, where they ascend.
spec fn place_of(q: Seq<Seq<char>>, x: Seq<char>, n: int) -> int
    decreases n,
{
    if n <= 0 {
        0
    } else if precedes(q[n - 1], x) {
        n
    } else {
        place_of(q, x, n - 1)
    }
}

proof fn lemma_place_of(q: Seq<Seq<char>>, x: Seq<char>, n: int)
    requires
        ascending(q),
        !q.contains(x),
        0 <= n <= q.len(),
    ensures
        0 <= place_of(q, x, n) <= n,
        forall|i: int| 0 <= i < place_of(q, x, n) ==> precedes(#[trigger] q[i], x),
        forall|i: int| place_of(q, x, n) <= i < n ==> precedes(x, #[trigger] q[i]),
    decreases n,
{
    if n > 0 {
        if precedes(q[n - 1], x) {
            assert forall|i: int| 0 <= i < n implies precedes(#[trigger] q[i], x) by {
                if i < n - 1 {
                    law_precedes_transitive(q[i], q[n - 1], x);
                }
            }
        } else {
            assert(q.contains(q[n - 1]));
            law_precedes_total(q[n - 1], x);
            lemma_place_of(q, x, n - 1);
        }
    }
}

/// Whether `a` comes strictly before `b`.
pub fn comes_before(a: &str, b: &str) -> (r: bool)
    ensures
        r == precedes(a@, b@),
{
    let x: Vec<char> = chars_of(a);
    let y: Vec<char> = chars_of(b);
    let mut i: usize = 0;
    assert(x@.skip(0) =~= x@);
    assert(y@.skip(0) =~= y@);
    loop
        invariant
            i <= x@.len(),
            i <= y@.len(),
            x@ == a@,
            y@ == b@,
            precedes(x@.skip(i as int), y@.skip(i as int)) == precedes(a@, b@),
        decreases x@.len() - i,
    {
        if i == y.len() {
            return false;
        }
        if i == x.len() {
            return true;
        }
        if x[i] != y[i] {
            return x[i] < y[i];
        }
        assert(x@.skip(i as int).skip(1) =~= x@.skip(i + 1));
        assert(y@.skip(i as int).skip(1) =~= y@.skip(i + 1));
        i = i + 1;
    }
}

/// A text comes before another where, behind what they have in common, it has
/// the lesser character, or ends and the other goes on.
pub proof fn law_first_difference(a: Seq<char>, b: Seq<char>)
    ensures
        precedes(a, b) <==> exists|i: int|
            0 <= i <= a.len() && i < b.len() && #[trigger] a.take(i) == b.take(i) && (i == a.len()
                || a[i] < b[i]),
    decreases a.len(),
{
    if b.len() > 0 {
        if a.len() == 0 {
            assert(a.take(0) =~= b.take(0));
        } else if a[0] != b[0] {
            if a[0] < b[0] {
                assert(a.take(0) =~= b.take(0));
            }
            if exists|i: int|
                0 <= i <= a.len() && i < b.len() && #[trigger] a.take(i) == b.take(i) && (i
                    == a.len() || a[i] < b[i]) {
                let i = choose|i: int|
                    0 <= i <= a.len() && i < b.len() && #[trigger] a.take(i) == b.take(i) && (i
                        == a.len() || a[i] < b[i]);
                if i > 0 {
                    assert(a.take(i)[0] == b.take(i)[0]);
                }
            }
        } else {
            let x = a.skip(1);
            let y = b.skip(1);
            law_first_difference(x, y);
            if precedes(x, y) {
                let i = choose|i: int|
                    0 <= i <= x.len() && i < y.len() && #[trigger] x.take(i) == y.take(i) && (i
                        == x.len() || x[i] < y[i]);
                assert(a.take(i + 1) =~= seq![a[0]] + x.take(i));
                assert(b.take(i + 1) =~= seq![b[0]] + y.take(i));
                assert(a.take(i + 1) == b.take(i + 1));
            }
            if exists|i: int|
                0 <= i <= a.len() && i < b.len() && #[trigger] a.take(i) == b.take(i) && (i
                    == a.len() || a[i] < b[i]) {
                let i = choose|i: int|
                    0 <= i <= a.len() && i < b.len() && #[trigger] a.take(i) == b.take(i) && (i
                        == a.len() || a[i] < b[i]);
                assert(i > 0);
                assert(x.take(i - 1) =~= a.take(i).skip(1));
                assert(y.take(i - 1) =~= b.take(i).skip(1));
                assert(x.take(i - 1) == y.take(i - 1));
            }
        }
    }
}

/// Where texts ascend, each comes before every one behind it, and only then do
/// they.
pub proof fn law_ascending(s: Seq<Seq<char>>, i: int, j: int)
    ensures
        ascending(s) && 0 <= i < j < s.len() ==> precedes(s[i], s[j]),
        (forall|a: int, b: int| 0 <= a < b < s.len() ==> precedes(#[trigger] s[a], #[trigger] s[b]))
            ==> ascending(s),
{
}

} // verus!
