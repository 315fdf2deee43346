//! Facts about sequences that grow by one element at a time.
use vstd::prelude::*;

verus! {

/// What a filter keeps of one more element.
pub proof fn lemma_filter_take<A>(s: Seq<A>, p: spec_fn(A) -> bool, i: int)
    requires
        0 <= i < s.len(),
    ensures
        s.take(i + 1).filter(p) == if p(s[i]) {
            s.take(i).filter(p).push(s[i])
        } else {
            s.take(i).filter(p)
        },
{
    reveal(Seq::filter);
    assert(s.take(i + 1).drop_last() =~= s.take(i));
    assert(s.take(i + 1).last() == s[i]);
}

/// What a filter that maps keeps of one more element.
pub proof fn lemma_filter_map_take<A, B>(s: Seq<A>, f: spec_fn(A) -> Option<B>, i: int)
    requires
        0 <= i < s.len(),
    ensures
        s.take(i + 1).filter_map(f) == match f(s[i]) {
            Some(b) => s.take(i).filter_map(f).push(b),
            None => s.take(i).filter_map(f),
        },
{
    reveal(Seq::filter_map);
    assert(s.take(i + 1).drop_last() =~= s.take(i));
    assert(s.take(i + 1).last() == s[i]);
    if let Some(b) = f(s[i]) {
        assert(s.take(i).filter_map(f) + seq![b] =~= s.take(i).filter_map(f).push(b));
    }
}

/// A filter keeps just the elements that pass it.
pub proof fn lemma_filter_contains<A>(s: Seq<A>, p: spec_fn(A) -> bool, x: A)
    ensures
        s.filter(p).contains(x) == (s.contains(x) && p(x)),
    decreases s.len(),
{
    reveal(Seq::filter);
    if s.len() > 0 {
        let t = s.drop_last();
        lemma_filter_contains(t, p, x);
        assert(s.contains(x) == (t.contains(x) || s.last() == x)) by {
            if s.contains(x) {
                let i = choose|i: int| 0 <= i < s.len() && s[i] == x;
                if i < t.len() {
                    assert(t[i] == x);
                }
            }
            if t.contains(x) {
                let i = choose|i: int| 0 <= i < t.len() && t[i] == x;
                assert(s[i] == x);
            }
            assert(s[s.len() - 1] == s.last());
        }
        if p(s.last()) {
            let k = t.filter(p);
            assert(k.push(s.last()).contains(x) == (k.contains(x) || s.last() == x)) by {
                if k.push(s.last()).contains(x) {
                    let i = choose|i: int|
                        0 <= i < k.push(s.last()).len() && k.push(s.last())[i] == x;
                    if i < k.len() {
                        assert(k[i] == x);
                    }
                }
                if k.contains(x) {
                    let i = choose|i: int| 0 <= i < k.len() && k[i] == x;
                    assert(k.push(s.last())[i] == x);
                }
                assert(k.push(s.last())[k.len() as int] == s.last());
            }
        }
    }
}

/// A filter that keeps nothing leaves nothing.
pub proof fn lemma_filter_none<A>(s: Seq<A>, p: spec_fn(A) -> bool)
    requires
        forall|i: int| 0 <= i < s.len() ==> !p(#[trigger] s[i]),
    ensures
        s.filter(p) == Seq::<A>::empty(),
{
    if s.filter(p).len() > 0 {
        let x = s.filter(p)[0];
        assert(s.filter(p).contains(x));
        lemma_filter_contains(s, p, x);
        let i = choose|i: int| 0 <= i < s.len() && s[i] == x;
        assert(!p(s[i]));
    }
    assert(s.filter(p) =~= Seq::<A>::empty());
}

/// A filter that keeps everything changes nothing.
pub proof fn lemma_filter_all<A>(s: Seq<A>, p: spec_fn(A) -> bool)
    requires
        forall|i: int| 0 <= i < s.len() ==> p(#[trigger] s[i]),
    ensures
        s.filter(p) == s,
    decreases s.len(),
{
    reveal(Seq::filter);
    if s.len() > 0 {
        let t = s.drop_last();
        assert forall|i: int| 0 <= i < t.len() implies p(#[trigger] t[i]) by {
            assert(t[i] == s[i]);
        }
        lemma_filter_all(t, p);
        assert(s[s.len() - 1] == s.last());
        assert(t.push(s.last()) =~= s);
    }
}

/// A filter of a sequence without repetitions has none.
pub proof fn lemma_filter_distinct<A>(s: Seq<A>, p: spec_fn(A) -> bool)
    requires
        s.no_duplicates(),
    ensures
        s.filter(p).no_duplicates(),
    decreases s.len(),
{
    reveal(Seq::filter);
    if s.len() > 0 {
        let t = s.drop_last();
        assert forall|i: int, j: int|
            0 <= i < t.len() && 0 <= j < t.len() && i != j implies t[i] != t[j] by {
            assert(s[i] != s[j]);
        }
        lemma_filter_distinct(t, p);
        let k = t.filter(p);
        if p(s.last()) {
            lemma_filter_contains(t, p, s.last());
            assert(!t.contains(s.last())) by {
                if t.contains(s.last()) {
                    let i = choose|i: int| 0 <= i < t.len() && t[i] == s.last();
                    assert(s[i] == s[s.len() - 1]);
                }
            }
            assert forall|i: int, j: int|
                0 <= i < k.push(s.last()).len() && 0 <= j < k.push(s.last()).len() && i
                    != j implies k.push(s.last())[i] != k.push(s.last())[j] by {
                if i == k.len() && j < k.len() {
                    assert(k.contains(k[j]));
                }
                if j == k.len() && i < k.len() {
                    assert(k.contains(k[i]));
                }
            }
        }
    }
}

/// A filter that maps nothing leaves nothing.
pub proof fn lemma_filter_map_none<A, B>(s: Seq<A>, f: spec_fn(A) -> Option<B>)
    requires
        forall|i: int| 0 <= i < s.len() ==> f(#[trigger] s[i]) is None,
    ensures
        s.filter_map(f) == Seq::<B>::empty(),
    decreases s.len(),
{
    reveal(Seq::filter_map);
    if s.len() > 0 {
        let t = s.drop_last();
        assert forall|i: int| 0 <= i < t.len() implies f(#[trigger] t[i]) is None by {
            assert(t[i] == s[i]);
        }
        lemma_filter_map_none(t, f);
        assert(f(s[s.len() - 1]) is None);
    }
}

/// What a filter that maps holds comes from some element.
pub proof fn lemma_filter_map_from<A, B>(s: Seq<A>, f: spec_fn(A) -> Option<B>, k: int)
    requires
        0 <= k < s.filter_map(f).len(),
    ensures
        exists|i: int| 0 <= i < s.len() && f(#[trigger] s[i]) == Some(s.filter_map(f)[k]),
    decreases s.len(),
{
    reveal(Seq::filter_map);
    if s.len() > 0 {
        let t = s.drop_last();
        if k < t.filter_map(f).len() {
            lemma_filter_map_from(t, f, k);
            let i = choose|i: int| 0 <= i < t.len() && f(#[trigger] t[i]) == Some(t.filter_map(f)[k]);
            assert(s[i] == t[i]);
            assert(s.filter_map(f)[k] == t.filter_map(f)[k]);
        } else {
            assert(f(s[s.len() - 1]) == Some(s.filter_map(f)[k]));
        }
    }
}

/// A filter that maps holds what it makes of each element that it keeps.
pub proof fn lemma_filter_map_contains<A, B>(s: Seq<A>, f: spec_fn(A) -> Option<B>, k: int)
    requires
        0 <= k < s.len(),
        f(s[k]) is Some,
    ensures
        s.filter_map(f).contains(f(s[k])->0),
    decreases s.len(),
{
    reveal(Seq::filter_map);
    let t = s.drop_last();
    if k < t.len() {
        lemma_filter_map_contains(t, f, k);
        let r = t.filter_map(f);
        let i = choose|i: int| 0 <= i < r.len() && r[i] == f(s[k])->0;
        assert(t[k] == s[k]);
        assert(s.filter_map(f)[i] == r[i]);
    } else {
        let r = s.filter_map(f);
        assert(r[r.len() - 1] == f(s[k])->0);
    }
}

} // verus!
