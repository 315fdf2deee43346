//! Titles for lists that come from the server: each takes one that is free.
use vstd::prelude::*;

use crate::model::{ListFile, ListFileView};
use crate::paths;
use crate::text;

verus! {

/// A title is that of one of some lists, or of a file that is there.
pub open spec fn title_taken(
    title: Seq<char>,
    taken: Seq<ListFileView>,
    on_disk: Seq<Seq<char>>,
) -> bool {
    (exists|i: int| 0 <= i < taken.len() && (#[trigger] taken[i]).title == title)
        || on_disk.contains(title)
}

/// A title with a number behind it.
pub open spec fn numbered(base: Seq<char>, n: nat) -> Seq<char> {
    base + " ("@ + text::decimal(n) + ")"@
}

/// `n` is the least number, from 2 on, that makes a title free.
pub open spec fn frees(
    base: Seq<char>,
    n: nat,
    taken: Seq<ListFileView>,
    on_disk: Seq<Seq<char>>,
) -> bool {
    &&& 2 <= n
    &&& !title_taken(numbered(base, n), taken, on_disk)
    &&& forall|m: nat| 2 <= m < n ==> title_taken(#[trigger] numbered(base, m), taken, on_disk)
}

/// A free title for a server title: the title itself, or else with the least
/// number behind it.
pub open spec fn free_title(
    title: Seq<char>,
    taken: Seq<ListFileView>,
    on_disk: Seq<Seq<char>>,
) -> Seq<char> {
    let base = paths::safe(title);
    if title_taken(base, taken, on_disk) {
        numbered(base, choose|n: nat| frees(base, n, taken, on_disk))
    } else {
        base
    }
}

/// Whether a title is taken.
fn is_taken(title: &str, taken: &[ListFile], on_disk: &[String]) -> (r: bool)
    ensures
        r == title_taken(title@, taken.deep_view(), on_disk.deep_view()),
{
    let ghost files = taken.deep_view();
    let ghost names = on_disk.deep_view();
    for i in 0..taken.len()
        invariant
            files == taken.deep_view(),
            forall|j: int| 0 <= j < i ==> (#[trigger] files[j]).title != title@,
    {
        assert(files[i as int] == taken@[i as int].deep_view());
        if text::same_str(taken[i].title.as_str(), title) {
            return true;
        }
    }
    for i in 0..on_disk.len()
        invariant
            names == on_disk.deep_view(),
            forall|j: int| 0 <= j < i ==> #[trigger] names[j] != title@,
    {
        assert(names[i as int] == on_disk@[i as int]@);
        if text::same_str(on_disk[i].as_str(), title) {
            assert(names.contains(title@));
            return true;
        }
    }
    false
}

/// Not all of more titles than there are can be taken.
proof fn lemma_room(base: Seq<char>, n: nat, taken: Seq<ListFileView>, on_disk: Seq<Seq<char>>)
    requires
        2 <= n,
        forall|m: nat| 2 <= m < n ==> title_taken(#[trigger] numbered(base, m), taken, on_disk),
    ensures
        n - 2 <= taken.len() + on_disk.len(),
{
    let names = taken.map_values(|f: ListFileView| f.title) + on_disk;
    let tried = Seq::new((n - 2) as nat, |i: int| numbered(base, (i + 2) as nat));
    assert forall|i: int, j: int|
        0 <= i < tried.len() && 0 <= j < tried.len() && i != j implies tried[i] != tried[j] by {
        if tried[i] == tried[j] {
            let a = text::decimal((i + 2) as nat);
            let b = text::decimal((j + 2) as nat);
            let pre = (base + " ("@).len() as int;
            reveal_strlit(")");
            assert(tried[i].subrange(pre, tried[i].len() - 1) =~= a);
            assert(tried[j].subrange(pre, tried[j].len() - 1) =~= b);
            text::law_decimal_injective((i + 2) as nat, (j + 2) as nat);
        }
    }
    tried.unique_seq_to_set();
    assert forall|t: Seq<char>| tried.to_set().contains(t) implies names.to_set().contains(t) by {
        let i = choose|i: int| 0 <= i < tried.len() && tried[i] == t;
        assert(title_taken(numbered(base, (i + 2) as nat), taken, on_disk));
        if on_disk.contains(t) {
            let k = choose|k: int| 0 <= k < on_disk.len() && on_disk[k] == t;
            assert(names[taken.len() + k] == t);
        } else {
            let k = choose|k: int| 0 <= k < taken.len() && (#[trigger] taken[k]).title == t;
            assert(names[k] == t);
        }
    }
    vstd::seq_lib::seq_to_set_is_finite(names);
    vstd::set_lib::lemma_len_subset(tried.to_set(), names.to_set());
    names.lemma_cardinality_of_set();
}

/// There is one least number that makes a title free.
pub proof fn law_free_number_unique(
    base: Seq<char>,
    a: nat,
    b: nat,
    taken: Seq<ListFileView>,
    on_disk: Seq<Seq<char>>,
)
    requires
        frees(base, a, taken, on_disk),
        frees(base, b, taken, on_disk),
    ensures
        a == b,
{
    if a < b {
        assert(title_taken(numbered(base, a), taken, on_disk));
    }
    if b < a {
        assert(title_taken(numbered(base, b), taken, on_disk));
    }
}

/// A free file stem for a server title: `Groceries`, then `Groceries (2)`.
/// `on_disk` holds the stems of the files that are there.
pub fn unique_local_title(title: &str, taken: &[ListFile], on_disk: &[String]) -> (r: String)
    ensures
        r@ == free_title(title@, taken.deep_view(), on_disk.deep_view()),
        !title_taken(r@, taken.deep_view(), on_disk.deep_view()),
        title_taken(paths::safe(title@), taken.deep_view(), on_disk.deep_view()) ==> exists|n: nat|
            frees(paths::safe(title@), n, taken.deep_view(), on_disk.deep_view()) && r@
                == #[trigger] numbered(paths::safe(title@), n),
{
    let base = paths::safe_title(title);
    let ghost files = taken.deep_view();
    let ghost names = on_disk.deep_view();
    let lists: usize = taken.len();
    let stems: usize = on_disk.len();
    if !is_taken(base.as_str(), taken, on_disk) {
        return base;
    }
    let mut n: u128 = 2;
    loop
        invariant
            files == taken.deep_view(),
            names == on_disk.deep_view(),
            files.len() == lists,
            names.len() == stems,
            base@ == paths::safe(title@),
            title_taken(base@, files, names),
            2 <= n,
            n - 2 <= files.len() + names.len(),
            forall|m: nat| 2 <= m < n ==> title_taken(#[trigger] numbered(base@, m), files, names),
        decreases files.len() + names.len() + 2 - n,
    {
        let mut t = base.clone();
        t.append(" (");
        t.append(text::decimal_string(n).as_str());
        t.append(")");
        assert(t@ =~= numbered(base@, n as nat));
        if !is_taken(t.as_str(), taken, on_disk) {
            proof {
                assert(frees(base@, n as nat, files, names));
                let k = choose|k: nat| frees(base@, k, files, names);
                law_free_number_unique(base@, n as nat, k, files, names);
            }
            return t;
        }
        proof {
            lemma_room(base@, (n + 1) as nat, files, names);
        }
        n = n + 1;
    }
}

/// A numbered title is a file stem as it stands.
pub proof fn law_numbered_is_safe(title: Seq<char>, n: nat)
    ensures
        paths::safe(numbered(paths::safe(title), n)) == numbered(paths::safe(title), n),
{
    let base = paths::safe(title);
    let t = numbered(base, n);
    paths::law_safe_title(title);
    lemma_decimal_no_slash(n);
    reveal_strlit(" (");
    reveal_strlit(")");
    reveal_strlit(".");
    reveal_strlit("..");
    assert(base.len() > 0);
    text::lemma_trimmed(base);
    assert(t[0] == base[0]);
    assert(t.last() == ')');
    text::lemma_trimmed(t);
    assert(paths::without_slashes(t) =~= t) by {
        assert forall|i: int| 0 <= i < t.len() implies t[i] != '/' by {
            if i < base.len() {
                assert(t[i] == base[i]);
            } else if i >= base.len() + 2 && i < t.len() - 1 {
                assert(t[i] == text::decimal(n)[i - base.len() - 2]);
            }
        }
    }
}

proof fn lemma_decimal_no_slash(n: nat)
    ensures
        text::decimal(n).len() > 0,
        forall|i: int| 0 <= i < text::decimal(n).len() ==> text::decimal(n)[i] != '/',
    decreases n,
{
    assert(forall|d: nat| d < 10 ==> #[trigger] text::digit(d) as u32 == 48 + d);
    if n >= 10 {
        lemma_decimal_no_slash(n / 10);
    }
}

} // verus!
