//! The lists as a whole: their order, and how the rows of the single checklist
//! of the time before there were lists become lists.
use vstd::prelude::*;

use crate::map::OrdMap;
use crate::markdown;
use crate::model;
use crate::model::{Item, ItemView, ListFile, ListFileView, SyncState, SyncedItemView};
use crate::order;
use crate::paths;
use crate::seqs;
use crate::text;

verus! {

// ── Order ─────────────────────────────────────────────────────────────────

/// What lists are ordered by: their titles, whatever their letter case.
pub open spec fn title_key(list: ListFileView) -> Seq<char> {
    text::lowercase(list.title)
}

/// The lists of `s` with a given key, as they follow each other.
pub open spec fn with_key(s: Seq<ListFileView>, key: Seq<char>) -> Seq<ListFileView> {
    s.filter(|l: ListFileView| title_key(l) == key)
}

/// No list stands before one whose title comes before its own.
pub open spec fn in_title_order(s: Seq<ListFileView>) -> bool {
    forall|i: int, j: int|
        0 <= i < j < s.len() ==> !order::precedes(
            title_key(#[trigger] s[j]),
            title_key(#[trigger] s[i]),
        )
}

/// `new` holds the lists of `s` in the order of their titles, and lists with
/// equal titles as they followed each other in `s`.
pub open spec fn sorted_from(new: Seq<ListFileView>, s: Seq<ListFileView>) -> bool {
    in_title_order(new) && forall|key: Seq<char>| #[trigger]
        with_key(new, key) == with_key(s, key)
}

/// Titles of ASCII characters are ordered by their letters in lower case.
pub open spec fn ascii_by_letters(s: Seq<ListFileView>) -> bool {
    forall|i: int|
        0 <= i < s.len() && text::is_ascii((#[trigger] s[i]).title) ==> title_key(s[i])
            == text::ascii_lower(s[i].title)
}

proof fn lemma_filter_insert(s: Seq<ListFileView>, j: int, x: ListFileView, key: Seq<char>)
    requires
        0 <= j <= s.len(),
        title_key(x) == key ==> forall|i: int| j <= i < s.len() ==> title_key(s[i]) != key,
    ensures
        with_key(s.insert(j, x), key) == with_key(s.push(x), key),
{
    let p = |l: ListFileView| title_key(l) == key;
    let a = s.take(j);
    let b = s.skip(j);
    assert(s =~= a + b);
    assert(s.insert(j, x) =~= (a + seq![x]) + b);
    assert(s.push(x) =~= (a + b) + seq![x]);
    Seq::filter_distributes_over_add(a + seq![x], b, p);
    Seq::filter_distributes_over_add(a, seq![x], p);
    Seq::filter_distributes_over_add(a + b, seq![x], p);
    Seq::filter_distributes_over_add(a, b, p);
    reveal_with_fuel(Seq::filter, 2);
    assert(seq![x].drop_last() =~= Seq::empty());
    if p(x) {
        b.lemma_all_neg_filter_empty(p);
        assert(b.filter(p) =~= Seq::empty());
    } else {
        assert(seq![x].filter(p) =~= Seq::empty());
    }
    assert(with_key(s.insert(j, x), key) =~= with_key(s.push(x), key));
}

/// Puts the lists in the order of their titles, whatever their letter case.
/// A title of ASCII characters is ordered by its letters in lower case.
pub fn sort_lists(lists: &mut Vec<ListFile>)
    ensures
        sorted_from(final(lists).deep_view(), old(lists).deep_view()),
        ascii_by_letters(final(lists).deep_view()),
{
    let ghost all = lists.deep_view();
    let mut rest: Vec<ListFile> = Vec::new();
    std::mem::swap(&mut rest, lists);
    let mut out: Vec<ListFile> = Vec::new();
    let ghost mut n: int = 0;
    proof {
        assert(rest.deep_view() =~= all.skip(0));
        assert(out.deep_view() =~= all.take(0));
    }
    while rest.len() > 0
        invariant
            0 <= n <= all.len(),
            rest.deep_view() == all.skip(n),
            in_title_order(out.deep_view()),
            ascii_by_letters(out.deep_view()),
            forall|key: Seq<char>| #[trigger]
                with_key(out.deep_view(), key) == with_key(all.take(n), key),
        decreases rest@.len(),
    {
        let ghost before = rest.deep_view();
        let ghost had = out.deep_view();
        assert(before.len() == rest@.len());
        assert(before[0] == rest@[0].deep_view() && before[0] == all[n]);
        let list = rest.remove(0);
        assert(rest.deep_view() =~= before.skip(1));
        assert(rest.deep_view() =~= all.skip(n + 1));
        let key = text::to_lowercase(list.title.as_str());
        let mut j: usize = 0;
        while j < out.len() && !order::comes_before(
            key.as_str(),
            text::to_lowercase(out[j].title.as_str()).as_str(),
        )
            invariant
                j <= out@.len(),
                had == out.deep_view(),
                key@ == title_key(list.deep_view()),
                forall|i: int| 0 <= i < j ==> !order::precedes(key@, title_key(#[trigger] had[i])),
            decreases out@.len() - j,
        {
            assert(had[j as int] == out@[j as int].deep_view());
            j = j + 1;
        }
        let ghost x = list.deep_view();
        proof {
            if j < out@.len() {
                assert(had[j as int] == out@[j as int].deep_view());
                assert(order::precedes(key@, title_key(had[j as int])));
            }
            assert forall|i: int| j <= i < had.len() implies order::precedes(
                key@,
                title_key(#[trigger] had[i]),
            ) by {
                if i > j {
                    let a = title_key(had[j as int]);
                    let b = title_key(had[i]);
                    order::law_precedes_total(a, b);
                    if order::precedes(a, b) {
                        order::law_precedes_transitive(key@, a, b);
                    }
                }
            }
        }
        out.insert(j, list);
        proof {
            let now = out.deep_view();
            assert(now =~= had.insert(j as int, x));
            assert forall|i: int| 0 <= i < now.len() && text::is_ascii(
                (#[trigger] now[i]).title,
            ) implies title_key(now[i]) == text::ascii_lower(now[i].title) by {
                if i < j {
                    assert(now[i] == had[i]);
                } else if i > j {
                    assert(now[i] == had[i - 1]);
                }
            }
            assert forall|a: int, b: int| 0 <= a < b < now.len() implies !order::precedes(
                title_key(#[trigger] now[b]),
                title_key(#[trigger] now[a]),
            ) by {
                let a0 = if a < j { a } else { a - 1 };
                let b0 = if b < j { b } else { b - 1 };
                if a == j {
                    assert(now[b] == had[b0]);
                    order::law_precedes_total(key@, title_key(had[b0]));
                } else if b == j {
                    assert(now[a] == had[a0]);
                } else {
                    assert(now[a] == had[a0] && now[b] == had[b0]);
                }
            }
            assert forall|k: Seq<char>| #[trigger] with_key(now, k) == with_key(
                all.take(n + 1),
                k,
            ) by {
                assert forall|i: int| j <= i < had.len() && title_key(x) == k implies title_key(
                    had[i],
                ) != k by {
                    order::law_precedes_irreflexive(k);
                    assert(order::precedes(key@, title_key(had[i])));
                }
                lemma_filter_insert(had, j as int, x, k);
                assert(with_key(had, k) == with_key(all.take(n), k));
                reveal(Seq::filter);
                assert(had.push(x).drop_last() =~= had);
                assert(all.take(n + 1).drop_last() =~= all.take(n));
            }
            n = n + 1;
        }
    }
    proof {
        assert(rest.deep_view().len() == 0);
        assert(all.take(n) =~= all);
    }
    *lists = out;
}

/// Putting lists in order drops none.
pub proof fn lemma_sorted_contains(
    new: Seq<ListFileView>,
    s: Seq<ListFileView>,
    list: ListFileView,
)
    requires
        sorted_from(new, s),
    ensures
        new.contains(list) == s.contains(list),
{
    let key = title_key(list);
    let p = |l: ListFileView| title_key(l) == key;
    assert(with_key(new, key) == with_key(s, key));
    seqs::lemma_filter_contains(new, p, list);
    seqs::lemma_filter_contains(s, p, list);
}

/// There is one way to put lists in the order of their titles.
pub proof fn law_sorted_unique(a: Seq<ListFileView>, b: Seq<ListFileView>, s: Seq<ListFileView>)
    requires
        sorted_from(a, s),
        sorted_from(b, s),
    ensures
        a == b,
    decreases a.len(),
{
    if a.len() == 0 {
        if b.len() > 0 {
            let k = title_key(b.last());
            assert(with_key(a, k) == with_key(b, k));
            reveal(Seq::filter);
        }
        assert(a =~= b);
    } else {
        let k = title_key(a.last());
        reveal(Seq::filter);
        assert(with_key(a, k) == with_key(s, k));
        assert(with_key(b, k) == with_key(s, k));
        assert(with_key(a, k).len() > 0);
        if b.len() == 0 {
            assert(with_key(b, k).len() == 0);
        }
        let m = title_key(b.last());
        assert(with_key(a, m) == with_key(s, m));
        assert(with_key(b, m) == with_key(s, m));
        let pk = |l: ListFileView| title_key(l) == k;
        let pm = |l: ListFileView| title_key(l) == m;
        // Each last key occurs in the other sequence, so neither comes first.
        assert(with_key(b, k).contains(with_key(b, k)[0]));
        b.lemma_filter_contains_rev(pk, with_key(b, k)[0]);
        b.lemma_filter_pred(pk, 0);
        let i = choose|i: int| 0 <= i < b.len() && b[i] == with_key(b, k)[0];
        assert(with_key(a, m).contains(with_key(a, m)[0]));
        a.lemma_filter_contains_rev(pm, with_key(a, m)[0]);
        a.lemma_filter_pred(pm, 0);
        let j = choose|j: int| 0 <= j < a.len() && a[j] == with_key(a, m)[0];
        order::law_precedes_irreflexive(k);
        order::law_precedes_irreflexive(m);
        order::law_precedes_total(k, m);
        if i < b.len() - 1 {
            assert(!order::precedes(title_key(b[b.len() - 1]), title_key(b[i])));
        }
        if j < a.len() - 1 {
            assert(!order::precedes(title_key(a[a.len() - 1]), title_key(a[j])));
        }
        assert(k == m);
        assert(with_key(a, k).last() == a.last());
        assert(with_key(b, k).last() == b.last());
        let a1 = a.drop_last();
        let b1 = b.drop_last();
        assert forall|key: Seq<char>| #[trigger] with_key(b1, key) == with_key(a1, key) by {
            assert(with_key(a, key) == with_key(s, key));
            assert(with_key(b, key) == with_key(s, key));
            if key == k {
                assert(with_key(a1, key) =~= with_key(a, key).drop_last());
                assert(with_key(b1, key) =~= with_key(b, key).drop_last());
            }
        }
        assert(sorted_from(a1, a1));
        assert(sorted_from(b1, a1));
        law_sorted_unique(a1, b1, a1);
        assert(a =~= a1.push(a.last()));
        assert(b =~= b1.push(b.last()));
    }
}

/// The lists in the files of the lists directory, as they were found: name
/// and content of each.
pub open spec fn lists_in(files: Seq<(Seq<char>, Seq<char>)>) -> Seq<ListFileView> {
    files.filter_map(
        |f: (Seq<char>, Seq<char>)|
            match paths::file_title(f.0) {
                Some(title) => Some(paths::read_list(title, f.1)),
                None => None,
            },
    )
}

/// Every list of the lists directory, in the order of their titles, whatever
/// their letter case. `files` holds the name and the content of each file.
pub fn load_lists(files: &[(String, String)]) -> (r: Vec<ListFile>)
    ensures
        sorted_from(r.deep_view(), lists_in(files.deep_view())),
        ascii_by_letters(r.deep_view()),
{
    let ghost all = files.deep_view();
    let ghost f = |f: (Seq<char>, Seq<char>)|
        match paths::file_title(f.0) {
            Some(title) => Some(paths::read_list(title, f.1)),
            None => None,
        };
    let mut out: Vec<ListFile> = Vec::new();
    for i in 0..files.len()
        invariant
            all == files.deep_view(),
            f == (|f: (Seq<char>, Seq<char>)|
                match paths::file_title(f.0) {
                    Some(title) => Some(paths::read_list(title, f.1)),
                    None => None,
                }),
            out.deep_view() == all.take(i as int).filter_map(f),
    {
        let ghost had = out.deep_view();
        proof {
            seqs::lemma_filter_map_take(all, f, i as int);
            assert(all[i as int] == files@[i as int].deep_view());
        }
        if let Some(title) = paths::title_of_file(files[i].0.as_str()) {
            out.push(paths::list_of_file(title, files[i].1.as_str()));
            assert(out.deep_view() =~= had.push(f(all[i as int])->0));
        }
    }
    assert(all.take(all.len() as int) =~= all);
    sort_lists(&mut out);
    out
}

// ── Migration ─────────────────────────────────────────────────────────────

/// The list that the last synced state has a row of the single checklist in.
pub open spec fn known_owner(
    item: ItemView,
    tracks: Map<Seq<char>, SyncedItemView>,
) -> Option<Seq<char>> {
    match item.uid {
        Some(uid) => if tracks.contains_key(uid) && tracks[uid].list_id().len() > 0 {
            Some(tracks[uid].list_id())
        } else {
            None
        },
        None => None,
    }
}

/// How many rows the last synced state has in a list.
pub open spec fn row_share(
    items: Seq<ItemView>,
    tracks: Map<Seq<char>, SyncedItemView>,
    id: Seq<char>,
) -> nat {
    items.filter(|i: ItemView| known_owner(i, tracks) == Some(id)).len()
}

/// Of two lists with as many rows, the second is taken: the one that most
/// tracked items belong to, or else the one that comes last in the order of
/// texts.
pub open spec fn gives_way(
    a: Seq<char>,
    b: Seq<char>,
    tracks: Map<Seq<char>, SyncedItemView>,
) -> bool {
    model::majority(tracks) == Some(b) || (model::majority(tracks) != Some(a) && order::precedes(
        a,
        b,
    ))
}

/// A list has the most rows, and those that have as many give way to it.
pub open spec fn has_most_rows(
    items: Seq<ItemView>,
    tracks: Map<Seq<char>, SyncedItemView>,
    id: Seq<char>,
) -> bool {
    &&& row_share(items, tracks, id) > 0
    &&& forall|other: Seq<char>|
        other != id ==> #[trigger] row_share(items, tracks, other) < row_share(items, tracks, id)
            || (row_share(items, tracks, other) == row_share(items, tracks, id) && gives_way(
            other,
            id,
            tracks,
        ))
}

/// The list of the biggest group of rows. Where the state has no row in a
/// list, it is the list that most tracked items belong to.
pub open spec fn main_list(
    items: Seq<ItemView>,
    tracks: Map<Seq<char>, SyncedItemView>,
) -> Option<Seq<char>> {
    if exists|id: Seq<char>| has_most_rows(items, tracks, id) {
        Some(choose|id: Seq<char>| has_most_rows(items, tracks, id))
    } else {
        model::majority(tracks)
    }
}

/// At most one list has the most rows.
pub proof fn law_most_rows_unique(
    items: Seq<ItemView>,
    tracks: Map<Seq<char>, SyncedItemView>,
    a: Seq<char>,
    b: Seq<char>,
)
    requires
        has_most_rows(items, tracks, a),
        has_most_rows(items, tracks, b),
    ensures
        a == b,
{
    if a != b {
        order::law_precedes_total(a, b);
        assert(row_share(items, tracks, a) < row_share(items, tracks, b) || gives_way(
            a,
            b,
            tracks,
        ));
        assert(row_share(items, tracks, b) < row_share(items, tracks, a) || gives_way(
            b,
            a,
            tracks,
        ));
    }
}

/// A list has rows exactly where the state has one of them in it.
proof fn lemma_row_share(
    items: Seq<ItemView>,
    tracks: Map<Seq<char>, SyncedItemView>,
    id: Seq<char>,
)
    ensures
        (row_share(items, tracks, id) > 0) == (exists|k: int|
            0 <= k < items.len() && known_owner(#[trigger] items[k], tracks) == Some(id)),
{
    let p = |i: ItemView| known_owner(i, tracks) == Some(id);
    if exists|k: int| 0 <= k < items.len() && known_owner(#[trigger] items[k], tracks) == Some(id) {
        let k = choose|k: int|
            0 <= k < items.len() && known_owner(#[trigger] items[k], tracks) == Some(id);
        seqs::lemma_filter_contains(items, p, items[k]);
        assert(items.contains(items[k]));
    } else {
        seqs::lemma_filter_none(items, p);
    }
}

/// Where the state has some row in a list, some list has the most rows.
pub proof fn law_most_rows_exist(
    items: Seq<ItemView>,
    tracks: Map<Seq<char>, SyncedItemView>,
    k: int,
)
    requires
        0 <= k < items.len(),
        known_owner(items[k], tracks) is Some,
    ensures
        main_list(items, tracks) is Some,
        has_most_rows(items, tracks, main_list(items, tracks)->0),
{
    let f = |i: ItemView| known_owner(i, tracks);
    let ids = items.filter_map(f);
    seqs::lemma_filter_map_contains(items, f, k);
    let score = |id: Seq<char>| row_share(items, tracks, id);
    let top = model::lemma_top(ids, score);
    let j = choose|j: int| 0 <= j < ids.len() && ids[j] == top;
    seqs::lemma_filter_map_from(items, f, j);
    lemma_row_share(items, tracks, top);
    assert forall|other: Seq<char>| other != top implies #[trigger] row_share(items, tracks, other)
        < row_share(items, tracks, top) || (row_share(items, tracks, other) == row_share(
        items,
        tracks,
        top,
    ) && order::precedes(other, top)) by {
        lemma_row_share(items, tracks, other);
        if row_share(items, tracks, other) > 0 {
            let m = choose|m: int|
                0 <= m < items.len() && known_owner(#[trigger] items[m], tracks) == Some(other);
            seqs::lemma_filter_map_contains(items, f, m);
            assert(ids.contains(other));
            assert(score(other) == row_share(items, tracks, other));
        }
        assert(score(top) == row_share(items, tracks, top));
    }
    lemma_first_of_most(items, tracks, top);
}

/// Of the lists with the most rows, the one that most tracked items belong to
/// is taken, if it is one of them, or else the last in order.
proof fn lemma_first_of_most(
    items: Seq<ItemView>,
    tracks: Map<Seq<char>, SyncedItemView>,
    top: Seq<char>,
)
    requires
        row_share(items, tracks, top) > 0,
        forall|other: Seq<char>|
            other != top ==> #[trigger] row_share(items, tracks, other) < row_share(
                items,
                tracks,
                top,
            ) || (row_share(items, tracks, other) == row_share(items, tracks, top)
                && order::precedes(other, top)),
    ensures
        has_most_rows(
            items,
            tracks,
            match model::majority(tracks) {
                Some(m) => if row_share(items, tracks, m) == row_share(items, tracks, top) {
                    m
                } else {
                    top
                },
                None => top,
            },
        ),
{
}

/// The list that a row of the single checklist goes to: the one that the last
/// synced state has it in, or else `main`.
pub open spec fn row_owner(
    item: ItemView,
    tracks: Map<Seq<char>, SyncedItemView>,
    main: Option<Seq<char>>,
) -> Option<Seq<char>> {
    match known_owner(item, tracks) {
        Some(id) => Some(id),
        None => main,
    }
}

/// The rows that go to a list, in order.
pub open spec fn rows_of(
    items: Seq<ItemView>,
    tracks: Map<Seq<char>, SyncedItemView>,
    main: Option<Seq<char>>,
    id: Option<Seq<char>>,
) -> Seq<ItemView> {
    items.filter(|i: ItemView| row_owner(i, tracks, main) == id)
}

/// The identities of the lists that some row goes to.
pub open spec fn row_owners(
    items: Seq<ItemView>,
    tracks: Map<Seq<char>, SyncedItemView>,
    main: Option<Seq<char>>,
) -> Set<Seq<char>> {
    items.filter_map(|i: ItemView| row_owner(i, tracks, main)).to_set()
}

/// The list file that takes the rows of one list.
pub open spec fn migrated_file(
    items: Seq<ItemView>,
    tracks: Map<Seq<char>, SyncedItemView>,
    main: Option<Seq<char>>,
    id: Option<Seq<char>>,
) -> ListFileView {
    ListFileView {
        title: if id is Some && main is Some && id != main {
            paths::safe(id->0)
        } else {
            "Tasks"@
        },
        id,
        items: rows_of(items, tracks, main, id),
    }
}

/// The list files that take the rows of the single checklist: one for the
/// rows of no list, if there are any, then one for each list. A checklist
/// without rows becomes one list without rows.
pub open spec fn migrated(
    items: Seq<ItemView>,
    tracks: Map<Seq<char>, SyncedItemView>,
) -> Seq<ListFileView> {
    let main = main_list(items, tracks);
    if items.len() == 0 {
        seq![migrated_file(items, tracks, main, main)]
    } else {
        let strays = if rows_of(items, tracks, main, None).len() > 0 {
            seq![migrated_file(items, tracks, main, None)]
        } else {
            Seq::empty()
        };
        strays + order::in_order(row_owners(items, tracks, main)).map_values(
            |id: Seq<char>| migrated_file(items, tracks, main, Some(id)),
        )
    }
}

/// The list that the state has a row in.
fn known_list(item: &Item, state: &SyncState) -> (r: Option<String>)
    ensures
        r.deep_view() == known_owner(item.deep_view(), state.items@),
{
    if let Some(uid) = &item.uid {
        if let Some(s) = state.items.get(uid.as_str()) {
            let id = s.list_id();
            if !id.as_str().is_empty() {
                return Some(id);
            }
        }
    }
    None
}

/// How many rows the state has in a list.
fn count_rows(items: &Vec<Item>, state: &SyncState, id: &str) -> (r: usize)
    ensures
        r == row_share(items.deep_view(), state.items@, id@),
{
    let ghost all = items.deep_view();
    let ghost p = |i: ItemView| known_owner(i, state.items@) == Some(id@);
    let mut n: usize = 0;
    for i in 0..items.len()
        invariant
            all == items.deep_view(),
            p == (|i: ItemView| known_owner(i, state.items@) == Some(id@)),
            n == all.take(i as int).filter(p).len(),
            n <= i,
    {
        proof {
            seqs::lemma_filter_take(all, p, i as int);
            assert(all[i as int] == items@[i as int].deep_view());
        }
        if text::is_text(&known_list(&items[i], state), id) {
            n = n + 1;
        }
    }
    assert(all.take(all.len() as int) =~= all);
    n
}

/// The list of the biggest group of rows, or else the one that most tracked
/// items belong to.
fn main_list_id(items: &Vec<Item>, state: &SyncState) -> (r: Option<String>)
    ensures
        r.deep_view() == main_list(items.deep_view(), state.items@),
{
    let ghost all = items.deep_view();
    let ghost tracks = state.items@;
    let mut best: Option<String> = None;
    let mut most: usize = 0;
    for i in 0..items.len()
        invariant
            all == items.deep_view(),
            tracks == state.items@,
            best is None ==> forall|j: int|
                0 <= j < i ==> known_owner(#[trigger] all[j], tracks) is None,
            best is Some ==> most == row_share(all, tracks, best->0@) && most > 0,
            best is Some ==> forall|j: int|
                0 <= j < i && known_owner(#[trigger] all[j], tracks) is Some && known_owner(
                    all[j],
                    tracks,
                )->0 != best->0@ ==> row_share(all, tracks, known_owner(all[j], tracks)->0) < most
                    || (row_share(all, tracks, known_owner(all[j], tracks)->0) == most
                    && order::precedes(known_owner(all[j], tracks)->0, best->0@)),
    {
        assert(all[i as int] == items@[i as int].deep_view());
        if let Some(id) = known_list(&items[i], state) {
            let n: usize = count_rows(items, state, id.as_str());
            proof {
                lemma_row_share(all, tracks, id@);
            }
            let better = match &best {
                None => true,
                Some(b) => n > most || (n == most && order::comes_before(b.as_str(), id.as_str())),
            };
            proof {
                if let Some(b) = &best {
                    order::law_precedes_total(b@, id@);
                    if better {
                        assert forall|j: int|
                            0 <= j < i && known_owner(#[trigger] all[j], tracks) is Some
                                && known_owner(all[j], tracks)->0 != id@ implies row_share(
                            all,
                            tracks,
                            known_owner(all[j], tracks)->0,
                        ) < n || (row_share(all, tracks, known_owner(all[j], tracks)->0) == n
                            && order::precedes(known_owner(all[j], tracks)->0, id@)) by {
                            let o = known_owner(all[j], tracks)->0;
                            if o != b@ && row_share(all, tracks, o) == most && n == most {
                                order::law_precedes_transitive(o, b@, id@);
                            }
                        }
                    }
                }
            }
            if better {
                best = Some(id);
                most = n;
            }
        }
    }
    match best {
        Some(top) => {
            let mut id = top;
            proof {
                assert forall|other: Seq<char>| other != id@ implies #[trigger] row_share(
                    all,
                    tracks,
                    other,
                ) < row_share(all, tracks, id@) || (row_share(all, tracks, other) == row_share(
                    all,
                    tracks,
                    id@,
                ) && order::precedes(other, id@)) by {
                    lemma_row_share(all, tracks, other);
                    if row_share(all, tracks, other) > 0 {
                        let m = choose|m: int|
                            0 <= m < all.len() && known_owner(#[trigger] all[m], tracks) == Some(
                                other,
                            );
                        assert(known_owner(all[m], tracks)->0 == other);
                    }
                }
                lemma_first_of_most(all, tracks, id@);
            }
            if let Some(m) = state.majority_list_id() {
                if count_rows(items, state, m.as_str()) == most {
                    id = m;
                }
            }
            proof {
                assert(has_most_rows(all, tracks, id@));
                law_most_rows_unique(all, tracks, id@, main_list(all, tracks)->0);
            }
            Some(id)
        },
        None => {
            proof {
                assert forall|id: Seq<char>| !has_most_rows(all, tracks, id) by {
                    lemma_row_share(all, tracks, id);
                }
            }
            state.majority_list_id()
        },
    }
}

/// The list that a row goes to.
fn owner_of_row(item: &Item, state: &SyncState, main: &Option<String>) -> (r: Option<String>)
    ensures
        r.deep_view() == row_owner(item.deep_view(), state.items@, main.deep_view()),
{
    match known_list(item, state) {
        Some(id) => Some(id),
        None => model::copy_opt(main),
    }
}

/// The list file that takes the rows of one list.
fn file_of_rows(
    items: &Vec<Item>,
    state: &SyncState,
    main: &Option<String>,
    id: Option<String>,
) -> (r: ListFile)
    ensures
        r.deep_view() == migrated_file(
            items.deep_view(),
            state.items@,
            main.deep_view(),
            id.deep_view(),
        ),
{
    let ghost all = items.deep_view();
    let ghost mv = main.deep_view();
    let ghost keep = |i: ItemView| row_owner(i, state.items@, mv) == id.deep_view();
    let mut rows: Vec<Item> = Vec::new();
    for i in 0..items.len()
        invariant
            mv == main.deep_view(),
            all == items.deep_view(),
            keep == (|i: ItemView| row_owner(i, state.items@, mv) == id.deep_view()),
            rows.deep_view() == all.take(i as int).filter(keep),
    {
        let ghost had = rows.deep_view();
        proof {
            seqs::lemma_filter_take(all, keep, i as int);
            assert(all[i as int] == items@[i as int].deep_view());
        }
        let owner = owner_of_row(&items[i], state, main);
        if text::same_opt(&owner, &id) {
            rows.push(items[i].clone());
            assert(rows.deep_view() =~= had.push(all[i as int]));
        }
    }
    assert(all.take(all.len() as int) =~= all);
    let title = match (&id, main) {
        (Some(i), Some(m)) => if text::same_str(i.as_str(), m.as_str()) {
            "Tasks".to_string()
        } else {
            paths::safe_title(i.as_str())
        },
        _ => "Tasks".to_string(),
    };
    ListFile { title, id, items: rows }
}

/// Splits the single checklist of the time before there were lists. It
/// mirrored every server list at once, so its rows go to the lists that the
/// last synced state has them in. The biggest group of rows becomes `Tasks`,
/// any other one a file named by its list's identity. Each carries its
/// identity, so that the next sync knows it as that list and names it by the
/// server's title. Rows that the state does not know go with the biggest
/// group.
pub fn migrate_legacy(content: &str, state: &SyncState) -> (r: Vec<ListFile>)
    ensures
        r.deep_view() == migrated(markdown::parsed_items(content@), state.items@),
{
    let items = markdown::parse_items(content);
    let main = main_list_id(&items, state);
    let ghost all = items.deep_view();
    let ghost mv = main_list(all, state.items@);
    let ghost f = |i: ItemView| row_owner(i, state.items@, mv);
    let mut out: Vec<ListFile> = Vec::new();
    if items.len() == 0 {
        let m = model::copy_opt(&main);
        out.push(file_of_rows(&items, state, &main, m));
        assert(out.deep_view() =~= migrated(all, state.items@));
        return out;
    }
    let mut owners: OrdMap<bool> = OrdMap::new();
    let mut strays = false;
    for i in 0..items.len()
        invariant
            main.deep_view() == mv,
            all == items.deep_view(),
            f == (|i: ItemView| row_owner(i, state.items@, mv)),
            forall|id: Seq<char>| #[trigger]
                owners@.contains_key(id) == all.take(i as int).filter_map(f).contains(id),
            strays == (exists|j: int|
                0 <= j < i && row_owner(#[trigger] all[j], state.items@, mv) is None),
    {
        let ghost had = all.take(i as int).filter_map(f);
        proof {
            seqs::lemma_filter_map_take(all, f, i as int);
            assert(all[i as int] == items@[i as int].deep_view());
        }
        match owner_of_row(&items[i], state, &main) {
            Some(id) => {
                proof {
                    let now = had.push(id@);
                    assert forall|x: Seq<char>| now.contains(x) == (had.contains(x) || x == id@) by {
                        if had.contains(x) {
                            let j = choose|j: int| 0 <= j < had.len() && had[j] == x;
                            assert(now[j] == x);
                        }
                        assert(now[had.len() as int] == id@);
                    }
                }
                owners.insert(id, true);
            },
            None => {
                strays = true;
            },
        }
    }
    let ghost p = |i: ItemView| row_owner(i, state.items@, mv) == None::<Seq<char>>;
    proof {
        assert(all.take(all.len() as int) =~= all);
        use_type_invariant(&owners);
        owners.lemma_entries();
        assert(owners@.dom() =~= row_owners(all, state.items@, mv));
        if strays {
            let j = choose|j: int|
                0 <= j < all.len() && row_owner(#[trigger] all[j], state.items@, mv) is None;
            seqs::lemma_filter_contains(all, p, all[j]);
            assert(all.contains(all[j]));
        } else {
            seqs::lemma_filter_none(all, p);
        }
        assert(rows_of(all, state.items@, mv, None) == all.filter(p));
    }
    if strays {
        out.push(file_of_rows(&items, state, &main, None));
    }
    let ghost first = out.deep_view();
    let ghost ids = owners.keys();
    let ghost g = |id: Seq<char>| migrated_file(all, state.items@, mv, Some(id));
    assert(ids.take(0).map_values(g) =~= Seq::empty());
    assert(first + ids.take(0).map_values(g) =~= first);
    let n: usize = owners.len();
    for i in 0..n
        invariant
            n == ids.len(),
            ids == owners.keys(),
            main.deep_view() == mv,
            all == items.deep_view(),
            g == (|id: Seq<char>| migrated_file(all, state.items@, mv, Some(id))),
            out.deep_view() == first + ids.take(i as int).map_values(g),
    {
        let ghost had = out.deep_view();
        let id = owners.key_at(i).clone();
        out.push(file_of_rows(&items, state, &main, Some(id)));
        proof {
            assert(out.deep_view() =~= had.push(g(ids[i as int])));
            assert(ids.take(i + 1).map_values(g) =~= ids.take(i as int).map_values(g).push(
                g(ids[i as int]),
            ));
            assert(out.deep_view() =~= first + ids.take(i + 1).map_values(g));
        }
    }
    assert(ids.take(n as int) =~= ids);
    assert(first =~= if rows_of(all, state.items@, mv, None).len() > 0 {
        seq![migrated_file(all, state.items@, mv, None)]
    } else {
        Seq::empty()
    });
    out
}

/// The file that a list's rows go to is among those that are made.
proof fn lemma_migrated_owner(
    items: Seq<ItemView>,
    tracks: Map<Seq<char>, SyncedItemView>,
    k: int,
) -> (f: int)
    requires
        0 <= k < items.len(),
    ensures
        0 <= f < migrated(items, tracks).len(),
        ({
            let main = main_list(items, tracks);
            migrated(items, tracks)[f] == migrated_file(
                items,
                tracks,
                main,
                row_owner(items[k], tracks, main),
            )
        }),
{
    let main = main_list(items, tracks);
    let owner = row_owner(items[k], tracks, main);
    let files = migrated(items, tracks);
    let p = |i: ItemView| row_owner(i, tracks, main) == owner;
    seqs::lemma_filter_contains(items, p, items[k]);
    assert(items.contains(items[k]));
    assert(rows_of(items, tracks, main, owner).contains(items[k]));
    let ids = order::in_order(row_owners(items, tracks, main));
    let f = |i: ItemView| row_owner(i, tracks, main);
    if let Some(id) = owner {
        seqs::lemma_filter_map_contains(items, f, k);
        assert(row_owners(items, tracks, main).contains(id));
        vstd::seq_lib::seq_to_set_is_finite(items.filter_map(f));
        order::law_in_order(row_owners(items, tracks, main));
        assert(ids.to_set().contains(id));
        let j = choose|j: int| 0 <= j < ids.len() && ids[j] == id;
        let n = files.len() - ids.len();
        assert(files[n + j] == migrated_file(items, tracks, main, Some(id)));
        n + j
    } else {
        assert(files[0] == migrated_file(items, tracks, main, None));
        0
    }
}

/// Every row of the single checklist goes to the file of the list that it
/// belongs to.
pub proof fn law_migration_keeps_rows(
    items: Seq<ItemView>,
    tracks: Map<Seq<char>, SyncedItemView>,
    k: int,
)
    requires
        0 <= k < items.len(),
    ensures
        exists|f: int|
            0 <= f < migrated(items, tracks).len() && (#[trigger] migrated(items, tracks)[f]).id
                == row_owner(items[k], tracks, main_list(items, tracks)) && migrated(
                items,
                tracks,
            )[f].items.contains(items[k]),
{
    let main = main_list(items, tracks);
    let owner = row_owner(items[k], tracks, main);
    let f = lemma_migrated_owner(items, tracks, k);
    let p = |i: ItemView| row_owner(i, tracks, main) == owner;
    seqs::lemma_filter_contains(items, p, items[k]);
    assert(items.contains(items[k]));
    assert(migrated(items, tracks)[f].items == items.filter(p));
}

/// The list that is shown after a migration is made by it: the biggest group
/// of rows, with the rows that the state does not know, is called `Tasks`.
pub proof fn law_migration_makes_tasks(
    items: Seq<ItemView>,
    tracks: Map<Seq<char>, SyncedItemView>,
)
    ensures
        exists|f: int|
            0 <= f < migrated(items, tracks).len() && (#[trigger] migrated(items, tracks)[f]).title
                == "Tasks"@ && migrated(items, tracks)[f].id == main_list(items, tracks),
{
    let main = main_list(items, tracks);
    let files = migrated(items, tracks);
    if items.len() == 0 {
        assert(files[0].id == main);
    } else if exists|k: int| 0 <= k < items.len() && known_owner(#[trigger] items[k], tracks) is Some {
        let k = choose|k: int| 0 <= k < items.len() && known_owner(#[trigger] items[k], tracks) is Some;
        law_most_rows_exist(items, tracks, k);
        lemma_row_share(items, tracks, main->0);
        let m = choose|m: int|
            0 <= m < items.len() && known_owner(#[trigger] items[m], tracks) == Some(main->0);
        let f = lemma_migrated_owner(items, tracks, m);
        assert(files[f].id == main);
    } else {
        assert(known_owner(items[0], tracks) is None);
        let f = lemma_migrated_owner(items, tracks, 0);
        assert(files[f].id == main);
    }
}

} // verus!
