//! The local half of a plan for items, as changes to the rows of a list.
//!
//! The rows are those of a fresh read: the list may have been edited while
//! the server was talked to, and rows that the plan does not speak of stay as
//! they are.
use vstd::prelude::*;

use crate::map::OrdMap;
use crate::model;
use crate::model::{Item, ItemView};
use crate::plan::{Plan, PlanView};
use crate::remote::{RemoteTodo, RemoteTodoView};
use crate::seqs;
use crate::text;

verus! {

/// The first row that `p` holds of.
pub open spec fn first_row(rows: Seq<ItemView>, p: spec_fn(ItemView) -> bool) -> Option<int>
    decreases rows.len(),
{
    if rows.len() == 0 {
        None
    } else if p(rows[0]) {
        Some(0)
    } else {
        match first_row(rows.skip(1), p) {
            Some(i) => Some(i + 1),
            None => None,
        }
    }
}

/// What `first_row` says: the first row that `p` holds of, or that there is
/// none.
pub proof fn lemma_first_row(rows: Seq<ItemView>, p: spec_fn(ItemView) -> bool)
    ensures
        match first_row(rows, p) {
            Some(i) => 0 <= i < rows.len() && p(rows[i]) && forall|j: int|
                0 <= j < i ==> !p(#[trigger] rows[j]),
            None => forall|j: int| 0 <= j < rows.len() ==> !p(#[trigger] rows[j]),
        },
    decreases rows.len(),
{
    if rows.len() > 0 && !p(rows[0]) {
        let rest = rows.skip(1);
        lemma_first_row(rest, p);
        assert forall|j: int| 0 < j < rows.len() implies rows[j] == #[trigger] rest[j - 1] by {}
        match first_row(rest, p) {
            Some(i) => {
                assert forall|j: int| 0 <= j < i + 1 implies !p(#[trigger] rows[j]) by {
                    if j > 0 {
                        assert(!p(rest[j - 1]));
                    }
                }
            },
            None => {
                assert forall|j: int| 0 <= j < rows.len() implies !p(#[trigger] rows[j]) by {
                    if j > 0 {
                        assert(!p(rest[j - 1]));
                    }
                }
            },
        }
    }
}

/// The row of an identity; the first one, if there are more.
pub open spec fn row_of(rows: Seq<ItemView>, uid: Seq<char>) -> Option<int> {
    first_row(rows, |i: ItemView| i.uid == Some(uid))
}

/// The first row without an identity that has a text.
pub open spec fn plain_row(rows: Seq<ItemView>, text: Seq<char>) -> Option<int> {
    first_row(rows, |i: ItemView| i.uid is None && i.text == text)
}

/// The rows without those that are gone from the server.
pub open spec fn without_gone(rows: Seq<ItemView>, gone: Seq<Seq<char>>) -> Seq<ItemView> {
    rows.filter(|i: ItemView| i.uid is None || !gone.contains(i.uid->0))
}

/// The rows, one of them as the server has it.
pub open spec fn take_update(
    rows: Seq<ItemView>,
    uid: Seq<char>,
    todo: RemoteTodoView,
) -> Seq<ItemView> {
    match row_of(rows, uid) {
        Some(i) => rows.update(
            i,
            (ItemView { text: todo.summary, done: todo.done, ..rows[i] }),
        ),
        None => rows,
    }
}

/// The rows, some of them as the server has them.
pub open spec fn take_updates(
    rows: Seq<ItemView>,
    uids: Seq<Seq<char>>,
    remote: Map<Seq<char>, RemoteTodoView>,
) -> Seq<ItemView>
    decreases uids.len(),
{
    if uids.len() == 0 {
        rows
    } else {
        take_update(
            take_updates(rows, uids.drop_last(), remote),
            uids.last(),
            remote[uids.last()],
        )
    }
}

/// The identity that a moved row with a text came with.
pub open spec fn moved_uid(
    moved_from: Seq<(Seq<char>, Seq<char>)>,
    text: Seq<char>,
) -> Option<Seq<char>>
    decreases moved_from.len(),
{
    if moved_from.len() == 0 {
        None
    } else if moved_from[0].0 == text {
        Some(moved_from[0].1)
    } else {
        moved_uid(moved_from.skip(1), text)
    }
}

/// The row that was created on the server as (text, the identity that it
/// carried, its new identity).
pub open spec fn created_row(
    rows: Seq<ItemView>,
    made: (Seq<char>, Option<Seq<char>>, Seq<char>),
    moved_from: Seq<(Seq<char>, Seq<char>)>,
) -> Option<int> {
    let stale = match made.1 {
        Some(u) => Some(u),
        None => moved_uid(moved_from, made.0),
    };
    match stale {
        Some(u) => row_of(rows, u),
        None => plain_row(rows, made.0),
    }
}

/// The rows, one of them with its new identity.
pub open spec fn annotate(
    rows: Seq<ItemView>,
    made: (Seq<char>, Option<Seq<char>>, Seq<char>),
    moved_from: Seq<(Seq<char>, Seq<char>)>,
) -> Seq<ItemView> {
    match created_row(rows, made, moved_from) {
        Some(i) => rows.update(i, (ItemView { uid: Some(made.2), ..rows[i] })),
        None => rows,
    }
}

/// The rows, those that were created on the server with their new identities.
pub open spec fn annotate_all(
    rows: Seq<ItemView>,
    created: Seq<(Seq<char>, Option<Seq<char>>, Seq<char>)>,
    moved_from: Seq<(Seq<char>, Seq<char>)>,
) -> Seq<ItemView>
    decreases created.len(),
{
    if created.len() == 0 {
        rows
    } else {
        annotate(
            annotate_all(rows, created.drop_last(), moved_from),
            created.last(),
            moved_from,
        )
    }
}

/// The rows of the items that are new on the server.
pub open spec fn new_rows(
    uids: Seq<Seq<char>>,
    remote: Map<Seq<char>, RemoteTodoView>,
) -> Seq<ItemView> {
    uids.map_values(
        |uid: Seq<char>|
            ItemView { text: remote[uid].summary, done: remote[uid].done, uid: Some(uid) },
    )
}

/// The rows after the local half of a plan.
pub open spec fn applied(
    rows: Seq<ItemView>,
    plan: PlanView,
    remote: Map<Seq<char>, RemoteTodoView>,
    created: Seq<(Seq<char>, Option<Seq<char>>, Seq<char>)>,
    moved_from: Seq<(Seq<char>, Seq<char>)>,
) -> Seq<ItemView> {
    annotate_all(
        take_updates(without_gone(rows, plan.pull_deletes), plan.pull_updates, remote),
        created,
        moved_from,
    ) + new_rows(plan.pull_new, remote)
}

/// What a plan pulls is on the server.
pub open spec fn pulls_known(plan: PlanView, remote: Map<Seq<char>, RemoteTodoView>) -> bool {
    &&& forall|i: int|
        0 <= i < plan.pull_new.len() ==> remote.contains_key(#[trigger] plan.pull_new[i])
    &&& forall|i: int|
        0 <= i < plan.pull_updates.len() ==> remote.contains_key(#[trigger] plan.pull_updates[i])
}

/// Whether a text is one of some texts.
pub fn is_among(v: &Vec<String>, s: &str) -> (r: bool)
    ensures
        r == v.deep_view().contains(s@),
{
    let ghost all = v.deep_view();
    for i in 0..v.len()
        invariant
            all == v.deep_view(),
            forall|j: int| 0 <= j < i ==> #[trigger] all[j] != s@,
    {
        assert(all[i as int] == v@[i as int]@);
        if text::same_str(v[i].as_str(), s) {
            return true;
        }
    }
    false
}

/// The row of an identity.
pub fn find_row(rows: &[Item], uid: &str) -> (r: Option<usize>)
    ensures
        match r {
            Some(i) => row_of(rows.deep_view(), uid@) == Some(i as int) && i < rows@.len(),
            None => row_of(rows.deep_view(), uid@) is None,
        },
{
    let ghost all = rows.deep_view();
    let ghost p = |i: ItemView| i.uid == Some(uid@);
    assert(all.skip(0) =~= all);
    let n: usize = rows.len();
    let mut i: usize = 0;
    while i < n
        invariant
            n == rows@.len(),
            i <= n,
            all == rows.deep_view(),
            p == (|i: ItemView| i.uid == Some(uid@)),
            first_row(all, p) == match first_row(all.skip(i as int), p) {
                Some(j) => Some(j + i),
                None => None,
            },
        decreases n - i,
    {
        assert(all.skip(i as int).skip(1) =~= all.skip(i + 1));
        assert(all.skip(i as int)[0] == rows@[i as int].deep_view());
        if text::is_text(&rows[i].uid, uid) {
            return Some(i);
        }
        i = i + 1;
    }
    None
}

/// The first row without an identity that has a text.
fn find_plain(rows: &[Item], t: &str) -> (r: Option<usize>)
    ensures
        match r {
            Some(i) => plain_row(rows.deep_view(), t@) == Some(i as int) && i < rows@.len(),
            None => plain_row(rows.deep_view(), t@) is None,
        },
{
    let ghost all = rows.deep_view();
    let ghost p = |i: ItemView| i.uid is None && i.text == t@;
    assert(all.skip(0) =~= all);
    let n: usize = rows.len();
    let mut i: usize = 0;
    while i < n
        invariant
            n == rows@.len(),
            i <= n,
            all == rows.deep_view(),
            p == (|i: ItemView| i.uid is None && i.text == t@),
            first_row(all, p) == match first_row(all.skip(i as int), p) {
                Some(j) => Some(j + i),
                None => None,
            },
        decreases n - i,
    {
        assert(all.skip(i as int).skip(1) =~= all.skip(i + 1));
        assert(all.skip(i as int)[0] == rows@[i as int].deep_view());
        if rows[i].uid.is_none() && text::same_str(rows[i].text.as_str(), t) {
            return Some(i);
        }
        i = i + 1;
    }
    None
}

/// The identity that a moved row with a text came with.
fn find_moved(moved_from: &[(String, String)], t: &str) -> (r: Option<String>)
    ensures
        r.deep_view() == moved_uid(moved_from.deep_view(), t@),
{
    let ghost all = moved_from.deep_view();
    assert(all.skip(0) =~= all);
    let n: usize = moved_from.len();
    let mut i: usize = 0;
    while i < n
        invariant
            n == moved_from@.len(),
            i <= n,
            all == moved_from.deep_view(),
            moved_uid(all, t@) == moved_uid(all.skip(i as int), t@),
        decreases n - i,
    {
        assert(all.skip(i as int).skip(1) =~= all.skip(i + 1));
        assert(all.skip(i as int)[0] == moved_from@[i as int].deep_view());
        if text::same_str(moved_from[i].0.as_str(), t) {
            return Some(moved_from[i].1.clone());
        }
        i = i + 1;
    }
    None
}

/// Puts a row in the place of another.
fn put_row(rows: &mut Vec<Item>, i: usize, row: Item)
    requires
        i < old(rows)@.len(),
    ensures
        final(rows).deep_view() == old(rows).deep_view().update(i as int, row.deep_view()),
{
    let ghost was = rows.deep_view();
    rows.set(i, row);
    assert(rows.deep_view() =~= was.update(i as int, row.deep_view()));
}

/// The rows without those that are gone from the server.
fn drop_gone(rows: &Vec<Item>, gone: &Vec<String>) -> (r: Vec<Item>)
    ensures
        r.deep_view() == without_gone(rows.deep_view(), gone.deep_view()),
{
    let ghost all = rows.deep_view();
    let ghost p = |i: ItemView| i.uid is None || !gone.deep_view().contains(i.uid->0);
    let mut out: Vec<Item> = Vec::new();
    for i in 0..rows.len()
        invariant
            all == rows.deep_view(),
            p == (|i: ItemView| i.uid is None || !gone.deep_view().contains(i.uid->0)),
            out.deep_view() == all.take(i as int).filter(p),
    {
        let ghost had = out.deep_view();
        proof {
            seqs::lemma_filter_take(all, p, i as int);
            assert(all[i as int] == rows@[i as int].deep_view());
        }
        let stays = match &rows[i].uid {
            Some(uid) => !is_among(gone, uid.as_str()),
            None => true,
        };
        if stays {
            out.push(rows[i].clone());
            assert(out.deep_view() =~= had.push(all[i as int]));
        }
    }
    assert(all.take(all.len() as int) =~= all);
    out
}

/// Applies the local half of a plan to the rows of a fresh read of the list.
/// `created` holds what was created on the server, as text, the identity that
/// the row carried, and its new identity; `moved_from` pairs a text with the
/// identity that its row carried when it was moved in from another list.
pub fn apply_local(
    items: &mut Vec<Item>,
    plan: &Plan,
    remote: &OrdMap<RemoteTodo>,
    created: &[(String, Option<String>, String)],
    moved_from: &[(String, String)],
)
    requires
        pulls_known(plan.deep_view(), remote@),
    ensures
        final(items).deep_view() == applied(
            old(items).deep_view(),
            plan.deep_view(),
            remote@,
            created.deep_view(),
            moved_from.deep_view(),
        ),
{
    let ghost p = plan.deep_view();
    let ghost was = items.deep_view();
    let mut rows = drop_gone(items, &plan.pull_deletes);
    let ghost kept = rows.deep_view();
    let ghost ups = p.pull_updates;
    for i in 0..plan.pull_updates.len()
        invariant
            p == plan.deep_view(),
            ups == p.pull_updates,
            pulls_known(p, remote@),
            rows.deep_view() == take_updates(kept, ups.take(i as int), remote@),
    {
        let ghost had = rows.deep_view();
        let uid = &plan.pull_updates[i];
        proof {
            assert(ups[i as int] == uid@);
            assert(ups.take(i + 1).drop_last() =~= ups.take(i as int));
            assert(remote@.contains_key(p.pull_updates[i as int]));
        }
        if let Some(todo) = remote.get(uid.as_str()) {
            if let Some(k) = find_row(rows.as_slice(), uid.as_str()) {
                assert(had[k as int] == rows@[k as int].deep_view());
                let row = Item {
                    text: todo.summary.clone(),
                    done: todo.done,
                    uid: model::copy_opt(&rows[k].uid),
                };
                put_row(&mut rows, k, row);
            }
        }
    }
    assert(ups.take(ups.len() as int) =~= ups);
    let ghost fresh = rows.deep_view();
    let ghost made = created.deep_view();
    for i in 0..created.len()
        invariant
            made == created.deep_view(),
            rows.deep_view() == annotate_all(fresh, made.take(i as int), moved_from.deep_view()),
    {
        let ghost had = rows.deep_view();
        let c = &created[i];
        proof {
            assert(made[i as int] == c.deep_view());
            assert(made.take(i + 1).drop_last() =~= made.take(i as int));
        }
        let stale = match &c.1 {
            Some(u) => Some(u.clone()),
            None => find_moved(moved_from, c.0.as_str()),
        };
        let place = match &stale {
            Some(u) => find_row(rows.as_slice(), u.as_str()),
            None => find_plain(rows.as_slice(), c.0.as_str()),
        };
        if let Some(k) = place {
            assert(had[k as int] == rows@[k as int].deep_view());
            let row = Item {
                text: rows[k].text.clone(),
                done: rows[k].done,
                uid: Some(c.2.clone()),
            };
            put_row(&mut rows, k, row);
        }
    }
    assert(made.take(made.len() as int) =~= made);
    let ghost marked = rows.deep_view();
    let ghost news = p.pull_new;
    let ghost added = new_rows(news, remote@);
    assert(marked + added.take(0) =~= marked);
    for i in 0..plan.pull_new.len()
        invariant
            p == plan.deep_view(),
            news == p.pull_new,
            added == new_rows(news, remote@),
            pulls_known(p, remote@),
            rows.deep_view() == marked + added.take(i as int),
    {
        let ghost had = rows.deep_view();
        let uid = &plan.pull_new[i];
        proof {
            assert(news[i as int] == uid@);
            assert(remote@.contains_key(p.pull_new[i as int]));
        }
        if let Some(todo) = remote.get(uid.as_str()) {
            rows.push(
                Item { text: todo.summary.clone(), done: todo.done, uid: Some(uid.clone()) },
            );
            assert(rows.deep_view() =~= had.push(added[i as int]));
            assert(rows.deep_view() =~= marked + added.take(i + 1));
        }
    }
    assert(added.take(added.len() as int) =~= added);
    *items = rows;
}

} // verus!
