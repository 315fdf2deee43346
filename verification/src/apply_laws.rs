//! What carrying out a plan does, step by step: to the rows, to the state, to
//! the lists and to the files.
use vstd::prelude::*;

use crate::item_tasks;
use crate::item_tasks::{ItemReplyView, ItemRequestView, ItemTaskView, ItemWork};
use crate::list_tasks;
use crate::list_tasks::{DiskOpView, ListReplyView, ListTaskView};
use crate::local;
use crate::merge;
use crate::model::{ItemView, ListFileView, SyncedItemView, SyncedListView};
use crate::paths;
use crate::plan::{ListPlanView, PlanView};
use crate::remote::{RemoteListView, RemoteTodoView};
use crate::titles;

verus! {

// ── Rows ──────────────────────────────────────────────────────────────────

/// The first row that carries an identity stands at `k`.
pub open spec fn first_with(rows: Seq<ItemView>, uid: Seq<char>, k: int) -> bool {
    &&& 0 <= k < rows.len()
    &&& rows[k].uid == Some(uid)
    &&& forall|j: int| 0 <= j < k ==> (#[trigger] rows[j]).uid != Some(uid)
}

/// The first row without an identity that has a text stands at `k`.
pub open spec fn first_plain(rows: Seq<ItemView>, text: Seq<char>, k: int) -> bool {
    &&& 0 <= k < rows.len()
    &&& rows[k].uid is None
    &&& rows[k].text == text
    &&& forall|j: int| 0 <= j < k ==> !((#[trigger] rows[j]).uid is None && rows[j].text == text)
}

/// No row without an identity has a text.
pub open spec fn no_plain(rows: Seq<ItemView>, text: Seq<char>) -> bool {
    forall|j: int| 0 <= j < rows.len() ==> !((#[trigger] rows[j]).uid is None && rows[j].text
        == text)
}

proof fn lemma_row_of(rows: Seq<ItemView>, uid: Seq<char>, k: int)
    ensures
        first_with(rows, uid, k) ==> local::row_of(rows, uid) == Some(k),
        merge::no_row(rows, uid) ==> local::row_of(rows, uid) is None,
{
    let p = |i: ItemView| i.uid == Some(uid);
    local::lemma_first_row(rows, p);
    if first_with(rows, uid, k) {
        match local::first_row(rows, p) {
            Some(i) => {
                if i < k {
                    assert(rows[i].uid != Some(uid));
                } else if k < i {
                    assert(!p(rows[k]));
                }
            },
            None => {
                assert(!p(rows[k]));
            },
        }
    }
}

proof fn lemma_plain_row(rows: Seq<ItemView>, text: Seq<char>, k: int)
    ensures
        first_plain(rows, text, k) ==> local::plain_row(rows, text) == Some(k),
        no_plain(rows, text) ==> local::plain_row(rows, text) is None,
{
    let p = |i: ItemView| i.uid is None && i.text == text;
    local::lemma_first_row(rows, p);
    if first_plain(rows, text, k) {
        match local::first_row(rows, p) {
            Some(i) => {
                if i < k {
                    assert(!(rows[i].uid is None && rows[i].text == text));
                } else if k < i {
                    assert(!p(rows[k]));
                }
            },
            None => {
                assert(!p(rows[k]));
            },
        }
    }
}

/// The rows of items that are gone from the server leave, and no others do; the
/// rest stay in their order.
pub proof fn law_gone_rows_leave(
    rows: Seq<ItemView>,
    plan: PlanView,
    remote: Map<Seq<char>, RemoteTodoView>,
    moved_from: Seq<(Seq<char>, Seq<char>)>,
)
    requires
        plan.pull_updates.len() == 0,
        plan.pull_new.len() == 0,
    ensures
        local::applied(rows, plan, remote, Seq::empty(), moved_from) == rows.filter(
            |row: ItemView| row.uid is None || !plan.pull_deletes.contains(row.uid->0),
        ),
{
    let kept = rows.filter(
        |i: ItemView| i.uid is None || !plan.pull_deletes.contains(i.uid->0),
    );
    assert(kept + local::new_rows(plan.pull_new, remote) =~= kept);
}

/// One more item that changed on the server gives its text and its mark to the
/// first row that carries it, and changes nothing else.
pub proof fn law_changed_row_is_taken(
    rows: Seq<ItemView>,
    plan: PlanView,
    remote: Map<Seq<char>, RemoteTodoView>,
    moved_from: Seq<(Seq<char>, Seq<char>)>,
    uid: Seq<char>,
    k: int,
)
    requires
        plan.pull_new.len() == 0,
    ensures
        ({
            let more = PlanView { pull_updates: plan.pull_updates.push(uid), ..plan };
            let before = local::applied(rows, plan, remote, Seq::empty(), moved_from);
            let after = local::applied(rows, more, remote, Seq::empty(), moved_from);
            &&& first_with(before, uid, k) ==> after == before.update(
                k,
                ItemView {
                    text: remote[uid].summary,
                    done: remote[uid].done,
                    uid: before[k].uid,
                },
            )
            &&& merge::no_row(before, uid) ==> after == before
        }),
{
    let more = PlanView { pull_updates: plan.pull_updates.push(uid), ..plan };
    let kept = local::without_gone(rows, plan.pull_deletes);
    let had = local::take_updates(kept, plan.pull_updates, remote);
    assert(more.pull_updates.drop_last() =~= plan.pull_updates);
    assert(had + local::new_rows(plan.pull_new, remote) =~= had);
    lemma_row_of(had, uid, k);
    let then = local::take_updates(kept, more.pull_updates, remote);
    assert(then + local::new_rows(more.pull_new, remote) =~= then);
}

/// The identity that a created item's row carries before: the stale one, or the
/// one by which a row of that text was moved here.
pub open spec fn carried_before(
    made: (Seq<char>, Option<Seq<char>>, Seq<char>),
    moved_from: Seq<(Seq<char>, Seq<char>)>,
    uid: Seq<char>,
) -> bool {
    if made.1 is Some {
        made.1 == Some(uid)
    } else {
        exists|k: int|
            0 <= k < moved_from.len() && #[trigger] moved_from[k] == (made.0, uid) && forall|
                j: int,
            | 0 <= j < k ==> (#[trigger] moved_from[j]).0 != made.0
    }
}

/// A created item's row carries no identity before.
pub open spec fn plain_before(
    made: (Seq<char>, Option<Seq<char>>, Seq<char>),
    moved_from: Seq<(Seq<char>, Seq<char>)>,
) -> bool {
    made.1 is None && forall|j: int|
        0 <= j < moved_from.len() ==> (#[trigger] moved_from[j]).0 != made.0
}

proof fn lemma_moved_uid(moved_from: Seq<(Seq<char>, Seq<char>)>, text: Seq<char>, k: int)
    ensures
        0 <= k < moved_from.len() && moved_from[k].0 == text && (forall|j: int|
            0 <= j < k ==> (#[trigger] moved_from[j]).0 != text) ==> local::moved_uid(
            moved_from,
            text,
        ) == Some(moved_from[k].1),
        (forall|j: int| 0 <= j < moved_from.len() ==> (#[trigger] moved_from[j]).0 != text)
            ==> local::moved_uid(moved_from, text) is None,
    decreases moved_from.len(),
{
    if moved_from.len() > 0 {
        let rest = moved_from.skip(1);
        lemma_moved_uid(rest, text, k - 1);
        assert forall|j: int| 0 <= j < rest.len() implies #[trigger] rest[j] == moved_from[j
            + 1] by {}
        if moved_from[0].0 != text {
            if 0 <= k < moved_from.len() && moved_from[k].0 == text && forall|j: int|
                0 <= j < k ==> (#[trigger] moved_from[j]).0 != text {
                assert(rest[k - 1] == moved_from[k]);
                assert forall|j: int| 0 <= j < k - 1 implies (#[trigger] rest[j]).0 != text by {
                    assert(moved_from[j + 1].0 != text);
                }
            }
            if forall|j: int| 0 <= j < moved_from.len() ==> (#[trigger] moved_from[j]).0 != text {
                assert forall|j: int| 0 <= j < rest.len() implies (#[trigger] rest[j]).0
                    != text by {
                    assert(moved_from[j + 1].0 != text);
                }
            }
        } else {
            if forall|j: int| 0 <= j < moved_from.len() ==> (#[trigger] moved_from[j]).0 != text {
                assert(moved_from[0].0 != text);
            }
        }
    }
}

/// One more created item gives its identity to its row, and changes nothing
/// else: to the first that carries the identity that it had before, or, where
/// it had none, to the first without an identity that has its text.
pub proof fn law_created_row_is_marked(
    rows: Seq<ItemView>,
    plan: PlanView,
    remote: Map<Seq<char>, RemoteTodoView>,
    created: Seq<(Seq<char>, Option<Seq<char>>, Seq<char>)>,
    made: (Seq<char>, Option<Seq<char>>, Seq<char>),
    moved_from: Seq<(Seq<char>, Seq<char>)>,
    uid: Seq<char>,
    k: int,
)
    requires
        plan.pull_new.len() == 0,
    ensures
        ({
            let before = local::applied(rows, plan, remote, created, moved_from);
            let after = local::applied(rows, plan, remote, created.push(made), moved_from);
            let marked = before.update(k, (ItemView { uid: Some(made.2), ..before[k] }));
            &&& carried_before(made, moved_from, uid) && first_with(before, uid, k) ==> after
                == marked
            &&& carried_before(made, moved_from, uid) && merge::no_row(before, uid) ==> after
                == before
            &&& plain_before(made, moved_from) && first_plain(before, made.0, k) ==> after
                == marked
            &&& plain_before(made, moved_from) && no_plain(before, made.0) ==> after == before
        }),
{
    let taken = local::take_updates(
        local::without_gone(rows, plan.pull_deletes),
        plan.pull_updates,
        remote,
    );
    let had = local::annotate_all(taken, created, moved_from);
    let then = local::annotate_all(taken, created.push(made), moved_from);
    assert(created.push(made).drop_last() =~= created);
    assert(had + local::new_rows(plan.pull_new, remote) =~= had);
    assert(then + local::new_rows(plan.pull_new, remote) =~= then);
    lemma_row_of(had, uid, k);
    lemma_plain_row(had, made.0, k);
    if made.1 is None {
        lemma_moved_uid(moved_from, made.0, 0);
        if carried_before(made, moved_from, uid) {
            let j = choose|j: int|
                0 <= j < moved_from.len() && #[trigger] moved_from[j] == (made.0, uid) && forall|
                    i: int,
                | 0 <= i < j ==> (#[trigger] moved_from[i]).0 != made.0;
            lemma_moved_uid(moved_from, made.0, j);
        }
    }
}

/// One more new item of the server is one more row, behind all others, with its
/// text, its mark and its identity.
pub proof fn law_new_row_is_added(
    rows: Seq<ItemView>,
    plan: PlanView,
    remote: Map<Seq<char>, RemoteTodoView>,
    created: Seq<(Seq<char>, Option<Seq<char>>, Seq<char>)>,
    moved_from: Seq<(Seq<char>, Seq<char>)>,
    uid: Seq<char>,
)
    ensures
        ({
            let more = PlanView { pull_new: plan.pull_new.push(uid), ..plan };
            local::applied(rows, more, remote, created, moved_from) == local::applied(
                rows,
                plan,
                remote,
                created,
                moved_from,
            ).push(
                ItemView {
                    text: remote[uid].summary,
                    done: remote[uid].done,
                    uid: Some(uid),
                },
            )
        }),
{
    let more = PlanView { pull_new: plan.pull_new.push(uid), ..plan };
    assert(local::applied(rows, more, remote, created, moved_from) =~= local::applied(
        rows,
        plan,
        remote,
        created,
        moved_from,
    ).push(ItemView { text: remote[uid].summary, done: remote[uid].done, uid: Some(uid) }));
}

/// What goes up to the server, and what a plan only records, leaves the rows as
/// they are.
pub proof fn law_pushes_leave_rows(
    rows: Seq<ItemView>,
    a: PlanView,
    b: PlanView,
    remote: Map<Seq<char>, RemoteTodoView>,
    created: Seq<(Seq<char>, Option<Seq<char>>, Seq<char>)>,
    moved_from: Seq<(Seq<char>, Seq<char>)>,
)
    requires
        a.pull_new == b.pull_new,
        a.pull_updates == b.pull_updates,
        a.pull_deletes == b.pull_deletes,
    ensures
        local::applied(rows, a, remote, created, moved_from) == local::applied(
            rows,
            b,
            remote,
            created,
            moved_from,
        ),
{
}

// ── Tasks for items ───────────────────────────────────────────────────────

/// The tasks of a plan are its parts in turn: what changed here goes up, then
/// what is new and what is gone here; then what is new and what changed there
/// is recorded, then what is gone there, and then version tags.
pub proof fn law_item_tasks_in_turn(p: PlanView, k: int)
    ensures
        ({
            let tasks = item_tasks::item_tasks_of(p);
            let n1 = p.push_updates.len() as int;
            let n2 = n1 + p.push_creates.len();
            let n3 = n2 + p.push_deletes.len();
            let n4 = n3 + p.pull_new.len();
            let n5 = n4 + p.pull_updates.len();
            let n6 = n5 + p.pull_deletes.len();
            let n7 = n6 + p.refresh_etags.len();
            &&& tasks.len() == n7
            &&& 0 <= k < n1 ==> tasks[k] == (ItemTaskView::Known {
                work: ItemWork::Update,
                uid: p.push_updates[k],
            })
            &&& n1 <= k < n2 ==> tasks[k] == (ItemTaskView::Create {
                text: p.push_creates[k - n1].0,
                done: p.push_creates[k - n1].1,
                stale: p.push_creates[k - n1].2,
            })
            &&& n2 <= k < n3 ==> tasks[k] == (ItemTaskView::Known {
                work: ItemWork::Delete,
                uid: p.push_deletes[k - n2],
            })
            &&& n3 <= k < n4 ==> tasks[k] == (ItemTaskView::Known {
                work: ItemWork::Take,
                uid: p.pull_new[k - n3],
            })
            &&& n4 <= k < n5 ==> tasks[k] == (ItemTaskView::Known {
                work: ItemWork::Take,
                uid: p.pull_updates[k - n4],
            })
            &&& n5 <= k < n6 ==> tasks[k] == (ItemTaskView::Known {
                work: ItemWork::Forget,
                uid: p.pull_deletes[k - n5],
            })
            &&& n6 <= k < n7 ==> tasks[k] == (ItemTaskView::Known {
                work: ItemWork::Retag,
                uid: p.refresh_etags[k - n6],
            })
        }),
{
}

/// What is asked of the server: a change with the text and the mark of the first
/// row that carries the item, a new item with its text and its mark, a deletion
/// at the URL and in the version that the state knows, and nothing for what is
/// only recorded.
pub proof fn law_item_requests(
    rows: Seq<ItemView>,
    todos: Map<Seq<char>, RemoteTodoView>,
    items: Map<Seq<char>, SyncedItemView>,
    parsed: Result<Seq<char>, Seq<char>>,
    uid: Seq<char>,
    k: int,
    text: Seq<char>,
    done: bool,
    stale: Option<Seq<char>>,
)
    ensures
        first_with(rows, uid, k) ==> item_tasks::request_of(
            ItemTaskView::Known { work: ItemWork::Update, uid },
            rows,
            todos,
            items,
            parsed,
        ) == Ok::<ItemRequestView, Seq<char>>(
            ItemRequestView::Update { todo: todos[uid], text: rows[k].text, done: rows[k].done },
        ),
        item_tasks::request_of(
            ItemTaskView::Create { text, done, stale },
            rows,
            todos,
            items,
            parsed,
        ) == Ok::<ItemRequestView, Seq<char>>(ItemRequestView::Create { text, done }),
        parsed is Ok ==> item_tasks::request_of(
            ItemTaskView::Known { work: ItemWork::Delete, uid },
            rows,
            todos,
            items,
            parsed,
        ) == Ok::<ItemRequestView, Seq<char>>(
            ItemRequestView::Delete { url: parsed->Ok_0, etag: items[uid].etag },
        ),
        parsed is Err ==> item_tasks::request_of(
            ItemTaskView::Known { work: ItemWork::Delete, uid },
            rows,
            todos,
            items,
            parsed,
        ) == Err::<ItemRequestView, Seq<char>>(parsed->Err_0),
        forall|work: ItemWork|
            work != ItemWork::Update && work != ItemWork::Delete ==> #[trigger]
            item_tasks::request_of(
                ItemTaskView::Known { work, uid },
                rows,
                todos,
                items,
                parsed,
            ) == Ok::<ItemRequestView, Seq<char>>(ItemRequestView::Nothing),
{
    lemma_row_of(rows, uid, k);
}

/// A created item is recorded with what was sent and what was answered, and kept
/// with the identity that its row carried; nothing else is recorded.
pub proof fn law_created_item_is_recorded(
    items: Map<Seq<char>, SyncedItemView>,
    rows: Seq<ItemView>,
    todos: Map<Seq<char>, RemoteTodoView>,
    list: Seq<char>,
    account: Seq<char>,
    created: Seq<(Seq<char>, Option<Seq<char>>, Seq<char>)>,
    text: Seq<char>,
    done: bool,
    stale: Option<Seq<char>>,
    uid: Seq<char>,
    url: Seq<char>,
    etag: Seq<char>,
)
    ensures
        ({
            let task = ItemTaskView::Create { text, done, stale };
            let reply = ItemReplyView::Created { uid, url, etag };
            &&& item_tasks::items_after(task, reply, items, rows, todos, list, account)
                == items.insert(uid, (SyncedItemView { url, etag, account, text, done, list }))
            &&& item_tasks::created_after(task, reply, created) == created.push((text, stale, uid))
        }),
{
}

/// A changed item is recorded as its first row is, with the server's URL and the
/// version tag that was answered.
pub proof fn law_updated_item_is_recorded(
    items: Map<Seq<char>, SyncedItemView>,
    rows: Seq<ItemView>,
    todos: Map<Seq<char>, RemoteTodoView>,
    list: Seq<char>,
    account: Seq<char>,
    created: Seq<(Seq<char>, Option<Seq<char>>, Seq<char>)>,
    uid: Seq<char>,
    etag: Seq<char>,
    k: int,
)
    requires
        first_with(rows, uid, k),
    ensures
        ({
            let task = ItemTaskView::Known { work: ItemWork::Update, uid };
            let reply = ItemReplyView::Updated { etag };
            &&& item_tasks::items_after(task, reply, items, rows, todos, list, account)
                == items.insert(
                uid,
                (SyncedItemView {
                    url: todos[uid].url,
                    etag,
                    account,
                    text: rows[k].text,
                    done: rows[k].done,
                    list,
                }),
            )
            &&& item_tasks::created_after(task, reply, created) == created
        }),
{
    lemma_row_of(rows, uid, k);
}

/// An item that was deleted, there or here, is tracked no more; an item of the
/// server is recorded as the server has it; and of one whose version tag is
/// taken only that and its list are recorded, unless it was not tracked.
pub proof fn law_item_states(
    items: Map<Seq<char>, SyncedItemView>,
    rows: Seq<ItemView>,
    todos: Map<Seq<char>, RemoteTodoView>,
    list: Seq<char>,
    account: Seq<char>,
    reply: ItemReplyView,
    uid: Seq<char>,
)
    ensures
        ({
            let whole = SyncedItemView {
                url: todos[uid].url,
                etag: todos[uid].etag,
                account,
                text: todos[uid].summary,
                done: todos[uid].done,
                list,
            };
            let take = ItemTaskView::Known { work: ItemWork::Take, uid };
            let forget = ItemTaskView::Known { work: ItemWork::Forget, uid };
            let retag = ItemTaskView::Known { work: ItemWork::Retag, uid };
            let delete = ItemTaskView::Known { work: ItemWork::Delete, uid };
            &&& item_tasks::items_after(take, reply, items, rows, todos, list, account)
                == items.insert(uid, whole)
            &&& item_tasks::items_after(forget, reply, items, rows, todos, list, account)
                == items.remove(uid)
            &&& item_tasks::items_after(
                delete,
                ItemReplyView::Deleted,
                items,
                rows,
                todos,
                list,
                account,
            ) == items.remove(uid)
            &&& todos.contains_key(uid) && items.contains_key(uid) ==> item_tasks::items_after(
                retag,
                reply,
                items,
                rows,
                todos,
                list,
                account,
            ) == items.insert(
                uid,
                (SyncedItemView {
                    url: items[uid].url,
                    etag: todos[uid].etag,
                    account: items[uid].account,
                    text: items[uid].text,
                    done: items[uid].done,
                    list,
                }),
            )
            &&& todos.contains_key(uid) && !items.contains_key(uid) ==> item_tasks::items_after(
                retag,
                reply,
                items,
                rows,
                todos,
                list,
                account,
            ) == items.insert(uid, whole)
            &&& !todos.contains_key(uid) ==> item_tasks::items_after(
                retag,
                reply,
                items,
                rows,
                todos,
                list,
                account,
            ) == items
        }),
{
}

/// A request that the server did not grant leaves the state as it was.
pub proof fn law_refused_item_request(
    items: Map<Seq<char>, SyncedItemView>,
    rows: Seq<ItemView>,
    todos: Map<Seq<char>, RemoteTodoView>,
    list: Seq<char>,
    account: Seq<char>,
    created: Seq<(Seq<char>, Option<Seq<char>>, Seq<char>)>,
    task: ItemTaskView,
    reply: ItemReplyView,
)
    requires
        match task {
            ItemTaskView::Create { text, done, stale } => reply !is Created,
            ItemTaskView::Known { work, uid } => {
                ||| work == ItemWork::Update && reply !is Updated
                ||| work == ItemWork::Delete && reply !is Deleted
            },
        },
    ensures
        item_tasks::items_after(task, reply, items, rows, todos, list, account) == items,
        item_tasks::created_after(task, reply, created) == created,
{
}

// ── Tasks for lists ───────────────────────────────────────────────────────

/// The tasks of a plan for lists are its parts in turn: what is new here, what
/// was renamed and what was deleted goes up; then files are renamed, deleted and
/// made; and then what the server has is recorded.
pub proof fn law_list_tasks_in_turn(p: ListPlanView, k: int)
    ensures
        ({
            let tasks = list_tasks::tasks_of(p);
            let n1 = p.push_creates.len() as int;
            let n2 = n1 + p.push_renames.len();
            let n3 = n2 + p.push_deletes.len();
            let n4 = n3 + p.pull_renames.len();
            let n5 = n4 + p.pull_deletes.len();
            let n6 = n5 + p.pull_new.len();
            let n7 = n6 + p.refresh.len();
            &&& tasks.len() == n7
            &&& 0 <= k < n1 ==> tasks[k] == (ListTaskView::Create {
                title: p.push_creates[k].0,
                stale: p.push_creates[k].1,
            })
            &&& n1 <= k < n2 ==> tasks[k] == (ListTaskView::Rename {
                id: p.push_renames[k - n1].0,
                title: p.push_renames[k - n1].1,
            })
            &&& n2 <= k < n3 ==> tasks[k] == (ListTaskView::Delete { id: p.push_deletes[k - n2] })
            &&& n3 <= k < n4 ==> tasks[k] == (ListTaskView::RenameFile {
                id: p.pull_renames[k - n3].0,
                from: p.pull_renames[k - n3].1,
                to: p.pull_renames[k - n3].2,
            })
            &&& n4 <= k < n5 ==> tasks[k] == (ListTaskView::DeleteFile {
                id: p.pull_deletes[k - n4].0,
                title: p.pull_deletes[k - n4].1,
            })
            &&& n5 <= k < n6 ==> tasks[k] == (ListTaskView::AddFile { id: p.pull_new[k - n5] })
            &&& n6 <= k < n7 ==> tasks[k] == (ListTaskView::Record { id: p.refresh[k - n6] })
        }),
{
}

/// The first list with a title stands at `k`.
pub open spec fn first_titled(lists: Seq<ListFileView>, title: Seq<char>, k: int) -> bool {
    &&& 0 <= k < lists.len()
    &&& lists[k].title == title
    &&& forall|j: int| 0 <= j < k ==> (#[trigger] lists[j]).title != title
}

/// No list has a title.
pub open spec fn none_titled(lists: Seq<ListFileView>, title: Seq<char>) -> bool {
    forall|j: int| 0 <= j < lists.len() ==> (#[trigger] lists[j]).title != title
}

/// The first list with an identity stands at `k`.
pub open spec fn first_identified(lists: Seq<ListFileView>, id: Seq<char>, k: int) -> bool {
    &&& 0 <= k < lists.len()
    &&& lists[k].id == Some(id)
    &&& forall|j: int| 0 <= j < k ==> (#[trigger] lists[j]).id != Some(id)
}

/// A list is found by its title as the first that has it, and by its identity
/// as the first that has that.
pub proof fn law_found_lists(lists: Seq<ListFileView>, title: Seq<char>, k: int)
    ensures
        first_titled(lists, title, k) ==> list_tasks::titled(lists, title) == Some(k),
        none_titled(lists, title) ==> list_tasks::titled(lists, title) is None,
        first_identified(lists, title, k) ==> list_tasks::identified(lists, title) == Some(k),
        merge::no_file(lists, title) ==> list_tasks::identified(lists, title) is None,
    decreases lists.len(),
{
    if lists.len() > 0 {
        let rest = lists.skip(1);
        law_found_lists(rest, title, k - 1);
        assert forall|j: int| 0 <= j < rest.len() implies #[trigger] rest[j] == lists[j + 1] by {}
        if first_titled(lists, title, k) && k > 0 {
            assert(lists[0].title != title);
            assert forall|j: int| 0 <= j < k - 1 implies (#[trigger] rest[j]).title != title by {
                assert(lists[j + 1].title != title);
            }
            assert(rest[k - 1] == lists[k]);
        }
        if none_titled(lists, title) {
            assert(lists[0].title != title);
            assert forall|j: int| 0 <= j < rest.len() implies (#[trigger] rest[j]).title
                != title by {
                assert(lists[j + 1].title != title);
            }
        }
        if first_identified(lists, title, k) && k > 0 {
            assert(lists[0].id != Some(title));
            assert forall|j: int| 0 <= j < k - 1 implies (#[trigger] rest[j]).id != Some(
                title,
            ) by {
                assert(lists[j + 1].id != Some(title));
            }
            assert(rest[k - 1] == lists[k]);
        }
        if merge::no_file(lists, title) {
            assert(lists[0].id != Some(title));
            assert forall|j: int| 0 <= j < rest.len() implies (#[trigger] rest[j]).id != Some(
                title,
            ) by {
                assert(lists[j + 1].id != Some(title));
            }
        }
    }
}

/// A created list gives its identity to the first file with its title, which is
/// written so; the state records it as the server answered it, and forgets the
/// identity that the file carried. The items stay.
pub proof fn law_created_list(
    local: Seq<ListFileView>,
    remote: Map<Seq<char>, RemoteListView>,
    lists: Map<Seq<char>, SyncedListView>,
    items: Map<Seq<char>, SyncedItemView>,
    data: Seq<u8>,
    current: Option<Seq<char>>,
    on_disk: Seq<Seq<char>>,
    email: Seq<char>,
    title: Seq<char>,
    stale: Option<Seq<char>>,
    id: Seq<char>,
    list: RemoteListView,
    k: int,
)
    ensures
        ({
            let task = ListTaskView::Create { title, stale };
            let reply = ListReplyView::Created { id, list };
            let file = ListFileView { id: Some(id), ..local[k] };
            let kept = if stale is Some {
                lists.remove(stale->0)
            } else {
                lists
            };
            &&& first_titled(local, title, k) ==> list_tasks::lists_after(
                task,
                reply,
                local,
                remote,
                on_disk,
            ) == local.update(k, file)
            &&& first_titled(local, title, k) ==> list_tasks::disk_after(
                task,
                reply,
                local,
                remote,
                data,
                current,
                on_disk,
            ) == seq![DiskOpView::Write(paths::saved_list(data, file))]
            &&& none_titled(local, title) ==> list_tasks::lists_after(
                task,
                reply,
                local,
                remote,
                on_disk,
            ) == local
            &&& none_titled(local, title) ==> list_tasks::disk_after(
                task,
                reply,
                local,
                remote,
                data,
                current,
                on_disk,
            ).len() == 0
            &&& list_tasks::list_states_after(task, reply, lists, local, remote, email)
                == kept.insert(
                id,
                (SyncedListView { title: list.title, etag: list.etag, account: email }),
            )
            &&& list_tasks::item_states_after(task, reply, items) == items
        }),
{
    law_found_lists(local, title, k);
}

/// A list that was renamed on the server is recorded with the file's title and
/// the version tag that was answered; files and items stay.
pub proof fn law_renamed_list(
    local: Seq<ListFileView>,
    remote: Map<Seq<char>, RemoteListView>,
    lists: Map<Seq<char>, SyncedListView>,
    items: Map<Seq<char>, SyncedItemView>,
    data: Seq<u8>,
    current: Option<Seq<char>>,
    on_disk: Seq<Seq<char>>,
    email: Seq<char>,
    id: Seq<char>,
    title: Seq<char>,
    etag: Seq<char>,
)
    ensures
        ({
            let task = ListTaskView::Rename { id, title };
            let reply = ListReplyView::Renamed { etag };
            &&& list_tasks::lists_after(task, reply, local, remote, on_disk) == local
            &&& list_tasks::disk_after(
                task,
                reply,
                local,
                remote,
                data,
                current,
                on_disk,
            ).len() == 0
            &&& list_tasks::list_states_after(task, reply, lists, local, remote, email)
                == lists.insert(id, (SyncedListView { title, etag, account: email }))
            &&& list_tasks::item_states_after(task, reply, items) == items
        }),
{
}

/// A list that was deleted on the server, and one whose file goes because the
/// server no longer has it, is forgotten together with its items, and with
/// those alone.
pub proof fn law_deleted_list(
    local: Seq<ListFileView>,
    remote: Map<Seq<char>, RemoteListView>,
    lists: Map<Seq<char>, SyncedListView>,
    items: Map<Seq<char>, SyncedItemView>,
    data: Seq<u8>,
    current: Option<Seq<char>>,
    on_disk: Seq<Seq<char>>,
    email: Seq<char>,
    id: Seq<char>,
    title: Seq<char>,
    other: ListReplyView,
    uid: Seq<char>,
)
    ensures
        ({
            let there = ListTaskView::Delete { id };
            let reply = ListReplyView::Deleted;
            let here = ListTaskView::DeleteFile { id, title };
            let kept = items.contains_key(uid) && items[uid].list_id() != id;
            let then = list_tasks::item_states_after(there, reply, items);
            let now = list_tasks::item_states_after(here, other, items);
            &&& list_tasks::list_states_after(there, reply, lists, local, remote, email)
                == lists.remove(id)
            &&& list_tasks::list_states_after(here, other, lists, local, remote, email)
                == lists.remove(id)
            &&& then.contains_key(uid) == kept && now.contains_key(uid) == kept
            &&& kept ==> then[uid] == items[uid] && now[uid] == items[uid]
            &&& list_tasks::lists_after(there, reply, local, remote, on_disk) == local
            &&& list_tasks::lists_after(here, other, local, remote, on_disk) == local.filter(
                |f: ListFileView| f.title != title,
            )
            &&& list_tasks::disk_after(
                there,
                reply,
                local,
                remote,
                data,
                current,
                on_disk,
            ).len() == 0
            &&& list_tasks::disk_after(here, other, local, remote, data, current, on_disk) == seq![
                DiskOpView::Remove {
                    path: paths::list_path_of(data, title),
                    context: "deleting "@ + title + ": "@,
                },
            ]
        }),
{
}

/// A file that takes the server's title takes it in a form that is free, moves
/// there where that makes another path, and stays shown where it was; the state
/// records what the server has.
pub proof fn law_renamed_file(
    local: Seq<ListFileView>,
    remote: Map<Seq<char>, RemoteListView>,
    lists: Map<Seq<char>, SyncedListView>,
    items: Map<Seq<char>, SyncedItemView>,
    data: Seq<u8>,
    current: Option<Seq<char>>,
    on_disk: Seq<Seq<char>>,
    email: Seq<char>,
    reply: ListReplyView,
    id: Seq<char>,
    from: Seq<char>,
    to: Seq<char>,
    k: int,
)
    ensures
        ({
            let task = ListTaskView::RenameFile { id, from, to };
            let free = titles::free_title(to, local, on_disk);
            let disk = list_tasks::disk_after(task, reply, local, remote, data, current, on_disk);
            let moves = paths::safe(from) != paths::safe(free);
            let shown = current == Some(from);
            let step = DiskOpView::Rename {
                from: paths::list_path_of(data, from),
                to: paths::list_path_of(data, free),
                context: "renaming "@ + from + " -> "@ + free + ": "@,
            };
            let pointer = DiskOpView::Write(paths::saved_current(data, free));
            &&& first_titled(local, from, k) ==> list_tasks::lists_after(
                task,
                reply,
                local,
                remote,
                on_disk,
            ) == local.update(k, (ListFileView { title: free, ..local[k] }))
            &&& none_titled(local, from) ==> list_tasks::lists_after(
                task,
                reply,
                local,
                remote,
                on_disk,
            ) == local
            &&& list_tasks::list_states_after(task, reply, lists, local, remote, email)
                == lists.insert(
                id,
                (SyncedListView {
                    title: remote[id].title,
                    etag: remote[id].etag,
                    account: email,
                }),
            )
            &&& list_tasks::item_states_after(task, reply, items) == items
            &&& moves && shown ==> disk == seq![step, pointer]
            &&& moves && !shown ==> disk == seq![step]
            &&& !moves && shown ==> disk == seq![pointer]
            &&& !moves && !shown ==> disk.len() == 0
        }),
{
    law_found_lists(local, from, k);
}

/// A list of the server that is new here gets an empty file with its title in a
/// form that is free, and the state records what the server has.
pub proof fn law_added_file(
    local: Seq<ListFileView>,
    remote: Map<Seq<char>, RemoteListView>,
    lists: Map<Seq<char>, SyncedListView>,
    items: Map<Seq<char>, SyncedItemView>,
    data: Seq<u8>,
    current: Option<Seq<char>>,
    on_disk: Seq<Seq<char>>,
    email: Seq<char>,
    reply: ListReplyView,
    id: Seq<char>,
)
    ensures
        ({
            let task = ListTaskView::AddFile { id };
            let file = ListFileView {
                title: titles::free_title(remote[id].title, local, on_disk),
                id: Some(id),
                items: Seq::empty(),
            };
            &&& list_tasks::lists_after(task, reply, local, remote, on_disk) == local.push(file)
            &&& list_tasks::disk_after(task, reply, local, remote, data, current, on_disk) == seq![
                DiskOpView::Write(paths::saved_list(data, file)),
            ]
            &&& list_tasks::list_states_after(task, reply, lists, local, remote, email)
                == lists.insert(
                id,
                (SyncedListView {
                    title: remote[id].title,
                    etag: remote[id].etag,
                    account: email,
                }),
            )
            &&& list_tasks::item_states_after(task, reply, items) == items
        }),
{
}

/// A list that is only recorded is recorded with its file's title, or the
/// server's where it has no file, and with the server's version tag; lists,
/// files and items stay.
pub proof fn law_recorded_list(
    local: Seq<ListFileView>,
    remote: Map<Seq<char>, RemoteListView>,
    lists: Map<Seq<char>, SyncedListView>,
    items: Map<Seq<char>, SyncedItemView>,
    data: Seq<u8>,
    current: Option<Seq<char>>,
    on_disk: Seq<Seq<char>>,
    email: Seq<char>,
    reply: ListReplyView,
    id: Seq<char>,
    k: int,
)
    ensures
        ({
            let task = ListTaskView::Record { id };
            let after = list_tasks::list_states_after(task, reply, lists, local, remote, email);
            &&& first_identified(local, id, k) ==> after == lists.insert(
                id,
                (SyncedListView {
                    title: local[k].title,
                    etag: remote[id].etag,
                    account: email,
                }),
            )
            &&& merge::no_file(local, id) ==> after == lists.insert(
                id,
                (SyncedListView {
                    title: remote[id].title,
                    etag: remote[id].etag,
                    account: email,
                }),
            )
            &&& list_tasks::lists_after(task, reply, local, remote, on_disk) == local
            &&& list_tasks::disk_after(
                task,
                reply,
                local,
                remote,
                data,
                current,
                on_disk,
            ).len() == 0
            &&& list_tasks::item_states_after(task, reply, items) == items
        }),
{
    law_found_lists(local, id, k);
}

/// What the server did not grant changes nothing: no list, no file, and nothing
/// in the state.
pub proof fn law_refused_list_request(
    local: Seq<ListFileView>,
    remote: Map<Seq<char>, RemoteListView>,
    lists: Map<Seq<char>, SyncedListView>,
    items: Map<Seq<char>, SyncedItemView>,
    data: Seq<u8>,
    current: Option<Seq<char>>,
    on_disk: Seq<Seq<char>>,
    email: Seq<char>,
    task: ListTaskView,
    reply: ListReplyView,
)
    requires
        ({
            ||| task is Create && reply !is Created
            ||| task is Rename && reply !is Renamed
            ||| task is Delete && reply !is Deleted
        }),
    ensures
        list_tasks::lists_after(task, reply, local, remote, on_disk) == local,
        list_tasks::disk_after(task, reply, local, remote, data, current, on_disk).len() == 0,
        list_tasks::list_states_after(task, reply, lists, local, remote, email) == lists,
        list_tasks::item_states_after(task, reply, items) == items,
{
}

} // verus!
