//! What a run leaves to the next one: nothing, once the server has done what
//! it was asked for.
use vstd::prelude::*;

use crate::item_tasks;
use crate::item_tasks::{ItemReplyView, ItemTaskView, ItemWork};
use crate::local;
use crate::model::{ItemView, SyncedItemView};
use crate::order;
use crate::plan;
use crate::plan::{ItemStep, PlanView};
use crate::plan_laws;
use crate::remote::RemoteTodoView;
use crate::seqs;

verus! {

// ── The server ────────────────────────────────────────────────────────────

/// The server did what a task asks of it.
pub open spec fn was_done(task: ItemTaskView, reply: ItemReplyView) -> bool {
    match task {
        ItemTaskView::Create { text, done, stale } => reply is Created,
        ItemTaskView::Known { work, uid } => match work {
            ItemWork::Update => reply is Updated,
            ItemWork::Delete => reply is Deleted,
            _ => true,
        },
    }
}

/// The server's items after a task.
pub open spec fn server_after(
    task: ItemTaskView,
    reply: ItemReplyView,
    there: Map<Seq<char>, RemoteTodoView>,
    rows: Seq<ItemView>,
    list: Seq<char>,
) -> Map<Seq<char>, RemoteTodoView> {
    match (task, reply) {
        (
            ItemTaskView::Create { text, done, stale },
            ItemReplyView::Created { uid, url, etag },
        ) => there.insert(
            uid,
            (RemoteTodoView { url, etag, summary: text, done, lines: Seq::empty(), list }),
        ),
        (ItemTaskView::Known { work, uid }, _) => match (work, reply) {
            (ItemWork::Update, ItemReplyView::Updated { etag }) => {
                let row = rows[local::row_of(rows, uid)->0];
                there.insert(
                    uid,
                    (RemoteTodoView { etag, summary: row.text, done: row.done, ..there[uid] }),
                )
            },
            (ItemWork::Delete, ItemReplyView::Deleted) => there.remove(uid),
            _ => there,
        },
        _ => there,
    }
}

/// The server's items after the first `k` tasks.
pub open spec fn server_upto(
    tasks: Seq<ItemTaskView>,
    replies: Seq<ItemReplyView>,
    todos: Map<Seq<char>, RemoteTodoView>,
    rows: Seq<ItemView>,
    list: Seq<char>,
    k: int,
) -> Map<Seq<char>, RemoteTodoView>
    decreases k,
{
    if k <= 0 {
        todos
    } else {
        server_after(
            tasks[k - 1],
            replies[k - 1],
            server_upto(tasks, replies, todos, rows, list, k - 1),
            rows,
            list,
        )
    }
}

/// What was created on the server by the first `k` tasks.
pub open spec fn created_upto(
    tasks: Seq<ItemTaskView>,
    replies: Seq<ItemReplyView>,
    k: int,
) -> Seq<(Seq<char>, Option<Seq<char>>, Seq<char>)>
    decreases k,
{
    if k <= 0 {
        Seq::empty()
    } else {
        item_tasks::created_after(
            tasks[k - 1],
            replies[k - 1],
            created_upto(tasks, replies, k - 1),
        )
    }
}

/// No identity is carried by two rows.
pub open spec fn one_each(rows: Seq<ItemView>) -> bool {
    forall|i: int, j: int|
        0 <= i < j < rows.len() && (#[trigger] rows[i]).uid is Some ==> rows[i].uid != (
        #[trigger] rows[j]).uid
}

/// What the server calls the items that it creates is new, and no two of them
/// are called the same.
pub open spec fn fresh_names(
    replies: Seq<ItemReplyView>,
    rows: Seq<ItemView>,
    state: Map<Seq<char>, SyncedItemView>,
    todos: Map<Seq<char>, RemoteTodoView>,
) -> bool {
    &&& forall|k: int|
        0 <= k < replies.len() && (#[trigger] replies[k]) is Created ==> {
            &&& !todos.contains_key(replies[k]->Created_uid)
            &&& !state.contains_key(replies[k]->Created_uid)
            &&& forall|i: int|
                0 <= i < rows.len() ==> (#[trigger] rows[i]).uid != Some(replies[k]->Created_uid)
        }
    &&& forall|k: int, j: int|
        0 <= k < j < replies.len() && (#[trigger] replies[k]) is Created && (
        #[trigger] replies[j]) is Created ==> replies[k]->Created_uid != replies[j]->Created_uid
}

// ── One task for each item ────────────────────────────────────────────────

/// A task, or the answer to it, is about an item.
spec fn touches(task: ItemTaskView, reply: ItemReplyView, u: Seq<char>) -> bool {
    match task {
        ItemTaskView::Create { text, done, stale } => reply is Created && reply->Created_uid == u,
        ItemTaskView::Known { work, uid } => uid == u,
    }
}

/// What no task is about stays as it is.
proof fn lemma_untouched(
    tasks: Seq<ItemTaskView>,
    replies: Seq<ItemReplyView>,
    items: Map<Seq<char>, SyncedItemView>,
    todos: Map<Seq<char>, RemoteTodoView>,
    rows: Seq<ItemView>,
    list: Seq<char>,
    account: Seq<char>,
    lo: int,
    hi: int,
    uid: Seq<char>,
)
    requires
        0 <= lo <= hi <= tasks.len(),
        forall|i: int| lo <= i < hi ==> !touches(#[trigger] tasks[i], replies[i], uid),
    ensures
        plan::at(
            plan_laws::items_upto(tasks, replies, items, rows, todos, list, account, hi),
            uid,
        ) == plan::at(
            plan_laws::items_upto(tasks, replies, items, rows, todos, list, account, lo),
            uid,
        ),
        plan::at(server_upto(tasks, replies, todos, rows, list, hi), uid) == plan::at(
            server_upto(tasks, replies, todos, rows, list, lo),
            uid,
        ),
    decreases hi - lo,
{
    if lo < hi {
        lemma_untouched(
            tasks,
            replies,
            items,
            todos,
            rows,
            list,
            account,
            lo,
            hi - 1,
            uid,
        );
        assert(!touches(tasks[hi - 1], replies[hi - 1], uid));
    }
}

/// Where one task alone is about an item, it is what decides.
proof fn lemma_touched_once(
    tasks: Seq<ItemTaskView>,
    replies: Seq<ItemReplyView>,
    items: Map<Seq<char>, SyncedItemView>,
    todos: Map<Seq<char>, RemoteTodoView>,
    rows: Seq<ItemView>,
    list: Seq<char>,
    account: Seq<char>,
    k: int,
    uid: Seq<char>,
)
    requires
        0 <= k < tasks.len(),
        forall|i: int|
            0 <= i < tasks.len() && i != k ==> !touches(#[trigger] tasks[i], replies[i], uid),
    ensures
        ({
            let had = plan_laws::items_upto(tasks, replies, items, rows, todos, list, account, k);
            let was = server_upto(tasks, replies, todos, rows, list, k);
            let n = tasks.len() as int;
            &&& plan::at(had, uid) == plan::at(items, uid)
            &&& plan::at(was, uid) == plan::at(todos, uid)
            &&& plan::at(
                plan_laws::items_upto(tasks, replies, items, rows, todos, list, account, n),
                uid,
            ) == plan::at(
                item_tasks::items_after(tasks[k], replies[k], had, rows, todos, list, account),
                uid,
            )
            &&& plan::at(server_upto(tasks, replies, todos, rows, list, n), uid) == plan::at(
                server_after(tasks[k], replies[k], was, rows, list),
                uid,
            )
        }),
{
    let n = tasks.len() as int;
    lemma_untouched(tasks, replies, items, todos, rows, list, account, 0, k, uid);
    lemma_untouched(tasks, replies, items, todos, rows, list, account, k + 1, n, uid);
}

/// What a task of a plan is about, and which task it is.
spec fn is_task(
    rows: Seq<ItemView>,
    state: Map<Seq<char>, SyncedItemView>,
    todos: Map<Seq<char>, RemoteTodoView>,
    k: int,
) -> bool {
    let p = plan::planned_items(rows, state, todos);
    let n1 = p.push_updates.len() as int;
    let n2 = n1 + p.push_creates.len();
    let n3 = n2 + p.push_deletes.len();
    let n4 = n3 + p.pull_new.len();
    let n5 = n4 + p.pull_updates.len();
    let n6 = n5 + p.pull_deletes.len();
    match item_tasks::item_tasks_of(p)[k] {
        ItemTaskView::Create { text, done, stale } => n1 <= k < n2 && p.push_creates[k - n1] == (
            text,
            done,
            stale,
        ),
        ItemTaskView::Known { work, uid } => {
            let step = plan::item_step(
                plan::last_row(rows, uid),
                plan::at(state, uid),
                todos[uid],
            );
            match work {
                ItemWork::Update => {
                    &&& 0 <= k < n1
                    &&& uid == p.push_updates[k]
                    &&& todos.contains_key(uid)
                    &&& step == ItemStep::PushUpdate
                },
                ItemWork::Delete => {
                    &&& n2 <= k < n3
                    &&& uid == p.push_deletes[k - n2]
                    &&& todos.contains_key(uid)
                    &&& step == ItemStep::PushDelete
                },
                ItemWork::Take => {
                    ||| {
                        &&& n3 <= k < n4
                        &&& uid == p.pull_new[k - n3]
                        &&& todos.contains_key(uid)
                        &&& step == ItemStep::PullNew
                    }
                    ||| {
                        &&& n4 <= k < n5
                        &&& uid == p.pull_updates[k - n4]
                        &&& todos.contains_key(uid)
                        &&& step == ItemStep::PullUpdate
                    }
                },
                ItemWork::Forget => {
                    &&& n5 <= k < n6
                    &&& uid == p.pull_deletes[k - n5]
                    &&& !todos.contains_key(uid)
                    &&& state.contains_key(uid)
                },
                ItemWork::Retag => {
                    &&& n6 <= k
                    &&& uid == p.refresh_etags[k - n6]
                    &&& todos.contains_key(uid)
                    &&& step == ItemStep::RefreshEtag
                },
            }
        },
    }
}

proof fn lemma_is_task(
    rows: Seq<ItemView>,
    state: Map<Seq<char>, SyncedItemView>,
    todos: Map<Seq<char>, RemoteTodoView>,
    k: int,
)
    requires
        todos.dom().finite(),
        state.dom().finite(),
        0 <= k < item_tasks::item_tasks_of(plan::planned_items(rows, state, todos)).len(),
    ensures
        is_task(rows, state, todos, k),
{
    let p = plan::planned_items(rows, state, todos);
    let tasks = item_tasks::item_tasks_of(p);
    let n1 = p.push_updates.len() as int;
    let n2 = n1 + p.push_creates.len();
    let n3 = n2 + p.push_deletes.len();
    let n4 = n3 + p.pull_new.len();
    let n5 = n4 + p.pull_updates.len();
    let n6 = n5 + p.pull_deletes.len();
    if k < n1 {
        let uid = p.push_updates[k];
        assert(p.push_updates.contains(uid));
        plan_laws::lemma_uids_with(ItemStep::PushUpdate, rows, state, todos, uid);
        assert(tasks[k] == (ItemTaskView::Known { work: ItemWork::Update, uid }));
    } else if k < n2 {
        let c = p.push_creates[k - n1];
        assert(tasks[k] == (ItemTaskView::Create { text: c.0, done: c.1, stale: c.2 }));
    } else if k < n3 {
        let uid = p.push_deletes[k - n2];
        assert(p.push_deletes.contains(uid));
        plan_laws::lemma_uids_with(ItemStep::PushDelete, rows, state, todos, uid);
        assert(tasks[k] == (ItemTaskView::Known { work: ItemWork::Delete, uid }));
    } else if k < n4 {
        let uid = p.pull_new[k - n3];
        assert(p.pull_new.contains(uid));
        plan_laws::lemma_uids_with(ItemStep::PullNew, rows, state, todos, uid);
        assert(tasks[k] == (ItemTaskView::Known { work: ItemWork::Take, uid }));
    } else if k < n5 {
        let uid = p.pull_updates[k - n4];
        assert(p.pull_updates.contains(uid));
        plan_laws::lemma_uids_with(ItemStep::PullUpdate, rows, state, todos, uid);
        assert(tasks[k] == (ItemTaskView::Known { work: ItemWork::Take, uid }));
    } else if k < n6 {
        let uid = p.pull_deletes[k - n5];
        assert(p.pull_deletes.contains(uid));
        order::law_in_order(state.dom());
        let ids = order::in_order(state.dom());
        seqs::lemma_filter_contains(ids, |u: Seq<char>| !todos.contains_key(u), uid);
        assert(ids.contains(uid) == ids.to_set().contains(uid));
        assert(tasks[k] == (ItemTaskView::Known { work: ItemWork::Forget, uid }));
    } else {
        let uid = p.refresh_etags[k - n6];
        assert(p.refresh_etags.contains(uid));
        plan_laws::lemma_uids_with(ItemStep::RefreshEtag, rows, state, todos, uid);
        assert(tasks[k] == (ItemTaskView::Known { work: ItemWork::Retag, uid }));
    }
}

/// A task about a known item is about one that the server or the state has.
pub proof fn lemma_known_task(
    rows: Seq<ItemView>,
    state: Map<Seq<char>, SyncedItemView>,
    todos: Map<Seq<char>, RemoteTodoView>,
    k: int,
)
    requires
        todos.dom().finite(),
        state.dom().finite(),
        0 <= k < item_tasks::item_tasks_of(plan::planned_items(rows, state, todos)).len(),
    ensures
        item_tasks::item_tasks_of(
            plan::planned_items(rows, state, todos),
        )[k] matches ItemTaskView::Known { work, uid } ==> {
            &&& work is Forget ==> state.contains_key(uid) && !todos.contains_key(uid)
            &&& work is Delete ==> state.contains_key(uid)
            &&& !(work is Forget) ==> todos.contains_key(uid)
            &&& work is Retag ==> plan::item_step(
                plan::last_row(rows, uid),
                plan::at(state, uid),
                todos[uid],
            ) == ItemStep::RefreshEtag
        },
{
    lemma_is_task(rows, state, todos, k);
}

/// No two tasks of a plan are about the same item.
proof fn lemma_one_task(
    rows: Seq<ItemView>,
    state: Map<Seq<char>, SyncedItemView>,
    todos: Map<Seq<char>, RemoteTodoView>,
    replies: Seq<ItemReplyView>,
    i: int,
    k: int,
    uid: Seq<char>,
)
    requires
        todos.dom().finite(),
        state.dom().finite(),
        fresh_names(replies, rows, state, todos),
        0 <= i < k < item_tasks::item_tasks_of(plan::planned_items(rows, state, todos)).len(),
        replies.len() == item_tasks::item_tasks_of(plan::planned_items(rows, state, todos)).len(),
    ensures
        ({
            let tasks = item_tasks::item_tasks_of(plan::planned_items(rows, state, todos));
            !touches(tasks[i], replies[i], uid) || !touches(tasks[k], replies[k], uid)
        }),
{
    lemma_is_task(rows, state, todos, i);
    lemma_is_task(rows, state, todos, k);
    plan_laws::lemma_uids_with(ItemStep::PushUpdate, rows, state, todos, uid);
    plan_laws::lemma_uids_with(ItemStep::PushDelete, rows, state, todos, uid);
    plan_laws::lemma_uids_with(ItemStep::PullNew, rows, state, todos, uid);
    plan_laws::lemma_uids_with(ItemStep::PullUpdate, rows, state, todos, uid);
    plan_laws::lemma_uids_with(ItemStep::RefreshEtag, rows, state, todos, uid);
    order::law_in_order(state.dom());
    seqs::lemma_filter_distinct(
        order::in_order(state.dom()),
        |u: Seq<char>| !todos.contains_key(u),
    );
}

/// A run over the items of one list in which the server did all that it was
/// asked for.
pub open spec fn went_well(
    rows: Seq<ItemView>,
    state: Map<Seq<char>, SyncedItemView>,
    todos: Map<Seq<char>, RemoteTodoView>,
    replies: Seq<ItemReplyView>,
) -> bool {
    let tasks = item_tasks::item_tasks_of(plan::planned_items(rows, state, todos));
    &&& state.dom().finite()
    &&& todos.dom().finite()
    &&& one_each(rows)
    &&& replies.len() == tasks.len()
    &&& forall|k: int| 0 <= k < tasks.len() ==> was_done(#[trigger] tasks[k], replies[k])
    &&& fresh_names(replies, rows, state, todos)
}

/// The one task about an item is the only one.
proof fn lemma_only_task(
    rows: Seq<ItemView>,
    state: Map<Seq<char>, SyncedItemView>,
    todos: Map<Seq<char>, RemoteTodoView>,
    replies: Seq<ItemReplyView>,
    k: int,
    uid: Seq<char>,
)
    requires
        went_well(rows, state, todos, replies),
        0 <= k < item_tasks::item_tasks_of(plan::planned_items(rows, state, todos)).len(),
        touches(
            item_tasks::item_tasks_of(plan::planned_items(rows, state, todos))[k],
            replies[k],
            uid,
        ),
    ensures
        ({
            let tasks = item_tasks::item_tasks_of(plan::planned_items(rows, state, todos));
            forall|i: int|
                0 <= i < tasks.len() && i != k ==> !touches(#[trigger] tasks[i], replies[i], uid)
        }),
{
    let tasks = item_tasks::item_tasks_of(plan::planned_items(rows, state, todos));
    assert forall|i: int| 0 <= i < tasks.len() && i != k implies !touches(
        #[trigger] tasks[i],
        replies[i],
        uid,
    ) by {
        if i < k {
            lemma_one_task(rows, state, todos, replies, i, k, uid);
        } else {
            lemma_one_task(rows, state, todos, replies, k, i, uid);
        }
    }
}

/// When the turn of a task about a known item comes, the item is as it was.
pub proof fn lemma_before_task(
    rows: Seq<ItemView>,
    state: Map<Seq<char>, SyncedItemView>,
    todos: Map<Seq<char>, RemoteTodoView>,
    replies: Seq<ItemReplyView>,
    list: Seq<char>,
    account: Seq<char>,
    k: int,
    work: ItemWork,
    uid: Seq<char>,
)
    requires
        went_well(rows, state, todos, replies),
        0 <= k < replies.len(),
        item_tasks::item_tasks_of(plan::planned_items(rows, state, todos))[k] == (
        ItemTaskView::Known { work, uid }),
    ensures
        ({
            let tasks = item_tasks::item_tasks_of(plan::planned_items(rows, state, todos));
            &&& plan::at(
                plan_laws::items_upto(tasks, replies, state, rows, todos, list, account, k),
                uid,
            ) == plan::at(state, uid)
            &&& plan::at(server_upto(tasks, replies, todos, rows, list, k), uid) == plan::at(
                todos,
                uid,
            )
        }),
{
    let tasks = item_tasks::item_tasks_of(plan::planned_items(rows, state, todos));
    lemma_only_task(rows, state, todos, replies, k, uid);
    lemma_untouched(tasks, replies, state, todos, rows, list, account, 0, k, uid);
}

/// Where no identity is carried twice, the first row of one is the last.
proof fn lemma_one_row(rows: Seq<ItemView>, i: int, uid: Seq<char>)
    requires
        one_each(rows),
        0 <= i < rows.len(),
        rows[i].uid == Some(uid),
    ensures
        plan::last_row(rows, uid) == Some(rows[i]),
        local::row_of(rows, uid) == Some(i),
{
    plan_laws::lemma_last_row(rows, uid);
    let r = plan::last_row(rows, uid)->0;
    let k = choose|k: int| 0 <= k < rows.len() && rows[k] == r;
    assert(k == i) by {
        if k < i {
            assert(rows[k].uid != rows[i].uid);
        } else if i < k {
            assert(rows[i].uid != rows[k].uid);
        }
    }
    let f = local::row_of(rows, uid)->0;
    local::lemma_first_row(rows, |i: ItemView| i.uid == Some(uid));
    assert(f == i) by {
        if f < i {
            assert(rows[f].uid != rows[i].uid);
        } else if i < f {
            assert(rows[i].uid != rows[f].uid);
        }
    }
}

/// What the state and the server hold of an item after a run that went well:
/// `base` and `there` are what they held before.
spec fn outcome(
    row: Option<ItemView>,
    base: Option<SyncedItemView>,
    there: RemoteTodoView,
    base_then: Option<SyncedItemView>,
    there_then: Option<RemoteTodoView>,
) -> bool {
    match plan::item_step(row, base, there) {
        ItemStep::PushUpdate => {
            &&& base_then is Some
            &&& there_then is Some
            &&& base_then->0.text == row->0.text
            &&& base_then->0.done == row->0.done
            &&& there_then->0.summary == row->0.text
            &&& there_then->0.done == row->0.done
            &&& there_then->0.etag == base_then->0.etag
        },
        ItemStep::PullNew | ItemStep::PullUpdate => {
            &&& base_then is Some
            &&& there_then == Some(there)
            &&& base_then->0.text == there.summary
            &&& base_then->0.done == there.done
            &&& base_then->0.etag == there.etag
        },
        ItemStep::RefreshEtag => {
            &&& there_then == Some(there)
            &&& base_then is Some
            &&& base_then->0.etag == there.etag
            &&& base_then->0.text == if base is Some {
                base->0.text
            } else {
                there.summary
            }
            &&& base_then->0.done == if base is Some {
                base->0.done
            } else {
                there.done
            }
        },
        ItemStep::PushDelete => base_then is None && there_then is None,
        ItemStep::Keep => base_then == base && there_then == Some(there),
    }
}

/// What a run that went well makes of an item of the server.
proof fn lemma_outcome(
    rows: Seq<ItemView>,
    state: Map<Seq<char>, SyncedItemView>,
    todos: Map<Seq<char>, RemoteTodoView>,
    replies: Seq<ItemReplyView>,
    list: Seq<char>,
    account: Seq<char>,
    uid: Seq<char>,
)
    requires
        went_well(rows, state, todos, replies),
        todos.contains_key(uid),
    ensures
        ({
            let tasks = item_tasks::item_tasks_of(plan::planned_items(rows, state, todos));
            let n = tasks.len() as int;
            outcome(
                plan::last_row(rows, uid),
                plan::at(state, uid),
                todos[uid],
                plan::at(
                    plan_laws::items_upto(tasks, replies, state, rows, todos, list, account, n),
                    uid,
                ),
                plan::at(server_upto(tasks, replies, todos, rows, list, n), uid),
            )
        }),
{
    let p = plan::planned_items(rows, state, todos);
    let tasks = item_tasks::item_tasks_of(p);
    let n = tasks.len() as int;
    let n2 = p.push_updates.len() + p.push_creates.len();
    let n3 = n2 + p.push_deletes.len();
    let n4 = n3 + p.pull_new.len();
    let n5 = n4 + p.pull_updates.len();
    let n6 = n5 + p.pull_deletes.len();
    let step = plan::item_step(plan::last_row(rows, uid), plan::at(state, uid), todos[uid]);
    plan_laws::lemma_uids_with(step, rows, state, todos, uid);
    plan_laws::lemma_last_row(rows, uid);
    if step == ItemStep::Keep {
        assert forall|i: int| 0 <= i < n implies !touches(#[trigger] tasks[i], replies[i], uid) by {
            lemma_is_task(rows, state, todos, i);
        }
        lemma_untouched(tasks, replies, state, todos, rows, list, account, 0, n, uid);
    } else {
        let (k, work) = match step {
            ItemStep::PushUpdate => {
                let j = choose|j: int| 0 <= j < p.push_updates.len() && p.push_updates[j] == uid;
                (j, ItemWork::Update)
            },
            ItemStep::PushDelete => {
                let j = choose|j: int| 0 <= j < p.push_deletes.len() && p.push_deletes[j] == uid;
                (n2 + j, ItemWork::Delete)
            },
            ItemStep::PullNew => {
                let j = choose|j: int| 0 <= j < p.pull_new.len() && p.pull_new[j] == uid;
                (n3 + j, ItemWork::Take)
            },
            ItemStep::PullUpdate => {
                let j = choose|j: int| 0 <= j < p.pull_updates.len() && p.pull_updates[j] == uid;
                (n4 + j, ItemWork::Take)
            },
            _ => {
                let j = choose|j: int| 0 <= j < p.refresh_etags.len() && p.refresh_etags[j] == uid;
                (n6 + j, ItemWork::Retag)
            },
        };
        assert(tasks[k] == (ItemTaskView::Known { work, uid }));
        assert(was_done(tasks[k], replies[k]));
        lemma_only_task(rows, state, todos, replies, k, uid);
        lemma_touched_once(tasks, replies, state, todos, rows, list, account, k, uid);
        if step == ItemStep::PushUpdate {
            let r = plan::last_row(rows, uid)->0;
            let i = choose|i: int| 0 <= i < rows.len() && rows[i] == r;
            lemma_one_row(rows, i, uid);
        }
    }
}

/// What a run that went well makes of an item that the server did not have:
/// `k` is the task that created it, if one did.
proof fn lemma_outcome_elsewhere(
    rows: Seq<ItemView>,
    state: Map<Seq<char>, SyncedItemView>,
    todos: Map<Seq<char>, RemoteTodoView>,
    replies: Seq<ItemReplyView>,
    list: Seq<char>,
    account: Seq<char>,
    uid: Seq<char>,
) -> (k: Option<int>)
    requires
        went_well(rows, state, todos, replies),
        !todos.contains_key(uid),
    ensures
        ({
            let tasks = item_tasks::item_tasks_of(plan::planned_items(rows, state, todos));
            let n = tasks.len() as int;
            let base_then = plan::at(
                plan_laws::items_upto(tasks, replies, state, rows, todos, list, account, n),
                uid,
            );
            let there_then = plan::at(server_upto(tasks, replies, todos, rows, list, n), uid);
            match k {
                None => base_then is None && there_then is None && forall|i: int|
                    0 <= i < n ==> !((#[trigger] tasks[i]) is Create && replies[i]->Created_uid
                        == uid),
                Some(k) => {
                    &&& 0 <= k < n
                    &&& tasks[k] is Create
                    &&& replies[k]->Created_uid == uid
                    &&& base_then is Some
                    &&& there_then is Some
                    &&& base_then->0.text == tasks[k]->text
                    &&& base_then->0.done == tasks[k]->done
                    &&& there_then->0.summary == tasks[k]->text
                    &&& there_then->0.done == tasks[k]->done
                    &&& there_then->0.etag == base_then->0.etag
                },
            }
        }),
{
    let p = plan::planned_items(rows, state, todos);
    let tasks = item_tasks::item_tasks_of(p);
    let n = tasks.len() as int;
    if state.contains_key(uid) {
        order::law_in_order(state.dom());
        let ids = order::in_order(state.dom());
        assert(ids.contains(uid) == ids.to_set().contains(uid));
        seqs::lemma_filter_contains(ids, |u: Seq<char>| !todos.contains_key(u), uid);
        let j = choose|j: int| 0 <= j < p.pull_deletes.len() && p.pull_deletes[j] == uid;
        let k = p.push_updates.len() + p.push_creates.len() + p.push_deletes.len()
            + p.pull_new.len() + p.pull_updates.len() + j;
        assert(tasks[k] == (ItemTaskView::Known { work: ItemWork::Forget, uid }));
        lemma_only_task(rows, state, todos, replies, k, uid);
        lemma_touched_once(tasks, replies, state, todos, rows, list, account, k, uid);
        assert forall|i: int| 0 <= i < n implies !((#[trigger] tasks[i]) is Create
            && replies[i]->Created_uid == uid) by {
            if tasks[i] is Create {
                assert(was_done(tasks[i], replies[i]));
            }
        }
        None
    } else if exists|k: int|
        0 <= k < n && touches(#[trigger] tasks[k], replies[k], uid) {
        let k = choose|k: int| 0 <= k < n && touches(#[trigger] tasks[k], replies[k], uid);
        lemma_is_task(rows, state, todos, k);
        lemma_only_task(rows, state, todos, replies, k, uid);
        lemma_touched_once(tasks, replies, state, todos, rows, list, account, k, uid);
        Some(k)
    } else {
        lemma_untouched(tasks, replies, state, todos, rows, list, account, 0, n, uid);
        assert forall|i: int| 0 <= i < n implies !((#[trigger] tasks[i]) is Create
            && replies[i]->Created_uid == uid) by {
            if tasks[i] is Create {
                assert(was_done(tasks[i], replies[i]));
                assert(!touches(tasks[i], replies[i], uid));
            }
        }
        None
    }
}

/// What the state and the server hold stays finite.
proof fn lemma_finite(
    tasks: Seq<ItemTaskView>,
    replies: Seq<ItemReplyView>,
    items: Map<Seq<char>, SyncedItemView>,
    todos: Map<Seq<char>, RemoteTodoView>,
    rows: Seq<ItemView>,
    list: Seq<char>,
    account: Seq<char>,
    k: int,
)
    requires
        items.dom().finite(),
        todos.dom().finite(),
    ensures
        plan_laws::items_upto(
            tasks,
            replies,
            items,
            rows,
            todos,
            list,
            account,
            k,
        ).dom().finite(),
        server_upto(tasks, replies, todos, rows, list, k).dom().finite(),
    decreases k,
{
    if k > 0 {
        lemma_finite(tasks, replies, items, todos, rows, list, account, k - 1);
    }
}

/// What was created, and how the server calls it.
proof fn lemma_created(
    rows: Seq<ItemView>,
    state: Map<Seq<char>, SyncedItemView>,
    todos: Map<Seq<char>, RemoteTodoView>,
    replies: Seq<ItemReplyView>,
    k: int,
)
    requires
        went_well(rows, state, todos, replies),
        0 <= k <= replies.len(),
    ensures
        ({
            let p = plan::planned_items(rows, state, todos);
            let made = created_upto(item_tasks::item_tasks_of(p), replies, k);
            let n1 = p.push_updates.len() as int;
            let n2 = n1 + p.push_creates.len();
            &&& made.len() == if k < n1 {
                0
            } else if k < n2 {
                k - n1
            } else {
                n2 - n1
            }
            &&& forall|j: int|
                0 <= j < made.len() ==> #[trigger] made[j] == (
                    p.push_creates[j].0,
                    p.push_creates[j].2,
                    replies[n1 + j]->Created_uid,
                )
        }),
    decreases k,
{
    if k > 0 {
        let p = plan::planned_items(rows, state, todos);
        let tasks = item_tasks::item_tasks_of(p);
        lemma_created(rows, state, todos, replies, k - 1);
        lemma_is_task(rows, state, todos, k - 1);
        assert(was_done(tasks[k - 1], replies[k - 1]));
        let n1 = p.push_updates.len() as int;
        let n2 = n1 + p.push_creates.len();
        if n1 <= k - 1 < n2 {
            let c = p.push_creates[k - 1 - n1];
            assert(tasks[k - 1] == (ItemTaskView::Create { text: c.0, done: c.1, stale: c.2 }));
        }
    }
}

// ── The rows ──────────────────────────────────────────────────────────────

/// How many of the elements before one a filter that maps keeps.
pub open spec fn rank<A, B>(s: Seq<A>, f: spec_fn(A) -> Option<B>, i: int) -> int {
    s.take(i).filter_map(f).len() as int
}

/// What a filter that maps holds of a part, it holds of more in the same
/// places.
proof fn lemma_filter_map_prefix<A, B>(s: Seq<A>, f: spec_fn(A) -> Option<B>, i: int, j: int)
    requires
        0 <= i <= j <= s.len(),
    ensures
        rank(s, f, i) <= rank(s, f, j),
        forall|k: int|
            0 <= k < rank(s, f, i) ==> s.take(i).filter_map(f)[k] == #[trigger] s.take(
                j,
            ).filter_map(f)[k],
    decreases j - i,
{
    if i < j {
        lemma_filter_map_prefix(s, f, i, j - 1);
        seqs::lemma_filter_map_take(s, f, j - 1);
    }
}

/// An element that is kept stands where those before it leave off.
pub proof fn lemma_rank<A, B>(s: Seq<A>, f: spec_fn(A) -> Option<B>, i: int)
    requires
        0 <= i < s.len(),
        f(s[i]) is Some,
    ensures
        0 <= rank(s, f, i) < s.filter_map(f).len(),
        s.filter_map(f)[rank(s, f, i)] == f(s[i])->0,
        forall|j: int| i < j < s.len() ==> rank(s, f, i) < #[trigger] rank(s, f, j),
{
    let n = s.len() as int;
    seqs::lemma_filter_map_take(s, f, i);
    lemma_filter_map_prefix(s, f, i + 1, n);
    assert(s.take(n) =~= s);
    assert(s.take(i + 1).filter_map(f)[rank(s, f, i)] == f(s[i])->0);
    assert forall|j: int| i < j < s.len() implies rank(s, f, i) < #[trigger] rank(s, f, j) by {
        lemma_filter_map_prefix(s, f, i + 1, j);
    }
}

/// What a filter that maps holds comes from the element of that rank.
pub proof fn lemma_source<A, B>(s: Seq<A>, f: spec_fn(A) -> Option<B>, k: int) -> (i: int)
    requires
        0 <= k < s.filter_map(f).len(),
    ensures
        0 <= i < s.len(),
        f(s[i]) == Some(s.filter_map(f)[k]),
        rank(s, f, i) == k,
    decreases s.len(),
{
    reveal(Seq::filter_map);
    let t = s.drop_last();
    let n = t.len() as int;
    assert(s.take(n) =~= t);
    if k < t.filter_map(f).len() {
        let i = lemma_source(t, f, k);
        assert(t.take(i) =~= s.take(i));
        assert(s[i] == t[i]);
        assert(s.filter_map(f)[k] == t.filter_map(f)[k]);
        i
    } else {
        n
    }
}

/// A filter that maps does not see what another leaves out, where it would
/// leave it out too.
proof fn lemma_filter_then_map<A, B>(
    s: Seq<A>,
    q: spec_fn(A) -> bool,
    f: spec_fn(A) -> Option<B>,
)
    requires
        forall|i: int| 0 <= i < s.len() && !q(#[trigger] s[i]) ==> f(s[i]) is None,
    ensures
        s.filter(q).filter_map(f) == s.filter_map(f),
    decreases s.len(),
{
    reveal(Seq::filter);
    reveal(Seq::filter_map);
    if s.len() > 0 {
        let t = s.drop_last();
        assert forall|i: int| 0 <= i < t.len() && !q(#[trigger] t[i]) implies f(t[i]) is None by {
            assert(t[i] == s[i]);
        }
        lemma_filter_then_map(t, q, f);
        assert(s[s.len() - 1] == s.last());
        if q(s.last()) {
            assert(t.filter(q).push(s.last()).drop_last() =~= t.filter(q));
        }
    }
}

/// A filter that maps makes the same of what it cannot tell apart.
proof fn lemma_filter_map_same<A, B>(s: Seq<A>, t: Seq<A>, f: spec_fn(A) -> Option<B>)
    requires
        s.len() == t.len(),
        forall|i: int| 0 <= i < s.len() ==> f(#[trigger] s[i]) == f(t[i]),
    ensures
        s.filter_map(f) == t.filter_map(f),
    decreases s.len(),
{
    reveal(Seq::filter_map);
    if s.len() > 0 {
        let n = s.len() - 1;
        assert forall|i: int| 0 <= i < n implies f(#[trigger] s.drop_last()[i]) == f(
            t.drop_last()[i],
        ) by {
            assert(s[i] == s.drop_last()[i]);
        }
        lemma_filter_map_same(s.drop_last(), t.drop_last(), f);
        assert(f(s[n]) == f(t[n]));
    }
}

/// A filter keeps the rows apart.
proof fn lemma_filter_one_each(rows: Seq<ItemView>, q: spec_fn(ItemView) -> bool)
    requires
        one_each(rows),
    ensures
        one_each(rows.filter(q)),
    decreases rows.len(),
{
    reveal(Seq::filter);
    if rows.len() > 0 {
        let t = rows.drop_last();
        assert forall|i: int, j: int|
            0 <= i < j < t.len() && (#[trigger] t[i]).uid is Some implies t[i].uid != (
        #[trigger] t[j]).uid by {
            assert(rows[i] == t[i] && rows[j] == t[j]);
        }
        lemma_filter_one_each(t, q);
        let k = t.filter(q);
        if q(rows.last()) {
            let r = k.push(rows.last());
            assert forall|i: int, j: int|
                0 <= i < j < r.len() && (#[trigger] r[i]).uid is Some implies r[i].uid != (
            #[trigger] r[j]).uid by {
                if j == k.len() {
                    assert(k.contains(k[i]));
                    seqs::lemma_filter_contains(t, q, k[i]);
                    let m = choose|m: int| 0 <= m < t.len() && t[m] == k[i];
                    assert(rows[m] == t[m]);
                    assert(rows[rows.len() - 1] == rows.last());
                } else {
                    assert(k[i] == r[i] && k[j] == r[j]);
                }
            }
        }
    }
}

/// A row as the server has it, where it is one of those that are taken.
pub open spec fn taken(
    row: ItemView,
    uids: Seq<Seq<char>>,
    todos: Map<Seq<char>, RemoteTodoView>,
) -> ItemView {
    if row.uid is Some && uids.contains(row.uid->0) {
        ItemView { text: todos[row.uid->0].summary, done: todos[row.uid->0].done, ..row }
    } else {
        row
    }
}

proof fn lemma_take_updates(
    rows: Seq<ItemView>,
    uids: Seq<Seq<char>>,
    todos: Map<Seq<char>, RemoteTodoView>,
)
    requires
        one_each(rows),
    ensures
        local::take_updates(rows, uids, todos) == rows.map_values(
            |row: ItemView| taken(row, uids, todos),
        ),
    decreases uids.len(),
{
    if uids.len() == 0 {
        assert(rows.map_values(|row: ItemView| taken(row, uids, todos)) =~= rows);
    } else {
        let rest = uids.drop_last();
        let uid = uids.last();
        lemma_take_updates(rows, rest, todos);
        let had = local::take_updates(rows, rest, todos);
        local::lemma_first_row(had, |i: ItemView| i.uid == Some(uid));
        assert forall|u: Seq<char>| uids.contains(u) == (rest.contains(u) || u == uid) by {
            if uids.contains(u) {
                let i = choose|i: int| 0 <= i < uids.len() && uids[i] == u;
                if i < rest.len() {
                    assert(rest[i] == u);
                }
            }
            if rest.contains(u) {
                let i = choose|i: int| 0 <= i < rest.len() && rest[i] == u;
                assert(uids[i] == u);
            }
            assert(uids[uids.len() - 1] == uid);
        }
        let want = rows.map_values(|row: ItemView| taken(row, uids, todos));
        let got = local::take_updates(rows, uids, todos);
        assert forall|i: int| 0 <= i < rows.len() implies got[i] == want[i] by {
            if local::row_of(had, uid) is Some {
                let k = local::row_of(had, uid)->0;
                assert(had[k].uid == rows[k].uid);
                if rows[i].uid == Some(uid) && i != k {
                    if i < k {
                        assert(rows[i].uid != rows[k].uid);
                    } else {
                        assert(rows[k].uid != rows[i].uid);
                    }
                }
            } else {
                assert(had[i].uid != Some(uid));
            }
        }
        assert(got =~= want);
    }
}

/// The rows, the first `n` of those that were created with their new
/// identities.
pub open spec fn marked(
    rows: Seq<ItemView>,
    f: spec_fn(ItemView) -> Option<(Seq<char>, bool, Option<Seq<char>>)>,
    created: Seq<(Seq<char>, Option<Seq<char>>, Seq<char>)>,
    n: int,
) -> Seq<ItemView> {
    Seq::new(
        rows.len(),
        |i: int|
            if f(rows[i]) is Some && rank(rows, f, i) < n {
                ItemView { uid: Some(created[rank(rows, f, i)].2), ..rows[i] }
            } else {
                rows[i]
            },
    )
}

/// Each row that was created gets its own new identity, though another has the
/// same text.
pub proof fn lemma_marked(
    rows: Seq<ItemView>,
    state: Map<Seq<char>, SyncedItemView>,
    todos: Map<Seq<char>, RemoteTodoView>,
    created: Seq<(Seq<char>, Option<Seq<char>>, Seq<char>)>,
    n: int,
)
    requires
        one_each(rows),
        0 <= n <= created.len(),
        ({
            let c = rows.filter_map(|row: ItemView| plan::row_create(row, state, todos));
            &&& created.len() == c.len()
            &&& forall|j: int|
                0 <= j < c.len() ==> (#[trigger] created[j]).0 == c[j].0 && created[j].1 == c[j].2
        }),
        forall|j: int, i: int|
            0 <= j < created.len() && 0 <= i < rows.len() ==> (#[trigger] rows[i]).uid != Some(
                (#[trigger] created[j]).2,
            ),
    ensures
        local::annotate_all(rows, created.take(n), Seq::empty()) == marked(
            rows,
            |row: ItemView| plan::row_create(row, state, todos),
            created,
            n,
        ),
    decreases n,
{
    let f = |row: ItemView| plan::row_create(row, state, todos);
    let c = rows.filter_map(f);
    let none = Seq::<(Seq<char>, Seq<char>)>::empty();
    if n == 0 {
        assert(created.take(0) =~= Seq::empty());
        assert(marked(rows, f, created, 0) =~= rows);
    } else {
        let j = n - 1;
        lemma_marked(rows, state, todos, created, j);
        assert(created.take(n).drop_last() =~= created.take(j));
        assert(created.take(n).last() == created[j]);
        let had = marked(rows, f, created, j);
        let made = created[j];
        let at = lemma_source(rows, f, j);
        assert(c[j] == (rows[at].text, rows[at].done, rows[at].uid));
        assert(had[at] == rows[at]);
        if let Some(u) = made.1 {
            let q = |i: ItemView| i.uid == Some(u);
            local::lemma_first_row(had, q);
            assert(q(had[at]));
            let k = local::row_of(had, u)->0;
            if k != at {
                if had[k] == rows[k] {
                    if k < at {
                        assert(rows[k].uid != rows[at].uid);
                    } else {
                        assert(rows[at].uid != rows[k].uid);
                    }
                } else {
                    let m = rank(rows, f, k);
                    assert(rows[at].uid != Some(created[m].2));
                }
            }
            assert(local::created_row(had, made, none) == Some(at));
        } else {
            let q = |i: ItemView| i.uid is None && i.text == made.0;
            local::lemma_first_row(had, q);
            assert(q(had[at]));
            let k = local::plain_row(had, made.0)->0;
            if k < at {
                assert(had[k] == rows[k]);
                assert(f(rows[k]) is Some);
                lemma_rank(rows, f, k);
            }
            assert(local::created_row(had, made, none) == Some(at));
        }
        let want = marked(rows, f, created, n);
        let got = local::annotate(had, made, none);
        assert forall|i: int| 0 <= i < rows.len() implies got[i] == want[i] by {
            if f(rows[i]) is Some && i != at {
                lemma_rank(rows, f, i);
                lemma_rank(rows, f, at);
                if i < at {
                    assert(rank(rows, f, i) < rank(rows, f, at));
                } else {
                    assert(rank(rows, f, at) < rank(rows, f, i));
                }
            }
        }
        assert(got =~= want);
    }
}

/// A row after a run that went well: one of the rows before it, one that was
/// created, or a new one.
spec fn row_then(
    row: ItemView,
    rows: Seq<ItemView>,
    plan: PlanView,
    todos: Map<Seq<char>, RemoteTodoView>,
    made: Seq<(Seq<char>, Option<Seq<char>>, Seq<char>)>,
) -> bool {
    ||| exists|m: int|
        {
            &&& 0 <= m < rows.len()
            &&& (#[trigger] rows[m]).uid is Some
            &&& todos.contains_key(rows[m].uid->0)
            &&& row == taken(rows[m], plan.pull_updates, todos)
        }
    ||| exists|j: int|
        {
            &&& 0 <= j < made.len()
            &&& row == ItemView {
                text: plan.push_creates[j].0,
                done: plan.push_creates[j].1,
                uid: Some((#[trigger] made[j]).2),
            }
        }
    ||| exists|j: int|
        {
            &&& 0 <= j < plan.pull_new.len()
            &&& row == local::new_rows(plan.pull_new, todos)[j]
            &&& row.uid == Some(#[trigger] plan.pull_new[j])
        }
}

/// What the rows after a run that went well are made of: `kept` are those that
/// stay, `fresh` the same as the server has them.
proof fn lemma_rows_known(
    rows: Seq<ItemView>,
    state: Map<Seq<char>, SyncedItemView>,
    todos: Map<Seq<char>, RemoteTodoView>,
    replies: Seq<ItemReplyView>,
    kept: Seq<ItemView>,
    fresh: Seq<ItemView>,
    made: Seq<(Seq<char>, Option<Seq<char>>, Seq<char>)>,
)
    requires
        went_well(rows, state, todos, replies),
        ({
            let p = plan::planned_items(rows, state, todos);
            let n1 = p.push_updates.len() as int;
            &&& kept == rows.filter(
                |i: ItemView| i.uid is None || !p.pull_deletes.contains(i.uid->0),
            )
            &&& fresh == kept.map_values(|row: ItemView| taken(row, p.pull_updates, todos))
            &&& fresh.filter_map(|row: ItemView| plan::row_create(row, state, todos))
                == p.push_creates
            &&& made.len() == p.push_creates.len()
            &&& forall|j: int|
                0 <= j < made.len() ==> #[trigger] made[j] == (
                    p.push_creates[j].0,
                    p.push_creates[j].2,
                    replies[n1 + j]->Created_uid,
                )
            &&& forall|u: Seq<char>| #[trigger]
                p.pull_deletes.contains(u) == (state.contains_key(u) && !todos.contains_key(u))
        }),
        one_each(fresh),
    ensures
        ({
            let p = plan::planned_items(rows, state, todos);
            let f = |row: ItemView| plan::row_create(row, state, todos);
            let then = marked(fresh, f, made, made.len() as int) + local::new_rows(
                p.pull_new,
                todos,
            );
            &&& forall|i: int|
                0 <= i < then.len() ==> row_then(#[trigger] then[i], rows, p, todos, made)
            &&& forall|m: int|
                0 <= m < rows.len() && (#[trigger] rows[m]).uid is Some && todos.contains_key(
                    rows[m].uid->0,
                ) ==> then.contains(taken(rows[m], p.pull_updates, todos))
            &&& forall|j: int|
                0 <= j < made.len() ==> then.contains(
                    (ItemView {
                        text: p.push_creates[j].0,
                        done: p.push_creates[j].1,
                        uid: Some((#[trigger] made[j]).2),
                    }),
                )
            &&& forall|j: int|
                0 <= j < p.pull_new.len() ==> then.contains(
                    #[trigger] local::new_rows(p.pull_new, todos)[j],
                )
        }),
{
    let p = plan::planned_items(rows, state, todos);
    let f = |row: ItemView| plan::row_create(row, state, todos);
    let stays = |i: ItemView| i.uid is None || !p.pull_deletes.contains(i.uid->0);
    let done = marked(fresh, f, made, made.len() as int);
    let added = local::new_rows(p.pull_new, todos);
    let then = done + added;
    assert forall|i: int| 0 <= i < then.len() implies row_then(
        #[trigger] then[i],
        rows,
        p,
        todos,
        made,
    ) by {
        if i < done.len() {
            if f(fresh[i]) is Some {
                lemma_rank(fresh, f, i);
                let j = rank(fresh, f, i);
                assert(p.push_creates[j] == f(fresh[i])->0);
                assert(then[i] == done[i]);
                assert(then[i].uid == Some(made[j].2));
            } else {
                assert(kept.contains(kept[i]));
                seqs::lemma_filter_contains(rows, stays, kept[i]);
                let m = choose|m: int| 0 <= m < rows.len() && rows[m] == kept[i];
                assert(then[i] == fresh[i]);
                assert(fresh[i] == taken(rows[m], p.pull_updates, todos));
                assert(rows[m].uid is Some);
                assert(p.pull_deletes.contains(rows[m].uid->0) == (state.contains_key(
                    rows[m].uid->0,
                ) && !todos.contains_key(rows[m].uid->0)));
            }
        } else {
            let j = i - done.len();
            assert(then[i] == added[j]);
            assert(added[j].uid == Some(p.pull_new[j]));
        }
    }
    assert forall|m: int|
        0 <= m < rows.len() && (#[trigger] rows[m]).uid is Some && todos.contains_key(
            rows[m].uid->0,
        ) implies then.contains(taken(rows[m], p.pull_updates, todos)) by {
        assert(stays(rows[m]));
        seqs::lemma_filter_contains(rows, stays, rows[m]);
        assert(rows.contains(rows[m]));
        let i = choose|i: int| 0 <= i < kept.len() && kept[i] == rows[m];
        assert(fresh[i] == taken(rows[m], p.pull_updates, todos));
        assert(f(fresh[i]) is None);
        assert(then[i] == fresh[i]);
    }
    assert forall|j: int| 0 <= j < made.len() implies then.contains(
        (ItemView {
            text: p.push_creates[j].0,
            done: p.push_creates[j].1,
            uid: Some((#[trigger] made[j]).2),
        }),
    ) by {
        let i = lemma_source(fresh, f, j);
        assert(then[i] == done[i]);
    }
    assert forall|j: int| 0 <= j < p.pull_new.len() implies then.contains(
        #[trigger] added[j],
    ) by {
        assert(then[done.len() + j] == added[j]);
    }
}

/// No identity is carried by two rows after a run that went well.
proof fn lemma_one_each_then(
    rows: Seq<ItemView>,
    state: Map<Seq<char>, SyncedItemView>,
    todos: Map<Seq<char>, RemoteTodoView>,
    replies: Seq<ItemReplyView>,
    fresh: Seq<ItemView>,
    made: Seq<(Seq<char>, Option<Seq<char>>, Seq<char>)>,
)
    requires
        went_well(rows, state, todos, replies),
        ({
            let p = plan::planned_items(rows, state, todos);
            let n1 = p.push_updates.len() as int;
            &&& fresh.filter_map(|row: ItemView| plan::row_create(row, state, todos))
                == p.push_creates
            &&& made.len() == p.push_creates.len()
            &&& forall|j: int|
                0 <= j < made.len() ==> #[trigger] made[j] == (
                    p.push_creates[j].0,
                    p.push_creates[j].2,
                    replies[n1 + j]->Created_uid,
                )
        }),
        one_each(fresh),
        forall|i: int|
            0 <= i < fresh.len() && (#[trigger] fresh[i]).uid is Some ==> plan::last_row(
                rows,
                fresh[i].uid->0,
            ) is Some,
    ensures
        ({
            let p = plan::planned_items(rows, state, todos);
            let f = |row: ItemView| plan::row_create(row, state, todos);
            one_each(
                marked(fresh, f, made, made.len() as int) + local::new_rows(p.pull_new, todos),
            )
        }),
{
    let p = plan::planned_items(rows, state, todos);
    let tasks = item_tasks::item_tasks_of(p);
    let n1 = p.push_updates.len() as int;
    let f = |row: ItemView| plan::row_create(row, state, todos);
    let done = marked(fresh, f, made, made.len() as int);
    let added = local::new_rows(p.pull_new, todos);
    let then = done + added;
    assert forall|j: int| 0 <= j < made.len() implies replies[n1 + j] is Created && (
    #[trigger] made[j]).2 == replies[n1 + j]->Created_uid by {
        lemma_is_task(rows, state, todos, n1 + j);
        assert(was_done(tasks[n1 + j], replies[n1 + j]));
    }
    // What kind of identity a row has.
    assert forall|i: int| 0 <= i < fresh.len() && f(#[trigger] fresh[i]) is Some implies ({
        let j = rank(fresh, f, i);
        &&& 0 <= j < made.len()
        &&& done[i].uid == Some(replies[n1 + j]->Created_uid)
        &&& replies[n1 + j] is Created
    }) by {
        lemma_rank(fresh, f, i);
    }
    assert forall|i: int, j: int|
        0 <= i < j < then.len() && (#[trigger] then[i]).uid is Some implies then[i].uid != (
    #[trigger] then[j]).uid by {
        if j < done.len() {
            if f(fresh[i]) is Some && f(fresh[j]) is Some {
                lemma_rank(fresh, f, i);
                let a = rank(fresh, f, i);
                let b = rank(fresh, f, j);
                assert(a < b);
                assert(replies[n1 + a]->Created_uid != replies[n1 + b]->Created_uid);
            } else if f(fresh[i]) is Some {
                lemma_not_fresh(rows, state, todos, replies, n1 + rank(fresh, f, i), fresh[j]);
            } else if f(fresh[j]) is Some {
                lemma_not_fresh(rows, state, todos, replies, n1 + rank(fresh, f, j), fresh[i]);
            } else {
                assert(fresh[i].uid != fresh[j].uid);
            }
        } else {
            let b = j - done.len();
            let uid = p.pull_new[b];
            assert(then[j].uid == Some(uid));
            assert(p.pull_new.contains(uid));
            plan_laws::lemma_uids_with(ItemStep::PullNew, rows, state, todos, uid);
            if i < done.len() {
                if f(fresh[i]) is Some {
                    let a = rank(fresh, f, i);
                    assert(!todos.contains_key(replies[n1 + a]->Created_uid));
                } else {
                    assert(done[i] == fresh[i]);
                }
            } else {
                let a = i - done.len();
                assert(then[i].uid == Some(p.pull_new[a]));
                assert(p.pull_new[a] != p.pull_new[b]);
            }
        }
    }
}

/// A row that was there carries no identity that the server gave.
proof fn lemma_not_fresh(
    rows: Seq<ItemView>,
    state: Map<Seq<char>, SyncedItemView>,
    todos: Map<Seq<char>, RemoteTodoView>,
    replies: Seq<ItemReplyView>,
    k: int,
    row: ItemView,
)
    requires
        went_well(rows, state, todos, replies),
        0 <= k < replies.len(),
        replies[k] is Created,
        row.uid is Some ==> plan::last_row(rows, row.uid->0) is Some,
    ensures
        row.uid != Some(replies[k]->Created_uid),
{
    if row.uid is Some {
        plan_laws::lemma_last_row(rows, row.uid->0);
        let i = choose|i: int| 0 <= i < rows.len() && (#[trigger] rows[i]).uid == row.uid;
        assert(rows[i].uid != Some(replies[k]->Created_uid));
    }
}

/// The rows of a run that went well once what is gone has been dropped and what
/// the server changed has been taken: those that were created are among them,
/// and none of them carries a new identity yet.
pub proof fn lemma_fresh_rows(
    rows: Seq<ItemView>,
    state: Map<Seq<char>, SyncedItemView>,
    todos: Map<Seq<char>, RemoteTodoView>,
    replies: Seq<ItemReplyView>,
)
    requires
        went_well(rows, state, todos, replies),
    ensures
        ({
            let p = plan::planned_items(rows, state, todos);
            let made = created_upto(
                item_tasks::item_tasks_of(p),
                replies,
                replies.len() as int,
            );
            let n1 = p.push_updates.len() as int;
            let kept = local::without_gone(rows, p.pull_deletes);
            let fresh = local::take_updates(kept, p.pull_updates, todos);
            &&& fresh == kept.map_values(|row: ItemView| taken(row, p.pull_updates, todos))
            &&& fresh.filter_map(|row: ItemView| plan::row_create(row, state, todos))
                == p.push_creates
            &&& one_each(fresh)
            &&& made.len() == p.push_creates.len()
            &&& n1 + made.len() <= replies.len()
            &&& forall|j: int|
                0 <= j < made.len() ==> #[trigger] made[j] == (
                    p.push_creates[j].0,
                    p.push_creates[j].2,
                    replies[n1 + j]->Created_uid,
                )
            &&& forall|k: int| n1 <= k < n1 + made.len() ==> (#[trigger] replies[k]) is Created
            &&& forall|j: int, i: int|
                0 <= j < made.len() && 0 <= i < fresh.len() ==> (#[trigger] fresh[i]).uid != Some(
                    (#[trigger] made[j]).2,
                )
            &&& forall|u: Seq<char>| #[trigger]
                p.pull_deletes.contains(u) == (state.contains_key(u) && !todos.contains_key(u))
        }),
{
    let p = plan::planned_items(rows, state, todos);
    let tasks = item_tasks::item_tasks_of(p);
    let n = replies.len() as int;
    let n1 = p.push_updates.len() as int;
    let made = created_upto(tasks, replies, n);
    lemma_created(rows, state, todos, replies, n);
    let f = |row: ItemView| plan::row_create(row, state, todos);
    // The rows that stay.
    let stays = |i: ItemView| i.uid is None || !p.pull_deletes.contains(i.uid->0);
    let kept = rows.filter(stays);
    assert(kept == local::without_gone(rows, p.pull_deletes));
    lemma_filter_one_each(rows, stays);
    order::law_in_order(state.dom());
    let ids = order::in_order(state.dom());
    let lost = |u: Seq<char>| !todos.contains_key(u);
    assert forall|u: Seq<char>| #[trigger]
        p.pull_deletes.contains(u) == (state.contains_key(u) && !todos.contains_key(u)) by {
        seqs::lemma_filter_contains(ids, lost, u);
        assert(ids.contains(u) == ids.to_set().contains(u));
    }
    assert forall|i: int| 0 <= i < rows.len() && !stays(#[trigger] rows[i]) implies f(
        rows[i],
    ) is None by {
        assert(p.pull_deletes.contains(rows[i].uid->0));
    }
    lemma_filter_then_map(rows, stays, f);
    // Those of them that the server changed.
    let fresh = local::take_updates(kept, p.pull_updates, todos);
    lemma_take_updates(kept, p.pull_updates, todos);
    assert forall|i: int| 0 <= i < kept.len() implies f(#[trigger] kept[i]) == f(fresh[i]) by {
        if kept[i].uid is Some && p.pull_updates.contains(kept[i].uid->0) {
            plan_laws::lemma_uids_with(
                ItemStep::PullUpdate,
                rows,
                state,
                todos,
                kept[i].uid->0,
            );
        }
    }
    lemma_filter_map_same(kept, fresh, f);
    assert(fresh.filter_map(f) == p.push_creates);
    assert forall|i: int, j: int|
        0 <= i < j < fresh.len() && (#[trigger] fresh[i]).uid is Some implies fresh[i].uid != (
    #[trigger] fresh[j]).uid by {
        assert(kept[i].uid != kept[j].uid);
    }
    // Those that were created.
    assert forall|j: int, i: int|
        0 <= j < made.len() && 0 <= i < fresh.len() implies (#[trigger] fresh[i]).uid != Some(
        (#[trigger] made[j]).2,
    ) by {
        assert(fresh[i].uid == kept[i].uid);
        assert(kept.contains(kept[i]));
        seqs::lemma_filter_contains(rows, stays, kept[i]);
        let m = choose|m: int| 0 <= m < rows.len() && rows[m] == kept[i];
        lemma_is_task(rows, state, todos, n1 + j);
        assert(was_done(tasks[n1 + j], replies[n1 + j]));
        assert(rows[m].uid != Some(replies[n1 + j]->Created_uid));
    }
    assert forall|k: int| n1 <= k < n1 + made.len() implies (
    #[trigger] replies[k]) is Created by {
        let c = p.push_creates[k - n1];
        assert(tasks[k] == (ItemTaskView::Create { text: c.0, done: c.1, stale: c.2 }));
        assert(was_done(tasks[k], replies[k]));
    }
}

/// The rows after a run that went well.
proof fn lemma_rows_then(
    rows: Seq<ItemView>,
    state: Map<Seq<char>, SyncedItemView>,
    todos: Map<Seq<char>, RemoteTodoView>,
    replies: Seq<ItemReplyView>,
)
    requires
        went_well(rows, state, todos, replies),
    ensures
        ({
            let p = plan::planned_items(rows, state, todos);
            let made = created_upto(
                item_tasks::item_tasks_of(p),
                replies,
                replies.len() as int,
            );
            let then = local::applied(rows, p, todos, made, Seq::empty());
            &&& forall|i: int|
                0 <= i < then.len() ==> row_then(#[trigger] then[i], rows, p, todos, made)
            &&& forall|m: int|
                0 <= m < rows.len() && (#[trigger] rows[m]).uid is Some && todos.contains_key(
                    rows[m].uid->0,
                ) ==> then.contains(taken(rows[m], p.pull_updates, todos))
            &&& forall|j: int|
                0 <= j < made.len() ==> then.contains(
                    (ItemView {
                        text: p.push_creates[j].0,
                        done: p.push_creates[j].1,
                        uid: Some((#[trigger] made[j]).2),
                    }),
                )
            &&& forall|j: int|
                0 <= j < p.pull_new.len() ==> then.contains(
                    #[trigger] local::new_rows(p.pull_new, todos)[j],
                )
            &&& one_each(then)
        }),
{
    let p = plan::planned_items(rows, state, todos);
    let tasks = item_tasks::item_tasks_of(p);
    let n = replies.len() as int;
    let made = created_upto(tasks, replies, n);
    let stays = |i: ItemView| i.uid is None || !p.pull_deletes.contains(i.uid->0);
    let kept = rows.filter(stays);
    assert(kept == local::without_gone(rows, p.pull_deletes));
    let fresh = local::take_updates(kept, p.pull_updates, todos);
    lemma_fresh_rows(rows, state, todos, replies);
    lemma_marked(fresh, state, todos, made, made.len() as int);
    assert(made.take(made.len() as int) =~= made);
    lemma_rows_known(rows, state, todos, replies, kept, fresh, made);
    assert forall|i: int| 0 <= i < fresh.len() && (#[trigger] fresh[i]).uid is Some implies
        plan::last_row(rows, fresh[i].uid->0) is Some by {
        assert(fresh[i].uid == kept[i].uid);
        assert(kept.contains(kept[i]));
        seqs::lemma_filter_contains(rows, stays, kept[i]);
        let m = choose|m: int| 0 <= m < rows.len() && rows[m] == kept[i];
        plan_laws::lemma_last_row(rows, fresh[i].uid->0);
        assert(rows[m].uid == Some(fresh[i].uid->0));
    }
    lemma_one_each_then(rows, state, todos, replies, fresh, made);
}

/// Every row after a run that went well is that of an item of the server.
pub proof fn lemma_rows_on_server(
    rows: Seq<ItemView>,
    state: Map<Seq<char>, SyncedItemView>,
    todos: Map<Seq<char>, RemoteTodoView>,
    replies: Seq<ItemReplyView>,
    list: Seq<char>,
    account: Seq<char>,
)
    requires
        went_well(rows, state, todos, replies),
    ensures
        ({
            let p = plan::planned_items(rows, state, todos);
            let tasks = item_tasks::item_tasks_of(p);
            let n = tasks.len() as int;
            let then = local::applied(
                rows,
                p,
                todos,
                created_upto(tasks, replies, n),
                Seq::empty(),
            );
            forall|i: int|
                0 <= i < then.len() ==> (#[trigger] then[i]).uid is Some && server_upto(
                    tasks,
                    replies,
                    todos,
                    rows,
                    list,
                    n,
                ).contains_key(then[i].uid->0)
        }),
{
    let p = plan::planned_items(rows, state, todos);
    let tasks = item_tasks::item_tasks_of(p);
    let n = tasks.len() as int;
    let made = created_upto(tasks, replies, n);
    let then = local::applied(rows, p, todos, made, Seq::empty());
    lemma_rows_then(rows, state, todos, replies);
    assert forall|i: int| 0 <= i < then.len() implies (#[trigger] then[i]).uid is Some
        && server_upto(tasks, replies, todos, rows, list, n).contains_key(then[i].uid->0) by {
        assert(row_then(then[i], rows, p, todos, made));
        assert(then[i].uid is Some);
        let uid = then[i].uid->0;
        plan_laws::lemma_last_row(then, uid);
        lemma_item_settled(rows, state, todos, replies, list, account, uid);
    }
}

/// What the state holds after a run that went well, the server has.
pub proof fn lemma_state_on_server(
    rows: Seq<ItemView>,
    state: Map<Seq<char>, SyncedItemView>,
    todos: Map<Seq<char>, RemoteTodoView>,
    replies: Seq<ItemReplyView>,
    list: Seq<char>,
    account: Seq<char>,
    uid: Seq<char>,
)
    requires
        went_well(rows, state, todos, replies),
    ensures
        ({
            let tasks = item_tasks::item_tasks_of(plan::planned_items(rows, state, todos));
            let n = tasks.len() as int;
            plan_laws::items_upto(
                tasks,
                replies,
                state,
                rows,
                todos,
                list,
                account,
                n,
            ).contains_key(uid) ==> server_upto(
                tasks,
                replies,
                todos,
                rows,
                list,
                n,
            ).contains_key(uid)
        }),
{
    lemma_item_settled(rows, state, todos, replies, list, account, uid);
}

// ── The next run ──────────────────────────────────────────────────────────

/// An item on which the row, the state and the server agree after a run that
/// went well.
proof fn lemma_item_settled(
    rows: Seq<ItemView>,
    state: Map<Seq<char>, SyncedItemView>,
    todos: Map<Seq<char>, RemoteTodoView>,
    replies: Seq<ItemReplyView>,
    list: Seq<char>,
    account: Seq<char>,
    uid: Seq<char>,
)
    requires
        went_well(rows, state, todos, replies),
    ensures
        ({
            let p = plan::planned_items(rows, state, todos);
            let tasks = item_tasks::item_tasks_of(p);
            let n = tasks.len() as int;
            let made = created_upto(tasks, replies, n);
            let rows_then = local::applied(rows, p, todos, made, Seq::empty());
            let state_then = plan_laws::items_upto(
                tasks,
                replies,
                state,
                rows,
                todos,
                list,
                account,
                n,
            );
            let todos_then = server_upto(tasks, replies, todos, rows, list, n);
            &&& todos_then.contains_key(uid) ==> plan::item_step(
                plan::last_row(rows_then, uid),
                plan::at(state_then, uid),
                todos_then[uid],
            ) == ItemStep::Keep
            &&& state_then.contains_key(uid) ==> todos_then.contains_key(uid)
            &&& plan::last_row(rows_then, uid) is Some ==> todos_then.contains_key(uid)
        }),
{
    let p = plan::planned_items(rows, state, todos);
    let tasks = item_tasks::item_tasks_of(p);
    let n = tasks.len() as int;
    let n1 = p.push_updates.len() as int;
    let made = created_upto(tasks, replies, n);
    let rows_then = local::applied(rows, p, todos, made, Seq::empty());
    lemma_rows_then(rows, state, todos, replies);
    lemma_created(rows, state, todos, replies, n);
    plan_laws::lemma_last_row(rows_then, uid);
    plan_laws::lemma_last_row(rows, uid);
    if todos.contains_key(uid) {
        lemma_outcome(rows, state, todos, replies, list, account, uid);
        let step = plan::item_step(plan::last_row(rows, uid), plan::at(state, uid), todos[uid]);
        plan_laws::lemma_uids_with(ItemStep::PullUpdate, rows, state, todos, uid);
        plan_laws::lemma_uids_with(ItemStep::PullNew, rows, state, todos, uid);
        plan_laws::lemma_uids_with(ItemStep::RefreshEtag, rows, state, todos, uid);
        if let Some(r) = plan::last_row(rows, uid) {
            let m = choose|m: int| 0 <= m < rows.len() && rows[m] == r;
            assert(rows[m].uid == Some(uid));
            let t = taken(r, p.pull_updates, todos);
            let i = choose|i: int| 0 <= i < rows_then.len() && rows_then[i] == t;
            lemma_one_row(rows_then, i, uid);
        } else if step == ItemStep::PullNew {
            let j = choose|j: int| 0 <= j < p.pull_new.len() && p.pull_new[j] == uid;
            let t = local::new_rows(p.pull_new, todos)[j];
            let i = choose|i: int| 0 <= i < rows_then.len() && rows_then[i] == t;
            lemma_one_row(rows_then, i, uid);
        } else if let Some(r) = plan::last_row(rows_then, uid) {
            let i = choose|i: int| 0 <= i < rows_then.len() && rows_then[i] == r;
            assert(row_then(rows_then[i], rows, p, todos, made));
            assert forall|j: int| 0 <= j < made.len() implies (#[trigger] made[j]).2 != uid by {
                lemma_is_task(rows, state, todos, n1 + j);
                assert(was_done(tasks[n1 + j], replies[n1 + j]));
                assert(!todos.contains_key(replies[n1 + j]->Created_uid));
            }
            assert forall|j: int| 0 <= j < p.pull_new.len() implies #[trigger] p.pull_new[j]
                != uid by {
                assert(p.pull_new.contains(p.pull_new[j]));
            }
            assert(false);
        }
    } else {
        let k = lemma_outcome_elsewhere(rows, state, todos, replies, list, account, uid);
        if let Some(k) = k {
            lemma_is_task(rows, state, todos, k);
            let j = k - n1;
            let t = ItemView {
                text: p.push_creates[j].0,
                done: p.push_creates[j].1,
                uid: Some(made[j].2),
            };
            assert(rows_then.contains(t));
            let i = choose|i: int| 0 <= i < rows_then.len() && rows_then[i] == t;
            lemma_one_row(rows_then, i, uid);
        } else if let Some(r) = plan::last_row(rows_then, uid) {
            let i = choose|i: int| 0 <= i < rows_then.len() && rows_then[i] == r;
            assert(row_then(rows_then[i], rows, p, todos, made));
            assert forall|j: int| 0 <= j < made.len() implies (#[trigger] made[j]).2 != uid by {
                lemma_is_task(rows, state, todos, n1 + j);
                let c = p.push_creates[j];
                assert(tasks[n1 + j] == (ItemTaskView::Create {
                    text: c.0,
                    done: c.1,
                    stale: c.2,
                }));
            }
            assert forall|j: int| 0 <= j < p.pull_new.len() implies #[trigger] p.pull_new[j]
                != uid by {
                assert(p.pull_new.contains(p.pull_new[j]));
                plan_laws::lemma_uids_with(
                    ItemStep::PullNew,
                    rows,
                    state,
                    todos,
                    p.pull_new[j],
                );
            }
            assert(false);
        }
    }
}

/// After a run over the items of a list in which the server did all that it
/// was asked for, the next run finds nothing to do: the rows, the state and
/// the server agree. `rows` are the rows of the list, none of them moved in
/// from another list.
pub proof fn law_run_settles_items(
    rows: Seq<ItemView>,
    state: Map<Seq<char>, SyncedItemView>,
    todos: Map<Seq<char>, RemoteTodoView>,
    replies: Seq<ItemReplyView>,
    list: Seq<char>,
    account: Seq<char>,
)
    requires
        went_well(rows, state, todos, replies),
    ensures
        ({
            let p = plan::planned_items(rows, state, todos);
            let tasks = item_tasks::item_tasks_of(p);
            let n = tasks.len() as int;
            plan::planned_items(
                local::applied(rows, p, todos, created_upto(tasks, replies, n), Seq::empty()),
                plan_laws::items_upto(tasks, replies, state, rows, todos, list, account, n),
                server_upto(tasks, replies, todos, rows, list, n),
            ) == plan::idle()
        }),
{
    let p = plan::planned_items(rows, state, todos);
    let tasks = item_tasks::item_tasks_of(p);
    let n = tasks.len() as int;
    let made = created_upto(tasks, replies, n);
    let rows_then = local::applied(rows, p, todos, made, Seq::empty());
    let state_then = plan_laws::items_upto(tasks, replies, state, rows, todos, list, account, n);
    let todos_then = server_upto(tasks, replies, todos, rows, list, n);
    lemma_finite(tasks, replies, state, todos, rows, list, account, n);
    let next = plan::planned_items(rows_then, state_then, todos_then);
    assert forall|step: ItemStep| step != ItemStep::Keep implies #[trigger] plan::uids_with(
        step,
        rows_then,
        state_then,
        todos_then,
    ) == Seq::<Seq<char>>::empty() by {
        let s = plan::uids_with(step, rows_then, state_then, todos_then);
        if s.len() > 0 {
            assert(s.contains(s[0]));
            plan_laws::lemma_uids_with(step, rows_then, state_then, todos_then, s[0]);
            lemma_item_settled(rows, state, todos, replies, list, account, s[0]);
        }
        assert(s =~= Seq::<Seq<char>>::empty());
    }
    order::law_in_order(state_then.dom());
    let ids = order::in_order(state_then.dom());
    assert forall|i: int| 0 <= i < ids.len() implies todos_then.contains_key(
        #[trigger] ids[i],
    ) by {
        assert(ids.to_set().contains(ids[i]));
        lemma_item_settled(rows, state, todos, replies, list, account, ids[i]);
    }
    seqs::lemma_filter_none(ids, |uid: Seq<char>| !todos_then.contains_key(uid));
    let f = |row: ItemView| plan::row_create(row, state_then, todos_then);
    lemma_rows_on_server(rows, state, todos, replies, list, account);
    assert forall|i: int| 0 <= i < rows_then.len() implies f(#[trigger] rows_then[i]) is None by {
        assert(todos_then.contains_key(rows_then[i].uid->0));
    }
    seqs::lemma_filter_map_none(rows_then, f);
    assert(next.pull_new == plan::idle().pull_new);
}

/// After a run that went well, an item that the state knew and that no row
/// carries any more is gone from the state and from the server.
pub proof fn law_deleted_row_goes(
    rows: Seq<ItemView>,
    state: Map<Seq<char>, SyncedItemView>,
    todos: Map<Seq<char>, RemoteTodoView>,
    replies: Seq<ItemReplyView>,
    list: Seq<char>,
    account: Seq<char>,
    uid: Seq<char>,
)
    requires
        went_well(rows, state, todos, replies),
        state.contains_key(uid),
        forall|i: int| 0 <= i < rows.len() ==> (#[trigger] rows[i]).uid != Some(uid),
    ensures
        ({
            let tasks = item_tasks::item_tasks_of(plan::planned_items(rows, state, todos));
            let n = tasks.len() as int;
            &&& !plan_laws::items_upto(
                tasks,
                replies,
                state,
                rows,
                todos,
                list,
                account,
                n,
            ).contains_key(uid)
            &&& !server_upto(tasks, replies, todos, rows, list, n).contains_key(uid)
        }),
{
    plan_laws::lemma_last_row(rows, uid);
    if todos.contains_key(uid) {
        lemma_outcome(rows, state, todos, replies, list, account, uid);
    } else {
        let k = lemma_outcome_elsewhere(rows, state, todos, replies, list, account, uid);
        if let Some(k) = k {
            let tasks = item_tasks::item_tasks_of(plan::planned_items(rows, state, todos));
            assert(was_done(tasks[k], replies[k]));
        }
    }
}

/// After a run that went well, a row that was to be created carries an
/// identity under which the server has it as it is.
pub proof fn law_new_row_arrives(
    rows: Seq<ItemView>,
    state: Map<Seq<char>, SyncedItemView>,
    todos: Map<Seq<char>, RemoteTodoView>,
    replies: Seq<ItemReplyView>,
    list: Seq<char>,
    account: Seq<char>,
    i: int,
) -> (uid: Seq<char>)
    requires
        went_well(rows, state, todos, replies),
        0 <= i < rows.len(),
        plan::row_create(rows[i], state, todos) is Some,
    ensures
        ({
            let p = plan::planned_items(rows, state, todos);
            let tasks = item_tasks::item_tasks_of(p);
            let n = tasks.len() as int;
            let there = server_upto(tasks, replies, todos, rows, list, n);
            &&& local::applied(
                rows,
                p,
                todos,
                created_upto(tasks, replies, n),
                Seq::empty(),
            ).contains((ItemView { uid: Some(uid), ..rows[i] }))
            &&& there.contains_key(uid)
            &&& there[uid].summary == rows[i].text
            &&& there[uid].done == rows[i].done
            &&& plan_laws::items_upto(
                tasks,
                replies,
                state,
                rows,
                todos,
                list,
                account,
                n,
            ).contains_key(uid)
        }),
{
    let p = plan::planned_items(rows, state, todos);
    let tasks = item_tasks::item_tasks_of(p);
    let n = tasks.len() as int;
    let n1 = p.push_updates.len() as int;
    let f = |row: ItemView| plan::row_create(row, state, todos);
    lemma_rank(rows, f, i);
    let j = rank(rows, f, i);
    lemma_rows_then(rows, state, todos, replies);
    lemma_created(rows, state, todos, replies, n);
    let made = created_upto(tasks, replies, n);
    let uid = made[j].2;
    let c = p.push_creates[j];
    assert(tasks[n1 + j] == (ItemTaskView::Create { text: c.0, done: c.1, stale: c.2 }));
    assert(was_done(tasks[n1 + j], replies[n1 + j]));
    assert(!todos.contains_key(replies[n1 + j]->Created_uid));
    let k = lemma_outcome_elsewhere(rows, state, todos, replies, list, account, uid);
    if let Some(k) = k {
        lemma_only_task(rows, state, todos, replies, n1 + j, uid);
        assert(was_done(tasks[k], replies[k]));
        assert(touches(tasks[k], replies[k], uid));
        assert(k == n1 + j);
    }
    uid
}

} // verus!
