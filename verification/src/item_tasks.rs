//! The server's half of a plan for items, one task at a time: what each task
//! asks of the server, and what it and the answer do to the last synced state.
use vstd::prelude::*;

use crate::local;
use crate::map::OrdMap;
use crate::model;
use crate::model::{Item, ItemView, SyncState, SyncedItem, SyncedItemView};
use crate::outside;
use crate::plan::{Plan, PlanView};
use crate::remote::{RemoteTodo, RemoteTodoView};

verus! {

/// What is to be done about an item that has an identity.
#[derive(Clone, Copy, Debug, PartialEq, Eq, Structural)]
pub enum ItemWork {
    /// Make the server's item as the row is.
    Update,
    /// Delete the server's item.
    Delete,
    /// Record what the server has.
    Take,
    /// Track the item no more.
    Forget,
    /// Record the server's version tag.
    Retag,
}

/// One thing to be done about an item.
#[derive(Debug, PartialEq, Eq)]
pub enum ItemTask {
    /// Create an item on the server; `stale` is the identity that its row
    /// carries, if no one knows it.
    Create { text: String, done: bool, stale: Option<String> },
    /// Do something about an item that has an identity.
    Known { work: ItemWork, uid: String },
}

/// A task as plain values.
pub enum ItemTaskView {
    Create { text: Seq<char>, done: bool, stale: Option<Seq<char>> },
    Known { work: ItemWork, uid: Seq<char> },
}

impl DeepView for ItemTask {
    type V = ItemTaskView;

    open spec fn deep_view(&self) -> ItemTaskView {
        match self {
            ItemTask::Create { text, done, stale } => ItemTaskView::Create {
                text: text@,
                done: *done,
                stale: stale.deep_view(),
            },
            ItemTask::Known { work, uid } => ItemTaskView::Known { work: *work, uid: uid@ },
        }
    }
}

/// The tasks that do one thing about several items.
pub open spec fn each(work: ItemWork, uids: Seq<Seq<char>>) -> Seq<ItemTaskView> {
    uids.map_values(|uid: Seq<char>| ItemTaskView::Known { work, uid })
}

/// The tasks of a plan: what is pushed, then what is recorded.
pub open spec fn item_tasks_of(plan: PlanView) -> Seq<ItemTaskView> {
    each(ItemWork::Update, plan.push_updates) + plan.push_creates.map_values(
        |c: (Seq<char>, bool, Option<Seq<char>>)|
            ItemTaskView::Create { text: c.0, done: c.1, stale: c.2 },
    ) + each(ItemWork::Delete, plan.push_deletes) + each(ItemWork::Take, plan.pull_new) + each(
        ItemWork::Take,
        plan.pull_updates,
    ) + each(ItemWork::Forget, plan.pull_deletes) + each(ItemWork::Retag, plan.refresh_etags)
}

/// Adds the tasks that do one thing about several items.
fn add_each(out: &mut Vec<ItemTask>, work: ItemWork, uids: &Vec<String>)
    ensures
        final(out).deep_view() == old(out).deep_view() + each(work, uids.deep_view()),
{
    let ghost had = out.deep_view();
    let ghost more = each(work, uids.deep_view());
    assert(had + more.take(0) =~= had);
    for i in 0..uids.len()
        invariant
            more == each(work, uids.deep_view()),
            out.deep_view() == had + more.take(i as int),
    {
        let ghost now = out.deep_view();
        assert(uids.deep_view()[i as int] == uids@[i as int]@);
        out.push(ItemTask::Known { work, uid: uids[i].clone() });
        assert(out.deep_view() =~= now.push(more[i as int]));
        assert(out.deep_view() =~= had + more.take(i + 1));
    }
    assert(more.take(more.len() as int) =~= more);
}

/// The tasks of a plan, in the order in which they are done.
pub fn item_tasks(plan: &Plan) -> (r: Vec<ItemTask>)
    ensures
        r.deep_view() == item_tasks_of(plan.deep_view()),
{
    let ghost p = plan.deep_view();
    let mut out: Vec<ItemTask> = Vec::new();
    add_each(&mut out, ItemWork::Update, &plan.push_updates);
    let ghost first = each(ItemWork::Update, p.push_updates);
    assert(out.deep_view() =~= first);
    let ghost f = |c: (Seq<char>, bool, Option<Seq<char>>)|
        ItemTaskView::Create { text: c.0, done: c.1, stale: c.2 };
    let ghost more = p.push_creates.map_values(f);
    assert(first + more.take(0) =~= first);
    for i in 0..plan.push_creates.len()
        invariant
            p == plan.deep_view(),
            f == (|c: (Seq<char>, bool, Option<Seq<char>>)|
                ItemTaskView::Create { text: c.0, done: c.1, stale: c.2 }),
            more == p.push_creates.map_values(f),
            out.deep_view() == first + more.take(i as int),
    {
        let ghost now = out.deep_view();
        let c = &plan.push_creates[i];
        assert(p.push_creates[i as int] == c.deep_view());
        out.push(
            ItemTask::Create { text: c.0.clone(), done: c.1, stale: model::copy_opt(&c.2) },
        );
        assert(out.deep_view() =~= now.push(more[i as int]));
        assert(out.deep_view() =~= first + more.take(i + 1));
    }
    assert(more.take(more.len() as int) =~= more);
    add_each(&mut out, ItemWork::Delete, &plan.push_deletes);
    add_each(&mut out, ItemWork::Take, &plan.pull_new);
    add_each(&mut out, ItemWork::Take, &plan.pull_updates);
    add_each(&mut out, ItemWork::Forget, &plan.pull_deletes);
    add_each(&mut out, ItemWork::Retag, &plan.refresh_etags);
    out
}

// ── What is asked ─────────────────────────────────────────────────────────

/// What a task asks of the server.
#[derive(Debug)]
pub enum ItemRequest {
    /// Nothing.
    Nothing,
    /// Make an item as a row is.
    Update { todo: RemoteTodo, text: String, done: bool },
    /// Create an item.
    Create { text: String, done: bool },
    /// Delete the item at a URL.
    Delete { url: String, etag: String },
}

/// A request as plain values.
pub enum ItemRequestView {
    Nothing,
    Update { todo: RemoteTodoView, text: Seq<char>, done: bool },
    Create { text: Seq<char>, done: bool },
    Delete { url: Seq<char>, etag: Seq<char> },
}

impl DeepView for ItemRequest {
    type V = ItemRequestView;

    open spec fn deep_view(&self) -> ItemRequestView {
        match self {
            ItemRequest::Nothing => ItemRequestView::Nothing,
            ItemRequest::Update { todo, text, done } => ItemRequestView::Update {
                todo: todo.deep_view(),
                text: text@,
                done: *done,
            },
            ItemRequest::Create { text, done } => ItemRequestView::Create {
                text: text@,
                done: *done,
            },
            ItemRequest::Delete { url, etag } => ItemRequestView::Delete { url: url@, etag: etag@ },
        }
    }
}

/// What a task speaks of is there.
pub open spec fn item_task_ready(
    task: ItemTaskView,
    rows: Seq<ItemView>,
    todos: Map<Seq<char>, RemoteTodoView>,
    items: Map<Seq<char>, SyncedItemView>,
) -> bool {
    match task {
        ItemTaskView::Create { text, done, stale } => true,
        ItemTaskView::Known { work, uid } => match work {
            ItemWork::Update => todos.contains_key(uid) && local::row_of(rows, uid) is Some,
            ItemWork::Delete => items.contains_key(uid),
            ItemWork::Take => todos.contains_key(uid),
            _ => true,
        },
    }
}

/// What a task asks of the server. `parsed` is what the URL of a tracked item
/// is read as: an item is deleted at the URL that it is tracked by, and one
/// that is no URL ends the run.
pub open spec fn request_of(
    task: ItemTaskView,
    rows: Seq<ItemView>,
    todos: Map<Seq<char>, RemoteTodoView>,
    items: Map<Seq<char>, SyncedItemView>,
    parsed: Result<Seq<char>, Seq<char>>,
) -> Result<ItemRequestView, Seq<char>> {
    match task {
        ItemTaskView::Create { text, done, stale } => Ok(ItemRequestView::Create { text, done }),
        ItemTaskView::Known { work, uid } => match work {
            ItemWork::Update => {
                let row = rows[local::row_of(rows, uid)->0];
                Ok(
                    ItemRequestView::Update { todo: todos[uid], text: row.text, done: row.done },
                )
            },
            ItemWork::Delete => match parsed {
                Ok(url) => Ok(ItemRequestView::Delete { url, etag: items[uid].etag }),
                Err(e) => Err(e),
            },
            _ => Ok(ItemRequestView::Nothing),
        },
    }
}

/// What the URL of the item that a task deletes is read as.
pub open spec fn parsed_for(
    task: ItemTaskView,
    items: Map<Seq<char>, SyncedItemView>,
) -> Result<Seq<char>, Seq<char>> {
    match task {
        ItemTaskView::Known { work, uid } => outside::parsed_url(items[uid].url),
        _ => outside::parsed_url(Seq::empty()),
    }
}

/// A result over requests, as plain values.
pub open spec fn request_view(r: Result<ItemRequest, String>) -> Result<
    ItemRequestView,
    Seq<char>,
> {
    match r {
        Ok(q) => Ok(q.deep_view()),
        Err(e) => Err(e@),
    }
}

/// What a task asks of the server, given what the URL of a tracked item is
/// read as.
pub fn item_request_with(
    task: &ItemTask,
    rows: &[Item],
    todos: &OrdMap<RemoteTodo>,
    state: &SyncState,
    parsed: Result<String, String>,
) -> (r: Result<ItemRequest, String>)
    requires
        item_task_ready(task.deep_view(), rows.deep_view(), todos@, state.items@),
    ensures
        request_view(r) == request_of(
            task.deep_view(),
            rows.deep_view(),
            todos@,
            state.items@,
            outside::as_texts(parsed),
        ),
{
    match task {
        ItemTask::Create { text, done, stale } => Ok(
            ItemRequest::Create { text: text.clone(), done: *done },
        ),
        ItemTask::Known { work, uid } => match work {
            ItemWork::Update => {
                if let (Some(todo), Some(i)) = (
                    todos.get(uid.as_str()),
                    local::find_row(rows, uid.as_str()),
                ) {
                    assert(rows.deep_view()[i as int] == rows@[i as int].deep_view());
                    Ok(
                        ItemRequest::Update {
                            todo: todo.clone(),
                            text: rows[i].text.clone(),
                            done: rows[i].done,
                        },
                    )
                } else {
                    Ok(ItemRequest::Nothing)
                }
            },
            ItemWork::Delete => match parsed {
                Ok(url) => {
                    if let Some(entry) = state.items.get(uid.as_str()) {
                        Ok(ItemRequest::Delete { url, etag: entry.etag.clone() })
                    } else {
                        Ok(ItemRequest::Nothing)
                    }
                },
                Err(e) => Err(e),
            },
            _ => Ok(ItemRequest::Nothing),
        },
    }
}

/// What a task asks of the server.
pub fn item_request(
    task: &ItemTask,
    rows: &[Item],
    todos: &OrdMap<RemoteTodo>,
    state: &SyncState,
) -> (r: Result<ItemRequest, String>)
    requires
        item_task_ready(task.deep_view(), rows.deep_view(), todos@, state.items@),
    ensures
        request_view(r) == request_of(
            task.deep_view(),
            rows.deep_view(),
            todos@,
            state.items@,
            parsed_for(task.deep_view(), state.items@),
        ),
{
    let mut parsed: Result<String, String> = Ok(String::new());
    if let ItemTask::Known { work, uid } = task {
        if *work == ItemWork::Delete {
            if let Some(entry) = state.items.get(uid.as_str()) {
                parsed = outside::parse_url(entry.url.as_str());
            }
        }
    }
    item_request_with(task, rows, todos, state, parsed)
}

// ── What is answered ──────────────────────────────────────────────────────

/// What the server answered to a task.
#[derive(Debug)]
pub enum ItemReply {
    /// Nothing was asked, or it failed.
    Nothing,
    /// An item was changed.
    Updated { etag: String },
    /// An item was created.
    Created { uid: String, url: String, etag: String },
    /// An item was deleted.
    Deleted,
}

/// An answer as plain values.
pub enum ItemReplyView {
    Nothing,
    Updated { etag: Seq<char> },
    Created { uid: Seq<char>, url: Seq<char>, etag: Seq<char> },
    Deleted,
}

impl DeepView for ItemReply {
    type V = ItemReplyView;

    open spec fn deep_view(&self) -> ItemReplyView {
        match self {
            ItemReply::Nothing => ItemReplyView::Nothing,
            ItemReply::Updated { etag } => ItemReplyView::Updated { etag: etag@ },
            ItemReply::Created { uid, url, etag } => ItemReplyView::Created {
                uid: uid@,
                url: url@,
                etag: etag@,
            },
            ItemReply::Deleted => ItemReplyView::Deleted,
        }
    }
}

/// What the state holds of an item as the server has it.
pub open spec fn taken_item(
    todo: RemoteTodoView,
    list: Seq<char>,
    account: Seq<char>,
) -> SyncedItemView {
    SyncedItemView {
        url: todo.url,
        etag: todo.etag,
        account,
        text: todo.summary,
        done: todo.done,
        list,
    }
}

/// The state's items after a task. An item that is the same on both ends and
/// that the state does not know is adopted with its version tag.
pub open spec fn items_after(
    task: ItemTaskView,
    reply: ItemReplyView,
    items: Map<Seq<char>, SyncedItemView>,
    rows: Seq<ItemView>,
    todos: Map<Seq<char>, RemoteTodoView>,
    list: Seq<char>,
    account: Seq<char>,
) -> Map<Seq<char>, SyncedItemView> {
    match (task, reply) {
        (
            ItemTaskView::Create { text, done, stale },
            ItemReplyView::Created { uid, url, etag },
        ) => items.insert(uid, (SyncedItemView { url, etag, account, text, done, list })),
        (ItemTaskView::Known { work, uid }, _) => match (work, reply) {
            (ItemWork::Update, ItemReplyView::Updated { etag }) => {
                let row = rows[local::row_of(rows, uid)->0];
                items.insert(
                    uid,
                    (SyncedItemView {
                        url: todos[uid].url,
                        etag,
                        account,
                        text: row.text,
                        done: row.done,
                        list,
                    }),
                )
            },
            (ItemWork::Delete, ItemReplyView::Deleted) => items.remove(uid),
            (ItemWork::Take, _) => items.insert(uid, taken_item(todos[uid], list, account)),
            (ItemWork::Forget, _) => items.remove(uid),
            (ItemWork::Retag, _) => if !todos.contains_key(uid) {
                items
            } else if items.contains_key(uid) {
                items.insert(
                    uid,
                    (SyncedItemView { etag: todos[uid].etag, list, ..items[uid] }),
                )
            } else {
                items.insert(uid, taken_item(todos[uid], list, account))
            },
            _ => items,
        },
        _ => items,
    }
}

/// What was created on the server, after a task.
pub open spec fn created_after(
    task: ItemTaskView,
    reply: ItemReplyView,
    created: Seq<(Seq<char>, Option<Seq<char>>, Seq<char>)>,
) -> Seq<(Seq<char>, Option<Seq<char>>, Seq<char>)> {
    match (task, reply) {
        (
            ItemTaskView::Create { text, done, stale },
            ItemReplyView::Created { uid, url, etag },
        ) => created.push((text, stale, uid)),
        _ => created,
    }
}

/// What the state holds of an item as the server has it.
fn take_item(todo: &RemoteTodo, list_id: &str, email: &str) -> (r: SyncedItem)
    ensures
        r.deep_view() == taken_item(todo.deep_view(), list_id@, email@),
{
    SyncedItem {
        url: todo.url.clone(),
        etag: todo.etag.clone(),
        account: email.to_string(),
        text: todo.summary.clone(),
        done: todo.done,
        list: list_id.to_string(),
    }
}

/// Brings the state up to date after a task, given the server's answer to it,
/// and adds to `created` what was created: its text, the identity that its row
/// carried, and its new identity.
pub fn settle_item(
    task: &ItemTask,
    reply: &ItemReply,
    rows: &[Item],
    todos: &OrdMap<RemoteTodo>,
    list_id: &str,
    email: &str,
    state: &mut SyncState,
    created: &mut Vec<(String, Option<String>, String)>,
)
    requires
        item_task_ready(task.deep_view(), rows.deep_view(), todos@, old(state).items@),
    ensures
        final(state).items@ == items_after(
            task.deep_view(),
            reply.deep_view(),
            old(state).items@,
            rows.deep_view(),
            todos@,
            list_id@,
            email@,
        ),
        final(state).lists@ == old(state).lists@,
        final(created).deep_view() == created_after(
            task.deep_view(),
            reply.deep_view(),
            old(created).deep_view(),
        ),
{
    match task {
        ItemTask::Create { text, done, stale } => {
            if let ItemReply::Created { uid, url, etag } = reply {
                state.items.insert(
                    uid.clone(),
                    SyncedItem {
                        url: url.clone(),
                        etag: etag.clone(),
                        account: email.to_string(),
                        text: text.clone(),
                        done: *done,
                        list: list_id.to_string(),
                    },
                );
                let ghost had = created.deep_view();
                created.push((text.clone(), model::copy_opt(stale), uid.clone()));
                assert(created.deep_view() =~= had.push((text@, stale.deep_view(), uid@)));
            }
        },
        ItemTask::Known { work, uid } => match work {
            ItemWork::Update => {
                if let ItemReply::Updated { etag } = reply {
                    if let (Some(todo), Some(i)) = (
                        todos.get(uid.as_str()),
                        local::find_row(rows, uid.as_str()),
                    ) {
                        assert(rows.deep_view()[i as int] == rows@[i as int].deep_view());
                        state.items.insert(
                            uid.clone(),
                            SyncedItem {
                                url: todo.url.clone(),
                                etag: etag.clone(),
                                account: email.to_string(),
                                text: rows[i].text.clone(),
                                done: rows[i].done,
                                list: list_id.to_string(),
                            },
                        );
                    }
                }
            },
            ItemWork::Delete => {
                if let ItemReply::Deleted = reply {
                    state.items.remove(uid.as_str());
                }
            },
            ItemWork::Take => {
                if let Some(todo) = todos.get(uid.as_str()) {
                    state.items.insert(uid.clone(), take_item(todo, list_id, email));
                }
            },
            ItemWork::Forget => {
                state.items.remove(uid.as_str());
            },
            ItemWork::Retag => {
                if let Some(todo) = todos.get(uid.as_str()) {
                    let mut entry = match state.items.get(uid.as_str()) {
                        Some(e) => e.clone(),
                        None => take_item(todo, list_id, email),
                    };
                    entry.etag = todo.etag.clone();
                    entry.list = list_id.to_string();
                    state.items.insert(uid.clone(), entry);
                }
            },
        },
    }
}

} // verus!
