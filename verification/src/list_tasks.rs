//! Carrying out the plan for lists, one task at a time: what each task and
//! the server's answer do to the lists, to the last synced state, and to the
//! files.
use vstd::prelude::*;

use crate::map::OrdMap;
use crate::model;
use crate::model::{
    ListFile, ListFileView, SyncState, SyncedItem, SyncedItemView, SyncedList, SyncedListView,
};
use crate::paths;
use crate::paths::{FileWrite, FileWriteView};
use crate::plan::{ListPlan, ListPlanView};
use crate::remote::{RemoteList, RemoteListView};
use crate::seqs;
use crate::text;
use crate::titles;

verus! {

/// One thing to be done about a list.
#[derive(Debug, PartialEq, Eq)]
pub enum ListTask {
    /// Create a list on the server; `stale` is the identity that its file
    /// carries, if no one knows it.
    Create { title: String, stale: Option<String> },
    /// Rename a list on the server.
    Rename { id: String, title: String },
    /// Delete a list on the server.
    Delete { id: String },
    /// Rename a list's file.
    RenameFile { id: String, from: String, to: String },
    /// Delete a list's file.
    DeleteFile { id: String, title: String },
    /// Make a file for a list of the server.
    AddFile { id: String },
    /// Record what the server has of a list.
    Record { id: String },
}

/// A task as plain values.
pub enum ListTaskView {
    Create { title: Seq<char>, stale: Option<Seq<char>> },
    Rename { id: Seq<char>, title: Seq<char> },
    Delete { id: Seq<char> },
    RenameFile { id: Seq<char>, from: Seq<char>, to: Seq<char> },
    DeleteFile { id: Seq<char>, title: Seq<char> },
    AddFile { id: Seq<char> },
    Record { id: Seq<char> },
}

impl DeepView for ListTask {
    type V = ListTaskView;

    open spec fn deep_view(&self) -> ListTaskView {
        match self {
            ListTask::Create { title, stale } => ListTaskView::Create {
                title: title@,
                stale: stale.deep_view(),
            },
            ListTask::Rename { id, title } => ListTaskView::Rename { id: id@, title: title@ },
            ListTask::Delete { id } => ListTaskView::Delete { id: id@ },
            ListTask::RenameFile { id, from, to } => ListTaskView::RenameFile {
                id: id@,
                from: from@,
                to: to@,
            },
            ListTask::DeleteFile { id, title } => ListTaskView::DeleteFile {
                id: id@,
                title: title@,
            },
            ListTask::AddFile { id } => ListTaskView::AddFile { id: id@ },
            ListTask::Record { id } => ListTaskView::Record { id: id@ },
        }
    }
}

/// The tasks of a plan: the server's side first, so that what succeeded is
/// recorded before the next call, then the files.
pub open spec fn tasks_of(plan: ListPlanView) -> Seq<ListTaskView> {
    plan.push_creates.map_values(
        |c: (Seq<char>, Option<Seq<char>>)| ListTaskView::Create { title: c.0, stale: c.1 },
    ) + plan.push_renames.map_values(
        |c: (Seq<char>, Seq<char>)| ListTaskView::Rename { id: c.0, title: c.1 },
    ) + plan.push_deletes.map_values(|c: Seq<char>| ListTaskView::Delete { id: c })
        + plan.pull_renames.map_values(
        |c: (Seq<char>, Seq<char>, Seq<char>)|
            ListTaskView::RenameFile { id: c.0, from: c.1, to: c.2 },
    ) + plan.pull_deletes.map_values(
        |c: (Seq<char>, Seq<char>)| ListTaskView::DeleteFile { id: c.0, title: c.1 },
    ) + plan.pull_new.map_values(|c: Seq<char>| ListTaskView::AddFile { id: c })
        + plan.refresh.map_values(|c: Seq<char>| ListTaskView::Record { id: c })
}

/// The tasks of a plan, in the order in which they are done.
pub fn list_tasks(plan: &ListPlan) -> (r: Vec<ListTask>)
    ensures
        r.deep_view() == tasks_of(plan.deep_view()),
{
    let mut out: Vec<ListTask> = Vec::new();
    let ghost p = plan.deep_view();
    let ghost f1 = |c: (Seq<char>, Option<Seq<char>>)|
        ListTaskView::Create { title: c.0, stale: c.1 };
    let ghost s1 = p.push_creates.map_values(f1);
    for i in 0..plan.push_creates.len()
        invariant
            p == plan.deep_view(),
            s1 == p.push_creates.map_values(f1),
            f1 == (|c: (Seq<char>, Option<Seq<char>>)|
                ListTaskView::Create { title: c.0, stale: c.1 }),
            out.deep_view() == s1.take(i as int),
    {
        let ghost had = out.deep_view();
        let c = &plan.push_creates[i];
        assert(p.push_creates[i as int] == c.deep_view());
        out.push(ListTask::Create { title: c.0.clone(), stale: model::copy_opt(&c.1) });
        assert(out.deep_view() =~= had.push(s1[i as int]));
    }
    assert(out.deep_view() =~= s1);
    let ghost f2 = |c: (Seq<char>, Seq<char>)| ListTaskView::Rename { id: c.0, title: c.1 };
    let ghost s2 = p.push_renames.map_values(f2);
    assert(s1 + s2.take(0) =~= s1);
    for i in 0..plan.push_renames.len()
        invariant
            p == plan.deep_view(),
            s2 == p.push_renames.map_values(f2),
            f2 == (|c: (Seq<char>, Seq<char>)| ListTaskView::Rename { id: c.0, title: c.1 }),
            out.deep_view() == s1 + s2.take(i as int),
    {
        let ghost had = out.deep_view();
        let c = &plan.push_renames[i];
        assert(p.push_renames[i as int] == c.deep_view());
        out.push(ListTask::Rename { id: c.0.clone(), title: c.1.clone() });
        assert(out.deep_view() =~= had.push(s2[i as int]));
        assert(out.deep_view() =~= s1 + s2.take(i + 1));
    }
    let ghost d2 = s1 + s2;
    assert(out.deep_view() =~= d2);
    let ghost f3 = |c: Seq<char>| ListTaskView::Delete { id: c };
    let ghost s3 = p.push_deletes.map_values(f3);
    assert(d2 + s3.take(0) =~= d2);
    for i in 0..plan.push_deletes.len()
        invariant
            p == plan.deep_view(),
            s3 == p.push_deletes.map_values(f3),
            f3 == (|c: Seq<char>| ListTaskView::Delete { id: c }),
            out.deep_view() == d2 + s3.take(i as int),
    {
        let ghost had = out.deep_view();
        assert(p.push_deletes[i as int] == plan.push_deletes@[i as int]@);
        out.push(ListTask::Delete { id: plan.push_deletes[i].clone() });
        assert(out.deep_view() =~= had.push(s3[i as int]));
        assert(out.deep_view() =~= d2 + s3.take(i + 1));
    }
    let ghost d3 = d2 + s3;
    assert(out.deep_view() =~= d3);
    let ghost f4 = |c: (Seq<char>, Seq<char>, Seq<char>)|
        ListTaskView::RenameFile { id: c.0, from: c.1, to: c.2 };
    let ghost s4 = p.pull_renames.map_values(f4);
    assert(d3 + s4.take(0) =~= d3);
    for i in 0..plan.pull_renames.len()
        invariant
            p == plan.deep_view(),
            s4 == p.pull_renames.map_values(f4),
            f4 == (|c: (Seq<char>, Seq<char>, Seq<char>)|
                ListTaskView::RenameFile { id: c.0, from: c.1, to: c.2 }),
            out.deep_view() == d3 + s4.take(i as int),
    {
        let ghost had = out.deep_view();
        let c = &plan.pull_renames[i];
        assert(p.pull_renames[i as int] == c.deep_view());
        out.push(ListTask::RenameFile { id: c.0.clone(), from: c.1.clone(), to: c.2.clone() });
        assert(out.deep_view() =~= had.push(s4[i as int]));
        assert(out.deep_view() =~= d3 + s4.take(i + 1));
    }
    let ghost d4 = d3 + s4;
    assert(out.deep_view() =~= d4);
    let ghost f5 = |c: (Seq<char>, Seq<char>)| ListTaskView::DeleteFile { id: c.0, title: c.1 };
    let ghost s5 = p.pull_deletes.map_values(f5);
    assert(d4 + s5.take(0) =~= d4);
    for i in 0..plan.pull_deletes.len()
        invariant
            p == plan.deep_view(),
            s5 == p.pull_deletes.map_values(f5),
            f5 == (|c: (Seq<char>, Seq<char>)| ListTaskView::DeleteFile { id: c.0, title: c.1 }),
            out.deep_view() == d4 + s5.take(i as int),
    {
        let ghost had = out.deep_view();
        let c = &plan.pull_deletes[i];
        assert(p.pull_deletes[i as int] == c.deep_view());
        out.push(ListTask::DeleteFile { id: c.0.clone(), title: c.1.clone() });
        assert(out.deep_view() =~= had.push(s5[i as int]));
        assert(out.deep_view() =~= d4 + s5.take(i + 1));
    }
    let ghost d5 = d4 + s5;
    assert(out.deep_view() =~= d5);
    let ghost f6 = |c: Seq<char>| ListTaskView::AddFile { id: c };
    let ghost s6 = p.pull_new.map_values(f6);
    assert(d5 + s6.take(0) =~= d5);
    for i in 0..plan.pull_new.len()
        invariant
            p == plan.deep_view(),
            s6 == p.pull_new.map_values(f6),
            f6 == (|c: Seq<char>| ListTaskView::AddFile { id: c }),
            out.deep_view() == d5 + s6.take(i as int),
    {
        let ghost had = out.deep_view();
        assert(p.pull_new[i as int] == plan.pull_new@[i as int]@);
        out.push(ListTask::AddFile { id: plan.pull_new[i].clone() });
        assert(out.deep_view() =~= had.push(s6[i as int]));
        assert(out.deep_view() =~= d5 + s6.take(i + 1));
    }
    let ghost d6 = d5 + s6;
    assert(out.deep_view() =~= d6);
    let ghost f7 = |c: Seq<char>| ListTaskView::Record { id: c };
    let ghost s7 = p.refresh.map_values(f7);
    assert(d6 + s7.take(0) =~= d6);
    for i in 0..plan.refresh.len()
        invariant
            p == plan.deep_view(),
            s7 == p.refresh.map_values(f7),
            f7 == (|c: Seq<char>| ListTaskView::Record { id: c }),
            out.deep_view() == d6 + s7.take(i as int),
    {
        let ghost had = out.deep_view();
        assert(p.refresh[i as int] == plan.refresh@[i as int]@);
        out.push(ListTask::Record { id: plan.refresh[i].clone() });
        assert(out.deep_view() =~= had.push(s7[i as int]));
        assert(out.deep_view() =~= d6 + s7.take(i + 1));
    }
    assert(out.deep_view() =~= d6 + s7);
    out
}

// ── One task ──────────────────────────────────────────────────────────────

/// What the server answered to a task.
#[derive(Debug)]
pub enum ListReply {
    /// Nothing was asked, or it failed.
    Nothing,
    /// A list was created.
    Created { id: String, list: RemoteList },
    /// A list was renamed.
    Renamed { etag: String },
    /// A list was deleted.
    Deleted,
}

/// An answer as plain values.
pub enum ListReplyView {
    Nothing,
    Created { id: Seq<char>, list: RemoteListView },
    Renamed { etag: Seq<char> },
    Deleted,
}

impl DeepView for ListReply {
    type V = ListReplyView;

    open spec fn deep_view(&self) -> ListReplyView {
        match self {
            ListReply::Nothing => ListReplyView::Nothing,
            ListReply::Created { id, list } => ListReplyView::Created {
                id: id@,
                list: list.deep_view(),
            },
            ListReply::Renamed { etag } => ListReplyView::Renamed { etag: etag@ },
            ListReply::Deleted => ListReplyView::Deleted,
        }
    }
}

/// Something to be done to the files. `context` is what an error message
/// starts with.
#[derive(Debug)]
pub enum DiskOp {
    /// Replace a file.
    Write(FileWrite),
    /// Move a file.
    Rename { from: Vec<u8>, to: Vec<u8>, context: String },
    /// Delete a file, if it is there.
    Remove { path: Vec<u8>, context: String },
}

/// Something to be done to the files, as plain values.
pub enum DiskOpView {
    Write(FileWriteView),
    Rename { from: Seq<u8>, to: Seq<u8>, context: Seq<char> },
    Remove { path: Seq<u8>, context: Seq<char> },
}

impl DeepView for DiskOp {
    type V = DiskOpView;

    open spec fn deep_view(&self) -> DiskOpView {
        match self {
            DiskOp::Write(w) => DiskOpView::Write(w.deep_view()),
            DiskOp::Rename { from, to, context } => DiskOpView::Rename {
                from: from@,
                to: to@,
                context: context@,
            },
            DiskOp::Remove { path, context } => DiskOpView::Remove {
                path: path@,
                context: context@,
            },
        }
    }
}

/// The first list with a title.
pub open spec fn titled(local: Seq<ListFileView>, title: Seq<char>) -> Option<int>
    decreases local.len(),
{
    if local.len() == 0 {
        None
    } else if local[0].title == title {
        Some(0)
    } else {
        match titled(local.skip(1), title) {
            Some(i) => Some(i + 1),
            None => None,
        }
    }
}

/// The first list with an identity.
pub open spec fn identified(local: Seq<ListFileView>, id: Seq<char>) -> Option<int>
    decreases local.len(),
{
    if local.len() == 0 {
        None
    } else if local[0].id == Some(id) {
        Some(0)
    } else {
        match identified(local.skip(1), id) {
            Some(i) => Some(i + 1),
            None => None,
        }
    }
}

/// Where `titled` points, there is a list with the title.
pub proof fn lemma_titled(lists: Seq<ListFileView>, title: Seq<char>)
    ensures
        match titled(lists, title) {
            Some(i) => 0 <= i < lists.len() && lists[i].title == title,
            None => forall|i: int| 0 <= i < lists.len() ==> (#[trigger] lists[i]).title != title,
        },
    decreases lists.len(),
{
    if lists.len() > 0 && lists[0].title != title {
        let rest = lists.skip(1);
        lemma_titled(rest, title);
        assert forall|i: int| 0 < i < lists.len() implies lists[i] == #[trigger] rest[i - 1] by {}
        if titled(rest, title) is None {
            assert forall|i: int| 0 <= i < lists.len() implies (#[trigger] lists[i]).title
                != title by {
                if i > 0 {
                    assert(rest[i - 1].title != title);
                }
            }
        }
    }
}

/// Where `identified` points, there is a list with the identity.
pub proof fn lemma_identified(lists: Seq<ListFileView>, id: Seq<char>)
    ensures
        identified(lists, id) matches Some(i) ==> 0 <= i < lists.len() && lists[i].id == Some(id),
    decreases lists.len(),
{
    if lists.len() > 0 && lists[0].id != Some(id) {
        lemma_identified(lists.skip(1), id);
    }
}

/// The lists after a task.
pub open spec fn lists_after(
    task: ListTaskView,
    reply: ListReplyView,
    local: Seq<ListFileView>,
    remote: Map<Seq<char>, RemoteListView>,
    on_disk: Seq<Seq<char>>,
) -> Seq<ListFileView> {
    match task {
        ListTaskView::Create { title, stale } => match (reply, titled(local, title)) {
            (ListReplyView::Created { id, list }, Some(i)) => local.update(
                i,
                (ListFileView { id: Some(id), ..local[i] }),
            ),
            _ => local,
        },
        ListTaskView::RenameFile { id, from, to } => match titled(local, from) {
            Some(i) => local.update(
                i,
                (ListFileView { title: titles::free_title(to, local, on_disk), ..local[i] }),
            ),
            None => local,
        },
        ListTaskView::DeleteFile { id, title } => local.filter(
            |f: ListFileView| f.title != title,
        ),
        ListTaskView::AddFile { id } => local.push(
            (ListFileView {
                title: titles::free_title(remote[id].title, local, on_disk),
                id: Some(id),
                items: Seq::empty(),
            }),
        ),
        _ => local,
    }
}

/// What the state holds of a server list as it is there.
pub open spec fn as_there(list: RemoteListView, email: Seq<char>) -> SyncedListView {
    SyncedListView { title: list.title, etag: list.etag, account: email }
}

/// The state's lists after a task.
pub open spec fn list_states_after(
    task: ListTaskView,
    reply: ListReplyView,
    lists: Map<Seq<char>, SyncedListView>,
    local: Seq<ListFileView>,
    remote: Map<Seq<char>, RemoteListView>,
    email: Seq<char>,
) -> Map<Seq<char>, SyncedListView> {
    match (task, reply) {
        (ListTaskView::Create { title, stale }, ListReplyView::Created { id, list }) => {
            let kept = match stale {
                Some(old_id) => lists.remove(old_id),
                None => lists,
            };
            kept.insert(id, as_there(list, email))
        },
        (ListTaskView::Rename { id, title }, ListReplyView::Renamed { etag }) => lists.insert(
            id,
            (SyncedListView { title, etag, account: email }),
        ),
        (ListTaskView::Delete { id }, ListReplyView::Deleted) => lists.remove(id),
        (ListTaskView::RenameFile { id, from, to }, _) => lists.insert(
            id,
            as_there(remote[id], email),
        ),
        (ListTaskView::DeleteFile { id, title }, _) => lists.remove(id),
        (ListTaskView::AddFile { id }, _) => lists.insert(id, as_there(remote[id], email)),
        (ListTaskView::Record { id }, _) => lists.insert(
            id,
            (SyncedListView {
                title: match identified(local, id) {
                    Some(i) => local[i].title,
                    None => remote[id].title,
                },
                etag: remote[id].etag,
                account: email,
            }),
        ),
        _ => lists,
    }
}

/// The state's items that do not belong to a list.
pub open spec fn without_list(
    items: Map<Seq<char>, SyncedItemView>,
    id: Seq<char>,
) -> Map<Seq<char>, SyncedItemView> {
    crate::map::where_value(items, |v: SyncedItemView| v.list_id() != id)
}

/// The state's items after a task.
pub open spec fn item_states_after(
    task: ListTaskView,
    reply: ListReplyView,
    items: Map<Seq<char>, SyncedItemView>,
) -> Map<Seq<char>, SyncedItemView> {
    match (task, reply) {
        (ListTaskView::Delete { id }, ListReplyView::Deleted) => without_list(items, id),
        (ListTaskView::DeleteFile { id, title }, _) => without_list(items, id),
        _ => items,
    }
}

/// What a task does to the files.
pub open spec fn disk_after(
    task: ListTaskView,
    reply: ListReplyView,
    local: Seq<ListFileView>,
    remote: Map<Seq<char>, RemoteListView>,
    data: Seq<u8>,
    current: Option<Seq<char>>,
    on_disk: Seq<Seq<char>>,
) -> Seq<DiskOpView> {
    match task {
        ListTaskView::Create { title, stale } => match (reply, titled(local, title)) {
            (ListReplyView::Created { id, list }, Some(i)) => seq![
                DiskOpView::Write(
                    paths::saved_list(data, (ListFileView { id: Some(id), ..local[i] })),
                ),
            ],
            _ => Seq::empty(),
        },
        ListTaskView::RenameFile { id, from, to } => {
            let free = titles::free_title(to, local, on_disk);
            let moved = if paths::safe(from) == paths::safe(free) {
                Seq::empty()
            } else {
                seq![
                    DiskOpView::Rename {
                        from: paths::list_path_of(data, from),
                        to: paths::list_path_of(data, free),
                        context: "renaming "@ + from + " -> "@ + free + ": "@,
                    },
                ]
            };
            let shown = if current == Some(from) {
                seq![DiskOpView::Write(paths::saved_current(data, free))]
            } else {
                Seq::empty()
            };
            moved + shown
        },
        ListTaskView::DeleteFile { id, title } => seq![
            DiskOpView::Remove {
                path: paths::list_path_of(data, title),
                context: "deleting "@ + title + ": "@,
            },
        ],
        ListTaskView::AddFile { id } => seq![
            DiskOpView::Write(
                paths::saved_list(
                    data,
                    (ListFileView {
                        title: titles::free_title(remote[id].title, local, on_disk),
                        id: Some(id),
                        items: Seq::empty(),
                    }),
                ),
            ),
        ],
        _ => Seq::empty(),
    }
}

/// The server's list that a task speaks of is there.
pub open spec fn task_ready(task: ListTaskView, remote: Map<Seq<char>, RemoteListView>) -> bool {
    match task {
        ListTaskView::RenameFile { id, from, to } => remote.contains_key(id),
        ListTaskView::AddFile { id } => remote.contains_key(id),
        ListTaskView::Record { id } => remote.contains_key(id),
        _ => true,
    }
}

/// The first list with a title.
pub fn find_titled(local: &Vec<ListFile>, title: &str) -> (r: Option<usize>)
    ensures
        match r {
            Some(i) => titled(local.deep_view(), title@) == Some(i as int) && i < local@.len(),
            None => titled(local.deep_view(), title@) is None,
        },
{
    let ghost all = local.deep_view();
    assert(all.skip(0) =~= all);
    let n: usize = local.len();
    let mut i: usize = 0;
    while i < n
        invariant
            n == local@.len(),
            i <= n,
            all == local.deep_view(),
            titled(all, title@) == match titled(all.skip(i as int), title@) {
                Some(j) => Some(j + i),
                None => None,
            },
        decreases n - i,
    {
        assert(all.skip(i as int).skip(1) =~= all.skip(i + 1));
        assert(all.skip(i as int)[0] == local@[i as int].deep_view());
        if text::same_str(local[i].title.as_str(), title) {
            return Some(i);
        }
        i = i + 1;
    }
    None
}

/// The first list with an identity.
fn find_identified(local: &Vec<ListFile>, id: &str) -> (r: Option<usize>)
    ensures
        match r {
            Some(i) => identified(local.deep_view(), id@) == Some(i as int) && i < local@.len(),
            None => identified(local.deep_view(), id@) is None,
        },
{
    let ghost all = local.deep_view();
    assert(all.skip(0) =~= all);
    let n: usize = local.len();
    let mut i: usize = 0;
    while i < n
        invariant
            n == local@.len(),
            i <= n,
            all == local.deep_view(),
            identified(all, id@) == match identified(all.skip(i as int), id@) {
                Some(j) => Some(j + i),
                None => None,
            },
        decreases n - i,
    {
        assert(all.skip(i as int).skip(1) =~= all.skip(i + 1));
        assert(all.skip(i as int)[0] == local@[i as int].deep_view());
        if text::is_text(&local[i].id, id) {
            return Some(i);
        }
        i = i + 1;
    }
    None
}

/// Takes the list at a place out, and puts it back changed.
fn put_back(local: &mut Vec<ListFile>, i: usize, list: ListFile)
    requires
        i < old(local)@.len(),
    ensures
        final(local).deep_view() == old(local).deep_view().update(i as int, list.deep_view()),
{
    let ghost was = local.deep_view();
    local.set(i, list);
    assert(local.deep_view() =~= was.update(i as int, list.deep_view()));
}

/// Takes away the lists with a title.
fn drop_titled(local: &mut Vec<ListFile>, title: &str)
    ensures
        final(local).deep_view() == old(local).deep_view().filter(
            |f: ListFileView| f.title != title@,
        ),
{
    let ghost all = local.deep_view();
    let ghost p = |f: ListFileView| f.title != title@;
    let mut rest: Vec<ListFile> = Vec::new();
    let n: usize = local.len();
    for i in 0..n
        invariant
            n == local@.len(),
            all == local.deep_view(),
            p == (|f: ListFileView| f.title != title@),
            rest.deep_view() == all.take(i as int).filter(p),
    {
        let ghost had = rest.deep_view();
        proof {
            seqs::lemma_filter_take(all, p, i as int);
            assert(all[i as int] == local@[i as int].deep_view());
        }
        if !text::same_str(local[i].title.as_str(), title) {
            rest.push(local[i].clone());
            assert(rest.deep_view() =~= had.push(all[i as int]));
        }
    }
    assert(all.take(n as int) =~= all);
    *local = rest;
}

/// Takes away the state's items of a list.
fn drop_items(state: &mut SyncState, id: &str)
    ensures
        final(state).items@ == without_list(old(state).items@, id@),
        final(state).lists@ == old(state).lists@,
{
    let ghost p = |v: SyncedItemView| v.list_id() != id@;
    let keep = |v: &SyncedItem| -> (b: bool)
        ensures
            b == p(v.deep_view()),
    {
        !text::same_str(v.list_id().as_str(), id)
    };
    state.items = state.items.part(keep, Ghost(p));
}

/// Does one task, given the server's answer to it: brings the lists and the
/// state up to date, and says what is to be done to the files. `current` is
/// the title of the shown list, and `on_disk` holds the stems of the list
/// files that are there.
pub fn settle_list(
    task: &ListTask,
    reply: &ListReply,
    local: &mut Vec<ListFile>,
    state: &mut SyncState,
    remote: &OrdMap<RemoteList>,
    email: &str,
    data: &[u8],
    current: Option<&str>,
    on_disk: &[String],
) -> (r: Vec<DiskOp>)
    requires
        task_ready(task.deep_view(), remote@),
    ensures
        final(local).deep_view() == lists_after(
            task.deep_view(),
            reply.deep_view(),
            old(local).deep_view(),
            remote@,
            on_disk.deep_view(),
        ),
        final(state).lists@ == list_states_after(
            task.deep_view(),
            reply.deep_view(),
            old(state).lists@,
            old(local).deep_view(),
            remote@,
            email@,
        ),
        final(state).items@ == item_states_after(
            task.deep_view(),
            reply.deep_view(),
            old(state).items@,
        ),
        r.deep_view() == disk_after(
            task.deep_view(),
            reply.deep_view(),
            old(local).deep_view(),
            remote@,
            data@,
            current.deep_view(),
            on_disk.deep_view(),
        ),
{
    let ghost was = local.deep_view();
    let mut ops: Vec<DiskOp> = Vec::new();
    assert(ops.deep_view() =~= Seq::empty());
    match task {
        ListTask::Create { title, stale } => {
            if let ListReply::Created { id, list } = reply {
                if let Some(i) = find_titled(local, title.as_str()) {
                    let mut file = local[i].clone();
                    assert(was[i as int] == local@[i as int].deep_view());
                    file.id = Some(id.clone());
                    ops.push(DiskOp::Write(paths::save_list(data, &file)));
                    put_back(local, i, file);
                }
                if let Some(old_id) = stale {
                    state.lists.remove(old_id.as_str());
                }
                state.lists.insert(
                    id.clone(),
                    SyncedList {
                        title: list.title.clone(),
                        etag: list.etag.clone(),
                        account: email.to_string(),
                    },
                );
            }
        },
        ListTask::Rename { id, title } => {
            if let ListReply::Renamed { etag } = reply {
                state.lists.insert(
                    id.clone(),
                    SyncedList {
                        title: title.clone(),
                        etag: etag.clone(),
                        account: email.to_string(),
                    },
                );
            }
        },
        ListTask::Delete { id } => {
            if let ListReply::Deleted = reply {
                state.lists.remove(id.as_str());
                drop_items(state, id.as_str());
            }
        },
        ListTask::RenameFile { id, from, to } => {
            let free = titles::unique_local_title(to.as_str(), local.as_slice(), on_disk);
            if let Some((a, b)) = paths::rename_list(data, from.as_str(), free.as_str()) {
                let mut context = "renaming ".to_string();
                context.append(from.as_str());
                context.append(" -> ");
                context.append(free.as_str());
                context.append(": ");
                ops.push(DiskOp::Rename { from: a, to: b, context });
            }
            if let Some(i) = find_titled(local, from.as_str()) {
                let mut file = local[i].clone();
                assert(was[i as int] == local@[i as int].deep_view());
                file.title = free.clone();
                put_back(local, i, file);
            }
            let shown = match current {
                Some(c) => text::same_str(c, from.as_str()),
                None => false,
            };
            if shown {
                ops.push(DiskOp::Write(paths::save_current(data, free.as_str())));
            }
            if let Some(there) = remote.get(id.as_str()) {
                state.lists.insert(
                    id.clone(),
                    SyncedList {
                        title: there.title.clone(),
                        etag: there.etag.clone(),
                        account: email.to_string(),
                    },
                );
            }
        },
        ListTask::DeleteFile { id, title } => {
            let mut context = "deleting ".to_string();
            context.append(title.as_str());
            context.append(": ");
            ops.push(
                DiskOp::Remove { path: paths::list_path(data, title.as_str()), context },
            );
            drop_titled(local, title.as_str());
            state.lists.remove(id.as_str());
            drop_items(state, id.as_str());
        },
        ListTask::AddFile { id } => {
            if let Some(there) = remote.get(id.as_str()) {
                let title = titles::unique_local_title(
                    there.title.as_str(),
                    local.as_slice(),
                    on_disk,
                );
                let file = ListFile { title, id: Some(id.clone()), items: Vec::new() };
                assert(file.items.deep_view() =~= Seq::empty());
                let ghost fv = file.deep_view();
                ops.push(DiskOp::Write(paths::save_list(data, &file)));
                local.push(file);
                assert(local.deep_view() =~= was.push(fv));
                state.lists.insert(
                    id.clone(),
                    SyncedList {
                        title: there.title.clone(),
                        etag: there.etag.clone(),
                        account: email.to_string(),
                    },
                );
            }
        },
        ListTask::Record { id } => {
            if let Some(there) = remote.get(id.as_str()) {
                let title = match find_identified(local, id.as_str()) {
                    Some(i) => {
                        assert(was[i as int] == local@[i as int].deep_view());
                        local[i].title.clone()
                    },
                    None => there.title.clone(),
                };
                state.lists.insert(
                    id.clone(),
                    SyncedList { title, etag: there.etag.clone(), account: email.to_string() },
                );
            }
        },
    }
    assert(ops.deep_view() =~= disk_after(
        task.deep_view(),
        reply.deep_view(),
        was,
        remote@,
        data@,
        current.deep_view(),
        on_disk.deep_view(),
    ));
    ops
}

} // verus!
