//! The three-way merge: what is to be done about lists and items, given the
//! files, the server, and the server's last synced state.
//!
//! A difference between the files and the state is a local edit to push, one
//! between the server and the state a remote edit to pull. Where both
//! changed, the files win.
use vstd::prelude::*;

use crate::map::OrdMap;
use crate::model;
use crate::model::{
    Item, ItemView, ListFile, ListFileView, SyncState, SyncedItem, SyncedItemView, SyncedList,
    SyncedListView,
};
use crate::order;
use crate::paths;
use crate::remote::{RemoteList, RemoteListView, RemoteTodo, RemoteTodoView};
use crate::seqs;
use crate::text;

verus! {

/// The value under a key, if there is one.
pub open spec fn at<V>(m: Map<Seq<char>, V>, k: Seq<char>) -> Option<V> {
    if m.contains_key(k) {
        Some(m[k])
    } else {
        None
    }
}

// ── Lists ─────────────────────────────────────────────────────────────────

/// What is to be done about lists.
#[derive(Debug, PartialEq, Eq)]
pub struct ListPlan {
    /// Server lists that are new there.
    pub pull_new: Vec<String>,
    /// Identity, local title, server title: renamed on the server.
    pub pull_renames: Vec<(String, String, String)>,
    /// Identity, local title: gone from the server.
    pub pull_deletes: Vec<(String, String)>,
    /// Title, and the identity that the file carried if no one knows it.
    pub push_creates: Vec<(String, Option<String>)>,
    /// Identity, new title: renamed locally.
    pub push_renames: Vec<(String, String)>,
    /// Server lists whose file is gone.
    pub push_deletes: Vec<String>,
    /// Lists of which only the server's version tag is to be recorded.
    pub refresh: Vec<String>,
}

/// A plan for lists as plain values.
pub struct ListPlanView {
    pub pull_new: Seq<Seq<char>>,
    pub pull_renames: Seq<(Seq<char>, Seq<char>, Seq<char>)>,
    pub pull_deletes: Seq<(Seq<char>, Seq<char>)>,
    pub push_creates: Seq<(Seq<char>, Option<Seq<char>>)>,
    pub push_renames: Seq<(Seq<char>, Seq<char>)>,
    pub push_deletes: Seq<Seq<char>>,
    pub refresh: Seq<Seq<char>>,
}

impl DeepView for ListPlan {
    type V = ListPlanView;

    open spec fn deep_view(&self) -> ListPlanView {
        ListPlanView {
            pull_new: self.pull_new.deep_view(),
            pull_renames: self.pull_renames.deep_view(),
            pull_deletes: self.pull_deletes.deep_view(),
            push_creates: self.push_creates.deep_view(),
            push_renames: self.push_renames.deep_view(),
            push_deletes: self.push_deletes.deep_view(),
            refresh: self.refresh.deep_view(),
        }
    }
}

/// What is to be done about one list file.
pub enum FileStep {
    /// Create it on the server.
    Create,
    /// Rename the server's list after the file.
    PushRename,
    /// Rename the file after the server's list.
    PullRename,
    /// Delete the file.
    PullDelete,
    /// Record what the server has.
    Refresh,
    /// Nothing.
    Keep,
}

/// What is to be done about a list file, given what the server and the state
/// hold under its identity. A list that was never synced takes the server's
/// title. A title of the server with a slash in it goes back to the server as
/// the file has it.
pub open spec fn file_step(
    file: ListFileView,
    base: Option<SyncedListView>,
    there: Option<RemoteListView>,
) -> FileStep {
    if file.id is None {
        FileStep::Create
    } else {
        match (there, base) {
            (None, None) => FileStep::Create,
            (None, Some(_)) => FileStep::PullDelete,
            (Some(r), None) => if paths::safe(r.title) != file.title {
                FileStep::PullRename
            } else {
                FileStep::Refresh
            },
            (Some(r), Some(b)) => {
                let here_changed = file.title != paths::safe(b.title);
                let there_changed = paths::safe(r.title) != paths::safe(b.title);
                let differ = file.title != paths::safe(r.title);
                if here_changed && differ {
                    FileStep::PushRename
                } else if there_changed && differ {
                    FileStep::PullRename
                } else if !differ && r.title.contains('/') {
                    FileStep::PushRename
                } else if r.etag != b.etag || here_changed {
                    FileStep::Refresh
                } else {
                    FileStep::Keep
                }
            },
        }
    }
}

/// What is to be done about a list file of a whole tree.
pub open spec fn step_of(
    file: ListFileView,
    state: Map<Seq<char>, SyncedListView>,
    remote: Map<Seq<char>, RemoteListView>,
) -> FileStep {
    match file.id {
        Some(id) => file_step(file, at(state, id), at(remote, id)),
        None => file_step(file, None, None),
    }
}

/// Some file carries an identity.
pub open spec fn has_file(local: Seq<ListFileView>, id: Seq<char>) -> bool {
    exists|i: int| 0 <= i < local.len() && (#[trigger] local[i]).id == Some(id)
}

/// The plan for lists.
pub open spec fn planned_lists(
    local: Seq<ListFileView>,
    state: Map<Seq<char>, SyncedListView>,
    remote: Map<Seq<char>, RemoteListView>,
) -> ListPlanView {
    ListPlanView {
        pull_new: order::in_order(remote.dom()).filter(
            |id: Seq<char>| !has_file(local, id) && !state.contains_key(id),
        ),
        pull_renames: local.filter_map(
            |f: ListFileView|
                if step_of(f, state, remote) is PullRename {
                    Some((f.id->0, f.title, paths::safe(remote[f.id->0].title)))
                } else {
                    None
                },
        ),
        pull_deletes: local.filter_map(
            |f: ListFileView|
                if step_of(f, state, remote) is PullDelete {
                    Some((f.id->0, f.title))
                } else {
                    None
                },
        ),
        push_creates: local.filter_map(
            |f: ListFileView|
                if step_of(f, state, remote) is Create {
                    Some((f.title, f.id))
                } else {
                    None
                },
        ),
        push_renames: local.filter_map(
            |f: ListFileView|
                if step_of(f, state, remote) is PushRename {
                    Some((f.id->0, f.title))
                } else {
                    None
                },
        ),
        push_deletes: order::in_order(remote.dom()).filter(
            |id: Seq<char>| !has_file(local, id) && state.contains_key(id),
        ),
        refresh: local.filter_map(
            |f: ListFileView|
                if step_of(f, state, remote) is Refresh {
                    Some(f.id->0)
                } else {
                    None
                },
        ),
    }
}

/// What is to be done about a list file.
fn decide_file(
    file: &ListFile,
    state: &OrdMap<SyncedList>,
    remote: &OrdMap<RemoteList>,
) -> (r: FileStep)
    ensures
        r == step_of(file.deep_view(), state@, remote@),
{
    let id = match &file.id {
        Some(id) => id,
        None => {
            return FileStep::Create;
        },
    };
    match (remote.get(id.as_str()), state.get(id.as_str())) {
        (None, None) => FileStep::Create,
        (None, Some(_)) => FileStep::PullDelete,
        (Some(r), base) => {
            let there = paths::safe_title(r.title.as_str());
            let differ = !text::same_str(file.title.as_str(), there.as_str());
            match base {
                None => if differ {
                    FileStep::PullRename
                } else {
                    FileStep::Refresh
                },
                Some(b) => {
                    let was = paths::safe_title(b.title.as_str());
                    let here_changed = !text::same_str(file.title.as_str(), was.as_str());
                    let there_changed = !text::same_str(there.as_str(), was.as_str());
                    if here_changed && differ {
                        FileStep::PushRename
                    } else if there_changed && differ {
                        FileStep::PullRename
                    } else if !differ && paths::has_slash(r.title.as_str()) {
                        FileStep::PushRename
                    } else if !text::same_str(r.etag.as_str(), b.etag.as_str()) || here_changed {
                        FileStep::Refresh
                    } else {
                        FileStep::Keep
                    }
                },
            }
        },
    }
}

/// Whether some file carries an identity.
fn is_claimed(local: &[ListFile], id: &str) -> (r: bool)
    ensures
        r == has_file(local.deep_view(), id@),
{
    let ghost all = local.deep_view();
    for i in 0..local.len()
        invariant
            all == local.deep_view(),
            forall|j: int| 0 <= j < i ==> (#[trigger] all[j]).id != Some(id@),
    {
        assert(all[i as int] == local@[i as int].deep_view());
        if text::is_text(&local[i].id, id) {
            return true;
        }
    }
    false
}

/// Plans what is to be done about lists.
pub fn plan_lists(
    local: &[ListFile],
    state: &OrdMap<SyncedList>,
    remote: &OrdMap<RemoteList>,
) -> (r: ListPlan)
    ensures
        r.deep_view() == planned_lists(local.deep_view(), state@, remote@),
{
    let mut plan = ListPlan {
        pull_new: Vec::new(),
        pull_renames: Vec::new(),
        pull_deletes: Vec::new(),
        push_creates: Vec::new(),
        push_renames: Vec::new(),
        push_deletes: Vec::new(),
        refresh: Vec::new(),
    };
    let ghost all = local.deep_view();
    let ghost f1 = |f: ListFileView|
        if step_of(f, state@, remote@) is PullRename {
            Some((f.id->0, f.title, paths::safe(remote@[f.id->0].title)))
        } else {
            None
        };
    let ghost f2 = |f: ListFileView|
        if step_of(f, state@, remote@) is PullDelete {
            Some((f.id->0, f.title))
        } else {
            None
        };
    let ghost f3 = |f: ListFileView|
        if step_of(f, state@, remote@) is Create {
            Some((f.title, f.id))
        } else {
            None
        };
    let ghost f4 = |f: ListFileView|
        if step_of(f, state@, remote@) is PushRename {
            Some((f.id->0, f.title))
        } else {
            None
        };
    let ghost f5 = |f: ListFileView|
        if step_of(f, state@, remote@) is Refresh {
            Some(f.id->0)
        } else {
            None
        };
    let n: usize = local.len();
    let mut i: usize = 0;
    while i < n
        invariant
            n == local@.len(),
            i <= n,
            all == local.deep_view(),
            f1 == (|f: ListFileView|
                if step_of(f, state@, remote@) is PullRename {
                    Some((f.id->0, f.title, paths::safe(remote@[f.id->0].title)))
                } else {
                    None
                }),
            f2 == (|f: ListFileView|
                if step_of(f, state@, remote@) is PullDelete {
                    Some((f.id->0, f.title))
                } else {
                    None
                }),
            f3 == (|f: ListFileView|
                if step_of(f, state@, remote@) is Create {
                    Some((f.title, f.id))
                } else {
                    None
                }),
            f4 == (|f: ListFileView|
                if step_of(f, state@, remote@) is PushRename {
                    Some((f.id->0, f.title))
                } else {
                    None
                }),
            f5 == (|f: ListFileView|
                if step_of(f, state@, remote@) is Refresh {
                    Some(f.id->0)
                } else {
                    None
                }),
            plan.pull_new@.len() == 0,
            plan.push_deletes@.len() == 0,
            plan.pull_renames.deep_view() == all.take(i as int).filter_map(f1),
            plan.pull_deletes.deep_view() == all.take(i as int).filter_map(f2),
            plan.push_creates.deep_view() == all.take(i as int).filter_map(f3),
            plan.push_renames.deep_view() == all.take(i as int).filter_map(f4),
            plan.refresh.deep_view() == all.take(i as int).filter_map(f5),
        decreases n - i,
    {
        let ghost had = plan.deep_view();
        let file = &local[i];
        let ghost fv = file.deep_view();
        proof {
            assert(all[i as int] == fv);
            seqs::lemma_filter_map_take(all, f1, i as int);
            seqs::lemma_filter_map_take(all, f2, i as int);
            seqs::lemma_filter_map_take(all, f3, i as int);
            seqs::lemma_filter_map_take(all, f4, i as int);
            seqs::lemma_filter_map_take(all, f5, i as int);
        }
        let step = decide_file(file, state, remote);
        match &file.id {
            None => {
                plan.push_creates.push((file.title.clone(), None));
                assert(plan.push_creates.deep_view() =~= had.push_creates.push((fv.title, fv.id)));
            },
            Some(id) => match step {
                FileStep::Create => {
                    plan.push_creates.push((file.title.clone(), Some(id.clone())));
                    assert(plan.push_creates.deep_view() =~= had.push_creates.push(
                        (fv.title, fv.id),
                    ));
                },
                FileStep::PushRename => {
                    plan.push_renames.push((id.clone(), file.title.clone()));
                    assert(plan.push_renames.deep_view() =~= had.push_renames.push(
                        (fv.id->0, fv.title),
                    ));
                },
                FileStep::PullRename => {
                    if let Some(r) = remote.get(id.as_str()) {
                        let to = paths::safe_title(r.title.as_str());
                        plan.pull_renames.push((id.clone(), file.title.clone(), to));
                        assert(plan.pull_renames.deep_view() =~= had.pull_renames.push(
                            f1(fv)->0,
                        ));
                    }
                },
                FileStep::PullDelete => {
                    plan.pull_deletes.push((id.clone(), file.title.clone()));
                    assert(plan.pull_deletes.deep_view() =~= had.pull_deletes.push(
                        (fv.id->0, fv.title),
                    ));
                },
                FileStep::Refresh => {
                    plan.refresh.push(id.clone());
                    assert(plan.refresh.deep_view() =~= had.refresh.push(fv.id->0));
                },
                FileStep::Keep => {},
            },
        }
        i = i + 1;
    }
    assert(all.take(n as int) =~= all);
    proof {
        use_type_invariant(remote);
        remote.lemma_entries();
    }
    let ghost ids = remote.keys();
    let ghost fresh = |id: Seq<char>| !has_file(all, id) && !state@.contains_key(id);
    let ghost gone = |id: Seq<char>| !has_file(all, id) && state@.contains_key(id);
    let m: usize = remote.len();
    let mut pull_new: Vec<String> = Vec::new();
    let mut push_deletes: Vec<String> = Vec::new();
    for i in 0..m
        invariant
            m == ids.len(),
            ids == remote.keys(),
            all == local.deep_view(),
            fresh == (|id: Seq<char>| !has_file(all, id) && !state@.contains_key(id)),
            gone == (|id: Seq<char>| !has_file(all, id) && state@.contains_key(id)),
            pull_new.deep_view() == ids.take(i as int).filter(fresh),
            push_deletes.deep_view() == ids.take(i as int).filter(gone),
    {
        let id = remote.key_at(i);
        let ghost news = pull_new.deep_view();
        let ghost olds = push_deletes.deep_view();
        proof {
            seqs::lemma_filter_take(ids, fresh, i as int);
            seqs::lemma_filter_take(ids, gone, i as int);
        }
        if !is_claimed(local, id.as_str()) {
            if state.contains_key(id.as_str()) {
                push_deletes.push(id.clone());
                assert(push_deletes.deep_view() =~= olds.push(id@));
            } else {
                pull_new.push(id.clone());
                assert(pull_new.deep_view() =~= news.push(id@));
            }
        }
    }
    assert(ids.take(m as int) =~= ids);
    plan.pull_new = pull_new;
    plan.push_deletes = push_deletes;
    plan
}

// ── Items ─────────────────────────────────────────────────────────────────

/// What is to be done about the items of one list.
#[derive(Debug, PartialEq, Eq)]
pub struct Plan {
    /// New on the server.
    pub pull_new: Vec<String>,
    /// Changed on the server.
    pub pull_updates: Vec<String>,
    /// Gone from the server.
    pub pull_deletes: Vec<String>,
    /// Changed here.
    pub push_updates: Vec<String>,
    /// Text, mark, and the identity that the row carried if no one knows it.
    pub push_creates: Vec<(String, bool, Option<String>)>,
    /// Deleted here.
    pub push_deletes: Vec<String>,
    /// Only the server's version tag moved: record it, change nothing.
    pub refresh_etags: Vec<String>,
}

/// A plan for items as plain values.
pub struct PlanView {
    pub pull_new: Seq<Seq<char>>,
    pub pull_updates: Seq<Seq<char>>,
    pub pull_deletes: Seq<Seq<char>>,
    pub push_updates: Seq<Seq<char>>,
    pub push_creates: Seq<(Seq<char>, bool, Option<Seq<char>>)>,
    pub push_deletes: Seq<Seq<char>>,
    pub refresh_etags: Seq<Seq<char>>,
}

impl DeepView for Plan {
    type V = PlanView;

    open spec fn deep_view(&self) -> PlanView {
        PlanView {
            pull_new: self.pull_new.deep_view(),
            pull_updates: self.pull_updates.deep_view(),
            pull_deletes: self.pull_deletes.deep_view(),
            push_updates: self.push_updates.deep_view(),
            push_creates: self.push_creates.deep_view(),
            push_deletes: self.push_deletes.deep_view(),
            refresh_etags: self.refresh_etags.deep_view(),
        }
    }
}

/// The plan that does nothing.
pub open spec fn idle() -> PlanView {
    PlanView {
        pull_new: Seq::empty(),
        pull_updates: Seq::empty(),
        pull_deletes: Seq::empty(),
        push_updates: Seq::empty(),
        push_creates: Seq::empty(),
        push_deletes: Seq::empty(),
        refresh_etags: Seq::empty(),
    }
}

impl Default for Plan {
    /// The plan that does nothing.
    fn default() -> (r: Plan)
        ensures
            r.deep_view() == idle(),
    {
        let r = Plan {
            pull_new: Vec::new(),
            pull_updates: Vec::new(),
            pull_deletes: Vec::new(),
            push_updates: Vec::new(),
            push_creates: Vec::new(),
            push_deletes: Vec::new(),
            refresh_etags: Vec::new(),
        };
        assert(r.pull_new.deep_view() =~= idle().pull_new);
        assert(r.push_creates.deep_view() =~= idle().push_creates);
        r
    }
}

/// What is to be done about one of the server's items.
#[derive(Clone, Copy, Debug, PartialEq, Eq, Structural)]
pub enum ItemStep {
    /// Make the server's item as the row is.
    PushUpdate,
    /// Make the row as the server's item is.
    PullUpdate,
    /// Record the server's version tag.
    RefreshEtag,
    /// Delete the server's item.
    PushDelete,
    /// Add a row for it.
    PullNew,
    /// Nothing.
    Keep,
}

/// What is to be done about one of the server's items, given its row and what
/// the state holds of it. Where both sides changed, the row wins. One that
/// neither a row nor the state knows is new, unless it is done already.
pub open spec fn item_step(
    row: Option<ItemView>,
    base: Option<SyncedItemView>,
    todo: RemoteTodoView,
) -> ItemStep {
    match (base, row) {
        (Some(b), Some(i)) => if i.text != b.text || i.done != b.done {
            ItemStep::PushUpdate
        } else if todo.summary != b.text || todo.done != b.done {
            ItemStep::PullUpdate
        } else if todo.etag != b.etag {
            ItemStep::RefreshEtag
        } else {
            ItemStep::Keep
        },
        (Some(_), None) => ItemStep::PushDelete,
        (None, Some(i)) => if i.text != todo.summary || i.done != todo.done {
            ItemStep::PushUpdate
        } else {
            ItemStep::RefreshEtag
        },
        (None, None) => if todo.done {
            ItemStep::Keep
        } else {
            ItemStep::PullNew
        },
    }
}

/// The row of an identity; the last one, if there are more.
pub open spec fn last_row(local: Seq<ItemView>, uid: Seq<char>) -> Option<ItemView>
    decreases local.len(),
{
    if local.len() == 0 {
        None
    } else if local.last().uid == Some(uid) {
        Some(local.last())
    } else {
        last_row(local.drop_last(), uid)
    }
}

/// The server's items with which something is to be done, in the order of
/// their identities.
pub open spec fn uids_with(
    step: ItemStep,
    local: Seq<ItemView>,
    state: Map<Seq<char>, SyncedItemView>,
    remote: Map<Seq<char>, RemoteTodoView>,
) -> Seq<Seq<char>> {
    order::in_order(remote.dom()).filter(
        |uid: Seq<char>| item_step(last_row(local, uid), at(state, uid), remote[uid]) == step,
    )
}

/// What is to be created on the server for a row: a row without an identity,
/// or with one that neither the server nor the state knows.
pub open spec fn row_create(
    row: ItemView,
    state: Map<Seq<char>, SyncedItemView>,
    remote: Map<Seq<char>, RemoteTodoView>,
) -> Option<(Seq<char>, bool, Option<Seq<char>>)> {
    match row.uid {
        None => Some((row.text, row.done, None)),
        Some(uid) => if !remote.contains_key(uid) && !state.contains_key(uid) {
            Some((row.text, row.done, Some(uid)))
        } else {
            None
        },
    }
}

/// The plan for the items of one list.
pub open spec fn planned_items(
    local: Seq<ItemView>,
    state: Map<Seq<char>, SyncedItemView>,
    remote: Map<Seq<char>, RemoteTodoView>,
) -> PlanView {
    PlanView {
        pull_new: uids_with(ItemStep::PullNew, local, state, remote),
        pull_updates: uids_with(ItemStep::PullUpdate, local, state, remote),
        pull_deletes: order::in_order(state.dom()).filter(
            |uid: Seq<char>| !remote.contains_key(uid),
        ),
        push_updates: uids_with(ItemStep::PushUpdate, local, state, remote),
        push_creates: local.filter_map(|row: ItemView| row_create(row, state, remote)),
        push_deletes: uids_with(ItemStep::PushDelete, local, state, remote),
        refresh_etags: uids_with(ItemStep::RefreshEtag, local, state, remote),
    }
}

/// The last row of an identity.
fn find_last<'a>(local: &'a [Item], uid: &str) -> (r: Option<&'a Item>)
    ensures
        r.deep_view() == last_row(local.deep_view(), uid@),
{
    let ghost all = local.deep_view();
    let mut n: usize = local.len();
    assert(all.take(n as int) =~= all);
    while n > 0
        invariant
            n <= local@.len(),
            all == local.deep_view(),
            last_row(all.take(n as int), uid@) == last_row(all, uid@),
        decreases n,
    {
        assert(all.take(n as int).drop_last() =~= all.take(n - 1));
        assert(all.take(n as int).last() == local@[n - 1].deep_view());
        if text::is_text(&local[n - 1].uid, uid) {
            return Some(&local[n - 1]);
        }
        n = n - 1;
    }
    None
}

/// What is to be done about one of the server's items.
fn decide_item(row: Option<&Item>, base: Option<&SyncedItem>, todo: &RemoteTodo) -> (r: ItemStep)
    ensures
        r == item_step(row.deep_view(), base.deep_view(), todo.deep_view()),
{
    match (base, row) {
        (Some(b), Some(i)) => if !text::same_str(i.text.as_str(), b.text.as_str()) || i.done
            != b.done {
            ItemStep::PushUpdate
        } else if !text::same_str(todo.summary.as_str(), b.text.as_str()) || todo.done != b.done {
            ItemStep::PullUpdate
        } else if !text::same_str(todo.etag.as_str(), b.etag.as_str()) {
            ItemStep::RefreshEtag
        } else {
            ItemStep::Keep
        },
        (Some(_), None) => ItemStep::PushDelete,
        (None, Some(i)) => if !text::same_str(i.text.as_str(), todo.summary.as_str()) || i.done
            != todo.done {
            ItemStep::PushUpdate
        } else {
            ItemStep::RefreshEtag
        },
        (None, None) => if todo.done {
            ItemStep::Keep
        } else {
            ItemStep::PullNew
        },
    }
}

/// The server's items with which something is to be done.
fn collect(
    step: ItemStep,
    local: &[Item],
    state: &OrdMap<SyncedItem>,
    remote: &OrdMap<RemoteTodo>,
) -> (r: Vec<String>)
    ensures
        r.deep_view() == uids_with(step, local.deep_view(), state@, remote@),
{
    proof {
        use_type_invariant(remote);
        remote.lemma_entries();
    }
    let ghost ids = remote.keys();
    let ghost p = |uid: Seq<char>|
        item_step(last_row(local.deep_view(), uid), at(state@, uid), remote@[uid]) == step;
    let mut out: Vec<String> = Vec::new();
    let n: usize = remote.len();
    for i in 0..n
        invariant
            n == ids.len(),
            ids == remote.keys(),
            ids.len() == remote.values().len(),
            forall|j: int| 0 <= j < ids.len() ==> remote@[#[trigger] ids[j]] == remote.values()[j],
            p == (|uid: Seq<char>|
                item_step(last_row(local.deep_view(), uid), at(state@, uid), remote@[uid]) == step),
            out.deep_view() == ids.take(i as int).filter(p),
    {
        let ghost had = out.deep_view();
        let uid = remote.key_at(i);
        proof {
            seqs::lemma_filter_take(ids, p, i as int);
            assert(remote@[ids[i as int]] == remote.values()[i as int]);
        }
        let row = find_last(local, uid.as_str());
        let base = state.get(uid.as_str());
        assert(base.deep_view() == at(state@, uid@));
        if decide_item(row, base, remote.value_at(i)) == step {
            out.push(uid.clone());
            assert(out.deep_view() =~= had.push(uid@));
        }
    }
    assert(ids.take(n as int) =~= ids);
    out
}

/// What is tracked but gone from the server.
fn collect_gone(state: &OrdMap<SyncedItem>, remote: &OrdMap<RemoteTodo>) -> (r: Vec<String>)
    ensures
        r.deep_view() == order::in_order(state@.dom()).filter(
            |uid: Seq<char>| !remote@.contains_key(uid),
        ),
{
    proof {
        use_type_invariant(state);
        state.lemma_entries();
    }
    let ghost ids = state.keys();
    let ghost p = |uid: Seq<char>| !remote@.contains_key(uid);
    let mut out: Vec<String> = Vec::new();
    let n: usize = state.len();
    for i in 0..n
        invariant
            n == ids.len(),
            ids == state.keys(),
            p == (|uid: Seq<char>| !remote@.contains_key(uid)),
            out.deep_view() == ids.take(i as int).filter(p),
    {
        let ghost had = out.deep_view();
        let uid = state.key_at(i);
        proof {
            seqs::lemma_filter_take(ids, p, i as int);
        }
        if !remote.contains_key(uid.as_str()) {
            out.push(uid.clone());
            assert(out.deep_view() =~= had.push(uid@));
        }
    }
    assert(ids.take(n as int) =~= ids);
    out
}

/// What is to be created on the server.
fn collect_creates(
    local: &[Item],
    state: &OrdMap<SyncedItem>,
    remote: &OrdMap<RemoteTodo>,
) -> (r: Vec<(String, bool, Option<String>)>)
    ensures
        r.deep_view() == local.deep_view().filter_map(
            |row: ItemView| row_create(row, state@, remote@),
        ),
{
    let ghost all = local.deep_view();
    let ghost f = |row: ItemView| row_create(row, state@, remote@);
    let mut out: Vec<(String, bool, Option<String>)> = Vec::new();
    for i in 0..local.len()
        invariant
            all == local.deep_view(),
            f == (|row: ItemView| row_create(row, state@, remote@)),
            out.deep_view() == all.take(i as int).filter_map(f),
    {
        let ghost had = out.deep_view();
        proof {
            seqs::lemma_filter_map_take(all, f, i as int);
            assert(all[i as int] == local@[i as int].deep_view());
        }
        let item = &local[i];
        let wanted = match &item.uid {
            None => true,
            Some(uid) => !remote.contains_key(uid.as_str()) && !state.contains_key(uid.as_str()),
        };
        if wanted {
            out.push((item.text.clone(), item.done, model::copy_opt(&item.uid)));
            assert(out.deep_view() =~= had.push(f(all[i as int])->0));
        }
    }
    assert(all.take(all.len() as int) =~= all);
    out
}

/// Plans what is to be done about the items of one list, given its rows, what
/// the state holds of the list, and what the server holds of it.
pub fn plan_items(local: &[Item], state: &SyncState, remote: &OrdMap<RemoteTodo>) -> (r: Plan)
    ensures
        r.deep_view() == planned_items(local.deep_view(), state.items@, remote@),
{
    Plan {
        pull_new: collect(ItemStep::PullNew, local, &state.items, remote),
        pull_updates: collect(ItemStep::PullUpdate, local, &state.items, remote),
        pull_deletes: collect_gone(&state.items, remote),
        push_updates: collect(ItemStep::PushUpdate, local, &state.items, remote),
        push_creates: collect_creates(local, &state.items, remote),
        push_deletes: collect(ItemStep::PushDelete, local, &state.items, remote),
        refresh_etags: collect(ItemStep::RefreshEtag, local, &state.items, remote),
    }
}

} // verus!
