//! What holds of every plan, and of carrying it out.
use vstd::prelude::*;

use crate::item_tasks;
use crate::item_tasks::{ItemReplyView, ItemTaskView, ItemWork};
use crate::list_tasks;
use crate::list_tasks::{DiskOpView, ListReplyView, ListTaskView};
use crate::local;
use crate::model::{ItemView, ListFileView, SyncedItemView, SyncedListView};
use crate::order;
use crate::paths;
use crate::plan;
use crate::plan::{FileStep, ItemStep, PlanView};
use crate::remote::{RemoteListView, RemoteTodoView};
use crate::run;
use crate::seqs;
use crate::titles;

verus! {

// ── Lists ─────────────────────────────────────────────────────────────────

/// Where a list was renamed on both sides, the file's title wins: the server's
/// list is renamed, and the file is not.
pub proof fn law_local_title_wins(
    local: Seq<ListFileView>,
    state: Map<Seq<char>, SyncedListView>,
    remote: Map<Seq<char>, RemoteListView>,
    id: Seq<char>,
    k: int,
)
    requires
        0 <= k < local.len(),
        local[k].id == Some(id),
        state.contains_key(id),
        remote.contains_key(id),
        local[k].title != paths::safe(state[id].title),
        paths::safe(remote[id].title) != paths::safe(state[id].title),
        local[k].title != paths::safe(remote[id].title),
    ensures
        ({
            let p = plan::planned_lists(local, state, remote);
            &&& p.push_renames.contains((id, local[k].title))
            &&& forall|i: int|
                0 <= i < p.pull_renames.len() ==> !((#[trigger] p.pull_renames[i]).0 == id
                    && p.pull_renames[i].1 == local[k].title)
        }),
{
    let f1 = |f: ListFileView|
        if plan::step_of(f, state, remote) is PullRename {
            Some((f.id->0, f.title, paths::safe(remote[f.id->0].title)))
        } else {
            None
        };
    let f4 = |f: ListFileView|
        if plan::step_of(f, state, remote) is PushRename {
            Some((f.id->0, f.title))
        } else {
            None
        };
    let p = plan::planned_lists(local, state, remote);
    seqs::lemma_filter_map_contains(local, f4, k);
    assert forall|i: int| 0 <= i < p.pull_renames.len() implies !((
    #[trigger] p.pull_renames[i]).0 == id && p.pull_renames[i].1 == local[k].title) by {
        seqs::lemma_filter_map_from(local, f1, i);
    }
}

/// A list that was renamed on the server alone is renamed here, and not there.
pub proof fn law_server_title_comes_down(
    local: Seq<ListFileView>,
    state: Map<Seq<char>, SyncedListView>,
    remote: Map<Seq<char>, RemoteListView>,
    id: Seq<char>,
    k: int,
)
    requires
        0 <= k < local.len(),
        local[k].id == Some(id),
        state.contains_key(id),
        remote.contains_key(id),
        local[k].title == paths::safe(state[id].title),
        paths::safe(remote[id].title) != paths::safe(state[id].title),
    ensures
        ({
            let p = plan::planned_lists(local, state, remote);
            &&& p.pull_renames.contains((id, local[k].title, paths::safe(remote[id].title)))
            &&& !p.push_renames.contains((id, local[k].title))
        }),
{
    let f1 = |f: ListFileView|
        if plan::step_of(f, state, remote) is PullRename {
            Some((f.id->0, f.title, paths::safe(remote[f.id->0].title)))
        } else {
            None
        };
    let f4 = |f: ListFileView|
        if plan::step_of(f, state, remote) is PushRename {
            Some((f.id->0, f.title))
        } else {
            None
        };
    let p = plan::planned_lists(local, state, remote);
    seqs::lemma_filter_map_contains(local, f1, k);
    if p.push_renames.contains((id, local[k].title)) {
        let i = choose|i: int|
            0 <= i < p.push_renames.len() && p.push_renames[i] == (id, local[k].title);
        seqs::lemma_filter_map_from(local, f4, i);
    }
}

/// Where nothing is known of the last sync, no list is deleted, on the server
/// or here.
pub proof fn law_no_state_deletes_no_list(
    local: Seq<ListFileView>,
    remote: Map<Seq<char>, RemoteListView>,
)
    requires
        remote.dom().finite(),
    ensures
        ({
            let p = plan::planned_lists(local, Map::empty(), remote);
            p.push_deletes.len() == 0 && p.pull_deletes.len() == 0
        }),
{
    let state = Map::<Seq<char>, SyncedListView>::empty();
    let gone = |id: Seq<char>| !plan::has_file(local, id) && state.contains_key(id);
    seqs::lemma_filter_none(order::in_order(remote.dom()), gone);
    let f = |f: ListFileView|
        if plan::step_of(f, state, remote) is PullDelete {
            Some((f.id->0, f.title))
        } else {
            None
        };
    seqs::lemma_filter_map_none(local, f);
}

/// Every list of the server has a file, or gets one, or is deleted because its
/// file was.
pub proof fn law_every_server_list_is_handled(
    local: Seq<ListFileView>,
    state: Map<Seq<char>, SyncedListView>,
    remote: Map<Seq<char>, RemoteListView>,
    id: Seq<char>,
)
    requires
        remote.dom().finite(),
        remote.contains_key(id),
    ensures
        ({
            let p = plan::planned_lists(local, state, remote);
            &&& p.pull_new.contains(id) == (!plan::has_file(local, id) && !state.contains_key(id))
            &&& p.push_deletes.contains(id) == (!plan::has_file(local, id) && state.contains_key(
                id,
            ))
        }),
{
    order::law_in_order(remote.dom());
    let ids = order::in_order(remote.dom());
    assert(ids.to_set().contains(id));
    seqs::lemma_filter_contains(
        ids,
        |id: Seq<char>| !plan::has_file(local, id) && !state.contains_key(id),
        id,
    );
    seqs::lemma_filter_contains(
        ids,
        |id: Seq<char>| !plan::has_file(local, id) && state.contains_key(id),
        id,
    );
}

/// Every task of a plan for lists can be done: the server's list that it
/// speaks of is there.
pub proof fn law_list_tasks_ready(
    local: Seq<ListFileView>,
    state: Map<Seq<char>, SyncedListView>,
    remote: Map<Seq<char>, RemoteListView>,
    k: int,
)
    requires
        remote.dom().finite(),
        0 <= k < list_tasks::tasks_of(plan::planned_lists(local, state, remote)).len(),
    ensures
        list_tasks::task_ready(
            list_tasks::tasks_of(plan::planned_lists(local, state, remote))[k],
            remote,
        ),
{
    let p = plan::planned_lists(local, state, remote);
    order::law_in_order(remote.dom());
    let ids = order::in_order(remote.dom());
    let f1 = |f: ListFileView|
        if plan::step_of(f, state, remote) is PullRename {
            Some((f.id->0, f.title, paths::safe(remote[f.id->0].title)))
        } else {
            None
        };
    let f5 = |f: ListFileView|
        if plan::step_of(f, state, remote) is Refresh {
            Some(f.id->0)
        } else {
            None
        };
    let fresh = |id: Seq<char>| !plan::has_file(local, id) && !state.contains_key(id);
    assert forall|i: int| 0 <= i < p.pull_renames.len() implies remote.contains_key(
        #[trigger] p.pull_renames[i].0,
    ) by {
        seqs::lemma_filter_map_from(local, f1, i);
    }
    assert forall|i: int| 0 <= i < p.refresh.len() implies remote.contains_key(
        #[trigger] p.refresh[i],
    ) by {
        seqs::lemma_filter_map_from(local, f5, i);
    }
    assert forall|i: int| 0 <= i < p.pull_new.len() implies remote.contains_key(
        #[trigger] p.pull_new[i],
    ) by {
        seqs::lemma_filter_contains(ids, fresh, p.pull_new[i]);
        assert(p.pull_new.contains(p.pull_new[i]));
        assert(ids.to_set().contains(p.pull_new[i]));
    }
}

/// A task that the server did not do changes nothing, so that the next run
/// does it again.
pub proof fn law_failed_list_push_changes_nothing(
    task: ListTaskView,
    local: Seq<ListFileView>,
    lists: Map<Seq<char>, SyncedListView>,
    items: Map<Seq<char>, SyncedItemView>,
    remote: Map<Seq<char>, RemoteListView>,
    email: Seq<char>,
    data: Seq<u8>,
    current: Option<Seq<char>>,
    on_disk: Seq<Seq<char>>,
)
    requires
        task is Create || task is Rename || task is Delete,
    ensures
        list_tasks::lists_after(task, ListReplyView::Nothing, local, remote, on_disk) == local,
        list_tasks::list_states_after(task, ListReplyView::Nothing, lists, local, remote, email)
            == lists,
        list_tasks::item_states_after(task, ListReplyView::Nothing, items) == items,
        list_tasks::disk_after(
            task,
            ListReplyView::Nothing,
            local,
            remote,
            data,
            current,
            on_disk,
        ) == Seq::<DiskOpView>::empty(),
{
}

/// A list that was renamed on the server after its file needs nothing more in
/// the next run.
pub proof fn law_pushed_rename_settles(
    file: ListFileView,
    id: Seq<char>,
    etag: Seq<char>,
    lists: Map<Seq<char>, SyncedListView>,
    local: Seq<ListFileView>,
    remote: Map<Seq<char>, RemoteListView>,
    email: Seq<char>,
    there: RemoteListView,
)
    requires
        file.id == Some(id),
        paths::safe(file.title) == file.title,
        there.title == file.title,
        there.etag == etag,
    ensures
        ({
            let after = list_tasks::list_states_after(
                ListTaskView::Rename { id, title: file.title },
                ListReplyView::Renamed { etag },
                lists,
                local,
                remote,
                email,
            );
            plan::file_step(file, plan::at(after, id), Some(there)) is Keep
        }),
{
    paths::law_safe_title(file.title);
}

/// A list whose title has no slash is renamed on the server only where its file
/// was renamed since the last sync, to another title than the server's.
pub proof fn law_only_renamed_files_rename_lists(
    file: ListFileView,
    base: Option<SyncedListView>,
    there: RemoteListView,
)
    requires
        !there.title.contains('/'),
    ensures
        (plan::file_step(file, base, Some(there)) is PushRename) == (file.id is Some
            && base is Some && file.title != paths::safe(base->0.title) && file.title
            != paths::safe(there.title)),
{
}

/// What the next run does about a file that has the title of its list and is
/// recorded so: nothing. Only a title with a slash goes back to the server as
/// the file has it.
pub open spec fn settled_step(there: RemoteListView) -> FileStep {
    if there.title.contains('/') {
        FileStep::PushRename
    } else {
        FileStep::Keep
    }
}

/// A title of the server with a slash comes back to the server renamed: its
/// list is renamed after the file, and the file is not renamed.
pub proof fn law_slashed_title_is_pushed_back(
    local: Seq<ListFileView>,
    state: Map<Seq<char>, SyncedListView>,
    remote: Map<Seq<char>, RemoteListView>,
    id: Seq<char>,
    k: int,
)
    requires
        0 <= k < local.len(),
        local[k].id == Some(id),
        state.contains_key(id),
        remote.contains_key(id),
        local[k].title == paths::safe(remote[id].title),
        remote[id].title.contains('/'),
    ensures
        ({
            let p = plan::planned_lists(local, state, remote);
            &&& p.push_renames.contains((id, local[k].title))
            &&& forall|i: int|
                0 <= i < p.pull_renames.len() ==> !((#[trigger] p.pull_renames[i]).0 == id
                    && p.pull_renames[i].1 == local[k].title)
        }),
{
    let f1 = |f: ListFileView|
        if plan::step_of(f, state, remote) is PullRename {
            Some((f.id->0, f.title, paths::safe(remote[f.id->0].title)))
        } else {
            None
        };
    let f4 = |f: ListFileView|
        if plan::step_of(f, state, remote) is PushRename {
            Some((f.id->0, f.title))
        } else {
            None
        };
    let p = plan::planned_lists(local, state, remote);
    seqs::lemma_filter_map_contains(local, f4, k);
    assert forall|i: int| 0 <= i < p.pull_renames.len() implies !((
    #[trigger] p.pull_renames[i]).0 == id && p.pull_renames[i].1 == local[k].title) by {
        seqs::lemma_filter_map_from(local, f1, i);
    }
}

/// A file that was renamed after the server's list, to a title that was free,
/// is settled.
pub proof fn law_pulled_rename_settles(
    local: Seq<ListFileView>,
    k: int,
    id: Seq<char>,
    from: Seq<char>,
    reply: ListReplyView,
    lists: Map<Seq<char>, SyncedListView>,
    remote: Map<Seq<char>, RemoteListView>,
    email: Seq<char>,
    on_disk: Seq<Seq<char>>,
)
    requires
        list_tasks::titled(local, from) == Some(k),
        local[k].id == Some(id),
        remote.contains_key(id),
        !titles::title_taken(paths::safe(remote[id].title), local, on_disk),
    ensures
        ({
            let task = ListTaskView::RenameFile { id, from, to: paths::safe(remote[id].title) };
            let file = list_tasks::lists_after(task, reply, local, remote, on_disk)[k];
            let after = list_tasks::list_states_after(task, reply, lists, local, remote, email);
            &&& file.id == Some(id)
            &&& plan::file_step(file, plan::at(after, id), Some(remote[id])) == settled_step(
                remote[id],
            )
        }),
{
    paths::law_safe_title(remote[id].title);
    list_tasks::lemma_titled(local, from);
}

/// A file that was made for a list of the server, under a title that was free,
/// is settled.
pub proof fn law_added_file_settles(
    local: Seq<ListFileView>,
    id: Seq<char>,
    reply: ListReplyView,
    lists: Map<Seq<char>, SyncedListView>,
    remote: Map<Seq<char>, RemoteListView>,
    email: Seq<char>,
    on_disk: Seq<Seq<char>>,
)
    requires
        remote.contains_key(id),
        !titles::title_taken(paths::safe(remote[id].title), local, on_disk),
    ensures
        ({
            let task = ListTaskView::AddFile { id };
            let file = list_tasks::lists_after(task, reply, local, remote, on_disk).last();
            let after = list_tasks::list_states_after(task, reply, lists, local, remote, email);
            &&& file.id == Some(id)
            &&& plan::file_step(file, plan::at(after, id), Some(remote[id])) == settled_step(
                remote[id],
            )
        }),
{
}

/// A list that was created on the server under its file's title is settled.
pub proof fn law_created_list_settles(
    local: Seq<ListFileView>,
    k: int,
    title: Seq<char>,
    stale: Option<Seq<char>>,
    id: Seq<char>,
    list: RemoteListView,
    lists: Map<Seq<char>, SyncedListView>,
    remote: Map<Seq<char>, RemoteListView>,
    email: Seq<char>,
    on_disk: Seq<Seq<char>>,
)
    requires
        list_tasks::titled(local, title) == Some(k),
        paths::safe(list.title) == title,
    ensures
        ({
            let task = ListTaskView::Create { title, stale };
            let reply = ListReplyView::Created { id, list };
            let file = list_tasks::lists_after(task, reply, local, remote, on_disk)[k];
            let after = list_tasks::list_states_after(task, reply, lists, local, remote, email);
            &&& file.id == Some(id)
            &&& plan::file_step(file, plan::at(after, id), Some(list)) == settled_step(list)
        }),
{
    list_tasks::lemma_titled(local, title);
}

/// A list of which only the server's version was recorded is settled. `k` is
/// the first file with its identity.
pub proof fn law_recorded_list_settles(
    local: Seq<ListFileView>,
    k: int,
    id: Seq<char>,
    reply: ListReplyView,
    lists: Map<Seq<char>, SyncedListView>,
    remote: Map<Seq<char>, RemoteListView>,
    email: Seq<char>,
)
    requires
        list_tasks::identified(local, id) == Some(k),
        plan::step_of(local[k], lists, remote) is Refresh,
    ensures
        ({
            let after = list_tasks::list_states_after(
                ListTaskView::Record { id },
                reply,
                lists,
                local,
                remote,
                email,
            );
            plan::step_of(local[k], after, remote) == settled_step(remote[id])
        }),
{
    paths::law_safe_title(remote[id].title);
    list_tasks::lemma_identified(local, id);
}

/// A task speaks of a list.
pub open spec fn speaks_of(task: ListTaskView, list: Seq<char>) -> bool {
    match task {
        ListTaskView::Create { title, stale } => stale == Some(list),
        ListTaskView::Rename { id, title } => id == list,
        ListTaskView::Delete { id } => id == list,
        ListTaskView::RenameFile { id, from, to } => id == list,
        ListTaskView::DeleteFile { id, title } => id == list,
        ListTaskView::AddFile { id } => id == list,
        ListTaskView::Record { id } => id == list,
    }
}

/// A task leaves what the state holds of other lists than its own as it is.
pub proof fn law_other_lists_stay(
    task: ListTaskView,
    reply: ListReplyView,
    lists: Map<Seq<char>, SyncedListView>,
    local: Seq<ListFileView>,
    remote: Map<Seq<char>, RemoteListView>,
    email: Seq<char>,
    other: Seq<char>,
)
    requires
        !speaks_of(task, other),
        reply matches ListReplyView::Created { id, list } ==> id != other,
    ensures
        plan::at(
            list_tasks::list_states_after(task, reply, lists, local, remote, email),
            other,
        ) == plan::at(lists, other),
{
}

/// No task of a run speaks of a list of another account that its own server
/// does not have, and none touches what the state holds of it, whether or not
/// a file carries its identity.
pub proof fn law_foreign_lists_are_left_alone(
    files: Seq<ListFileView>,
    lists: Map<Seq<char>, SyncedListView>,
    remote: Map<Seq<char>, RemoteListView>,
    email: Seq<char>,
    other: Seq<char>,
    k: int,
    reply: ListReplyView,
)
    requires
        remote.dom().finite(),
        lists.contains_key(other),
        lists[other].account != email,
        !remote.contains_key(other),
        reply matches ListReplyView::Created { id, list } ==> id != other,
        0 <= k < list_tasks::tasks_of(
            plan::planned_lists(
                run::files_of(files, lists, remote, email),
                run::lists_of(lists, email),
                remote,
            ),
        ).len(),
    ensures
        ({
            let task = list_tasks::tasks_of(
                plan::planned_lists(
                    run::files_of(files, lists, remote, email),
                    run::lists_of(lists, email),
                    remote,
                ),
            )[k];
            &&& !speaks_of(task, other)
            &&& forall|now: Map<Seq<char>, SyncedListView>, local: Seq<ListFileView>|
                plan::at(
                    #[trigger] list_tasks::list_states_after(
                        task,
                        reply,
                        now,
                        local,
                        remote,
                        email,
                    ),
                    other,
                ) == plan::at(now, other)
        }),
{
    let local = run::files_of(files, lists, remote, email);
    let own = |f: ListFileView| !run::is_foreign(f, lists, remote, email);
    assert(!plan::has_file(local, other)) by {
        assert forall|i: int| 0 <= i < local.len() implies (#[trigger] local[i]).id != Some(
            other,
        ) by {
            assert(local.contains(local[i]));
            seqs::lemma_filter_contains(files, own, local[i]);
        }
    }
    let state = run::lists_of(lists, email);
    let p = plan::planned_lists(local, state, remote);
    let ids = order::in_order(remote.dom());
    order::law_in_order(remote.dom());
    let f1 = |f: ListFileView|
        if plan::step_of(f, state, remote) is PullRename {
            Some((f.id->0, f.title, paths::safe(remote[f.id->0].title)))
        } else {
            None
        };
    let f2 = |f: ListFileView|
        if plan::step_of(f, state, remote) is PullDelete {
            Some((f.id->0, f.title))
        } else {
            None
        };
    let f3 = |f: ListFileView|
        if plan::step_of(f, state, remote) is Create {
            Some((f.title, f.id))
        } else {
            None
        };
    let f4 = |f: ListFileView|
        if plan::step_of(f, state, remote) is PushRename {
            Some((f.id->0, f.title))
        } else {
            None
        };
    let f5 = |f: ListFileView|
        if plan::step_of(f, state, remote) is Refresh {
            Some(f.id->0)
        } else {
            None
        };
    assert forall|i: int| 0 <= i < p.pull_renames.len() implies #[trigger] p.pull_renames[i].0
        != other by {
        seqs::lemma_filter_map_from(local, f1, i);
    }
    assert forall|i: int| 0 <= i < p.pull_deletes.len() implies #[trigger] p.pull_deletes[i].0
        != other by {
        seqs::lemma_filter_map_from(local, f2, i);
    }
    assert forall|i: int| 0 <= i < p.push_creates.len() implies #[trigger] p.push_creates[i].1
        != Some(other) by {
        seqs::lemma_filter_map_from(local, f3, i);
    }
    assert forall|i: int| 0 <= i < p.push_renames.len() implies #[trigger] p.push_renames[i].0
        != other by {
        seqs::lemma_filter_map_from(local, f4, i);
    }
    assert forall|i: int| 0 <= i < p.refresh.len() implies #[trigger] p.refresh[i] != other by {
        seqs::lemma_filter_map_from(local, f5, i);
    }
    let fresh = |id: Seq<char>| !plan::has_file(local, id) && !state.contains_key(id);
    let gone = |id: Seq<char>| !plan::has_file(local, id) && state.contains_key(id);
    assert forall|i: int| 0 <= i < p.pull_new.len() implies #[trigger] p.pull_new[i] != other by {
        seqs::lemma_filter_contains(ids, fresh, p.pull_new[i]);
        assert(p.pull_new.contains(p.pull_new[i]));
        assert(ids.to_set().contains(p.pull_new[i]));
    }
    assert forall|i: int| 0 <= i < p.push_deletes.len() implies #[trigger] p.push_deletes[i]
        != other by {
        seqs::lemma_filter_contains(ids, gone, p.push_deletes[i]);
        assert(p.push_deletes.contains(p.push_deletes[i]));
        assert(ids.to_set().contains(p.push_deletes[i]));
    }
}

/// The title of the file that a task changes.
pub open spec fn named_file(task: ListTaskView) -> Option<Seq<char>> {
    match task {
        ListTaskView::Create { title, stale } => Some(title),
        ListTaskView::RenameFile { id, from, to } => Some(from),
        ListTaskView::DeleteFile { id, title } => Some(title),
        _ => None,
    }
}

/// A task changes a file that was planned for.
proof fn lemma_named_file(
    local: Seq<ListFileView>,
    state: Map<Seq<char>, SyncedListView>,
    remote: Map<Seq<char>, RemoteListView>,
    k: int,
)
    requires
        0 <= k < list_tasks::tasks_of(plan::planned_lists(local, state, remote)).len(),
    ensures
        named_file(list_tasks::tasks_of(plan::planned_lists(local, state, remote))[k]) matches Some(
            title,
        ) ==> exists|i: int| 0 <= i < local.len() && (#[trigger] local[i]).title == title,
{
    let p = plan::planned_lists(local, state, remote);
    let f1 = |f: ListFileView|
        if plan::step_of(f, state, remote) is PullRename {
            Some((f.id->0, f.title, paths::safe(remote[f.id->0].title)))
        } else {
            None
        };
    let f2 = |f: ListFileView|
        if plan::step_of(f, state, remote) is PullDelete {
            Some((f.id->0, f.title))
        } else {
            None
        };
    let f3 = |f: ListFileView|
        if plan::step_of(f, state, remote) is Create {
            Some((f.title, f.id))
        } else {
            None
        };
    assert forall|j: int| 0 <= j < p.pull_renames.len() implies exists|i: int|
        0 <= i < local.len() && (#[trigger] local[i]).title == (#[trigger] p.pull_renames[j]).1 by {
        seqs::lemma_filter_map_from(local, f1, j);
    }
    assert forall|j: int| 0 <= j < p.pull_deletes.len() implies exists|i: int|
        0 <= i < local.len() && (#[trigger] local[i]).title == (#[trigger] p.pull_deletes[j]).1 by {
        seqs::lemma_filter_map_from(local, f2, j);
    }
    assert forall|j: int| 0 <= j < p.push_creates.len() implies exists|i: int|
        0 <= i < local.len() && (#[trigger] local[i]).title == (#[trigger] p.push_creates[j]).0 by {
        seqs::lemma_filter_map_from(local, f3, j);
    }
}

/// A run leaves the file of another account's list as it is, its identity and
/// its rows: no task changes it, whatever the server answers. No two files
/// have the same title.
pub proof fn law_foreign_files_stay(
    files: Seq<ListFileView>,
    lists: Map<Seq<char>, SyncedListView>,
    remote: Map<Seq<char>, RemoteListView>,
    email: Seq<char>,
    m: int,
    k: int,
    reply: ListReplyView,
    local: Seq<ListFileView>,
    on_disk: Seq<Seq<char>>,
)
    requires
        0 <= m < files.len(),
        run::is_foreign(files[m], lists, remote, email),
        forall|i: int| 0 <= i < files.len() && i != m ==> (#[trigger] files[i]).title
            != files[m].title,
        0 <= k < list_tasks::tasks_of(
            plan::planned_lists(
                run::files_of(files, lists, remote, email),
                run::lists_of(lists, email),
                remote,
            ),
        ).len(),
        local.contains(files[m]),
    ensures
        list_tasks::lists_after(
            list_tasks::tasks_of(
                plan::planned_lists(
                    run::files_of(files, lists, remote, email),
                    run::lists_of(lists, email),
                    remote,
                ),
            )[k],
            reply,
            local,
            remote,
            on_disk,
        ).contains(files[m]),
{
    let planned = run::files_of(files, lists, remote, email);
    let own = |f: ListFileView| !run::is_foreign(f, lists, remote, email);
    let state = run::lists_of(lists, email);
    let task = list_tasks::tasks_of(plan::planned_lists(planned, state, remote))[k];
    lemma_named_file(planned, state, remote, k);
    if let Some(title) = named_file(task) {
        let i = choose|i: int| 0 <= i < planned.len() && (#[trigger] planned[i]).title == title;
        assert(planned.contains(planned[i]));
        seqs::lemma_filter_contains(files, own, planned[i]);
        let n = choose|n: int| 0 <= n < files.len() && files[n] == planned[i];
        assert(n != m);
        assert(title != files[m].title);
        list_tasks::lemma_titled(local, title);
        seqs::lemma_filter_contains(local, |f: ListFileView| f.title != title, files[m]);
    }
    let after = list_tasks::lists_after(task, reply, local, remote, on_disk);
    let j = choose|j: int| 0 <= j < local.len() && local[j] == files[m];
    if task !is DeleteFile {
        assert(after[j] == files[m]);
    }
}

// ── Items ─────────────────────────────────────────────────────────────────

/// The server's items with which something is to be done, and that none of them
/// is named twice.
pub proof fn lemma_uids_with(
    step: ItemStep,
    local: Seq<ItemView>,
    state: Map<Seq<char>, SyncedItemView>,
    remote: Map<Seq<char>, RemoteTodoView>,
    uid: Seq<char>,
)
    requires
        remote.dom().finite(),
    ensures
        plan::uids_with(step, local, state, remote).contains(uid) == (remote.contains_key(uid)
            && plan::item_step(plan::last_row(local, uid), plan::at(state, uid), remote[uid])
            == step),
        plan::uids_with(step, local, state, remote).no_duplicates(),
{
    order::law_in_order(remote.dom());
    let ids = order::in_order(remote.dom());
    let p = |uid: Seq<char>|
        plan::item_step(plan::last_row(local, uid), plan::at(state, uid), remote[uid]) == step;
    seqs::lemma_filter_contains(ids, p, uid);
    assert(ids.contains(uid) == ids.to_set().contains(uid));
    seqs::lemma_filter_distinct(ids, p);
}

/// The parts of a plan that speak of one of the server's items.
pub open spec fn parts_with(plan: PlanView, uid: Seq<char>) -> Seq<bool> {
    seq![
        plan.pull_new.contains(uid),
        plan.pull_updates.contains(uid),
        plan.push_updates.contains(uid),
        plan.push_deletes.contains(uid),
        plan.refresh_etags.contains(uid),
    ]
}

/// Each of the server's items is in the one part of the plan that its row and
/// the state say, and in no other.
pub proof fn law_one_part_for_each_item(
    local: Seq<ItemView>,
    state: Map<Seq<char>, SyncedItemView>,
    remote: Map<Seq<char>, RemoteTodoView>,
    uid: Seq<char>,
)
    requires
        remote.dom().finite(),
        state.dom().finite(),
        remote.contains_key(uid),
    ensures
        ({
            let p = plan::planned_items(local, state, remote);
            let step = plan::item_step(
                plan::last_row(local, uid),
                plan::at(state, uid),
                remote[uid],
            );
            &&& parts_with(p, uid) == seq![
                step == ItemStep::PullNew,
                step == ItemStep::PullUpdate,
                step == ItemStep::PushUpdate,
                step == ItemStep::PushDelete,
                step == ItemStep::RefreshEtag,
            ]
            &&& !p.pull_deletes.contains(uid)
        }),
{
    lemma_uids_with(ItemStep::PullNew, local, state, remote, uid);
    lemma_uids_with(ItemStep::PullUpdate, local, state, remote, uid);
    lemma_uids_with(ItemStep::PushUpdate, local, state, remote, uid);
    lemma_uids_with(ItemStep::PushDelete, local, state, remote, uid);
    lemma_uids_with(ItemStep::RefreshEtag, local, state, remote, uid);
    seqs::lemma_filter_contains(
        order::in_order(state.dom()),
        |u: Seq<char>| !remote.contains_key(u),
        uid,
    );
}

/// Where an item changed here, whether or not it changed on the server too, the
/// row wins: it is pushed, and nothing else is done about the item.
pub proof fn law_local_row_wins(
    local: Seq<ItemView>,
    state: Map<Seq<char>, SyncedItemView>,
    remote: Map<Seq<char>, RemoteTodoView>,
    uid: Seq<char>,
)
    requires
        remote.dom().finite(),
        state.dom().finite(),
        remote.contains_key(uid),
        state.contains_key(uid),
        plan::last_row(local, uid) matches Some(row) && (row.text != state[uid].text || row.done
            != state[uid].done),
    ensures
        parts_with(plan::planned_items(local, state, remote), uid) == seq![
            false,
            false,
            true,
            false,
            false,
        ],
{
    law_one_part_for_each_item(local, state, remote, uid);
}

/// An item that changed on the server alone is pulled, and nothing else is done
/// about it.
pub proof fn law_server_item_comes_down(
    local: Seq<ItemView>,
    state: Map<Seq<char>, SyncedItemView>,
    remote: Map<Seq<char>, RemoteTodoView>,
    uid: Seq<char>,
)
    requires
        remote.dom().finite(),
        state.dom().finite(),
        remote.contains_key(uid),
        state.contains_key(uid),
        plan::last_row(local, uid) matches Some(row) && row.text == state[uid].text && row.done
            == state[uid].done,
        remote[uid].summary != state[uid].text || remote[uid].done != state[uid].done,
    ensures
        parts_with(plan::planned_items(local, state, remote), uid) == seq![
            false,
            true,
            false,
            false,
            false,
        ],
{
    law_one_part_for_each_item(local, state, remote, uid);
}

/// Nothing is done about an item on which the row, the state and the server
/// agree.
pub proof fn law_settled_item_is_kept(
    local: Seq<ItemView>,
    state: Map<Seq<char>, SyncedItemView>,
    remote: Map<Seq<char>, RemoteTodoView>,
    uid: Seq<char>,
)
    requires
        remote.dom().finite(),
        state.dom().finite(),
        remote.contains_key(uid),
        state.contains_key(uid),
        plan::last_row(local, uid) matches Some(row) && row.text == state[uid].text && row.done
            == state[uid].done,
        remote[uid].summary == state[uid].text,
        remote[uid].done == state[uid].done,
        remote[uid].etag == state[uid].etag,
    ensures
        parts_with(plan::planned_items(local, state, remote), uid) == seq![
            false,
            false,
            false,
            false,
            false,
        ],
{
    law_one_part_for_each_item(local, state, remote, uid);
}

/// Where nothing is known of the last sync, no item is deleted, on the server
/// or here.
pub proof fn law_no_state_deletes_no_item(
    local: Seq<ItemView>,
    remote: Map<Seq<char>, RemoteTodoView>,
)
    requires
        remote.dom().finite(),
    ensures
        ({
            let p = plan::planned_items(local, Map::empty(), remote);
            p.push_deletes.len() == 0 && p.pull_deletes.len() == 0
        }),
{
    let state = Map::<Seq<char>, SyncedItemView>::empty();
    let p = plan::planned_items(local, state, remote);
    if p.push_deletes.len() > 0 {
        let uid = p.push_deletes[0];
        assert(p.push_deletes.contains(uid));
        lemma_uids_with(ItemStep::PushDelete, local, state, remote, uid);
    }
    order::law_in_order(state.dom());
    let ids = order::in_order(state.dom());
    assert(ids.len() == 0);
    seqs::lemma_filter_none(ids, |uid: Seq<char>| !remote.contains_key(uid));
}

/// An item that was done before it was ever seen here is not taken in.
pub proof fn law_unknown_done_items_stay_out(
    local: Seq<ItemView>,
    state: Map<Seq<char>, SyncedItemView>,
    remote: Map<Seq<char>, RemoteTodoView>,
    uid: Seq<char>,
)
    requires
        remote.dom().finite(),
        remote.contains_key(uid),
        remote[uid].done,
    ensures
        !plan::planned_items(local, state, remote).pull_new.contains(uid),
{
    lemma_uids_with(ItemStep::PullNew, local, state, remote, uid);
}

/// A tracked item whose row is gone is deleted on the server, if it is still
/// there.
pub proof fn law_missing_row_is_deleted(
    local: Seq<ItemView>,
    state: Map<Seq<char>, SyncedItemView>,
    remote: Map<Seq<char>, RemoteTodoView>,
    uid: Seq<char>,
)
    requires
        remote.dom().finite(),
        remote.contains_key(uid),
        state.contains_key(uid),
        forall|i: int| 0 <= i < local.len() ==> (#[trigger] local[i]).uid != Some(uid),
    ensures
        plan::planned_items(local, state, remote).push_deletes.contains(uid),
{
    lemma_last_row(local, uid);
    lemma_uids_with(ItemStep::PushDelete, local, state, remote, uid);
}

/// A tracked item that is gone from the server leaves the list and the state.
pub proof fn law_gone_item_is_dropped(
    local: Seq<ItemView>,
    state: Map<Seq<char>, SyncedItemView>,
    remote: Map<Seq<char>, RemoteTodoView>,
    uid: Seq<char>,
)
    requires
        state.dom().finite(),
        state.contains_key(uid),
        !remote.contains_key(uid),
    ensures
        plan::planned_items(local, state, remote).pull_deletes.contains(uid),
{
    order::law_in_order(state.dom());
    let ids = order::in_order(state.dom());
    assert(ids.to_set().contains(uid));
    seqs::lemma_filter_contains(ids, |u: Seq<char>| !remote.contains_key(u), uid);
}

/// What the last and the first row of an identity have in common.
pub proof fn lemma_last_row(local: Seq<ItemView>, uid: Seq<char>)
    ensures
        (plan::last_row(local, uid) is Some) == (local::row_of(local, uid) is Some),
        (plan::last_row(local, uid) is Some) == (exists|i: int|
            0 <= i < local.len() && (#[trigger] local[i]).uid == Some(uid)),
        match plan::last_row(local, uid) {
            Some(r) => r.uid == Some(uid) && local.contains(r),
            None => true,
        },
    decreases local.len(),
{
    let p = |i: ItemView| i.uid == Some(uid);
    local::lemma_first_row(local, p);
    if let Some(i) = local::row_of(local, uid) {
        assert(local[i].uid == Some(uid));
    }
    if local.len() > 0 {
        let rest = local.drop_last();
        lemma_last_row(rest, uid);
        assert(local[local.len() - 1] == local.last());
        if local.last().uid != Some(uid) {
            if let Some(r) = plan::last_row(rest, uid) {
                let k = choose|k: int| 0 <= k < rest.len() && rest[k] == r;
                assert(local[k] == r);
            }
            if exists|i: int| 0 <= i < local.len() && (#[trigger] local[i]).uid == Some(uid) {
                let i = choose|i: int| 0 <= i < local.len() && (#[trigger] local[i]).uid == Some(uid);
                assert(rest[i] == local[i]);
            }
        }
    }
}

/// What a plan pulls is on the server.
pub proof fn law_pulls_known(
    local: Seq<ItemView>,
    state: Map<Seq<char>, SyncedItemView>,
    remote: Map<Seq<char>, RemoteTodoView>,
)
    requires
        remote.dom().finite(),
    ensures
        local::pulls_known(plan::planned_items(local, state, remote), remote),
{
    let p = plan::planned_items(local, state, remote);
    assert forall|i: int| 0 <= i < p.pull_new.len() implies remote.contains_key(
        #[trigger] p.pull_new[i],
    ) by {
        assert(p.pull_new.contains(p.pull_new[i]));
        lemma_uids_with(ItemStep::PullNew, local, state, remote, p.pull_new[i]);
    }
    assert forall|i: int| 0 <= i < p.pull_updates.len() implies remote.contains_key(
        #[trigger] p.pull_updates[i],
    ) by {
        assert(p.pull_updates.contains(p.pull_updates[i]));
        lemma_uids_with(ItemStep::PullUpdate, local, state, remote, p.pull_updates[i]);
    }
}

// ── Carrying out a plan for items ─────────────────────────────────────────

/// The state's items after the first `k` tasks, with the server's answers to
/// them.
pub open spec fn items_upto(
    tasks: Seq<ItemTaskView>,
    replies: Seq<ItemReplyView>,
    items: Map<Seq<char>, SyncedItemView>,
    rows: Seq<ItemView>,
    todos: Map<Seq<char>, RemoteTodoView>,
    list: Seq<char>,
    account: Seq<char>,
    k: int,
) -> Map<Seq<char>, SyncedItemView>
    decreases k,
{
    if k <= 0 {
        items
    } else {
        item_tasks::items_after(
            tasks[k - 1],
            replies[k - 1],
            items_upto(tasks, replies, items, rows, todos, list, account, k - 1),
            rows,
            todos,
            list,
            account,
        )
    }
}

/// A task takes an item out of the state.
spec fn drops(task: ItemTaskView, uid: Seq<char>) -> bool {
    task == (ItemTaskView::Known { work: ItemWork::Delete, uid }) || task == (ItemTaskView::Known {
        work: ItemWork::Forget,
        uid,
    })
}

proof fn lemma_stays(
    tasks: Seq<ItemTaskView>,
    replies: Seq<ItemReplyView>,
    items: Map<Seq<char>, SyncedItemView>,
    rows: Seq<ItemView>,
    todos: Map<Seq<char>, RemoteTodoView>,
    list: Seq<char>,
    account: Seq<char>,
    k: int,
    uid: Seq<char>,
)
    requires
        0 <= k <= tasks.len(),
        items.contains_key(uid),
        forall|i: int| 0 <= i < k ==> !drops(#[trigger] tasks[i], uid),
    ensures
        items_upto(tasks, replies, items, rows, todos, list, account, k).contains_key(uid),
    decreases k,
{
    if k > 0 {
        lemma_stays(tasks, replies, items, rows, todos, list, account, k - 1, uid);
        assert(!drops(tasks[k - 1], uid));
    }
}

/// Every task of a plan can be done when its turn comes, whatever the server
/// answered to those before it: the row, the server's item or the tracked item
/// that it speaks of is there. `items` is the whole state, of which the plan
/// was made for a part.
pub proof fn law_item_tasks_ready(
    rows: Seq<ItemView>,
    state: Map<Seq<char>, SyncedItemView>,
    todos: Map<Seq<char>, RemoteTodoView>,
    items: Map<Seq<char>, SyncedItemView>,
    replies: Seq<ItemReplyView>,
    list: Seq<char>,
    account: Seq<char>,
    k: int,
)
    requires
        todos.dom().finite(),
        state.dom().finite(),
        state.submap_of(items),
        0 <= k < item_tasks::item_tasks_of(plan::planned_items(rows, state, todos)).len(),
    ensures
        ({
            let tasks = item_tasks::item_tasks_of(plan::planned_items(rows, state, todos));
            item_tasks::item_task_ready(
                tasks[k],
                rows,
                todos,
                items_upto(tasks, replies, items, rows, todos, list, account, k),
            )
        }),
{
    let p = plan::planned_items(rows, state, todos);
    let tasks = item_tasks::item_tasks_of(p);
    let n1 = p.push_updates.len() as int;
    let n2 = n1 + p.push_creates.len();
    let n3 = n2 + p.push_deletes.len();
    let n4 = n3 + p.pull_new.len();
    let n5 = n4 + p.pull_updates.len();
    if k < n1 {
        let uid = p.push_updates[k];
        assert(p.push_updates.contains(uid));
        lemma_uids_with(ItemStep::PushUpdate, rows, state, todos, uid);
        lemma_last_row(rows, uid);
        assert(tasks[k] == (ItemTaskView::Known { work: ItemWork::Update, uid }));
    } else if k < n2 {
        assert(tasks[k] is Create);
    } else if k < n3 {
        let uid = p.push_deletes[k - n2];
        assert(p.push_deletes.contains(uid));
        lemma_uids_with(ItemStep::PushDelete, rows, state, todos, uid);
        assert(tasks[k] == (ItemTaskView::Known { work: ItemWork::Delete, uid }));
        assert(state.contains_key(uid));
        assert(items.contains_key(uid));
        assert forall|i: int| 0 <= i < k implies !drops(#[trigger] tasks[i], uid) by {
            if i < n1 {
                assert(tasks[i] == (ItemTaskView::Known {
                    work: ItemWork::Update,
                    uid: p.push_updates[i],
                }));
            } else if i < n2 {
                assert(tasks[i] is Create);
            } else {
                assert(tasks[i] == (ItemTaskView::Known {
                    work: ItemWork::Delete,
                    uid: p.push_deletes[i - n2],
                }));
                assert(p.push_deletes[i - n2] != p.push_deletes[k - n2]);
            }
        }
        lemma_stays(tasks, replies, items, rows, todos, list, account, k, uid);
    } else if k < n4 {
        let uid = p.pull_new[k - n3];
        assert(p.pull_new.contains(uid));
        lemma_uids_with(ItemStep::PullNew, rows, state, todos, uid);
        assert(tasks[k] == (ItemTaskView::Known { work: ItemWork::Take, uid }));
    } else if k < n5 {
        let uid = p.pull_updates[k - n4];
        assert(p.pull_updates.contains(uid));
        lemma_uids_with(ItemStep::PullUpdate, rows, state, todos, uid);
        assert(tasks[k] == (ItemTaskView::Known { work: ItemWork::Take, uid }));
    }
}

/// A push that the server did not do changes nothing, so that the next run
/// does it again.
pub proof fn law_failed_item_push_changes_nothing(
    task: ItemTaskView,
    items: Map<Seq<char>, SyncedItemView>,
    rows: Seq<ItemView>,
    todos: Map<Seq<char>, RemoteTodoView>,
    list: Seq<char>,
    account: Seq<char>,
    created: Seq<(Seq<char>, Option<Seq<char>>, Seq<char>)>,
)
    requires
        task matches ItemTaskView::Known { work, uid } ==> work == ItemWork::Update || work
            == ItemWork::Delete,
    ensures
        item_tasks::items_after(task, ItemReplyView::Nothing, items, rows, todos, list, account)
            == items,
        item_tasks::created_after(task, ItemReplyView::Nothing, created) == created,
{
}

/// A task leaves what the state holds of other items than its own as it is.
pub proof fn law_other_items_stay(
    task: ItemTaskView,
    reply: ItemReplyView,
    items: Map<Seq<char>, SyncedItemView>,
    rows: Seq<ItemView>,
    todos: Map<Seq<char>, RemoteTodoView>,
    list: Seq<char>,
    account: Seq<char>,
    other: Seq<char>,
)
    requires
        task matches ItemTaskView::Known { work, uid } ==> uid != other,
        reply matches ItemReplyView::Created { uid, url, etag } ==> uid != other,
    ensures
        plan::at(
            item_tasks::items_after(task, reply, items, rows, todos, list, account),
            other,
        ) == plan::at(items, other),
{
}

/// No task of a plan speaks of an item that neither the server nor the part of
/// the state that it was made for has: the items of other accounts and of
/// other lists stay as they are.
pub proof fn law_foreign_items_are_left_alone(
    rows: Seq<ItemView>,
    state: Map<Seq<char>, SyncedItemView>,
    todos: Map<Seq<char>, RemoteTodoView>,
    other: Seq<char>,
    k: int,
)
    requires
        todos.dom().finite(),
        state.dom().finite(),
        !todos.contains_key(other),
        !state.contains_key(other),
        0 <= k < item_tasks::item_tasks_of(plan::planned_items(rows, state, todos)).len(),
    ensures
        item_tasks::item_tasks_of(
            plan::planned_items(rows, state, todos),
        )[k] matches ItemTaskView::Known { work, uid } ==> uid != other,
{
    let p = plan::planned_items(rows, state, todos);
    lemma_uids_with(ItemStep::PushUpdate, rows, state, todos, other);
    lemma_uids_with(ItemStep::PushDelete, rows, state, todos, other);
    lemma_uids_with(ItemStep::PullNew, rows, state, todos, other);
    lemma_uids_with(ItemStep::PullUpdate, rows, state, todos, other);
    lemma_uids_with(ItemStep::RefreshEtag, rows, state, todos, other);
    order::law_in_order(state.dom());
    let ids = order::in_order(state.dom());
    seqs::lemma_filter_contains(ids, |u: Seq<char>| !todos.contains_key(u), other);
    assert(ids.contains(other) == ids.to_set().contains(other));
    let n1 = p.push_updates.len() as int;
    let n2 = n1 + p.push_creates.len();
    let n3 = n2 + p.push_deletes.len();
    let n4 = n3 + p.pull_new.len();
    let n5 = n4 + p.pull_updates.len();
    let n6 = n5 + p.pull_deletes.len();
    if k < n1 {
        assert(p.push_updates.contains(p.push_updates[k]));
    } else if k < n2 {
    } else if k < n3 {
        assert(p.push_deletes.contains(p.push_deletes[k - n2]));
    } else if k < n4 {
        assert(p.pull_new.contains(p.pull_new[k - n3]));
    } else if k < n5 {
        assert(p.pull_updates.contains(p.pull_updates[k - n4]));
    } else if k < n6 {
        assert(p.pull_deletes.contains(p.pull_deletes[k - n5]));
    } else {
        assert(p.refresh_etags.contains(p.refresh_etags[k - n6]));
    }
}

// ── The next run ──────────────────────────────────────────────────────────

/// An item that was pushed needs nothing more in the next run, once the server
/// has what was pushed.
pub proof fn law_pushed_item_settles(
    uid: Seq<char>,
    etag: Seq<char>,
    items: Map<Seq<char>, SyncedItemView>,
    rows: Seq<ItemView>,
    todos: Map<Seq<char>, RemoteTodoView>,
    list: Seq<char>,
    account: Seq<char>,
    there: RemoteTodoView,
)
    requires
        local::row_of(rows, uid) is Some,
        plan::last_row(rows, uid) == Some(rows[local::row_of(rows, uid)->0]),
        there.summary == rows[local::row_of(rows, uid)->0].text,
        there.done == rows[local::row_of(rows, uid)->0].done,
        there.etag == etag,
    ensures
        ({
            let after = item_tasks::items_after(
                ItemTaskView::Known { work: ItemWork::Update, uid },
                ItemReplyView::Updated { etag },
                items,
                rows,
                todos,
                list,
                account,
            );
            plan::item_step(plan::last_row(rows, uid), plan::at(after, uid), there)
                == ItemStep::Keep
        }),
{
}

/// An item that was created needs nothing more in the next run, once its row
/// carries its identity and the server has what was created.
pub proof fn law_created_item_settles(
    text: Seq<char>,
    done: bool,
    stale: Option<Seq<char>>,
    uid: Seq<char>,
    url: Seq<char>,
    etag: Seq<char>,
    items: Map<Seq<char>, SyncedItemView>,
    rows: Seq<ItemView>,
    todos: Map<Seq<char>, RemoteTodoView>,
    list: Seq<char>,
    account: Seq<char>,
    row: ItemView,
    there: RemoteTodoView,
)
    requires
        row.text == text,
        row.done == done,
        there.summary == text,
        there.done == done,
        there.etag == etag,
    ensures
        ({
            let after = item_tasks::items_after(
                ItemTaskView::Create { text, done, stale },
                ItemReplyView::Created { uid, url, etag },
                items,
                rows,
                todos,
                list,
                account,
            );
            plan::item_step(Some(row), plan::at(after, uid), there) == ItemStep::Keep
        }),
{
}

/// An item that was pulled needs nothing more in the next run: its row is as
/// the server has it, and so is the state.
pub proof fn law_pulled_item_settles(
    uid: Seq<char>,
    reply: ItemReplyView,
    items: Map<Seq<char>, SyncedItemView>,
    rows: Seq<ItemView>,
    todos: Map<Seq<char>, RemoteTodoView>,
    list: Seq<char>,
    account: Seq<char>,
)
    requires
        todos.contains_key(uid),
        local::row_of(rows, uid) is Some,
        forall|i: int, j: int|
            0 <= i < rows.len() && 0 <= j < rows.len() && (#[trigger] rows[i]).uid == Some(uid) && (
            #[trigger] rows[j]).uid == Some(uid) ==> i == j,
    ensures
        ({
            let after = item_tasks::items_after(
                ItemTaskView::Known { work: ItemWork::Take, uid },
                reply,
                items,
                rows,
                todos,
                list,
                account,
            );
            let pulled = local::take_update(rows, uid, todos[uid]);
            plan::item_step(plan::last_row(pulled, uid), plan::at(after, uid), todos[uid])
                == ItemStep::Keep
        }),
{
    let p = |i: ItemView| i.uid == Some(uid);
    local::lemma_first_row(rows, p);
    let i = local::row_of(rows, uid)->0;
    let pulled = local::take_update(rows, uid, todos[uid]);
    assert(pulled[i].uid == Some(uid));
    lemma_last_row(pulled, uid);
    let r = plan::last_row(pulled, uid)->0;
    let k = choose|k: int| 0 <= k < pulled.len() && pulled[k] == r;
    assert(rows[k].uid == Some(uid));
    assert(k == i);
}

/// An item whose version tag was recorded needs nothing more in the next run:
/// one that the state did not know is adopted.
pub proof fn law_recorded_etag_settles(
    uid: Seq<char>,
    reply: ItemReplyView,
    row: ItemView,
    items: Map<Seq<char>, SyncedItemView>,
    rows: Seq<ItemView>,
    todos: Map<Seq<char>, RemoteTodoView>,
    list: Seq<char>,
    account: Seq<char>,
)
    requires
        todos.contains_key(uid),
        plan::item_step(Some(row), plan::at(items, uid), todos[uid]) == ItemStep::RefreshEtag,
    ensures
        ({
            let after = item_tasks::items_after(
                ItemTaskView::Known { work: ItemWork::Retag, uid },
                reply,
                items,
                rows,
                todos,
                list,
                account,
            );
            &&& after.contains_key(uid)
            &&& plan::item_step(Some(row), plan::at(after, uid), todos[uid]) == ItemStep::Keep
        }),
{
}

// ── Rows ──────────────────────────────────────────────────────────────────

/// A row that was moved in from another list is created in this one.
pub proof fn law_moved_row_is_created(
    items: Seq<ItemView>,
    foreign: Map<Seq<char>, SyncedItemView>,
    owners: Map<Seq<char>, Seq<char>>,
    list: Seq<char>,
    state: Map<Seq<char>, SyncedItemView>,
    todos: Map<Seq<char>, RemoteTodoView>,
    k: int,
)
    requires
        0 <= k < items.len(),
        run::is_moved(items[k], owners, list),
        !foreign.contains_key(items[k].uid->0),
    ensures
        plan::planned_items(
            run::planned_rows(items, foreign, owners, list),
            state,
            todos,
        ).push_creates.contains((items[k].text, items[k].done, None)),
        run::moved_in(items, owners, list).contains((items[k].text, items[k].uid->0)),
{
    let f = |row: ItemView|
        if row.uid is Some && foreign.contains_key(row.uid->0) {
            None
        } else if run::is_moved(row, owners, list) {
            Some((ItemView { uid: None, ..row }))
        } else {
            Some(row)
        };
    let rows = run::planned_rows(items, foreign, owners, list);
    seqs::lemma_filter_map_contains(items, f, k);
    let made = ItemView { uid: None, ..items[k] };
    let i = choose|i: int| 0 <= i < rows.len() && rows[i] == made;
    let g = |row: ItemView| plan::row_create(row, state, todos);
    seqs::lemma_filter_map_contains(rows, g, i);
    let h = |row: ItemView|
        if run::is_moved(row, owners, list) {
            Some((row.text, row.uid->0))
        } else {
            None
        };
    seqs::lemma_filter_map_contains(items, h, k);
}

/// `p` holds of no row that the local half of a plan changes, takes out or
/// adds.
pub open spec fn spares(
    p: spec_fn(ItemView) -> bool,
    plan: PlanView,
    created: Seq<(Seq<char>, Option<Seq<char>>, Seq<char>)>,
    moved_from: Seq<(Seq<char>, Seq<char>)>,
) -> bool {
    &&& forall|i: ItemView| #[trigger]
        p(i) && i.uid is Some ==> !plan.pull_deletes.contains(i.uid->0)
            && !plan.pull_updates.contains(i.uid->0) && !plan.pull_new.contains(i.uid->0)
    &&& forall|i: ItemView, k: int|
        #![trigger p(i), created[k]]
        0 <= k < created.len() && p(i) ==> i.uid != Some(created[k].2) && match created[k].1 {
            Some(u) => i.uid != Some(u),
            None => match local::moved_uid(moved_from, created[k].0) {
                Some(u) => i.uid != Some(u),
                None => !(i.uid is None && i.text == created[k].0),
            },
        }
}

/// Changing one row that `p` does not hold of, into one that it does not hold
/// of, changes nothing of what it holds of.
proof fn lemma_filter_update(
    rows: Seq<ItemView>,
    k: int,
    row: ItemView,
    p: spec_fn(ItemView) -> bool,
)
    requires
        0 <= k < rows.len(),
        !p(rows[k]),
        !p(row),
    ensures
        rows.update(k, row).filter(p) == rows.filter(p),
    decreases rows.len(),
{
    reveal(Seq::filter);
    let n = rows.len() - 1;
    if k < n {
        lemma_filter_update(rows.drop_last(), k, row, p);
        assert(rows.update(k, row).drop_last() =~= rows.drop_last().update(k, row));
    } else {
        assert(rows.update(k, row).drop_last() =~= rows.drop_last());
    }
}

proof fn lemma_updates_spare(
    rows: Seq<ItemView>,
    uids: Seq<Seq<char>>,
    remote: Map<Seq<char>, RemoteTodoView>,
    p: spec_fn(ItemView) -> bool,
)
    requires
        forall|i: ItemView| #[trigger] p(i) && i.uid is Some ==> !uids.contains(i.uid->0),
    ensures
        local::take_updates(rows, uids, remote).filter(p) == rows.filter(p),
    decreases uids.len(),
{
    if uids.len() > 0 {
        let rest = uids.drop_last();
        assert forall|i: ItemView| #[trigger] p(i) && i.uid is Some implies !rest.contains(
            i.uid->0,
        ) by {
            if rest.contains(i.uid->0) {
                let k = choose|k: int| 0 <= k < rest.len() && rest[k] == i.uid->0;
                assert(uids[k] == i.uid->0);
            }
        }
        lemma_updates_spare(rows, rest, remote, p);
        let had = local::take_updates(rows, rest, remote);
        let uid = uids.last();
        assert(uids.contains(uid)) by {
            assert(uids[uids.len() - 1] == uid);
        }
        local::lemma_first_row(had, |i: ItemView| i.uid == Some(uid));
        if let Some(k) = local::row_of(had, uid) {
            let row = ItemView {
                text: remote[uid].summary,
                done: remote[uid].done,
                ..had[k]
            };
            lemma_filter_update(had, k, row, p);
        }
    }
}

proof fn lemma_annotations_spare(
    rows: Seq<ItemView>,
    created: Seq<(Seq<char>, Option<Seq<char>>, Seq<char>)>,
    moved_from: Seq<(Seq<char>, Seq<char>)>,
    p: spec_fn(ItemView) -> bool,
)
    requires
        forall|i: ItemView, k: int|
            #![trigger p(i), created[k]]
            0 <= k < created.len() && p(i) ==> i.uid != Some(created[k].2) && match created[k].1 {
                Some(u) => i.uid != Some(u),
                None => match local::moved_uid(moved_from, created[k].0) {
                    Some(u) => i.uid != Some(u),
                    None => !(i.uid is None && i.text == created[k].0),
                },
            },
    ensures
        local::annotate_all(rows, created, moved_from).filter(p) == rows.filter(p),
    decreases created.len(),
{
    if created.len() > 0 {
        let rest = created.drop_last();
        assert forall|i: ItemView, k: int|
            #![trigger p(i), rest[k]]
            0 <= k < rest.len() && p(i) implies i.uid != Some(rest[k].2) && match rest[k].1 {
            Some(u) => i.uid != Some(u),
            None => match local::moved_uid(moved_from, rest[k].0) {
                Some(u) => i.uid != Some(u),
                None => !(i.uid is None && i.text == rest[k].0),
            },
        } by {
            assert(rest[k] == created[k]);
        }
        lemma_annotations_spare(rows, rest, moved_from, p);
        let had = local::annotate_all(rows, rest, moved_from);
        let made = created.last();
        assert(created[created.len() - 1] == made);
        let stale = match made.1 {
            Some(u) => Some(u),
            None => local::moved_uid(moved_from, made.0),
        };
        if let Some(u) = stale {
            local::lemma_first_row(had, |i: ItemView| i.uid == Some(u));
        } else {
            local::lemma_first_row(had, |i: ItemView| i.uid is None && i.text == made.0);
        }
        if let Some(k) = local::created_row(had, made, moved_from) {
            let row = ItemView { uid: Some(made.2), ..had[k] };
            assert(!p(had[k]));
            assert(!p(row));
            lemma_filter_update(had, k, row, p);
        }
    }
}

/// Rows that the plan does not speak of survive as they are and in order: what
/// was typed while the server was talked to, and rows of other accounts.
pub proof fn law_other_rows_survive(
    rows: Seq<ItemView>,
    plan: PlanView,
    remote: Map<Seq<char>, RemoteTodoView>,
    created: Seq<(Seq<char>, Option<Seq<char>>, Seq<char>)>,
    moved_from: Seq<(Seq<char>, Seq<char>)>,
    p: spec_fn(ItemView) -> bool,
)
    requires
        spares(p, plan, created, moved_from),
    ensures
        local::applied(rows, plan, remote, created, moved_from).filter(p) == rows.filter(p),
{
    let kept = local::without_gone(rows, plan.pull_deletes);
    let stays = |i: ItemView| i.uid is None || !plan.pull_deletes.contains(i.uid->0);
    lemma_filter_filter(rows, stays, p);
    lemma_updates_spare(kept, plan.pull_updates, remote, p);
    let fresh = local::take_updates(kept, plan.pull_updates, remote);
    lemma_annotations_spare(fresh, created, moved_from, p);
    let marked = local::annotate_all(fresh, created, moved_from);
    let added = local::new_rows(plan.pull_new, remote);
    assert forall|i: int| 0 <= i < added.len() implies !p(#[trigger] added[i]) by {
        assert(added[i].uid == Some(plan.pull_new[i]));
        assert(plan.pull_new.contains(plan.pull_new[i]));
    }
    seqs::lemma_filter_none(added, p);
    Seq::filter_distributes_over_add(marked, added, p);
    assert(marked.filter(p) + Seq::<ItemView>::empty() =~= marked.filter(p));
}

/// Filtering by less first makes no difference.
proof fn lemma_filter_filter(
    rows: Seq<ItemView>,
    q: spec_fn(ItemView) -> bool,
    p: spec_fn(ItemView) -> bool,
)
    requires
        forall|i: ItemView| #[trigger] p(i) ==> q(i),
    ensures
        rows.filter(q).filter(p) == rows.filter(p),
    decreases rows.len(),
{
    reveal(Seq::filter);
    if rows.len() > 0 {
        let rest = rows.drop_last();
        lemma_filter_filter(rest, q, p);
        if q(rows.last()) {
            assert(rest.filter(q).push(rows.last()).drop_last() =~= rest.filter(q));
        }
    }
}

/// A row that was created anew takes its new identity in the place of the one
/// that it carried, and no other row changes.
pub proof fn law_recreated_row_is_reannotated(
    rows: Seq<ItemView>,
    text: Seq<char>,
    stale: Seq<char>,
    uid: Seq<char>,
    moved_from: Seq<(Seq<char>, Seq<char>)>,
    k: int,
)
    requires
        0 <= k < rows.len(),
        rows[k].uid == Some(stale),
        forall|j: int| 0 <= j < k ==> (#[trigger] rows[j]).uid != Some(stale),
    ensures
        local::annotate(rows, (text, Some(stale), uid), moved_from) == rows.update(
            k,
            (ItemView { uid: Some(uid), ..rows[k] }),
        ),
{
    local::lemma_first_row(rows, |i: ItemView| i.uid == Some(stale));
}

/// A row that was moved in from another list and created in this one takes its
/// new identity in the place of the one that it came with.
pub proof fn law_moved_row_is_reannotated(
    rows: Seq<ItemView>,
    text: Seq<char>,
    came_with: Seq<char>,
    uid: Seq<char>,
    moved_from: Seq<(Seq<char>, Seq<char>)>,
    k: int,
)
    requires
        local::moved_uid(moved_from, text) == Some(came_with),
        0 <= k < rows.len(),
        rows[k].uid == Some(came_with),
        forall|j: int| 0 <= j < k ==> (#[trigger] rows[j]).uid != Some(came_with),
    ensures
        local::annotate(rows, (text, None, uid), moved_from) == rows.update(
            k,
            (ItemView { uid: Some(uid), ..rows[k] }),
        ),
{
    local::lemma_first_row(rows, |i: ItemView| i.uid == Some(came_with));
}

} // verus!
