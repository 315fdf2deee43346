//! What a plan holds for each item and for each list, case by case: which of
//! its parts name it, in terms of the rows, the files, the state and the server
//! alone.
use vstd::prelude::*;

use crate::model::{ItemView, ListFileView, SyncedItemView, SyncedListView};
use crate::order;
use crate::paths;
use crate::plan;
use crate::plan::ItemStep;
use crate::plan_laws;
use crate::remote::{RemoteListView, RemoteTodoView};
use crate::seqs;

verus! {

// ── Items ─────────────────────────────────────────────────────────────────

/// No row carries an identity.
pub open spec fn no_row(rows: Seq<ItemView>, uid: Seq<char>) -> bool {
    forall|i: int| 0 <= i < rows.len() ==> (#[trigger] rows[i]).uid != Some(uid)
}

/// The last row that carries an identity stands at `k`.
pub open spec fn last_row_at(rows: Seq<ItemView>, uid: Seq<char>, k: int) -> bool {
    &&& 0 <= k < rows.len()
    &&& rows[k].uid == Some(uid)
    &&& forall|j: int| k < j < rows.len() ==> (#[trigger] rows[j]).uid != Some(uid)
}

proof fn lemma_no_row(rows: Seq<ItemView>, uid: Seq<char>)
    requires
        no_row(rows, uid),
    ensures
        plan::last_row(rows, uid) is None,
    decreases rows.len(),
{
    if rows.len() > 0 {
        let rest = rows.drop_last();
        assert(rows[rows.len() - 1].uid != Some(uid));
        assert forall|i: int| 0 <= i < rest.len() implies (#[trigger] rest[i]).uid != Some(uid) by {
            assert(rest[i] == rows[i]);
        }
        lemma_no_row(rest, uid);
    }
}

proof fn lemma_last_row_at(rows: Seq<ItemView>, uid: Seq<char>, k: int)
    requires
        last_row_at(rows, uid, k),
    ensures
        plan::last_row(rows, uid) == Some(rows[k]),
    decreases rows.len(),
{
    let rest = rows.drop_last();
    if k < rest.len() {
        assert(rows[rows.len() - 1].uid != Some(uid));
        assert forall|j: int| k < j < rest.len() implies (#[trigger] rest[j]).uid != Some(uid) by {
            assert(rest[j] == rows[j]);
        }
        lemma_last_row_at(rest, uid, k);
    }
}

proof fn lemma_parts(
    local: Seq<ItemView>,
    state: Map<Seq<char>, SyncedItemView>,
    remote: Map<Seq<char>, RemoteTodoView>,
    uid: Seq<char>,
)
    requires
        remote.dom().finite(),
        state.dom().finite(),
    ensures
        ({
            let p = plan::planned_items(local, state, remote);
            let step = plan::item_step(
                plan::last_row(local, uid),
                plan::at(state, uid),
                remote[uid],
            );
            let there = remote.contains_key(uid);
            &&& p.pull_new.contains(uid) == (there && step == ItemStep::PullNew)
            &&& p.pull_updates.contains(uid) == (there && step == ItemStep::PullUpdate)
            &&& p.push_updates.contains(uid) == (there && step == ItemStep::PushUpdate)
            &&& p.push_deletes.contains(uid) == (there && step == ItemStep::PushDelete)
            &&& p.refresh_etags.contains(uid) == (there && step == ItemStep::RefreshEtag)
            &&& p.pull_deletes.contains(uid) == (!there && state.contains_key(uid))
        }),
{
    plan_laws::lemma_uids_with(ItemStep::PullNew, local, state, remote, uid);
    plan_laws::lemma_uids_with(ItemStep::PullUpdate, local, state, remote, uid);
    plan_laws::lemma_uids_with(ItemStep::PushUpdate, local, state, remote, uid);
    plan_laws::lemma_uids_with(ItemStep::PushDelete, local, state, remote, uid);
    plan_laws::lemma_uids_with(ItemStep::RefreshEtag, local, state, remote, uid);
    order::law_in_order(state.dom());
    let ids = order::in_order(state.dom());
    assert(ids.contains(uid) == ids.to_set().contains(uid));
    seqs::lemma_filter_contains(ids, |u: Seq<char>| !remote.contains_key(u), uid);
}

/// An item of the server that no row carries is new where the state does not
/// know it and it is not done; it is to be deleted there where the state knows
/// it; and nothing else is done about it. Its URL, its version tag, its lines
/// and its list play no part.
pub proof fn law_item_without_row(
    local: Seq<ItemView>,
    state: Map<Seq<char>, SyncedItemView>,
    remote: Map<Seq<char>, RemoteTodoView>,
    uid: Seq<char>,
)
    requires
        remote.dom().finite(),
        state.dom().finite(),
        remote.contains_key(uid),
        no_row(local, uid),
    ensures
        ({
            let p = plan::planned_items(local, state, remote);
            &&& p.pull_new.contains(uid) <==> !state.contains_key(uid) && !remote[uid].done
            &&& p.push_deletes.contains(uid) <==> state.contains_key(uid)
            &&& !p.pull_updates.contains(uid)
            &&& !p.push_updates.contains(uid)
            &&& !p.refresh_etags.contains(uid)
            &&& !p.pull_deletes.contains(uid)
        }),
{
    lemma_no_row(local, uid);
    lemma_parts(local, state, remote, uid);
}

/// An item that a row carries and that the state knows goes up where the row's
/// text or its mark differs from what was last synced, comes down where only
/// the server's do, and has its version tag taken where only that differs.
pub proof fn law_known_item_with_row(
    local: Seq<ItemView>,
    state: Map<Seq<char>, SyncedItemView>,
    remote: Map<Seq<char>, RemoteTodoView>,
    uid: Seq<char>,
    k: int,
)
    requires
        remote.dom().finite(),
        state.dom().finite(),
        remote.contains_key(uid),
        state.contains_key(uid),
        last_row_at(local, uid, k),
    ensures
        ({
            let p = plan::planned_items(local, state, remote);
            let here = local[k].text != state[uid].text || local[k].done != state[uid].done;
            let there = remote[uid].summary != state[uid].text || remote[uid].done
                != state[uid].done;
            &&& p.push_updates.contains(uid) <==> here
            &&& p.pull_updates.contains(uid) <==> !here && there
            &&& p.refresh_etags.contains(uid) <==> !here && !there && remote[uid].etag
                != state[uid].etag
            &&& !p.pull_new.contains(uid)
            &&& !p.push_deletes.contains(uid)
            &&& !p.pull_deletes.contains(uid)
        }),
{
    lemma_last_row_at(local, uid, k);
    lemma_parts(local, state, remote, uid);
}

/// An item that a row carries and that the state does not know goes up where
/// the row's text or its mark differs from the server's, and is only recorded
/// where they agree.
pub proof fn law_unknown_item_with_row(
    local: Seq<ItemView>,
    state: Map<Seq<char>, SyncedItemView>,
    remote: Map<Seq<char>, RemoteTodoView>,
    uid: Seq<char>,
    k: int,
)
    requires
        remote.dom().finite(),
        state.dom().finite(),
        remote.contains_key(uid),
        !state.contains_key(uid),
        last_row_at(local, uid, k),
    ensures
        ({
            let p = plan::planned_items(local, state, remote);
            let differ = local[k].text != remote[uid].summary || local[k].done
                != remote[uid].done;
            &&& p.push_updates.contains(uid) <==> differ
            &&& p.refresh_etags.contains(uid) <==> !differ
            &&& !p.pull_updates.contains(uid)
            &&& !p.pull_new.contains(uid)
            &&& !p.push_deletes.contains(uid)
            &&& !p.pull_deletes.contains(uid)
        }),
{
    lemma_last_row_at(local, uid, k);
    lemma_parts(local, state, remote, uid);
}

/// An item that the server does not have goes from here exactly where the state
/// knows it, whatever the rows say, and no other part names it.
pub proof fn law_item_gone_from_server(
    local: Seq<ItemView>,
    state: Map<Seq<char>, SyncedItemView>,
    remote: Map<Seq<char>, RemoteTodoView>,
    uid: Seq<char>,
)
    requires
        remote.dom().finite(),
        state.dom().finite(),
        !remote.contains_key(uid),
    ensures
        ({
            let p = plan::planned_items(local, state, remote);
            &&& p.pull_deletes.contains(uid) <==> state.contains_key(uid)
            &&& !p.pull_new.contains(uid)
            &&& !p.pull_updates.contains(uid)
            &&& !p.push_updates.contains(uid)
            &&& !p.push_deletes.contains(uid)
            &&& !p.refresh_etags.contains(uid)
        }),
{
    lemma_parts(local, state, remote, uid);
}

proof fn lemma_filter_ascending(s: Seq<Seq<char>>, p: spec_fn(Seq<char>) -> bool)
    requires
        order::ascending(s),
    ensures
        order::ascending(s.filter(p)),
    decreases s.len(),
{
    reveal(Seq::filter);
    if s.len() > 0 {
        let t = s.drop_last();
        assert forall|i: int, j: int| 0 <= i < j < t.len() implies order::precedes(
            #[trigger] t[i],
            #[trigger] t[j],
        ) by {
            assert(order::precedes(s[i], s[j]));
        }
        lemma_filter_ascending(t, p);
        let k = t.filter(p);
        if p(s.last()) {
            assert forall|i: int, j: int| 0 <= i < j < k.push(s.last()).len() implies
                order::precedes(
                #[trigger] k.push(s.last())[i],
                #[trigger] k.push(s.last())[j],
            ) by {
                if j == k.len() {
                    assert(k.contains(k[i]));
                    seqs::lemma_filter_contains(t, p, k[i]);
                    let m = choose|m: int| 0 <= m < t.len() && t[m] == k[i];
                    assert(order::precedes(s[m], s[s.len() - 1]));
                }
            }
        }
    }
}

/// Each part of a plan that names items names them in ascending order, none of
/// them twice.
pub proof fn law_item_parts_ascend(
    local: Seq<ItemView>,
    state: Map<Seq<char>, SyncedItemView>,
    remote: Map<Seq<char>, RemoteTodoView>,
)
    requires
        remote.dom().finite(),
        state.dom().finite(),
    ensures
        ({
            let p = plan::planned_items(local, state, remote);
            &&& order::ascending(p.pull_new)
            &&& order::ascending(p.pull_updates)
            &&& order::ascending(p.pull_deletes)
            &&& order::ascending(p.push_updates)
            &&& order::ascending(p.push_deletes)
            &&& order::ascending(p.refresh_etags)
        }),
{
    order::law_in_order(remote.dom());
    order::law_in_order(state.dom());
    let ids = order::in_order(remote.dom());
    let known = order::in_order(state.dom());
    lemma_filter_ascending(ids, |uid: Seq<char>| plan::item_step(
        plan::last_row(local, uid),
        plan::at(state, uid),
        remote[uid],
    ) == ItemStep::PullNew);
    lemma_filter_ascending(ids, |uid: Seq<char>| plan::item_step(
        plan::last_row(local, uid),
        plan::at(state, uid),
        remote[uid],
    ) == ItemStep::PullUpdate);
    lemma_filter_ascending(ids, |uid: Seq<char>| plan::item_step(
        plan::last_row(local, uid),
        plan::at(state, uid),
        remote[uid],
    ) == ItemStep::PushUpdate);
    lemma_filter_ascending(ids, |uid: Seq<char>| plan::item_step(
        plan::last_row(local, uid),
        plan::at(state, uid),
        remote[uid],
    ) == ItemStep::PushDelete);
    lemma_filter_ascending(ids, |uid: Seq<char>| plan::item_step(
        plan::last_row(local, uid),
        plan::at(state, uid),
        remote[uid],
    ) == ItemStep::RefreshEtag);
    lemma_filter_ascending(known, |uid: Seq<char>| !remote.contains_key(uid));
}

/// One more row adds to what is to be created on the server exactly where it
/// carries no identity, or one that neither the server nor the state knows. It
/// goes behind those of the rows before it, with its text, its mark and the
/// identity that it loses.
pub proof fn law_row_to_create(
    local: Seq<ItemView>,
    row: ItemView,
    state: Map<Seq<char>, SyncedItemView>,
    remote: Map<Seq<char>, RemoteTodoView>,
)
    ensures
        ({
            let before = plan::planned_items(local, state, remote).push_creates;
            let after = plan::planned_items(local.push(row), state, remote).push_creates;
            &&& row.uid is None || (!remote.contains_key(row.uid->0) && !state.contains_key(
                row.uid->0,
            )) ==> after == before.push((row.text, row.done, row.uid))
            &&& row.uid is Some && (remote.contains_key(row.uid->0) || state.contains_key(
                row.uid->0,
            )) ==> after == before
        }),
        plan::planned_items(Seq::empty(), state, remote).push_creates.len() == 0,
{
    let f = |row: ItemView| plan::row_create(row, state, remote);
    let more = local.push(row);
    let n = local.len() as int;
    seqs::lemma_filter_map_take(more, f, n);
    assert(more.take(n + 1) =~= more);
    assert(more.take(n) =~= local);
    seqs::lemma_filter_map_none(Seq::<ItemView>::empty(), f);
}

// ── Lists ─────────────────────────────────────────────────────────────────

/// The parts of a plan of lists that come of single files: those that are
/// created, renamed and deleted, and those that are only recorded.
pub struct FileParts {
    pub push_creates: Seq<(Seq<char>, Option<Seq<char>>)>,
    pub push_renames: Seq<(Seq<char>, Seq<char>)>,
    pub pull_renames: Seq<(Seq<char>, Seq<char>, Seq<char>)>,
    pub pull_deletes: Seq<(Seq<char>, Seq<char>)>,
    pub refresh: Seq<Seq<char>>,
}

/// What a plan of lists does with the files.
pub open spec fn file_parts(
    local: Seq<ListFileView>,
    state: Map<Seq<char>, SyncedListView>,
    remote: Map<Seq<char>, RemoteListView>,
) -> FileParts {
    let p = plan::planned_lists(local, state, remote);
    FileParts {
        push_creates: p.push_creates,
        push_renames: p.push_renames,
        pull_renames: p.pull_renames,
        pull_deletes: p.pull_deletes,
        refresh: p.refresh,
    }
}

proof fn lemma_one_more_file(
    local: Seq<ListFileView>,
    file: ListFileView,
    state: Map<Seq<char>, SyncedListView>,
    remote: Map<Seq<char>, RemoteListView>,
)
    ensures
        ({
            let before = file_parts(local, state, remote);
            let after = file_parts(local.push(file), state, remote);
            let step = plan::step_of(file, state, remote);
            &&& after.push_creates == if step is Create {
                before.push_creates.push((file.title, file.id))
            } else {
                before.push_creates
            }
            &&& after.push_renames == if step is PushRename {
                before.push_renames.push((file.id->0, file.title))
            } else {
                before.push_renames
            }
            &&& after.pull_renames == if step is PullRename {
                before.pull_renames.push(
                    (file.id->0, file.title, paths::safe(remote[file.id->0].title)),
                )
            } else {
                before.pull_renames
            }
            &&& after.pull_deletes == if step is PullDelete {
                before.pull_deletes.push((file.id->0, file.title))
            } else {
                before.pull_deletes
            }
            &&& after.refresh == if step is Refresh {
                before.refresh.push(file.id->0)
            } else {
                before.refresh
            }
        }),
{
    let more = local.push(file);
    let n = local.len() as int;
    assert(more.take(n + 1) =~= more);
    assert(more.take(n) =~= local);
    seqs::lemma_filter_map_take(
        more,
        |f: ListFileView|
            if plan::step_of(f, state, remote) is PullRename {
                Some((f.id->0, f.title, paths::safe(remote[f.id->0].title)))
            } else {
                None
            },
        n,
    );
    seqs::lemma_filter_map_take(
        more,
        |f: ListFileView|
            if plan::step_of(f, state, remote) is PullDelete {
                Some((f.id->0, f.title))
            } else {
                None
            },
        n,
    );
    seqs::lemma_filter_map_take(
        more,
        |f: ListFileView|
            if plan::step_of(f, state, remote) is Create {
                Some((f.title, f.id))
            } else {
                None
            },
        n,
    );
    seqs::lemma_filter_map_take(
        more,
        |f: ListFileView|
            if plan::step_of(f, state, remote) is PushRename {
                Some((f.id->0, f.title))
            } else {
                None
            },
        n,
    );
    seqs::lemma_filter_map_take(
        more,
        |f: ListFileView|
            if plan::step_of(f, state, remote) is Refresh {
                Some(f.id->0)
            } else {
                None
            },
        n,
    );
}

/// Without files there is nothing to do with them.
pub proof fn law_no_file_no_parts(
    state: Map<Seq<char>, SyncedListView>,
    remote: Map<Seq<char>, RemoteListView>,
)
    ensures
        ({
            let p = plan::planned_lists(Seq::empty(), state, remote);
            &&& p.push_creates.len() == 0
            &&& p.push_renames.len() == 0
            &&& p.pull_renames.len() == 0
            &&& p.pull_deletes.len() == 0
            &&& p.refresh.len() == 0
        }),
{
    reveal(Seq::filter_map);
}

/// One more file whose list neither the state nor the server knows, or that has
/// no identity, is one more list to create, with its title and the identity
/// that it loses, and nothing else. Its items play no part.
pub proof fn law_unknown_file_is_created(
    local: Seq<ListFileView>,
    file: ListFileView,
    state: Map<Seq<char>, SyncedListView>,
    remote: Map<Seq<char>, RemoteListView>,
)
    requires
        file.id is Some ==> !state.contains_key(file.id->0) && !remote.contains_key(file.id->0),
    ensures
        ({
            let before = file_parts(local, state, remote);
            file_parts(local.push(file), state, remote) == FileParts {
                push_creates: before.push_creates.push((file.title, file.id)),
                ..before
            }
        }),
{
    lemma_one_more_file(local, file, state, remote);
}

/// One more file whose list the state knows and the server does not is one more
/// file to delete, and nothing else. Its items play no part.
pub proof fn law_file_of_gone_list_is_deleted(
    local: Seq<ListFileView>,
    file: ListFileView,
    state: Map<Seq<char>, SyncedListView>,
    remote: Map<Seq<char>, RemoteListView>,
)
    requires
        file.id is Some,
        state.contains_key(file.id->0),
        !remote.contains_key(file.id->0),
    ensures
        ({
            let before = file_parts(local, state, remote);
            file_parts(local.push(file), state, remote) == FileParts {
                pull_deletes: before.pull_deletes.push((file.id->0, file.title)),
                ..before
            }
        }),
{
    lemma_one_more_file(local, file, state, remote);
}

/// One more file whose list the server knows and the state does not takes the
/// server's title where that makes another file name, and is only recorded
/// where it makes the same. Its items play no part.
pub proof fn law_file_of_unknown_list_takes_title(
    local: Seq<ListFileView>,
    file: ListFileView,
    state: Map<Seq<char>, SyncedListView>,
    remote: Map<Seq<char>, RemoteListView>,
)
    requires
        file.id is Some,
        !state.contains_key(file.id->0),
        remote.contains_key(file.id->0),
    ensures
        ({
            let before = file_parts(local, state, remote);
            let name = paths::safe(remote[file.id->0].title);
            file_parts(local.push(file), state, remote) == if name == file.title {
                FileParts { refresh: before.refresh.push(file.id->0), ..before }
            } else {
                FileParts {
                    pull_renames: before.pull_renames.push((file.id->0, file.title, name)),
                    ..before
                }
            }
        }),
{
    lemma_one_more_file(local, file, state, remote);
}

/// One more file whose list is known on both sides and whose title is not what
/// the server's title makes: the file's title goes up where it is not what was
/// last synced, and the server's comes down where it is. Its items play no part.
pub proof fn law_titles_that_differ(
    local: Seq<ListFileView>,
    file: ListFileView,
    state: Map<Seq<char>, SyncedListView>,
    remote: Map<Seq<char>, RemoteListView>,
)
    requires
        file.id is Some,
        state.contains_key(file.id->0),
        remote.contains_key(file.id->0),
        file.title != paths::safe(remote[file.id->0].title),
    ensures
        ({
            let before = file_parts(local, state, remote);
            let last = paths::safe(state[file.id->0].title);
            let name = paths::safe(remote[file.id->0].title);
            file_parts(local.push(file), state, remote) == if file.title != last {
                FileParts {
                    push_renames: before.push_renames.push((file.id->0, file.title)),
                    ..before
                }
            } else {
                FileParts {
                    pull_renames: before.pull_renames.push((file.id->0, file.title, name)),
                    ..before
                }
            }
        }),
{
    lemma_one_more_file(local, file, state, remote);
}

/// One more file whose list is known on both sides and whose title is what the
/// server's title makes: the title goes up where the server's has a slash in
/// it, which no file name can have; else the list is recorded where its version
/// tag or the title is not what was last synced, and nothing is done where both
/// are. Its items play no part.
pub proof fn law_titles_that_agree(
    local: Seq<ListFileView>,
    file: ListFileView,
    state: Map<Seq<char>, SyncedListView>,
    remote: Map<Seq<char>, RemoteListView>,
)
    requires
        file.id is Some,
        state.contains_key(file.id->0),
        remote.contains_key(file.id->0),
        file.title == paths::safe(remote[file.id->0].title),
    ensures
        ({
            let before = file_parts(local, state, remote);
            let last = state[file.id->0];
            let there = remote[file.id->0];
            file_parts(local.push(file), state, remote) == if exists|i: int|
                0 <= i < there.title.len() && there.title[i] == '/' {
                FileParts {
                    push_renames: before.push_renames.push((file.id->0, file.title)),
                    ..before
                }
            } else if there.etag != last.etag || file.title != paths::safe(last.title) {
                FileParts { refresh: before.refresh.push(file.id->0), ..before }
            } else {
                before
            }
        }),
{
    lemma_one_more_file(local, file, state, remote);
    let there = remote[file.id->0];
    assert(there.title.contains('/') == exists|i: int|
        0 <= i < there.title.len() && there.title[i] == '/');
}

/// No file carries an identity.
pub open spec fn no_file(files: Seq<ListFileView>, id: Seq<char>) -> bool {
    forall|i: int| 0 <= i < files.len() ==> (#[trigger] files[i]).id != Some(id)
}

/// A list of the server is pulled as new exactly where neither a file nor the
/// state knows it, and deleted there exactly where the state knows it and no
/// file does. Both parts ascend. What the files hold, and the lists' titles and
/// version tags, play no part.
pub proof fn law_lists_without_file(
    local: Seq<ListFileView>,
    state: Map<Seq<char>, SyncedListView>,
    remote: Map<Seq<char>, RemoteListView>,
    id: Seq<char>,
)
    requires
        remote.dom().finite(),
    ensures
        ({
            let p = plan::planned_lists(local, state, remote);
            &&& p.pull_new.contains(id) <==> remote.contains_key(id) && !state.contains_key(id)
                && no_file(local, id)
            &&& p.push_deletes.contains(id) <==> remote.contains_key(id) && state.contains_key(
                id,
            ) && no_file(local, id)
            &&& order::ascending(p.pull_new)
            &&& order::ascending(p.push_deletes)
        }),
{
    order::law_in_order(remote.dom());
    let ids = order::in_order(remote.dom());
    assert(ids.contains(id) == ids.to_set().contains(id));
    let new = |id: Seq<char>| !plan::has_file(local, id) && !state.contains_key(id);
    let gone = |id: Seq<char>| !plan::has_file(local, id) && state.contains_key(id);
    seqs::lemma_filter_contains(ids, new, id);
    seqs::lemma_filter_contains(ids, gone, id);
    lemma_filter_ascending(ids, new);
    lemma_filter_ascending(ids, gone);
    assert(no_file(local, id) == !plan::has_file(local, id));
}

/// Every file whose list the state knows and the server does not is deleted
/// here, and its list is not created again, whatever its items are.
pub proof fn law_gone_list_takes_its_file(
    local: Seq<ListFileView>,
    state: Map<Seq<char>, SyncedListView>,
    remote: Map<Seq<char>, RemoteListView>,
    id: Seq<char>,
    k: int,
)
    requires
        0 <= k < local.len(),
        local[k].id == Some(id),
        state.contains_key(id),
        !remote.contains_key(id),
    ensures
        ({
            let p = plan::planned_lists(local, state, remote);
            &&& p.pull_deletes.contains((id, local[k].title))
            &&& forall|i: int|
                0 <= i < p.push_creates.len() ==> (#[trigger] p.push_creates[i]).1 != Some(id)
            &&& !p.push_deletes.contains(id)
        }),
{
    let p = plan::planned_lists(local, state, remote);
    let made = |f: ListFileView|
        if plan::step_of(f, state, remote) is Create {
            Some((f.title, f.id))
        } else {
            None
        };
    let gone = |f: ListFileView|
        if plan::step_of(f, state, remote) is PullDelete {
            Some((f.id->0, f.title))
        } else {
            None
        };
    seqs::lemma_filter_map_contains(local, gone, k);
    assert forall|i: int| 0 <= i < p.push_creates.len() implies (#[trigger] p.push_creates[i]).1
        != Some(id) by {
        seqs::lemma_filter_map_from(local, made, i);
    }
    seqs::lemma_filter_contains(
        order::in_order(remote.dom()),
        |id: Seq<char>| !plan::has_file(local, id) && state.contains_key(id),
        id,
    );
    assert(plan::has_file(local, id));
}

} // verus!
