//! One pass over everything: which part of the state a run reasons about,
//! what it may not do, and what it makes of each list file.
use vstd::prelude::*;

use crate::item_tasks;
use crate::item_tasks::{ItemTask, ItemTaskView};
use crate::list_tasks;
use crate::list_tasks::{ListTask, ListTaskView};
use crate::local;
use crate::map::{Copied, OrdMap};
use crate::model;
use crate::model::{
    Item, ItemView, ListFile, ListFileView, SyncState, SyncedItem, SyncedItemView, SyncedList,
    SyncedListView,
};
use crate::outside;
use crate::paths;
use crate::paths::FileWrite;
use crate::plan;
use crate::plan::{ListPlan, Plan};
use crate::remote::{RemoteList, RemoteListView, RemoteTodo, RemoteTodoView};
use crate::seqs;
use crate::text;

verus! {

// ── What a run reasons about ──────────────────────────────────────────────

/// The state that a run starts from. Where there is nothing on disk at all, a
/// fresh clone or a deleted directory, the lists are imported again: absence
/// does not mean that everything on the server is to be deleted.
pub fn starting_state(had_local: bool, state: SyncState) -> (r: SyncState)
    ensures
        had_local ==> r == state,
        !had_local ==> r.items@ == Map::<Seq<char>, SyncedItemView>::empty(),
        !had_local ==> r.lists@ == Map::<Seq<char>, SyncedListView>::empty(),
{
    if had_local {
        state
    } else {
        SyncState { items: OrdMap::new(), lists: OrdMap::new() }
    }
}

/// The lists of an account.
pub open spec fn lists_of(
    lists: Map<Seq<char>, SyncedListView>,
    email: Seq<char>,
) -> Map<Seq<char>, SyncedListView> {
    crate::map::where_value(lists, |v: SyncedListView| v.account == email)
}

/// The lists of an account.
pub fn own_lists(state: &SyncState, email: &str) -> (r: OrdMap<SyncedList>)
    ensures
        r@ == lists_of(state.lists@, email@),
{
    let ghost p = |v: SyncedListView| v.account == email@;
    let keep = |v: &SyncedList| -> (b: bool)
        ensures
            b == p(v.deep_view()),
    {
        text::same_str(v.account.as_str(), email)
    };
    state.lists.part(keep, Ghost(p))
}

/// A file is that of a list of another account: the state has its list so,
/// and the server of this run does not have it.
pub open spec fn is_foreign(
    file: ListFileView,
    lists: Map<Seq<char>, SyncedListView>,
    remote: Map<Seq<char>, RemoteListView>,
    email: Seq<char>,
) -> bool {
    match file.id {
        Some(id) => lists.contains_key(id) && lists[id].account != email && !remote.contains_key(
            id,
        ),
        None => false,
    }
}

/// The files that a run plans for: not those of lists of other accounts.
pub open spec fn files_of(
    files: Seq<ListFileView>,
    lists: Map<Seq<char>, SyncedListView>,
    remote: Map<Seq<char>, RemoteListView>,
    email: Seq<char>,
) -> Seq<ListFileView> {
    files.filter(|f: ListFileView| !is_foreign(f, lists, remote, email))
}

/// The files that a run plans for. One of another account's list is that
/// account's, even where nothing on this server answers to it.
pub fn own_files(
    local: &[ListFile],
    state: &SyncState,
    remote: &OrdMap<RemoteList>,
    email: &str,
) -> (r: Vec<ListFile>)
    ensures
        r.deep_view() == files_of(local.deep_view(), state.lists@, remote@, email@),
{
    let ghost all = local.deep_view();
    let ghost own = |f: ListFileView| !is_foreign(f, state.lists@, remote@, email@);
    let mut out: Vec<ListFile> = Vec::new();
    for i in 0..local.len()
        invariant
            all == local.deep_view(),
            own == (|f: ListFileView| !is_foreign(f, state.lists@, remote@, email@)),
            out.deep_view() == all.take(i as int).filter(own),
    {
        let ghost had = out.deep_view();
        let file = &local[i];
        proof {
            seqs::lemma_filter_take(all, own, i as int);
            assert(all[i as int] == file.deep_view());
        }
        let theirs = match &file.id {
            Some(id) => match state.lists.get(id.as_str()) {
                Some(list) => !text::same_str(list.account.as_str(), email)
                    && !remote.contains_key(id.as_str()),
                None => false,
            },
            None => false,
        };
        if !theirs {
            out.push(file.clone());
            assert(out.deep_view() =~= had.push(all[i as int]));
        }
    }
    assert(all.take(all.len() as int) =~= all);
    out
}

/// The items of other accounts.
pub open spec fn foreign_of(
    items: Map<Seq<char>, SyncedItemView>,
    email: Seq<char>,
) -> Map<Seq<char>, SyncedItemView> {
    crate::map::where_value(items, |v: SyncedItemView| v.account != email)
}

/// The items of other accounts.
pub fn foreign_items(state: &SyncState, email: &str) -> (r: OrdMap<SyncedItem>)
    ensures
        r@ == foreign_of(state.items@, email@),
{
    let ghost p = |v: SyncedItemView| v.account != email@;
    let keep = |v: &SyncedItem| -> (b: bool)
        ensures
            b == p(v.deep_view()),
    {
        !text::same_str(v.account.as_str(), email)
    };
    state.items.part(keep, Ghost(p))
}

/// The items of an account in a list.
pub open spec fn items_of(
    items: Map<Seq<char>, SyncedItemView>,
    email: Seq<char>,
    list: Seq<char>,
) -> Map<Seq<char>, SyncedItemView> {
    crate::map::where_value(
        items,
        |v: SyncedItemView| v.account == email && v.list_id() == list,
    )
}

/// What the state holds of the items of an account in a list.
pub fn own_items(state: &SyncState, email: &str, list: &str) -> (r: SyncState)
    ensures
        r.items@ == items_of(state.items@, email@, list@),
        r.lists@ == Map::<Seq<char>, SyncedListView>::empty(),
{
    let ghost p = |v: SyncedItemView| v.account == email@ && v.list_id() == list@;
    let keep = |v: &SyncedItem| -> (b: bool)
        ensures
            b == p(v.deep_view()),
    {
        text::same_str(v.account.as_str(), email) && text::same_str(v.list_id().as_str(), list)
    };
    SyncState { items: state.items.part(keep, Ghost(p)), lists: OrdMap::new() }
}

/// The server's items in a list.
pub open spec fn todos_of(
    todos: Map<Seq<char>, RemoteTodoView>,
    list: Seq<char>,
) -> Map<Seq<char>, RemoteTodoView> {
    crate::map::where_value(todos, |v: RemoteTodoView| v.list == list)
}

/// The server's items in a list.
pub fn todos_in(todos: &OrdMap<RemoteTodo>, list: &str) -> (r: OrdMap<RemoteTodo>)
    ensures
        r@ == todos_of(todos@, list@),
{
    let ghost p = |v: RemoteTodoView| v.list == list@;
    let keep = |v: &RemoteTodo| -> (b: bool)
        ensures
            b == p(v.deep_view()),
    {
        text::same_str(v.list.as_str(), list)
    };
    todos.part(keep, Ghost(p))
}

/// Where each item lives: on the server, or else as last synced. A row in
/// another file than its owner's was moved by hand.
pub open spec fn owners_of(
    items: Map<Seq<char>, SyncedItemView>,
    email: Seq<char>,
    todos: Map<Seq<char>, RemoteTodoView>,
) -> Map<Seq<char>, Seq<char>> {
    Map::new(
        |uid: Seq<char>|
            todos.contains_key(uid) || (items.contains_key(uid) && items[uid].account == email),
        |uid: Seq<char>|
            if todos.contains_key(uid) {
                todos[uid].list
            } else {
                items[uid].list_id()
            },
    )
}

/// Where each item lives, by its identity.
pub fn item_owners(state: &SyncState, email: &str, todos: &OrdMap<RemoteTodo>) -> (r: OrdMap<
    String,
>)
    ensures
        r@ == owners_of(state.items@, email@, todos@),
{
    let ghost items = state.items@;
    let ghost tracked_ids = state.items.keys();
    let ghost there = todos@;
    let ghost there_ids = todos.keys();
    proof {
        use_type_invariant(&state.items);
        state.items.lemma_entries();
        use_type_invariant(todos);
        todos.lemma_entries();
    }
    let mut out: OrdMap<String> = OrdMap::new();
    let n: usize = state.items.len();
    for i in 0..n
        invariant
            n == tracked_ids.len(),
            tracked_ids == state.items.keys(),
            items == state.items@,
            tracked_ids.len() == state.items.values().len(),
            forall|j: int|
                0 <= j < tracked_ids.len() ==> items.contains_key(#[trigger] tracked_ids[j])
                    && items[tracked_ids[j]] == state.items.values()[j],
            forall|u: Seq<char>| #[trigger]
                out@.contains_key(u) == (tracked_ids.take(i as int).contains(u) && items[u].account
                    == email@),
            forall|u: Seq<char>| #[trigger]
                out@.contains_key(u) ==> out@[u] == items[u].list_id(),
    {
        let ghost now = tracked_ids.take(i + 1);
        proof {
            assert(items[tracked_ids[i as int]] == state.items.values()[i as int]);
            assert(now =~= tracked_ids.take(i as int).push(tracked_ids[i as int]));
            assert forall|u: Seq<char>| now.contains(u) == (tracked_ids.take(i as int).contains(u)
                || u == tracked_ids[i as int]) by {
                if tracked_ids.take(i as int).contains(u) {
                    let j = choose|j: int|
                        0 <= j < i && tracked_ids.take(i as int)[j] == u;
                    assert(now[j] == u);
                }
                assert(now[i as int] == tracked_ids[i as int]);
            }
        }
        let v = state.items.value_at(i);
        if text::same_str(v.account.as_str(), email) {
            out.insert(state.items.key_at(i).clone(), v.list_id());
        }
    }
    assert(tracked_ids.take(n as int) =~= tracked_ids);
    let ghost first = out@;
    proof {
        assert forall|u: Seq<char>| first.contains_key(u) == (items.contains_key(u)
            && items[u].account == email@) by {
            assert(tracked_ids.to_set().contains(u) == tracked_ids.contains(u));
        }
    }
    let m: usize = todos.len();
    for i in 0..m
        invariant
            m == there_ids.len(),
            there_ids == todos.keys(),
            there == todos@,
            there_ids.len() == todos.values().len(),
            forall|j: int|
                0 <= j < there_ids.len() ==> there.contains_key(#[trigger] there_ids[j])
                    && there[there_ids[j]] == todos.values()[j],
            forall|u: Seq<char>| #[trigger]
                out@.contains_key(u) == (first.contains_key(u) || there_ids.take(
                    i as int,
                ).contains(u)),
            forall|u: Seq<char>| #[trigger]
                out@.contains_key(u) ==> out@[u] == if there_ids.take(i as int).contains(u) {
                    there[u].list
                } else {
                    first[u]
                },
    {
        let ghost now = there_ids.take(i + 1);
        proof {
            assert(there[there_ids[i as int]] == todos.values()[i as int]);
            assert(now =~= there_ids.take(i as int).push(there_ids[i as int]));
            assert forall|u: Seq<char>| now.contains(u) == (there_ids.take(i as int).contains(u)
                || u == there_ids[i as int]) by {
                if there_ids.take(i as int).contains(u) {
                    let j = choose|j: int| 0 <= j < i && there_ids.take(i as int)[j] == u;
                    assert(now[j] == u);
                }
                assert(now[i as int] == there_ids[i as int]);
            }
        }
        out.insert(todos.key_at(i).clone(), todos.value_at(i).list.clone());
    }
    proof {
        assert(there_ids.take(m as int) =~= there_ids);
        assert forall|u: Seq<char>| there_ids.contains(u) == there.contains_key(u) by {
            assert(there_ids.to_set().contains(u) == there_ids.contains(u));
        }
        assert(out@ =~= owners_of(items, email@, there));
    }
    out
}

// ── The rows of a file ────────────────────────────────────────────────────

/// A row of an item that lives in another list than its file's.
pub open spec fn is_moved(
    row: ItemView,
    owners: Map<Seq<char>, Seq<char>>,
    list: Seq<char>,
) -> bool {
    row.uid is Some && owners.contains_key(row.uid->0) && owners[row.uid->0] != list
}

/// The rows of a file that a run plans for: not those of other accounts, and
/// those that were moved in as new ones, to be created here.
pub open spec fn planned_rows(
    items: Seq<ItemView>,
    foreign: Map<Seq<char>, SyncedItemView>,
    owners: Map<Seq<char>, Seq<char>>,
    list: Seq<char>,
) -> Seq<ItemView> {
    items.filter_map(
        |row: ItemView|
            if row.uid is Some && foreign.contains_key(row.uid->0) {
                None
            } else if is_moved(row, owners, list) {
                Some((ItemView { uid: None, ..row }))
            } else {
                Some(row)
            },
    )
}

/// The texts of the rows that were moved in, with the identities that they
/// carry.
pub open spec fn moved_in(
    items: Seq<ItemView>,
    owners: Map<Seq<char>, Seq<char>>,
    list: Seq<char>,
) -> Seq<(Seq<char>, Seq<char>)> {
    items.filter_map(
        |row: ItemView|
            if is_moved(row, owners, list) {
                Some((row.text, row.uid->0))
            } else {
                None
            },
    )
}

/// Whether a row's item lives in another list than its file's.
fn row_moved(row: &Item, owners: &OrdMap<String>, list: &str) -> (r: bool)
    ensures
        r == is_moved(row.deep_view(), owners@, list@),
{
    match &row.uid {
        Some(uid) => match owners.get(uid.as_str()) {
            Some(owner) => !text::same_str(owner.as_str(), list),
            None => false,
        },
        None => false,
    }
}

/// The rows of a file that a run plans for.
pub fn rows_to_plan(
    items: &[Item],
    foreign: &OrdMap<SyncedItem>,
    owners: &OrdMap<String>,
    list: &str,
) -> (r: Vec<Item>)
    ensures
        r.deep_view() == planned_rows(items.deep_view(), foreign@, owners@, list@),
{
    let ghost all = items.deep_view();
    let ghost f = |row: ItemView|
        if row.uid is Some && foreign@.contains_key(row.uid->0) {
            None
        } else if is_moved(row, owners@, list@) {
            Some((ItemView { uid: None, ..row }))
        } else {
            Some(row)
        };
    let mut out: Vec<Item> = Vec::new();
    for i in 0..items.len()
        invariant
            all == items.deep_view(),
            f == (|row: ItemView|
                if row.uid is Some && foreign@.contains_key(row.uid->0) {
                    None
                } else if is_moved(row, owners@, list@) {
                    Some((ItemView { uid: None, ..row }))
                } else {
                    Some(row)
                }),
            out.deep_view() == all.take(i as int).filter_map(f),
    {
        let ghost had = out.deep_view();
        let row = &items[i];
        proof {
            seqs::lemma_filter_map_take(all, f, i as int);
            assert(all[i as int] == row.deep_view());
        }
        let theirs = match &row.uid {
            Some(uid) => foreign.contains_key(uid.as_str()),
            None => false,
        };
        if !theirs {
            let uid = if row_moved(row, owners, list) {
                None
            } else {
                model::copy_opt(&row.uid)
            };
            out.push(Item { text: row.text.clone(), done: row.done, uid });
            assert(out.deep_view() =~= had.push(f(all[i as int])->0));
        }
    }
    assert(all.take(all.len() as int) =~= all);
    out
}

/// The texts of the rows that were moved in, with the identities that they
/// carry.
pub fn moved_rows(items: &[Item], owners: &OrdMap<String>, list: &str) -> (r: Vec<
    (String, String),
>)
    ensures
        r.deep_view() == moved_in(items.deep_view(), owners@, list@),
{
    let ghost all = items.deep_view();
    let ghost f = |row: ItemView|
        if is_moved(row, owners@, list@) {
            Some((row.text, row.uid->0))
        } else {
            None
        };
    let mut out: Vec<(String, String)> = Vec::new();
    for i in 0..items.len()
        invariant
            all == items.deep_view(),
            f == (|row: ItemView|
                if is_moved(row, owners@, list@) {
                    Some((row.text, row.uid->0))
                } else {
                    None
                }),
            out.deep_view() == all.take(i as int).filter_map(f),
    {
        let ghost had = out.deep_view();
        let row = &items[i];
        proof {
            seqs::lemma_filter_map_take(all, f, i as int);
            assert(all[i as int] == row.deep_view());
        }
        if row_moved(row, owners, list) {
            if let Some(uid) = &row.uid {
                out.push((row.text.clone(), uid.clone()));
                assert(out.deep_view() =~= had.push(f(all[i as int])->0));
            }
        }
    }
    assert(all.take(all.len() as int) =~= all);
    out
}

// ── The lists that can be synced ──────────────────────────────────────────

/// The servers that there are.
#[derive(Clone, Copy, Debug, PartialEq, Eq, Structural)]
pub enum Service {
    ICloud,
    Google,
}

/// The address of the Google Tasks API.
pub open spec fn tasks_api() -> Seq<char> {
    "https://tasks.googleapis.com/tasks/v1"@
}

/// The address at which items of a list are created, before it is read as a
/// URL. A calendar is its own address.
pub open spec fn target_text(service: Service, list: Seq<char>) -> Seq<char> {
    match service {
        Service::Google => tasks_api() + "/lists/"@ + list + "/tasks"@,
        Service::ICloud => list,
    }
}

/// The address at which items of a list are created, before it is read as a
/// URL.
pub fn target_address(service: Service, list: &str) -> (r: String)
    ensures
        r@ == target_text(service, list@),
{
    match service {
        Service::Google => {
            let mut s = "https://tasks.googleapis.com/tasks/v1".to_string();
            s.append("/lists/");
            s.append(list);
            s.append("/tasks");
            s
        },
        Service::ICloud => list.to_string(),
    }
}

/// What a result that may be an error gives.
pub open spec fn ok_of(r: Result<Seq<char>, Seq<char>>) -> Option<Seq<char>> {
    match r {
        Ok(v) => Some(v),
        Err(e) => None,
    }
}

/// The URL at which items of a list are created.
pub fn create_target_for(service: Service, list: &str) -> (r: Option<String>)
    ensures
        r.deep_view() == ok_of(outside::parsed_url(target_text(service, list@))),
{
    match outside::parse_url(target_address(service, list).as_str()) {
        Ok(url) => Some(url),
        Err(_) => None,
    }
}

/// A list that the state has and the server's answer does not have yet: one
/// that was created in this run.
pub open spec fn just_created(
    list: SyncedListView,
    email: Seq<char>,
    target: Option<Seq<char>>,
) -> Option<RemoteListView> {
    match target {
        Some(create_target) => if list.account == email {
            Some(RemoteListView { title: list.title, etag: list.etag, create_target })
        } else {
            None
        },
        None => None,
    }
}

/// The lists whose items can be synced: those of the server, and those that
/// were created in this run.
pub open spec fn syncable(
    remote: Map<Seq<char>, RemoteListView>,
    lists: Map<Seq<char>, SyncedListView>,
    email: Seq<char>,
    service: Service,
) -> Map<Seq<char>, RemoteListView> {
    Map::new(
        |id: Seq<char>|
            remote.contains_key(id) || (lists.contains_key(id) && just_created(
                lists[id],
                email,
                ok_of(outside::parsed_url(target_text(service, id))),
            ) is Some),
        |id: Seq<char>|
            if remote.contains_key(id) {
                remote[id]
            } else {
                just_created(
                    lists[id],
                    email,
                    ok_of(outside::parsed_url(target_text(service, id))),
                )->0
            },
    )
}

/// What a list that was created in this run is on the server, given the URL
/// at which its items are created.
pub fn created_list(list: &SyncedList, email: &str, target: Option<String>) -> (r: Option<
    RemoteList,
>)
    ensures
        r.deep_view() == just_created(list.deep_view(), email@, target.deep_view()),
{
    match target {
        Some(create_target) => if text::same_str(list.account.as_str(), email) {
            Some(
                RemoteList { title: list.title.clone(), etag: list.etag.clone(), create_target },
            )
        } else {
            None
        },
        None => None,
    }
}

/// The lists whose items can be synced.
pub fn syncable_lists(
    remote: &OrdMap<RemoteList>,
    state: &SyncState,
    email: &str,
    service: Service,
) -> (r: OrdMap<RemoteList>)
    ensures
        r@ == syncable(remote@, state.lists@, email@, service),
{
    let ghost lists = state.lists@;
    let ghost ids = state.lists.keys();
    let ghost made = |id: Seq<char>|
        just_created(lists[id], email@, ok_of(outside::parsed_url(target_text(service, id))));
    proof {
        use_type_invariant(&state.lists);
        state.lists.lemma_entries();
    }
    let mut out = remote.copied();
    let n: usize = state.lists.len();
    for i in 0..n
        invariant
            n == ids.len(),
            ids == state.lists.keys(),
            lists == state.lists@,
            ids.len() == state.lists.values().len(),
            forall|j: int|
                0 <= j < ids.len() ==> lists.contains_key(#[trigger] ids[j]) && lists[ids[j]]
                    == state.lists.values()[j],
            made == (|id: Seq<char>|
                just_created(
                    lists[id],
                    email@,
                    ok_of(outside::parsed_url(target_text(service, id))),
                )),
            forall|u: Seq<char>| #[trigger]
                out@.contains_key(u) == (remote@.contains_key(u) || (ids.take(i as int).contains(u)
                    && made(u) is Some)),
            forall|u: Seq<char>| #[trigger]
                out@.contains_key(u) ==> out@[u] == if remote@.contains_key(u) {
                    remote@[u]
                } else {
                    made(u)->0
                },
    {
        let ghost now = ids.take(i + 1);
        proof {
            assert(lists[ids[i as int]] == state.lists.values()[i as int]);
            assert(now =~= ids.take(i as int).push(ids[i as int]));
            assert forall|u: Seq<char>| now.contains(u) == (ids.take(i as int).contains(u) || u
                == ids[i as int]) by {
                if ids.take(i as int).contains(u) {
                    let j = choose|j: int| 0 <= j < i && ids.take(i as int)[j] == u;
                    assert(now[j] == u);
                }
                assert(now[i as int] == ids[i as int]);
            }
        }
        let id = state.lists.key_at(i);
        if !remote.contains_key(id.as_str()) {
            let target = create_target_for(service, id.as_str());
            if let Some(list) = created_list(state.lists.value_at(i), email, target) {
                out.insert(id.clone(), list);
            }
        }
    }
    proof {
        assert(ids.take(n as int) =~= ids);
        assert forall|u: Seq<char>| ids.contains(u) == lists.contains_key(u) by {
            assert(ids.to_set().contains(u) == ids.contains(u));
        }
        assert(out@ =~= syncable(remote@, lists, email@, service));
    }
    out
}

// ── What a run may not do ─────────────────────────────────────────────────

/// A plan would delete every list of the server.
pub open spec fn deletes_every_list(push_deletes: nat, remote_lists: nat) -> bool {
    push_deletes > 0 && push_deletes >= remote_lists
}

/// Why a plan for lists is refused, if it is: a mangled tree must not empty
/// the phone.
pub fn refuse_list_deletes(plan: &ListPlan, remote_lists: usize, force: bool) -> (r: Option<String>)
    ensures
        r is Some == (!force && deletes_every_list(
            plan.push_deletes@.len(),
            remote_lists as nat,
        )),
        r is Some ==> r->0@ == "refusing to delete every remote list ("@ + text::decimal(
            plan.push_deletes@.len(),
        ) + ") — if that was really meant, run cce-list-sync --force-deletes"@,
{
    let n: usize = plan.push_deletes.len();
    if force || n == 0 || n < remote_lists {
        return None;
    }
    let mut s = "refusing to delete every remote list (".to_string();
    s.append(text::decimal_string(n as u128).as_str());
    s.append(") — if that was really meant, run cce-list-sync --force-deletes");
    Some(s)
}

/// The tasks of a plan for lists that a run does: none where the plan is
/// refused, and none in a dry run.
pub fn list_tasks_to_run(
    plan: &ListPlan,
    remote_lists: usize,
    dry_run: bool,
    force: bool,
) -> (r: Result<Vec<ListTask>, String>)
    ensures
        r is Err == (!force && deletes_every_list(
            plan.push_deletes@.len(),
            remote_lists as nat,
        )),
        match r {
            Ok(tasks) => tasks.deep_view() == if dry_run {
                Seq::<ListTaskView>::empty()
            } else {
                list_tasks::tasks_of(plan.deep_view())
            },
            Err(why) => why@ == "refusing to delete every remote list ("@ + text::decimal(
                plan.push_deletes@.len(),
            ) + ") — if that was really meant, run cce-list-sync --force-deletes"@,
        },
{
    if let Some(why) = refuse_list_deletes(plan, remote_lists, force) {
        return Err(why);
    }
    if dry_run {
        let none: Vec<ListTask> = Vec::new();
        assert(none.deep_view() =~= Seq::<ListTaskView>::empty());
        Ok(none)
    } else {
        Ok(list_tasks::list_tasks(plan))
    }
}

/// A plan would delete most of a list's items: more than five, and more than
/// half of those that are tracked.
pub open spec fn deletes_most(push_deletes: nat, items: nat) -> bool {
    push_deletes > 5 && push_deletes * 2 > items
}

/// Why a plan for the items of a list is refused, if it is.
pub fn refuse_item_deletes(title: &str, plan: &Plan, items: usize, force: bool) -> (r: Option<
    String,
>)
    ensures
        r is Some == (!force && deletes_most(plan.push_deletes@.len(), items as nat)),
        r is Some ==> r->0@ == title@ + ": refusing to delete "@ + text::decimal(
            plan.push_deletes@.len(),
        ) + " of "@ + text::decimal(items as nat)
            + " tracked items on the server — if the list was really emptied on purpose, run cce-list-sync --force-deletes"@,
{
    let n: usize = plan.push_deletes.len();
    if force || n <= 5 || n <= items / 2 {
        return None;
    }
    let mut s = title.to_string();
    s.append(": refusing to delete ");
    s.append(text::decimal_string(n as u128).as_str());
    s.append(" of ");
    s.append(text::decimal_string(items as u128).as_str());
    s.append(
        " tracked items on the server — if the list was really emptied on purpose, run cce-list-sync --force-deletes",
    );
    Some(s)
}

/// The tasks of a plan for the items of a list that a run does: none where the
/// plan is refused, and none in a dry run. `items` counts the tracked items of
/// the list.
pub fn item_tasks_to_run(
    title: &str,
    plan: &Plan,
    items: usize,
    dry_run: bool,
    force: bool,
) -> (r: Result<Vec<ItemTask>, String>)
    ensures
        r is Err == (!force && deletes_most(plan.push_deletes@.len(), items as nat)),
        match r {
            Ok(tasks) => tasks.deep_view() == if dry_run {
                Seq::<ItemTaskView>::empty()
            } else {
                item_tasks::item_tasks_of(plan.deep_view())
            },
            Err(why) => why@ == title@ + ": refusing to delete "@ + text::decimal(
                plan.push_deletes@.len(),
            ) + " of "@ + text::decimal(items as nat)
                + " tracked items on the server — if the list was really emptied on purpose, run cce-list-sync --force-deletes"@,
        },
{
    if let Some(why) = refuse_item_deletes(title, plan, items, force) {
        return Err(why);
    }
    if dry_run {
        let none: Vec<ItemTask> = Vec::new();
        assert(none.deep_view() =~= Seq::<ItemTaskView>::empty());
        Ok(none)
    } else {
        Ok(item_tasks::item_tasks(plan))
    }
}

// ── One file ──────────────────────────────────────────────────────────────

/// What a run makes of one list file.
pub struct FilePlan {
    pub list_id: String,
    /// The rows that were planned for.
    pub rows: Vec<Item>,
    /// The rows that were moved in: text and identity.
    pub moved_from: Vec<(String, String)>,
    /// How many items of the list are tracked.
    pub items: usize,
    /// The server's items in the list.
    pub todos: OrdMap<RemoteTodo>,
    pub plan: Plan,
}

/// Plans the items of a list file. A file of no list that can be synced, one
/// whose creation failed, waits for the next run.
pub fn plan_file(
    file: &ListFile,
    lists: &OrdMap<RemoteList>,
    foreign: &OrdMap<SyncedItem>,
    owners: &OrdMap<String>,
    state: &SyncState,
    todos: &OrdMap<RemoteTodo>,
    email: &str,
) -> (r: Option<FilePlan>)
    ensures
        r is Some == (file.id is Some && lists@.contains_key(file.id->0@)),
        r matches Some(f) ==> {
            &&& f.list_id@ == file.id->0@
            &&& f.rows.deep_view() == planned_rows(
                file.items.deep_view(),
                foreign@,
                owners@,
                f.list_id@,
            )
            &&& f.moved_from.deep_view() == moved_in(file.items.deep_view(), owners@, f.list_id@)
            &&& f.items == items_of(state.items@, email@, f.list_id@).len()
            &&& f.todos@ == todos_of(todos@, f.list_id@)
            &&& f.plan.deep_view() == plan::planned_items(
                f.rows.deep_view(),
                items_of(state.items@, email@, f.list_id@),
                f.todos@,
            )
        },
{
    let list_id = match &file.id {
        Some(id) => id.clone(),
        None => {
            return None;
        },
    };
    if !lists.contains_key(list_id.as_str()) {
        return None;
    }
    let rows = rows_to_plan(file.items.as_slice(), foreign, owners, list_id.as_str());
    let moved_from = moved_rows(file.items.as_slice(), owners, list_id.as_str());
    let mine = own_items(state, email, list_id.as_str());
    let here = todos_in(todos, list_id.as_str());
    let plan = plan::plan_items(rows.as_slice(), &mine, &here);
    let items: usize = mine.items.len();
    Some(FilePlan { list_id, rows, moved_from, items, todos: here, plan })
}

/// The list that a file holds now: what it was read as, or an empty one where
/// it could not be read. It carries the identity of its list.
pub open spec fn fresh_list(
    title: Seq<char>,
    content: Option<Seq<char>>,
    id: Seq<char>,
) -> ListFileView {
    match content {
        Some(c) => (ListFileView { id: Some(id), ..paths::read_list(paths::safe(title), c) }),
        None => ListFileView { title, id: Some(id), items: Seq::empty() },
    }
}

/// Applies the local half of a plan to what the file holds now, and says what
/// is to be written: nothing in a dry run. `content` is what the file was read
/// as, if it could be read.
pub fn finish_file(
    title: &str,
    content: Option<&str>,
    file: &FilePlan,
    created: &[(String, Option<String>, String)],
    data: &[u8],
    dry_run: bool,
) -> (r: Option<FileWrite>)
    requires
        local::pulls_known(file.plan.deep_view(), file.todos@),
    ensures
        r is None == dry_run,
        r is Some ==> r->0.deep_view() == ({
            let fresh = fresh_list(title@, content.deep_view(), file.list_id@);
            paths::saved_list(
                data@,
                (ListFileView {
                    items: local::applied(
                        fresh.items,
                        file.plan.deep_view(),
                        file.todos@,
                        created.deep_view(),
                        file.moved_from.deep_view(),
                    ),
                    ..fresh
                }),
            )
        }),
{
    if dry_run {
        return None;
    }
    let mut fresh = match content {
        Some(c) => paths::load_list(title, c),
        None => ListFile { title: title.to_string(), id: None, items: Vec::new() },
    };
    fresh.id = Some(file.list_id.clone());
    assert(fresh.items.deep_view() =~= fresh_list(
        title@,
        content.deep_view(),
        file.list_id@,
    ).items);
    let mut items: Vec<Item> = Vec::new();
    std::mem::swap(&mut items, &mut fresh.items);
    local::apply_local(
        &mut items,
        &file.plan,
        &file.todos,
        created,
        file.moved_from.as_slice(),
    );
    fresh.items = items;
    Some(paths::save_list(data, &fresh))
}

/// What is written where the shown list is gone, renamed or removed by this
/// run: the first list is shown. Nothing is written in a dry run. `there` says
/// whether the shown list's file is there.
pub fn repair_current(
    current: Option<&str>,
    there: bool,
    local: &[ListFile],
    data: &[u8],
    dry_run: bool,
) -> (r: Option<FileWrite>)
    ensures
        r is Some == (!dry_run && current is Some && !there && local@.len() > 0),
        r is Some ==> r->0.deep_view() == paths::saved_current(data@, local@[0].title@),
{
    if !dry_run && current.is_some() && !there && local.len() > 0 {
        Some(paths::save_current(data, local[0].title.as_str()))
    } else {
        None
    }
}

/// What is saved of the state that a run ends with: nothing in a dry run.
pub fn state_to_save(state: SyncState, dry_run: bool) -> (r: Option<SyncState>)
    ensures
        r == if dry_run {
            None::<SyncState>
        } else {
            Some(state)
        },
{
    if dry_run {
        None
    } else {
        Some(state)
    }
}

} // verus!
