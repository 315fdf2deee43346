//! What a run leaves to the next one where rows were moved from one list to
//! another: nothing in either list.
use vstd::prelude::*;

use crate::item_tasks;
use crate::item_tasks::{ItemReplyView, ItemTaskView};
use crate::local;
use crate::model::{ItemView, SyncedItemView};
use crate::order;
use crate::plan;
use crate::plan::{ItemStep, PlanView};
use crate::plan_laws;
use crate::remote::RemoteTodoView;
use crate::run;
use crate::seqs;
use crate::settled;

verus! {

// ── A list of a run ───────────────────────────────────────────────────────

/// What a run over the items starts from: the state's items, the server's, and
/// the account.
pub struct StartView {
    pub items: Map<Seq<char>, SyncedItemView>,
    pub todos: Map<Seq<char>, RemoteTodoView>,
    pub email: Seq<char>,
}

/// One list of a run: its identity, the rows of its file, and what the server
/// answers to its tasks.
pub struct PassView {
    pub list: Seq<char>,
    pub disk: Seq<ItemView>,
    pub replies: Seq<ItemReplyView>,
}

/// The rows that are planned for.
pub open spec fn rows_of(start: StartView, pass: PassView) -> Seq<ItemView> {
    run::planned_rows(
        pass.disk,
        run::foreign_of(start.items, start.email),
        run::owners_of(start.items, start.email, start.todos),
        pass.list,
    )
}

/// The rows that were moved in.
pub open spec fn moved_of(start: StartView, pass: PassView) -> Seq<(Seq<char>, Seq<char>)> {
    run::moved_in(
        pass.disk,
        run::owners_of(start.items, start.email, start.todos),
        pass.list,
    )
}

/// The plan for a list, given the state's items when its turn comes.
pub open spec fn plan_of(
    start: StartView,
    items: Map<Seq<char>, SyncedItemView>,
    pass: PassView,
) -> PlanView {
    plan::planned_items(
        rows_of(start, pass),
        run::items_of(items, start.email, pass.list),
        run::todos_of(start.todos, pass.list),
    )
}

/// The state's items after the tasks of a list.
pub open spec fn items_then(
    start: StartView,
    items: Map<Seq<char>, SyncedItemView>,
    pass: PassView,
) -> Map<Seq<char>, SyncedItemView> {
    let tasks = item_tasks::item_tasks_of(plan_of(start, items, pass));
    plan_laws::items_upto(
        tasks,
        pass.replies,
        items,
        rows_of(start, pass),
        run::todos_of(start.todos, pass.list),
        pass.list,
        start.email,
        tasks.len() as int,
    )
}

/// The server's items after the tasks of a list.
pub open spec fn server_then(
    start: StartView,
    items: Map<Seq<char>, SyncedItemView>,
    there: Map<Seq<char>, RemoteTodoView>,
    pass: PassView,
) -> Map<Seq<char>, RemoteTodoView> {
    let tasks = item_tasks::item_tasks_of(plan_of(start, items, pass));
    settled::server_upto(
        tasks,
        pass.replies,
        there,
        rows_of(start, pass),
        pass.list,
        tasks.len() as int,
    )
}

/// The rows of the file after the tasks of a list.
pub open spec fn disk_then(
    start: StartView,
    items: Map<Seq<char>, SyncedItemView>,
    pass: PassView,
) -> Seq<ItemView> {
    let p = plan_of(start, items, pass);
    let tasks = item_tasks::item_tasks_of(p);
    local::applied(
        pass.disk,
        p,
        run::todos_of(start.todos, pass.list),
        settled::created_upto(tasks, pass.replies, tasks.len() as int),
        moved_of(start, pass),
    )
}

/// What the state has of the server's items in a list, though in another list,
/// is this account's, and as the server has it where its version tag alone is
/// to be recorded.
pub open spec fn fits(
    rows: Seq<ItemView>,
    items: Map<Seq<char>, SyncedItemView>,
    email: Seq<char>,
    list: Seq<char>,
    part: Map<Seq<char>, RemoteTodoView>,
) -> bool {
    forall|u: Seq<char>| #[trigger]
        part.contains_key(u) && items.contains_key(u) ==> {
            &&& items[u].account == email
            &&& items[u].list_id() == list || plan::item_step(
                plan::last_row(rows, u),
                None,
                part[u],
            ) != ItemStep::RefreshEtag || (items[u].text == part[u].summary && items[u].done
                == part[u].done)
        }
}

/// No row of a file that was moved in is that of an item that the state has in
/// the file's own list.
pub open spec fn left_behind_none(
    rows: Seq<ItemView>,
    owners: Map<Seq<char>, Seq<char>>,
    list: Seq<char>,
    base: Map<Seq<char>, SyncedItemView>,
) -> bool {
    forall|i: int|
        0 <= i < rows.len() && run::is_moved(#[trigger] rows[i], owners, list)
            ==> !base.contains_key(rows[i].uid->0)
}

/// No row is that of an item that the state has under another account and that
/// this server has.
pub open spec fn unshared(start: StartView, rows: Seq<ItemView>) -> bool {
    forall|i: int|
        0 <= i < rows.len() && (#[trigger] rows[i]).uid is Some && run::foreign_of(
            start.items,
            start.email,
        ).contains_key(rows[i].uid->0) ==> !start.todos.contains_key(rows[i].uid->0)
}

/// What the server calls the items that it creates is new to the state and to
/// the server.
pub open spec fn unheard(
    replies: Seq<ItemReplyView>,
    items: Map<Seq<char>, SyncedItemView>,
    todos: Map<Seq<char>, RemoteTodoView>,
) -> bool {
    forall|k: int|
        0 <= k < replies.len() && (#[trigger] replies[k]) is Created ==> !items.contains_key(
            replies[k]->Created_uid,
        ) && !todos.contains_key(replies[k]->Created_uid)
}

/// No item that the server creates is called as one that it created before.
pub open spec fn other_names(before: Seq<ItemReplyView>, replies: Seq<ItemReplyView>) -> bool {
    forall|i: int, j: int|
        0 <= i < before.len() && 0 <= j < replies.len() && (#[trigger] before[i]) is Created && (
        #[trigger] replies[j]) is Created ==> before[i]->Created_uid != replies[j]->Created_uid
}

/// No row that was moved in has the text of another one that is moved in or
/// that carries no identity.
pub open spec fn apart(
    rows: Seq<ItemView>,
    owners: Map<Seq<char>, Seq<char>>,
    list: Seq<char>,
) -> bool {
    forall|i: int, j: int|
        0 <= i < rows.len() && 0 <= j < rows.len() && i != j && run::is_moved(
            #[trigger] rows[i],
            owners,
            list,
        ) && (run::is_moved(rows[j], owners, list) || rows[j].uid is None) ==> rows[i].text != (
        #[trigger] rows[j]).text
}

/// Some row carries an identity.
pub open spec fn carries(rows: Seq<ItemView>, u: Seq<char>) -> bool {
    exists|i: int| 0 <= i < rows.len() && (#[trigger] rows[i]).uid == Some(u)
}

/// The server did all that it was asked for in a list, and gave new names. The
/// list's own items, those of other lists and those of other accounts do not
/// get in each other's way, and no moved row is taken for another.
pub open spec fn pass_went_well(
    start: StartView,
    items: Map<Seq<char>, SyncedItemView>,
    pass: PassView,
) -> bool {
    &&& pass.list.len() > 0
    &&& settled::went_well(
        rows_of(start, pass),
        run::items_of(items, start.email, pass.list),
        run::todos_of(start.todos, pass.list),
        pass.replies,
    )
    &&& fits(
        rows_of(start, pass),
        items,
        start.email,
        pass.list,
        run::todos_of(start.todos, pass.list),
    )
    &&& left_behind_none(
        pass.disk,
        run::owners_of(start.items, start.email, start.todos),
        pass.list,
        run::items_of(items, start.email, pass.list),
    )
    &&& unshared(start, pass.disk)
    &&& unheard(pass.replies, start.items, start.todos)
    &&& apart(
        pass.disk,
        run::owners_of(start.items, start.email, start.todos),
        pass.list,
    )
}

// ── The state and the server ──────────────────────────────────────────────

/// The server gave an item a name.
spec fn is_name(replies: Seq<ItemReplyView>, u: Seq<char>) -> bool {
    exists|k: int|
        0 <= k < replies.len() && (#[trigger] replies[k]) is Created && replies[k]->Created_uid
            == u
}

/// Two entries of the state that plans do not tell apart.
spec fn alike(a: SyncedItemView, b: SyncedItemView) -> bool {
    a.text == b.text && a.done == b.done && a.etag == b.etag
}

/// What the tasks of a list have made of one item in the state, `all`, given
/// what they make of it were there no other lists, `own`.
spec fn item_kept(
    base: Map<Seq<char>, SyncedItemView>,
    part: Map<Seq<char>, RemoteTodoView>,
    items: Map<Seq<char>, SyncedItemView>,
    list: Seq<char>,
    email: Seq<char>,
    replies: Seq<ItemReplyView>,
    u: Seq<char>,
    all: Option<SyncedItemView>,
    own: Option<SyncedItemView>,
) -> bool {
    match own {
        Some(e) => {
            &&& base.contains_key(u) || part.contains_key(u) || is_name(replies, u)
            &&& all is Some
            &&& alike(all->0, e)
            &&& base.contains_key(u) || is_name(replies, u) ==> all->0 == e
            &&& all->0.account == email
            &&& all->0.list_id() == list
        },
        None => if base.contains_key(u) {
            all is None
        } else {
            all == plan::at(items, u)
        },
    }
}

/// What the tasks of a list have made of one item on the server, `all`, given
/// what they make of it were there no other lists, `own`.
spec fn todo_kept(
    part: Map<Seq<char>, RemoteTodoView>,
    there: Map<Seq<char>, RemoteTodoView>,
    list: Seq<char>,
    replies: Seq<ItemReplyView>,
    u: Seq<char>,
    all: Option<RemoteTodoView>,
    own: Option<RemoteTodoView>,
) -> bool {
    if part.contains_key(u) || is_name(replies, u) {
        &&& all == own
        &&& own is Some ==> own->0.list == list
    } else {
        &&& all == plan::at(there, u)
        &&& own is None
    }
}

/// The tasks of a list do to the items what they would do were there no other
/// lists, and touch no others.
proof fn lemma_own_items(
    rows: Seq<ItemView>,
    items: Map<Seq<char>, SyncedItemView>,
    there: Map<Seq<char>, RemoteTodoView>,
    list: Seq<char>,
    email: Seq<char>,
    replies: Seq<ItemReplyView>,
    k: int,
    u: Seq<char>,
)
    requires
        list.len() > 0,
        fits(rows, items, email, list, run::todos_of(there, list)),
        unheard(replies, items, there),
        settled::went_well(
            rows,
            run::items_of(items, email, list),
            run::todos_of(there, list),
            replies,
        ),
        0 <= k <= replies.len(),
    ensures
        ({
            let base = run::items_of(items, email, list);
            let part = run::todos_of(there, list);
            let tasks = item_tasks::item_tasks_of(plan::planned_items(rows, base, part));
            &&& item_kept(
                base,
                part,
                items,
                list,
                email,
                replies,
                u,
                plan::at(
                    plan_laws::items_upto(tasks, replies, items, rows, part, list, email, k),
                    u,
                ),
                plan::at(
                    plan_laws::items_upto(tasks, replies, base, rows, part, list, email, k),
                    u,
                ),
            )
            &&& todo_kept(
                part,
                there,
                list,
                replies,
                u,
                plan::at(settled::server_upto(tasks, replies, there, rows, list, k), u),
                plan::at(settled::server_upto(tasks, replies, part, rows, list, k), u),
            )
        }),
    decreases k,
{
    let base = run::items_of(items, email, list);
    let part = run::todos_of(there, list);
    let tasks = item_tasks::item_tasks_of(plan::planned_items(rows, base, part));
    if k > 0 {
        lemma_own_items(rows, items, there, list, email, replies, k - 1, u);
        settled::lemma_known_task(rows, base, part, k - 1);
        assert(settled::was_done(tasks[k - 1], replies[k - 1]));
        match tasks[k - 1] {
            ItemTaskView::Create { text, done, stale } => {
                assert(is_name(replies, replies[k - 1]->Created_uid));
            },
            ItemTaskView::Known { work, uid } => {
                settled::lemma_before_task(
                    rows,
                    base,
                    part,
                    replies,
                    list,
                    email,
                    k - 1,
                    work,
                    uid,
                );
                assert(part.contains_key(uid) && items.contains_key(uid) ==> items[uid].account
                    == email);
            },
        }
    }
}

/// What the tasks of a list leave of the state and of the server: its own part
/// as if there were no other, up to what plans do not tell apart, and the rest
/// as it was, but for what came into the list on the server.
proof fn lemma_parts_then(
    rows: Seq<ItemView>,
    items: Map<Seq<char>, SyncedItemView>,
    there: Map<Seq<char>, RemoteTodoView>,
    list: Seq<char>,
    email: Seq<char>,
    replies: Seq<ItemReplyView>,
)
    requires
        list.len() > 0,
        fits(rows, items, email, list, run::todos_of(there, list)),
        unheard(replies, items, there),
        settled::went_well(
            rows,
            run::items_of(items, email, list),
            run::todos_of(there, list),
            replies,
        ),
    ensures
        ({
            let base = run::items_of(items, email, list);
            let part = run::todos_of(there, list);
            let tasks = item_tasks::item_tasks_of(plan::planned_items(rows, base, part));
            let n = tasks.len() as int;
            let after = plan_laws::items_upto(tasks, replies, items, rows, part, list, email, n);
            let own = plan_laws::items_upto(tasks, replies, base, rows, part, list, email, n);
            let server = settled::server_upto(tasks, replies, there, rows, list, n);
            &&& all_alike(run::items_of(after, email, list), own)
            &&& run::todos_of(server, list) == settled::server_upto(
                tasks,
                replies,
                part,
                rows,
                list,
                n,
            )
            &&& forall|other: Seq<char>|
                other != list && (forall|u: Seq<char>| #[trigger]
                    part.contains_key(u) ==> !run::items_of(items, email, other).contains_key(u))
                    ==> #[trigger] run::items_of(after, email, other) == run::items_of(
                    items,
                    email,
                    other,
                )
            &&& forall|other: Seq<char>|
                other != list ==> #[trigger] run::todos_of(server, other) == run::todos_of(
                    there,
                    other,
                )
            &&& run::foreign_of(after, email) == run::foreign_of(items, email)
            &&& forall|u: Seq<char>|
                !is_name(replies, u) && !items.contains_key(u) && !there.contains_key(u)
                    ==> !(#[trigger] after.contains_key(u)) && !server.contains_key(u)
        }),
{
    let base = run::items_of(items, email, list);
    let part = run::todos_of(there, list);
    let tasks = item_tasks::item_tasks_of(plan::planned_items(rows, base, part));
    let n = tasks.len() as int;
    let after = plan_laws::items_upto(tasks, replies, items, rows, part, list, email, n);
    let own = plan_laws::items_upto(tasks, replies, base, rows, part, list, email, n);
    let server = settled::server_upto(tasks, replies, there, rows, list, n);
    let mine = settled::server_upto(tasks, replies, part, rows, list, n);
    let now = run::items_of(after, email, list);
    assert forall|u: Seq<char>| #[trigger] now.contains_key(u) == own.contains_key(u) by {
        lemma_own_items(rows, items, there, list, email, replies, n, u);
    }
    assert forall|u: Seq<char>| #[trigger] now.contains_key(u) implies alike(now[u], own[u]) by {
        lemma_own_items(rows, items, there, list, email, replies, n, u);
    }
    assert(run::todos_of(server, list) =~= mine) by {
        let s = run::todos_of(server, list);
        assert forall|u: Seq<char>| #[trigger] s.contains_key(u) == mine.contains_key(u) by {
            lemma_own_items(rows, items, there, list, email, replies, n, u);
        }
        assert forall|u: Seq<char>| #[trigger] s.contains_key(u) implies s[u] == mine[u] by {
            lemma_own_items(rows, items, there, list, email, replies, n, u);
        }
    }
    assert forall|other: Seq<char>|
        other != list && (forall|u: Seq<char>| #[trigger]
            part.contains_key(u) ==> !run::items_of(items, email, other).contains_key(
                u,
            )) implies #[trigger] run::items_of(after, email, other) == run::items_of(
        items,
        email,
        other,
    ) by {
        let a = run::items_of(after, email, other);
        let b = run::items_of(items, email, other);
        assert forall|u: Seq<char>| #[trigger] a.contains_key(u) == b.contains_key(u) by {
            lemma_own_items(rows, items, there, list, email, replies, n, u);
            assert(part.contains_key(u) ==> !b.contains_key(u));
        }
        assert forall|u: Seq<char>| #[trigger] a.contains_key(u) implies a[u] == b[u] by {
            lemma_own_items(rows, items, there, list, email, replies, n, u);
        }
        assert(a =~= b);
    }
    assert forall|other: Seq<char>| other != list implies #[trigger] run::todos_of(server, other)
        == run::todos_of(there, other) by {
        let a = run::todos_of(server, other);
        let b = run::todos_of(there, other);
        assert forall|u: Seq<char>| #[trigger] a.contains_key(u) == b.contains_key(u) by {
            lemma_own_items(rows, items, there, list, email, replies, n, u);
        }
        assert forall|u: Seq<char>| #[trigger] a.contains_key(u) implies a[u] == b[u] by {
            lemma_own_items(rows, items, there, list, email, replies, n, u);
        }
        assert(a =~= b);
    }
    assert(run::foreign_of(after, email) =~= run::foreign_of(items, email)) by {
        let a = run::foreign_of(after, email);
        let b = run::foreign_of(items, email);
        assert forall|u: Seq<char>| #[trigger] a.contains_key(u) == b.contains_key(u) by {
            lemma_own_items(rows, items, there, list, email, replies, n, u);
            assert(part.contains_key(u) && items.contains_key(u) ==> items[u].account == email);
        }
        assert forall|u: Seq<char>| #[trigger] a.contains_key(u) implies a[u] == b[u] by {
            lemma_own_items(rows, items, there, list, email, replies, n, u);
        }
    }
    assert forall|u: Seq<char>|
        !is_name(replies, u) && !items.contains_key(u) && !there.contains_key(u) implies !(
    #[trigger] after.contains_key(u)) && !server.contains_key(u) by {
        lemma_own_items(rows, items, there, list, email, replies, n, u);
    }
}

/// Two states that plans do not tell apart.
spec fn all_alike(
    a: Map<Seq<char>, SyncedItemView>,
    b: Map<Seq<char>, SyncedItemView>,
) -> bool {
    &&& forall|u: Seq<char>| #[trigger] a.contains_key(u) == b.contains_key(u)
    &&& forall|u: Seq<char>| #[trigger] a.contains_key(u) ==> alike(a[u], b[u])
}

pub proof fn lemma_filter_same<A>(s: Seq<A>, p: spec_fn(A) -> bool, q: spec_fn(A) -> bool)
    requires
        forall|i: int| 0 <= i < s.len() ==> p(#[trigger] s[i]) == q(s[i]),
    ensures
        s.filter(p) == s.filter(q),
    decreases s.len(),
{
    reveal(Seq::filter);
    if s.len() > 0 {
        assert forall|i: int| 0 <= i < s.len() - 1 implies p(#[trigger] s.drop_last()[i]) == q(
            s.drop_last()[i],
        ) by {
            assert(s.drop_last()[i] == s[i]);
        }
        lemma_filter_same(s.drop_last(), p, q);
        assert(s[s.len() - 1] == s.last());
    }
}

proof fn lemma_filter_map_by<A, B>(
    s: Seq<A>,
    f: spec_fn(A) -> Option<B>,
    g: spec_fn(A) -> Option<B>,
)
    requires
        forall|i: int| 0 <= i < s.len() ==> f(#[trigger] s[i]) == g(s[i]),
    ensures
        s.filter_map(f) == s.filter_map(g),
    decreases s.len(),
{
    reveal(Seq::filter_map);
    if s.len() > 0 {
        assert forall|i: int| 0 <= i < s.len() - 1 implies f(#[trigger] s.drop_last()[i]) == g(
            s.drop_last()[i],
        ) by {
            assert(s.drop_last()[i] == s[i]);
        }
        lemma_filter_map_by(s.drop_last(), f, g);
        assert(s[s.len() - 1] == s.last());
    }
}

/// States that plans do not tell apart give the same plan.
proof fn lemma_same_plan(
    rows: Seq<ItemView>,
    a: Map<Seq<char>, SyncedItemView>,
    b: Map<Seq<char>, SyncedItemView>,
    todos: Map<Seq<char>, RemoteTodoView>,
)
    requires
        all_alike(a, b),
    ensures
        plan::planned_items(rows, a, todos) == plan::planned_items(rows, b, todos),
{
    assert(a.dom() =~= b.dom()) by {
        assert forall|u: Seq<char>| a.dom().contains(u) == b.dom().contains(u) by {
            assert(a.contains_key(u) == b.contains_key(u));
        }
    }
    assert forall|step: ItemStep| #[trigger] plan::uids_with(step, rows, a, todos)
        == plan::uids_with(step, rows, b, todos) by {
        let ids = order::in_order(todos.dom());
        let p = |u: Seq<char>|
            plan::item_step(plan::last_row(rows, u), plan::at(a, u), todos[u]) == step;
        let q = |u: Seq<char>|
            plan::item_step(plan::last_row(rows, u), plan::at(b, u), todos[u]) == step;
        assert forall|i: int| 0 <= i < ids.len() implies p(#[trigger] ids[i]) == q(ids[i]) by {
            assert(a.contains_key(ids[i]) == b.contains_key(ids[i]));
        }
        lemma_filter_same(ids, p, q);
    }
    let f = |row: ItemView| plan::row_create(row, a, todos);
    let g = |row: ItemView| plan::row_create(row, b, todos);
    assert forall|i: int| 0 <= i < rows.len() implies f(#[trigger] rows[i]) == g(rows[i]) by {
        if rows[i].uid is Some {
            assert(a.contains_key(rows[i].uid->0) == b.contains_key(rows[i].uid->0));
        }
    }
    lemma_filter_map_by(rows, f, g);
}

// ── The rows ──────────────────────────────────────────────────────────────

/// A row is not that of an item of another account.
spec fn is_own(row: ItemView, foreign: Map<Seq<char>, SyncedItemView>) -> bool {
    !(row.uid is Some && foreign.contains_key(row.uid->0))
}

/// A row as it is planned for: without its identity, where it was moved in.
spec fn unmoved(
    row: ItemView,
    owners: Map<Seq<char>, Seq<char>>,
    list: Seq<char>,
) -> ItemView {
    if run::is_moved(row, owners, list) {
        ItemView { uid: None, ..row }
    } else {
        row
    }
}

proof fn lemma_planned_rows(
    disk: Seq<ItemView>,
    foreign: Map<Seq<char>, SyncedItemView>,
    owners: Map<Seq<char>, Seq<char>>,
    list: Seq<char>,
)
    ensures
        run::planned_rows(disk, foreign, owners, list) == disk.filter(
            |r: ItemView| is_own(r, foreign),
        ).map_values(|r: ItemView| unmoved(r, owners, list)),
    decreases disk.len(),
{
    let q = |r: ItemView| is_own(r, foreign);
    let g = |r: ItemView| unmoved(r, owners, list);
    reveal(Seq::filter);
    reveal(Seq::filter_map);
    if disk.len() == 0 {
        assert(disk.filter(q).map_values(g) =~= run::planned_rows(disk, foreign, owners, list));
    } else {
        let rest = disk.drop_last();
        lemma_planned_rows(rest, foreign, owners, list);
        if q(disk.last()) {
            assert(rest.filter(q).push(disk.last()).map_values(g) =~= rest.filter(q).map_values(
                g,
            ).push(g(disk.last())));
        }
        assert(disk.filter(q).map_values(g) =~= run::planned_rows(disk, foreign, owners, list));
    }
}

proof fn lemma_first_where(rows: Seq<ItemView>, p: spec_fn(ItemView) -> bool, k: int)
    requires
        0 <= k < rows.len(),
        p(rows[k]),
        forall|j: int| 0 <= j < k ==> !p(#[trigger] rows[j]),
    ensures
        local::first_row(rows, p) == Some(k),
{
    local::lemma_first_row(rows, p);
    let i = local::first_row(rows, p)->0;
    if i < k {
        assert(!p(rows[i]));
    } else if k < i {
        assert(!p(rows[k]));
    }
}

/// Changing the first row that `p` holds of is the same among fewer rows,
/// where none that `p` holds of is left out.
proof fn lemma_change_among_fewer(
    rows: Seq<ItemView>,
    p: spec_fn(ItemView) -> bool,
    q: spec_fn(ItemView) -> bool,
    x: ItemView,
)
    requires
        forall|r: ItemView| #[trigger] p(r) ==> q(r),
        q(x),
    ensures
        match (local::first_row(rows, p), local::first_row(rows.filter(q), p)) {
            (Some(i), Some(j)) => {
                &&& 0 <= i < rows.len()
                &&& 0 <= j < rows.filter(q).len()
                &&& rows[i] == rows.filter(q)[j]
                &&& rows.update(i, x).filter(q) == rows.filter(q).update(j, x)
            },
            (None, None) => true,
            _ => false,
        },
{
    local::lemma_first_row(rows, p);
    local::lemma_first_row(rows.filter(q), p);
    if let Some(i) = local::first_row(rows, p) {
        let a = rows.take(i);
        let b = rows.skip(i + 1);
        let r = rows[i];
        assert(q(r));
        lemma_filter_middle(a, r, b, q);
        lemma_filter_middle(a, x, b, q);
        assert(rows =~= a + seq![r] + b);
        assert(rows.update(i, x) =~= a + seq![x] + b);
        let j = a.filter(q).len() as int;
        assert forall|k: int| 0 <= k < j implies !p(#[trigger] rows.filter(q)[k]) by {
            assert(rows.filter(q)[k] == a.filter(q)[k]);
            assert(a.filter(q).contains(a.filter(q)[k]));
            seqs::lemma_filter_contains(a, q, a.filter(q)[k]);
            let m = choose|m: int| 0 <= m < a.len() && a[m] == a.filter(q)[k];
            assert(rows[m] == a[m]);
            assert(!p(rows[m]));
        }
        assert(rows.filter(q)[j] == r);
        lemma_first_where(rows.filter(q), p, j);
        assert(rows.update(i, x).filter(q) =~= rows.filter(q).update(j, x));
    } else if let Some(j) = local::first_row(rows.filter(q), p) {
        let r = rows.filter(q)[j];
        assert(rows.filter(q).contains(r));
        seqs::lemma_filter_contains(rows, q, r);
        let m = choose|m: int| 0 <= m < rows.len() && rows[m] == r;
        assert(!p(rows[m]));
    }
}

proof fn lemma_filter_middle(
    a: Seq<ItemView>,
    r: ItemView,
    b: Seq<ItemView>,
    q: spec_fn(ItemView) -> bool,
)
    requires
        q(r),
    ensures
        (a + seq![r] + b).filter(q) == a.filter(q) + seq![r] + b.filter(q),
{
    Seq::filter_distributes_over_add(a + seq![r], b, q);
    Seq::filter_distributes_over_add(a, seq![r], q);
    reveal_with_fuel(Seq::filter, 2);
    assert(seq![r].drop_last() =~= Seq::empty());
    assert(seq![r].filter(q) =~= seq![r]);
}

proof fn lemma_filters_commute(
    rows: Seq<ItemView>,
    p: spec_fn(ItemView) -> bool,
    q: spec_fn(ItemView) -> bool,
)
    ensures
        rows.filter(p).filter(q) == rows.filter(q).filter(p),
    decreases rows.len(),
{
    reveal(Seq::filter);
    if rows.len() > 0 {
        let t = rows.drop_last();
        let r = rows.last();
        lemma_filters_commute(t, p, q);
        assert(t.filter(p).push(r).drop_last() =~= t.filter(p));
        assert(t.filter(q).push(r).drop_last() =~= t.filter(q));
    }
}

proof fn lemma_updates_among_own(
    rows: Seq<ItemView>,
    uids: Seq<Seq<char>>,
    todos: Map<Seq<char>, RemoteTodoView>,
    foreign: Map<Seq<char>, SyncedItemView>,
)
    requires
        forall|k: int| 0 <= k < uids.len() ==> !foreign.contains_key(#[trigger] uids[k]),
    ensures
        local::take_updates(rows, uids, todos).filter(|r: ItemView| is_own(r, foreign))
            == local::take_updates(
            rows.filter(|r: ItemView| is_own(r, foreign)),
            uids,
            todos,
        ),
    decreases uids.len(),
{
    let q = |r: ItemView| is_own(r, foreign);
    if uids.len() > 0 {
        let rest = uids.drop_last();
        let uid = uids.last();
        assert(!foreign.contains_key(uids[uids.len() - 1]));
        assert forall|k: int| 0 <= k < rest.len() implies !foreign.contains_key(
            #[trigger] rest[k],
        ) by {
            assert(rest[k] == uids[k]);
        }
        lemma_updates_among_own(rows, rest, todos, foreign);
        let had = local::take_updates(rows, rest, todos);
        let p = |i: ItemView| i.uid == Some(uid);
        local::lemma_first_row(had, p);
        let x = match local::row_of(had, uid) {
            Some(i) => ItemView { text: todos[uid].summary, done: todos[uid].done, ..had[i] },
            None => ItemView { text: Seq::empty(), done: false, uid: None },
        };
        lemma_change_among_fewer(had, p, q, x);
    }
}

proof fn lemma_marks_among_own(
    rows: Seq<ItemView>,
    created: Seq<(Seq<char>, Option<Seq<char>>, Seq<char>)>,
    moved: Seq<(Seq<char>, Seq<char>)>,
    foreign: Map<Seq<char>, SyncedItemView>,
)
    requires
        forall|k: int|
            0 <= k < created.len() ==> !foreign.contains_key((#[trigger] created[k]).2) && (
            created[k].1 is Some ==> !foreign.contains_key(created[k].1->0)),
        forall|k: int| 0 <= k < moved.len() ==> !foreign.contains_key((#[trigger] moved[k]).1),
    ensures
        local::annotate_all(rows, created, moved).filter(|r: ItemView| is_own(r, foreign))
            == local::annotate_all(
            rows.filter(|r: ItemView| is_own(r, foreign)),
            created,
            moved,
        ),
    decreases created.len(),
{
    let q = |r: ItemView| is_own(r, foreign);
    if created.len() > 0 {
        let rest = created.drop_last();
        let made = created.last();
        assert(created[created.len() - 1] == made);
        assert forall|k: int| 0 <= k < rest.len() implies !foreign.contains_key(
            (#[trigger] rest[k]).2,
        ) && (rest[k].1 is Some ==> !foreign.contains_key(rest[k].1->0)) by {
            assert(rest[k] == created[k]);
        }
        lemma_marks_among_own(rows, rest, moved, foreign);
        let had = local::annotate_all(rows, rest, moved);
        let none = ItemView { text: Seq::empty(), done: false, uid: None };
        let stale = match made.1 {
            Some(u) => Some(u),
            None => local::moved_uid(moved, made.0),
        };
        if made.1 is None {
            lemma_moved_uid(moved, made.0);
            if let Some(u) = local::moved_uid(moved, made.0) {
                let k = choose|k: int| 0 <= k < moved.len() && moved[k] == (made.0, u);
                assert(!foreign.contains_key(moved[k].1));
            }
        }
        let p = match stale {
            Some(u) => (|i: ItemView| i.uid == Some(u)),
            None => (|i: ItemView| i.uid is None && i.text == made.0),
        };
        local::lemma_first_row(had, p);
        let x = match local::first_row(had, p) {
            Some(i) => ItemView { uid: Some(made.2), ..had[i] },
            None => none,
        };
        lemma_change_among_fewer(had, p, q, x);
    }
}

/// Where a text is that of a row that was moved in.
proof fn lemma_moved_uid(moved: Seq<(Seq<char>, Seq<char>)>, text: Seq<char>)
    ensures
        match local::moved_uid(moved, text) {
            Some(u) => moved.contains((text, u)),
            None => forall|k: int| 0 <= k < moved.len() ==> (#[trigger] moved[k]).0 != text,
        },
    decreases moved.len(),
{
    if moved.len() > 0 {
        let rest = moved.skip(1);
        if moved[0].0 == text {
            assert(moved[0] == (text, moved[0].1));
        } else {
            lemma_moved_uid(rest, text);
            match local::moved_uid(rest, text) {
                Some(u) => {
                    let k = choose|k: int| 0 <= k < rest.len() && rest[k] == (text, u);
                    assert(moved[k + 1] == (text, u));
                },
                None => {
                    assert forall|k: int| 0 <= k < moved.len() implies (#[trigger] moved[k]).0
                        != text by {
                        if k > 0 {
                            assert(rest[k - 1] == moved[k]);
                        }
                    }
                },
            }
        }
    }
}

proof fn lemma_filter_apart(
    rows: Seq<ItemView>,
    owners: Map<Seq<char>, Seq<char>>,
    list: Seq<char>,
    q: spec_fn(ItemView) -> bool,
)
    requires
        apart(rows, owners, list),
    ensures
        apart(rows.filter(q), owners, list),
    decreases rows.len(),
{
    reveal(Seq::filter);
    if rows.len() > 0 {
        let t = rows.drop_last();
        let r = rows.last();
        assert(rows[rows.len() - 1] == r);
        assert forall|i: int, j: int|
            0 <= i < t.len() && 0 <= j < t.len() && i != j && run::is_moved(
                #[trigger] t[i],
                owners,
                list,
            ) && (run::is_moved(t[j], owners, list) || t[j].uid is None) implies t[i].text != (
        #[trigger] t[j]).text by {
            assert(rows[i] == t[i] && rows[j] == t[j]);
        }
        lemma_filter_apart(t, owners, list, q);
        let k = t.filter(q);
        if q(r) {
            let all = k.push(r);
            assert forall|i: int, j: int|
                0 <= i < all.len() && 0 <= j < all.len() && i != j && run::is_moved(
                    #[trigger] all[i],
                    owners,
                    list,
                ) && (run::is_moved(all[j], owners, list) || all[j].uid is None) implies all[i].text
                != (#[trigger] all[j]).text by {
                if i < k.len() && j < k.len() {
                    assert(all[i] == k[i] && all[j] == k[j]);
                } else {
                    let m = if i < k.len() {
                        i
                    } else {
                        j
                    };
                    assert(k.contains(k[m]));
                    seqs::lemma_filter_contains(t, q, k[m]);
                    let d = choose|d: int| 0 <= d < t.len() && t[d] == k[m];
                    assert(rows[d] == t[d]);
                    if i < k.len() {
                        assert(rows[d].text != rows[rows.len() - 1].text);
                    } else {
                        assert(rows[rows.len() - 1].text != rows[d].text);
                    }
                }
            }
        }
    }
}

/// A filter that does not look at what is mapped can come before or after.
proof fn lemma_map_then_filter(
    rows: Seq<ItemView>,
    g: spec_fn(ItemView) -> ItemView,
    p: spec_fn(ItemView) -> bool,
)
    requires
        forall|i: int| 0 <= i < rows.len() ==> p(g(#[trigger] rows[i])) == p(rows[i]),
    ensures
        rows.map_values(g).filter(p) == rows.filter(p).map_values(g),
    decreases rows.len(),
{
    reveal(Seq::filter);
    let all = rows.map_values(g);
    if rows.len() == 0 {
        assert(all.filter(p) =~= rows.filter(p).map_values(g));
    } else {
        let t = rows.drop_last();
        let r = rows.last();
        assert(rows[rows.len() - 1] == r);
        assert forall|i: int| 0 <= i < t.len() implies p(g(#[trigger] t[i])) == p(t[i]) by {
            assert(t[i] == rows[i]);
        }
        lemma_map_then_filter(t, g, p);
        assert(all.drop_last() =~= t.map_values(g));
        assert(all.last() == g(r));
        assert(t.filter(p).push(r).map_values(g) =~= t.filter(p).map_values(g).push(g(r)));
    }
}

/// Taking what the server changed is the same for rows as they are planned
/// for, and changes no other row.
proof fn lemma_updates_unmoved(
    rows: Seq<ItemView>,
    uids: Seq<Seq<char>>,
    todos: Map<Seq<char>, RemoteTodoView>,
    owners: Map<Seq<char>, Seq<char>>,
    list: Seq<char>,
)
    requires
        forall|k: int|
            0 <= k < uids.len() ==> owners.contains_key(#[trigger] uids[k]) && owners[uids[k]]
                == list,
    ensures
        ({
            let after = local::take_updates(rows, uids, todos);
            &&& after.len() == rows.len()
            &&& local::take_updates(
                rows.map_values(|r: ItemView| unmoved(r, owners, list)),
                uids,
                todos,
            ) == after.map_values(|r: ItemView| unmoved(r, owners, list))
            &&& forall|i: int|
                0 <= i < rows.len() ==> (#[trigger] after[i]).uid == rows[i].uid && (run::is_moved(
                    rows[i],
                    owners,
                    list,
                ) || rows[i].uid is None ==> after[i] == rows[i])
        }),
    decreases uids.len(),
{
    let g = |r: ItemView| unmoved(r, owners, list);
    if uids.len() > 0 {
        let rest = uids.drop_last();
        let uid = uids.last();
        assert(uids[uids.len() - 1] == uid);
        assert forall|k: int| 0 <= k < rest.len() implies owners.contains_key(#[trigger] rest[k])
            && owners[rest[k]] == list by {
            assert(rest[k] == uids[k]);
        }
        lemma_updates_unmoved(rows, rest, todos, owners, list);
        let had = local::take_updates(rows, rest, todos);
        let plain = had.map_values(g);
        let p = |i: ItemView| i.uid == Some(uid);
        local::lemma_first_row(had, p);
        local::lemma_first_row(plain, p);
        assert forall|i: int| 0 <= i < had.len() implies p(#[trigger] plain[i]) == p(had[i]) by {}
        if let Some(k) = local::row_of(had, uid) {
            assert forall|j: int| 0 <= j < k implies !p(#[trigger] plain[j]) by {
                assert(!p(had[j]));
            }
            assert(p(plain[k]));
            lemma_first_where(plain, p, k);
            let x = ItemView { text: todos[uid].summary, done: todos[uid].done, ..had[k] };
            assert(plain.update(k, x) =~= had.update(k, x).map_values(g));
        } else {
            if let Some(k) = local::row_of(plain, uid) {
                assert(p(had[k]));
            }
        }
    }
}

/// The rows, the first `n` of those that were created with their new
/// identities; `plain` are the rows as they were planned for.
spec fn remarked(
    rows: Seq<ItemView>,
    plain: Seq<ItemView>,
    f: spec_fn(ItemView) -> Option<(Seq<char>, bool, Option<Seq<char>>)>,
    created: Seq<(Seq<char>, Option<Seq<char>>, Seq<char>)>,
    n: int,
) -> Seq<ItemView> {
    Seq::new(
        rows.len(),
        |i: int|
            if f(plain[i]) is Some && settled::rank(plain, f, i) < n {
                ItemView { uid: Some(created[settled::rank(plain, f, i)].2), ..rows[i] }
            } else {
                rows[i]
            },
    )
}

/// Each row that was created gets its own new identity, those that were moved
/// in too.
proof fn lemma_remarked(
    rows: Seq<ItemView>,
    owners: Map<Seq<char>, Seq<char>>,
    list: Seq<char>,
    base: Map<Seq<char>, SyncedItemView>,
    todos: Map<Seq<char>, RemoteTodoView>,
    created: Seq<(Seq<char>, Option<Seq<char>>, Seq<char>)>,
    moved: Seq<(Seq<char>, Seq<char>)>,
    n: int,
)
    requires
        settled::one_each(rows.map_values(|r: ItemView| unmoved(r, owners, list))),
        0 <= n <= created.len(),
        ({
            let plain = rows.map_values(|r: ItemView| unmoved(r, owners, list));
            let c = plain.filter_map(|row: ItemView| plan::row_create(row, base, todos));
            &&& created.len() == c.len()
            &&& forall|j: int|
                0 <= j < c.len() ==> (#[trigger] created[j]).0 == c[j].0 && created[j].1 == c[j].2
        }),
        forall|j: int, i: int|
            0 <= j < created.len() && 0 <= i < rows.len() ==> (#[trigger] rows[i]).uid != Some(
                (#[trigger] created[j]).2,
            ),
        forall|i: int|
            0 <= i < rows.len() && run::is_moved(#[trigger] rows[i], owners, list)
                ==> local::moved_uid(moved, rows[i].text) == rows[i].uid,
        forall|i: int|
            0 <= i < rows.len() && (#[trigger] rows[i]).uid is None ==> local::moved_uid(
                moved,
                rows[i].text,
            ) is None,
    ensures
        local::annotate_all(rows, created.take(n), moved) == remarked(
            rows,
            rows.map_values(|r: ItemView| unmoved(r, owners, list)),
            |row: ItemView| plan::row_create(row, base, todos),
            created,
            n,
        ),
    decreases n,
{
    let plain = rows.map_values(|r: ItemView| unmoved(r, owners, list));
    let f = |row: ItemView| plan::row_create(row, base, todos);
    let c = plain.filter_map(f);
    if n == 0 {
        assert(created.take(0) =~= Seq::empty());
        assert(remarked(rows, plain, f, created, 0) =~= rows);
    } else {
        let j = n - 1;
        lemma_remarked(rows, owners, list, base, todos, created, moved, j);
        assert(created.take(n).drop_last() =~= created.take(j));
        assert(created.take(n).last() == created[j]);
        let had = remarked(rows, plain, f, created, j);
        let made = created[j];
        let at = settled::lemma_source(plain, f, j);
        assert(c[j] == (plain[at].text, plain[at].done, plain[at].uid));
        assert(had[at] == rows[at]);
        assert forall|k: int| 0 <= k < rows.len() && had[k] != rows[k] implies exists|m: int|
            0 <= m < created.len() && (#[trigger] had[k]).uid == Some(
                (#[trigger] created[m]).2,
            ) by {
            let m = settled::rank(plain, f, k);
            assert(had[k].uid == Some(created[m].2));
        }
        let stale = match made.1 {
            Some(u) => Some(u),
            None => local::moved_uid(moved, made.0),
        };
        if let Some(u) = stale {
            assert(rows[at].uid == Some(u));
            let q = |i: ItemView| i.uid == Some(u);
            assert forall|k: int| 0 <= k < at implies !q(#[trigger] had[k]) by {
                if q(had[k]) {
                    if had[k] != rows[k] {
                        let m = choose|m: int|
                            0 <= m < created.len() && had[k].uid == Some(
                                (#[trigger] created[m]).2,
                            );
                        assert(rows[at].uid != Some(created[m].2));
                    } else if run::is_moved(rows[at], owners, list) {
                        assert(f(plain[k]) is Some);
                        settled::lemma_rank(plain, f, k);
                        assert(settled::rank(plain, f, k) < settled::rank(plain, f, at));
                    } else {
                        assert(plain[k] == rows[k] && plain[at] == rows[at]);
                        assert(plain[k].uid != plain[at].uid);
                    }
                }
            }
            lemma_first_where(had, q, at);
        } else {
            let q = |i: ItemView| i.uid is None && i.text == made.0;
            assert(rows[at].uid is None);
            assert forall|k: int| 0 <= k < at implies !q(#[trigger] had[k]) by {
                if q(had[k]) {
                    assert(had[k] == rows[k]);
                    assert(plain[k] == rows[k]);
                    assert(f(plain[k]) is Some);
                    settled::lemma_rank(plain, f, k);
                    assert(settled::rank(plain, f, k) < settled::rank(plain, f, at));
                }
            }
            lemma_first_where(had, q, at);
        }
        assert(local::created_row(had, made, moved) == Some(at));
        let want = remarked(rows, plain, f, created, n);
        let got = local::annotate(had, made, moved);
        assert forall|i: int| 0 <= i < rows.len() implies got[i] == want[i] by {
            if f(plain[i]) is Some && i != at {
                settled::lemma_rank(plain, f, i);
                settled::lemma_rank(plain, f, at);
                if i < at {
                    assert(settled::rank(plain, f, i) < settled::rank(plain, f, at));
                } else {
                    assert(settled::rank(plain, f, at) < settled::rank(plain, f, i));
                }
            }
        }
        assert(got =~= want);
    }
}

/// What is known of a list and of the rows of its file.
spec fn sorted_out(
    disk: Seq<ItemView>,
    foreign: Map<Seq<char>, SyncedItemView>,
    owners: Map<Seq<char>, Seq<char>>,
    list: Seq<char>,
    base: Map<Seq<char>, SyncedItemView>,
    part: Map<Seq<char>, RemoteTodoView>,
    replies: Seq<ItemReplyView>,
) -> bool {
    &&& settled::went_well(run::planned_rows(disk, foreign, owners, list), base, part, replies)
    &&& apart(disk, owners, list)
    &&& left_behind_none(disk, owners, list, base)
    &&& forall|u: Seq<char>| #[trigger]
        part.contains_key(u) ==> owners.contains_key(u) && owners[u] == list
            && !foreign.contains_key(u)
    &&& forall|i: int|
        0 <= i < disk.len() && run::is_moved(#[trigger] disk[i], owners, list) ==> is_own(
            disk[i],
            foreign,
        )
    &&& forall|k: int|
        0 <= k < replies.len() && (#[trigger] replies[k]) is Created ==> !owners.contains_key(
            replies[k]->Created_uid,
        ) && !foreign.contains_key(replies[k]->Created_uid)
}

/// The rows of other accounts make no difference to the others.
proof fn lemma_applied_among_own(
    disk: Seq<ItemView>,
    foreign: Map<Seq<char>, SyncedItemView>,
    owners: Map<Seq<char>, Seq<char>>,
    list: Seq<char>,
    base: Map<Seq<char>, SyncedItemView>,
    part: Map<Seq<char>, RemoteTodoView>,
    replies: Seq<ItemReplyView>,
)
    requires
        sorted_out(disk, foreign, owners, list, base, part, replies),
    ensures
        ({
            let rows = run::planned_rows(disk, foreign, owners, list);
            let p = plan::planned_items(rows, base, part);
            let made = settled::created_upto(
                item_tasks::item_tasks_of(p),
                replies,
                replies.len() as int,
            );
            let moved = run::moved_in(disk, owners, list);
            let q = |r: ItemView| is_own(r, foreign);
            local::applied(disk, p, part, made, moved).filter(q) == local::applied(
                disk.filter(q),
                p,
                part,
                made,
                moved,
            )
        }),
{
    let rows = run::planned_rows(disk, foreign, owners, list);
    let p = plan::planned_items(rows, base, part);
    let made = settled::created_upto(
        item_tasks::item_tasks_of(p),
        replies,
        replies.len() as int,
    );
    let moved = run::moved_in(disk, owners, list);
    let q = |r: ItemView| is_own(r, foreign);
    let own = disk.filter(q);
    settled::lemma_fresh_rows(rows, base, part, replies);
    lemma_planned_rows(disk, foreign, owners, list);
    let stays = |i: ItemView| i.uid is None || !p.pull_deletes.contains(i.uid->0);
    lemma_filters_commute(disk, stays, q);
    let kept = local::without_gone(disk, p.pull_deletes);
    assert(kept.filter(q) == local::without_gone(own, p.pull_deletes));
    assert forall|k: int| 0 <= k < p.pull_updates.len() implies !foreign.contains_key(
        #[trigger] p.pull_updates[k],
    ) by {
        assert(p.pull_updates.contains(p.pull_updates[k]));
        plan_laws::lemma_uids_with(
            ItemStep::PullUpdate,
            rows,
            base,
            part,
            p.pull_updates[k],
        );
    }
    lemma_updates_among_own(kept, p.pull_updates, part, foreign);
    let fresh = local::take_updates(kept, p.pull_updates, part);
    let f = |row: ItemView| plan::row_create(row, base, part);
    let n1 = p.push_updates.len() as int;
    assert forall|k: int| 0 <= k < made.len() implies !foreign.contains_key(
        (#[trigger] made[k]).2,
    ) && (made[k].1 is Some ==> !foreign.contains_key(made[k].1->0)) by {
        assert(replies[n1 + k] is Created);
        seqs::lemma_filter_map_from(rows, f, k);
        let i = choose|i: int| 0 <= i < rows.len() && f(#[trigger] rows[i]) == Some(
            p.push_creates[k],
        );
        assert(rows[i] == unmoved(own[i], owners, list));
        assert(own.contains(own[i]));
        seqs::lemma_filter_contains(disk, q, own[i]);
    }
    let h = |row: ItemView|
        if run::is_moved(row, owners, list) {
            Some((row.text, row.uid->0))
        } else {
            None
        };
    assert forall|k: int| 0 <= k < moved.len() implies !foreign.contains_key(
        (#[trigger] moved[k]).1,
    ) by {
        seqs::lemma_filter_map_from(disk, h, k);
        let i = choose|i: int| 0 <= i < disk.len() && h(#[trigger] disk[i]) == Some(moved[k]);
        assert(is_own(disk[i], foreign));
    }
    lemma_marks_among_own(fresh, made, moved, foreign);
    let marked = local::annotate_all(fresh, made, moved);
    let added = local::new_rows(p.pull_new, part);
    assert forall|i: int| 0 <= i < added.len() implies q(#[trigger] added[i]) by {
        assert(added[i].uid == Some(p.pull_new[i]));
        assert(p.pull_new.contains(p.pull_new[i]));
        plan_laws::lemma_uids_with(ItemStep::PullNew, rows, base, part, p.pull_new[i]);
    }
    seqs::lemma_filter_all(added, q);
    Seq::filter_distributes_over_add(marked, added, q);
}

/// The rows of a file after a run, but for those of other accounts, are what
/// the rows that were planned for become.
proof fn lemma_disk_then(
    disk: Seq<ItemView>,
    foreign: Map<Seq<char>, SyncedItemView>,
    owners: Map<Seq<char>, Seq<char>>,
    list: Seq<char>,
    base: Map<Seq<char>, SyncedItemView>,
    part: Map<Seq<char>, RemoteTodoView>,
    replies: Seq<ItemReplyView>,
)
    requires
        sorted_out(disk, foreign, owners, list, base, part, replies),
    ensures
        ({
            let rows = run::planned_rows(disk, foreign, owners, list);
            let p = plan::planned_items(rows, base, part);
            let made = settled::created_upto(
                item_tasks::item_tasks_of(p),
                replies,
                replies.len() as int,
            );
            local::applied(disk, p, part, made, run::moved_in(disk, owners, list)).filter(
                |r: ItemView| is_own(r, foreign),
            ) == local::applied(rows, p, part, made, Seq::empty())
        }),
{
    let rows = run::planned_rows(disk, foreign, owners, list);
    let p = plan::planned_items(rows, base, part);
    let made = settled::created_upto(
        item_tasks::item_tasks_of(p),
        replies,
        replies.len() as int,
    );
    let moved = run::moved_in(disk, owners, list);
    let q = |r: ItemView| is_own(r, foreign);
    let g = |r: ItemView| unmoved(r, owners, list);
    let f = |row: ItemView| plan::row_create(row, base, part);
    let own = disk.filter(q);
    lemma_applied_among_own(disk, foreign, owners, list, base, part, replies);
    lemma_planned_rows(disk, foreign, owners, list);
    settled::lemma_fresh_rows(rows, base, part, replies);
    // What stays.
    let stays = |i: ItemView| i.uid is None || !p.pull_deletes.contains(i.uid->0);
    assert forall|i: int| 0 <= i < own.len() implies stays(g(#[trigger] own[i])) == stays(
        own[i],
    ) by {
        assert(own.contains(own[i]));
        seqs::lemma_filter_contains(disk, q, own[i]);
        let d = choose|d: int| 0 <= d < disk.len() && disk[d] == own[i];
        assert(run::is_moved(disk[d], owners, list) ==> !base.contains_key(disk[d].uid->0));
    }
    lemma_map_then_filter(own, g, stays);
    let kept = local::without_gone(own, p.pull_deletes);
    assert(local::without_gone(rows, p.pull_deletes) == kept.map_values(g));
    lemma_filter_apart(disk, owners, list, q);
    lemma_filter_apart(own, owners, list, stays);
    // What the server changed.
    assert forall|k: int| 0 <= k < p.pull_updates.len() implies owners.contains_key(
        #[trigger] p.pull_updates[k],
    ) && owners[p.pull_updates[k]] == list by {
        assert(p.pull_updates.contains(p.pull_updates[k]));
        plan_laws::lemma_uids_with(
            ItemStep::PullUpdate,
            rows,
            base,
            part,
            p.pull_updates[k],
        );
    }
    lemma_updates_unmoved(kept, p.pull_updates, part, owners, list);
    let fresh = local::take_updates(kept, p.pull_updates, part);
    let plain = fresh.map_values(g);
    // What was moved in, and what carries no identity.
    assert forall|i: int|
        0 <= i < fresh.len() && run::is_moved(#[trigger] fresh[i], owners, list) implies
        local::moved_uid(moved, fresh[i].text) == fresh[i].uid by {
        assert(fresh[i] == kept[i]);
        lemma_moved_text(disk, owners, list, foreign, p.pull_deletes, i);
    }
    assert forall|i: int| 0 <= i < fresh.len() && (#[trigger] fresh[i]).uid is None implies
        local::moved_uid(moved, fresh[i].text) is None by {
        assert(fresh[i] == kept[i]);
        lemma_moved_text(disk, owners, list, foreign, p.pull_deletes, i);
    }
    let n1 = p.push_updates.len() as int;
    assert forall|j: int, i: int|
        0 <= j < made.len() && 0 <= i < fresh.len() implies (#[trigger] fresh[i]).uid != Some(
        (#[trigger] made[j]).2,
    ) by {
        assert(replies[n1 + j] is Created);
        if !run::is_moved(fresh[i], owners, list) {
            assert(plain[i] == fresh[i]);
            assert(plain[i].uid != Some(made[j].2));
        }
    }
    let n = made.len() as int;
    assert(made.take(n) =~= made);
    assert(p.push_creates == plain.filter_map(f));
    lemma_remarked(fresh, owners, list, base, part, made, moved, n);
    settled::lemma_marked(plain, base, part, made, n);
    let a = remarked(fresh, plain, f, made, n);
    let b = settled::marked(plain, f, made, n);
    assert forall|i: int| 0 <= i < fresh.len() implies a[i] == b[i] by {
        if f(plain[i]) is Some {
            settled::lemma_rank(plain, f, i);
        } else {
            assert(!run::is_moved(fresh[i], owners, list));
        }
    }
    assert(a =~= b);
}

/// The identity that a text came with is that of the one row that was moved in
/// with it.
proof fn lemma_moved_text(
    disk: Seq<ItemView>,
    owners: Map<Seq<char>, Seq<char>>,
    list: Seq<char>,
    foreign: Map<Seq<char>, SyncedItemView>,
    gone: Seq<Seq<char>>,
    i: int,
)
    requires
        apart(disk, owners, list),
        ({
            let kept = local::without_gone(disk.filter(|r: ItemView| is_own(r, foreign)), gone);
            0 <= i < kept.len()
        }),
    ensures
        ({
            let kept = local::without_gone(disk.filter(|r: ItemView| is_own(r, foreign)), gone);
            let uid = local::moved_uid(run::moved_in(disk, owners, list), kept[i].text);
            &&& run::is_moved(kept[i], owners, list) ==> uid == kept[i].uid
            &&& kept[i].uid is None ==> uid is None
        }),
{
    let q = |r: ItemView| is_own(r, foreign);
    let stays = |i: ItemView| i.uid is None || !gone.contains(i.uid->0);
    let own = disk.filter(q);
    let kept = own.filter(stays);
    let row = kept[i];
    assert(kept == local::without_gone(own, gone));
    assert(kept.contains(row));
    seqs::lemma_filter_contains(own, stays, row);
    seqs::lemma_filter_contains(disk, q, row);
    let m = choose|m: int| 0 <= m < disk.len() && disk[m] == row;
    let moved = run::moved_in(disk, owners, list);
    let h = |row: ItemView|
        if run::is_moved(row, owners, list) {
            Some((row.text, row.uid->0))
        } else {
            None
        };
    lemma_moved_uid(moved, row.text);
    if let Some(u) = local::moved_uid(moved, row.text) {
        let k = choose|k: int| 0 <= k < moved.len() && moved[k] == (row.text, u);
        seqs::lemma_filter_map_from(disk, h, k);
        let d = choose|d: int| 0 <= d < disk.len() && h(#[trigger] disk[d]) == Some(moved[k]);
        assert(run::is_moved(disk[d], owners, list));
        if d != m {
            assert(run::is_moved(row, owners, list) || row.uid is None ==> disk[d].text
                != disk[m].text);
        }
    } else if run::is_moved(row, owners, list) {
        seqs::lemma_filter_map_contains(disk, h, m);
        let k = choose|k: int| 0 <= k < moved.len() && moved[k] == (row.text, row.uid->0);
        assert(moved[k].0 != row.text);
    }
}

// ── The next run ──────────────────────────────────────────────────────────

proof fn lemma_sorted_out(
    start: StartView,
    items: Map<Seq<char>, SyncedItemView>,
    pass: PassView,
)
    requires
        pass_went_well(start, items, pass),
        run::foreign_of(items, start.email) == run::foreign_of(start.items, start.email),
    ensures
        sorted_out(
            pass.disk,
            run::foreign_of(start.items, start.email),
            run::owners_of(start.items, start.email, start.todos),
            pass.list,
            run::items_of(items, start.email, pass.list),
            run::todos_of(start.todos, pass.list),
            pass.replies,
        ),
{
    let email = start.email;
    let foreign = run::foreign_of(start.items, email);
    let owners = run::owners_of(start.items, email, start.todos);
    let part = run::todos_of(start.todos, pass.list);
    assert forall|u: Seq<char>| #[trigger] part.contains_key(u) implies owners.contains_key(u)
        && owners[u] == pass.list && !foreign.contains_key(u) by {
        assert(part.contains_key(u) && items.contains_key(u) ==> items[u].account == email);
        assert(run::foreign_of(items, email).contains_key(u) == foreign.contains_key(u));
    }
    assert forall|i: int|
        0 <= i < pass.disk.len() && run::is_moved(
            #[trigger] pass.disk[i],
            owners,
            pass.list,
        ) implies is_own(pass.disk[i], foreign) by {
        assert(foreign.contains_key(pass.disk[i].uid->0) ==> !start.todos.contains_key(
            pass.disk[i].uid->0,
        ));
    }
}

/// The tasks of one list leave another on the server as it was, with new names
/// to give.
proof fn lemma_second_list(start: StartView, a: PassView, b: PassView)
    requires
        a.list != b.list,
        pass_went_well(start, start.items, a),
        pass_went_well(start, items_then(start, start.items, a), b),
        other_names(a.replies, b.replies),
    ensures
        ({
            let mid = items_then(start, start.items, a);
            let there = server_then(start, start.items, start.todos, a);
            &&& run::foreign_of(mid, start.email) == run::foreign_of(start.items, start.email)
            &&& run::todos_of(there, b.list) == run::todos_of(start.todos, b.list)
            &&& unheard(b.replies, mid, there)
        }),
{
    let mid = items_then(start, start.items, a);
    let there = server_then(start, start.items, start.todos, a);
    lemma_parts_then(
        rows_of(start, a),
        start.items,
        start.todos,
        a.list,
        start.email,
        a.replies,
    );
    assert forall|k: int| 0 <= k < b.replies.len() && (
    #[trigger] b.replies[k]) is Created implies !mid.contains_key(b.replies[k]->Created_uid)
        && !there.contains_key(b.replies[k]->Created_uid) by {
        let u = b.replies[k]->Created_uid;
        if is_name(a.replies, u) {
            let i = choose|i: int|
                0 <= i < a.replies.len() && (#[trigger] a.replies[i]) is Created
                    && a.replies[i]->Created_uid == u;
        }
        assert(!mid.contains_key(u));
    }
}

/// Where the parts of a list and the rows of other accounts are what the run
/// over it made of them, the next run finds nothing to do in it.
proof fn lemma_list_settles(
    start: StartView,
    items: Map<Seq<char>, SyncedItemView>,
    pass: PassView,
    end: StartView,
)
    requires
        pass_went_well(start, items, pass),
        run::foreign_of(items, start.email) == run::foreign_of(start.items, start.email),
        end.email == start.email,
        run::foreign_of(end.items, start.email) == run::foreign_of(start.items, start.email),
        ({
            let p = plan_of(start, items, pass);
            let tasks = item_tasks::item_tasks_of(p);
            let n = tasks.len() as int;
            let base = run::items_of(items, start.email, pass.list);
            let part = run::todos_of(start.todos, pass.list);
            let rows = rows_of(start, pass);
            &&& all_alike(
                run::items_of(end.items, start.email, pass.list),
                plan_laws::items_upto(
                    tasks,
                    pass.replies,
                    base,
                    rows,
                    part,
                    pass.list,
                    start.email,
                    n,
                ),
            )
            &&& run::todos_of(end.todos, pass.list) == settled::server_upto(
                tasks,
                pass.replies,
                part,
                rows,
                pass.list,
                n,
            )
        }),
    ensures
        plan_of(
            end,
            end.items,
            (PassView { disk: disk_then(start, items, pass), ..pass }),
        ) == plan::idle(),
{
    let email = start.email;
    let list = pass.list;
    let foreign = run::foreign_of(start.items, email);
    let owners = run::owners_of(start.items, email, start.todos);
    let base = run::items_of(items, email, list);
    let part = run::todos_of(start.todos, list);
    let rows = rows_of(start, pass);
    let p = plan_of(start, items, pass);
    let tasks = item_tasks::item_tasks_of(p);
    let n = tasks.len() as int;
    let made = settled::created_upto(tasks, pass.replies, n);
    lemma_sorted_out(start, items, pass);
    lemma_disk_then(pass.disk, foreign, owners, list, base, part, pass.replies);
    let disk = disk_then(start, items, pass);
    let then = local::applied(rows, p, part, made, Seq::empty());
    let q = |r: ItemView| is_own(r, foreign);
    assert(disk.filter(q) == then);
    // None of them is taken for one that was moved in.
    settled::lemma_rows_on_server(rows, base, part, pass.replies, list, email);
    let next_owners = run::owners_of(end.items, email, end.todos);
    lemma_planned_rows(disk, foreign, next_owners, list);
    let g = |r: ItemView| unmoved(r, next_owners, list);
    assert forall|i: int| 0 <= i < then.len() implies g(#[trigger] then[i]) == then[i] by {
        assert(run::todos_of(end.todos, list).contains_key(then[i].uid->0));
    }
    assert(then.map_values(g) =~= then);
    settled::law_run_settles_items(rows, base, part, pass.replies, list, email);
    lemma_same_plan(
        then,
        run::items_of(end.items, email, list),
        plan_laws::items_upto(tasks, pass.replies, base, rows, part, list, email, n),
        run::todos_of(end.todos, list),
    );
}

/// The tasks of the second list leave the first as it is by then.
proof fn lemma_first_list_stays(start: StartView, a: PassView, b: PassView)
    requires
        a.list != b.list,
        pass_went_well(start, start.items, a),
        pass_went_well(start, items_then(start, start.items, a), b),
        other_names(a.replies, b.replies),
    ensures
        ({
            let mid = items_then(start, start.items, a);
            let there = server_then(start, start.items, start.todos, a);
            &&& run::items_of(items_then(start, mid, b), start.email, a.list) == run::items_of(
                mid,
                start.email,
                a.list,
            )
            &&& run::todos_of(server_then(start, mid, there, b), a.list) == run::todos_of(
                there,
                a.list,
            )
        }),
{
    let email = start.email;
    let mid = items_then(start, start.items, a);
    let there = server_then(start, start.items, start.todos, a);
    let rows = rows_of(start, a);
    let base = run::items_of(start.items, email, a.list);
    let part = run::todos_of(start.todos, a.list);
    lemma_parts_then(rows, start.items, start.todos, a.list, email, a.replies);
    lemma_second_list(start, a, b);
    lemma_parts_then(rows_of(start, b), mid, there, b.list, email, b.replies);
    let kept = run::items_of(mid, email, a.list);
    let theirs = run::todos_of(there, b.list);
    assert forall|u: Seq<char>| #[trigger] theirs.contains_key(u) implies !kept.contains_key(
        u,
    ) by {
        settled::lemma_state_on_server(rows, base, part, a.replies, a.list, email, u);
        if kept.contains_key(u) {
            assert(run::todos_of(there, a.list).contains_key(u));
        }
    }
}

/// After a run over two lists in which the server did all that it was asked
/// for, the next run finds nothing to do in either, though rows were moved from
/// one to the other, or in from elsewhere: the rows, the state and the server
/// agree. The tasks of `a` are done first, then those of `b`.
///
/// No row that was moved in has the text of another new one, or is that of an
/// item that the state has in the file's own list and the server in another.
/// None is that of an item of another account that this server has too. What
/// came into a list on the server and was in another list here was last synced
/// as it is, where the file has it so already.
pub proof fn law_run_settles_moved_items(start: StartView, a: PassView, b: PassView)
    requires
        a.list != b.list,
        pass_went_well(start, start.items, a),
        pass_went_well(start, items_then(start, start.items, a), b),
        other_names(a.replies, b.replies),
    ensures
        ({
            let mid = items_then(start, start.items, a);
            let end = StartView {
                items: items_then(start, mid, b),
                todos: server_then(
                    start,
                    mid,
                    server_then(start, start.items, start.todos, a),
                    b,
                ),
                email: start.email,
            };
            &&& plan_of(
                end,
                end.items,
                (PassView { disk: disk_then(start, start.items, a), ..a }),
            ) == plan::idle()
            &&& plan_of(end, end.items, (PassView { disk: disk_then(start, mid, b), ..b }))
                == plan::idle()
        }),
{
    let email = start.email;
    let mid = items_then(start, start.items, a);
    let there = server_then(start, start.items, start.todos, a);
    lemma_parts_then(rows_of(start, a), start.items, start.todos, a.list, email, a.replies);
    lemma_second_list(start, a, b);
    lemma_parts_then(rows_of(start, b), mid, there, b.list, email, b.replies);
    let end = StartView {
        items: items_then(start, mid, b),
        todos: server_then(start, mid, there, b),
        email,
    };
    lemma_first_list_stays(start, a, b);
    lemma_list_settles(start, start.items, a, end);
    lemma_list_settles(start, mid, b, end);
}

/// No row that is planned for carries an identity that no row of the file does.
proof fn lemma_no_row(start: StartView, pass: PassView, u: Seq<char>)
    requires
        !carries(pass.disk, u),
    ensures
        !carries(rows_of(start, pass), u),
{
    let foreign = run::foreign_of(start.items, start.email);
    let owners = run::owners_of(start.items, start.email, start.todos);
    let f = |row: ItemView|
        if row.uid is Some && foreign.contains_key(row.uid->0) {
            None
        } else if run::is_moved(row, owners, pass.list) {
            Some((ItemView { uid: None, ..row }))
        } else {
            Some(row)
        };
    assert forall|i: int| 0 <= i < rows_of(start, pass).len() implies (#[trigger] rows_of(
        start,
        pass,
    )[i]).uid != Some(u) by {
        seqs::lemma_filter_map_from(pass.disk, f, i);
        let k = choose|k: int| 0 <= k < pass.disk.len() && f(#[trigger] pass.disk[k]) == Some(
            rows_of(start, pass)[i],
        );
        assert(pass.disk[k].uid != Some(u));
    }
}

/// A row that was moved in carries a new identity after a run that went well,
/// under which the server has it in the list.
proof fn lemma_moved_row_arrives(
    start: StartView,
    items: Map<Seq<char>, SyncedItemView>,
    pass: PassView,
    m: int,
    todos: Map<Seq<char>, RemoteTodoView>,
) -> (uid: Seq<char>)
    requires
        pass_went_well(start, items, pass),
        run::foreign_of(items, start.email) == run::foreign_of(start.items, start.email),
        0 <= m < pass.disk.len(),
        run::is_moved(
            pass.disk[m],
            run::owners_of(start.items, start.email, start.todos),
            pass.list,
        ),
        ({
            let tasks = item_tasks::item_tasks_of(plan_of(start, items, pass));
            run::todos_of(todos, pass.list) == settled::server_upto(
                tasks,
                pass.replies,
                run::todos_of(start.todos, pass.list),
                rows_of(start, pass),
                pass.list,
                tasks.len() as int,
            )
        }),
    ensures
        disk_then(start, items, pass).contains((ItemView { uid: Some(uid), ..pass.disk[m] })),
        todos.contains_key(uid),
        todos[uid].list == pass.list,
        todos[uid].summary == pass.disk[m].text,
        todos[uid].done == pass.disk[m].done,
{
    let foreign = run::foreign_of(start.items, start.email);
    let owners = run::owners_of(start.items, start.email, start.todos);
    let rows = rows_of(start, pass);
    let base = run::items_of(items, start.email, pass.list);
    let part = run::todos_of(start.todos, pass.list);
    lemma_sorted_out(start, items, pass);
    let g = |row: ItemView|
        if row.uid is Some && foreign.contains_key(row.uid->0) {
            None
        } else if run::is_moved(row, owners, pass.list) {
            Some((ItemView { uid: None, ..row }))
        } else {
            Some(row)
        };
    assert(is_own(pass.disk[m], foreign));
    seqs::lemma_filter_map_contains(pass.disk, g, m);
    let plain = ItemView { uid: None, ..pass.disk[m] };
    let i = choose|i: int| 0 <= i < rows.len() && rows[i] == plain;
    let uid = settled::law_new_row_arrives(
        rows,
        base,
        part,
        pass.replies,
        pass.list,
        start.email,
        i,
    );
    lemma_disk_then(pass.disk, foreign, owners, pass.list, base, part, pass.replies);
    seqs::lemma_filter_contains(
        disk_then(start, items, pass),
        |r: ItemView| is_own(r, foreign),
        (ItemView { uid: Some(uid), ..pass.disk[m] }),
    );
    assert(run::todos_of(todos, pass.list).contains_key(uid));
    uid
}

/// A row that was moved from one list to another by hand, of an item that the
/// state knows, is moved on the server too: after a run that went well the item
/// is gone from the state and the server under its old identity, and the row
/// carries a new one, under which the server has it in its new list. `forth`
/// says that it was moved from `a` to `b`, whose tasks are done in this order,
/// or else back.
pub proof fn law_moved_item_changes_lists(
    start: StartView,
    a: PassView,
    b: PassView,
    forth: bool,
    m: int,
) -> (uid: Seq<char>)
    requires
        a.list != b.list,
        pass_went_well(start, start.items, a),
        pass_went_well(start, items_then(start, start.items, a), b),
        other_names(a.replies, b.replies),
        ({
            let from = if forth {
                a
            } else {
                b
            };
            let to = if forth {
                b
            } else {
                a
            };
            &&& 0 <= m < to.disk.len()
            &&& to.disk[m].uid is Some
            &&& start.items.contains_key(to.disk[m].uid->0)
            &&& start.items[to.disk[m].uid->0].account == start.email
            &&& start.items[to.disk[m].uid->0].list_id() == from.list
            &&& start.todos.contains_key(to.disk[m].uid->0)
                ==> start.todos[to.disk[m].uid->0].list == from.list
            &&& !carries(from.disk, to.disk[m].uid->0)
        }),
    ensures
        ({
            let mid = items_then(start, start.items, a);
            let items = items_then(start, mid, b);
            let todos = server_then(
                start,
                mid,
                server_then(start, start.items, start.todos, a),
                b,
            );
            let to = if forth {
                b
            } else {
                a
            };
            let disk = if forth {
                disk_then(start, mid, b)
            } else {
                disk_then(start, start.items, a)
            };
            &&& !items.contains_key(to.disk[m].uid->0)
            &&& !todos.contains_key(to.disk[m].uid->0)
            &&& disk.contains((ItemView { uid: Some(uid), ..to.disk[m] }))
            &&& todos.contains_key(uid)
            &&& todos[uid].list == to.list
            &&& todos[uid].summary == to.disk[m].text
            &&& todos[uid].done == to.disk[m].done
        }),
{
    let email = start.email;
    let from = if forth {
        a
    } else {
        b
    };
    let to = if forth {
        b
    } else {
        a
    };
    let u = to.disk[m].uid->0;
    let mid = items_then(start, start.items, a);
    let there = server_then(start, start.items, start.todos, a);
    let items = items_then(start, mid, b);
    let todos = server_then(start, mid, there, b);
    let rows_a = rows_of(start, a);
    let rows_b = rows_of(start, b);
    assert(start.todos.contains_key(u) && start.items.contains_key(u) ==> start.todos[u].list
        == from.list);
    lemma_parts_then(rows_a, start.items, start.todos, a.list, email, a.replies);
    lemma_second_list(start, a, b);
    lemma_parts_then(rows_b, mid, there, b.list, email, b.replies);
    lemma_first_list_stays(start, a, b);
    // It leaves the old list.
    lemma_no_row(start, from, u);
    assert(!is_name(a.replies, u));
    assert(!is_name(b.replies, u));
    let na = a.replies.len() as int;
    let nb = b.replies.len() as int;
    lemma_own_items(rows_a, start.items, start.todos, a.list, email, a.replies, na, u);
    let state = if forth {
        start.items
    } else {
        mid
    };
    let base = run::items_of(state, email, from.list);
    let part = run::todos_of(start.todos, from.list);
    assert(base.contains_key(u));
    settled::law_deleted_row_goes(
        rows_of(start, from),
        base,
        part,
        from.replies,
        from.list,
        email,
        u,
    );
    if forth {
        assert(!mid.contains_key(u) && !there.contains_key(u));
    } else {
        lemma_own_items(rows_b, mid, there, b.list, email, b.replies, nb, u);
    }
    assert(!items.contains_key(u));
    // It comes to the new one.
    if forth {
        lemma_moved_row_arrives(start, mid, b, m, todos)
    } else {
        lemma_moved_row_arrives(start, start.items, a, m, todos)
    }
}

} // verus!
