//! What the library's functions return and change, in terms of what they are
//! given.
use vstd::prelude::*;
use vstd::utf8::*;

use crate::accounts;
use crate::accounts::{
    Account, AccountOnDisk, AccountOnDiskView, Choice, GoogleAccount, GoogleClientConfig,
    GoogleRead, ICloudRead, OAuthOnDisk, OAuthOnDiskView, Options,
};
use crate::caldav;
use crate::caldav::{PutOutcome, Todos};
use crate::google;
use crate::ical;
use crate::ical::ParsedTodo;
use crate::item_tasks;
use crate::item_tasks::{ItemReply, ItemReplyView, ItemRequest, ItemTask};
use crate::json;
use crate::json::Json;
use crate::list_tasks;
use crate::list_tasks::{DiskOp, ListReply, ListTask};
use crate::lists;
use crate::local;
use crate::map::OrdMap;
use crate::markdown;
use crate::model;
use crate::model::{
    Item, ListFile, ListFileView, SyncState, SyncedItem, SyncedList, SyncedListView,
};
use crate::ops;
use crate::ops::{ItemCall, ListCall};
use crate::outside;
use crate::paths;
use crate::paths::FileWrite;
use crate::plan;
use crate::plan::{ListPlan, Plan};
use crate::remote::{RemoteList, RemoteTodo};
use crate::report;
use crate::run;
use crate::run::{FilePlan, Service};
use crate::seqs;
use crate::text;
use crate::titles;

verus! {

// ── A run ─────────────────────────────────────────────────────────────────

/// A run starts from the last synced state, and from an empty one where nothing
/// is on disk.
pub proof fn law_starting_state(had_local: bool, state: SyncState, r: SyncState, key: Seq<char>)
    requires
        call_ensures(run::starting_state, (had_local, state), r),
    ensures
        had_local ==> r == state,
        !had_local ==> !r.items@.contains_key(key) && !r.lists@.contains_key(key),
{
}

/// A plan that would delete all of the server's lists is refused, unless that is
/// asked for; a dry run does nothing, and any other run does every task of the
/// plan in turn.
pub proof fn law_list_tasks_to_run(
    plan: &ListPlan,
    remote_lists: usize,
    dry_run: bool,
    force: bool,
    why: Option<String>,
    r: Result<Vec<ListTask>, String>,
)
    requires
        call_ensures(run::refuse_list_deletes, (plan, remote_lists, force), why),
        call_ensures(run::list_tasks_to_run, (plan, remote_lists, dry_run, force), r),
    ensures
        ({
            let n = plan.push_deletes@.len();
            let refused = !force && n >= 1 && n >= remote_lists;
            &&& why is Some <==> refused
            &&& r is Err <==> refused
            &&& refused ==> r->Err_0@ == why->0@
            &&& !refused && dry_run ==> r->Ok_0@.len() == 0
            &&& !refused && !dry_run ==> r->Ok_0.deep_view() == list_tasks::tasks_of(
                plan.deep_view(),
            )
        }),
{
    if r is Ok && dry_run {
        assert(r->Ok_0.deep_view().len() == r->Ok_0@.len());
    }
}

/// A plan that would delete more than five items that are more than half of a
/// list's is refused, unless that is asked for; a dry run does nothing, and any
/// other run does every task of the plan in turn.
pub proof fn law_item_tasks_to_run(
    title: &str,
    plan: &Plan,
    items: usize,
    dry_run: bool,
    force: bool,
    why: Option<String>,
    r: Result<Vec<ItemTask>, String>,
)
    requires
        call_ensures(run::refuse_item_deletes, (title, plan, items, force), why),
        call_ensures(run::item_tasks_to_run, (title, plan, items, dry_run, force), r),
    ensures
        ({
            let n = plan.push_deletes@.len() as int;
            let refused = !force && n > 5 && n > items - n;
            &&& why is Some <==> refused
            &&& r is Err <==> refused
            &&& refused ==> r->Err_0@ == why->0@
            &&& !refused && dry_run ==> r->Ok_0@.len() == 0
            &&& !refused && !dry_run ==> r->Ok_0.deep_view() == item_tasks::item_tasks_of(
                plan.deep_view(),
            )
        }),
{
    if r is Ok && dry_run {
        assert(r->Ok_0.deep_view().len() == r->Ok_0@.len());
    }
}

/// The items of a file are planned where its list can be synced, and wait where
/// it cannot: for the rows that are this list's and this account's, against what
/// the state and the server have in the list.
pub proof fn law_file_is_planned(
    file: &ListFile,
    lists: &OrdMap<RemoteList>,
    foreign: &OrdMap<SyncedItem>,
    owners: &OrdMap<String>,
    state: &SyncState,
    todos: &OrdMap<RemoteTodo>,
    email: &str,
    r: Option<FilePlan>,
)
    requires
        call_ensures(run::plan_file, (file, lists, foreign, owners, state, todos, email), r),
    ensures
        r is Some <==> file.id is Some && lists@.contains_key(file.id->0@),
        r is Some ==> ({
            let id = file.id->0@;
            let rows = run::planned_rows(file.items.deep_view(), foreign@, owners@, id);
            let items = run::items_of(state.items@, email@, id);
            let there = run::todos_of(todos@, id);
            &&& r->0.list_id@ == id
            &&& r->0.rows.deep_view() == rows
            &&& r->0.moved_from.deep_view() == run::moved_in(file.items.deep_view(), owners@, id)
            &&& r->0.items == items.len()
            &&& r->0.todos@ == there
            &&& r->0.plan.deep_view() == plan::planned_items(rows, items, there)
        }),
{
}

/// A file is written with the plan applied to the rows that it holds now, under
/// its name and with its list's identity; a dry run writes nothing.
pub proof fn law_file_is_finished(
    title: &str,
    content: Option<&str>,
    file: &FilePlan,
    created: &[(String, Option<String>, String)],
    data: &[u8],
    dry_run: bool,
    r: Option<FileWrite>,
)
    requires
        local::pulls_known(file.plan.deep_view(), file.todos@),
        call_ensures(run::finish_file, (title, content, file, created, data, dry_run), r),
    ensures
        r is None <==> dry_run,
        r is Some ==> ({
            let fresh = run::fresh_list(title@, content.deep_view(), file.list_id@);
            let rows = local::applied(
                fresh.items,
                file.plan.deep_view(),
                file.todos@,
                created.deep_view(),
                file.moved_from.deep_view(),
            );
            r->0.deep_view() == paths::saved_list(
                data@,
                (ListFileView { title: fresh.title, id: fresh.id, items: rows }),
            )
        }),
{
}

/// Where the shown list's file is gone the first list is shown, and nothing is
/// written else, nor in a dry run.
pub proof fn law_shown_list_is_repaired(
    current: Option<&str>,
    there: bool,
    lists: &[ListFile],
    data: &[u8],
    dry_run: bool,
    r: Option<FileWrite>,
)
    requires
        call_ensures(run::repair_current, (current, there, lists, data, dry_run), r),
    ensures
        r is Some <==> current is Some && !there && lists@.len() > 0 && !dry_run,
        r is Some ==> r->0.deep_view() == paths::saved_current(data@, lists@[0].title@),
{
}

/// A dry run saves nothing of the state, and any other run all of it.
pub proof fn law_state_is_saved(state: SyncState, dry_run: bool, r: Option<SyncState>)
    requires
        call_ensures(run::state_to_save, (state, dry_run), r),
    ensures
        dry_run ==> r is None,
        !dry_run ==> r == Some(state),
{
}

/// An account's own lists and files are parted from those of others.
pub proof fn law_own_part_of_lists(
    state: &SyncState,
    files: &[ListFile],
    lists: &OrdMap<RemoteList>,
    email: &str,
    a: OrdMap<SyncedList>,
    b: Vec<ListFile>,
)
    requires
        call_ensures(run::own_lists, (state, email), a),
        call_ensures(run::own_files, (files, state, lists, email), b),
    ensures
        a@ == run::lists_of(state.lists@, email@),
        b.deep_view() == run::files_of(files.deep_view(), state.lists@, lists@, email@),
{
}

/// An account's own items are parted from those of others, and a list's from
/// those of other lists.
pub proof fn law_own_part_of_items(
    state: &SyncState,
    todos: &OrdMap<RemoteTodo>,
    email: &str,
    list: &str,
    a: OrdMap<SyncedItem>,
    b: SyncState,
    c: OrdMap<RemoteTodo>,
    d: OrdMap<String>,
)
    requires
        call_ensures(run::foreign_items, (state, email), a),
        call_ensures(run::own_items, (state, email, list), b),
        call_ensures(run::todos_in, (todos, list), c),
        call_ensures(run::item_owners, (state, email, todos), d),
    ensures
        a@ == run::foreign_of(state.items@, email@),
        b.items@ == run::items_of(state.items@, email@, list@),
        b.lists@ == Map::<Seq<char>, SyncedListView>::empty(),
        c@ == run::todos_of(todos@, list@),
        d@ == run::owners_of(state.items@, email@, todos@),
{
}

/// The rows of a file are sorted into those to plan for and those that were
/// moved here.
pub proof fn law_rows_are_sorted(
    rows: &[Item],
    foreign: &OrdMap<SyncedItem>,
    owners: &OrdMap<String>,
    list: &str,
    a: Vec<Item>,
    b: Vec<(String, String)>,
)
    requires
        call_ensures(run::rows_to_plan, (rows, foreign, owners, list), a),
        call_ensures(run::moved_rows, (rows, owners, list), b),
    ensures
        a.deep_view() == run::planned_rows(rows.deep_view(), foreign@, owners@, list@),
        b.deep_view() == run::moved_in(rows.deep_view(), owners@, list@),
{
}

/// The lists to sync are the server's and those that were just created, at the
/// addresses that their service gives them.
pub proof fn law_lists_to_sync(
    lists: &OrdMap<RemoteList>,
    state: &SyncState,
    email: &str,
    service: Service,
    list: &str,
    a: OrdMap<RemoteList>,
    b: String,
)
    requires
        call_ensures(run::syncable_lists, (lists, state, email, service), a),
        call_ensures(run::target_address, (service, list), b),
    ensures
        a@ == run::syncable(lists@, state.lists@, email@, service),
        b@ == run::target_text(service, list@),
{
}

// ── Plans ─────────────────────────────────────────────────────────────────

/// Items and lists are planned from what is here, what was last synced, and what
/// is on the server, and a plan is done task by task.
pub proof fn law_plans(
    rows: &[Item],
    state: &SyncState,
    todos: &OrdMap<RemoteTodo>,
    files: &[ListFile],
    known: &OrdMap<SyncedList>,
    lists: &OrdMap<RemoteList>,
    a: Plan,
    b: ListPlan,
    c: Vec<ItemTask>,
    d: Vec<ListTask>,
)
    requires
        call_ensures(plan::plan_items, (rows, state, todos), a),
        call_ensures(plan::plan_lists, (files, known, lists), b),
        call_ensures(item_tasks::item_tasks, (&a,), c),
        call_ensures(list_tasks::list_tasks, (&b,), d),
    ensures
        a.deep_view() == plan::planned_items(rows.deep_view(), state.items@, todos@),
        b.deep_view() == plan::planned_lists(files.deep_view(), known@, lists@),
        c.deep_view() == item_tasks::item_tasks_of(a.deep_view()),
        d.deep_view() == list_tasks::tasks_of(b.deep_view()),
{
}

/// A plan is applied to the rows of a file.
pub proof fn law_rows_are_changed(
    items: &mut Vec<Item>,
    plan: &Plan,
    todos: &OrdMap<RemoteTodo>,
    created: &[(String, Option<String>, String)],
    moved_from: &[(String, String)],
)
    requires
        local::pulls_known(plan.deep_view(), todos@),
        call_ensures(local::apply_local, (items, plan, todos, created, moved_from), ()),
    ensures
        final(items).deep_view() == local::applied(
            old(items).deep_view(),
            plan.deep_view(),
            todos@,
            created.deep_view(),
            moved_from.deep_view(),
        ),
{
}

/// A task for an item asks what it is to, and leaves the lists of the state as
/// they are.
pub proof fn law_item_is_settled(
    task: &ItemTask,
    reply: &ItemReply,
    rows: &[Item],
    todos: &OrdMap<RemoteTodo>,
    list: &str,
    email: &str,
    state: &mut SyncState,
    created: &mut Vec<(String, Option<String>, String)>,
    asked: Result<ItemRequest, String>,
)
    requires
        item_tasks::item_task_ready(task.deep_view(), rows.deep_view(), todos@, old(state).items@),
        call_ensures(item_tasks::item_request, (task, rows, todos, &*old(state)), asked),
        call_ensures(
            item_tasks::settle_item,
            (task, reply, rows, todos, list, email, state, created),
            (),
        ),
    ensures
        item_tasks::request_view(asked) == item_tasks::request_of(
            task.deep_view(),
            rows.deep_view(),
            todos@,
            old(state).items@,
            item_tasks::parsed_for(task.deep_view(), old(state).items@),
        ),
        final(state).items@ == item_tasks::items_after(
            task.deep_view(),
            reply.deep_view(),
            old(state).items@,
            rows.deep_view(),
            todos@,
            list@,
            email@,
        ),
        final(state).lists@ == old(state).lists@,
        final(created).deep_view() == item_tasks::created_after(
            task.deep_view(),
            reply.deep_view(),
            old(created).deep_view(),
        ),
{
}

/// A task for a list changes the lists, the state and the files together.
pub proof fn law_list_is_settled(
    task: &ListTask,
    reply: &ListReply,
    files: &mut Vec<ListFile>,
    state: &mut SyncState,
    lists: &OrdMap<RemoteList>,
    email: &str,
    data: &[u8],
    current: Option<&str>,
    on_disk: &[String],
    r: Vec<DiskOp>,
)
    requires
        list_tasks::task_ready(task.deep_view(), lists@),
        call_ensures(
            list_tasks::settle_list,
            (task, reply, files, state, lists, email, data, current, on_disk),
            r,
        ),
    ensures
        ({
            let t = task.deep_view();
            let answer = reply.deep_view();
            let before = old(files).deep_view();
            &&& final(files).deep_view() == list_tasks::lists_after(
                t,
                answer,
                before,
                lists@,
                on_disk.deep_view(),
            )
            &&& final(state).lists@ == list_tasks::list_states_after(
                t,
                answer,
                old(state).lists@,
                before,
                lists@,
                email@,
            )
            &&& final(state).items@ == list_tasks::item_states_after(t, answer, old(state).items@)
            &&& r.deep_view() == list_tasks::disk_after(
                t,
                answer,
                before,
                lists@,
                data@,
                current.deep_view(),
                on_disk.deep_view(),
            )
        }),
{
}

// ── Requests ──────────────────────────────────────────────────────────────

/// A changed item goes to its URL and a new one to its list's address, each with
/// its text and its mark; a deletion goes to the item's URL alone; and for
/// nothing Google's server is not called.
pub proof fn law_google_item_calls(request: &ItemRequest, target: &str, r: ItemCall)
    requires
        call_ensures(ops::google_item_call, (request, target), r),
    ensures
        ({
            let q = request.deep_view();
            &&& r is Nothing <==> q is Nothing
            &&& r is Google <==> q !is Nothing
            &&& q is Update ==> ({
                let c = r->Google_0;
                &&& c.method@ == "PATCH"@
                &&& c.url@ == q->Update_todo.url
                &&& c.body is Some
                &&& google::is_update_body(c.body->0.deep_view(), q->Update_text, q->Update_done)
            })
            &&& q is Create ==> ({
                let c = r->Google_0;
                &&& c.method@ == "POST"@
                &&& c.url@ == target@
                &&& c.body is Some
                &&& google::is_task_body(c.body->0.deep_view(), q->Create_text, q->Create_done)
            })
            &&& q is Delete ==> ({
                let c = r->Google_0;
                &&& c.method@ == "DELETE"@
                &&& c.url@ == q->Delete_url
                &&& c.body is None
            })
        }),
{
}

/// A changed item's calendar is patched and written over the version that was
/// read; a new item gets a calendar of its own under its identity; a deletion
/// goes to the item's URL and version; and for nothing iCloud's server is not
/// called. An address that cannot be read is the error.
pub proof fn law_icloud_item_calls(
    request: &ItemRequest,
    uid: String,
    address: Result<String, String>,
    now: &str,
    r: Result<ItemCall, String>,
)
    requires
        call_ensures(ops::icloud_item_call_at, (request, uid, address, now), r),
    ensures
        ({
            let q = request.deep_view();
            &&& r is Err <==> q is Create && address is Err
            &&& r is Err ==> r->Err_0@ == address->Err_0@
            &&& q is Nothing ==> r->Ok_0 is Nothing
            &&& q is Update ==> ({
                let c = r->Ok_0;
                &&& c is Put
                &&& c->uid is None
                &&& c->Put_url@ == q->Update_todo.url
                &&& c->body@ == ical::patched(
                    q->Update_todo.lines,
                    q->Update_text,
                    q->Update_done,
                    now@,
                )
                &&& c->Put_etag.deep_view() == Some(q->Update_todo.etag)
            })
            &&& q is Create && address is Ok ==> ({
                let c = r->Ok_0;
                &&& c is Put
                &&& c->uid.deep_view() == Some(uid@)
                &&& c->Put_url@ == address->Ok_0@
                &&& c->body@ == ical::crlf_text(
                    ical::new_lines(uid@, q->Create_text, q->Create_done, now@),
                )
                &&& c->Put_etag is None
            })
            &&& q is Delete ==> ({
                let c = r->Ok_0;
                &&& c is Remove
                &&& c->Remove_url@ == q->Delete_url
                &&& c->Remove_etag@ == q->Delete_etag
            })
        }),
{
}

/// A calendar that was written is a new item where it has an identity of its own
/// to tell, and a changed one else.
pub proof fn law_written_calendar(uid: Option<String>, url: String, etag: String, r: ItemReply)
    requires
        call_ensures(ops::put_reply, (uid, url, etag), r),
    ensures
        uid is Some ==> r.deep_view() == (ItemReplyView::Created {
            uid: uid->0@,
            url: url@,
            etag: etag@,
        }),
        uid is None ==> r.deep_view() == (ItemReplyView::Updated { etag: etag@ }),
{
}

/// A task that asks nothing of a server calls none; what Google's server is asked
/// is that task's call; and iCloud's server is asked nothing of lists.
pub proof fn law_list_task_calls(service: Service, task: &ListTask, r: ListCall)
    requires
        call_ensures(ops::list_call, (service, task), r),
    ensures
        ({
            let t = task.deep_view();
            let asks = t is Create || t is Rename || t is Delete;
            &&& r is Nothing <==> !asks
            &&& r is Google <==> asks && service == Service::Google
            &&& r is Cannot <==> asks && service == Service::ICloud
            &&& r is Google ==> ops::list_call_is(
                t,
                r->Google_0.method@,
                r->Google_0.url@,
                r->Google_0.body.deep_view(),
            )
            &&& r is Cannot ==> ops::list_cannot(t) == Some(r->Cannot_0@)
        }),
{
}

// ── Replies ───────────────────────────────────────────────────────────────

/// A query of iCloud's server comes to the reply's text where it went well, and
/// else to a failure that says what was asked.
pub proof fn law_dav_reply(
    method: &str,
    url: &str,
    code: u16,
    status: &str,
    body: String,
    r: Result<String, String>,
)
    requires
        call_ensures(caldav::dav_request, (method, url, code, status, body), r),
    ensures
        r is Ok <==> 200 <= code <= 299,
        r is Ok ==> r->Ok_0 == body,
        r is Err ==> r->Err_0@ == method@ + " "@ + url@ + ": HTTP "@ + status@,
{
}

/// A calendar that was written has the version tag of the reply; where that has
/// none it is asked for; and where it was not written that is a failure.
pub proof fn law_put_reply(
    url: &str,
    code: u16,
    status: &str,
    etag: Option<String>,
    r: PutOutcome,
)
    requires
        call_ensures(caldav::put_ics, (url, code, status, etag), r),
    ensures
        ({
            let well = 200 <= code <= 299;
            let tagged = etag is Some && etag->0@.len() > 0;
            &&& r is Failed <==> !well
            &&& r is Written <==> well && tagged
            &&& r is AskEtag <==> well && !tagged
            &&& r is Written ==> r->Written_0@ == etag->0@
            &&& r is Failed ==> r->Failed_0@ == "PUT"@ + " "@ + url@ + ": HTTP "@ + status@
        }),
{
}

/// A calendar is deleted where the reply says so, and where it was not there; it
/// is deleted only in the version that is known, where one is.
pub proof fn law_delete_reply(
    url: &str,
    code: u16,
    status: &str,
    etag: &str,
    r: Result<(), String>,
    on_match: bool,
)
    requires
        call_ensures(caldav::delete_ics, (url, code, status), r),
        call_ensures(caldav::delete_on_match, (etag,), on_match),
    ensures
        r is Ok <==> 200 <= code <= 299 || code == 404,
        r is Err ==> r->Err_0@ == "DELETE"@ + " "@ + url@ + ": HTTP "@ + status@,
        on_match <==> etag@.len() > 0,
{
}

/// What Google's server says it does not have counts as deleted; every other
/// failure stays one.
pub proof fn law_google_delete_reply(reply: Result<(), String>, r: Result<(), String>)
    requires
        call_ensures(google::google_delete, (reply,), r),
    ensures
        ({
            let gone = reply is Err && exists|i: int|
                #[trigger] text::has_at(reply->Err_0@, "HTTP 404"@, i);
            &&& r is Ok <==> reply is Ok || gone
            &&& r is Err ==> r == reply
        }),
{
}

/// Without a calendar there is no list to sync; else each calendar is one.
pub proof fn law_calendar_lists(
    calendars: &[(String, String)],
    r: Result<OrdMap<RemoteList>, String>,
)
    requires
        call_ensures(caldav::calendar_lists, (calendars,), r),
    ensures
        r is Err <==> calendars@.len() == 0,
        r is Ok ==> r->Ok_0@ == caldav::calendar_lists_of(calendars.deep_view()),
        r is Err ==> r->Err_0@ == "no VTODO calendars (Reminders lists) found"@,
{
}

/// Each page of lists and of items adds what is found on it, and says where the
/// next one goes on; a page that cannot be read changes nothing.
pub proof fn law_pages_are_added(
    lists: &mut OrdMap<RemoteList>,
    todos: &mut OrdMap<RemoteTodo>,
    page: &Json,
    base: &str,
    list: &str,
    a: Result<Option<String>, String>,
    b: Result<Option<String>, String>,
    id: Seq<char>,
)
    requires
        call_ensures(google::add_list_page, (lists, page), a),
        call_ensures(google::add_task_page, (todos, page, base, list), b),
    ensures
        ({
            let found = google::lists_in(page.deep_view());
            let tasks = google::tasks_in(page.deep_view(), base@, list@);
            &&& a is Ok <==> found is Ok
            &&& a is Err ==> a->Err_0@ == found->Err_0 && final(lists)@ == old(lists)@
            &&& a is Ok ==> a->Ok_0.deep_view() == google::next_token(page.deep_view())
            &&& a is Ok && found->Ok_0.contains_key(id) ==> final(lists)@.contains_key(id)
                && final(lists)@[id] == found->Ok_0[id]
            &&& a is Ok && !found->Ok_0.contains_key(id) ==> (final(lists)@.contains_key(id)
                == old(lists)@.contains_key(id) && (old(lists)@.contains_key(id)
                ==> final(lists)@[id] == old(lists)@[id]))
            &&& b is Ok <==> tasks is Ok
            &&& b is Err ==> b->Err_0@ == tasks->Err_0 && final(todos)@ == old(todos)@
            &&& b is Ok ==> b->Ok_0.deep_view() == google::next_token(page.deep_view())
            &&& b is Ok ==> final(todos)@ == caldav::with_todos(old(todos)@, tasks->Ok_0)
        }),
{
}

// ── Arguments and accounts ────────────────────────────────────────────────

/// A run is dry, or deletes whatever it is to, exactly where that is among its
/// arguments; the server is the word behind its flag, in lower case.
pub proof fn law_arguments(args: &[String], r: Options)
    requires
        call_ensures(accounts::parse_args, (args,), r),
    ensures
        r.dry_run <==> exists|i: int|
            0 <= i < args.deep_view().len() && #[trigger] args.deep_view()[i] == "--dry-run"@,
        r.force_deletes <==> exists|i: int|
            0 <= i < args.deep_view().len() && #[trigger] args.deep_view()[i]
                == "--force-deletes"@,
        ({
            let word = accounts::word_after(args.deep_view(), "--backend"@);
            &&& word is None ==> r.backend is None
            &&& word is Some ==> r.backend.deep_view() == Some(text::ascii_lower(word->0))
        }),
{
}

/// The keyring is asked only for accounts with iCloud that have no password.
pub proof fn law_secret_is_needed(acc: &AccountOnDisk, icloud: bool, r: bool)
    requires
        call_ensures(accounts::is_icloud, (acc,), icloud),
        call_ensures(accounts::needs_secret, (acc,), r),
    ensures
        icloud <==> accounts::with_icloud(acc.deep_view()),
        r <==> icloud && acc.password@.len() == 0,
{
}

/// Every kept account that can be synced is, in the order in which they are
/// kept, and no other.
pub proof fn law_synced_accounts(
    mail: &[(AccountOnDisk, Option<String>)],
    oauth: &[OAuthOnDisk],
    template: &GoogleClientConfig,
    a: Vec<Account>,
    b: Vec<GoogleAccount>,
    i: int,
)
    requires
        call_ensures(accounts::icloud_accounts, (mail,), a),
        call_ensures(accounts::google_accounts, (oauth, template), b),
    ensures
        ({
            let kept = mail.deep_view();
            let tokens = oauth.deep_view();
            let id = template.client_id@;
            let secret = template.client_secret@;
            &&& 0 <= i < kept.len() && accounts::icloud_account_of(kept[i].0, kept[i].1) is Some
                ==> a.deep_view().contains(
                accounts::icloud_account_of(kept[i].0, kept[i].1)->0,
            )
            &&& 0 <= i < a.deep_view().len() ==> exists|k: int|
                0 <= k < kept.len() && accounts::icloud_account_of(
                    (#[trigger] kept[k]).0,
                    kept[k].1,
                ) == Some(a.deep_view()[i])
            &&& 0 <= i < tokens.len() && accounts::google_account_of(
                tokens[i],
                id,
                secret,
            ) is Some ==> b.deep_view().contains(
                accounts::google_account_of(tokens[i], id, secret)->0,
            )
            &&& 0 <= i < b.deep_view().len() ==> exists|k: int|
                0 <= k < tokens.len() && accounts::google_account_of(
                    #[trigger] tokens[k],
                    id,
                    secret,
                ) == Some(b.deep_view()[i])
        }),
{
    let kept = mail.deep_view();
    let tokens = oauth.deep_view();
    let id = template.client_id@;
    let secret = template.client_secret@;
    let f = |a: (AccountOnDiskView, Option<Seq<char>>)| accounts::icloud_account_of(a.0, a.1);
    let g = |a: OAuthOnDiskView| accounts::google_account_of(a, id, secret);
    if 0 <= i < kept.len() && f(kept[i]) is Some {
        seqs::lemma_filter_map_contains(kept, f, i);
    }
    if 0 <= i < a.deep_view().len() {
        seqs::lemma_filter_map_from(kept, f, i);
        let k = choose|k: int| 0 <= k < kept.len() && f(#[trigger] kept[k]) == Some(a.deep_view()[i]);
        assert(accounts::icloud_account_of(kept[k].0, kept[k].1) == Some(a.deep_view()[i]));
    }
    if 0 <= i < tokens.len() && g(tokens[i]) is Some {
        seqs::lemma_filter_map_contains(tokens, g, i);
    }
    if 0 <= i < b.deep_view().len() {
        seqs::lemma_filter_map_from(tokens, g, i);
        let k = choose|k: int|
            0 <= k < tokens.len() && g(#[trigger] tokens[k]) == Some(b.deep_view()[i]);
        assert(accounts::google_account_of(tokens[k], id, secret) == Some(b.deep_view()[i]));
    }
}

/// Once the accounts of both servers are read, the run's account is chosen among
/// them.
pub proof fn law_backend_is_chosen(
    wanted: Option<&str>,
    google: GoogleRead,
    icloud: ICloudRead,
    r: Choice,
)
    requires
        call_ensures(accounts::choose_backend, (wanted, &Some(google), &Some(icloud)), r),
    ensures
        r.deep_view() == accounts::choice_of(
            wanted.deep_view(),
            Some(
                if google is Ok {
                    Ok(google->Ok_0.deep_view())
                } else {
                    Err(google->Err_0@)
                },
            ),
            Some(
                if icloud is Ok {
                    Ok(icloud->Ok_0.deep_view())
                } else {
                    Err(icloud->Err_0@)
                },
            ),
        ),
{
}

// ── Files ─────────────────────────────────────────────────────────────────

/// The single checklist, what it is kept as, and the last synced state stand in
/// the data directory under their names.
pub proof fn law_named_files(data: &[u8], a: Vec<u8>, b: Vec<u8>, c: Vec<u8>)
    requires
        call_ensures(paths::legacy_path, (data,), a),
        call_ensures(paths::migrated_path, (data,), b),
        call_ensures(paths::sync_state_path, (data,), c),
    ensures
        a@ == paths::joined(data@, encode_utf8("list.md"@)),
        b@ == paths::joined(data@, encode_utf8("list.md.migrated"@)),
        c@ == paths::joined(data@, encode_utf8("sync-state.json"@)),
{
}

/// A renamed list's file moves from the path of the one title to that of the
/// other, and stays where both make one name.
pub proof fn law_renamed_list_moves(
    data: &[u8],
    from: &str,
    to: &str,
    r: Option<(Vec<u8>, Vec<u8>)>,
)
    requires
        call_ensures(paths::rename_list, (data, from, to), r),
    ensures
        r is None <==> paths::safe(from@) == paths::safe(to@),
        r is Some ==> (r->0).0@ == paths::list_path_of(data@, from@),
        r is Some ==> (r->0).1@ == paths::list_path_of(data@, to@),
{
}

/// The shown list is what its file names, without white space at its ends, and
/// none where that is nothing.
pub proof fn law_named_list(content: &str, r: Option<String>)
    requires
        call_ensures(paths::load_current, (content,), r),
    ensures
        r is None <==> text::trim(content@).len() == 0,
        r is Some ==> r->0@ == text::trim(content@),
{
}

// ── Identities ────────────────────────────────────────────────────────────

/// A new identity is made of what was drawn, and of the moment where nothing
/// could be drawn.
pub proof fn law_new_identity(random: Option<[u8; 16]>, now: &str, r: String)
    requires
        call_ensures(ical::new_uid_at, (random, now), r),
    ensures
        random is Some ==> r@ == ical::uid_of(random->0@),
        random is None ==> r@ == "CCE-"@ + now@,
{
}

// ── Calendars ─────────────────────────────────────────────────────────────

/// A calendar without an identity holds no item; any other holds the one that
/// its lines say, and keeps its lines.
pub proof fn law_calendar_is_read(ics: &str, lines: Vec<String>, r: Option<ParsedTodo>)
    requires
        call_ensures(ical::unfold, (ics,), lines),
        call_ensures(ical::parse_vtodo, (ics,), r),
    ensures
        ({
            let read = ical::read_lines(lines.deep_view());
            &&& lines.deep_view() == ical::logical_lines(ics@)
            &&& r is Some <==> read.uid.len() > 0
            &&& r is Some ==> r->0.uid@ == read.uid && r->0.summary@ == read.summary
            &&& r is Some ==> r->0.done == read.done && r->0.recurring == read.recurring
            &&& r is Some ==> r->0.lines.deep_view() == lines.deep_view()
        }),
{
}

/// A calendar is patched, and a new one made, at a given moment.
pub proof fn law_calendar_is_written(
    lines: &[String],
    uid: &str,
    summary: &str,
    done: bool,
    now: &str,
    a: String,
    b: String,
)
    requires
        call_ensures(ical::patch_vtodo_at, (lines, summary, done, now), a),
        call_ensures(ical::new_vtodo_at, (uid, summary, done, now), b),
    ensures
        a@ == ical::patched(lines.deep_view(), summary@, done, now@),
        b@ == ical::crlf_text(ical::new_lines(uid@, summary@, done, now@)),
{
}

/// Escapes are read and written.
pub proof fn law_escapes(v: &str, a: String, b: String)
    requires
        call_ensures(ical::escape_text, (v,), a),
        call_ensures(ical::unescape_text, (v,), b),
    ensures
        a@ == ical::escaped(v@),
        b@ == ical::unescaped(v@),
{
}

// ── Answers ───────────────────────────────────────────────────────────────

/// The items and the lists of a page, and where the next one goes on, are what
/// the page says; an error is the page's.
pub proof fn law_google_page(
    page: &Json,
    base: &str,
    list: &str,
    a: Result<Vec<(String, RemoteTodo)>, String>,
    b: Result<OrdMap<RemoteList>, String>,
    c: Option<String>,
)
    requires
        call_ensures(google::google_tasks, (page, base, list), a),
        call_ensures(google::google_lists, (page,), b),
        call_ensures(google::next_page, (page,), c),
    ensures
        ({
            let tasks = google::tasks_in(page.deep_view(), base@, list@);
            let lists = google::lists_in(page.deep_view());
            &&& a is Ok <==> tasks is Ok
            &&& a is Ok ==> a->Ok_0.deep_view() == tasks->Ok_0
            &&& a is Err ==> a->Err_0@ == tasks->Err_0
            &&& b is Ok <==> lists is Ok
            &&& b is Ok ==> b->Ok_0@ == lists->Ok_0
            &&& b is Err ==> b->Err_0@ == lists->Err_0
            &&& c.deep_view() == google::next_token(page.deep_view())
        }),
{
}

/// The calendars of an answer, the items of a calendar, the place to go on and a
/// version tag are what the answer's document says; an error is the document's.
pub proof fn law_dav_answer(
    home: &str,
    xml: &str,
    prop: &str,
    a: Result<Vec<(String, String)>, String>,
    b: Result<Todos, String>,
    c: Result<String, String>,
    d: Option<String>,
)
    requires
        call_ensures(caldav::todo_calendars, (home, xml), a),
        call_ensures(caldav::fetch_todos, (home, xml), b),
        call_ensures(caldav::discover_href, (home, xml, prop), c),
        call_ensures(caldav::fetch_etag, (xml,), d),
    ensures
        ({
            let doc = outside::parsed_xml(xml@);
            let calendars = caldav::calendars(home@, doc);
            let todos = caldav::todos_in_answer(home@, doc);
            let next = caldav::discovered(home@, doc, prop@);
            &&& a is Ok <==> calendars is Ok
            &&& a is Ok ==> a->Ok_0.deep_view() == calendars->Ok_0
            &&& a is Err ==> a->Err_0@ == calendars->Err_0
            &&& b is Ok <==> todos is Ok
            &&& b is Ok ==> b->Ok_0.deep_view() == todos->Ok_0
            &&& b is Err ==> b->Err_0@ == todos->Err_0
            &&& c is Ok <==> next is Ok
            &&& c is Ok ==> c->Ok_0@ == next->Ok_0
            &&& c is Err ==> c->Err_0@ == next->Err_0
            &&& d.deep_view() == caldav::etag_in(doc)
        }),
{
}

/// A reply of Google's server, and the token in one, are what its code and its
/// text say.
pub proof fn law_google_replies(
    method: &str,
    url: &str,
    code: u16,
    status: &str,
    body: &str,
    a: Result<Json, String>,
    b: Result<String, String>,
)
    requires
        call_ensures(google::google_call, (method, url, code, status, body), a),
        call_ensures(google::google_access_token, (code, status, body), b),
    ensures
        json::result_view(a) == google::reply_of(
            method@,
            url@,
            code,
            status@,
            body@,
            outside::parsed_json(body@),
        ),
        ({
            let token = google::token_in(code, status@, body@, outside::parsed_json(body@));
            &&& b is Ok <==> token is Ok
            &&& b is Ok ==> b->Ok_0@ == token->Ok_0
            &&& b is Err ==> b->Err_0@ == token->Err_0
        }),
{
}

/// What an answer to a task comes to depends on the task, the answer, and the
/// address that the answer gives.
pub proof fn law_answers(
    task: &ListTask,
    request: &ItemRequest,
    target: &str,
    answer: Result<Json, String>,
    a: Result<ListReply, String>,
    b: Result<ItemReply, String>,
)
    requires
        call_ensures(ops::list_reply, (task, answer), a),
        call_ensures(ops::google_item_reply, (request, target, answer), b),
    ensures
        ({
            let json = json::result_view(answer);
            let list = ops::list_answer(
                task.deep_view(),
                json,
                outside::parsed_url(ops::answered_target(json)),
            );
            let item = ops::item_answer(
                request.deep_view(),
                json,
                outside::parsed_url(ops::answered_address(target@, json)),
            );
            &&& a is Ok <==> list is Ok
            &&& a is Ok ==> a->Ok_0.deep_view() == list->Ok_0
            &&& a is Err ==> a->Err_0@ == list->Err_0
            &&& b is Ok <==> item is Ok
            &&& b is Ok ==> b->Ok_0.deep_view() == item->Ok_0
            &&& b is Err ==> b->Err_0@ == item->Err_0
        }),
{
}

// ── Checklists ────────────────────────────────────────────────────────────

/// Checklists are read and written.
pub proof fn law_checklists(
    content: &str,
    id: Option<&str>,
    items: &[Item],
    a: Vec<Item>,
    b: (Option<String>, Vec<Item>),
    c: String,
    d: String,
)
    requires
        call_ensures(markdown::parse_items, (content,), a),
        call_ensures(markdown::parse_list, (content,), b),
        call_ensures(markdown::serialize_items, (items,), c),
        call_ensures(markdown::serialize_list, (id, items), d),
    ensures
        a.deep_view() == markdown::parsed_items(content@),
        b.0.deep_view() == markdown::parsed_list(content@).0,
        b.1.deep_view() == markdown::parsed_list(content@).1,
        c@ == markdown::items_text(items.deep_view()),
        d@ == markdown::list_text(id.deep_view(), items.deep_view()),
{
}

/// A list's file is named by its title, read with its title, and written under
/// it.
pub proof fn law_list_files(
    data: &[u8],
    title: &str,
    content: &str,
    list: &ListFile,
    a: String,
    b: Vec<u8>,
    c: ListFile,
    d: FileWrite,
    e: FileWrite,
    f: Option<String>,
)
    requires
        call_ensures(paths::safe_title, (title,), a),
        call_ensures(paths::list_path, (data, title), b),
        call_ensures(paths::load_list, (title, content), c),
        call_ensures(paths::save_list, (data, list), d),
        call_ensures(paths::save_current, (data, title), e),
        call_ensures(paths::title_of_file, (title,), f),
    ensures
        a@ == paths::safe(title@),
        b@ == paths::list_path_of(data@, title@),
        c.deep_view() == (ListFileView {
            title: paths::safe(title@),
            id: markdown::parsed_list(content@).0,
            items: markdown::parsed_list(content@).1,
        }),
        d.deep_view() == paths::saved_list(data@, list.deep_view()),
        e.deep_view() == paths::saved_current(data@, title@),
        f.deep_view() == paths::file_title(title@),
{
}

/// Everything stands below the data directory, and what is written stands beside
/// what it replaces.
pub proof fn law_directories(
    xdg: Option<&[u8]>,
    home: Option<&[u8]>,
    data: &[u8],
    a: Vec<u8>,
    b: Vec<u8>,
    c: Vec<u8>,
    d: Vec<u8>,
)
    requires
        call_ensures(paths::data_dir, (xdg, home), a),
        call_ensures(paths::lists_dir, (data,), b),
        call_ensures(paths::current_path, (data,), c),
        call_ensures(paths::temp_path, (data,), d),
    ensures
        a@ == paths::data_dir_of(
            if xdg is Some {
                Some(xdg->0@)
            } else {
                None
            },
            if home is Some {
                Some(home->0@)
            } else {
                None
            },
        ),
        b@ == paths::lists_dir_of(data@),
        c@ == paths::current_path_of(data@),
        d@ == paths::temp_path_of(data@),
{
}

/// The lists directory is read as its lists in the order of their titles, and
/// the single checklist as the files that its rows go to.
pub proof fn law_lists_are_loaded(
    files: &[(String, String)],
    content: &str,
    state: &SyncState,
    a: Vec<ListFile>,
    b: Vec<ListFile>,
)
    requires
        call_ensures(lists::load_lists, (files,), a),
        call_ensures(lists::migrate_legacy, (content, state), b),
    ensures
        lists::sorted_from(a.deep_view(), lists::lists_in(files.deep_view())),
        b.deep_view() == lists::migrated(markdown::parsed_items(content@), state.items@),
{
}

/// A list's title here, an item's list, and the list of most items are found.
pub proof fn law_names_are_found(
    title: &str,
    taken: &[ListFile],
    on_disk: &[String],
    url: &str,
    item: &SyncedItem,
    state: &SyncState,
    a: String,
    b: String,
    c: String,
    d: Option<String>,
)
    requires
        call_ensures(titles::unique_local_title, (title, taken, on_disk), a),
        call_ensures(model::list_id_from_url, (url,), b),
        call_ensures(SyncedItem::list_id, (item,), c),
        call_ensures(SyncState::majority_list_id, (state,), d),
    ensures
        a@ == titles::free_title(title@, taken.deep_view(), on_disk.deep_view()),
        b@ == model::url_list_id(url@),
        c@ == item.deep_view().list_id(),
        d.deep_view() == model::majority(state.items@),
{
}

/// What is said of a plan is said line by line.
pub proof fn law_reports(
    plan: &Plan,
    todos: &OrdMap<RemoteTodo>,
    lists: &ListPlan,
    there: &OrdMap<RemoteList>,
    a: Vec<String>,
    b: Vec<String>,
)
    requires
        call_ensures(report::item_plan_lines, (plan, todos), a),
        call_ensures(report::list_plan_lines, (lists, there), b),
    ensures
        a.deep_view() == report::item_lines(plan.deep_view(), todos@),
        b.deep_view() == report::list_lines(lists.deep_view(), there@),
{
}

} // verus!
