//! What a run takes for its own, what it asks of the servers, what it makes of
//! their answers, and what it says.
use vstd::prelude::*;

use crate::caldav;
use crate::caldav::PutCondition;
use crate::found;
use crate::google;
use crate::item_tasks;
use crate::item_tasks::{ItemReplyView, ItemRequestView, ItemTaskView, ItemWork};
use crate::json;
use crate::json::JsonView;
use crate::list_tasks::{ListReplyView, ListTaskView};
use crate::markdown;
use crate::model::{ItemView, ListFileView, SyncedItemView, SyncedListView};
use crate::ops;
use crate::outside;
use crate::outside::XmlNodeView;
use crate::paths;
use crate::plan::{ListPlanView, PlanView};
use crate::remote::{RemoteListView, RemoteTodoView};
use crate::report;
use crate::run;
use crate::run::Service;
use crate::seqs;
use crate::text;
use crate::text_laws;

verus! {

// ── What is an account's own ──────────────────────────────────────────────

/// The lists of an account are those that the state has under its name, as the
/// state has them.
pub proof fn law_own_lists(
    lists: Map<Seq<char>, SyncedListView>,
    email: Seq<char>,
    id: Seq<char>,
)
    ensures
        run::lists_of(lists, email).contains_key(id) <==> lists.contains_key(id)
            && lists[id].account == email,
        run::lists_of(lists, email).contains_key(id) ==> run::lists_of(lists, email)[id]
            == lists[id],
{
}

/// A file is planned for unless its list is another account's in the state and
/// is not on this account's server. Files keep their order.
pub proof fn law_own_files(
    files: Seq<ListFileView>,
    file: ListFileView,
    lists: Map<Seq<char>, SyncedListView>,
    remote: Map<Seq<char>, RemoteListView>,
    email: Seq<char>,
)
    ensures
        ({
            let before = run::files_of(files, lists, remote, email);
            let after = run::files_of(files.push(file), lists, remote, email);
            let foreign = file.id is Some && lists.contains_key(file.id->0)
                && lists[file.id->0].account != email && !remote.contains_key(file.id->0);
            &&& foreign ==> after == before
            &&& !foreign ==> after == before.push(file)
        }),
        run::files_of(Seq::empty(), lists, remote, email).len() == 0,
{
    let p = |f: ListFileView| !run::is_foreign(f, lists, remote, email);
    let more = files.push(file);
    let n = files.len() as int;
    seqs::lemma_filter_take(more, p, n);
    assert(more.take(n + 1) =~= more);
    assert(more.take(n) =~= files);
    seqs::lemma_filter_none(Seq::<ListFileView>::empty(), p);
}

/// The items of other accounts are those that the state has under another name;
/// the items of an account in a list are those that it has under its name in
/// that list; the items of the server in a list are those that say so.
pub proof fn law_own_items(
    items: Map<Seq<char>, SyncedItemView>,
    todos: Map<Seq<char>, RemoteTodoView>,
    email: Seq<char>,
    list: Seq<char>,
    uid: Seq<char>,
)
    ensures
        run::foreign_of(items, email).contains_key(uid) <==> items.contains_key(uid)
            && items[uid].account != email,
        run::items_of(items, email, list).contains_key(uid) <==> items.contains_key(uid)
            && items[uid].account == email && items[uid].list_id() == list,
        run::items_of(items, email, list).contains_key(uid) ==> run::items_of(
            items,
            email,
            list,
        )[uid] == items[uid],
        run::todos_of(todos, list).contains_key(uid) <==> todos.contains_key(uid)
            && todos[uid].list == list,
        run::todos_of(todos, list).contains_key(uid) ==> run::todos_of(todos, list)[uid]
            == todos[uid],
{
}

/// An item belongs to the list that the server has it in, and, where the server
/// does not have it, to the one that the state has it in for this account.
pub proof fn law_owner_of_item(
    items: Map<Seq<char>, SyncedItemView>,
    email: Seq<char>,
    todos: Map<Seq<char>, RemoteTodoView>,
    uid: Seq<char>,
)
    ensures
        ({
            let owners = run::owners_of(items, email, todos);
            let own = items.contains_key(uid) && items[uid].account == email;
            &&& owners.contains_key(uid) <==> todos.contains_key(uid) || own
            &&& todos.contains_key(uid) ==> owners[uid] == todos[uid].list
            &&& !todos.contains_key(uid) && own ==> owners[uid] == items[uid].list_id()
        }),
{
}

/// One more row is planned for as it stands, unless another account tracks it,
/// which leaves it out, or it belongs to another list: then it is planned for
/// as a new one, and kept as moved here with its text and its identity.
pub proof fn law_rows_to_plan(
    items: Seq<ItemView>,
    row: ItemView,
    foreign: Map<Seq<char>, SyncedItemView>,
    owners: Map<Seq<char>, Seq<char>>,
    list: Seq<char>,
)
    ensures
        ({
            let before = run::planned_rows(items, foreign, owners, list);
            let after = run::planned_rows(items.push(row), foreign, owners, list);
            let moves = run::moved_in(items, owners, list);
            let then = run::moved_in(items.push(row), owners, list);
            let out = row.uid is Some && foreign.contains_key(row.uid->0);
            let away = row.uid is Some && owners.contains_key(row.uid->0) && owners[row.uid->0]
                != list;
            &&& out ==> after == before
            &&& !out && away ==> after == before.push(
                ItemView { text: row.text, done: row.done, uid: None },
            )
            &&& !out && !away ==> after == before.push(row)
            &&& away ==> then == moves.push((row.text, row.uid->0))
            &&& !away ==> then == moves
        }),
        run::planned_rows(Seq::empty(), foreign, owners, list).len() == 0,
        run::moved_in(Seq::empty(), owners, list).len() == 0,
{
    let f = |row: ItemView|
        if row.uid is Some && foreign.contains_key(row.uid->0) {
            None
        } else if run::is_moved(row, owners, list) {
            Some((ItemView { uid: None, ..row }))
        } else {
            Some(row)
        };
    let g = |row: ItemView|
        if run::is_moved(row, owners, list) {
            Some((row.text, row.uid->0))
        } else {
            None
        };
    let more = items.push(row);
    let n = items.len() as int;
    seqs::lemma_filter_map_take(more, f, n);
    seqs::lemma_filter_map_take(more, g, n);
    assert(more.take(n + 1) =~= more);
    assert(more.take(n) =~= items);
    seqs::lemma_filter_map_none(Seq::<ItemView>::empty(), f);
    seqs::lemma_filter_map_none(Seq::<ItemView>::empty(), g);
}

/// Items are created below the list's address on Google's server, and in the
/// calendar itself on iCloud's.
pub proof fn law_targets(list: Seq<char>)
    ensures
        run::target_text(Service::Google, list) == "https://tasks.googleapis.com/tasks/v1"@
            + "/lists/"@ + list + "/tasks"@,
        run::target_text(Service::ICloud, list) == list,
        google::lists_address() == "https://tasks.googleapis.com/tasks/v1"@ + "/users/@me/lists"@,
{
}

/// The lists whose items are synced are those of the server, as it has them, and
/// those that the state has under this account's name and that have an address:
/// lists that this run created.
pub proof fn law_lists_to_sync(
    remote: Map<Seq<char>, RemoteListView>,
    lists: Map<Seq<char>, SyncedListView>,
    email: Seq<char>,
    service: Service,
    id: Seq<char>,
)
    ensures
        ({
            let all = run::syncable(remote, lists, email, service);
            let address = outside::parsed_url(run::target_text(service, id));
            let made = lists.contains_key(id) && lists[id].account == email && address is Ok;
            &&& all.contains_key(id) <==> remote.contains_key(id) || made
            &&& remote.contains_key(id) ==> all[id] == remote[id]
            &&& !remote.contains_key(id) && made ==> all[id] == RemoteListView {
                title: lists[id].title,
                etag: lists[id].etag,
                create_target: address->Ok_0,
            }
        }),
{
}

/// A plan is refused where it deletes all of the server's lists, of which there
/// is one, or six and more items that are more than half of those of a list.
pub proof fn law_refusals(deletes: nat, there: nat)
    ensures
        run::deletes_every_list(deletes, there) <==> deletes >= 1 && !(deletes < there),
        run::deletes_most(deletes, there) <==> deletes >= 6 && deletes > there - deletes,
{
}

/// A file is read again before it is written: what it holds now counts, under
/// the name of its title and with its list's identity; one that cannot be read
/// is empty.
pub proof fn law_file_is_read_again(title: Seq<char>, content: Seq<char>, id: Seq<char>)
    ensures
        run::fresh_list(title, Some(content), id) == (ListFileView {
            title: paths::safe(title),
            id: Some(id),
            items: markdown::parsed_list(content).1,
        }),
        run::fresh_list(title, None, id) == (ListFileView {
            title,
            id: Some(id),
            items: Seq::empty(),
        }),
{
}

// ── Replies ───────────────────────────────────────────────────────────────

/// A reply is a success exactly where its code is one of the two hundreds. A
/// failure is called by the method, the URL and the status.
pub proof fn law_success(code: u16, method: Seq<char>, url: Seq<char>, status: Seq<char>)
    ensures
        caldav::success(code) <==> code / 100 == 2,
        caldav::failure(method, url, status) == method + " "@ + url + ": HTTP "@ + status,
{
}

/// A calendar is written over the version that is known, over anything where
/// its version is not known, and, where it is new, only over nothing.
pub proof fn law_put_condition(etag: Seq<char>)
    ensures
        caldav::put_condition_of(None) == PutCondition::IfNoneMatch,
        etag.len() > 0 ==> caldav::put_condition_of(Some(etag)) == PutCondition::IfMatch,
        etag.len() == 0 ==> caldav::put_condition_of(Some(etag)) == PutCondition::Always,
{
}

/// What Google's server answers is nothing where the code says so or the text is
/// blank, and what the text is as a document else; another code, and a text that
/// is none, is an error that says what was asked.
pub proof fn law_google_reply(
    method: Seq<char>,
    url: Seq<char>,
    code: u16,
    status: Seq<char>,
    body: Seq<char>,
    parsed: Result<JsonView, Seq<char>>,
)
    ensures
        ({
            let r = google::reply_of(method, url, code, status, body, parsed);
            let blank = forall|i: int|
                0 <= i < body.len() ==> text::white_space(#[trigger] body[i]);
            &&& code == 204 ==> r == Ok::<JsonView, Seq<char>>(JsonView::Null)
            &&& code / 100 != 2 ==> r == Err::<JsonView, Seq<char>>(
                method + " "@ + url + ": "@ + ("HTTP "@ + status + " "@ + body),
            )
            &&& code / 100 == 2 && blank ==> r == Ok::<JsonView, Seq<char>>(JsonView::Null)
            &&& code / 100 == 2 && code != 204 && !blank && parsed is Ok ==> r == parsed
            &&& code / 100 == 2 && code != 204 && !blank && parsed is Err ==> r == Err::<
                JsonView,
                Seq<char>,
            >(method + " "@ + url + ": "@ + ("bad JSON: "@ + parsed->Err_0))
        }),
{
    text_laws::law_trim(body);
    let (a, b) = choose|a: int, b: int|
        0 <= a <= b <= body.len() && text::trim(body) == #[trigger] body.subrange(a, b)
            && text_laws::blank_between(body, 0, a) && text_laws::blank_between(
            body,
            b,
            body.len() as int,
        ) && (a < b ==> !text::white_space(body[a]) && !text::white_space(body[b - 1]));
    if a < b {
        assert(!text::white_space(body[a]));
    } else {
        assert forall|i: int| 0 <= i < body.len() implies text::white_space(
            #[trigger] body[i],
        ) by {
            if i >= a {
                assert(i >= b);
            }
        }
    }
}

/// An access token is what a success says it is; an answer that is no document,
/// another code, and an answer without a token are errors.
pub proof fn law_access_token(
    code: u16,
    status: Seq<char>,
    body: Seq<char>,
    parsed: Result<JsonView, Seq<char>>,
    token: Seq<char>,
)
    ensures
        google::token_in(code, status, body, parsed) == Ok::<Seq<char>, Seq<char>>(token)
            <==> parsed is Ok && code / 100 == 2 && json::field(parsed->Ok_0, "access_token"@)
            == Some(JsonView::Text(token)),
        parsed is Err ==> google::token_in(code, status, body, parsed) == Err::<
            Seq<char>,
            Seq<char>,
        >("token refresh: "@ + parsed->Err_0),
        parsed is Ok && code / 100 != 2 ==> google::token_in(code, status, body, parsed) == Err::<
            Seq<char>,
            Seq<char>,
        >("token refresh: HTTP "@ + status + " "@ + body),
{
}

// ── What is asked of Google's server ──────────────────────────────────────

proof fn lemma_first_by_key(fields: Seq<(Seq<char>, JsonView)>, key: Seq<char>, i: int)
    requires
        found::first_field(fields, key, i),
    ensures
        json::field(JsonView::Object(fields), key) == Some(fields[i].1),
{
    found::law_field(fields, key, i, JsonView::Null);
}

/// A list is sent with its title alone.
pub proof fn law_list_body(fields: Seq<(Seq<char>, JsonView)>, title: Seq<char>, other: JsonView)
    ensures
        google::is_list_body(JsonView::Object(fields), title) <==> fields == seq![
            ("title"@, JsonView::Text(title)),
        ],
        other !is Object ==> !google::is_list_body(other, title),
{
    let j = JsonView::Object(fields);
    let names = fields.map_values(|f: (Seq<char>, JsonView)| f.0);
    assert(json::keys(j) == names);
    if google::is_list_body(j, title) {
        assert(names.len() == 1);
        assert(fields.len() == 1);
        assert(names[0] == fields[0].0);
        assert(seq!["title"@][0] == "title"@);
        lemma_first_by_key(fields, "title"@, 0);
        assert(fields[0] == ("title"@, JsonView::Text(title)));
        assert(fields =~= seq![("title"@, JsonView::Text(title))]);
    }
    if fields == seq![("title"@, JsonView::Text(title))] {
        assert(fields[0] == ("title"@, JsonView::Text(title)));
        lemma_first_by_key(fields, "title"@, 0);
        assert(names =~= seq!["title"@]);
    }
    if other !is Object {
        assert(seq!["title"@].len() == 1);
    }
}

/// An item is sent with its title and its status, completed or not; one that is
/// changed to not done has the time of its completion taken away.
pub proof fn law_task_bodies(
    fields: Seq<(Seq<char>, JsonView)>,
    title: Seq<char>,
    done: bool,
)
    ensures
        ({
            let status = if done {
                "completed"@
            } else {
                "needsAction"@
            };
            let both = seq![
                ("title"@, JsonView::Text(title)),
                ("status"@, JsonView::Text(status)),
            ];
            &&& google::is_task_body(JsonView::Object(fields), title, done) <==> fields == both
            &&& google::is_update_body(JsonView::Object(fields), title, done) <==> fields == (
            if done {
                both
            } else {
                both.push(("completed"@, JsonView::Null))
            })
        }),
{
    let j = JsonView::Object(fields);
    let status = if done {
        "completed"@
    } else {
        "needsAction"@
    };
    let both = seq![("title"@, JsonView::Text(title)), ("status"@, JsonView::Text(status))];
    let three = both.push(("completed"@, JsonView::Null));
    let names = fields.map_values(|f: (Seq<char>, JsonView)| f.0);
    reveal_strlit("title");
    reveal_strlit("status");
    reveal_strlit("completed");
    assert("title"@[0] == 't');
    assert("status"@[0] == 's');
    assert("completed"@[0] == 'c');
    let two = seq!["title"@, "status"@];
    let all = seq!["title"@, "status"@, "completed"@];
    if names == two || names == all {
        assert(names.len() == fields.len());
        assert(names[0] == fields[0].0);
        assert(names[1] == fields[1].0);
        lemma_first_by_key(fields, "title"@, 0);
        lemma_first_by_key(fields, "status"@, 1);
        if names == all {
            assert(names[2] == fields[2].0);
            lemma_first_by_key(fields, "completed"@, 2);
        }
    }
    if fields == both {
        assert(names =~= two);
        assert(fields[0] == both[0] && fields[1] == both[1]);
    }
    if fields == three {
        assert(names =~= all);
        assert(fields[0] == three[0] && fields[1] == three[1] && fields[2] == three[2]);
    }
    if google::is_task_body(j, title, done) {
        assert(fields =~= both);
    }
    if google::is_update_body(j, title, done) {
        if done {
            assert(fields =~= both);
        } else {
            assert(fields =~= three);
        }
    }
    assert(two.len() == 2 && all.len() == 3);
}

/// A list is created, renamed and deleted on Google's server by the method for
/// it, at the address of the lists or of the list, with the title where there
/// is one; for nothing else is the server called. iCloud's server does none of
/// these.
pub proof fn law_list_calls(
    task: ListTaskView,
    method: Seq<char>,
    url: Seq<char>,
    body: Option<JsonView>,
)
    ensures
        ({
            let lists = "https://tasks.googleapis.com/tasks/v1"@ + "/users/@me/lists"@;
            &&& task is Create ==> (ops::list_call_is(task, method, url, body) <==> method
                == "POST"@ && url == lists && body is Some && google::is_list_body(
                body->0,
                task->Create_title,
            ))
            &&& task is Rename ==> (ops::list_call_is(task, method, url, body) <==> method
                == "PATCH"@ && url == lists + "/"@ + task->Rename_id && body is Some
                && google::is_list_body(body->0, task->Rename_title))
            &&& task is Delete ==> (ops::list_call_is(task, method, url, body) <==> method
                == "DELETE"@ && url == lists + "/"@ + task->Delete_id && body is None)
            &&& ops::asks_server(task) <==> task is Create || task is Rename || task is Delete
            &&& ops::list_call_is(task, method, url, body) ==> ops::asks_server(task)
        }),
        task is Create ==> ops::list_cannot(task) == Some(
            "the iCloud backend cannot create lists"@,
        ),
        task is Rename ==> ops::list_cannot(task) == Some(
            "the iCloud backend cannot rename lists"@,
        ),
        task is Delete ==> ops::list_cannot(task) == Some(
            "the iCloud backend cannot delete lists"@,
        ),
{
}

/// A created list is read from the answer: its identity, its title or else the
/// one that was sent, its version tag, and the address of its items. One
/// without an identity, or without an address, is an error.
pub proof fn law_created_list_is_read(
    title: Seq<char>,
    answer: JsonView,
    target: Result<Seq<char>, Seq<char>>,
)
    ensures
        ({
            let id = json::text_field(answer, "id"@);
            let r = google::created_list_of(title, answer, target);
            &&& id is None ==> r is Err && r->Err_0 == "created list has no id"@
            &&& id is Some && target is Err ==> r is Err && r->Err_0 == target->Err_0
            &&& id is Some && target is Ok ==> r == Ok::<(Seq<char>, RemoteListView), Seq<char>>(
                (
                    id->0,
                    RemoteListView {
                        title: if json::text_field(answer, "title"@) is Some {
                            json::text_field(answer, "title"@)->0
                        } else {
                            title
                        },
                        etag: json::text_or_empty(answer, "etag"@),
                        create_target: target->Ok_0,
                    },
                ),
            )
        }),
{
}

/// What an answer to a task for lists comes to: what was created, the version
/// tag of what was renamed, and that what was deleted is gone, also where it was
/// gone before. Every other failure stays one.
pub proof fn law_list_replies(
    task: ListTaskView,
    answer: Result<JsonView, Seq<char>>,
    target: Result<Seq<char>, Seq<char>>,
)
    ensures
        ({
            let r = ops::list_answer(task, answer, target);
            let gone = answer is Err && exists|i: int|
                #[trigger] text::has_at(answer->Err_0, "HTTP 404"@, i);
            &&& answer is Err && !(task is Delete && gone) ==> r == Err::<
                ListReplyView,
                Seq<char>,
            >(answer->Err_0)
            &&& task is Delete && gone ==> r == Ok::<ListReplyView, Seq<char>>(
                ListReplyView::Deleted,
            )
            &&& task is Delete && answer is Ok ==> r == Ok::<ListReplyView, Seq<char>>(
                ListReplyView::Deleted,
            )
            &&& task is Rename && answer is Ok ==> r == Ok::<ListReplyView, Seq<char>>(
                ListReplyView::Renamed { etag: json::text_or_empty(answer->Ok_0, "etag"@) },
            )
            &&& task is Create && answer is Ok ==> {
                let made = google::created_list_of(task->Create_title, answer->Ok_0, target);
                &&& made is Ok ==> r == Ok::<ListReplyView, Seq<char>>(
                    ListReplyView::Created { id: (made->Ok_0).0, list: (made->Ok_0).1 },
                )
                &&& made is Err ==> r == Err::<ListReplyView, Seq<char>>(made->Err_0)
            }
            &&& !ops::asks_server(task) && answer is Ok ==> r == Ok::<ListReplyView, Seq<char>>(
                ListReplyView::Nothing,
            )
        }),
        answer is Ok ==> ops::answered_target(answer) == "https://tasks.googleapis.com/tasks/v1"@
            + "/lists/"@ + json::text_or_empty(answer->Ok_0, "id"@) + "/tasks"@,
{
}

/// A created item is read from the answer: its identity, its version tag, and
/// its URL below the list's address. One without an identity, or without a URL,
/// is an error.
pub proof fn law_created_task_is_read(answer: JsonView, url: Result<Seq<char>, Seq<char>>)
    ensures
        ({
            let id = json::text_field(answer, "id"@);
            let r = google::created_task_of(answer, url);
            &&& id is None ==> r is Err && r->Err_0 == "created task has no id"@
            &&& id is Some && url is Err ==> r is Err && r->Err_0 == url->Err_0
            &&& id is Some && url is Ok ==> r == Ok::<
                (Seq<char>, Seq<char>, Seq<char>),
                Seq<char>,
            >((id->0, url->Ok_0, json::text_or_empty(answer, "etag"@)))
        }),
{
}

/// What an answer to a request for an item comes to: what was created, the
/// version tag of what was changed, and that what was deleted is gone, also
/// where it was gone before. Every other failure stays one.
pub proof fn law_item_replies(
    request: ItemRequestView,
    answer: Result<JsonView, Seq<char>>,
    url: Result<Seq<char>, Seq<char>>,
    target: Seq<char>,
)
    ensures
        ({
            let r = ops::item_answer(request, answer, url);
            let gone = answer is Err && exists|i: int|
                #[trigger] text::has_at(answer->Err_0, "HTTP 404"@, i);
            &&& answer is Err && !(request is Delete && gone) ==> r == Err::<
                ItemReplyView,
                Seq<char>,
            >(answer->Err_0)
            &&& request is Delete && (gone || answer is Ok) ==> r == Ok::<
                ItemReplyView,
                Seq<char>,
            >(ItemReplyView::Deleted)
            &&& request is Update && answer is Ok ==> r == Ok::<ItemReplyView, Seq<char>>(
                ItemReplyView::Updated { etag: json::text_or_empty(answer->Ok_0, "etag"@) },
            )
            &&& request is Create && answer is Ok ==> {
                let made = google::created_task_of(answer->Ok_0, url);
                &&& made is Ok ==> r == Ok::<ItemReplyView, Seq<char>>(
                    ItemReplyView::Created {
                        uid: (made->Ok_0).0,
                        url: (made->Ok_0).1,
                        etag: (made->Ok_0).2,
                    },
                )
                &&& made is Err ==> r == Err::<ItemReplyView, Seq<char>>(made->Err_0)
            }
            &&& request is Nothing && answer is Ok ==> r == Ok::<ItemReplyView, Seq<char>>(
                ItemReplyView::Nothing,
            )
        }),
        answer is Ok ==> ops::answered_address(target, answer) == caldav::without_slashes(target)
            + "/"@ + json::text_or_empty(answer->Ok_0, "id"@),
{
}

/// A new item's calendar is named by its identity, and an item is deleted at the
/// URL that it is tracked by.
pub proof fn law_addresses(
    uid: Seq<char>,
    work: ItemWork,
    items: Map<Seq<char>, SyncedItemView>,
)
    ensures
        ops::calendar_name(uid) == uid + ".ics"@,
        item_tasks::parsed_for(ItemTaskView::Known { work, uid }, items) == outside::parsed_url(
            items[uid].url,
        ),
{
}

// ── Discovery ─────────────────────────────────────────────────────────────

/// What a server says where to go on is the reference in the first element of
/// the name that was asked for; an answer that is no document, that lacks it, or
/// whose reference makes no URL is an error.
pub proof fn law_discovery(
    base: Seq<char>,
    nodes: Seq<XmlNodeView>,
    prop: Seq<char>,
    e: Seq<char>,
    i: int,
    k: int,
)
    requires
        found::first_at(nodes, |j: int| nodes[j].name == prop, i),
        found::first_at(
            nodes,
            |j: int| caldav::below(nodes, i, j) && nodes[j].name == "href"@,
            k,
        ),
        i <= usize::MAX,
    ensures
        nodes[k].text is None ==> caldav::discovered(base, Ok(nodes), prop) == Err::<
            Seq<char>,
            Seq<char>,
        >("no "@ + prop + " in PROPFIND response"@),
        nodes[k].text is Some ==> ({
            let url = outside::joined_url(base, text::trim(nodes[k].text->0));
            &&& url is Ok ==> caldav::discovered(base, Ok(nodes), prop) == Ok::<
                Seq<char>,
                Seq<char>,
            >(url->Ok_0)
            &&& url is Err ==> caldav::discovered(base, Ok(nodes), prop) == Err::<
                Seq<char>,
                Seq<char>,
            >(
                "bad "@ + prop + " href "@ + outside::quoted(nodes[k].text->0) + ": "@
                    + url->Err_0,
            )
        }),
        caldav::discovered(base, Err(e), prop) == Err::<Seq<char>, Seq<char>>(
            "bad multistatus: "@ + e,
        ),
{
    found::law_named(nodes, 0, prop, i);
    found::law_named(nodes, i, "href"@, k);
}

/// A server that does not name what was asked for, or names it without a
/// reference, is an error.
pub proof fn law_nothing_discovered(
    base: Seq<char>,
    nodes: Seq<XmlNodeView>,
    prop: Seq<char>,
    i: int,
)
    requires
        nodes.len() <= usize::MAX,
        found::none_at(nodes, |j: int| nodes[j].name == prop) || (found::first_at(
            nodes,
            |j: int| nodes[j].name == prop,
            i,
        ) && found::none_at(
            nodes,
            |j: int| caldav::below(nodes, i, j) && nodes[j].name == "href"@,
        )),
    ensures
        caldav::discovered(base, Ok(nodes), prop) == Err::<Seq<char>, Seq<char>>(
            "no "@ + prop + " in PROPFIND response"@,
        ),
{
    let p = |j: int| nodes[j].name == prop;
    if let Some(m) = caldav::named(nodes, prop) {
        found::law_named(nodes, 0, prop, m);
        assert(p(m));
        if found::first_at(nodes, p, i) {
            found::law_named(nodes, 0, prop, i);
            let q = |j: int| caldav::below(nodes, i, j) && nodes[j].name == "href"@;
            if let Some(h) = caldav::named_in(nodes, i, "href"@) {
                found::law_named(nodes, i, "href"@, h);
                assert(!q(h));
            }
        } else {
            assert(!p(m));
        }
    }
}

// ── What a run says ───────────────────────────────────────────────────────

/// What is said of a plan for lists: a line for each list of each part, part by
/// part, with its title and its identity.
pub proof fn law_list_lines(p: ListPlanView, remote: Map<Seq<char>, RemoteListView>, k: int)
    ensures
        ({
            let lines = report::list_lines(p, remote);
            let n1 = p.pull_new.len() as int;
            let n2 = n1 + p.pull_renames.len();
            let n3 = n2 + p.pull_deletes.len();
            let n4 = n3 + p.push_creates.len();
            let n5 = n4 + p.push_renames.len();
            let n6 = n5 + p.push_deletes.len();
            &&& lines.len() == n6
            &&& 0 <= k < n1 ==> lines[k] == "list pull new:    "@ + remote[p.pull_new[k]].title
                + " ("@ + p.pull_new[k] + ")"@
            &&& n1 <= k < n2 ==> lines[k] == "list pull rename: "@ + p.pull_renames[k - n1].1
                + " -> "@ + p.pull_renames[k - n1].2 + " ("@ + p.pull_renames[k - n1].0 + ")"@
            &&& n2 <= k < n3 ==> lines[k] == "list pull delete: "@ + p.pull_deletes[k - n2].1
                + " ("@ + p.pull_deletes[k - n2].0 + ")"@
            &&& n3 <= k < n4 ==> lines[k] == "list push new:    "@ + p.push_creates[k - n3].0
            &&& n4 <= k < n5 ==> lines[k] == "list push rename: -> "@ + p.push_renames[k - n4].1
                + " ("@ + p.push_renames[k - n4].0 + ")"@
            &&& n5 <= k < n6 && remote.contains_key(p.push_deletes[k - n5]) ==> lines[k]
                == "list push delete: "@ + remote[p.push_deletes[k - n5]].title + " ("@
                + p.push_deletes[k - n5] + ")"@
            &&& n5 <= k < n6 && !remote.contains_key(p.push_deletes[k - n5]) ==> lines[k]
                == "list push delete: "@ + "?"@ + " ("@ + p.push_deletes[k - n5] + ")"@
        }),
{
}

/// What is said of a plan for items: a line for each item of each part, part by
/// part.
pub proof fn law_item_lines(p: PlanView, remote: Map<Seq<char>, RemoteTodoView>, k: int)
    ensures
        ({
            let lines = report::item_lines(p, remote);
            let n1 = p.pull_new.len() as int;
            let n2 = n1 + p.pull_updates.len();
            let n3 = n2 + p.pull_deletes.len();
            let n4 = n3 + p.push_updates.len();
            let n5 = n4 + p.push_creates.len();
            let n6 = n5 + p.push_deletes.len();
            &&& lines.len() == n6
            &&& 0 <= k < n1 ==> lines[k] == "  pull new:    "@ + remote[p.pull_new[k]].summary
                + " ("@ + p.pull_new[k] + ")"@
            &&& n1 <= k < n2 ==> lines[k] == "  pull change: "@ + remote[p.pull_updates[k
                - n1]].summary + " ("@ + p.pull_updates[k - n1] + ")"@
            &&& n2 <= k < n3 ==> lines[k] == "  pull delete: "@ + p.pull_deletes[k - n2]
            &&& n3 <= k < n4 ==> lines[k] == "  push change: "@ + p.push_updates[k - n3]
            &&& n4 <= k < n5 && p.push_creates[k - n4].1 ==> lines[k] == "  push new:    "@
                + "[x] "@ + p.push_creates[k - n4].0
            &&& n4 <= k < n5 && !p.push_creates[k - n4].1 ==> lines[k] == "  push new:    "@ + ""@
                + p.push_creates[k - n4].0
            &&& n5 <= k < n6 ==> lines[k] == "  push delete: "@ + p.push_deletes[k - n5]
        }),
{
}

} // verus!
