//! What each server is asked for a task, and what its answer comes to.
use vstd::prelude::*;

use crate::caldav;
use crate::google;
use crate::ical;
use crate::item_tasks::{ItemReply, ItemReplyView, ItemRequest, ItemRequestView};
use crate::json;
use crate::json::{Json, JsonView};
use crate::list_tasks::{ListReply, ListReplyView, ListTask, ListTaskView};
use crate::outside;
use crate::run;
use crate::run::Service;
use crate::text;

verus! {

// ── Lists ─────────────────────────────────────────────────────────────────

/// A call to Google's server.
#[derive(Debug)]
pub struct Call {
    pub method: String,
    pub url: String,
    pub body: Option<Json>,
}

/// What a task for lists asks of a server.
#[derive(Debug)]
pub enum ListCall {
    /// Nothing: it is about files.
    Nothing,
    /// A call to Google's server.
    Google(Call),
    /// The server cannot do it, for this reason.
    Cannot(String),
}

/// A task for lists asks this call of Google's server.
pub open spec fn list_call_is(
    task: ListTaskView,
    method: Seq<char>,
    url: Seq<char>,
    body: Option<JsonView>,
) -> bool {
    match task {
        ListTaskView::Create { title, stale } => method == "POST"@ && url
            == google::lists_address() && body is Some && google::is_list_body(body->0, title),
        ListTaskView::Rename { id, title } => method == "PATCH"@ && url
            == google::lists_address() + "/"@ + id && body is Some && google::is_list_body(
            body->0,
            title,
        ),
        ListTaskView::Delete { id } => method == "DELETE"@ && url == google::lists_address()
            + "/"@ + id && body is None,
        _ => false,
    }
}

/// What iCloud's server cannot do of a task for lists.
pub open spec fn list_cannot(task: ListTaskView) -> Option<Seq<char>> {
    match task {
        ListTaskView::Create { title, stale } => Some("the iCloud backend cannot create lists"@),
        ListTaskView::Rename { id, title } => Some("the iCloud backend cannot rename lists"@),
        ListTaskView::Delete { id } => Some("the iCloud backend cannot delete lists"@),
        _ => None,
    }
}

/// A task that is about the server's lists, not about files.
pub open spec fn asks_server(task: ListTaskView) -> bool {
    list_cannot(task) is Some
}

/// What a task for lists asks of a server. iCloud's lists are only read.
pub fn list_call(service: Service, task: &ListTask) -> (r: ListCall)
    ensures
        match r {
            ListCall::Nothing => !asks_server(task.deep_view()),
            ListCall::Google(c) => service == Service::Google && asks_server(task.deep_view())
                && list_call_is(task.deep_view(), c.method@, c.url@, c.body.deep_view()),
            ListCall::Cannot(e) => service == Service::ICloud && list_cannot(task.deep_view())
                == Some(e@),
        },
{
    match task {
        ListTask::Create { title, stale } => match service {
            Service::Google => ListCall::Google(
                Call {
                    method: "POST".to_string(),
                    url: google::google_lists_url(),
                    body: Some(google::list_body(title.as_str())),
                },
            ),
            Service::ICloud => ListCall::Cannot(
                "the iCloud backend cannot create lists".to_string(),
            ),
        },
        ListTask::Rename { id, title } => match service {
            Service::Google => ListCall::Google(
                Call {
                    method: "PATCH".to_string(),
                    url: google::google_list_url(id.as_str()),
                    body: Some(google::list_body(title.as_str())),
                },
            ),
            Service::ICloud => ListCall::Cannot(
                "the iCloud backend cannot rename lists".to_string(),
            ),
        },
        ListTask::Delete { id } => match service {
            Service::Google => ListCall::Google(
                Call {
                    method: "DELETE".to_string(),
                    url: google::google_list_url(id.as_str()),
                    body: None,
                },
            ),
            Service::ICloud => ListCall::Cannot(
                "the iCloud backend cannot delete lists".to_string(),
            ),
        },
        _ => ListCall::Nothing,
    }
}

/// What an answer comes to, given what the address of a new list's items was
/// read as.
pub open spec fn list_answer(
    task: ListTaskView,
    answer: Result<JsonView, Seq<char>>,
    target: Result<Seq<char>, Seq<char>>,
) -> Result<ListReplyView, Seq<char>> {
    match (task, answer) {
        (ListTaskView::Create { title, stale }, Ok(j)) => match google::created_list_of(
            title,
            j,
            target,
        ) {
            Ok((id, list)) => Ok(ListReplyView::Created { id, list }),
            Err(e) => Err(e),
        },
        (ListTaskView::Rename { id, title }, Ok(j)) => Ok(
            ListReplyView::Renamed { etag: json::text_or_empty(j, "etag"@) },
        ),
        (ListTaskView::Delete { id }, Ok(j)) => Ok(ListReplyView::Deleted),
        (ListTaskView::Delete { id }, Err(e)) => if text::contains(e, "HTTP 404"@) {
            Ok(ListReplyView::Deleted)
        } else {
            Err(e)
        },
        (_, Ok(j)) => Ok(ListReplyView::Nothing),
        (_, Err(e)) => Err(e),
    }
}

/// A result over answers, as plain values.
pub open spec fn list_reply_view(r: Result<ListReply, String>) -> Result<
    ListReplyView,
    Seq<char>,
> {
    match r {
        Ok(x) => Ok(x.deep_view()),
        Err(e) => Err(e@),
    }
}

/// The address of the items of the list that an answer speaks of.
pub open spec fn answered_target(answer: Result<JsonView, Seq<char>>) -> Seq<char> {
    match answer {
        Ok(j) => run::target_text(Service::Google, json::text_or_empty(j, "id"@)),
        Err(e) => Seq::empty(),
    }
}

/// What the answer of Google's server to a task for lists comes to.
pub fn list_reply(task: &ListTask, answer: Result<Json, String>) -> (r: Result<ListReply, String>)
    ensures
        list_reply_view(r) == list_answer(
            task.deep_view(),
            json::result_view(answer),
            outside::parsed_url(answered_target(json::result_view(answer))),
        ),
{
    match task {
        ListTask::Create { title, stale } => match answer {
            Ok(j) => match google::google_list_create(title.as_str(), &j) {
                Ok((id, list)) => Ok(ListReply::Created { id, list }),
                Err(e) => Err(e),
            },
            Err(e) => Err(e),
        },
        ListTask::Rename { id, title } => match answer {
            Ok(j) => Ok(ListReply::Renamed { etag: google::etag_of(&j) }),
            Err(e) => Err(e),
        },
        ListTask::Delete { id } => {
            let gone = match answer {
                Ok(_) => Ok(()),
                Err(e) => Err(e),
            };
            match google::google_delete(gone) {
                Ok(_) => Ok(ListReply::Deleted),
                Err(e) => Err(e),
            }
        },
        _ => match answer {
            Ok(_) => Ok(ListReply::Nothing),
            Err(e) => Err(e),
        },
    }
}

// ── Items ─────────────────────────────────────────────────────────────────

/// What a request for an item is to a server.
#[derive(Debug)]
pub enum ItemCall {
    /// Nothing.
    Nothing,
    /// A call to Google's server.
    Google(Call),
    /// A calendar to be written. `uid` is the identity of its item if that is
    /// new, and `etag` the version tag that is known if it is not.
    Put { uid: Option<String>, url: String, body: String, etag: Option<String> },
    /// A calendar to be deleted.
    Remove { url: String, etag: String },
}

/// The address of a new item's calendar, below that of its list.
pub open spec fn calendar_name(uid: Seq<char>) -> Seq<char> {
    uid + ".ics"@
}

/// What a request is to Google's server.
pub fn google_item_call(request: &ItemRequest, target: &str) -> (r: ItemCall)
    ensures
        match request.deep_view() {
            ItemRequestView::Nothing => r is Nothing,
            ItemRequestView::Update { todo, text, done } => r matches ItemCall::Google(c)
                && c.method@ == "PATCH"@ && c.url@ == todo.url && c.body is Some
                && google::is_update_body(c.body->0.deep_view(), text, done),
            ItemRequestView::Create { text, done } => r matches ItemCall::Google(c) && c.method@
                == "POST"@ && c.url@ == target@ && c.body is Some && google::is_task_body(
                c.body->0.deep_view(),
                text,
                done,
            ),
            ItemRequestView::Delete { url, etag } => r matches ItemCall::Google(c) && c.method@
                == "DELETE"@ && c.url@ == url && c.body is None,
        },
{
    match request {
        ItemRequest::Nothing => ItemCall::Nothing,
        ItemRequest::Update { todo, text, done } => ItemCall::Google(
            Call {
                method: "PATCH".to_string(),
                url: todo.url.clone(),
                body: Some(google::google_update(text.as_str(), *done)),
            },
        ),
        ItemRequest::Create { text, done } => ItemCall::Google(
            Call {
                method: "POST".to_string(),
                url: target.to_string(),
                body: Some(google::task_body(text.as_str(), *done)),
            },
        ),
        ItemRequest::Delete { url, etag } => ItemCall::Google(
            Call { method: "DELETE".to_string(), url: url.clone(), body: None },
        ),
    }
}

/// What a request is to iCloud's server, at a given moment. `uid` is the
/// identity that a new item gets, and `address` what the address of its
/// calendar was read as.
pub fn icloud_item_call_at(
    request: &ItemRequest,
    uid: String,
    address: Result<String, String>,
    now: &str,
) -> (r: Result<ItemCall, String>)
    ensures
        match request.deep_view() {
            ItemRequestView::Nothing => r matches Ok(c) && c is Nothing,
            ItemRequestView::Update { todo, text, done } => r matches Ok(ItemCall::Put {
                uid: u,
                url,
                body,
                etag,
            }) && u is None && url@ == todo.url && body@ == ical::patched(
                todo.lines,
                text,
                done,
                now@,
            ) && etag.deep_view() == Some(todo.etag),
            ItemRequestView::Create { text, done } => match outside::as_texts(address) {
                Ok(a) => r matches Ok(ItemCall::Put { uid: u, url, body, etag }) && u.deep_view()
                    == Some(uid@) && url@ == a && body@ == ical::crlf_text(
                    ical::new_lines(uid@, text, done, now@),
                ) && etag is None,
                Err(e) => r matches Err(x) && x@ == e,
            },
            ItemRequestView::Delete { url, etag } => r matches Ok(ItemCall::Remove {
                url: u,
                etag: t,
            }) && u@ == url && t@ == etag,
        },
{
    match request {
        ItemRequest::Nothing => Ok(ItemCall::Nothing),
        ItemRequest::Update { todo, text, done } => Ok(
            ItemCall::Put {
                uid: None,
                url: todo.url.clone(),
                body: ical::patch_vtodo_at(todo.lines.as_slice(), text.as_str(), *done, now),
                etag: Some(todo.etag.clone()),
            },
        ),
        ItemRequest::Create { text, done } => match address {
            Ok(url) => {
                let body = ical::new_vtodo_at(uid.as_str(), text.as_str(), *done, now);
                Ok(ItemCall::Put { uid: Some(uid), url, body, etag: None })
            },
            Err(e) => Err(e),
        },
        ItemRequest::Delete { url, etag } => Ok(
            ItemCall::Remove { url: url.clone(), etag: etag.clone() },
        ),
    }
}

/// What a request is to iCloud's server. `target` is the calendar's URL, and
/// `uid` the identity that a new item gets.
pub fn icloud_item_call(request: &ItemRequest, target: &str, uid: String) -> (r: Result<
    ItemCall,
    String,
>)
    ensures
        match request.deep_view() {
            ItemRequestView::Nothing => r matches Ok(c) && c is Nothing,
            ItemRequestView::Update { todo, text, done } => r matches Ok(ItemCall::Put {
                uid: u,
                url,
                body,
                etag,
            }) && u is None && url@ == todo.url && etag.deep_view() == Some(todo.etag) && (
            exists|now: Seq<char>| #[trigger]
                outside::moment_text(now, 0) && body@ == ical::patched(
                    todo.lines,
                    text,
                    done,
                    now,
                )),
            ItemRequestView::Create { text, done } => match outside::joined_url(
                target@,
                calendar_name(uid@),
            ) {
                Ok(a) => r matches Ok(ItemCall::Put { uid: u, url, body, etag }) && u.deep_view()
                    == Some(uid@) && url@ == a && etag is None && (exists|now: Seq<char>|
                    #[trigger]
                    outside::moment_text(now, 0) && body@ == ical::crlf_text(
                        ical::new_lines(uid@, text, done, now),
                    )),
                Err(e) => r matches Err(x) && x@ == e,
            },
            ItemRequestView::Delete { url, etag } => r matches Ok(ItemCall::Remove {
                url: u,
                etag: t,
            }) && u@ == url && t@ == etag,
        },
{
    let mut name = uid.clone();
    name.append(".ics");
    let address = outside::join_url(target, name.as_str());
    let now = outside::utc_now("%Y%m%dT%H%M%SZ");
    icloud_item_call_at(request, uid, address, now.as_str())
}

/// What an answer of Google's server to a request comes to, given what the
/// address of a new item was read as.
pub open spec fn item_answer(
    request: ItemRequestView,
    answer: Result<JsonView, Seq<char>>,
    url: Result<Seq<char>, Seq<char>>,
) -> Result<ItemReplyView, Seq<char>> {
    match (request, answer) {
        (ItemRequestView::Update { todo, text, done }, Ok(j)) => Ok(
            ItemReplyView::Updated { etag: json::text_or_empty(j, "etag"@) },
        ),
        (ItemRequestView::Create { text, done }, Ok(j)) => match google::created_task_of(j, url) {
            Ok((uid, at, etag)) => Ok(ItemReplyView::Created { uid, url: at, etag }),
            Err(e) => Err(e),
        },
        (ItemRequestView::Delete { url: at, etag }, Ok(j)) => Ok(ItemReplyView::Deleted),
        (ItemRequestView::Delete { url: at, etag }, Err(e)) => if text::contains(
            e,
            "HTTP 404"@,
        ) {
            Ok(ItemReplyView::Deleted)
        } else {
            Err(e)
        },
        (_, Ok(j)) => Ok(ItemReplyView::Nothing),
        (_, Err(e)) => Err(e),
    }
}

/// A result over answers, as plain values.
pub open spec fn item_reply_view(r: Result<ItemReply, String>) -> Result<
    ItemReplyView,
    Seq<char>,
> {
    match r {
        Ok(x) => Ok(x.deep_view()),
        Err(e) => Err(e@),
    }
}

/// The address of the item that an answer speaks of.
pub open spec fn answered_address(target: Seq<char>, answer: Result<JsonView, Seq<char>>) -> Seq<
    char,
> {
    match answer {
        Ok(j) => caldav::without_slashes(target) + "/"@ + json::text_or_empty(j, "id"@),
        Err(e) => Seq::empty(),
    }
}

/// What an answer of Google's server to a request comes to.
pub fn google_item_reply(
    request: &ItemRequest,
    target: &str,
    answer: Result<Json, String>,
) -> (r: Result<ItemReply, String>)
    ensures
        item_reply_view(r) == item_answer(
            request.deep_view(),
            json::result_view(answer),
            outside::parsed_url(answered_address(target@, json::result_view(answer))),
        ),
{
    match request {
        ItemRequest::Nothing => match answer {
            Ok(_) => Ok(ItemReply::Nothing),
            Err(e) => Err(e),
        },
        ItemRequest::Update { todo, text, done } => match answer {
            Ok(j) => Ok(ItemReply::Updated { etag: google::etag_of(&j) }),
            Err(e) => Err(e),
        },
        ItemRequest::Create { text, done } => match answer {
            Ok(j) => match google::google_create(target, &j) {
                Ok((uid, url, etag)) => Ok(ItemReply::Created { uid, url, etag }),
                Err(e) => Err(e),
            },
            Err(e) => Err(e),
        },
        ItemRequest::Delete { url, etag } => {
            let gone = match answer {
                Ok(_) => Ok(()),
                Err(e) => Err(e),
            };
            match google::google_delete(gone) {
                Ok(_) => Ok(ItemReply::Deleted),
                Err(e) => Err(e),
            }
        },
    }
}

/// What a written calendar comes to: a new item, or a changed one.
pub fn put_reply(uid: Option<String>, url: String, etag: String) -> (r: ItemReply)
    ensures
        r.deep_view() == match uid.deep_view() {
            Some(u) => ItemReplyView::Created { uid: u, url: url@, etag: etag@ },
            None => ItemReplyView::Updated { etag: etag@ },
        },
{
    match uid {
        Some(uid) => ItemReply::Created { uid, url, etag },
        None => ItemReply::Updated { etag },
    }
}

} // verus!
