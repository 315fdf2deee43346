//! The Google Tasks server: what is asked of it, and what its answers say.
use vstd::prelude::*;

use crate::caldav;
use crate::json;
use crate::json::{Json, JsonView};
use crate::map::OrdMap;
use crate::outside;
use crate::remote::{RemoteList, RemoteListView, RemoteTodo, RemoteTodoView};
use crate::run;
use crate::run::Service;
use crate::text;

verus! {

// ── Replies ───────────────────────────────────────────────────────────────

/// What a call's failure is called: the method, the URL, and what went wrong.
pub open spec fn call_failure(method: Seq<char>, url: Seq<char>, what: Seq<char>) -> Seq<char> {
    method + " "@ + url + ": "@ + what
}

/// What a call's failure is called.
pub fn call_failed(method: &str, url: &str, what: &str) -> (r: String)
    ensures
        r@ == call_failure(method@, url@, what@),
{
    let mut s = method.to_string();
    s.append(" ");
    s.append(url);
    s.append(": ");
    s.append(what);
    s
}

/// What a reply comes to, given its status code, the code with its words, its
/// text, and what the text was read as. One without a text is nothing.
pub open spec fn reply_of(
    method: Seq<char>,
    url: Seq<char>,
    code: u16,
    status: Seq<char>,
    body: Seq<char>,
    parsed: Result<JsonView, Seq<char>>,
) -> Result<JsonView, Seq<char>> {
    if code == 204 {
        Ok(JsonView::Null)
    } else if !caldav::success(code) {
        Err(call_failure(method, url, "HTTP "@ + status + " "@ + body))
    } else if text::trim(body).len() == 0 {
        Ok(JsonView::Null)
    } else {
        match parsed {
            Ok(j) => Ok(j),
            Err(e) => Err(call_failure(method, url, "bad JSON: "@ + e)),
        }
    }
}

/// Whether a reply has a text to be read.
fn has_json(code: u16, body: &str) -> (r: bool)
    ensures
        r == (code != 204 && caldav::success(code) && text::trim(body@).len() > 0),
{
    code != 204 && 200 <= code && code < 300 && !text::trimmed_string(body).as_str().is_empty()
}

/// What a reply comes to, given its status code, the code with its words, its
/// text, and what the text was read as.
pub fn google_call_with(
    method: &str,
    url: &str,
    code: u16,
    status: &str,
    body: &str,
    parsed: Result<Json, String>,
) -> (r: Result<Json, String>)
    ensures
        json::result_view(r) == reply_of(
            method@,
            url@,
            code,
            status@,
            body@,
            json::result_view(parsed),
        ),
{
    if has_json(code, body) {
        match parsed {
            Ok(j) => Ok(j),
            Err(e) => {
                let mut what = "bad JSON: ".to_string();
                what.append(e.as_str());
                Err(call_failed(method, url, what.as_str()))
            },
        }
    } else if 200 <= code && code < 300 {
        Ok(Json::Null)
    } else {
        let mut what = "HTTP ".to_string();
        what.append(status);
        what.append(" ");
        what.append(body);
        Err(call_failed(method, url, what.as_str()))
    }
}

/// What a reply comes to, given its status code, the code with its words, and
/// its text.
pub fn google_call(method: &str, url: &str, code: u16, status: &str, body: &str) -> (r: Result<
    Json,
    String,
>)
    ensures
        json::result_view(r) == reply_of(
            method@,
            url@,
            code,
            status@,
            body@,
            outside::parsed_json(body@),
        ),
{
    let parsed = if has_json(code, body) {
        outside::parse_json(body)
    } else {
        Ok(Json::Null)
    };
    google_call_with(method, url, code, status, body, parsed)
}

/// The access token in the reply to a refresh, given what the reply was read
/// as. A refused refresh means that the refresh token was revoked, or given
/// before tasks were asked for; a new sign-in mends both.
pub open spec fn token_in(
    code: u16,
    status: Seq<char>,
    body: Seq<char>,
    parsed: Result<JsonView, Seq<char>>,
) -> Result<Seq<char>, Seq<char>> {
    match parsed {
        Err(e) => Err("token refresh: "@ + e),
        Ok(j) => if !caldav::success(code) {
            Err("token refresh: HTTP "@ + status + " "@ + body)
        } else {
            match json::text_field(j, "access_token"@) {
                Some(token) => Ok(token),
                None => Err("token refresh: no access_token in response"@),
            }
        },
    }
}

/// The access token in the reply to a refresh, given what the reply was read
/// as.
pub fn google_access_token_with(
    code: u16,
    status: &str,
    body: &str,
    parsed: Result<Json, String>,
) -> (r: Result<String, String>)
    ensures
        outside::as_texts(r) == token_in(code, status@, body@, json::result_view(parsed)),
{
    let j = match parsed {
        Ok(j) => j,
        Err(e) => {
            let mut s = "token refresh: ".to_string();
            s.append(e.as_str());
            return Err(s);
        },
    };
    if !(200 <= code && code < 300) {
        let mut s = "token refresh: HTTP ".to_string();
        s.append(status);
        s.append(" ");
        s.append(body);
        return Err(s);
    }
    match json::get_text(&j, "access_token") {
        Some(token) => Ok(token),
        None => Err("token refresh: no access_token in response".to_string()),
    }
}

/// The access token in the reply to a refresh.
pub fn google_access_token(code: u16, status: &str, body: &str) -> (r: Result<String, String>)
    ensures
        outside::as_texts(r) == token_in(code, status@, body@, outside::parsed_json(body@)),
{
    google_access_token_with(code, status, body, outside::parse_json(body))
}

// ── Addresses ─────────────────────────────────────────────────────────────

/// The address of the lists.
pub open spec fn lists_address() -> Seq<char> {
    run::tasks_api() + "/users/@me/lists"@
}

/// The address of the lists.
pub fn google_lists_url() -> (r: String)
    ensures
        r@ == lists_address(),
{
    let mut s = "https://tasks.googleapis.com/tasks/v1".to_string();
    s.append("/users/@me/lists");
    s
}

/// The address of a list.
pub fn google_list_url(id: &str) -> (r: String)
    ensures
        r@ == lists_address() + "/"@ + id@,
{
    let mut s = google_lists_url();
    s.append("/");
    s.append(id);
    s
}

/// What is asked for with a page of items: items that are done and hidden
/// too, and from the second page on where to go on.
pub open spec fn page_query_of(token: Seq<char>) -> Seq<(Seq<char>, Seq<char>)> {
    let all = seq![
        ("showCompleted"@, "true"@),
        ("showHidden"@, "true"@),
        ("maxResults"@, "100"@),
        ("fields"@, "nextPageToken,items(id,title,status,etag,deleted)"@),
    ];
    if token.len() > 0 {
        all.push(("pageToken"@, token))
    } else {
        all
    }
}

/// What is asked for with a page of items. `token` is where to go on, and
/// empty for the first page.
pub fn page_query(token: &str) -> (r: Vec<(String, String)>)
    ensures
        r.deep_view() == page_query_of(token@),
{
    let mut q: Vec<(String, String)> = Vec::new();
    q.push(("showCompleted".to_string(), "true".to_string()));
    q.push(("showHidden".to_string(), "true".to_string()));
    q.push(("maxResults".to_string(), "100".to_string()));
    q.push(
        (
            "fields".to_string(),
            "nextPageToken,items(id,title,status,etag,deleted)".to_string(),
        ),
    );
    if !token.is_empty() {
        q.push(("pageToken".to_string(), token.to_string()));
    }
    assert(q.deep_view() =~= page_query_of(token@));
    q
}

/// What is asked for with a page of the lists, and from the second page on
/// where to go on.
pub open spec fn lists_query_of(token: Seq<char>) -> Seq<(Seq<char>, Seq<char>)> {
    let all = seq![("maxResults"@, "100"@)];
    if token.len() > 0 {
        all.push(("pageToken"@, token))
    } else {
        all
    }
}

/// What is asked for with a page of the lists. `token` is where to go on, and
/// empty for the first page.
pub fn lists_query(token: &str) -> (r: Vec<(String, String)>)
    ensures
        r.deep_view() == lists_query_of(token@),
{
    let mut q: Vec<(String, String)> = Vec::new();
    q.push(("maxResults".to_string(), "100".to_string()));
    if !token.is_empty() {
        q.push(("pageToken".to_string(), token.to_string()));
    }
    assert(q.deep_view() =~= lists_query_of(token@));
    q
}

/// Where the next page goes on, if there is one.
pub open spec fn next_token(page: JsonView) -> Option<Seq<char>> {
    match json::text_field(page, "nextPageToken"@) {
        Some(t) => if t.len() > 0 {
            Some(t)
        } else {
            None
        },
        None => None,
    }
}

/// Where the next page goes on, if there is one.
pub fn next_page(page: &Json) -> (r: Option<String>)
    ensures
        r.deep_view() == next_token(page.deep_view()),
{
    match json::get_text(page, "nextPageToken") {
        Some(t) => if t.as_str().is_empty() {
            None
        } else {
            Some(t)
        },
        None => None,
    }
}

// ── Lists ─────────────────────────────────────────────────────────────────

/// A list of an answer, given what the address of its items was read as, and
/// the title that it has where the answer has none.
pub open spec fn list_in(
    l: JsonView,
    untitled: Seq<char>,
    target: Result<Seq<char>, Seq<char>>,
) -> Result<RemoteListView, Seq<char>> {
    match target {
        Ok(create_target) => Ok(
            RemoteListView {
                title: match json::text_field(l, "title"@) {
                    Some(t) => t,
                    None => untitled,
                },
                etag: json::text_or_empty(l, "etag"@),
                create_target,
            },
        ),
        Err(e) => Err(e),
    }
}

/// A result over lists, as plain values.
pub open spec fn list_view(r: Result<RemoteList, String>) -> Result<RemoteListView, Seq<char>> {
    match r {
        Ok(l) => Ok(l.deep_view()),
        Err(e) => Err(e@),
    }
}

/// A list of an answer, given what the address of its items was read as.
pub fn read_list(l: &Json, untitled: &str, target: Result<String, String>) -> (r: Result<
    RemoteList,
    String,
>)
    ensures
        list_view(r) == list_in(l.deep_view(), untitled@, outside::as_texts(target)),
{
    match target {
        Ok(create_target) => {
            let title = match json::get_text(l, "title") {
                Some(t) => t,
                None => untitled.to_string(),
            };
            Ok(RemoteList { title, etag: json::get_text_or_empty(l, "etag"), create_target })
        },
        Err(e) => Err(e),
    }
}

/// The lists among the first `n` of an answer, or the first error. One without
/// an identity is passed over.
pub open spec fn lists_upto(items: Seq<JsonView>, n: int) -> Result<
    Map<Seq<char>, RemoteListView>,
    Seq<char>,
>
    decreases n,
{
    if n <= 0 {
        Ok(Map::empty())
    } else {
        match lists_upto(items, n - 1) {
            Err(e) => Err(e),
            Ok(before) => match json::text_field(items[n - 1], "id"@) {
                None => Ok(before),
                Some(id) => match list_in(
                    items[n - 1],
                    "Untitled"@,
                    outside::parsed_url(run::target_text(Service::Google, id)),
                ) {
                    Err(e) => Err(e),
                    Ok(list) => Ok(before.insert(id, list)),
                },
            },
        }
    }
}

proof fn lemma_list_error_stays(items: Seq<JsonView>, i: int, n: int)
    requires
        0 <= i <= n,
        lists_upto(items, i) is Err,
    ensures
        lists_upto(items, n) == lists_upto(items, i),
    decreases n - i,
{
    if i < n {
        lemma_list_error_stays(items, i, n - 1);
    }
}

/// The lists in an answer, by their identities, or the first error.
pub open spec fn lists_in(page: JsonView) -> Result<Map<Seq<char>, RemoteListView>, Seq<char>> {
    let items = json::elements(page, "items"@);
    lists_upto(items, items.len() as int)
}

/// The lists in an answer, by their identities.
pub fn google_lists(page: &Json) -> (r: Result<OrdMap<RemoteList>, String>)
    ensures
        match r {
            Ok(m) => lists_in(page.deep_view()) == Ok::<
                Map<Seq<char>, RemoteListView>,
                Seq<char>,
            >(m@),
            Err(e) => lists_in(page.deep_view()) == Err::<
                Map<Seq<char>, RemoteListView>,
                Seq<char>,
            >(e@),
        },
{
    let mut out: OrdMap<RemoteList> = OrdMap::new();
    if let Some(items) = json::get_array(page, "items") {
        let ghost all = items.deep_view();
        let n: usize = items.len();
        let mut i: usize = 0;
        while i < n
            invariant
                n == items@.len(),
                i <= n,
                all == items.deep_view(),
                json::elements(page.deep_view(), "items"@) == all,
                lists_upto(all, i as int) == Ok::<
                    Map<Seq<char>, RemoteListView>,
                    Seq<char>,
                >(out@),
            decreases n - i,
        {
            assert(all[i as int] == items@[i as int].deep_view());
            if let Some(id) = json::get_text(&items[i], "id") {
                let address = run::target_address(Service::Google, id.as_str());
                let target = outside::parse_url(address.as_str());
                match read_list(&items[i], "Untitled", target) {
                    Ok(list) => {
                        out.insert(id, list);
                    },
                    Err(e) => {
                        proof {
                            assert(lists_upto(all, i + 1) is Err);
                            lemma_list_error_stays(all, i + 1, n as int);
                        }
                        return Err(e);
                    },
                }
            }
            i = i + 1;
        }
    }
    Ok(out)
}

/// The lists in all pages of an answer, by their identities, or the first
/// error.
pub open spec fn lists_in_all(pages: Seq<JsonView>) -> Result<
    Map<Seq<char>, RemoteListView>,
    Seq<char>,
>
    decreases pages.len(),
{
    if pages.len() == 0 {
        Ok(Map::empty())
    } else {
        match (lists_in_all(pages.drop_last()), lists_in(pages.last())) {
            (Err(e), _) => Err(e),
            (Ok(_), Err(e)) => Err(e),
            (Ok(before), Ok(found)) => Ok(before.union_prefer_right(found)),
        }
    }
}

/// Adds the lists of a page to those that were found on the pages before it,
/// and says where the next page goes on, if there is one.
pub fn add_list_page(lists: &mut OrdMap<RemoteList>, page: &Json) -> (r: Result<
    Option<String>,
    String,
>)
    ensures
        match r {
            Ok(next) => {
                &&& lists_in(page.deep_view()) is Ok
                &&& final(lists)@ == old(lists)@.union_prefer_right(lists_in(page.deep_view())->Ok_0)
                &&& next.deep_view() == next_token(page.deep_view())
            },
            Err(e) => {
                &&& lists_in(page.deep_view()) == Err::<
                    Map<Seq<char>, RemoteListView>,
                    Seq<char>,
                >(e@)
                &&& final(lists)@ == old(lists)@
            },
        },
{
    let found = match google_lists(page) {
        Ok(m) => m,
        Err(e) => {
            return Err(e);
        },
    };
    let ghost was = lists@;
    let ghost ids = found.keys();
    proof {
        use_type_invariant(&found);
        found.lemma_entries();
    }
    let n: usize = found.len();
    for i in 0..n
        invariant
            n == ids.len(),
            ids == found.keys(),
            ids.len() == found.values().len(),
            forall|j: int|
                0 <= j < ids.len() ==> found@.contains_key(#[trigger] ids[j]) && found@[ids[j]]
                    == found.values()[j],
            forall|u: Seq<char>| #[trigger]
                lists@.contains_key(u) == (was.contains_key(u) || ids.take(i as int).contains(u)),
            forall|u: Seq<char>| #[trigger]
                lists@.contains_key(u) ==> lists@[u] == if ids.take(i as int).contains(u) {
                    found@[u]
                } else {
                    was[u]
                },
    {
        let ghost now = ids.take(i + 1);
        proof {
            assert(found@[ids[i as int]] == found.values()[i as int]);
            assert(now =~= ids.take(i as int).push(ids[i as int]));
            assert forall|u: Seq<char>| now.contains(u) == (ids.take(i as int).contains(u) || u
                == ids[i as int]) by {
                if ids.take(i as int).contains(u) {
                    let j = choose|j: int| 0 <= j < i && ids.take(i as int)[j] == u;
                    assert(now[j] == u);
                }
                assert(now[i as int] == ids[i as int]);
            }
        }
        lists.insert(found.key_at(i).clone(), found.value_at(i).clone());
    }
    proof {
        assert(ids.take(n as int) =~= ids);
        assert forall|u: Seq<char>| ids.contains(u) == found@.contains_key(u) by {
            assert(ids.to_set().contains(u) == ids.contains(u));
        }
        assert(lists@ =~= was.union_prefer_right(found@));
    }
    Ok(next_page(page))
}

/// An element of an answer is a list with an identity, and reads as one.
pub open spec fn reads_as_list(item: JsonView, id: Seq<char>, list: RemoteListView) -> bool {
    json::text_field(item, "id"@) == Some(id) && list_in(
        item,
        "Untitled"@,
        outside::parsed_url(run::target_text(Service::Google, id)),
    ) == Ok::<RemoteListView, Seq<char>>(list)
}

proof fn lemma_lists_upto(items: Seq<JsonView>, n: int, k: int, id: Seq<char>)
    requires
        0 <= k < n <= items.len(),
        lists_upto(items, n) is Ok,
        json::text_field(items[k], "id"@) == Some(id),
    ensures
        lists_upto(items, n)->Ok_0.contains_key(id),
    decreases n,
{
    if k < n - 1 {
        lemma_lists_upto(items, n - 1, k, id);
    }
}

proof fn lemma_lists_from(items: Seq<JsonView>, n: int, id: Seq<char>) -> (k: int)
    requires
        0 <= n <= items.len(),
        lists_upto(items, n) is Ok,
        lists_upto(items, n)->Ok_0.contains_key(id),
    ensures
        0 <= k < n,
        reads_as_list(items[k], id, lists_upto(items, n)->Ok_0[id]),
    decreases n,
{
    if n == 0 {
        0
    } else if json::text_field(items[n - 1], "id"@) == Some(id) {
        n - 1
    } else {
        lemma_lists_from(items, n - 1, id)
    }
}

/// Every list of every page of an answer is found: each element with an
/// identity, on whichever page it stands.
pub proof fn law_every_list_is_found(pages: Seq<JsonView>, p: int, k: int, id: Seq<char>)
    requires
        lists_in_all(pages) is Ok,
        0 <= p < pages.len(),
        0 <= k < json::elements(pages[p], "items"@).len(),
        json::text_field(json::elements(pages[p], "items"@)[k], "id"@) == Some(id),
    ensures
        lists_in_all(pages)->Ok_0.contains_key(id),
    decreases pages.len(),
{
    if p < pages.len() - 1 {
        law_every_list_is_found(pages.drop_last(), p, k, id);
    } else {
        let items = json::elements(pages[p], "items"@);
        lemma_lists_upto(items, items.len() as int, k, id);
    }
}

/// What is found is on one of the pages, and as it stands there.
pub proof fn law_found_list_is_there(pages: Seq<JsonView>, id: Seq<char>)
    requires
        lists_in_all(pages) is Ok,
        lists_in_all(pages)->Ok_0.contains_key(id),
    ensures
        exists|p: int, k: int|
            0 <= p < pages.len() && 0 <= k < json::elements(pages[p], "items"@).len()
                && reads_as_list(
                #[trigger] json::elements(pages[p], "items"@)[k],
                id,
                lists_in_all(pages)->Ok_0[id],
            ),
    decreases pages.len(),
{
    if pages.len() > 0 {
        let rest = pages.drop_last();
        let last = pages.len() - 1;
        let items = json::elements(pages[last], "items"@);
        if lists_in(pages.last())->Ok_0.contains_key(id) {
            let k = lemma_lists_from(items, items.len() as int, id);
            assert(reads_as_list(
                json::elements(pages[last], "items"@)[k],
                id,
                lists_in_all(pages)->Ok_0[id],
            ));
        } else {
            law_found_list_is_there(rest, id);
            let (p, k) = choose|p: int, k: int|
                0 <= p < rest.len() && 0 <= k < json::elements(rest[p], "items"@).len()
                    && reads_as_list(
                    #[trigger] json::elements(rest[p], "items"@)[k],
                    id,
                    lists_in_all(rest)->Ok_0[id],
                );
            assert(rest[p] == pages[p]);
            assert(reads_as_list(
                json::elements(pages[p], "items"@)[k],
                id,
                lists_in_all(pages)->Ok_0[id],
            ));
        }
    }
}

/// What creating or renaming a list sends: its title, and nothing else.
pub open spec fn is_list_body(j: JsonView, title: Seq<char>) -> bool {
    &&& json::keys(j) == seq!["title"@]
    &&& json::text_field(j, "title"@) == Some(title)
}

/// What creating or renaming a list sends.
pub fn list_body(title: &str) -> (r: Json)
    ensures
        is_list_body(r.deep_view(), title@),
{
    let mut fields: Vec<(String, Json)> = Vec::new();
    fields.push(("title".to_string(), Json::Text(title.to_string())));
    let j = Json::Object(fields);
    proof {
        reveal_with_fuel(json::json_view, 2);
    }
    assert(json::keys(j.deep_view()) =~= seq!["title"@]);
    j
}

/// What was created, given the answer and what the address of the new list's
/// items was read as.
pub open spec fn created_list_of(
    title: Seq<char>,
    answer: JsonView,
    target: Result<Seq<char>, Seq<char>>,
) -> Result<(Seq<char>, RemoteListView), Seq<char>> {
    match json::text_field(answer, "id"@) {
        None => Err("created list has no id"@),
        Some(id) => match list_in(answer, title, target) {
            Ok(list) => Ok((id, list)),
            Err(e) => Err(e),
        },
    }
}

/// A result over new lists, as plain values.
pub open spec fn created_view(r: Result<(String, RemoteList), String>) -> Result<
    (Seq<char>, RemoteListView),
    Seq<char>,
> {
    match r {
        Ok(l) => Ok((l.0@, l.1.deep_view())),
        Err(e) => Err(e@),
    }
}

/// What was created, given the answer and what the address of the new list's
/// items was read as.
pub fn list_created_with(title: &str, answer: &Json, target: Result<String, String>) -> (r: Result<
    (String, RemoteList),
    String,
>)
    ensures
        created_view(r) == created_list_of(title@, answer.deep_view(), outside::as_texts(target)),
{
    match json::get_text(answer, "id") {
        None => Err("created list has no id".to_string()),
        Some(id) => match read_list(answer, title, target) {
            Ok(list) => Ok((id, list)),
            Err(e) => Err(e),
        },
    }
}

/// The identity and the list that were created, given the answer.
pub fn google_list_create(title: &str, answer: &Json) -> (r: Result<(String, RemoteList), String>)
    ensures
        created_view(r) == created_list_of(
            title@,
            answer.deep_view(),
            outside::parsed_url(
                run::target_text(Service::Google, json::text_or_empty(answer.deep_view(), "id"@)),
            ),
        ),
{
    let id = json::get_text_or_empty(answer, "id");
    let target = outside::parse_url(
        run::target_address(Service::Google, id.as_str()).as_str(),
    );
    list_created_with(title, answer, target)
}

/// The version tag in an answer.
pub fn etag_of(answer: &Json) -> (r: String)
    ensures
        r@ == json::text_or_empty(answer.deep_view(), "etag"@),
{
    json::get_text_or_empty(answer, "etag")
}

/// What is made of the reply to a deletion: what is gone already counts as
/// deleted.
pub fn google_delete(reply: Result<(), String>) -> (r: Result<(), String>)
    ensures
        match reply {
            Ok(_) => r is Ok,
            Err(e) => if text::contains(e@, "HTTP 404"@) {
                r is Ok
            } else {
                r == Err::<(), String>(e)
            },
        },
{
    match reply {
        Ok(_) => Ok(()),
        Err(e) => if text::holds(e.as_str(), "HTTP 404") {
            Ok(())
        } else {
            Err(e)
        },
    }
}

// ── Items ─────────────────────────────────────────────────────────────────

/// An item of an answer that is synced: its identity and its title. One that
/// is deleted, that has no identity, or that has a blank title is passed over:
/// blank ones are made freely, and there is nothing in them to remember.
pub open spec fn task_in(t: JsonView) -> Option<(Seq<char>, Seq<char>)> {
    let title = text::trim(json::text_or_empty(t, "title"@));
    match json::text_field(t, "id"@) {
        Some(id) => if json::true_field(t, "deleted"@) || title.len() == 0 {
            None
        } else {
            Some((id, title))
        },
        None => None,
    }
}

/// An item of an answer that is synced: its identity and its title.
pub fn read_task(t: &Json) -> (r: Option<(String, String)>)
    ensures
        r.deep_view() == task_in(t.deep_view()),
{
    if json::is_true(t, "deleted") {
        return None;
    }
    let id = match json::get_text(t, "id") {
        Some(id) => id,
        None => {
            return None;
        },
    };
    let title = text::trimmed_string(json::get_text_or_empty(t, "title").as_str());
    if title.as_str().is_empty() {
        return None;
    }
    Some((id, title))
}

/// The item that an answer speaks of, with a URL and in a list.
pub open spec fn todo_in(
    t: JsonView,
    title: Seq<char>,
    url: Seq<char>,
    list: Seq<char>,
) -> RemoteTodoView {
    RemoteTodoView {
        url,
        etag: json::text_or_empty(t, "etag"@),
        summary: title,
        done: json::text_field(t, "status"@) == Some("completed"@),
        lines: Seq::empty(),
        list,
    }
}

/// The item that an answer speaks of, with a URL and in a list.
pub fn read_todo(t: &Json, title: String, url: String, list: &str) -> (r: RemoteTodo)
    ensures
        r.deep_view() == todo_in(t.deep_view(), title@, url@, list@),
{
    let done = text::is_text(&json::get_text(t, "status"), "completed");
    let lines: Vec<String> = Vec::new();
    assert(lines.deep_view() =~= Seq::empty());
    RemoteTodo {
        url,
        etag: json::get_text_or_empty(t, "etag"),
        summary: title,
        done,
        lines,
        list: list.to_string(),
    }
}

/// The items among the first `n` of an answer, or the first error. `base` is
/// the address of the list's items.
pub open spec fn tasks_upto(
    items: Seq<JsonView>,
    base: Seq<char>,
    list: Seq<char>,
    n: int,
) -> Result<Seq<(Seq<char>, RemoteTodoView)>, Seq<char>>
    decreases n,
{
    if n <= 0 {
        Ok(Seq::empty())
    } else {
        match tasks_upto(items, base, list, n - 1) {
            Err(e) => Err(e),
            Ok(before) => match task_in(items[n - 1]) {
                None => Ok(before),
                Some((id, title)) => match outside::parsed_url(base + "/"@ + id) {
                    Err(e) => Err(e),
                    Ok(url) => Ok(before.push((id, todo_in(items[n - 1], title, url, list)))),
                },
            },
        }
    }
}

proof fn lemma_task_error_stays(
    items: Seq<JsonView>,
    base: Seq<char>,
    list: Seq<char>,
    i: int,
    n: int,
)
    requires
        0 <= i <= n,
        tasks_upto(items, base, list, i) is Err,
    ensures
        tasks_upto(items, base, list, n) == tasks_upto(items, base, list, i),
    decreases n - i,
{
    if i < n {
        lemma_task_error_stays(items, base, list, i, n - 1);
    }
}

/// An address with a name below it.
fn under(base: &str, name: &str) -> (r: String)
    ensures
        r@ == base@ + "/"@ + name@,
{
    let mut s = base.to_string();
    s.append("/");
    s.append(name);
    s
}

/// The items on a page of a list's items, with their identities, or the first
/// error.
pub open spec fn tasks_in(page: JsonView, base: Seq<char>, list: Seq<char>) -> Result<
    Seq<(Seq<char>, RemoteTodoView)>,
    Seq<char>,
> {
    let items = json::elements(page, "items"@);
    tasks_upto(items, base, list, items.len() as int)
}

/// The items on a page of a list's items, with their identities.
pub fn google_tasks(page: &Json, base: &str, list: &str) -> (r: Result<
    Vec<(String, RemoteTodo)>,
    String,
>)
    ensures
        match r {
            Ok(v) => tasks_in(page.deep_view(), base@, list@) == Ok::<
                Seq<(Seq<char>, RemoteTodoView)>,
                Seq<char>,
            >(v.deep_view()),
            Err(e) => tasks_in(page.deep_view(), base@, list@) == Err::<
                Seq<(Seq<char>, RemoteTodoView)>,
                Seq<char>,
            >(e@),
        },
{
    let mut out: Vec<(String, RemoteTodo)> = Vec::new();
    assert(out.deep_view() =~= Seq::empty());
    if let Some(items) = json::get_array(page, "items") {
        let ghost all = items.deep_view();
        let n: usize = items.len();
        let mut i: usize = 0;
        while i < n
            invariant
                n == items@.len(),
                i <= n,
                all == items.deep_view(),
                json::elements(page.deep_view(), "items"@) == all,
                tasks_upto(all, base@, list@, i as int) == Ok::<
                    Seq<(Seq<char>, RemoteTodoView)>,
                    Seq<char>,
                >(out.deep_view()),
            decreases n - i,
        {
            let ghost had = out.deep_view();
            assert(all[i as int] == items@[i as int].deep_view());
            if let Some((id, title)) = read_task(&items[i]) {
                match outside::parse_url(under(base, id.as_str()).as_str()) {
                    Ok(url) => {
                        let todo = read_todo(&items[i], title, url, list);
                        let ghost entry = (id@, todo.deep_view());
                        out.push((id, todo));
                        assert(out.deep_view() =~= had.push(entry));
                    },
                    Err(e) => {
                        proof {
                            assert(tasks_upto(all, base@, list@, i + 1) is Err);
                            lemma_task_error_stays(all, base@, list@, i + 1, n as int);
                        }
                        return Err(e);
                    },
                }
            }
            i = i + 1;
        }
    }
    Ok(out)
}

/// Adds the items of a page to those that were found before it, and says where
/// the next page goes on, if there is one.
pub fn add_task_page(
    todos: &mut OrdMap<RemoteTodo>,
    page: &Json,
    base: &str,
    list: &str,
) -> (r: Result<Option<String>, String>)
    ensures
        match r {
            Ok(next) => {
                &&& tasks_in(page.deep_view(), base@, list@) is Ok
                &&& final(todos)@ == caldav::with_todos(
                    old(todos)@,
                    tasks_in(page.deep_view(), base@, list@)->Ok_0,
                )
                &&& next.deep_view() == next_token(page.deep_view())
            },
            Err(e) => {
                &&& tasks_in(page.deep_view(), base@, list@) == Err::<
                    Seq<(Seq<char>, RemoteTodoView)>,
                    Seq<char>,
                >(e@)
                &&& final(todos)@ == old(todos)@
            },
        },
{
    match google_tasks(page, base, list) {
        Ok(found) => {
            caldav::add_todos(todos, found.as_slice());
            Ok(next_page(page))
        },
        Err(e) => Err(e),
    }
}

/// A page of a list's items: the answer, the address of the items, and the
/// list.
pub struct TaskPageView {
    pub page: JsonView,
    pub base: Seq<char>,
    pub list: Seq<char>,
}

/// The items on all pages of all lists, by their identities, or the first
/// error.
pub open spec fn tasks_in_all(pages: Seq<TaskPageView>) -> Result<
    Map<Seq<char>, RemoteTodoView>,
    Seq<char>,
>
    decreases pages.len(),
{
    if pages.len() == 0 {
        Ok(Map::empty())
    } else {
        let last = pages.last();
        match (tasks_in_all(pages.drop_last()), tasks_in(last.page, last.base, last.list)) {
            (Err(e), _) => Err(e),
            (Ok(_), Err(e)) => Err(e),
            (Ok(before), Ok(found)) => Ok(caldav::with_todos(before, found)),
        }
    }
}

proof fn lemma_with_todos(
    todos: Map<Seq<char>, RemoteTodoView>,
    found: Seq<(Seq<char>, RemoteTodoView)>,
    id: Seq<char>,
)
    ensures
        caldav::with_todos(todos, found).contains_key(id) == (todos.contains_key(id) || exists|
            i: int,
        | 0 <= i < found.len() && (#[trigger] found[i]).0 == id),
    decreases found.len(),
{
    if found.len() > 0 {
        let rest = found.drop_last();
        lemma_with_todos(todos, rest, id);
        assert forall|i: int| 0 <= i < rest.len() implies #[trigger] rest[i] == found[i] by {}
        assert(found[found.len() - 1] == found.last());
        if exists|i: int| 0 <= i < found.len() && (#[trigger] found[i]).0 == id {
            let i = choose|i: int| 0 <= i < found.len() && (#[trigger] found[i]).0 == id;
            if i < rest.len() {
                assert(rest[i].0 == id);
            }
        }
        if exists|i: int| 0 <= i < rest.len() && (#[trigger] rest[i]).0 == id {
            let i = choose|i: int| 0 <= i < rest.len() && (#[trigger] rest[i]).0 == id;
            assert(found[i].0 == id);
        }
    }
}

proof fn lemma_tasks_upto(
    items: Seq<JsonView>,
    base: Seq<char>,
    list: Seq<char>,
    n: int,
    k: int,
) -> (i: int)
    requires
        0 <= k < n <= items.len(),
        tasks_upto(items, base, list, n) is Ok,
        task_in(items[k]) is Some,
    ensures
        0 <= i < tasks_upto(items, base, list, n)->Ok_0.len(),
        tasks_upto(items, base, list, n)->Ok_0[i].0 == (task_in(items[k])->0).0,
    decreases n,
{
    if k < n - 1 {
        lemma_tasks_upto(items, base, list, n - 1, k)
    } else {
        tasks_upto(items, base, list, n - 1)->Ok_0.len() as int
    }
}

/// Every item of every page of every list is found, but for those that are
/// passed over.
pub proof fn law_every_task_is_found(pages: Seq<TaskPageView>, p: int, k: int)
    requires
        tasks_in_all(pages) is Ok,
        0 <= p < pages.len(),
        0 <= k < json::elements(pages[p].page, "items"@).len(),
        task_in(json::elements(pages[p].page, "items"@)[k]) is Some,
    ensures
        tasks_in_all(pages)->Ok_0.contains_key(
            (task_in(json::elements(pages[p].page, "items"@)[k])->0).0,
        ),
    decreases pages.len(),
{
    let items = json::elements(pages[p].page, "items"@);
    let id = (task_in(items[k])->0).0;
    let rest = pages.drop_last();
    let last = pages.last();
    let found = tasks_in(last.page, last.base, last.list)->Ok_0;
    lemma_with_todos(tasks_in_all(rest)->Ok_0, found, id);
    if p < rest.len() {
        assert(rest[p] == pages[p]);
        law_every_task_is_found(rest, p, k);
    } else {
        let i = lemma_tasks_upto(items, last.base, last.list, items.len() as int, k);
        assert(found[i].0 == id);
    }
}

/// An item's status.
pub open spec fn status_of(done: bool) -> Seq<char> {
    if done {
        "completed"@
    } else {
        "needsAction"@
    }
}

/// What changing an item sends: its title and its status, and nothing else, so
/// that due dates and notes stay. Where it is not done any more the moment of
/// its completion is cleared too, or the status is refused.
pub open spec fn is_update_body(j: JsonView, title: Seq<char>, done: bool) -> bool {
    &&& json::keys(j) == if done {
        seq!["title"@, "status"@]
    } else {
        seq!["title"@, "status"@, "completed"@]
    }
    &&& json::text_field(j, "title"@) == Some(title)
    &&& json::text_field(j, "status"@) == Some(status_of(done))
    &&& !done ==> json::field(j, "completed"@) == Some(JsonView::Null)
}

/// What changing an item sends.
pub fn google_update(title: &str, done: bool) -> (r: Json)
    ensures
        is_update_body(r.deep_view(), title@, done),
{
    let mut fields: Vec<(String, Json)> = Vec::new();
    fields.push(("title".to_string(), Json::Text(title.to_string())));
    if done {
        fields.push(("status".to_string(), Json::Text("completed".to_string())));
    } else {
        fields.push(("status".to_string(), Json::Text("needsAction".to_string())));
        fields.push(("completed".to_string(), Json::Null));
    }
    proof {
        reveal_strlit("title");
        reveal_strlit("status");
        reveal_strlit("completed");
        assert("title"@.len() == 5 && "status"@.len() == 6 && "completed"@.len() == 9);
        reveal_with_fuel(json::field_from, 3);
    }
    let j = Json::Object(fields);
    proof {
        reveal_with_fuel(json::json_view, 2);
    }
    assert(json::keys(j.deep_view()) =~= if done {
        seq!["title"@, "status"@]
    } else {
        seq!["title"@, "status"@, "completed"@]
    });
    j
}

/// What creating an item sends: its title and its status.
pub open spec fn is_task_body(j: JsonView, title: Seq<char>, done: bool) -> bool {
    &&& json::keys(j) == seq!["title"@, "status"@]
    &&& json::text_field(j, "title"@) == Some(title)
    &&& json::text_field(j, "status"@) == Some(status_of(done))
}

/// What creating an item sends.
pub fn task_body(title: &str, done: bool) -> (r: Json)
    ensures
        is_task_body(r.deep_view(), title@, done),
{
    let mut fields: Vec<(String, Json)> = Vec::new();
    fields.push(("title".to_string(), Json::Text(title.to_string())));
    let status = if done {
        "completed".to_string()
    } else {
        "needsAction".to_string()
    };
    fields.push(("status".to_string(), Json::Text(status)));
    proof {
        reveal_strlit("title");
        reveal_strlit("status");
        assert("title"@.len() == 5 && "status"@.len() == 6);
        reveal_with_fuel(json::field_from, 2);
    }
    let j = Json::Object(fields);
    proof {
        reveal_with_fuel(json::json_view, 2);
    }
    assert(json::keys(j.deep_view()) =~= seq!["title"@, "status"@]);
    j
}

/// The identity, the URL and the version tag of a new item, given the answer
/// and what the item's address was read as.
pub open spec fn created_task_of(answer: JsonView, url: Result<Seq<char>, Seq<char>>) -> Result<
    (Seq<char>, Seq<char>, Seq<char>),
    Seq<char>,
> {
    match json::text_field(answer, "id"@) {
        None => Err("created task has no id"@),
        Some(id) => match url {
            Ok(u) => Ok((id, u, json::text_or_empty(answer, "etag"@))),
            Err(e) => Err(e),
        },
    }
}

/// A result over new items, as plain values.
pub open spec fn task_view(r: Result<(String, String, String), String>) -> Result<
    (Seq<char>, Seq<char>, Seq<char>),
    Seq<char>,
> {
    match r {
        Ok(t) => Ok((t.0@, t.1@, t.2@)),
        Err(e) => Err(e@),
    }
}

/// The identity, the URL and the version tag of a new item, given the answer
/// and what the item's address was read as.
pub fn task_created_with(answer: &Json, url: Result<String, String>) -> (r: Result<
    (String, String, String),
    String,
>)
    ensures
        task_view(r) == created_task_of(answer.deep_view(), outside::as_texts(url)),
{
    match json::get_text(answer, "id") {
        None => Err("created task has no id".to_string()),
        Some(id) => match url {
            Ok(u) => Ok((id, u, json::get_text_or_empty(answer, "etag"))),
            Err(e) => Err(e),
        },
    }
}

/// The identity, the URL and the version tag of a new item, given the answer.
/// `target` is where it was created.
pub fn google_create(target: &str, answer: &Json) -> (r: Result<(String, String, String), String>)
    ensures
        task_view(r) == created_task_of(
            answer.deep_view(),
            outside::parsed_url(
                caldav::without_slashes(target@) + "/"@ + json::text_or_empty(
                    answer.deep_view(),
                    "id"@,
                ),
            ),
        ),
{
    let id = json::get_text_or_empty(answer, "id");
    let base = caldav::trim_slashes(target);
    let url = outside::parse_url(under(base.as_str(), id.as_str()).as_str());
    task_created_with(answer, url)
}

/// Everything that is found on a page is in the page's list, and has a title
/// that is trimmed and not blank.
pub proof fn law_found_tasks(
    items: Seq<JsonView>,
    base: Seq<char>,
    list: Seq<char>,
    n: int,
    k: int,
)
    requires
        tasks_upto(items, base, list, n) is Ok,
        0 <= k < tasks_upto(items, base, list, n)->Ok_0.len(),
    ensures
        ({
            let todo = tasks_upto(items, base, list, n)->Ok_0[k].1;
            &&& todo.list == list
            &&& todo.summary.len() > 0
            &&& text::trim(todo.summary) == todo.summary
        }),
    decreases n,
{
    if n > 0 {
        let before = tasks_upto(items, base, list, n - 1)->Ok_0;
        if k < before.len() {
            law_found_tasks(items, base, list, n - 1, k);
        } else {
            let _ = text::lemma_trim(json::text_or_empty(items[n - 1], "title"@));
        }
    }
}

} // verus!
