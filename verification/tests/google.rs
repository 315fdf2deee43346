use cce_list::google::{
    add_list_page, add_task_page, call_failed, etag_of, google_access_token, google_access_token_with, google_call,
    google_call_with, google_create, google_delete, google_list_create, google_list_url,
    google_lists, google_lists_url, google_tasks, google_update, list_body, list_created_with,
    lists_query, next_page, page_query, read_list, read_task, task_body, task_created_with,
};
use cce_list::json::Json;
use cce_list::map::OrdMap;

fn s(v: &str) -> Json {
    Json::Text(v.to_string())
}

fn obj(fields: Vec<(&str, Json)>) -> Json {
    Json::Object(fields.into_iter().map(|(k, v)| (k.to_string(), v)).collect())
}

#[test]
fn replies_are_sorted_out() {
    let ok = |body: &str| google_call("GET", "u", 200, "200 OK", body);
    assert_eq!(ok("{}"), Ok(obj(vec![])));
    assert_eq!(ok(" \n"), Ok(Json::Null));
    assert_eq!(google_call("DELETE", "u", 204, "204 No Content", ""), Ok(Json::Null));
    assert_eq!(
        google_call("GET", "u", 403, "403 Forbidden", "why"),
        Err("GET u: HTTP 403 Forbidden why".to_string())
    );
    let bad = ok("{").unwrap_err();
    assert!(bad.starts_with("GET u: bad JSON: EOF while parsing"), "{bad}");
    assert_eq!(call_failed("GET", "u", "timed out"), "GET u: timed out");
}

#[test]
fn replies_with_what_they_were_read_as() {
    let with = |code: u16, body: &str, parsed| {
        google_call_with("GET", "u", code, "the status", body, parsed)
    };
    assert_eq!(with(200, "x", Ok(Json::Number)), Ok(Json::Number));
    assert_eq!(with(200, "x", Err("eof".into())), Err("GET u: bad JSON: eof".to_string()));
    assert_eq!(with(204, "x", Err("eof".into())), Ok(Json::Null));
    assert_eq!(with(200, "", Err("eof".into())), Ok(Json::Null));
    assert_eq!(with(500, "", Ok(Json::Null)), Err("GET u: HTTP the status ".to_string()));
    assert_eq!(with(199, "b", Ok(Json::Null)), Err("GET u: HTTP the status b".to_string()));
    assert_eq!(with(300, "b", Ok(Json::Null)), Err("GET u: HTTP the status b".to_string()));
}

/// Every kind of value, and values in values.
#[test]
fn json_is_read() {
    let read = |body: &str| google_call("GET", "u", 200, "200 OK", body);
    assert_eq!(read("null"), Ok(Json::Null));
    assert_eq!(read("true"), Ok(Json::Bool(true)));
    assert_eq!(read("1.5e3"), Ok(Json::Number));
    assert_eq!(read(r#""a\u00e9\n\"""#), Ok(s("aé\n\"")));
    assert_eq!(
        read(r#"{"items":[{"id":"1","title":"T \\ \"x\""},7,[false]],"etag":"e"}"#),
        Ok(obj(vec![
            ("etag", s("e")),
            (
                "items",
                Json::Array(vec![
                    obj(vec![("id", s("1")), ("title", s("T \\ \"x\""))]),
                    Json::Number,
                    Json::Array(vec![Json::Bool(false)]),
                ])
            ),
        ]))
    );
}

#[test]
fn tokens_are_taken_from_the_reply() {
    let good = r#"{"access_token":"T","expires_in":3599}"#;
    assert_eq!(google_access_token(200, "200 OK", good), Ok("T".to_string()));
    let refused = r#"{"error":"invalid_grant"}"#;
    assert_eq!(
        google_access_token(400, "400 Bad Request", refused),
        Err("token refresh: HTTP 400 Bad Request {\"error\":\"invalid_grant\"}".to_string())
    );
    for none in [r#"{"access_token":null}"#, "[]"] {
        assert_eq!(
            google_access_token(200, "200 OK", none),
            Err("token refresh: no access_token in response".to_string())
        );
    }
    let body = obj(vec![("access_token", s("T")), ("expires_in", Json::Number)]);
    assert_eq!(google_access_token_with(200, "200 OK", "", Ok(body)), Ok("T".to_string()));
    assert_eq!(
        google_access_token_with(500, "500", "", Err("no JSON".into())),
        Err("token refresh: no JSON".to_string())
    );
}

#[test]
fn addresses() {
    assert_eq!(google_lists_url(), "https://tasks.googleapis.com/tasks/v1/users/@me/lists");
    assert_eq!(google_list_url("A"), "https://tasks.googleapis.com/tasks/v1/users/@me/lists/A");
}

#[test]
fn lists_are_read() {
    let page = obj(vec![(
        "items",
        Json::Array(vec![
            obj(vec![("id", s("A")), ("title", s("Tasks")), ("etag", s("e"))]),
            obj(vec![("title", s("no id"))]),
            obj(vec![("id", s("B"))]),
            Json::Null,
        ]),
    )]);
    let lists = match google_lists(&page) {
        Ok(l) => l,
        Err(e) => panic!("{}", e),
    };
    assert_eq!(lists.len(), 2);
    let a = lists.get("A").unwrap();
    assert_eq!(a.title, "Tasks");
    assert_eq!(a.etag, "e");
    assert_eq!(a.create_target, "https://tasks.googleapis.com/tasks/v1/lists/A/tasks");
    let b = lists.get("B").unwrap();
    assert_eq!(b.title, "Untitled");
    assert_eq!(b.etag, "");
    assert!(matches!(google_lists(&obj(vec![("items", s("none"))])), Ok(l) if l.is_empty()));
    assert!(matches!(google_lists(&Json::Null), Ok(l) if l.is_empty()));
    // The address is normalised by the URL parser.
    let odd = obj(vec![("items", Json::Array(vec![obj(vec![("id", s("a b"))])]))]);
    let lists = match google_lists(&odd) {
        Ok(l) => l,
        Err(e) => panic!("{}", e),
    };
    assert_eq!(
        lists.get("a b").unwrap().create_target,
        "https://tasks.googleapis.com/tasks/v1/lists/a%20b/tasks"
    );
}

#[test]
fn items_are_read() {
    let base = "https://tasks.googleapis.com/tasks/v1/lists/A/tasks";
    let page = obj(vec![
        (
            "items",
            Json::Array(vec![
                obj(vec![("id", s("1")), ("title", s(" buy ")), ("etag", s("e1")), ("status", s("needsAction"))]),
                obj(vec![("id", s("2")), ("title", s("done")), ("status", s("completed"))]),
                obj(vec![("id", s("3")), ("title", s("gone")), ("deleted", Json::Bool(true))]),
                obj(vec![("id", s("4")), ("title", s("  "))]),
                obj(vec![("id", s("5"))]),
                obj(vec![("title", s("no id"))]),
                obj(vec![("id", s("6")), ("title", s("kept")), ("deleted", Json::Bool(false))]),
            ]),
        ),
        ("nextPageToken", s("more")),
    ]);
    let got = match google_tasks(&page, base, "A") {
        Ok(v) => v,
        Err(e) => panic!("{}", e),
    };
    let ids: Vec<&str> = got.iter().map(|(id, _)| id.as_str()).collect();
    assert_eq!(ids, vec!["1", "2", "6"]);
    assert_eq!(got[0].1.summary, "buy");
    assert_eq!(got[0].1.etag, "e1");
    assert_eq!(got[0].1.url, "https://tasks.googleapis.com/tasks/v1/lists/A/tasks/1");
    assert_eq!(got[0].1.list, "A");
    assert!(!got[0].1.done);
    assert!(got[1].1.done);
    assert!(got[1].1.lines.is_empty());
    assert_eq!(next_page(&page).as_deref(), Some("more"));
    assert_eq!(next_page(&obj(vec![("nextPageToken", s(""))])), None);
    assert_eq!(next_page(&Json::Null), None);
    // An address that is no URL ends the reading.
    let e = match google_tasks(&page, "no url", "A") {
        Err(e) => e,
        Ok(_) => panic!("read"),
    };
    assert_eq!(e, "relative URL without a base");
    assert_eq!(read_task(&Json::Number), None);
}

#[test]
fn pages_are_asked_for() {
    let q = page_query("");
    assert_eq!(q.len(), 4);
    assert_eq!(q[0], ("showCompleted".to_string(), "true".to_string()));
    assert_eq!(q[1], ("showHidden".to_string(), "true".to_string()));
    assert_eq!(q[2], ("maxResults".to_string(), "100".to_string()));
    assert_eq!(
        q[3],
        ("fields".to_string(), "nextPageToken,items(id,title,status,etag,deleted)".to_string())
    );
    let q = page_query("p2");
    assert_eq!(q.len(), 5);
    assert_eq!(q[4], ("pageToken".to_string(), "p2".to_string()));
}

#[test]
fn bodies_hold_what_changes_and_no_more() {
    assert_eq!(list_body("T"), obj(vec![("title", s("T"))]));
    assert_eq!(
        google_update("x", true),
        obj(vec![("title", s("x")), ("status", s("completed"))])
    );
    assert_eq!(
        google_update("x", false),
        obj(vec![("title", s("x")), ("status", s("needsAction")), ("completed", Json::Null)])
    );
    assert_eq!(task_body("x", true), obj(vec![("title", s("x")), ("status", s("completed"))]));
    assert_eq!(task_body("x", false), obj(vec![("title", s("x")), ("status", s("needsAction"))]));
}

#[test]
fn created_lists_are_read() {
    let answer = obj(vec![("id", s("N")), ("etag", s("e"))]);
    let (id, list) = match google_list_create("Mine", &answer) {
        Ok(v) => v,
        Err(e) => panic!("{}", e),
    };
    assert_eq!(id, "N");
    assert_eq!(list.title, "Mine");
    assert_eq!(list.etag, "e");
    assert_eq!(list.create_target, "https://tasks.googleapis.com/tasks/v1/lists/N/tasks");
    assert_eq!(
        google_list_create("Mine", &Json::Null).err().as_deref(),
        Some("created list has no id")
    );
    assert_eq!(
        list_created_with("Mine", &answer, Err("bad".into())).err().as_deref(),
        Some("bad")
    );
    let titled = obj(vec![("title", s("Theirs"))]);
    let got = match read_list(&titled, "Mine", Ok("t".into())) {
        Ok(l) => l,
        Err(e) => panic!("{}", e),
    };
    assert_eq!(got.title, "Theirs");
    assert_eq!(etag_of(&answer), "e");
    assert_eq!(etag_of(&Json::Null), "");
}

#[test]
fn created_items_are_read() {
    let answer = obj(vec![("id", s("7")), ("etag", s("e"))]);
    assert_eq!(
        google_create("https://x/lists/A/tasks/", &answer),
        Ok(("7".to_string(), "https://x/lists/A/tasks/7".to_string(), "e".to_string()))
    );
    assert_eq!(
        google_create("https://x/", &Json::Null),
        Err("created task has no id".to_string())
    );
    assert_eq!(
        google_create("not a url", &answer),
        Err("relative URL without a base".to_string())
    );
    assert_eq!(
        task_created_with(&answer, Ok("U".into())),
        Ok(("7".to_string(), "U".to_string(), "e".to_string()))
    );
}

#[test]
fn what_is_gone_counts_as_deleted() {
    assert_eq!(google_delete(Ok(())), Ok(()));
    assert_eq!(google_delete(Err("DELETE u: HTTP 404 Not Found {}".into())), Ok(()));
    assert_eq!(
        google_delete(Err("DELETE u: HTTP 500 x".into())),
        Err("DELETE u: HTTP 500 x".to_string())
    );
}

/// The index of lists may come in pages, and every list of each is found.
#[test]
fn lists_of_all_pages_are_found() {
    let pair = |k: &str, v: &str| (k.to_string(), v.to_string());
    assert_eq!(lists_query(""), vec![pair("maxResults", "100")]);
    assert_eq!(lists_query("P2"), vec![pair("maxResults", "100"), pair("pageToken", "P2")]);
    let list = |id: &str, title: &str| obj(vec![("id", s(id)), ("title", s(title))]);
    let first = obj(vec![
        ("items", Json::Array(vec![list("A", "one"), list("B", "two")])),
        ("nextPageToken", s("P2")),
    ]);
    let second = obj(vec![("items", Json::Array(vec![list("C", "three"), list("B", "later")]))]);
    let mut lists = OrdMap::new();
    assert_eq!(add_list_page(&mut lists, &first), Ok(Some("P2".to_string())));
    assert_eq!(lists.len(), 2);
    assert_eq!(add_list_page(&mut lists, &second), Ok(None));
    let titles: Vec<&str> = (0..lists.len()).map(|i| lists.value_at(i).title.as_str()).collect();
    assert_eq!(titles, vec!["one", "later", "three"]);
    assert_eq!(
        lists.get("C").unwrap().create_target,
        "https://tasks.googleapis.com/tasks/v1/lists/C/tasks"
    );
}

/// The items of a list may come in pages too.
#[test]
fn items_of_all_pages_are_found() {
    let base = "https://tasks.googleapis.com/tasks/v1/lists/A/tasks";
    let task = |id: &str, title: &str| obj(vec![("id", s(id)), ("title", s(title))]);
    let first = obj(vec![
        ("items", Json::Array(vec![task("1", "one"), task("2", " ")])),
        ("nextPageToken", s("P2")),
    ]);
    let second = obj(vec![("items", Json::Array(vec![task("3", "three")]))]);
    let mut todos = OrdMap::new();
    assert_eq!(add_task_page(&mut todos, &first, base, "A"), Ok(Some("P2".to_string())));
    assert_eq!(add_task_page(&mut todos, &second, base, "A"), Ok(None));
    let got: Vec<(&str, &str, &str)> = (0..todos.len())
        .map(|i| {
            let t = todos.value_at(i);
            (todos.key_at(i).as_str(), t.summary.as_str(), t.list.as_str())
        })
        .collect();
    assert_eq!(got, vec![("1", "one", "A"), ("3", "three", "A")]);
    assert_eq!(
        todos.get("3").unwrap().url,
        "https://tasks.googleapis.com/tasks/v1/lists/A/tasks/3"
    );
}
