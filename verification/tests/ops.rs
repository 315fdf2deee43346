use cce_list::google::{google_update, list_body, task_body};
use cce_list::item_tasks::{ItemReply, ItemRequest};
use cce_list::json::Json;
use cce_list::list_tasks::{ListReply, ListTask};
use cce_list::ops::{
    google_item_call, google_item_reply, icloud_item_call, icloud_item_call_at, list_call,
    list_reply, put_reply, ItemCall, ListCall,
};
use cce_list::remote::RemoteTodo;
use cce_list::run::Service;

fn obj(fields: Vec<(&str, &str)>) -> Json {
    Json::Object(
        fields.into_iter().map(|(k, v)| (k.to_string(), Json::Text(v.to_string()))).collect(),
    )
}

fn tasks() -> Vec<ListTask> {
    vec![
        ListTask::Create { title: "T".into(), stale: None },
        ListTask::Rename { id: "A".into(), title: "T".into() },
        ListTask::Delete { id: "A".into() },
    ]
}

#[test]
fn google_lists_are_changed() {
    let base = "https://tasks.googleapis.com/tasks/v1/users/@me/lists";
    let want = [
        ("POST", base.to_string(), Some(list_body("T"))),
        ("PATCH", format!("{base}/A"), Some(list_body("T"))),
        ("DELETE", format!("{base}/A"), None),
    ];
    for (task, (method, url, body)) in tasks().iter().zip(want) {
        match list_call(Service::Google, task) {
            ListCall::Google(c) => {
                assert_eq!(c.method, method);
                assert_eq!(c.url, url);
                assert_eq!(c.body, body);
            }
            _ => panic!("{:?}", task),
        }
    }
    assert!(matches!(
        list_call(Service::Google, &ListTask::AddFile { id: "A".into() }),
        ListCall::Nothing
    ));
}

#[test]
fn icloud_lists_are_only_read() {
    let want = ["create", "rename", "delete"];
    for (task, what) in tasks().iter().zip(want) {
        assert!(
            matches!(list_call(Service::ICloud, task), ListCall::Cannot(e) if e == format!("the iCloud backend cannot {what} lists"))
        );
    }
    assert!(matches!(
        list_call(Service::ICloud, &ListTask::Record { id: "A".into() }),
        ListCall::Nothing
    ));
}

#[test]
fn list_answers_are_read() {
    let ts = tasks();
    assert!(
        matches!(list_reply(&ts[0], Ok(obj(vec![("id", "N"), ("title", "T2"), ("etag", "e")]))), Ok(ListReply::Created { id, list }) if id == "N" && list.title == "T2" && list.etag == "e" && list.create_target == "https://tasks.googleapis.com/tasks/v1/lists/N/tasks")
    );
    assert!(matches!(list_reply(&ts[0], Ok(Json::Null)), Err(e) if e == "created list has no id"));
    assert!(matches!(list_reply(&ts[0], Err("x".into())), Err(e) if e == "x"));
    assert!(
        matches!(list_reply(&ts[1], Ok(obj(vec![("etag", "v")]))), Ok(ListReply::Renamed { etag }) if etag == "v")
    );
    assert!(matches!(list_reply(&ts[1], Err("HTTP 404".into())), Err(e) if e == "HTTP 404"));
    assert!(matches!(list_reply(&ts[2], Ok(Json::Null)), Ok(ListReply::Deleted)));
    assert!(matches!(list_reply(&ts[2], Err("u: HTTP 404 gone".into())), Ok(ListReply::Deleted)));
    assert!(matches!(list_reply(&ts[2], Err("u: HTTP 500".into())), Err(e) if e == "u: HTTP 500"));
}

fn todo() -> RemoteTodo {
    RemoteTodo {
        url: "https://h/c/u.ics".into(),
        etag: "e".into(),
        summary: "old".into(),
        done: false,
        lines: vec!["BEGIN:VTODO".into(), "UID:u".into(), "DUE:x".into(), "END:VTODO".into()],
        list: "https://h/c/".into(),
    }
}

fn update() -> ItemRequest {
    ItemRequest::Update { todo: todo(), text: "new".into(), done: true }
}

fn create() -> ItemRequest {
    ItemRequest::Create { text: "new".into(), done: false }
}

fn delete() -> ItemRequest {
    ItemRequest::Delete { url: "https://h/c/u.ics".into(), etag: "e".into() }
}

#[test]
fn google_items_are_changed() {
    let call = |r: ItemRequest| match google_item_call(&r, "https://t/") {
        ItemCall::Google(c) => (c.method, c.url, c.body),
        _ => panic!("no call"),
    };
    assert_eq!(
        call(update()),
        ("PATCH".into(), "https://h/c/u.ics".into(), Some(google_update("new", true)))
    );
    assert_eq!(call(create()), ("POST".into(), "https://t/".into(), Some(task_body("new", false))));
    assert_eq!(call(delete()), ("DELETE".into(), "https://h/c/u.ics".into(), None));
    assert!(matches!(google_item_call(&ItemRequest::Nothing, "t"), ItemCall::Nothing));
}

#[test]
fn google_item_answers_are_read() {
    assert!(
        matches!(google_item_reply(&update(), "t", Ok(obj(vec![("etag", "v")]))), Ok(ItemReply::Updated { etag }) if etag == "v")
    );
    assert!(
        matches!(google_item_reply(&create(), "https://t/x/", Ok(obj(vec![("id", "9"), ("etag", "v")]))), Ok(ItemReply::Created { uid, url, etag }) if uid == "9" && url == "https://t/x/9" && etag == "v")
    );
    assert!(
        matches!(google_item_reply(&create(), "https://t/", Ok(Json::Null)), Err(e) if e == "created task has no id")
    );
    assert!(matches!(google_item_reply(&delete(), "t", Ok(Json::Null)), Ok(ItemReply::Deleted)));
    assert!(matches!(
        google_item_reply(&delete(), "t", Err("x: HTTP 404 y".into())),
        Ok(ItemReply::Deleted)
    ));
    assert!(matches!(google_item_reply(&delete(), "t", Err("no".into())), Err(e) if e == "no"));
}

#[test]
fn icloud_items_are_written_as_calendars() {
    match icloud_item_call_at(&update(), "U".into(), Ok("a".into()), "NOW") {
        Ok(ItemCall::Put { uid, url, body, etag }) => {
            assert_eq!(uid, None);
            assert_eq!(url, "https://h/c/u.ics");
            assert_eq!(etag.as_deref(), Some("e"));
            assert_eq!(
                body,
                "BEGIN:VTODO\r\nUID:u\r\nDUE:x\r\nSUMMARY:new\r\nSTATUS:COMPLETED\r\nPERCENT-COMPLETE:100\r\nCOMPLETED:NOW\r\nEND:VTODO\r\n"
            );
        }
        _ => panic!("no calendar"),
    }
    match icloud_item_call(&create(), "https://h/c/", "U".into()) {
        Ok(ItemCall::Put { uid, url, body, etag }) => {
            assert_eq!(uid.as_deref(), Some("U"));
            assert_eq!(url, "https://h/c/U.ics");
            assert_eq!(etag, None);
            assert!(body.contains("UID:U\r\n"));
            assert!(body.contains("SUMMARY:new\r\n"));
        }
        _ => panic!("no calendar"),
    }
    assert!(
        matches!(icloud_item_call(&create(), "no url", "U".into()), Err(e) if e == "relative URL without a base")
    );
    assert!(
        matches!(icloud_item_call(&delete(), "t", "U".into()), Ok(ItemCall::Remove { url, etag }) if url == "https://h/c/u.ics" && etag == "e")
    );
}

#[test]
fn written_calendars_are_new_or_changed_items() {
    assert!(
        matches!(put_reply(Some("U".into()), "u".into(), "e".into()), ItemReply::Created { uid, url, etag } if uid == "U" && url == "u" && etag == "e")
    );
    assert!(matches!(put_reply(None, "u".into(), "e".into()), ItemReply::Updated { etag } if etag == "e"));
}
