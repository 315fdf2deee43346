use cce_list::item_tasks::{
    item_request, item_request_with, item_tasks, settle_item, ItemReply, ItemRequest, ItemTask,
    ItemWork,
};
use cce_list::list_tasks::{list_tasks, settle_list, DiskOp, ListReply, ListTask};
use cce_list::map::OrdMap;
use cce_list::plan::{plan_items, plan_lists, ListPlan, Plan};
use cce_list::remote::{RemoteList, RemoteTodo};
use cce_list::{Item, ListFile, SyncState, SyncedItem, SyncedList};

fn item(text: &str, done: bool, uid: Option<&str>) -> Item {
    Item { text: text.into(), done, uid: uid.map(String::from) }
}

fn file(title: &str, id: Option<&str>) -> ListFile {
    ListFile { title: title.into(), id: id.map(String::from), items: vec![item("r", false, None)] }
}

fn rlist(title: &str, etag: &str) -> RemoteList {
    RemoteList { title: title.into(), etag: etag.into(), create_target: "t".into() }
}

fn slist(title: &str, account: &str) -> SyncedList {
    SyncedList { title: title.into(), etag: "e".into(), account: account.into() }
}

fn synced(text: &str, done: bool, etag: &str, list: &str) -> SyncedItem {
    SyncedItem {
        url: "https://x/i".into(),
        etag: etag.into(),
        account: "me".into(),
        text: text.into(),
        done,
        list: list.into(),
    }
}

fn todo(summary: &str, done: bool, etag: &str) -> RemoteTodo {
    RemoteTodo {
        url: "https://x/todo".into(),
        etag: etag.into(),
        summary: summary.into(),
        done,
        lines: Vec::new(),
        list: "L".into(),
    }
}

#[test]
fn list_tasks_go_to_the_server_first() {
    let plan = ListPlan {
        pull_new: vec!["n".into()],
        pull_renames: vec![("r".into(), "from".into(), "to".into())],
        pull_deletes: vec![("d".into(), "gone".into())],
        push_creates: vec![("c".into(), Some("s".into()))],
        push_renames: vec![("p".into(), "title".into())],
        push_deletes: vec!["x".into()],
        refresh: vec!["f".into()],
    };
    assert_eq!(
        list_tasks(&plan),
        vec![
            ListTask::Create { title: "c".into(), stale: Some("s".into()) },
            ListTask::Rename { id: "p".into(), title: "title".into() },
            ListTask::Delete { id: "x".into() },
            ListTask::RenameFile { id: "r".into(), from: "from".into(), to: "to".into() },
            ListTask::DeleteFile { id: "d".into(), title: "gone".into() },
            ListTask::AddFile { id: "n".into() },
            ListTask::Record { id: "f".into() },
        ]
    );
}

struct Scene {
    local: Vec<ListFile>,
    state: SyncState,
    remote: OrdMap<RemoteList>,
}

fn scene() -> Scene {
    let mut state = SyncState::default();
    state.lists.insert("old".into(), slist("Old", "me"));
    state.lists.insert("theirs".into(), slist("Theirs", "you"));
    state.items.insert("i1".into(), synced("a", false, "e", "old"));
    state.items.insert("i2".into(), synced("b", false, "e", "other"));
    let mut remote = OrdMap::new();
    remote.insert("old".into(), rlist("New name", "v2"));
    remote.insert("fresh".into(), rlist("A/B", "v1"));
    Scene { local: vec![file("Old", Some("old")), file("Mine", None)], state, remote }
}

fn step(s: &mut Scene, task: ListTask, reply: ListReply, current: Option<&str>) -> Vec<DiskOp> {
    settle_list(
        &task,
        &reply,
        &mut s.local,
        &mut s.state,
        &s.remote,
        "me",
        b"/d",
        current,
        &["A-B".to_string()],
    )
}

#[test]
fn a_created_list_takes_its_identity() {
    let mut s = scene();
    let ops = step(
        &mut s,
        ListTask::Create { title: "Mine".into(), stale: Some("old".into()) },
        ListReply::Created { id: "N".into(), list: rlist("Mine!", "v1") },
        None,
    );
    assert_eq!(s.local[1].id.as_deref(), Some("N"));
    assert!(
        matches!(&ops[..], [DiskOp::Write(w)] if w.path == b"/d/lists/Mine.md" && w.content == "<!-- list:N -->\n- [ ] r\n")
    );
    assert!(!s.state.lists.contains_key("old"));
    let l = s.state.lists.get("N").unwrap();
    assert_eq!((l.title.as_str(), l.etag.as_str(), l.account.as_str()), ("Mine!", "v1", "me"));
}

#[test]
fn a_failed_push_changes_nothing() {
    for task in [
        ListTask::Create { title: "Mine".into(), stale: Some("old".into()) },
        ListTask::Rename { id: "old".into(), title: "X".into() },
        ListTask::Delete { id: "old".into() },
    ] {
        let mut s = scene();
        let ops = step(&mut s, task, ListReply::Nothing, None);
        assert!(ops.is_empty());
        assert_eq!(s.local, scene().local);
        assert_eq!(s.state.lists.get("old").unwrap().title, "Old");
        assert_eq!(s.state.items.len(), 2);
    }
}

#[test]
fn a_renamed_list_is_recorded() {
    let mut s = scene();
    let ops = step(
        &mut s,
        ListTask::Rename { id: "old".into(), title: "Old".into() },
        ListReply::Renamed { etag: "v3".into() },
        None,
    );
    assert!(ops.is_empty());
    assert_eq!(s.state.lists.get("old").unwrap().etag, "v3");
}

#[test]
fn a_deleted_list_takes_its_items_along() {
    let mut s = scene();
    step(&mut s, ListTask::Delete { id: "old".into() }, ListReply::Deleted, None);
    assert!(!s.state.lists.contains_key("old"));
    assert!(!s.state.items.contains_key("i1"));
    assert!(s.state.items.contains_key("i2"));
    assert!(s.state.lists.contains_key("theirs"));
    assert_eq!(s.local.len(), 2);
}

#[test]
fn a_renamed_file_follows_the_server() {
    let mut s = scene();
    let task = || ListTask::RenameFile { id: "old".into(), from: "Old".into(), to: "New name".into() };
    let ops = step(&mut s, task(), ListReply::Nothing, Some("Old"));
    assert_eq!(s.local[0].title, "New name");
    assert_eq!(ops.len(), 2);
    assert!(
        matches!(&ops[0], DiskOp::Rename { from, to, context } if from == b"/d/lists/Old.md" && to == b"/d/lists/New name.md" && context == "renaming Old -> New name: ")
    );
    assert!(matches!(&ops[1], DiskOp::Write(w) if w.path == b"/d/current" && w.content == "New name\n"));
    let l = s.state.lists.get("old").unwrap();
    assert_eq!((l.title.as_str(), l.etag.as_str()), ("New name", "v2"));
    // Another list is shown: the pointer stays.
    let mut s = scene();
    assert_eq!(step(&mut s, task(), ListReply::Nothing, Some("Mine")).len(), 1);
}

#[test]
fn a_deleted_file_goes() {
    let mut s = scene();
    let ops = step(
        &mut s,
        ListTask::DeleteFile { id: "old".into(), title: "Old".into() },
        ListReply::Nothing,
        None,
    );
    assert!(
        matches!(&ops[..], [DiskOp::Remove { path, context }] if path == b"/d/lists/Old.md" && context == "deleting Old: ")
    );
    assert_eq!(s.local.len(), 1);
    assert!(!s.state.lists.contains_key("old"));
    assert!(!s.state.items.contains_key("i1"));
}

#[test]
fn a_new_file_takes_a_free_title() {
    let mut s = scene();
    let ops = step(&mut s, ListTask::AddFile { id: "fresh".into() }, ListReply::Nothing, None);
    assert_eq!(s.local[2].title, "A-B (2)");
    assert_eq!(s.local[2].id.as_deref(), Some("fresh"));
    assert!(s.local[2].items.is_empty());
    assert!(
        matches!(&ops[..], [DiskOp::Write(w)] if w.path == b"/d/lists/A-B (2).md" && w.content == "<!-- list:fresh -->\n")
    );
    assert_eq!(s.state.lists.get("fresh").unwrap().title, "A/B");
}

#[test]
fn a_recorded_list_keeps_the_files_title() {
    let mut s = scene();
    let ops = step(&mut s, ListTask::Record { id: "old".into() }, ListReply::Nothing, None);
    assert!(ops.is_empty());
    let l = s.state.lists.get("old").unwrap();
    assert_eq!((l.title.as_str(), l.etag.as_str()), ("Old", "v2"));
    step(&mut s, ListTask::Record { id: "fresh".into() }, ListReply::Nothing, None);
    assert_eq!(s.state.lists.get("fresh").unwrap().title, "A/B");
}

/// After a rename was pushed, the next plan has nothing to do about the list.
#[test]
fn pushed_renames_settle() {
    let local = vec![file("Mine", Some("L"))];
    let mut state = SyncState::default();
    state.lists.insert("L".into(), slist("Base", "me"));
    let mut remote = OrdMap::new();
    remote.insert("L".into(), rlist("Theirs", "e2"));
    let p = plan_lists(&local, &state.lists, &remote);
    let mut files = local.clone();
    for task in list_tasks(&p) {
        settle_list(
            &task,
            &ListReply::Renamed { etag: "e3".into() },
            &mut files,
            &mut state,
            &remote,
            "me",
            b"/d",
            None,
            &[],
        );
    }
    remote.insert("L".into(), rlist("Mine", "e3"));
    let p = plan_lists(&files, &state.lists, &remote);
    assert!(list_tasks(&p).is_empty());
}

// ── Items ─────────────────────────────────────────────────────────────────

#[test]
fn item_tasks_push_first() {
    let plan = Plan {
        pull_new: vec!["n".into()],
        pull_updates: vec!["u".into()],
        pull_deletes: vec!["d".into()],
        push_updates: vec!["p".into()],
        push_creates: vec![("c".into(), true, None)],
        push_deletes: vec!["x".into()],
        refresh_etags: vec!["r".into()],
    };
    let known = |work: ItemWork, uid: &str| ItemTask::Known { work, uid: uid.into() };
    assert_eq!(
        item_tasks(&plan),
        vec![
            known(ItemWork::Update, "p"),
            ItemTask::Create { text: "c".into(), done: true, stale: None },
            known(ItemWork::Delete, "x"),
            known(ItemWork::Take, "n"),
            known(ItemWork::Take, "u"),
            known(ItemWork::Forget, "d"),
            known(ItemWork::Retag, "r"),
        ]
    );
}

#[test]
fn requests_say_what_is_asked() {
    let rows = vec![item("first", true, Some("u")), item("second", false, Some("u"))];
    let mut todos = OrdMap::new();
    todos.insert("u".into(), todo("old", false, "e"));
    let mut state = SyncState::default();
    state.items.insert("x".into(), synced("a", false, "tag", "L"));
    let mut bad = synced("a", false, "tag", "L");
    bad.url = "not a url".into();
    state.items.insert("bad".into(), bad);
    let ask = |task: ItemTask| item_request(&task, &rows, &todos, &state);

    // The first row of an identity is what is pushed.
    assert!(
        matches!(ask(ItemTask::Known { work: ItemWork::Update, uid: "u".into() }), Ok(ItemRequest::Update { todo, text, done }) if todo.summary == "old" && text == "first" && done)
    );
    assert!(
        matches!(ask(ItemTask::Create { text: "t".into(), done: false, stale: None }), Ok(ItemRequest::Create { text, done }) if text == "t" && !done)
    );
    assert!(
        matches!(ask(ItemTask::Known { work: ItemWork::Delete, uid: "x".into() }), Ok(ItemRequest::Delete { url, etag }) if url == "https://x/i" && etag == "tag")
    );
    assert!(
        matches!(ask(ItemTask::Known { work: ItemWork::Delete, uid: "bad".into() }), Err(e) if e == "relative URL without a base")
    );
    assert!(matches!(
        ask(ItemTask::Known { work: ItemWork::Forget, uid: "q".into() }),
        Ok(ItemRequest::Nothing)
    ));
    let del = ItemTask::Known { work: ItemWork::Delete, uid: "x".into() };
    assert!(
        matches!(item_request_with(&del, &rows, &todos, &state, Err("no".into())), Err(e) if e == "no")
    );
}

#[test]
fn answers_are_recorded() {
    let rows = vec![item("mine", true, Some("u"))];
    let mut todos = OrdMap::new();
    todos.insert("u".into(), todo("theirs", false, "e1"));
    let mut state = SyncState::default();
    state.items.insert("u".into(), synced("base", false, "e0", "L"));
    let mut created = Vec::new();
    let mut run = |state: &mut SyncState, task: ItemTask, reply: ItemReply| {
        settle_item(&task, &reply, &rows, &todos, "L", "me", state, &mut created)
    };
    let known = |work: ItemWork, uid: &str| ItemTask::Known { work, uid: uid.into() };

    run(&mut state, known(ItemWork::Update, "u"), ItemReply::Nothing);
    assert_eq!(state.items.get("u").unwrap().text, "base");
    run(&mut state, known(ItemWork::Update, "u"), ItemReply::Updated { etag: "e2".into() });
    let e = state.items.get("u").unwrap();
    assert_eq!((e.text.as_str(), e.done, e.etag.as_str()), ("mine", true, "e2"));
    assert_eq!((e.url.as_str(), e.account.as_str(), e.list.as_str()), ("https://x/todo", "me", "L"));

    run(
        &mut state,
        ItemTask::Create { text: "t".into(), done: true, stale: Some("s".into()) },
        ItemReply::Created { uid: "n".into(), url: "https://x/n".into(), etag: "e".into() },
    );
    assert_eq!(state.items.get("n").unwrap().url, "https://x/n");
    run(
        &mut state,
        ItemTask::Create { text: "t2".into(), done: true, stale: None },
        ItemReply::Nothing,
    );

    run(&mut state, known(ItemWork::Take, "u"), ItemReply::Nothing);
    let e = state.items.get("u").unwrap();
    assert_eq!((e.text.as_str(), e.done, e.etag.as_str()), ("theirs", false, "e1"));

    run(&mut state, known(ItemWork::Delete, "n"), ItemReply::Nothing);
    assert!(state.items.contains_key("n"));
    run(&mut state, known(ItemWork::Delete, "n"), ItemReply::Deleted);
    assert!(!state.items.contains_key("n"));

    run(&mut state, known(ItemWork::Forget, "u"), ItemReply::Nothing);
    assert!(!state.items.contains_key("u"));
    // Nothing is tracked under it: it is adopted as the server has it.
    run(&mut state, known(ItemWork::Retag, "u"), ItemReply::Nothing);
    let e = state.items.get("u").unwrap();
    assert_eq!((e.text.as_str(), e.done, e.etag.as_str()), ("theirs", false, "e1"));
    // What the server does not have either is not made up.
    run(&mut state, known(ItemWork::Retag, "nowhere"), ItemReply::Nothing);
    assert!(!state.items.contains_key("nowhere"));
    assert_eq!(created, vec![("t".to_string(), Some("s".to_string()), "n".to_string())]);
}

#[test]
fn recorded_versions_settle() {
    let rows = vec![item("same", false, Some("u"))];
    let mut todos = OrdMap::new();
    todos.insert("u".into(), todo("same", false, "e2"));
    let mut state = SyncState::default();
    state.items.insert("u".into(), synced("same", false, "e1", ""));
    let p = plan_items(&rows, &state, &todos);
    assert_eq!(p.refresh_etags, vec!["u"]);
    for task in item_tasks(&p) {
        settle_item(&task, &ItemReply::Nothing, &rows, &todos, "L", "me", &mut state, &mut Vec::new());
    }
    assert_eq!(state.items.get("u").unwrap().list, "L");
    assert_eq!(plan_items(&rows, &state, &todos), Plan::default());
}

/// A title of the server with a slash comes back to the server renamed.
#[test]
fn a_title_with_a_slash_goes_back_renamed() {
    let local = vec![ListFile { title: "Home-Garden".into(), id: Some("L1".into()), items: vec![] }];
    let mut state = OrdMap::new();
    state.insert("L1".into(), slist("Home/Garden", "me"));
    let mut remote = OrdMap::new();
    remote.insert("L1".into(), rlist("Home/Garden", "e"));
    let p = plan_lists(&local, &state, &remote);
    assert_eq!(p.push_renames, vec![("L1".to_string(), "Home-Garden".to_string())]);
    assert!(p.pull_renames.is_empty() && p.refresh.is_empty());
}

/// Any other title that a file cannot have is left as it is on the server.
#[test]
fn titles_without_a_slash_stay_on_the_server() {
    for title in ["Tasks ", " Tasks", "Tasks\t", "", ".", ".."] {
        let stem = if title.trim() == "Tasks" { "Tasks" } else { "Untitled" };
        let local = vec![ListFile { title: stem.into(), id: Some("L1".into()), items: vec![] }];
        let mut state = OrdMap::new();
        state.insert("L1".into(), slist(title, "me"));
        for (etag, refresh) in [("e", vec![]), ("e2", vec!["L1".to_string()])] {
            let mut remote = OrdMap::new();
            remote.insert("L1".into(), rlist(title, etag));
            let p = plan_lists(&local, &state, &remote);
            assert!(p.push_renames.is_empty() && p.pull_renames.is_empty(), "{title:?}");
            assert_eq!(p.refresh, refresh, "{title:?}");
        }
    }
}
