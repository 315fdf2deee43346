use cce_list::item_tasks::{item_tasks, settle_item, ItemReply, ItemTask, ItemWork};
use cce_list::list_tasks::{list_tasks, settle_list, ListReply, ListTask};
use cce_list::local::apply_local;
use cce_list::map::OrdMap;
use cce_list::plan::{plan_items, plan_lists, Plan};
use cce_list::remote::{RemoteList, RemoteTodo};
use cce_list::run::{foreign_items, item_owners, plan_file};
use cce_list::{Item, ListFile, SyncState, SyncedItem, SyncedList};

fn item(text: &str, done: bool, uid: Option<&str>) -> Item {
    Item { text: text.into(), done, uid: uid.map(String::from) }
}

fn synced(text: &str, done: bool, etag: &str) -> SyncedItem {
    SyncedItem {
        url: "https://x/i".into(),
        etag: etag.into(),
        account: "me".into(),
        text: text.into(),
        done,
        list: "L".into(),
    }
}

fn todo(summary: &str, done: bool, etag: &str) -> RemoteTodo {
    RemoteTodo {
        url: "https://x/i".into(),
        etag: etag.into(),
        summary: summary.into(),
        done,
        lines: Vec::new(),
        list: "L".into(),
    }
}

fn row<'a>(rows: &'a [Item], uid: &str) -> &'a Item {
    rows.iter().find(|i| i.uid.as_deref() == Some(uid)).unwrap()
}

/// A server that does what it is asked for, and what it holds then.
fn run(rows: &mut Vec<Item>, state: &mut SyncState, there: &mut OrdMap<RemoteTodo>) -> Plan {
    let before: Vec<(String, RemoteTodo)> = (0..there.len())
        .map(|i| (there.key_at(i).clone(), there.value_at(i).clone()))
        .collect();
    let mut todos = OrdMap::new();
    for (uid, t) in before {
        todos.insert(uid, t);
    }
    let plan = plan_items(rows, state, &todos);
    let mut created = Vec::new();
    for (n, task) in item_tasks(&plan).iter().enumerate() {
        let etag = format!("new{n}");
        let reply = match task {
            ItemTask::Create { text, done, .. } => {
                let uid = format!("made{n}");
                there.insert(uid.clone(), todo(text, *done, &etag));
                ItemReply::Created { uid, url: "https://x/n".into(), etag }
            }
            ItemTask::Known { work: ItemWork::Update, uid } => {
                let r = row(rows, uid);
                there.insert(uid.clone(), todo(&r.text, r.done, &etag));
                ItemReply::Updated { etag }
            }
            ItemTask::Known { work: ItemWork::Delete, uid } => {
                there.remove(uid);
                ItemReply::Deleted
            }
            _ => ItemReply::Nothing,
        };
        settle_item(task, &reply, rows, &todos, "L", "me", state, &mut created);
    }
    apply_local(rows, &plan, &todos, &created, &[]);
    plan
}

#[test]
fn the_next_run_has_nothing_to_do() {
    let mut rows = vec![
        item("same", false, Some("u1")),
        item("changed here", true, Some("u2")),
        item("old name", false, Some("u3")),
        item("gone there", false, Some("u4")),
        item("twice", false, None),
        item("nobody knows it", false, Some("stale")),
        item("twice", true, None),
    ];
    let mut state = SyncState::default();
    state.items.insert("u1".into(), synced("same", false, "e1"));
    state.items.insert("u2".into(), synced("changed here", false, "e2"));
    state.items.insert("u3".into(), synced("old name", false, "e3"));
    state.items.insert("u4".into(), synced("gone there", false, "e4"));
    state.items.insert("u5".into(), synced("deleted here", false, "e5"));
    let mut there = OrdMap::new();
    there.insert("u1".into(), todo("same", false, "moved on"));
    there.insert("u2".into(), todo("changed there too", false, "e2b"));
    there.insert("u3".into(), todo("new name", true, "e3b"));
    there.insert("u5".into(), todo("deleted here", false, "e5"));
    there.insert("u6".into(), todo("new there", false, "e6"));
    there.insert("u7".into(), todo("done long ago", true, "e7"));

    let first = run(&mut rows, &mut state, &mut there);
    assert_eq!(first.push_updates, vec!["u2"]);
    assert_eq!(first.pull_updates, vec!["u3"]);
    assert_eq!(first.pull_deletes, vec!["u4"]);
    assert_eq!(first.push_deletes, vec!["u5"]);
    assert_eq!(first.pull_new, vec!["u6"]);
    assert_eq!(first.refresh_etags, vec!["u1"]);
    assert_eq!(first.push_creates.len(), 3);

    assert_eq!(
        rows,
        vec![
            item("same", false, Some("u1")),
            item("changed here", true, Some("u2")),
            item("new name", true, Some("u3")),
            item("twice", false, Some("made1")),
            item("nobody knows it", false, Some("made2")),
            item("twice", true, Some("made3")),
            item("new there", false, Some("u6")),
        ]
    );
    assert_eq!(run(&mut rows, &mut state, &mut there), Plan::default());
}

/// What is on both ends alike but not tracked is adopted, so that deleting its
/// row later deletes it on the server.
#[test]
fn an_untracked_item_is_adopted() {
    let mut rows = vec![item("copied by hand", false, Some("u1"))];
    let mut state = SyncState::default();
    let mut there = OrdMap::new();
    there.insert("u1".into(), todo("copied by hand", false, "e1"));
    let plan = run(&mut rows, &mut state, &mut there);
    assert_eq!(plan.refresh_etags, vec!["u1"]);
    assert_eq!(state.items.len(), 1);
    let s = state.items.get("u1").unwrap();
    assert_eq!((s.url.as_str(), s.etag.as_str(), s.account.as_str()), ("https://x/i", "e1", "me"));
    assert_eq!((s.text.as_str(), s.done, s.list.as_str()), ("copied by hand", false, "L"));
    assert_eq!(run(&mut rows, &mut state, &mut there), Plan::default());
    rows.clear();
    let plan = run(&mut rows, &mut state, &mut there);
    assert_eq!(plan.push_deletes, vec!["u1"]);
    assert!(rows.is_empty() && there.is_empty() && state.items.is_empty());
}

#[test]
fn lists_settle() {
    let file = |title: &str, id: Option<&str>| ListFile {
        title: title.into(),
        id: id.map(String::from),
        items: Vec::new(),
    };
    let rlist = |title: &str, etag: &str| RemoteList {
        title: title.into(),
        etag: etag.into(),
        create_target: "https://x/t".into(),
    };
    let slist = |title: &str| SyncedList {
        title: title.into(),
        etag: "e".into(),
        account: "me".into(),
    };
    let mut local = vec![
        file("Brand new", None),
        file("Mine", Some("both")),
        file("Old", Some("there")),
        file("Same", Some("same")),
    ];
    let mut state = SyncState::default();
    state.lists.insert("both".into(), slist("Base"));
    state.lists.insert("there".into(), slist("Old"));
    state.lists.insert("same".into(), slist("Same"));
    let mut remote = OrdMap::new();
    remote.insert("both".into(), rlist("Theirs", "e2"));
    remote.insert("there".into(), rlist("New/name", "e2"));
    remote.insert("same".into(), rlist("Same", "e2"));
    remote.insert("fresh".into(), rlist("From the phone", "e1"));

    let plan = plan_lists(&local, &state.lists, &remote);
    assert_eq!(plan.push_renames, vec![("both".to_string(), "Mine".to_string())]);
    assert_eq!(
        plan.pull_renames,
        vec![("there".to_string(), "Old".to_string(), "New-name".to_string())]
    );
    assert_eq!(plan.refresh, vec!["same"]);
    let mut then = OrdMap::new();
    then.insert("both".into(), rlist("Mine", "e3"));
    then.insert("there".into(), rlist("New-name", "e4"));
    then.insert("same".into(), rlist("Same", "e2"));
    then.insert("fresh".into(), rlist("From the phone", "e1"));
    then.insert("made".into(), rlist("Brand new", "e1"));
    for task in list_tasks(&plan) {
        let reply = match &task {
            ListTask::Create { .. } => {
                ListReply::Created { id: "made".into(), list: rlist("Brand new", "e1") }
            }
            ListTask::Rename { .. } => ListReply::Renamed { etag: "e3".into() },
            _ => ListReply::Nothing,
        };
        settle_list(&task, &reply, &mut local, &mut state, &remote, "me", b"/d", None, &[]);
    }
    // The title with a slash goes back to the server as the file has it.
    let mut slashed = OrdMap::new();
    slashed.insert("there".into(), rlist("New/name", "e2"));
    let back = plan_lists(&local[2..3], &state.lists, &slashed);
    assert_eq!(back.push_renames, vec![("there".to_string(), "New-name".to_string())]);
    for task in list_tasks(&back) {
        let reply = ListReply::Renamed { etag: "e4".into() };
        settle_list(&task, &reply, &mut local, &mut state, &slashed, "me", b"/d", None, &[]);
    }
    let next = plan_lists(&local, &state.lists, &then);
    assert!(next.pull_new.is_empty() && next.pull_renames.is_empty());
    assert!(next.pull_deletes.is_empty() && next.push_creates.is_empty());
    assert!(next.push_renames.is_empty() && next.push_deletes.is_empty());
    assert!(next.refresh.is_empty());
}

/// A run over some lists with a server that does what it is asked for: the
/// rows of each file, the state and the server after it, and the plans.
fn run_lists(
    files: &mut [ListFile],
    state: &mut SyncState,
    there: &mut OrdMap<RemoteTodo>,
    round: &str,
) -> Vec<Plan> {
    let mut lists = OrdMap::new();
    let mut todos = OrdMap::new();
    for i in 0..there.len() {
        todos.insert(there.key_at(i).clone(), there.value_at(i).clone());
    }
    for f in files.iter() {
        let list = RemoteList {
            title: f.title.clone(),
            etag: "e".into(),
            create_target: "https://x/t".into(),
        };
        lists.insert(f.id.clone().unwrap(), list);
    }
    let foreign = foreign_items(state, "me");
    let owners = item_owners(state, "me", &todos);
    let mut plans = Vec::new();
    for f in files.iter_mut() {
        let p = plan_file(f, &lists, &foreign, &owners, state, &todos, "me").unwrap();
        let mut created = Vec::new();
        for (n, task) in item_tasks(&p.plan).iter().enumerate() {
            let etag = format!("{round}{}{n}", p.list_id);
            let in_list = |mut t: RemoteTodo| {
                t.list = p.list_id.clone();
                t
            };
            let reply = match task {
                ItemTask::Create { text, done, .. } => {
                    let uid = format!("made-{etag}");
                    there.insert(uid.clone(), in_list(todo(text, *done, &etag)));
                    ItemReply::Created { uid, url: "https://x/n".into(), etag }
                }
                ItemTask::Known { work: ItemWork::Update, uid } => {
                    let r = row(&p.rows, uid);
                    there.insert(uid.clone(), in_list(todo(&r.text, r.done, &etag)));
                    ItemReply::Updated { etag }
                }
                ItemTask::Known { work: ItemWork::Delete, uid } => {
                    there.remove(uid);
                    ItemReply::Deleted
                }
                _ => ItemReply::Nothing,
            };
            settle_item(task, &reply, &p.rows, &p.todos, &p.list_id, "me", state, &mut created);
        }
        apply_local(&mut f.items, &p.plan, &p.todos, &created, &p.moved_from);
        plans.push(p.plan);
    }
    plans
}

/// A row that was moved by hand is moved on the server, and the next run has
/// nothing to do in either list.
#[test]
fn a_moved_row_settles_in_both_lists() {
    let mut files = vec![
        ListFile {
            title: "Old".into(),
            id: Some("A".into()),
            items: vec![item("stays", false, Some("u2"))],
        },
        ListFile {
            title: "New".into(),
            id: Some("B".into()),
            items: vec![
                item("theirs", false, Some("f")),
                item("moved", true, Some("u1")),
                item("typed", false, None),
            ],
        },
    ];
    let mut state = SyncState::default();
    let mut there = OrdMap::new();
    for (uid, text) in [("u1", "moved"), ("u2", "stays")] {
        let mut s = synced(text, false, "e");
        s.list = "A".into();
        state.items.insert(uid.into(), s);
        let mut t = todo(text, false, "e");
        t.list = "A".into();
        there.insert(uid.into(), t);
    }
    let mut s = synced("theirs", false, "e");
    s.account = "you".into();
    state.items.insert("f".into(), s);

    let plans = run_lists(&mut files, &mut state, &mut there, "first");
    assert_eq!(plans[0].push_deletes, vec!["u1"]);
    assert_eq!(plans[1].push_creates.len(), 2);
    assert!(!there.contains_key("u1") && !state.items.contains_key("u1"));
    let b = &files[1].items;
    assert_eq!(b[0], item("theirs", false, Some("f")));
    let uid = b[1].uid.clone().unwrap();
    assert_eq!((b[1].text.as_str(), b[1].done), ("moved", true));
    assert_eq!(there.get(&uid).unwrap().list, "B");
    assert_eq!(there.get(&uid).unwrap().summary, "moved");
    assert_eq!(state.items.get(&uid).unwrap().list, "B");
    assert!(b[2].uid.is_some() && b[2].uid != b[1].uid);

    let plans = run_lists(&mut files, &mut state, &mut there, "second");
    assert_eq!(plans, vec![Plan::default(), Plan::default()]);
}

/// An item that was moved on the server is moved here, whichever list comes
/// first.
#[test]
fn an_item_moved_on_the_server_settles_in_both_lists() {
    for (from, to) in [("A", "B"), ("B", "A")] {
        let mut files: Vec<ListFile> = ["A", "B"]
            .iter()
            .map(|id| ListFile { title: id.to_string(), id: Some(id.to_string()), items: vec![] })
            .collect();
        let mut state = SyncState::default();
        let mut s = synced("old text", false, "e");
        s.list = from.into();
        state.items.insert("u".into(), s);
        let mut there = OrdMap::new();
        let mut t = todo("new text", false, "e2");
        t.list = to.into();
        there.insert("u".into(), t);
        run_lists(&mut files, &mut state, &mut there, "first");
        for f in &files {
            let want = if f.title == to { vec![item("new text", false, Some("u"))] } else { vec![] };
            assert_eq!(f.items, want);
        }
        assert_eq!(state.items.get("u").unwrap().list, to);
        let plans = run_lists(&mut files, &mut state, &mut there, "second");
        assert_eq!(plans, vec![Plan::default(), Plan::default()]);
    }
}
