use cce_list::map::OrdMap;
use cce_list::plan::{plan_lists, Plan};
use cce_list::remote::{RemoteList, RemoteTodo};
use cce_list::report::{item_plan_lines, list_plan_lines};
use cce_list::run::{
    create_target_for, created_list, finish_file, foreign_items, item_owners, item_tasks_to_run,
    list_tasks_to_run, moved_rows, own_files, own_items, own_lists, plan_file,
    refuse_item_deletes, refuse_list_deletes, repair_current, rows_to_plan, starting_state,
    state_to_save, syncable_lists, target_address, todos_in, Service,
};
use cce_list::titles::unique_local_title;
use cce_list::{Item, ListFile, SyncState, SyncedItem, SyncedList};

fn item(text: &str, done: bool, uid: Option<&str>) -> Item {
    Item { text: text.into(), done, uid: uid.map(String::from) }
}

fn file(title: &str, id: Option<&str>, items: Vec<Item>) -> ListFile {
    ListFile { title: title.into(), id: id.map(String::from), items }
}

fn rlist(title: &str) -> RemoteList {
    RemoteList { title: title.into(), etag: "e".into(), create_target: "t".into() }
}

fn slist(title: &str, account: &str) -> SyncedList {
    SyncedList { title: title.into(), etag: "e".into(), account: account.into() }
}

fn synced(text: &str, account: &str, list: &str) -> SyncedItem {
    SyncedItem {
        url: "https://x/i".into(),
        etag: "e".into(),
        account: account.into(),
        text: text.into(),
        done: false,
        list: list.into(),
    }
}

fn todo(summary: &str, list: &str) -> RemoteTodo {
    RemoteTodo {
        url: "https://x/i".into(),
        etag: "e".into(),
        summary: summary.into(),
        done: false,
        lines: Vec::new(),
        list: list.into(),
    }
}

#[test]
fn a_missing_tree_forgets_the_state() {
    let state = || {
        let mut s = SyncState::default();
        s.items.insert("u".into(), synced("a", "me", "L"));
        s.lists.insert("L".into(), slist("T", "me"));
        s
    };
    let kept = starting_state(true, state());
    assert_eq!((kept.items.len(), kept.lists.len()), (1, 1));
    let gone = starting_state(false, state());
    assert!(gone.items.is_empty() && gone.lists.is_empty());
}

#[test]
fn a_run_reasons_about_its_own_account() {
    let mut s = SyncState::default();
    s.lists.insert("A".into(), slist("A", "me"));
    s.lists.insert("B".into(), slist("B", "you"));
    s.items.insert("1".into(), synced("a", "me", "A"));
    s.items.insert("2".into(), synced("b", "you", "A"));
    s.items.insert("3".into(), synced("c", "me", "C"));
    let own = own_lists(&s, "me");
    assert_eq!(own.len(), 1);
    assert!(own.contains_key("A"));
    let foreign = foreign_items(&s, "me");
    assert_eq!(foreign.len(), 1);
    assert!(foreign.contains_key("2"));
    let mine = own_items(&s, "me", "A");
    assert_eq!(mine.items.len(), 1);
    assert!(mine.items.contains_key("1"));
    assert!(mine.lists.is_empty());

    let mut todos = OrdMap::new();
    todos.insert("1".into(), todo("a", "Z"));
    todos.insert("9".into(), todo("z", "A"));
    let owners = item_owners(&s, "me", &todos);
    assert_eq!(owners.len(), 3);
    // Where the server has it counts before where it was.
    assert_eq!(owners.get("1").unwrap(), "Z");
    assert_eq!(owners.get("3").unwrap(), "C");
    assert_eq!(owners.get("9").unwrap(), "A");
    assert_eq!(todos_in(&todos, "A").len(), 1);
    assert!(todos_in(&todos, "A").contains_key("9"));
}

#[test]
fn rows_of_others_pass_and_moved_rows_are_new() {
    let mut foreign = OrdMap::new();
    foreign.insert("f".into(), synced("f", "you", "L"));
    let mut owners = OrdMap::new();
    owners.insert("here".into(), "L".to_string());
    owners.insert("moved".into(), "M".to_string());
    let rows = vec![
        item("foreign", false, Some("f")),
        item("here", false, Some("here")),
        item("moved", true, Some("moved")),
        item("unknown", false, Some("q")),
        item("plain", false, None),
    ];
    assert_eq!(
        rows_to_plan(&rows, &foreign, &owners, "L"),
        vec![
            item("here", false, Some("here")),
            item("moved", true, None),
            item("unknown", false, Some("q")),
            item("plain", false, None),
        ]
    );
    assert_eq!(
        moved_rows(&rows, &owners, "L"),
        vec![("moved".to_string(), "moved".to_string())]
    );
}

#[test]
fn new_lists_can_be_synced_at_once() {
    let mut remote = OrdMap::new();
    remote.insert("A".into(), rlist("A"));
    let mut s = SyncState::default();
    s.lists.insert("A".into(), slist("other title", "me"));
    s.lists.insert("N".into(), slist("New", "me"));
    s.lists.insert("F".into(), slist("Foreign", "you"));
    let known = syncable_lists(&remote, &s, "me", Service::Google);
    assert_eq!(known.len(), 2);
    assert_eq!(known.get("A").unwrap().title, "A");
    let n = known.get("N").unwrap();
    assert_eq!(n.title, "New");
    assert_eq!(n.create_target, "https://tasks.googleapis.com/tasks/v1/lists/N/tasks");
    // A calendar's identity has to be a URL.
    let known = syncable_lists(&remote, &s, "me", Service::ICloud);
    assert_eq!(known.len(), 1);
    assert_eq!(
        create_target_for(Service::ICloud, "https://Example.com/cal/").as_deref(),
        Some("https://example.com/cal/")
    );
    assert_eq!(create_target_for(Service::ICloud, "N"), None);
    assert_eq!(target_address(Service::ICloud, "x"), "x");
    assert!(created_list(&slist("T", "me"), "me", None).is_none());
    assert!(created_list(&slist("T", "you"), "me", Some("t".into())).is_none());
    assert_eq!(created_list(&slist("T", "me"), "me", Some("t".into())).unwrap().create_target, "t");
}

#[test]
fn deleting_everything_is_refused() {
    let mut state = OrdMap::new();
    let mut remote = OrdMap::new();
    for id in ["A", "B"] {
        state.insert(id.into(), slist(id, "me"));
        remote.insert(id.into(), rlist(id));
    }
    let p = plan_lists(&[], &state, &remote);
    assert_eq!(p.push_deletes.len(), 2);
    assert_eq!(
        refuse_list_deletes(&p, 2, false).as_deref(),
        Some("refusing to delete every remote list (2) — if that was really meant, run cce-list-sync --force-deletes")
    );
    assert_eq!(refuse_list_deletes(&p, 2, true), None);
    assert_eq!(refuse_list_deletes(&p, 3, false), None);
    let nothing = plan_lists(&[], &OrdMap::new(), &OrdMap::new());
    assert_eq!(refuse_list_deletes(&nothing, 0, false), None);

    let deletes = |n: usize| Plan {
        push_deletes: (0..n).map(|i| i.to_string()).collect(),
        ..Default::default()
    };
    assert_eq!(
        refuse_item_deletes("Tasks", &deletes(6), 11, false).as_deref(),
        Some("Tasks: refusing to delete 6 of 11 tracked items on the server — if the list was really emptied on purpose, run cce-list-sync --force-deletes")
    );
    // Half is not most, and five are not many.
    assert_eq!(refuse_item_deletes("Tasks", &deletes(6), 12, false), None);
    assert_eq!(refuse_item_deletes("Tasks", &deletes(5), 5, false), None);
    assert_eq!(refuse_item_deletes("Tasks", &deletes(6), 6, true), None);
}

#[test]
fn files_are_planned_with_their_own_items() {
    let mut lists = OrdMap::new();
    lists.insert("L".into(), rlist("T"));
    let mut state = SyncState::default();
    state.items.insert("a".into(), synced("a", "me", "L"));
    state.items.insert("m".into(), synced("m", "me", "M"));
    state.items.insert("f".into(), synced("f", "you", "L"));
    let mut todos = OrdMap::new();
    todos.insert("a".into(), todo("a", "L"));
    todos.insert("m".into(), todo("m", "M"));
    todos.insert("n".into(), todo("n", "L"));
    let foreign = foreign_items(&state, "me");
    let owners = item_owners(&state, "me", &todos);
    let f = file(
        "T",
        Some("L"),
        vec![item("a", false, Some("a")), item("m", false, Some("m")), item("f", false, Some("f"))],
    );
    let p = plan_file(&f, &lists, &foreign, &owners, &state, &todos, "me").unwrap();
    assert_eq!(p.list_id, "L");
    assert_eq!(p.items, 1);
    assert_eq!(p.rows, vec![item("a", false, Some("a")), item("m", false, None)]);
    assert_eq!(p.moved_from, vec![("m".to_string(), "m".to_string())]);
    assert_eq!(
        p.plan,
        Plan {
            pull_new: vec!["n".into()],
            push_creates: vec![("m".into(), false, None)],
            ..Default::default()
        }
    );
    assert!(plan_file(&file("T", None, vec![]), &lists, &foreign, &owners, &state, &todos, "me").is_none());
    assert!(plan_file(&file("T", Some("X"), vec![]), &lists, &foreign, &owners, &state, &todos, "me").is_none());

    // The moved row takes its new identity, the foreign one stays.
    let made = [("m".to_string(), None, "m2".to_string())];
    let now = "- [ ] typed meanwhile\n- [ ] m <!-- uid:m -->\n- [ ] f <!-- uid:f -->\n";
    let w = finish_file("T", Some(now), &p, &made, b"/d", false).unwrap();
    assert_eq!(w.path, b"/d/lists/T.md");
    assert_eq!(
        w.content,
        "<!-- list:L -->\n- [ ] typed meanwhile\n- [ ] m <!-- uid:m2 -->\n- [ ] f <!-- uid:f -->\n- [ ] n <!-- uid:n -->\n"
    );
    // A file that could not be read is written anew.
    let w = finish_file("T", None, &p, &[], b"/d", false).unwrap();
    assert_eq!(w.content, "<!-- list:L -->\n- [ ] n <!-- uid:n -->\n");
}

#[test]
fn the_pointer_is_repaired_where_its_list_is_gone() {
    let local = vec![file("First", None, vec![])];
    assert!(repair_current(None, false, &local, b"/d", false).is_none());
    assert!(repair_current(Some("X"), true, &local, b"/d", false).is_none());
    assert!(repair_current(Some("X"), false, &[], b"/d", false).is_none());
    let w = repair_current(Some("X"), false, &local, b"/d", false).unwrap();
    assert_eq!(w.content, "First\n");
}

#[test]
fn free_titles_are_numbered() {
    let taken = vec![file("Groceries", None, vec![]), file("Groceries (2)", None, vec![])];
    assert_eq!(unique_local_title("Other", &taken, &[]), "Other");
    assert_eq!(unique_local_title("Groceries", &taken, &[]), "Groceries (3)");
    assert_eq!(
        unique_local_title(" Groceries ", &taken, &["Groceries (3)".to_string()]),
        "Groceries (4)"
    );
    assert_eq!(unique_local_title("a/b", &[], &["a-b".to_string()]), "a-b (2)");
}

#[test]
fn dry_runs_say_what_they_would_do() {
    let mut state = OrdMap::new();
    state.insert("d".into(), slist("Gone", "me"));
    state.insert("x".into(), slist("Deleted here", "me"));
    state.insert("p".into(), slist("Base", "me"));
    let mut remote = OrdMap::new();
    remote.insert("n".into(), rlist("New"));
    remote.insert("r".into(), rlist("Theirs"));
    remote.insert("x".into(), rlist("Deleted here"));
    remote.insert("p".into(), rlist("Base"));
    let local = vec![
        file("Mine", Some("r"), vec![]),
        file("Gone", Some("d"), vec![]),
        file("Created", None, vec![]),
        file("Renamed", Some("p"), vec![]),
    ];
    let p = plan_lists(&local, &state, &remote);
    assert_eq!(
        list_plan_lines(&p, &remote),
        vec![
            "list pull new:    New (n)",
            "list pull rename: Mine -> Theirs (r)",
            "list pull delete: Gone (d)",
            "list push new:    Created",
            "list push rename: -> Renamed (p)",
            "list push delete: Deleted here (x)",
        ]
    );
    let mut todos = OrdMap::new();
    todos.insert("n".into(), todo("new", "L"));
    todos.insert("u".into(), todo("changed", "L"));
    let p = Plan {
        pull_new: vec!["n".into()],
        pull_updates: vec!["u".into()],
        pull_deletes: vec!["d".into()],
        push_updates: vec!["p".into()],
        push_creates: vec![("open".into(), false, None), ("shut".into(), true, None)],
        push_deletes: vec!["x".into()],
        refresh_etags: vec!["r".into()],
    };
    assert_eq!(
        item_plan_lines(&p, &todos),
        vec![
            "  pull new:    new (n)",
            "  pull change: changed (u)",
            "  pull delete: d",
            "  push change: p",
            "  push new:    open",
            "  push new:    [x] shut",
            "  push delete: x",
        ]
    );
}

/// A file of another account's list is that account's: nothing is planned for
/// it, unless this server has the list.
#[test]
fn files_of_other_accounts_are_left_alone() {
    let mut state = SyncState::default();
    state.lists.insert("x".into(), slist("Theirs", "you"));
    state.lists.insert("m".into(), slist("Mine", "me"));
    state.lists.insert("both".into(), slist("Both", "you"));
    let mut remote = OrdMap::new();
    remote.insert("m".into(), rlist("Mine"));
    remote.insert("both".into(), rlist("Both"));
    let local = vec![
        file("Both", Some("both"), vec![]),
        file("Mine", Some("m"), vec![]),
        file("New", None, vec![]),
        file("Stale", Some("nobody"), vec![]),
        file("Theirs", Some("x"), vec![item("a", false, None)]),
    ];
    let files = own_files(&local, &state, &remote, "me");
    assert_eq!(files, local[..4].to_vec());
    let p = plan_lists(&files, &own_lists(&state, "me"), &remote);
    assert_eq!(
        p.push_creates,
        vec![("New".to_string(), None), ("Stale".to_string(), Some("nobody".to_string()))]
    );
    assert!(p.pull_deletes.is_empty() && p.push_deletes.is_empty());
    assert_eq!(own_files(&local, &state, &OrdMap::new(), "you").len(), 4);
}

/// A dry run does nothing, and a refused plan is not done.
#[test]
fn dry_runs_and_refusals_do_nothing() {
    let mut state = OrdMap::new();
    let mut remote = OrdMap::new();
    for id in ["A", "B"] {
        state.insert(id.into(), slist(id, "me"));
        remote.insert(id.into(), rlist(id));
    }
    let p = plan_lists(&[], &state, &remote);
    assert_eq!(
        list_tasks_to_run(&p, 2, false, false),
        Err("refusing to delete every remote list (2) — if that was really meant, run cce-list-sync --force-deletes".to_string())
    );
    assert!(list_tasks_to_run(&p, 2, true, false).is_err());
    assert_eq!(list_tasks_to_run(&p, 2, true, true), Ok(vec![]));
    assert_eq!(list_tasks_to_run(&p, 2, false, true).unwrap().len(), 2);

    let plan = Plan {
        push_deletes: (0..6).map(|i| i.to_string()).collect(),
        pull_new: vec!["n".into()],
        ..Default::default()
    };
    assert_eq!(
        item_tasks_to_run("T", &plan, 11, false, false).unwrap_err(),
        "T: refusing to delete 6 of 11 tracked items on the server — if the list was really emptied on purpose, run cce-list-sync --force-deletes"
    );
    assert!(item_tasks_to_run("T", &plan, 11, true, true).unwrap().is_empty());
    assert_eq!(item_tasks_to_run("T", &plan, 12, false, false).unwrap().len(), 7);

    let mut lists = OrdMap::new();
    lists.insert("L".into(), rlist("T"));
    let none = SyncState::default();
    let f = file("T", Some("L"), vec![item("a", false, None)]);
    let planned = plan_file(
        &f,
        &lists,
        &OrdMap::new(),
        &OrdMap::new(),
        &none,
        &OrdMap::new(),
        "me",
    )
    .unwrap();
    assert!(finish_file("T", Some("- [ ] a\n"), &planned, &[], b"/d", true).is_none());
    assert!(repair_current(Some("X"), false, &[f], b"/d", true).is_none());
    assert!(state_to_save(SyncState::default(), true).is_none());
    assert!(state_to_save(SyncState::default(), false).is_some());
}
