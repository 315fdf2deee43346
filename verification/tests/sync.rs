use cce_list::ical::{patch_vtodo, unfold};
use cce_list::local::apply_local;
use cce_list::map::OrdMap;
use cce_list::plan::{plan_items, plan_lists, Plan};
use cce_list::remote::{RemoteList, RemoteTodo};
use cce_list::{Item, ListFile, SyncState, SyncedItem, SyncedList};

fn item(text: &str, done: bool, uid: Option<&str>) -> Item {
    Item { text: text.into(), done, uid: uid.map(String::from) }
}

fn todo(summary: &str, done: bool, etag: &str) -> RemoteTodo {
    RemoteTodo {
        url: "https://example.com/cal/x.ics".into(),
        etag: etag.into(),
        summary: summary.into(),
        done,
        lines: Vec::new(),
        list: "L".into(),
    }
}

fn synced(text: &str, done: bool, etag: &str) -> SyncedItem {
    SyncedItem {
        url: "https://example.com/cal/x.ics".into(),
        etag: etag.into(),
        account: "a@icloud.com".into(),
        text: text.into(),
        done,
        list: "L".into(),
    }
}

fn rlist(title: &str, etag: &str) -> RemoteList {
    RemoteList {
        title: title.into(),
        etag: etag.into(),
        create_target: "https://example.com/l/tasks".into(),
    }
}

fn slist(title: &str, etag: &str) -> SyncedList {
    SyncedList { title: title.into(), etag: etag.into(), account: "a".into() }
}

fn lfile(title: &str, id: Option<&str>) -> ListFile {
    ListFile { title: title.into(), id: id.map(String::from), items: Vec::new() }
}

#[test]
fn merge_decision_table() {
    let local = vec![
        item("unchanged", false, Some("u1")),
        item("toggled here", true, Some("u2")), // local change → push
        item("old name", false, Some("u3")),    // remote change → pull
        item("fresh local", false, None),       // no uid → create
    ];
    // u4 in state but not local → deleted here → push delete.
    // u5 on server, unknown → pull new. u6 server-completed, unknown → ignore.
    let mut state = SyncState::default();
    state.items.insert("u1".into(), synced("unchanged", false, "e1"));
    state.items.insert("u2".into(), synced("toggled here", false, "e2"));
    state.items.insert("u3".into(), synced("old name", false, "e3"));
    state.items.insert("u4".into(), synced("deleted here", false, "e4"));
    let mut remote = OrdMap::new();
    remote.insert("u1".into(), todo("unchanged", false, "e1"));
    remote.insert("u2".into(), todo("toggled here", false, "e2"));
    remote.insert("u3".into(), todo("renamed on phone", false, "e3b"));
    remote.insert("u4".into(), todo("deleted here", false, "e4"));
    remote.insert("u5".into(), todo("from the phone", false, "e5"));
    remote.insert("u6".into(), todo("ancient done thing", true, "e6"));

    let p = plan_items(&local, &state, &remote);
    assert_eq!(p.push_updates, vec!["u2"]);
    assert_eq!(p.pull_updates, vec!["u3"]);
    assert_eq!(p.push_deletes, vec!["u4"]);
    assert_eq!(p.pull_new, vec!["u5"]);
    assert_eq!(p.push_creates, vec![("fresh local".to_string(), false, None)]);
    assert!(p.pull_deletes.is_empty());
}

#[test]
fn both_changed_local_wins() {
    let local = vec![item("mine", false, Some("u1"))];
    let mut state = SyncState::default();
    state.items.insert("u1".into(), synced("base", false, "e1"));
    let mut remote = OrdMap::new();
    remote.insert("u1".into(), todo("theirs", false, "e2"));
    let p = plan_items(&local, &state, &remote);
    assert_eq!(p.push_updates, vec!["u1"]);
    assert!(p.pull_updates.is_empty());
}

#[test]
fn server_deletion_pulls_row_out() {
    let local = vec![item("gone on phone", false, Some("u1"))];
    let mut state = SyncState::default();
    state.items.insert("u1".into(), synced("gone on phone", false, "e1"));
    let remote = OrdMap::new();
    let p = plan_items(&local, &state, &remote);
    assert_eq!(p.pull_deletes, vec!["u1"]);
    assert!(p.push_creates.is_empty());

    let mut items = local;
    apply_local(&mut items, &p, &remote, &[], &[]);
    assert!(items.is_empty());
}

#[test]
fn recreated_row_is_reannotated_by_its_stale_uid() {
    // A row carrying a uid nobody knows is recreated; the new uid must
    // replace the stale one on THAT row, not on a same-text sibling.
    let plan = Plan {
        push_creates: vec![("dup".into(), false, Some("stale".into()))],
        ..Default::default()
    };
    let mut items = vec![item("dup", false, None), item("dup", false, Some("stale"))];
    apply_local(
        &mut items,
        &plan,
        &OrdMap::new(),
        &[("dup".into(), Some("stale".into()), "new".into())],
        &[],
    );
    assert_eq!(items[0].uid, None);
    assert_eq!(items[1].uid.as_deref(), Some("new"));
}

#[test]
fn moved_row_swaps_uid_via_moved_from() {
    let plan = Plan { push_creates: vec![("milk".into(), false, None)], ..Default::default() };
    let mut items = vec![item("milk", false, Some("from-other-list"))];
    apply_local(
        &mut items,
        &plan,
        &OrdMap::new(),
        &[("milk".into(), None, "new".into())],
        &[("milk".into(), "from-other-list".into())],
    );
    assert_eq!(items[0].uid.as_deref(), Some("new"));
}

#[test]
fn patch_preserves_foreign_properties() {
    let ics = "BEGIN:VCALENDAR\r\nVERSION:2.0\r\nBEGIN:VTODO\r\nUID:u\r\nDUE;VALUE=DATE:20261001\r\nSUMMARY:old\r\nSTATUS:NEEDS-ACTION\r\nX-APPLE-SORT-ORDER:7\r\nEND:VTODO\r\nEND:VCALENDAR\r\n";
    let patched = patch_vtodo(&unfold(ics), "new, name", true);
    assert!(patched.contains("DUE;VALUE=DATE:20261001"));
    assert!(patched.contains("X-APPLE-SORT-ORDER:7"));
    assert!(patched.contains("SUMMARY:new\\, name"));
    assert!(patched.contains("STATUS:COMPLETED"));
    assert!(patched.contains("PERCENT-COMPLETE:100"));
    assert!(!patched.contains("SUMMARY:old"));
    assert!(!patched.contains("NEEDS-ACTION"));
}

#[test]
fn fresh_edits_survive_apply_local() {
    // A row typed while the sync was talking to the network is untouched.
    let plan = Plan { pull_new: vec!["u9".into()], ..Default::default() };
    let mut remote = OrdMap::new();
    remote.insert("u9".into(), todo("from phone", false, "e9"));
    let mut items = vec![item("typed mid-sync", false, None)];
    apply_local(&mut items, &plan, &remote, &[], &[]);
    assert_eq!(items.len(), 2);
    assert_eq!(items[0].text, "typed mid-sync");
    assert_eq!(items[1].uid.as_deref(), Some("u9"));
}

#[test]
fn list_decision_table() {
    let local = vec![
        lfile("Tasks", Some("L1")),          // unchanged
        lfile("Errands", Some("L2")),        // renamed here (base "Chores") → push
        lfile("Work", Some("L3")),           // renamed on phone → pull
        lfile("Gone remote", Some("L4")),    // server deleted it → pull delete
        lfile("Brand new", None),            // → push create
        lfile("Orphan", Some("LX")),         // header nobody knows → recreate
        lfile("Tasks (legacy)", Some("L7")), // never synced as list; server name wins
    ];
    let mut state = OrdMap::new();
    state.insert("L1".into(), slist("Tasks", "e1"));
    state.insert("L2".into(), slist("Chores", "e2"));
    state.insert("L3".into(), slist("Work", "e3"));
    state.insert("L4".into(), slist("Gone remote", "e4"));
    state.insert("L5".into(), slist("Deleted here", "e5")); // no file → push delete
    let mut remote = OrdMap::new();
    remote.insert("L1".into(), rlist("Tasks", "e1"));
    remote.insert("L2".into(), rlist("Chores", "e2"));
    remote.insert("L3".into(), rlist("Office", "e3b"));
    remote.insert("L5".into(), rlist("Deleted here", "e5"));
    remote.insert("L6".into(), rlist("From the phone", "e6")); // → pull new
    remote.insert("L7".into(), rlist("LSGalante12's list", "e7"));

    let p = plan_lists(&local, &state, &remote);
    assert_eq!(p.push_renames, vec![("L2".to_string(), "Errands".to_string())]);
    assert_eq!(
        p.pull_renames,
        vec![
            ("L3".to_string(), "Work".to_string(), "Office".to_string()),
            (
                "L7".to_string(),
                "Tasks (legacy)".to_string(),
                "LSGalante12's list".to_string()
            ),
        ]
    );
    assert_eq!(p.pull_deletes, vec![("L4".to_string(), "Gone remote".to_string())]);
    assert_eq!(
        p.push_creates,
        vec![
            ("Brand new".to_string(), None),
            ("Orphan".to_string(), Some("LX".to_string())),
        ]
    );
    assert_eq!(p.push_deletes, vec!["L5"]);
    assert_eq!(p.pull_new, vec!["L6"]);
    // L1 matches the base exactly; nothing to record.
    assert!(p.refresh.is_empty());
}

#[test]
fn list_rename_both_sides_local_wins() {
    let local = vec![lfile("Mine", Some("L1"))];
    let mut state = OrdMap::new();
    state.insert("L1".into(), slist("Base", "e1"));
    let mut remote = OrdMap::new();
    remote.insert("L1".into(), rlist("Theirs", "e2"));
    let p = plan_lists(&local, &state, &remote);
    assert_eq!(p.push_renames, vec![("L1".to_string(), "Mine".to_string())]);
    assert!(p.pull_renames.is_empty());
}

// ── More of the same tables ───────────────────────────────────────────────

#[test]
fn list_versions_are_refreshed() {
    let local = vec![
        lfile("A", Some("a")), // only the server's version moved
        lfile("B", Some("b")), // renamed alike on both sides
        lfile("C", Some("c")), // never synced, same title
        lfile("x-y", Some("d")), // a slash in the server's title goes back as a dash
    ];
    let mut state = OrdMap::new();
    state.insert("a".into(), slist("A", "e1"));
    state.insert("b".into(), slist("Old", "e2"));
    state.insert("d".into(), slist("x/y", "e4"));
    let mut remote = OrdMap::new();
    remote.insert("a".into(), rlist("A", "e1b"));
    remote.insert("b".into(), rlist("B", "e2"));
    remote.insert("c".into(), rlist("C", "e3"));
    remote.insert("d".into(), rlist("x/y", "e4"));
    let p = plan_lists(&local, &state, &remote);
    assert_eq!(p.refresh, vec!["a", "b", "c"]);
    assert_eq!(p.push_renames, vec![("d".to_string(), "x-y".to_string())]);
    assert!(p.pull_renames.is_empty());
    assert!(p.push_creates.is_empty());
    assert!(p.push_deletes.is_empty());
    assert!(p.pull_new.is_empty());
}

#[test]
fn without_a_state_nothing_is_deleted() {
    let local = vec![lfile("A", Some("a")), lfile("B", None)];
    let mut remote = OrdMap::new();
    remote.insert("z".into(), rlist("Z", "e"));
    let p = plan_lists(&local, &OrdMap::new(), &remote);
    assert!(p.push_deletes.is_empty());
    assert!(p.pull_deletes.is_empty());
    assert_eq!(p.pull_new, vec!["z"]);

    let rows = vec![item("r", false, Some("gone"))];
    let mut todos = OrdMap::new();
    todos.insert("t".into(), todo("t", false, "e"));
    let q = plan_items(&rows, &SyncState::default(), &todos);
    assert!(q.push_deletes.is_empty());
    assert!(q.pull_deletes.is_empty());
    assert_eq!(q.pull_new, vec!["t"]);
    assert_eq!(q.push_creates, vec![("r".to_string(), false, Some("gone".to_string()))]);
}

#[test]
fn untracked_items_on_both_ends_keep_the_row() {
    let rows = vec![item("same", false, Some("u1")), item("mine", true, Some("u2"))];
    let mut todos = OrdMap::new();
    todos.insert("u1".into(), todo("same", false, "e1"));
    todos.insert("u2".into(), todo("theirs", false, "e2"));
    let p = plan_items(&rows, &SyncState::default(), &todos);
    assert_eq!(p.refresh_etags, vec!["u1"]);
    assert_eq!(p.push_updates, vec!["u2"]);
}

#[test]
fn settled_items_need_nothing() {
    let rows = vec![item("same", true, Some("u1"))];
    let mut state = SyncState::default();
    state.items.insert("u1".into(), synced("same", true, "e1"));
    let mut todos = OrdMap::new();
    todos.insert("u1".into(), todo("same", true, "e1"));
    assert_eq!(plan_items(&rows, &state, &todos), Plan::default());
    // Only the server's version moved.
    todos.insert("u1".into(), todo("same", true, "e2"));
    let p = plan_items(&rows, &state, &todos);
    assert_eq!(p, Plan { refresh_etags: vec!["u1".into()], ..Default::default() });
}

/// Of two rows with one identity the last one decides what is planned.
#[test]
fn the_last_row_of_an_identity_decides() {
    let rows = vec![item("edited", false, Some("u1")), item("base", false, Some("u1"))];
    let mut state = SyncState::default();
    state.items.insert("u1".into(), synced("base", false, "e1"));
    let mut todos = OrdMap::new();
    todos.insert("u1".into(), todo("base", false, "e1"));
    assert_eq!(plan_items(&rows, &state, &todos), Plan::default());
}

#[test]
fn pulled_changes_reach_their_rows_and_no_others() {
    let plan = Plan {
        pull_updates: vec!["u2".into()],
        pull_deletes: vec!["u3".into()],
        ..Default::default()
    };
    let mut remote = OrdMap::new();
    remote.insert("u2".into(), todo("new text", true, "e"));
    let mut items = vec![
        item("one", false, Some("u1")),
        item("two", false, Some("u2")),
        item("three", false, Some("u3")),
        item("two", false, None),
    ];
    apply_local(&mut items, &plan, &remote, &[], &[]);
    assert_eq!(
        items,
        vec![
            item("one", false, Some("u1")),
            item("new text", true, Some("u2")),
            item("two", false, None),
        ]
    );
}

/// Two rows with the same text are created one after the other.
#[test]
fn equal_new_rows_get_their_identities_in_order() {
    let mut items = vec![item("dup", false, None), item("dup", true, None)];
    apply_local(
        &mut items,
        &Plan::default(),
        &OrdMap::new(),
        &[("dup".into(), None, "n1".into()), ("dup".into(), None, "n2".into())],
        &[],
    );
    assert_eq!(items, vec![item("dup", false, Some("n1")), item("dup", true, Some("n2"))]);
}
