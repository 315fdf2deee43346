use cce_list::paths::{migrated_path, temp_path, title_of_file};
use cce_list::{
    current_path, data_dir, legacy_path, list_path, lists_dir, load_current, load_list, load_lists,
    migrate_legacy, rename_list, save_current, save_list, sort_lists, sync_state_path, Item,
    ListFile, SyncState, SyncedItem,
};

fn item(text: &str, done: bool, uid: Option<&str>) -> Item {
    Item { text: text.into(), done, uid: uid.map(String::from) }
}

fn list(title: &str, id: Option<&str>, items: Vec<Item>) -> ListFile {
    ListFile { title: title.into(), id: id.map(String::from), items }
}

#[test]
fn data_is_kept_below_the_users_data_directory() {
    assert_eq!(data_dir(Some(b"/data"), Some(b"/home/u")), b"/data/cce-list");
    assert_eq!(data_dir(None, Some(b"/home/u")), b"/home/u/.local/share/cce-list");
    // A relative path does not count, nor does an empty one.
    assert_eq!(data_dir(Some(b"data"), Some(b"/home/u")), b"/home/u/.local/share/cce-list");
    assert_eq!(data_dir(Some(b""), Some(b"/home/u")), b"/home/u/.local/share/cce-list");
    assert_eq!(data_dir(None, None), b".local/share/cce-list");
    assert_eq!(data_dir(Some(b"/"), None), b"/cce-list");
}

#[test]
fn files_stand_below_the_data_directory() {
    assert_eq!(lists_dir(b"/d"), b"/d/lists");
    assert_eq!(legacy_path(b"/d"), b"/d/list.md");
    assert_eq!(migrated_path(b"/d"), b"/d/list.md.migrated");
    assert_eq!(current_path(b"/d"), b"/d/current");
    assert_eq!(sync_state_path(b"/d"), b"/d/sync-state.json");
    assert_eq!(list_path(b"/d", "Home/Garden"), b"/d/lists/Home-Garden.md");
    assert_eq!(list_path(b"/d", ".."), b"/d/lists/Untitled.md");
    assert_eq!(list_path(b"/d", "Küche"), "/d/lists/Küche.md".as_bytes());
}

#[test]
fn what_is_written_first_is_no_list() {
    assert_eq!(temp_path(b"/d/lists/Tasks.md"), b"/d/lists/Tasks.tmp");
    assert_eq!(temp_path(b"/d/lists/v1.2.md"), b"/d/lists/v1.2.tmp");
    assert_eq!(temp_path(b"/d.x/current"), b"/d.x/current.tmp");
    assert_eq!(temp_path(b"/d/sync-state.json"), b"/d/sync-state.tmp");
    assert_eq!(temp_path(b"/d/.hidden"), b"/d/.hidden.tmp");
    for p in [
        "/d/lists/Tasks.md",
        "/d/lists/v1.2.md",
        "/d.x/current",
        "/d/.hidden",
        "a.b/",
        "a.b//./.",
        "a/..",
        "a/../",
        "..",
        ".",
        "./.",
        "/",
        "//",
        "",
        "...",
        "a/...",
        "a.",
        "./x",
        "/.",
    ] {
        let want = std::path::Path::new(p).with_extension("tmp");
        assert_eq!(temp_path(p.as_bytes()), want.to_str().unwrap().as_bytes());
    }
    assert_eq!(title_of_file("Tasks.tmp"), None);
}

#[test]
fn titles_are_the_stems_of_markdown_files() {
    for name in ["a.md", "a.b.md", ".md", "a.MD", "a", "md", "..md", "a.md.migrated", ".a.md"] {
        let path = std::path::Path::new(name);
        let want = if path.extension().and_then(|e| e.to_str()) == Some("md") {
            path.file_stem().and_then(|s| s.to_str()).map(String::from)
        } else {
            None
        };
        assert_eq!(title_of_file(name), want, "{}", name);
    }
}

#[test]
fn lists_are_saved_and_loaded() {
    let l = list("Home/Garden", Some("L1"), vec![item("a", true, Some("u"))]);
    let w = save_list(b"/d", &l);
    assert_eq!(w.path, b"/d/lists/Home-Garden.md");
    assert_eq!(w.content, "<!-- list:L1 -->\n- [x] a <!-- uid:u -->\n");
    let back = load_list("Home/Garden", &w.content);
    assert_eq!(back, list("Home-Garden", Some("L1"), vec![item("a", true, Some("u"))]));
}

#[test]
fn renaming_to_the_same_file_moves_nothing() {
    assert_eq!(
        rename_list(b"/d", "A", "B"),
        Some((b"/d/lists/A.md".to_vec(), b"/d/lists/B.md".to_vec()))
    );
    assert_eq!(rename_list(b"/d", "A/B", "A-B"), None);
    assert_eq!(rename_list(b"/d", "A", " A "), None);
}

#[test]
fn the_shown_list_is_named_on_one_line() {
    let w = save_current(b"/d", " Home/Garden ");
    assert_eq!(w.path, b"/d/current");
    assert_eq!(w.content, "Home-Garden\n");
    assert_eq!(load_current(&w.content), Some("Home-Garden".to_string()));
    assert_eq!(load_current(" \n"), None);
    assert_eq!(load_current(""), None);
}

#[test]
fn directories_are_read_in_the_order_of_titles() {
    let files = vec![
        ("banana.md".to_string(), "- [ ] b\n".to_string()),
        ("notes.txt".to_string(), "not a list".to_string()),
        ("Apple.md".to_string(), "<!-- list:A -->\n".to_string()),
        ("ÄRGER.md".to_string(), "".to_string()),
        ("apple.tmp".to_string(), "".to_string()),
        ("ärger2.md".to_string(), "".to_string()),
    ];
    let got = load_lists(&files);
    let titles: Vec<&str> = got.iter().map(|l| l.title.as_str()).collect();
    assert_eq!(titles, vec!["Apple", "banana", "ÄRGER", "ärger2"]);
    assert_eq!(got[0].id.as_deref(), Some("A"));
    assert_eq!(got[1].items, vec![item("b", false, None)]);
}

/// Titles that differ in letter case alone keep the order in which they came.
#[test]
fn sorting_is_stable_and_ignores_case() {
    let mut lists = vec![
        list("b", Some("1"), vec![]),
        list("A", Some("2"), vec![]),
        list("B", Some("3"), vec![]),
        list("a", Some("4"), vec![]),
        list("ẞ", Some("5"), vec![]),
        list("ß", Some("6"), vec![]),
    ];
    let mut want = lists.clone();
    sort_lists(&mut lists);
    want.sort_by_key(|l| l.title.to_lowercase());
    assert_eq!(lists, want);
    let ids: Vec<&str> = lists.iter().filter_map(|l| l.id.as_deref()).collect();
    assert_eq!(ids, vec!["2", "4", "1", "3", "5", "6"]);
}

fn synced(list: &str, url: &str) -> SyncedItem {
    SyncedItem {
        url: url.into(),
        etag: "e".into(),
        account: "a".into(),
        text: "t".into(),
        done: false,
        list: list.into(),
    }
}

#[test]
fn the_majority_is_the_list_with_the_most_items() {
    let mut s = SyncState::default();
    assert_eq!(s.majority_list_id(), None);
    s.items.insert("1".into(), synced("", "no slash"));
    assert_eq!(s.majority_list_id(), None);
    s.items.insert("2".into(), synced("B", ""));
    s.items.insert("3".into(), synced("", "https://x/lists/A/tasks/3"));
    // A draw goes to the one that comes last in order.
    assert_eq!(s.majority_list_id().as_deref(), Some("B"));
    s.items.insert("4".into(), synced("A", ""));
    assert_eq!(s.majority_list_id().as_deref(), Some("A"));
    assert_eq!(synced("A", "https://x/lists/B/tasks/1").list_id(), "A");
}

#[test]
fn the_single_checklist_is_split_by_list() {
    let mut s = SyncState::default();
    s.items.insert("u1".into(), synced("Main", ""));
    s.items.insert("u2".into(), synced("Main", ""));
    s.items.insert("u3".into(), synced("x/y", ""));
    let content = "- [ ] one <!-- uid:u1 -->\n- [ ] other <!-- uid:u3 -->\n- [x] two <!-- uid:u2 -->\ntyped\n- [ ] unknown <!-- uid:u9 -->\n";
    let got = migrate_legacy(content, &s);
    assert_eq!(
        got,
        vec![
            list(
                "Tasks",
                Some("Main"),
                vec![
                    item("one", false, Some("u1")),
                    item("two", true, Some("u2")),
                    item("typed", false, None),
                    item("unknown", false, Some("u9")),
                ]
            ),
            list("x-y", Some("x/y"), vec![item("other", false, Some("u3"))]),
        ]
    );
}

#[test]
fn a_checklist_without_rows_or_state_becomes_one_list() {
    assert_eq!(migrate_legacy("", &SyncState::default()), vec![list("Tasks", None, vec![])]);
    assert_eq!(
        migrate_legacy("typed\n", &SyncState::default()),
        vec![list("Tasks", None, vec![item("typed", false, None)])]
    );
    let mut s = SyncState::default();
    s.items.insert("u1".into(), synced("Main", ""));
    assert_eq!(migrate_legacy("\n", &s), vec![list("Tasks", Some("Main"), vec![])]);
}

/// The biggest group of rows is `Tasks`, whatever else the state tracks.
#[test]
fn the_biggest_group_of_rows_becomes_tasks() {
    let mut s = SyncState::default();
    s.items.insert("u1".into(), synced("B", ""));
    s.items.insert("u2".into(), synced("A", ""));
    s.items.insert("u3".into(), synced("A", ""));
    let got = migrate_legacy("- [ ] a <!-- uid:u1 -->\n", &s);
    assert_eq!(got, vec![list("Tasks", Some("B"), vec![item("a", false, Some("u1"))])]);
    // Rows that the state does not know go with it.
    let got = migrate_legacy("typed\n- [ ] a <!-- uid:u1 -->\n", &s);
    assert_eq!(
        got,
        vec![list(
            "Tasks",
            Some("B"),
            vec![item("typed", false, None), item("a", false, Some("u1"))]
        )]
    );
    // A draw goes to the list that most tracked items belong to.
    let got = migrate_legacy("- [ ] c <!-- uid:u2 -->\n- [ ] a <!-- uid:u1 -->\n", &s);
    assert_eq!(
        got,
        vec![
            list("Tasks", Some("A"), vec![item("c", false, Some("u2"))]),
            list("B", Some("B"), vec![item("a", false, Some("u1"))]),
        ]
    );
    // Where that has none of the biggest groups, it goes to the last in order.
    for uid in ["v1", "v2", "v3"] {
        s.items.insert(uid.into(), synced("0", ""));
    }
    let got = migrate_legacy("- [ ] c <!-- uid:u2 -->\n- [ ] a <!-- uid:u1 -->\n", &s);
    assert_eq!(
        got,
        vec![
            list("A", Some("A"), vec![item("c", false, Some("u2"))]),
            list("Tasks", Some("B"), vec![item("a", false, Some("u1"))]),
        ]
    );
    // Where the state knows no row, the list of most tracked items is taken.
    let got = migrate_legacy("typed\n", &s);
    assert_eq!(got, vec![list("Tasks", Some("0"), vec![item("typed", false, None)])]);
}
