use cce_list::board::{
    input_value, key_action, placeholder, should_reload, switcher_options, Board, KeyAction,
    KeyPress, Mode, NewList, Pick, Submitted,
};
use cce_list::{Item, ListFile};

fn item(text: &str, done: bool) -> Item {
    Item { text: text.into(), done, uid: None }
}

fn list(title: &str) -> ListFile {
    ListFile { title: title.into(), id: None, items: vec![item("a", false), item("b", true)] }
}

fn board(titles: &[&str], shown: &str) -> Board {
    let mut b = Board::new();
    b.load_from_disk(
        titles.iter().map(|t| list(t)).collect(),
        Some(shown.to_string()),
        b"/d",
    );
    b
}

#[test]
fn the_first_list_is_made() {
    let mut b = Board::new();
    assert!(b.items().is_empty());
    assert_eq!(b.title(), None);
    let writes = b.load_from_disk(Vec::new(), None, b"/d");
    assert_eq!(b.lists, vec![ListFile { title: "Tasks".into(), id: None, items: vec![] }]);
    assert_eq!(b.cur, 0);
    assert_eq!(writes.len(), 2);
    assert_eq!(writes[0].path, b"/d/lists/Tasks.md");
    assert_eq!(writes[0].content, "");
    assert_eq!(writes[1].path, b"/d/current");
    assert_eq!(writes[1].content, "Tasks\n");
}

#[test]
fn the_shown_list_is_kept_by_its_title() {
    let mut b = board(&["A", "B", "C"], "B");
    assert_eq!(b.cur, 1);
    // Named on disk and there: nothing is written.
    assert!(b.load_from_disk(vec![list("B"), list("C")], Some("C".into()), b"/d").is_empty());
    assert_eq!(b.title().as_deref(), Some("C"));
    // Nothing is named: the one that was shown.
    assert!(b.load_from_disk(vec![list("A"), list("C")], None, b"/d").is_empty());
    assert_eq!(b.cur, 1);
    // It is gone: the first one, and that is written.
    let w = b.load_from_disk(vec![list("X"), list("Y")], Some("C".into()), b"/d");
    assert_eq!(b.cur, 0);
    assert_eq!(w.len(), 1);
    assert_eq!(w[0].content, "X\n");
}

#[test]
fn lists_are_switched() {
    let mut b = board(&["A", "B"], "A");
    assert_eq!(
        switcher_options(&b.lists),
        vec!["A", "B", "New list…", "Delete list…"]
    );
    assert_eq!(b.switcher_picked(0), Pick::Same);
    assert_eq!(b.switcher_picked(1), Pick::List(1));
    assert_eq!(b.switcher_picked(2), Pick::NewList);
    assert_eq!(b.switcher_picked(3), Pick::DeleteList);
    b.set_mode(Mode::NamingList);
    let w = b.select_list(1, b"/d").unwrap();
    assert_eq!((b.cur, b.mode), (1, Mode::Items));
    assert_eq!(w.content, "B\n");
    assert!(b.select_list(2, b"/d").is_none());
    assert_eq!(b.cur, 1);
}

#[test]
fn lists_are_created() {
    let mut b = board(&["Alpha", "gamma"], "Alpha");
    assert!(matches!(b.create_list(" gamma ", b"/d"), NewList::There(1)));
    let (made, write) = match b.create_list("Be/ta", b"/d") {
        NewList::Write { list, write } => (list, write),
        NewList::There(_) => panic!("there is none"),
    };
    assert_eq!(made.title, "Be-ta");
    assert!(made.items.is_empty());
    assert_eq!(write.path, b"/d/lists/Be-ta.md");
    assert_eq!(write.content, "");
    let w = b.add_list(made, b"/d");
    let titles: Vec<&str> = b.lists.iter().map(|l| l.title.as_str()).collect();
    assert_eq!(titles, vec!["Alpha", "Be-ta", "gamma"]);
    assert_eq!((b.cur, b.mode), (1, Mode::Items));
    assert_eq!(w.content, "Be-ta\n");
}

#[test]
fn one_list_stays() {
    let mut b = board(&["A"], "A");
    assert!(!b.begin_delete());
    assert_eq!(b.mode, Mode::Items);

    let mut b = board(&["A", "B", "C"], "C");
    assert!(b.begin_delete());
    assert_eq!(b.mode, Mode::ConfirmDelete);
    assert!(matches!(b.submit_input("", b"/d"), Submitted::Delete));
    assert_eq!(b.delete_path(b"/d"), b"/d/lists/C.md");
    let w = b.confirm_delete(b"/d");
    assert_eq!(b.lists.len(), 2);
    assert_eq!((b.cur, b.mode), (1, Mode::Items));
    assert_eq!(w.content, "B\n");
    // In the middle, the next one takes its place.
    let mut b = board(&["A", "B", "C"], "A");
    b.begin_delete();
    assert_eq!(b.confirm_delete(b"/d").content, "B\n");
    assert_eq!(b.cur, 0);
}

#[test]
fn rows_are_toggled_removed_and_added() {
    let mut b = board(&["A"], "A");
    let w = b.toggle_row(0, b"/d");
    assert_eq!(w.content, "- [x] a\n- [x] b\n");
    assert_eq!(b.toggle_row(1, b"/d").content, "- [x] a\n- [ ] b\n");
    assert_eq!(b.remove_row(0, b"/d").content, "- [ ] b\n");
    assert!(matches!(b.submit_input("", b"/d"), Submitted::Nothing));
    assert!(
        matches!(b.submit_input("c", b"/d"), Submitted::Added(w) if w.path == b"/d/lists/A.md" && w.content == "- [ ] b\n- [ ] c\n")
    );
    assert_eq!(b.items(), &[item("b", false), item("c", false)]);
    b.set_mode(Mode::NamingList);
    assert!(matches!(b.submit_input("", b"/d"), Submitted::Nothing));
    assert!(matches!(b.submit_input("name", b"/d"), Submitted::Create));
    assert_eq!(b.items().len(), 2);
}

#[test]
fn the_input_box_says_what_it_is_for() {
    assert_eq!(placeholder(Mode::Items, "A"), "Remember to…");
    assert_eq!(placeholder(Mode::NamingList, "A"), "Name the new list, then Enter");
    assert_eq!(placeholder(Mode::ConfirmDelete, "A"), "Enter deletes “A” · Esc keeps it");
    assert_eq!(input_value(true, " typed ", "old"), "typed");
    assert_eq!(input_value(false, "typed", " old "), "old");
}

#[test]
fn keys_do_what_they_do() {
    let q = KeyPress::Character("q".into());
    let key = |k: &KeyPress, ctrl: bool, editing: bool, mode: Mode| {
        key_action(true, false, ctrl, k, editing, mode)
    };
    assert_eq!(key(&q, true, false, Mode::Items), KeyAction::Exit);
    assert_eq!(key(&q, false, false, Mode::Items), KeyAction::Type);
    assert_eq!(key(&KeyPress::Escape, false, true, Mode::Items), KeyAction::Leave);
    assert_eq!(key(&KeyPress::Enter, false, true, Mode::Items), KeyAction::Submit);
    assert_eq!(key(&KeyPress::Enter, false, false, Mode::Items), KeyAction::Type);
    assert_eq!(key(&KeyPress::Enter, false, false, Mode::ConfirmDelete), KeyAction::Submit);
    assert_eq!(key(&KeyPress::Other, true, true, Mode::ConfirmDelete), KeyAction::Type);
    assert_eq!(key_action(false, false, true, &q, true, Mode::Items), KeyAction::Type);
    assert_eq!(key_action(true, true, true, &q, true, Mode::Items), KeyAction::Type);
}

#[test]
fn nothing_is_read_again_while_a_name_is_typed() {
    assert!(should_reload(Mode::Items, true));
    assert!(!should_reload(Mode::Items, false));
    assert!(!should_reload(Mode::NamingList, true));
    assert!(!should_reload(Mode::ConfirmDelete, true));
}
