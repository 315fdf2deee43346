use cce_list::{
    list_id_from_url, parse_items, parse_list, safe_title, serialize_items, serialize_list, Item,
};

fn item(text: &str, done: bool, uid: Option<&str>) -> Item {
    Item { text: text.into(), done, uid: uid.map(String::from) }
}

#[test]
fn checklist_round_trips() {
    let items = vec![
        Item { text: "water the plants".into(), done: false, uid: None },
        Item { text: "renew passport".into(), done: true, uid: Some("AB-12".into()) },
    ];
    assert_eq!(parse_items(&serialize_items(&items)), items);
}

/// A hand-edited file must survive a load/save cycle: plain lines are
/// adopted as items, not dropped, and `[X]` reads the same as `[x]`.
#[test]
fn foreign_lines_are_adopted_not_dropped() {
    let parsed = parse_items("buy stamps\n- [X] call mom\n\n  - [ ] indented\n");
    assert_eq!(
        parsed,
        vec![
            Item { text: "buy stamps".into(), done: false, uid: None },
            Item { text: "call mom".into(), done: true, uid: None },
            Item { text: "indented".into(), done: false, uid: None },
        ]
    );
}

#[test]
fn uid_comment_is_identity_not_text() {
    let parsed = parse_items("- [ ] call mom <!-- uid:X-1 -->\n- [ ] literal <!-- not a uid -->\n");
    assert_eq!(parsed[0], Item { text: "call mom".into(), done: false, uid: Some("X-1".into()) });
    // A comment that is not `uid:` stays part of the text.
    assert_eq!(parsed[1].uid, None);
    assert_eq!(parsed[1].text, "literal <!-- not a uid -->");
}

#[test]
fn list_header_round_trips_and_is_optional() {
    let items = vec![Item { text: "a".into(), done: false, uid: None }];
    let text = serialize_list(Some("MDM5"), &items);
    assert_eq!(parse_list(&text), (Some("MDM5".into()), items.clone()));
    // No header: a hand-made file is a local-only list, first line and all.
    assert_eq!(parse_list("- [ ] a\n"), (None, items));
    // A header that is not `list:` is just an adopted line.
    let (id, adopted) = parse_list("<!-- note -->\n- [ ] a\n");
    assert_eq!(id, None);
    assert_eq!(adopted.len(), 2);
}

#[test]
fn list_ids_come_from_urls_when_the_state_predates_them() {
    assert_eq!(
        list_id_from_url("https://tasks.googleapis.com/tasks/v1/lists/MDM5/tasks/abc"),
        "MDM5"
    );
    assert_eq!(
        list_id_from_url("https://p1-caldav.icloud.com/1/calendars/reminders/X.ics"),
        "https://p1-caldav.icloud.com/1/calendars/reminders/"
    );
}

#[test]
fn titles_become_safe_stems() {
    assert_eq!(safe_title("Home/Garden"), "Home-Garden");
    assert_eq!(safe_title("  "), "Untitled");
}

#[test]
fn stems_name_no_directory() {
    assert_eq!(safe_title("."), "Untitled");
    assert_eq!(safe_title(".."), "Untitled");
    assert_eq!(safe_title("../.."), "..-..");
    assert_eq!(safe_title(" . "), "Untitled");
    assert_eq!(safe_title("..."), "...");
    assert_eq!(safe_title(&safe_title(" a/b ")), "a-b");
}

#[test]
fn items_are_written_one_a_line() {
    let items = vec![item("call mom", false, None), item("done thing", true, Some("U"))];
    assert_eq!(
        serialize_items(&items),
        "- [ ] call mom\n- [x] done thing <!-- uid:U -->\n"
    );
    assert_eq!(serialize_items(&[]), "");
    assert_eq!(
        serialize_list(Some("L1"), &items[..1]),
        "<!-- list:L1 -->\n- [ ] call mom\n"
    );
    assert_eq!(serialize_list(None, &items[..1]), "- [ ] call mom\n");
}

#[test]
fn edge_lines_are_read() {
    // The last uid comment counts, and only at the end of the line.
    assert_eq!(
        parse_items("- [ ] a <!-- uid:1 --> <!-- uid:2 -->"),
        vec![item("a <!-- uid:1 -->", false, Some("2"))]
    );
    assert_eq!(
        parse_items("- [ ] a <!-- uid:1 --> b"),
        vec![item("a <!-- uid:1 --> b", false, None)]
    );
    // An empty identity is none.
    assert_eq!(parse_items("- [ ] a <!-- uid:  -->"), vec![item("a <!-- uid:  -->", false, None)]);
    // Without the space behind the brackets it is a plain line.
    assert_eq!(parse_items("- [ ]a"), vec![item("- [ ]a", false, None)]);
    // A carriage return before the line feed is part of the line end.
    assert_eq!(parse_items("- [x] a\r\n- [ ] b\r\n"), vec![item("a", true, None), item("b", false, None)]);
    assert_eq!(parse_items(""), Vec::<Item>::new());
    assert_eq!(parse_items("\n \n\t\n"), Vec::<Item>::new());
}

#[test]
fn header_may_follow_blank_lines() {
    assert_eq!(
        parse_list("\n  \n<!-- list: L9 -->\n- [ ] a\n"),
        (Some("L9".into()), vec![item("a", false, None)])
    );
    // An empty identity is no header.
    let (id, items) = parse_list("<!-- list: -->\n- [ ] a\n");
    assert_eq!(id, None);
    assert_eq!(items.len(), 2);
    assert_eq!(parse_list(""), (None, Vec::new()));
}

/// What was loaded is what is loaded again after a save.
#[test]
fn load_save_load_is_stable() {
    let odd = "<!-- list:L -->\n\n* bullet\n-  [ ] odd\n- [X] yes <!-- uid: u -->\n   tail <!-- uid:v-->  \n";
    let (id, items) = parse_list(odd);
    let again = serialize_list(id.as_deref(), &items);
    assert_eq!(parse_list(&again), (id, items));
}

/// A text that a line cannot hold does not come back as it was.
#[test]
fn unwritable_texts_do_not_round_trip() {
    let items = vec![item("two\nlines", false, None)];
    assert_ne!(parse_items(&serialize_items(&items)), items);
    let items = vec![item("ends like <!-- uid:X -->", false, None)];
    assert_ne!(parse_items(&serialize_items(&items)), items);
}

#[test]
fn urls_without_lists_give_their_collection() {
    assert_eq!(list_id_from_url("no slash"), "");
    assert_eq!(list_id_from_url("https://x/lists/A/lists/B/tasks/c"), "A");
    assert_eq!(list_id_from_url("https://x/lists/A"), "A");
    assert_eq!(list_id_from_url("https://x/lists/MDM5/tasks"), "MDM5");
    assert_eq!(list_id_from_url("a/b/c"), "a/b/");
}

/// A calendar may be named as Google names its lists; it is told by what
/// follows.
#[test]
fn a_calendar_named_lists_is_its_own_list() {
    assert_eq!(
        list_id_from_url("https://p1-caldav.icloud.com/1/calendars/lists/X.ics"),
        "https://p1-caldav.icloud.com/1/calendars/lists/"
    );
    assert_eq!(list_id_from_url("https://x/tasks/lists/X.ics"), "https://x/tasks/lists/");
    assert_eq!(
        list_id_from_url("https://tasks.googleapis.com/tasks/v1/lists/Q/tasks/t"),
        "Q"
    );
}
