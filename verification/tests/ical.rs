use cce_list::ical::{
    escape_text, new_uid, new_uid_at, new_vtodo, new_vtodo_at, parse_vtodo, patch_vtodo_at,
    split_content_line, unescape_text, unfold,
};
use cce_list::{parse_items, serialize_items, Item};

const ICS: &str = "BEGIN:VCALENDAR\r\nVERSION:2.0\r\nBEGIN:VTODO\r\nUID: u-1 \r\nSUMMARY:buy\r\n  milk\\, eg\r\n\tgs\r\nDUE;VALUE=DATE:20261001\r\nSTATUS:NEEDS-ACTION\r\nEND:VTODO\r\nEND:VCALENDAR\r\n";

#[test]
fn folded_lines_are_put_together() {
    assert_eq!(
        unfold("A:1\r\n 2\r\n\t3\r\n\r\nB:4\n"),
        vec!["A:123", "B:4"]
    );
    // Nothing before it to go on with: the line stays as it is.
    assert_eq!(unfold(" A:1\n B"), vec![" A:1B"]);
    assert_eq!(unfold(""), Vec::<String>::new());
    assert_eq!(unfold("\r\n\r\n"), Vec::<String>::new());
}

#[test]
fn colons_in_quotes_part_nothing() {
    let split = |s: &str| {
        let v: Vec<char> = s.chars().collect();
        split_content_line(&v)
            .map(|(h, t)| (h.iter().collect::<String>(), t.iter().collect::<String>()))
    };
    assert_eq!(split("A:b:c"), Some(("A".to_string(), "b:c".to_string())));
    assert_eq!(
        split("A;X=\"p:q\":v"),
        Some(("A;X=\"p:q\"".to_string(), "v".to_string()))
    );
    assert_eq!(split("A;X=\"p:q"), None);
    assert_eq!(split(""), None);
}

#[test]
fn escapes_come_and_go() {
    assert_eq!(escape_text("a,b;c\\d\ne"), "a\\,b\\;c\\\\d\\ne");
    assert_eq!(unescape_text("a\\,b\\;c\\\\d\\ne\\Nf\\x\\"), "a,b;c\\d e fx");
    for s in ["", "plain", "a,b", "\\", "\\\\n", ";,\\;", "ünï"] {
        assert_eq!(unescape_text(&escape_text(s)), s);
    }
    assert_eq!(unescape_text(&escape_text("a\nb")), "a b");
}

#[test]
fn calendars_are_read() {
    let t = parse_vtodo(ICS).unwrap();
    assert_eq!(t.uid, "u-1");
    assert_eq!(t.summary, "buy milk, eggs");
    assert!(!t.done);
    assert!(!t.recurring);
    assert_eq!(t.lines[4], "SUMMARY:buy milk\\, eggs");
    assert_eq!(t.lines.len(), 9);
}

#[test]
fn every_sign_of_completion_counts() {
    let with = |line: &str| {
        parse_vtodo(&format!("BEGIN:vtodo\nuid:U\n{line}\nEND:VTODO\n")).unwrap().done
    };
    assert!(with("STATUS: completed "));
    assert!(with("COMPLETED:20260101T000000Z"));
    assert!(with("PERCENT-COMPLETE: 100"));
    assert!(with("status;X=1:COMPLETED"));
    assert!(!with("STATUS:IN-PROCESS"));
    assert!(!with("PERCENT-COMPLETE:99"));
    assert!(!with("X-STATUS:COMPLETED"));
}

#[test]
fn recurring_items_are_told() {
    let with = |line: &str| {
        parse_vtodo(&format!("BEGIN:VTODO\nUID:U\n{line}\nEND:VTODO\n")).unwrap().recurring
    };
    assert!(with("RRULE:FREQ=DAILY"));
    assert!(with("RDATE:20260101"));
    assert!(!with("X-RRULE:FREQ=DAILY"));
}

#[test]
fn calendars_without_an_identity_are_none() {
    assert!(parse_vtodo("BEGIN:VTODO\nSUMMARY:x\nEND:VTODO\n").is_none());
    // Only what stands in the item counts.
    assert!(parse_vtodo("UID:out\nBEGIN:VTODO\nSUMMARY:x\nEND:VTODO\nUID:out\n").is_none());
    assert!(parse_vtodo("").is_none());
    assert!(parse_vtodo("BEGIN:VTODO\nUID:  \nEND:VTODO\n").is_none());
}

#[test]
fn a_patch_rewrites_four_properties_and_no_more() {
    let lines = unfold("BEGIN:VCALENDAR\nSUMMARY:of the calendar\nBEGIN:VTODO\nUID:u\nSUMMARY:old\nCOMPLETED:x\nPERCENT-COMPLETE:100\nSTATUS;A=b:COMPLETED\nDESCRIPTION:note\nEND:VTODO\nEND:VCALENDAR\n");
    assert_eq!(
        patch_vtodo_at(&lines, "new", false, "NOW"),
        "BEGIN:VCALENDAR\r\nSUMMARY:of the calendar\r\nBEGIN:VTODO\r\nUID:u\r\nDESCRIPTION:note\r\nSUMMARY:new\r\nSTATUS:NEEDS-ACTION\r\nPERCENT-COMPLETE:0\r\nEND:VTODO\r\nEND:VCALENDAR\r\n"
    );
    assert_eq!(
        patch_vtodo_at(&lines, "new", true, "NOW"),
        "BEGIN:VCALENDAR\r\nSUMMARY:of the calendar\r\nBEGIN:VTODO\r\nUID:u\r\nDESCRIPTION:note\r\nSUMMARY:new\r\nSTATUS:COMPLETED\r\nPERCENT-COMPLETE:100\r\nCOMPLETED:NOW\r\nEND:VTODO\r\nEND:VCALENDAR\r\n"
    );
    assert_eq!(patch_vtodo_at(&[], "new", true, "NOW"), "\r\n");
}

#[test]
fn a_patched_calendar_reads_as_patched() {
    for done in [false, true] {
        let t = parse_vtodo(&patch_vtodo_at(&unfold(ICS), "call, mom", done, "20261001T120000Z"))
            .unwrap();
        assert_eq!(t.uid, "u-1");
        assert_eq!(t.summary, "call, mom");
        assert_eq!(t.done, done);
        assert!(t.lines.contains(&"DUE;VALUE=DATE:20261001".to_string()));
    }
}

#[test]
fn a_new_calendar_reads_as_made() {
    assert_eq!(
        new_vtodo_at("U", "a;b", false, "NOW"),
        "BEGIN:VCALENDAR\r\nVERSION:2.0\r\nPRODID:-//cce//cce-list-sync//EN\r\nBEGIN:VTODO\r\nUID:U\r\nDTSTAMP:NOW\r\nCREATED:NOW\r\nSUMMARY:a\\;b\r\nSTATUS:NEEDS-ACTION\r\nEND:VTODO\r\nEND:VCALENDAR\r\n"
    );
    for done in [false, true] {
        let t = parse_vtodo(&new_vtodo("CCE-1", "x, y", done)).unwrap();
        assert_eq!(t.uid, "CCE-1");
        assert_eq!(t.summary, "x, y");
        assert_eq!(t.done, done);
        assert!(!t.recurring);
    }
}

/// A moment is written as year, month, day, `T`, time of day, `Z`.
#[test]
fn moments_have_their_shape() {
    let ics = new_vtodo("U", "x", true);
    let line = ics.lines().find(|l| l.starts_with("DTSTAMP:")).unwrap();
    let now = &line["DTSTAMP:".len()..];
    assert!(now.len() >= 16);
    let (date, time) = now.split_once('T').unwrap();
    assert!(date.trim_start_matches('+').chars().all(|c| c.is_ascii_digit()));
    assert_eq!(time.len(), 7);
    assert!(time.ends_with('Z'));
    assert!(time[..6].chars().all(|c| c.is_ascii_digit()));
    assert!(ics.contains(&format!("COMPLETED:{now}\r\n")));
}

#[test]
fn identities_come_from_random_bytes_or_the_clock() {
    let bytes = [0x00, 0x01, 0x0f, 0x10, 0xab, 0xcd, 0xef, 0xff, 1, 2, 3, 4, 5, 6, 7, 8];
    assert_eq!(new_uid(Some(bytes)), "CCE-00010F10-ABCDEFFF-0102030405060708");
    assert_eq!(new_uid_at(None, "NOW"), "CCE-NOW");
    let uid = new_uid(None);
    assert!(uid.starts_with("CCE-"));
    let now = &uid[4..];
    assert!(now.ends_with('Z'));
    let (_, time) = now.split_once('T').unwrap();
    assert_eq!(time.len(), 16);
}

#[test]
fn new_identities_differ_and_can_be_written() {
    let mut other = [7u8; 16];
    let a = new_uid(Some(other));
    other[15] = 8;
    let b = new_uid(Some(other));
    assert_ne!(a, b);
    let rows = vec![
        Item { text: "  one".into(), done: true, uid: Some(a) },
        Item { text: String::new(), done: false, uid: Some(b) },
    ];
    assert_eq!(parse_items(&serialize_items(&rows)), rows);
}

/// An alarm keeps its own summary, whatever the item's becomes.
#[test]
fn a_patch_leaves_alarms_alone() {
    let lines: Vec<String> = [
        "BEGIN:VTODO",
        "UID:u",
        "SUMMARY:old",
        "BEGIN:VALARM",
        "ACTION:EMAIL",
        "SUMMARY:alarm",
        "BEGIN:X-INNER",
        "STATUS:kept",
        "END:X-INNER",
        "END:VALARM",
        "STATUS:gone",
        "END:VTODO",
    ]
    .iter()
    .map(|s| s.to_string())
    .collect();
    let got = patch_vtodo_at(&lines, "new", false, "NOW");
    assert_eq!(
        got,
        "BEGIN:VTODO\r\nUID:u\r\nBEGIN:VALARM\r\nACTION:EMAIL\r\nSUMMARY:alarm\r\nBEGIN:X-INNER\r\nSTATUS:kept\r\nEND:X-INNER\r\nEND:VALARM\r\nSUMMARY:new\r\nSTATUS:NEEDS-ACTION\r\nPERCENT-COMPLETE:0\r\nEND:VTODO\r\n"
    );
    // The item's own summary comes last, so it is the one that is read.
    assert_eq!(parse_vtodo(&got).unwrap().summary, "new");
}
