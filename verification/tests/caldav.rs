use cce_list::caldav::{
    add_todos, calendar_lists, dav_request, delete_ics, delete_on_match, discover_href, fetch_etag,
    fetch_todos, list_calendar, put_condition, put_ics, todo_calendars, trim_slashes, PutCondition,
    PutOutcome,
};
use cce_list::map::OrdMap;

const ROOT: &str = "https://caldav.icloud.com/";

#[test]
fn principals_are_discovered() {
    let xml = r#"<?xml version="1.0"?><multistatus xmlns="DAV:"><response><href>/</href><propstat><prop><current-user-principal><href> /123/principal/ </href></current-user-principal></prop></propstat></response></multistatus>"#;
    assert_eq!(
        discover_href(ROOT, xml, "current-user-principal"),
        Ok("https://caldav.icloud.com/123/principal/".to_string())
    );
    assert_eq!(
        discover_href(ROOT, xml, "calendar-home-set"),
        Err("no calendar-home-set in PROPFIND response".to_string())
    );
    let other = r#"<m><calendar-home-set><href>https://p1.icloud.com:443/1/calendars/</href></calendar-home-set></m>"#;
    assert_eq!(
        discover_href(ROOT, other, "calendar-home-set"),
        Ok("https://p1.icloud.com/1/calendars/".to_string())
    );
}

#[test]
fn bad_answers_are_named() {
    let e = discover_href(ROOT, "<a>", "x").unwrap_err();
    assert!(e.starts_with("bad multistatus: "), "{}", e);
    assert!(e.len() > "bad multistatus: ".len());
    assert!(todo_calendars(ROOT, "").unwrap_err().starts_with("bad multistatus: "));
    let e = match fetch_todos(ROOT, "text") {
        Err(e) => e,
        Ok(_) => panic!("read as an answer"),
    };
    assert!(e.starts_with("bad multistatus: "));
    let bad = r#"<m><p><href>http://[</href></p></m>"#;
    let e = discover_href(ROOT, bad, "p").unwrap_err();
    assert!(e.starts_with("bad p href \"http://[\": "), "{}", e);
    assert_eq!(fetch_etag("<a>"), None);
}

/// A node without the text that is asked for, and one without a reference in
/// it, are none.
#[test]
fn the_first_property_decides() {
    let xml = r#"<m><p/><p><href>/a</href></p></m>"#;
    assert_eq!(discover_href(ROOT, xml, "p"), Err("no p in PROPFIND response".to_string()));
}

const CALENDARS: &str = r#"<?xml version="1.0"?>
<multistatus xmlns="DAV:" xmlns:C="urn:ietf:params:xml:ns:caldav">
 <response><href>/1/calendars/</href><propstat><prop><resourcetype><collection/><C:calendar/></resourcetype>
  <displayname>Home</displayname><C:supported-calendar-component-set><C:comp name="VTODO"/></C:supported-calendar-component-set></prop></propstat></response>
 <response><href>/1/calendars/work/</href><propstat><prop><resourcetype><collection/><C:calendar/></resourcetype>
  <displayname>Work</displayname><C:supported-calendar-component-set><C:comp name="VEVENT"/></C:supported-calendar-component-set></prop></propstat></response>
 <response><href> /1/calendars/reminders/ </href><propstat><prop><resourcetype><collection/><C:calendar/></resourcetype>
  <displayname>Reminders</displayname><C:supported-calendar-component-set><C:comp name="VEVENT"/><C:comp name="VTODO"/></C:supported-calendar-component-set></prop></propstat></response>
 <response><href>/1/calendars/plain/</href><propstat><prop><resourcetype><collection/></resourcetype>
  <C:supported-calendar-component-set><C:comp name="VTODO"/></C:supported-calendar-component-set></prop></propstat></response>
 <response><href>/1/calendars/unnamed/</href><propstat><prop><resourcetype><C:calendar/></resourcetype>
  <displayname/><C:supported-calendar-component-set><C:comp name="VTODO"/></C:supported-calendar-component-set></prop></propstat></response>
 <response><propstat><prop><resourcetype><C:calendar/></resourcetype><C:comp name="VTODO"/></prop></propstat></response>
 <response><href>/1/calendars/other/</href><calendar xmlns="urn:other"/><C:comp name="VTODO"/></response>
 <response><href>/1/calendars/spaced/</href><C:calendar/><C:comp xmlns:X="urn:x" X:name="VTODO"/></response>
</multistatus>"#;

#[test]
fn calendars_with_items_are_lists() {
    let got = todo_calendars("https://p1.icloud.com/1/calendars", CALENDARS).unwrap();
    assert_eq!(
        got,
        vec![
            (
                "https://p1.icloud.com/1/calendars/reminders/".to_string(),
                "Reminders".to_string()
            ),
            (
                "https://p1.icloud.com/1/calendars/unnamed/".to_string(),
                "/1/calendars/unnamed/".to_string()
            ),
            (
                "https://p1.icloud.com/1/calendars/spaced/".to_string(),
                "/1/calendars/spaced/".to_string()
            ),
        ]
    );
    let lists = match calendar_lists(&got) {
        Ok(lists) => lists,
        Err(e) => panic!("{}", e),
    };
    assert_eq!(lists.len(), 3);
    let l = lists.get("https://p1.icloud.com/1/calendars/reminders/").unwrap();
    assert_eq!(l.title, "Reminders");
    assert_eq!(l.etag, "");
    assert_eq!(l.create_target, "https://p1.icloud.com/1/calendars/reminders/");
    assert_eq!(
        calendar_lists(&[]).err().as_deref(),
        Some("no VTODO calendars (Reminders lists) found")
    );
}

#[test]
fn a_bad_reference_among_calendars_is_an_error() {
    let xml = r#"<m xmlns:C="urn:ietf:params:xml:ns:caldav"><response><href>http://[</href><C:calendar/><C:comp name="VTODO"/></response></m>"#;
    let e = todo_calendars("https://p1.icloud.com/1/", xml).unwrap_err();
    assert!(e.starts_with("bad href \"http://[\": "), "{}", e);
}

#[test]
fn the_home_is_no_calendar() {
    let u = || Ok("https://x/a/".to_string());
    assert_eq!(
        list_calendar("/a/", "n".into(), u(), Some("/a/".into()), Some("/a".into())),
        Ok(None)
    );
    assert_eq!(
        list_calendar("/a/", "n".into(), u(), Some("/a/".into()), Some("/b".into())),
        Ok(Some(("https://x/a/".to_string(), "n".to_string())))
    );
    assert_eq!(
        list_calendar("/\"a", "n".into(), Err("no".into()), None, None),
        Err("bad href \"/\\\"a\": no".to_string())
    );
    assert_eq!(trim_slashes("/a//"), "/a");
    assert_eq!(trim_slashes("//"), "");
    assert_eq!(trim_slashes("/a/b"), "/a/b");
}

#[test]
fn items_are_fetched() {
    let xml = r#"<D:multistatus xmlns:D="DAV:" xmlns:C="urn:ietf:params:xml:ns:caldav">
<D:response><D:href>/c/a.ics</D:href><D:propstat><D:prop><D:getetag>"e1"</D:getetag><C:calendar-data>BEGIN:VTODO
UID:A
SUMMARY:first
END:VTODO
</C:calendar-data></D:prop></D:propstat></D:response>
<D:response><D:href>b.ics</D:href><C:calendar-data>BEGIN:VTODO
UID:B
STATUS:COMPLETED
SUMMARY:second
END:VTODO
</C:calendar-data></D:response>
<D:response><D:href>/c/r.ics</D:href><C:calendar-data>BEGIN:VTODO
UID:R
RRULE:FREQ=DAILY
END:VTODO
</C:calendar-data></D:response>
<D:response><D:href>/c/bad.ics</D:href><C:calendar-data>nothing</C:calendar-data></D:response>
<D:response><D:href>/c/none.ics</D:href></D:response>
</D:multistatus>"#;
    let got = match fetch_todos("https://h/c/", xml) {
        Ok(t) => t,
        Err(e) => panic!("{}", e),
    };
    assert_eq!(got.recurring, 1);
    assert_eq!(got.unreadable, vec!["https://h/c/bad.ics"]);
    assert_eq!(got.found.len(), 2);
    let (uid, a) = &got.found[0];
    assert_eq!(uid, "A");
    assert_eq!(a.url, "https://h/c/a.ics");
    assert_eq!(a.etag, "\"e1\"");
    assert_eq!(a.summary, "first");
    assert!(!a.done);
    assert_eq!(a.list, "https://h/c/");
    assert_eq!(a.lines, vec!["BEGIN:VTODO", "UID:A", "SUMMARY:first", "END:VTODO"]);
    let (uid, b) = &got.found[1];
    assert_eq!(uid, "B");
    assert_eq!(b.url, "https://h/c/b.ics");
    assert_eq!(b.etag, "");
    assert!(b.done);

    let mut todos = OrdMap::new();
    add_todos(&mut todos, &got.found);
    assert_eq!(todos.len(), 2);
    assert_eq!(todos.get("B").unwrap().summary, "second");
}

#[test]
fn a_bad_reference_of_an_item_is_an_error() {
    let xml = r#"<m><response><href>http://[</href><calendar-data>x</calendar-data></response></m>"#;
    let e = match fetch_todos("https://h/c/", xml) {
        Err(e) => e,
        Ok(_) => panic!("read"),
    };
    assert!(e.starts_with("bad href \"http://[\": "), "{}", e);
}

#[test]
fn version_tags_are_fetched() {
    assert_eq!(
        fetch_etag("<m><response><getetag>\"v2\"</getetag></response></m>").as_deref(),
        Some("\"v2\"")
    );
    assert_eq!(fetch_etag("<m><getetag/></m>"), None);
    assert_eq!(fetch_etag("<m/>"), None);
}

#[test]
fn replies_are_judged_by_their_status() {
    assert_eq!(
        dav_request("REPORT", "https://h/", 207, "207 Multi-Status", "body".into()),
        Ok("body".to_string())
    );
    assert_eq!(
        dav_request("REPORT", "https://h/", 401, "401 Unauthorized", "body".into()),
        Err("REPORT https://h/: HTTP 401 Unauthorized".to_string())
    );
    assert_eq!(delete_ics("https://h/a", 204, "204 No Content"), Ok(()));
    assert_eq!(delete_ics("https://h/a", 404, "404 Not Found"), Ok(()));
    assert_eq!(
        delete_ics("https://h/a", 412, "412 Precondition Failed"),
        Err("DELETE https://h/a: HTTP 412 Precondition Failed".to_string())
    );
    assert!(delete_on_match("e"));
    assert!(!delete_on_match(""));
}

#[test]
fn calendars_are_written_on_a_condition() {
    assert_eq!(put_condition(Some("e")), PutCondition::IfMatch);
    assert_eq!(put_condition(Some("")), PutCondition::Always);
    assert_eq!(put_condition(None), PutCondition::IfNoneMatch);
    assert!(matches!(put_ics("u", 201, "201 Created", Some("t".into())), PutOutcome::Written(t) if t == "t"));
    assert!(matches!(put_ics("u", 204, "204 No Content", Some("".into())), PutOutcome::AskEtag));
    assert!(matches!(put_ics("u", 204, "204 No Content", None), PutOutcome::AskEtag));
    assert!(
        matches!(put_ics("u", 412, "412 Precondition Failed", None), PutOutcome::Failed(e) if e == "PUT u: HTTP 412 Precondition Failed")
    );
}
