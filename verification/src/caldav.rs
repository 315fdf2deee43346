//! The iCloud server: what is asked of it, and what its answers say. Each of
//! its calendars that holds items is a list, and the calendar's URL is the
//! list's identity.
use vstd::prelude::*;
use vstd::slice::*;

use crate::ical;
use crate::map::OrdMap;
use crate::outside;
use crate::outside::{XmlAttributeView, XmlNode, XmlNodeView};
use crate::remote::{RemoteList, RemoteListView, RemoteTodo, RemoteTodoView};
use crate::text;

verus! {

// ── Documents ─────────────────────────────────────────────────────────────

/// Node `j` is node `i` or stands somewhere in it.
pub open spec fn below(nodes: Seq<XmlNodeView>, i: int, j: int) -> bool
    decreases j,
{
    i == j || (0 <= j < nodes.len() && match nodes[j].parent {
        Some(p) => p < j && below(nodes, i, p as int),
        None => false,
    })
}

/// The first node, at or after position `from`, that `p` holds of.
pub open spec fn first_node(nodes: Seq<XmlNodeView>, from: int, p: spec_fn(int) -> bool) -> Option<
    int,
>
    decreases nodes.len() - from,
{
    if from < 0 || from >= nodes.len() {
        None
    } else if p(from) {
        Some(from)
    } else {
        first_node(nodes, from + 1, p)
    }
}

/// The first node with a name, in a document.
pub open spec fn named(nodes: Seq<XmlNodeView>, name: Seq<char>) -> Option<int> {
    first_node(nodes, 0, |j: int| nodes[j].name == name)
}

/// The first node with a name, in a node or that node itself.
pub open spec fn named_in(nodes: Seq<XmlNodeView>, i: int, name: Seq<char>) -> Option<int> {
    first_node(nodes, 0, |j: int| below(nodes, i, j) && nodes[j].name == name)
}

/// The first child of a node that has a name.
pub open spec fn child_named(nodes: Seq<XmlNodeView>, i: int, name: Seq<char>) -> Option<int> {
    first_node(nodes, 0, |j: int| nodes[j].parent == Some(i as usize) && nodes[j].name == name)
}

/// The text of a node that may be missing.
pub open spec fn text_at(nodes: Seq<XmlNodeView>, i: Option<int>) -> Option<Seq<char>> {
    match i {
        Some(k) => nodes[k].text,
        None => None,
    }
}

/// Whether node `j` is node `i` or stands somewhere in it.
fn is_below(nodes: &[XmlNode], i: usize, j: usize) -> (r: bool)
    requires
        j < nodes@.len(),
    ensures
        r == below(nodes.deep_view(), i as int, j as int),
{
    let ghost all = nodes.deep_view();
    let mut k: usize = j;
    while k != i
        invariant
            all == nodes.deep_view(),
            k < nodes@.len(),
            below(all, i as int, j as int) == below(all, i as int, k as int),
        decreases k,
    {
        assert(all[k as int] == nodes@[k as int].deep_view());
        match nodes[k].parent {
            Some(p) => {
                if p >= k {
                    return false;
                }
                k = p;
            },
            None => {
                return false;
            },
        }
    }
    true
}

/// The first node with a name.
fn find_named(nodes: &[XmlNode], name: &str) -> (r: Option<usize>)
    ensures
        match r {
            Some(k) => named(nodes.deep_view(), name@) == Some(k as int) && k < nodes@.len(),
            None => named(nodes.deep_view(), name@) is None,
        },
{
    let ghost all = nodes.deep_view();
    let ghost p = |j: int| all[j].name == name@;
    let n: usize = nodes.len();
    let mut j: usize = 0;
    while j < n
        invariant
            n == nodes@.len(),
            j <= n,
            all == nodes.deep_view(),
            p == (|j: int| all[j].name == name@),
            first_node(all, j as int, p) == first_node(all, 0, p),
        decreases n - j,
    {
        assert(all[j as int] == nodes@[j as int].deep_view());
        if text::same_str(nodes[j].name.as_str(), name) {
            return Some(j);
        }
        j = j + 1;
    }
    None
}

/// The first node with a name, in a node.
fn find_named_in(nodes: &[XmlNode], i: usize, name: &str) -> (r: Option<usize>)
    ensures
        match r {
            Some(k) => named_in(nodes.deep_view(), i as int, name@) == Some(k as int) && k
                < nodes@.len(),
            None => named_in(nodes.deep_view(), i as int, name@) is None,
        },
{
    let ghost all = nodes.deep_view();
    let ghost p = |j: int| below(all, i as int, j) && all[j].name == name@;
    let n: usize = nodes.len();
    let mut j: usize = 0;
    while j < n
        invariant
            n == nodes@.len(),
            j <= n,
            all == nodes.deep_view(),
            p == (|j: int| below(all, i as int, j) && all[j].name == name@),
            first_node(all, j as int, p) == first_node(all, 0, p),
        decreases n - j,
    {
        assert(all[j as int] == nodes@[j as int].deep_view());
        if text::same_str(nodes[j].name.as_str(), name) && is_below(nodes, i, j) {
            return Some(j);
        }
        j = j + 1;
    }
    None
}

/// The first child of a node that has a name.
fn find_child(nodes: &[XmlNode], i: usize, name: &str) -> (r: Option<usize>)
    ensures
        match r {
            Some(k) => child_named(nodes.deep_view(), i as int, name@) == Some(k as int) && k
                < nodes@.len(),
            None => child_named(nodes.deep_view(), i as int, name@) is None,
        },
{
    let ghost all = nodes.deep_view();
    let ghost p = |j: int| all[j].parent == Some(i) && all[j].name == name@;
    assert(p =~= (|j: int| all[j].parent == Some((i as int) as usize) && all[j].name == name@));
    let n: usize = nodes.len();
    let mut j: usize = 0;
    while j < n
        invariant
            n == nodes@.len(),
            j <= n,
            all == nodes.deep_view(),
            p == (|j: int| all[j].parent == Some(i) && all[j].name == name@),
            first_node(all, j as int, p) == first_node(all, 0, p),
        decreases n - j,
    {
        assert(all[j as int] == nodes@[j as int].deep_view());
        let child = match nodes[j].parent {
            Some(p) => p == i,
            None => false,
        };
        if child && text::same_str(nodes[j].name.as_str(), name) {
            return Some(j);
        }
        j = j + 1;
    }
    None
}

/// The text of a node that may be missing.
fn text_of(nodes: &[XmlNode], i: Option<usize>) -> (r: Option<String>)
    requires
        i is Some ==> i->0 < nodes@.len(),
    ensures
        r.deep_view() == text_at(
            nodes.deep_view(),
            match i {
                Some(k) => Some(k as int),
                None => None,
            },
        ),
{
    match i {
        Some(k) => {
            assert(nodes.deep_view()[k as int] == nodes@[k as int].deep_view());
            crate::model::copy_opt(&nodes[k].text)
        },
        None => None,
    }
}

// ── Discovery ─────────────────────────────────────────────────────────────

/// The reference in the first property with a name.
pub open spec fn href_in(nodes: Seq<XmlNodeView>, prop: Seq<char>) -> Option<Seq<char>> {
    match named(nodes, prop) {
        Some(i) => text_at(nodes, named_in(nodes, i, "href"@)),
        None => None,
    }
}

/// The reference in the first property with a name.
pub fn find_href(nodes: &[XmlNode], prop: &str) -> (r: Option<String>)
    ensures
        r.deep_view() == href_in(nodes.deep_view(), prop@),
{
    match find_named(nodes, prop) {
        Some(i) => text_of(nodes, find_named_in(nodes, i, "href")),
        None => None,
    }
}

/// The URL that a property's reference stands for, given what it was read as.
pub open spec fn href_url(
    prop: Seq<char>,
    href: Seq<char>,
    url: Result<Seq<char>, Seq<char>>,
) -> Result<Seq<char>, Seq<char>> {
    match url {
        Ok(u) => Ok(u),
        Err(e) => Err("bad "@ + prop + " href "@ + outside::quoted(href) + ": "@ + e),
    }
}

/// What a property of an answer says, given the answer as a document.
pub open spec fn discovered(
    base: Seq<char>,
    doc: Result<Seq<XmlNodeView>, Seq<char>>,
    prop: Seq<char>,
) -> Result<Seq<char>, Seq<char>> {
    match doc {
        Err(e) => Err("bad multistatus: "@ + e),
        Ok(nodes) => match href_in(nodes, prop) {
            None => Err("no "@ + prop + " in PROPFIND response"@),
            Some(href) => href_url(
                prop,
                href,
                outside::joined_url(base, text::trim(href)),
            ),
        },
    }
}

/// The URL that a property of an answer refers to. `url` is where the answer
/// came from.
pub fn discover_href(url: &str, xml: &str, prop: &str) -> (r: Result<String, String>)
    ensures
        outside::as_texts(r) == discovered(url@, outside::parsed_xml(xml@), prop@),
{
    let nodes = match outside::parse_xml(xml) {
        Ok(nodes) => nodes,
        Err(e) => {
            let mut s = "bad multistatus: ".to_string();
            s.append(e.as_str());
            return Err(s);
        },
    };
    let href = match find_href(nodes.as_slice(), prop) {
        Some(href) => href,
        None => {
            let mut s = "no ".to_string();
            s.append(prop);
            s.append(" in PROPFIND response");
            return Err(s);
        },
    };
    match outside::join_url(url, text::trimmed_string(href.as_str()).as_str()) {
        Ok(u) => Ok(u),
        Err(e) => {
            let mut s = "bad ".to_string();
            s.append(prop);
            s.append(" href ");
            s.append(outside::quote(href.as_str()).as_str());
            s.append(": ");
            s.append(e.as_str());
            Err(s)
        },
    }
}

// ── Calendars ─────────────────────────────────────────────────────────────

/// The namespace of the calendar extensions.
pub open spec fn caldav_ns() -> Seq<char> {
    "urn:ietf:params:xml:ns:caldav"@
}

/// A node that stands for a calendar.
pub open spec fn is_calendar(node: XmlNodeView) -> bool {
    node.name == "calendar"@ && node.namespace == Some(caldav_ns())
}

/// The value of the first attribute with a name, whatever its namespace.
pub open spec fn attribute(attributes: Seq<XmlAttributeView>, name: Seq<char>) -> Option<Seq<char>>
    decreases attributes.len(),
{
    if attributes.len() == 0 {
        None
    } else if attributes[0].name == name {
        Some(attributes[0].value)
    } else {
        attribute(attributes.skip(1), name)
    }
}

/// A node that says that a calendar holds items.
pub open spec fn says_vtodo(node: XmlNodeView) -> bool {
    node.name == "comp"@ && attribute(node.attributes, "name"@) == Some("VTODO"@)
}

/// The reference and the name of the calendar that a node of an answer speaks
/// of: a response with a reference, for a calendar that says that it holds
/// items. A calendar without a name is called by its reference.
pub open spec fn calendar_at(nodes: Seq<XmlNodeView>, i: int) -> Option<(Seq<char>, Seq<char>)> {
    let href = text_at(nodes, child_named(nodes, i, "href"@));
    let name = text_at(nodes, named_in(nodes, i, "displayname"@));
    let calendar = first_node(nodes, 0, |j: int| below(nodes, i, j) && is_calendar(nodes[j]));
    let vtodo = first_node(nodes, 0, |j: int| below(nodes, i, j) && says_vtodo(nodes[j]));
    if nodes[i].name == "response"@ && href is Some && calendar is Some && vtodo is Some {
        Some(
            (
                href->0,
                match name {
                    Some(n) => n,
                    None => href->0,
                },
            ),
        )
    } else {
        None
    }
}

/// The value of an element's attribute.
fn find_attribute(node: &XmlNode, name: &str) -> (r: Option<String>)
    ensures
        r.deep_view() == attribute(node.attributes.deep_view(), name@),
{
    let ghost all = node.attributes.deep_view();
    assert(all.skip(0) =~= all);
    let n: usize = node.attributes.len();
    let mut i: usize = 0;
    while i < n
        invariant
            n == node.attributes@.len(),
            i <= n,
            all == node.attributes.deep_view(),
            attribute(all.skip(i as int), name@) == attribute(all, name@),
        decreases n - i,
    {
        let a = &node.attributes[i];
        assert(all.skip(i as int).skip(1) =~= all.skip(i + 1));
        assert(all.skip(i as int)[0] == a.deep_view());
        if text::same_str(a.name.as_str(), name) {
            return Some(a.value.clone());
        }
        i = i + 1;
    }
    None
}

/// Whether some node in a node stands for a calendar.
fn holds_calendar(nodes: &[XmlNode], i: usize) -> (r: bool)
    ensures
        r == (first_node(
            nodes.deep_view(),
            0,
            |j: int| below(nodes.deep_view(), i as int, j) && is_calendar(nodes.deep_view()[j]),
        ) is Some),
{
    let ghost all = nodes.deep_view();
    let ghost p = |j: int| below(all, i as int, j) && is_calendar(all[j]);
    let n: usize = nodes.len();
    let mut j: usize = 0;
    while j < n
        invariant
            n == nodes@.len(),
            j <= n,
            all == nodes.deep_view(),
            p == (|j: int| below(all, i as int, j) && is_calendar(all[j])),
            first_node(all, j as int, p) == first_node(all, 0, p),
        decreases n - j,
    {
        assert(all[j as int] == nodes@[j as int].deep_view());
        if text::same_str(nodes[j].name.as_str(), "calendar") && text::is_text(
            &nodes[j].namespace,
            "urn:ietf:params:xml:ns:caldav",
        ) && is_below(nodes, i, j) {
            return true;
        }
        j = j + 1;
    }
    false
}

/// Whether some node in a node says that a calendar holds items.
fn holds_vtodo(nodes: &[XmlNode], i: usize) -> (r: bool)
    ensures
        r == (first_node(
            nodes.deep_view(),
            0,
            |j: int| below(nodes.deep_view(), i as int, j) && says_vtodo(nodes.deep_view()[j]),
        ) is Some),
{
    let ghost all = nodes.deep_view();
    let ghost p = |j: int| below(all, i as int, j) && says_vtodo(all[j]);
    let n: usize = nodes.len();
    let mut j: usize = 0;
    while j < n
        invariant
            n == nodes@.len(),
            j <= n,
            all == nodes.deep_view(),
            p == (|j: int| below(all, i as int, j) && says_vtodo(all[j])),
            first_node(all, j as int, p) == first_node(all, 0, p),
        decreases n - j,
    {
        assert(all[j as int] == nodes@[j as int].deep_view());
        if text::same_str(nodes[j].name.as_str(), "comp") && text::is_text(
            &find_attribute(&nodes[j], "name"),
            "VTODO",
        ) && is_below(nodes, i, j) {
            return true;
        }
        j = j + 1;
    }
    false
}

/// The reference and the name of the calendar that a node of an answer speaks
/// of.
pub fn calendar_of(nodes: &[XmlNode], i: usize) -> (r: Option<(String, String)>)
    requires
        i < nodes@.len(),
    ensures
        r.deep_view() == calendar_at(nodes.deep_view(), i as int),
{
    assert(nodes.deep_view()[i as int] == nodes@[i as int].deep_view());
    if !text::same_str(nodes[i].name.as_str(), "response") {
        return None;
    }
    let href = match text_of(nodes, find_child(nodes, i, "href")) {
        Some(href) => href,
        None => {
            return None;
        },
    };
    if !holds_calendar(nodes, i) || !holds_vtodo(nodes, i) {
        return None;
    }
    let name = match text_of(nodes, find_named_in(nodes, i, "displayname")) {
        Some(name) => name,
        None => href.clone(),
    };
    Some((href, name))
}

/// A path without the slashes that end it.
pub open spec fn without_slashes(path: Seq<char>) -> Seq<char>
    decreases path.len(),
{
    if path.len() > 0 && path.last() == '/' {
        without_slashes(path.drop_last())
    } else {
        path
    }
}

/// A path without the slashes that end it.
pub fn trim_slashes(path: &str) -> (r: String)
    ensures
        r@ == without_slashes(path@),
{
    let v = text::chars_of(path);
    let mut n: usize = v.len();
    assert(v@.take(n as int) =~= v@);
    while n > 0 && v[n - 1] == '/'
        invariant
            n <= v@.len(),
            v@ == path@,
            without_slashes(v@.take(n as int)) == without_slashes(path@),
        decreases n,
    {
        assert(v@.take(n as int).drop_last() =~= v@.take(n - 1));
        n = n - 1;
    }
    text::string_of(slice_subrange(v.as_slice(), 0, n))
}

/// Two paths are the same but for slashes that end them.
pub open spec fn same_place(a: Option<Seq<char>>, b: Option<Seq<char>>) -> bool {
    match (a, b) {
        (Some(p), Some(q)) => without_slashes(p) == without_slashes(q),
        _ => false,
    }
}

/// The calendar that a response speaks of, given what its reference was read
/// as, and the paths of that and of the calendars' home. The home itself is no
/// calendar.
pub open spec fn listed(
    found: (Seq<char>, Seq<char>),
    url: Result<Seq<char>, Seq<char>>,
    path: Option<Seq<char>>,
    home_path: Option<Seq<char>>,
) -> Result<Option<(Seq<char>, Seq<char>)>, Seq<char>> {
    match url {
        Err(e) => Err("bad href "@ + outside::quoted(found.0) + ": "@ + e),
        Ok(u) => if same_place(path, home_path) {
            Ok(None)
        } else {
            Ok(Some((u, found.1)))
        },
    }
}

/// What a URL's path is, where it was read.
pub open spec fn path_after(url: Result<Seq<char>, Seq<char>>) -> Option<Seq<char>> {
    match url {
        Ok(u) => outside::path_of_url(u),
        Err(e) => None,
    }
}

/// The calendars that the first `n` nodes of an answer speak of, or the first
/// error.
pub open spec fn calendars_upto(nodes: Seq<XmlNodeView>, home: Seq<char>, n: int) -> Result<
    Seq<(Seq<char>, Seq<char>)>,
    Seq<char>,
>
    decreases n,
{
    if n <= 0 {
        Ok(Seq::empty())
    } else {
        match calendars_upto(nodes, home, n - 1) {
            Err(e) => Err(e),
            Ok(before) => match calendar_at(nodes, n - 1) {
                None => Ok(before),
                Some(found) => {
                    let url = outside::joined_url(home, text::trim(found.0));
                    match listed(found, url, path_after(url), outside::path_of_url(home)) {
                        Err(e) => Err(e),
                        Ok(None) => Ok(before),
                        Ok(Some(calendar)) => Ok(before.push(calendar)),
                    }
                },
            },
        }
    }
}

/// The calendars in an answer, given the answer as a document.
pub open spec fn calendars(home: Seq<char>, doc: Result<Seq<XmlNodeView>, Seq<char>>) -> Result<
    Seq<(Seq<char>, Seq<char>)>,
    Seq<char>,
> {
    match doc {
        Err(e) => Err("bad multistatus: "@ + e),
        Ok(nodes) => calendars_upto(nodes, home, nodes.len() as int),
    }
}

/// The calendar that a response speaks of, given what its reference was read
/// as, and the paths of that and of the calendars' home.
pub fn list_calendar(
    href: &str,
    name: String,
    url: Result<String, String>,
    path: Option<String>,
    home_path: Option<String>,
) -> (r: Result<Option<(String, String)>, String>)
    ensures
        match r {
            Ok(c) => listed(
                (href@, name@),
                outside::as_texts(url),
                path.deep_view(),
                home_path.deep_view(),
            ) == Ok::<Option<(Seq<char>, Seq<char>)>, Seq<char>>(c.deep_view()),
            Err(e) => listed(
                (href@, name@),
                outside::as_texts(url),
                path.deep_view(),
                home_path.deep_view(),
            ) == Err::<Option<(Seq<char>, Seq<char>)>, Seq<char>>(e@),
        },
{
    match url {
        Err(e) => {
            let mut s = "bad href ".to_string();
            s.append(outside::quote(href).as_str());
            s.append(": ");
            s.append(e.as_str());
            Err(s)
        },
        Ok(u) => {
            if let (Some(p), Some(q)) = (path, home_path) {
                if text::same_str(
                    trim_slashes(p.as_str()).as_str(),
                    trim_slashes(q.as_str()).as_str(),
                ) {
                    return Ok(None);
                }
            }
            Ok(Some((u, name)))
        },
    }
}

/// The calendars in an answer, as their URLs and names. `home` is where the
/// answer came from.
pub fn todo_calendars(home: &str, xml: &str) -> (r: Result<Vec<(String, String)>, String>)
    ensures
        match r {
            Ok(c) => calendars(home@, outside::parsed_xml(xml@)) == Ok::<
                Seq<(Seq<char>, Seq<char>)>,
                Seq<char>,
            >(c.deep_view()),
            Err(e) => calendars(home@, outside::parsed_xml(xml@)) == Err::<
                Seq<(Seq<char>, Seq<char>)>,
                Seq<char>,
            >(e@),
        },
{
    let nodes = match outside::parse_xml(xml) {
        Ok(nodes) => nodes,
        Err(e) => {
            let mut s = "bad multistatus: ".to_string();
            s.append(e.as_str());
            return Err(s);
        },
    };
    let ghost all = nodes.deep_view();
    let mut out: Vec<(String, String)> = Vec::new();
    assert(out.deep_view() =~= Seq::empty());
    let n: usize = nodes.len();
    let mut i: usize = 0;
    while i < n
        invariant
            n == nodes@.len(),
            i <= n,
            all == nodes.deep_view(),
            outside::parsed_xml(xml@) == Ok::<Seq<XmlNodeView>, Seq<char>>(all),
            calendars_upto(all, home@, i as int) == Ok::<
                Seq<(Seq<char>, Seq<char>)>,
                Seq<char>,
            >(out.deep_view()),
        decreases n - i,
    {
        let ghost had = out.deep_view();
        if let Some((href, name)) = calendar_of(nodes.as_slice(), i) {
            let url = outside::join_url(home, text::trimmed_string(href.as_str()).as_str());
            let path = match &url {
                Ok(u) => outside::url_path(u.as_str()),
                Err(_) => None,
            };
            let home_path = outside::url_path(home);
            match list_calendar(href.as_str(), name, url, path, home_path) {
                Err(e) => {
                    assert(calendars_upto(all, home@, i + 1) is Err);
                    proof {
                        lemma_error_stays(all, home@, i + 1, n as int);
                    }
                    return Err(e);
                },
                Ok(None) => {},
                Ok(Some(c)) => {
                    let ghost cv = c.deep_view();
                    out.push(c);
                    assert(out.deep_view() =~= had.push(cv));
                },
            }
        }
        i = i + 1;
    }
    Ok(out)
}

/// Nothing follows the first error.
proof fn lemma_error_stays(nodes: Seq<XmlNodeView>, home: Seq<char>, i: int, n: int)
    requires
        0 <= i <= n,
        calendars_upto(nodes, home, i) is Err,
    ensures
        calendars_upto(nodes, home, n) == calendars_upto(nodes, home, i),
    decreases n - i,
{
    if i < n {
        lemma_error_stays(nodes, home, i, n - 1);
    }
}

/// The lists that calendars are, by their URLs.
pub open spec fn calendar_lists_of(calendars: Seq<(Seq<char>, Seq<char>)>) -> Map<
    Seq<char>,
    RemoteListView,
>
    decreases calendars.len(),
{
    if calendars.len() == 0 {
        Map::empty()
    } else {
        let (url, name) = calendars.last();
        calendar_lists_of(calendars.drop_last()).insert(
            url,
            (RemoteListView { title: name, etag: Seq::empty(), create_target: url }),
        )
    }
}

/// The lists that calendars are, by their URLs. There is none to sync where
/// there is no calendar.
pub fn calendar_lists(calendars: &[(String, String)]) -> (r: Result<OrdMap<RemoteList>, String>)
    ensures
        r is Err == (calendars@.len() == 0),
        r matches Ok(lists) ==> lists@ == calendar_lists_of(calendars.deep_view()),
        r matches Err(e) ==> e@ == "no VTODO calendars (Reminders lists) found"@,
{
    if calendars.len() == 0 {
        return Err("no VTODO calendars (Reminders lists) found".to_string());
    }
    let ghost all = calendars.deep_view();
    let mut out: OrdMap<RemoteList> = OrdMap::new();
    for i in 0..calendars.len()
        invariant
            all == calendars.deep_view(),
            out@ == calendar_lists_of(all.take(i as int)),
    {
        let c = &calendars[i];
        proof {
            assert(all[i as int] == c.deep_view());
            assert(all.take(i + 1).drop_last() =~= all.take(i as int));
        }
        let list = RemoteList {
            title: c.1.clone(),
            etag: String::new(),
            create_target: c.0.clone(),
        };
        assert(list.etag@ =~= Seq::empty());
        out.insert(c.0.clone(), list);
    }
    assert(all.take(all.len() as int) =~= all);
    Ok(out)
}

// ── Items ─────────────────────────────────────────────────────────────────

/// What a response says of an item: its reference, its version tag, and its
/// calendar.
pub struct Resource {
    pub href: String,
    pub etag: String,
    pub ics: String,
}

/// What a response says of an item, as plain values.
pub struct ResourceView {
    pub href: Seq<char>,
    pub etag: Seq<char>,
    pub ics: Seq<char>,
}

impl DeepView for Resource {
    type V = ResourceView;

    open spec fn deep_view(&self) -> ResourceView {
        ResourceView { href: self.href@, etag: self.etag@, ics: self.ics@ }
    }
}

/// A text, or the empty one where it is missing.
pub open spec fn or_empty(t: Option<Seq<char>>) -> Seq<char> {
    match t {
        Some(s) => s,
        None => Seq::empty(),
    }
}

/// What a node of an answer says of an item: a response with a calendar.
pub open spec fn resource_at(nodes: Seq<XmlNodeView>, i: int) -> Option<ResourceView> {
    let ics = text_at(nodes, named_in(nodes, i, "calendar-data"@));
    if nodes[i].name == "response"@ && ics is Some {
        Some(
            ResourceView {
                href: or_empty(text_at(nodes, child_named(nodes, i, "href"@))),
                etag: or_empty(text_at(nodes, named_in(nodes, i, "getetag"@))),
                ics: ics->0,
            },
        )
    } else {
        None
    }
}

/// A text, or the empty one where it is missing.
fn text_or_empty(t: Option<String>) -> (r: String)
    ensures
        r@ == or_empty(t.deep_view()),
{
    match t {
        Some(s) => s,
        None => String::new(),
    }
}

/// What a node of an answer says of an item.
pub fn resource_of(nodes: &[XmlNode], i: usize) -> (r: Option<Resource>)
    requires
        i < nodes@.len(),
    ensures
        r.deep_view() == resource_at(nodes.deep_view(), i as int),
{
    assert(nodes.deep_view()[i as int] == nodes@[i as int].deep_view());
    if !text::same_str(nodes[i].name.as_str(), "response") {
        return None;
    }
    let ics = match text_of(nodes, find_named_in(nodes, i, "calendar-data")) {
        Some(ics) => ics,
        None => {
            return None;
        },
    };
    let href = text_or_empty(text_of(nodes, find_child(nodes, i, "href")));
    let etag = text_or_empty(text_of(nodes, find_named_in(nodes, i, "getetag")));
    Some(Resource { href, etag, ics })
}

/// The items of a calendar: those that are synced with their identities, how
/// many come again and are left alone, and the URLs of those that could not
/// be read.
pub struct Todos {
    pub found: Vec<(String, RemoteTodo)>,
    pub recurring: usize,
    pub unreadable: Vec<String>,
}

/// The items of a calendar, as plain values.
pub struct TodosView {
    pub found: Seq<(Seq<char>, RemoteTodoView)>,
    pub recurring: nat,
    pub unreadable: Seq<Seq<char>>,
}

impl DeepView for Todos {
    type V = TodosView;

    open spec fn deep_view(&self) -> TodosView {
        TodosView {
            found: self.found.deep_view(),
            recurring: self.recurring as nat,
            unreadable: self.unreadable.deep_view(),
        }
    }
}

/// What one response adds to the items of a calendar.
pub open spec fn with_resource(
    before: TodosView,
    resource: ResourceView,
    url: Seq<char>,
    cal: Seq<char>,
) -> TodosView {
    let lines = ical::logical_lines(resource.ics);
    let t = ical::read_lines(lines);
    if t.uid.len() == 0 {
        TodosView { unreadable: before.unreadable.push(url), ..before }
    } else if t.recurring {
        TodosView { recurring: before.recurring + 1, ..before }
    } else {
        TodosView {
            found: before.found.push(
                (
                    t.uid,
                    RemoteTodoView {
                        url,
                        etag: resource.etag,
                        summary: t.summary,
                        done: t.done,
                        lines,
                        list: cal,
                    },
                ),
            ),
            ..before
        }
    }
}

/// The items that the first `n` nodes of an answer speak of, or the first
/// error.
pub open spec fn todos_upto(nodes: Seq<XmlNodeView>, cal: Seq<char>, n: int) -> Result<
    TodosView,
    Seq<char>,
>
    decreases n,
{
    if n <= 0 {
        Ok(TodosView { found: Seq::empty(), recurring: 0, unreadable: Seq::empty() })
    } else {
        match todos_upto(nodes, cal, n - 1) {
            Err(e) => Err(e),
            Ok(before) => match resource_at(nodes, n - 1) {
                None => Ok(before),
                Some(resource) => match outside::joined_url(cal, text::trim(resource.href)) {
                    Err(e) => Err("bad href "@ + outside::quoted(resource.href) + ": "@ + e),
                    Ok(url) => Ok(with_resource(before, resource, url, cal)),
                },
            },
        }
    }
}

/// The items in an answer, given the answer as a document.
pub open spec fn todos_in_answer(
    cal: Seq<char>,
    doc: Result<Seq<XmlNodeView>, Seq<char>>,
) -> Result<TodosView, Seq<char>> {
    match doc {
        Err(e) => Err("bad multistatus: "@ + e),
        Ok(nodes) => todos_upto(nodes, cal, nodes.len() as int),
    }
}

/// Adds what one response says to the items of a calendar.
pub fn add_resource(todos: &mut Todos, resource: &Resource, url: String, cal: &str)
    requires
        old(todos).recurring < usize::MAX,
    ensures
        final(todos).deep_view() == with_resource(
            old(todos).deep_view(),
            resource.deep_view(),
            url@,
            cal@,
        ),
        final(todos).recurring <= old(todos).recurring + 1,
{
    let ghost was = todos.deep_view();
    match ical::parse_vtodo(resource.ics.as_str()) {
        None => {
            let ghost u = url@;
            todos.unreadable.push(url);
            assert(todos.unreadable.deep_view() =~= was.unreadable.push(u));
        },
        Some(t) => {
            if t.recurring {
                todos.recurring = todos.recurring + 1;
            } else {
                let todo = RemoteTodo {
                    url,
                    etag: resource.etag.clone(),
                    summary: t.summary,
                    done: t.done,
                    lines: t.lines,
                    list: cal.to_string(),
                };
                let ghost entry = (t.uid@, todo.deep_view());
                todos.found.push((t.uid, todo));
                assert(todos.found.deep_view() =~= was.found.push(entry));
            }
        },
    }
}

/// Nothing follows the first error.
proof fn lemma_todo_error_stays(nodes: Seq<XmlNodeView>, cal: Seq<char>, i: int, n: int)
    requires
        0 <= i <= n,
        todos_upto(nodes, cal, i) is Err,
    ensures
        todos_upto(nodes, cal, n) == todos_upto(nodes, cal, i),
    decreases n - i,
{
    if i < n {
        lemma_todo_error_stays(nodes, cal, i, n - 1);
    }
}

/// The items in a calendar's answer. `cal` is the calendar's URL.
pub fn fetch_todos(cal: &str, xml: &str) -> (r: Result<Todos, String>)
    ensures
        match r {
            Ok(t) => todos_in_answer(cal@, outside::parsed_xml(xml@)) == Ok::<
                TodosView,
                Seq<char>,
            >(t.deep_view()),
            Err(e) => todos_in_answer(cal@, outside::parsed_xml(xml@)) == Err::<
                TodosView,
                Seq<char>,
            >(e@),
        },
{
    let nodes = match outside::parse_xml(xml) {
        Ok(nodes) => nodes,
        Err(e) => {
            let mut s = "bad multistatus: ".to_string();
            s.append(e.as_str());
            return Err(s);
        },
    };
    let ghost all = nodes.deep_view();
    let mut out = Todos { found: Vec::new(), recurring: 0, unreadable: Vec::new() };
    assert(out.found.deep_view() =~= Seq::empty());
    assert(out.unreadable.deep_view() =~= Seq::empty());
    let n: usize = nodes.len();
    let mut i: usize = 0;
    while i < n
        invariant
            n == nodes@.len(),
            i <= n,
            out.recurring <= i,
            all == nodes.deep_view(),
            outside::parsed_xml(xml@) == Ok::<Seq<XmlNodeView>, Seq<char>>(all),
            todos_upto(all, cal@, i as int) == Ok::<TodosView, Seq<char>>(out.deep_view()),
        decreases n - i,
    {
        if let Some(resource) = resource_of(nodes.as_slice(), i) {
            match outside::join_url(cal, text::trimmed_string(resource.href.as_str()).as_str()) {
                Ok(url) => {
                    add_resource(&mut out, &resource, url, cal);
                },
                Err(e) => {
                    let mut s = "bad href ".to_string();
                    s.append(outside::quote(resource.href.as_str()).as_str());
                    s.append(": ");
                    s.append(e.as_str());
                    proof {
                        assert(todos_upto(all, cal@, i + 1) is Err);
                        lemma_todo_error_stays(all, cal@, i + 1, n as int);
                    }
                    return Err(s);
                },
            }
        }
        i = i + 1;
    }
    Ok(out)
}

/// A map with some items added in order, each in the place of one with its
/// identity.
pub open spec fn with_todos(
    todos: Map<Seq<char>, RemoteTodoView>,
    found: Seq<(Seq<char>, RemoteTodoView)>,
) -> Map<Seq<char>, RemoteTodoView>
    decreases found.len(),
{
    if found.len() == 0 {
        todos
    } else {
        with_todos(todos, found.drop_last()).insert(found.last().0, found.last().1)
    }
}

/// Adds some items to those that are known.
pub fn add_todos(todos: &mut OrdMap<RemoteTodo>, found: &[(String, RemoteTodo)])
    ensures
        final(todos)@ == with_todos(old(todos)@, found.deep_view()),
{
    let ghost was = todos@;
    let ghost all = found.deep_view();
    for i in 0..found.len()
        invariant
            all == found.deep_view(),
            todos@ == with_todos(was, all.take(i as int)),
    {
        proof {
            assert(all[i as int] == found@[i as int].deep_view());
            assert(all.take(i + 1).drop_last() =~= all.take(i as int));
        }
        todos.insert(found[i].0.clone(), found[i].1.clone());
    }
    assert(all.take(all.len() as int) =~= all);
}

/// The version tag in an answer, given the answer as a document.
pub open spec fn etag_in(doc: Result<Seq<XmlNodeView>, Seq<char>>) -> Option<Seq<char>> {
    match doc {
        Ok(nodes) => text_at(nodes, named(nodes, "getetag"@)),
        Err(e) => None,
    }
}

/// The version tag among an answer's nodes.
pub fn find_etag(nodes: &[XmlNode]) -> (r: Option<String>)
    ensures
        r.deep_view() == text_at(nodes.deep_view(), named(nodes.deep_view(), "getetag"@)),
{
    text_of(nodes, find_named(nodes, "getetag"))
}

/// The version tag in an answer.
pub fn fetch_etag(xml: &str) -> (r: Option<String>)
    ensures
        r.deep_view() == etag_in(outside::parsed_xml(xml@)),
{
    match outside::parse_xml(xml) {
        Ok(nodes) => find_etag(nodes.as_slice()),
        Err(_) => None,
    }
}

// ── Requests and replies ──────────────────────────────────────────────────

/// A reply that says that all went well.
pub open spec fn success(code: u16) -> bool {
    200 <= code < 300
}

/// What a reply's failure is called: the method, the URL, and the status.
pub open spec fn failure(method: Seq<char>, url: Seq<char>, status: Seq<char>) -> Seq<char> {
    method + " "@ + url + ": HTTP "@ + status
}

/// What a reply's failure is called.
fn failure_text(method: &str, url: &str, status: &str) -> (r: String)
    ensures
        r@ == failure(method@, url@, status@),
{
    let mut s = method.to_string();
    s.append(" ");
    s.append(url);
    s.append(": HTTP ");
    s.append(status);
    s
}

/// What is made of the reply to a query: its text, if all went well. `status`
/// is the status code with its words.
pub fn dav_request(
    method: &str,
    url: &str,
    code: u16,
    status: &str,
    body: String,
) -> (r: Result<String, String>)
    ensures
        success(code) ==> r == Ok::<String, String>(body),
        !success(code) ==> r is Err && r->Err_0@ == failure(method@, url@, status@),
{
    if 200 <= code && code < 300 {
        Ok(body)
    } else {
        Err(failure_text(method, url, status))
    }
}

/// On what condition a calendar is written.
#[derive(Clone, Copy, Debug, PartialEq, Eq, Structural)]
pub enum PutCondition {
    /// Only over the version with the known tag.
    IfMatch,
    /// Only where there is none yet.
    IfNoneMatch,
    /// On none: our own resource is overwritten.
    Always,
}

/// On what condition a calendar is written: over the version that is known,
/// over whatever is there where its version is not known, or, for a new one,
/// over nothing.
pub open spec fn put_condition_of(etag: Option<Seq<char>>) -> PutCondition {
    match etag {
        Some(e) => if e.len() > 0 {
            PutCondition::IfMatch
        } else {
            PutCondition::Always
        },
        None => PutCondition::IfNoneMatch,
    }
}

/// On what condition a calendar is written.
pub fn put_condition(etag: Option<&str>) -> (r: PutCondition)
    ensures
        r == put_condition_of(etag.deep_view()),
{
    match etag {
        Some(e) => if e.is_empty() {
            PutCondition::Always
        } else {
            PutCondition::IfMatch
        },
        None => PutCondition::IfNoneMatch,
    }
}

/// What is made of the reply to a written calendar.
#[derive(Debug)]
pub enum PutOutcome {
    /// Written, with this version tag.
    Written(String),
    /// Written; the version tag has to be asked for.
    AskEtag,
    /// Not written.
    Failed(String),
}

/// What is made of the reply to a written calendar. `etag` is the version tag
/// in the reply, if there is one.
pub fn put_ics(url: &str, code: u16, status: &str, etag: Option<String>) -> (r: PutOutcome)
    ensures
        match r {
            PutOutcome::Failed(e) => !success(code) && e@ == failure("PUT"@, url@, status@),
            PutOutcome::Written(t) => success(code) && t@.len() > 0 && etag.deep_view() == Some(
                t@,
            ),
            PutOutcome::AskEtag => success(code) && or_empty(etag.deep_view()).len() == 0,
        },
{
    if !(200 <= code && code < 300) {
        return PutOutcome::Failed(failure_text("PUT", url, status));
    }
    match etag {
        Some(t) => if t.as_str().is_empty() {
            PutOutcome::AskEtag
        } else {
            PutOutcome::Written(t)
        },
        None => PutOutcome::AskEtag,
    }
}

/// What is made of the reply to a deleted calendar: one that is gone already
/// counts as deleted.
pub fn delete_ics(url: &str, code: u16, status: &str) -> (r: Result<(), String>)
    ensures
        r is Ok == (success(code) || code == 404),
        r matches Err(e) ==> e@ == failure("DELETE"@, url@, status@),
{
    if (200 <= code && code < 300) || code == 404 {
        Ok(())
    } else {
        Err(failure_text("DELETE", url, status))
    }
}

/// Whether a calendar is deleted only in the version with the known tag: it
/// is where a tag is known.
pub fn delete_on_match(etag: &str) -> (r: bool)
    ensures
        r == (etag@.len() > 0),
{
    !etag.is_empty()
}

/// Everything that is found in a calendar's answer is in that calendar, has
/// the identity and the summary that its lines say, and does not come again.
pub proof fn law_found_todos(nodes: Seq<XmlNodeView>, cal: Seq<char>, n: int, k: int)
    requires
        todos_upto(nodes, cal, n) is Ok,
        0 <= k < todos_upto(nodes, cal, n)->Ok_0.found.len(),
    ensures
        ({
            let (uid, todo) = todos_upto(nodes, cal, n)->Ok_0.found[k];
            let t = ical::read_lines(todo.lines);
            &&& todo.list == cal
            &&& uid == t.uid
            &&& uid.len() > 0
            &&& todo.summary == t.summary
            &&& todo.done == t.done
            &&& !t.recurring
        }),
    decreases n,
{
    if n > 0 {
        let before = todos_upto(nodes, cal, n - 1)->Ok_0;
        if k < before.found.len() {
            law_found_todos(nodes, cal, n - 1, k);
        }
    }
}

} // verus!
