//! What is found in the servers' answers: which of their parts are lists and
//! items, and what is taken from each.
use vstd::prelude::*;

use crate::caldav;
use crate::caldav::TodosView;
use crate::google;
use crate::google::TaskPageView;
use crate::ical;
use crate::json;
use crate::json::JsonView;
use crate::outside;
use crate::outside::{XmlAttributeView, XmlNodeView};
use crate::remote::{RemoteListView, RemoteTodoView};
use crate::text;

verus! {

// ── JSON ──────────────────────────────────────────────────────────────────

/// The first field of a name stands at `i`.
pub open spec fn first_field(
    fields: Seq<(Seq<char>, JsonView)>,
    key: Seq<char>,
    i: int,
) -> bool {
    &&& 0 <= i < fields.len()
    &&& fields[i].0 == key
    &&& forall|j: int| 0 <= j < i ==> (#[trigger] fields[j]).0 != key
}

proof fn lemma_field_from(fields: Seq<(Seq<char>, JsonView)>, key: Seq<char>, from: int, i: int)
    requires
        0 <= from <= i,
        first_field(fields, key, i),
    ensures
        json::field_from(fields, key, from) == Some(fields[i].1),
    decreases i - from,
{
    if from < i {
        lemma_field_from(fields, key, from + 1, i);
    }
}

proof fn lemma_no_field(fields: Seq<(Seq<char>, JsonView)>, key: Seq<char>, from: int)
    requires
        0 <= from,
        forall|j: int| 0 <= j < fields.len() ==> (#[trigger] fields[j]).0 != key,
    ensures
        json::field_from(fields, key, from) is None,
    decreases fields.len() - from,
{
    if from < fields.len() {
        lemma_no_field(fields, key, from + 1);
    }
}

/// A field of an object is the value of the first field of that name. What is
/// no object, or has no such field, has none.
pub proof fn law_field(fields: Seq<(Seq<char>, JsonView)>, key: Seq<char>, i: int, other: JsonView)
    ensures
        first_field(fields, key, i) ==> json::field(JsonView::Object(fields), key) == Some(
            fields[i].1,
        ),
        (forall|j: int| 0 <= j < fields.len() ==> (#[trigger] fields[j]).0 != key) ==> json::field(
            JsonView::Object(fields),
            key,
        ) is None,
        other !is Object ==> json::field(other, key) is None,
{
    if first_field(fields, key, i) {
        lemma_field_from(fields, key, 0, i);
    }
    if forall|j: int| 0 <= j < fields.len() ==> (#[trigger] fields[j]).0 != key {
        lemma_no_field(fields, key, 0);
    }
}

/// A text field is a field that is a text, an array field one that is an array,
/// and a true field one that is true; a field of another kind counts as missing.
pub proof fn law_typed_fields(j: JsonView, key: Seq<char>, s: Seq<char>)
    ensures
        json::text_field(j, key) == Some(s) <==> json::field(j, key) == Some(JsonView::Text(s)),
        json::text_field(j, key) is Some ==> json::text_or_empty(j, key) == json::text_field(
            j,
            key,
        )->0,
        json::text_field(j, key) is None ==> json::text_or_empty(j, key).len() == 0,
        json::true_field(j, key) <==> json::field(j, key) == Some(JsonView::Bool(true)),
        json::field(j, key) is Some && json::field(j, key)->0 is Array ==> json::elements(j, key)
            == (json::field(j, key)->0)->Array_0,
        !(json::field(j, key) is Some && json::field(j, key)->0 is Array) ==> json::elements(
            j,
            key,
        ).len() == 0,
{
}

// ── Items of Google Tasks ─────────────────────────────────────────────────

proof fn lemma_same_tasks(
    a: Seq<JsonView>,
    b: Seq<JsonView>,
    base: Seq<char>,
    list: Seq<char>,
    n: int,
)
    requires
        n <= a.len(),
        n <= b.len(),
        forall|i: int| 0 <= i < n ==> #[trigger] a[i] == b[i],
    ensures
        google::tasks_upto(a, base, list, n) == google::tasks_upto(b, base, list, n),
    decreases n,
{
    if n > 0 {
        lemma_same_tasks(a, b, base, list, n - 1);
        assert(a[n - 1] == b[n - 1]);
    }
}

/// One more item on a page is found behind those before it, unless it is
/// deleted, has no identity, or has a blank title: with its title without white
/// space at its two ends, its version tag, whether its status is completed, and
/// the URL that its identity makes below the list's address. A URL that cannot
/// be read is the error, and nothing is found behind an error.
pub proof fn law_one_more_task(
    page: JsonView,
    more: JsonView,
    t: JsonView,
    base: Seq<char>,
    list: Seq<char>,
)
    requires
        json::elements(more, "items"@) == json::elements(page, "items"@).push(t),
    ensures
        ({
            let before = google::tasks_in(page, base, list);
            let after = google::tasks_in(more, base, list);
            let id = json::text_field(t, "id"@);
            let title = text::trim(json::text_or_empty(t, "title"@));
            let passed = id is None || json::field(t, "deleted"@) == Some(JsonView::Bool(true))
                || title.len() == 0;
            let url = outside::parsed_url(base + "/"@ + id->0);
            &&& before is Err ==> after == before
            &&& before is Ok && passed ==> after == before
            &&& before is Ok && !passed && url is Err ==> after is Err && after->Err_0
                == url->Err_0
            &&& before is Ok && !passed && url is Ok ==> after is Ok && after->Ok_0
                == before->Ok_0.push(
                (
                    id->0,
                    RemoteTodoView {
                        url: url->Ok_0,
                        etag: json::text_or_empty(t, "etag"@),
                        summary: title,
                        done: json::text_field(t, "status"@) == Some("completed"@),
                        lines: Seq::empty(),
                        list,
                    },
                ),
            )
        }),
{
    let items = json::elements(page, "items"@);
    let all = items.push(t);
    lemma_same_tasks(items, all, base, list, items.len() as int);
    assert(all[all.len() - 1] == t);
}

/// A page without items holds none.
pub proof fn law_no_tasks(page: JsonView, base: Seq<char>, list: Seq<char>)
    requires
        json::elements(page, "items"@).len() == 0,
    ensures
        google::tasks_in(page, base, list) is Ok,
        google::tasks_in(page, base, list)->Ok_0.len() == 0,
{
}

proof fn lemma_task_is_found(
    items: Seq<JsonView>,
    base: Seq<char>,
    list: Seq<char>,
    n: int,
    k: int,
)
    requires
        0 <= k < n <= items.len(),
        google::tasks_upto(items, base, list, n) is Ok,
        json::text_field(items[k], "id"@) is Some,
        json::field(items[k], "deleted"@) != Some(JsonView::Bool(true)),
        text::trim(json::text_or_empty(items[k], "title"@)).len() > 0,
    ensures
        exists|i: int|
            0 <= i < google::tasks_upto(items, base, list, n)->Ok_0.len()
                && found_as(items[k], #[trigger] google::tasks_upto(items, base, list, n)->Ok_0[i]),
    decreases n,
{
    let all = google::tasks_upto(items, base, list, n)->Ok_0;
    let before = google::tasks_upto(items, base, list, n - 1)->Ok_0;
    if k < n - 1 {
        lemma_task_is_found(items, base, list, n - 1, k);
        let i = choose|i: int| 0 <= i < before.len() && found_as(items[k], #[trigger] before[i]);
        assert(all[i] == before[i]);
    } else {
        assert(found_as(items[k], all[before.len() as int]));
    }
}

/// An item is found with its identity, its title without white space at its two
/// ends, its version tag, and whether its status is completed.
pub open spec fn found_as(t: JsonView, entry: (Seq<char>, RemoteTodoView)) -> bool {
    &&& json::text_field(t, "id"@) == Some(entry.0)
    &&& entry.1.summary == text::trim(json::text_or_empty(t, "title"@))
    &&& entry.1.etag == json::text_or_empty(t, "etag"@)
    &&& entry.1.done == (json::text_field(t, "status"@) == Some("completed"@))
}

/// Every item of a page that is not deleted and has an identity and a title that
/// is not blank is found, with its whole title but for white space at its ends.
pub proof fn law_task_is_found(page: JsonView, base: Seq<char>, list: Seq<char>, k: int)
    requires
        google::tasks_in(page, base, list) is Ok,
        0 <= k < json::elements(page, "items"@).len(),
        json::text_field(json::elements(page, "items"@)[k], "id"@) is Some,
        json::field(json::elements(page, "items"@)[k], "deleted"@) != Some(JsonView::Bool(true)),
        text::trim(json::text_or_empty(json::elements(page, "items"@)[k], "title"@)).len() > 0,
    ensures
        exists|i: int|
            0 <= i < google::tasks_in(page, base, list)->Ok_0.len() && found_as(
                json::elements(page, "items"@)[k],
                #[trigger] google::tasks_in(page, base, list)->Ok_0[i],
            ),
{
    let items = json::elements(page, "items"@);
    lemma_task_is_found(items, base, list, items.len() as int, k);
}

/// Items that are added take the place of those with their identities, the last
/// one of an identity wins, and all others stay.
pub proof fn law_added_todos(
    todos: Map<Seq<char>, RemoteTodoView>,
    found: Seq<(Seq<char>, RemoteTodoView)>,
    id: Seq<char>,
    k: int,
)
    ensures
        0 <= k < found.len() && found[k].0 == id && (forall|j: int|
            k < j < found.len() ==> (#[trigger] found[j]).0 != id) ==> caldav::with_todos(
            todos,
            found,
        ).contains_key(id) && caldav::with_todos(todos, found)[id] == found[k].1,
        (forall|j: int| 0 <= j < found.len() ==> (#[trigger] found[j]).0 != id) ==> (
        caldav::with_todos(todos, found).contains_key(id) == todos.contains_key(id) && (
        todos.contains_key(id) ==> caldav::with_todos(todos, found)[id] == todos[id])),
    decreases found.len(),
{
    if found.len() > 0 {
        let rest = found.drop_last();
        law_added_todos(todos, rest, id, k);
        assert(found[found.len() - 1] == found.last());
        assert forall|j: int| 0 <= j < rest.len() implies #[trigger] rest[j] == found[j] by {}
        if forall|j: int| 0 <= j < found.len() ==> (#[trigger] found[j]).0 != id {
            assert forall|j: int| 0 <= j < rest.len() implies (#[trigger] rest[j]).0 != id by {
                assert(rest[j] == found[j]);
            }
            assert(found[found.len() - 1].0 != id);
        }
        if 0 <= k < rest.len() && found[k].0 == id && forall|j: int|
            k < j < found.len() ==> (#[trigger] found[j]).0 != id {
            assert(rest[k].0 == id);
            assert forall|j: int| k < j < rest.len() implies (#[trigger] rest[j]).0 != id by {
                assert(rest[j] == found[j]);
            }
            assert(found[found.len() - 1].0 != id);
        }
    }
}

/// One more page adds its items to those of the pages before it.
pub proof fn law_one_more_task_page(pages: Seq<TaskPageView>, p: TaskPageView)
    ensures
        ({
            let before = google::tasks_in_all(pages);
            let own = google::tasks_in(p.page, p.base, p.list);
            let after = google::tasks_in_all(pages.push(p));
            &&& before is Err ==> after == before
            &&& before is Ok && own is Err ==> after is Err && after->Err_0 == own->Err_0
            &&& before is Ok && own is Ok ==> after is Ok && after->Ok_0 == caldav::with_todos(
                before->Ok_0,
                own->Ok_0,
            )
        }),
        google::tasks_in_all(Seq::empty()) is Ok,
        google::tasks_in_all(Seq::empty())->Ok_0 == Map::<Seq<char>, RemoteTodoView>::empty(),
{
    assert(pages.push(p).drop_last() =~= pages);
}

// ── Lists of Google Tasks ─────────────────────────────────────────────────

proof fn lemma_same_lists(a: Seq<JsonView>, b: Seq<JsonView>, n: int)
    requires
        n <= a.len(),
        n <= b.len(),
        forall|i: int| 0 <= i < n ==> #[trigger] a[i] == b[i],
    ensures
        google::lists_upto(a, n) == google::lists_upto(b, n),
    decreases n,
{
    if n > 0 {
        lemma_same_lists(a, b, n - 1);
        assert(a[n - 1] == b[n - 1]);
    }
}

/// One more list on a page is found under its identity, unless it has none: with
/// its title, or as an untitled one, its version tag, and the address of its
/// items. An address that cannot be read is the error, and nothing is found
/// behind an error.
pub proof fn law_one_more_list(page: JsonView, more: JsonView, l: JsonView)
    requires
        json::elements(more, "items"@) == json::elements(page, "items"@).push(l),
    ensures
        ({
            let before = google::lists_in(page);
            let after = google::lists_in(more);
            let id = json::text_field(l, "id"@);
            let url = outside::parsed_url(
                "https://tasks.googleapis.com/tasks/v1"@ + "/lists/"@ + id->0 + "/tasks"@,
            );
            &&& before is Err ==> after == before
            &&& before is Ok && id is None ==> after == before
            &&& before is Ok && id is Some && url is Err ==> after is Err && after->Err_0
                == url->Err_0
            &&& before is Ok && id is Some && url is Ok ==> after is Ok && after->Ok_0
                == before->Ok_0.insert(
                id->0,
                (RemoteListView {
                    title: if json::text_field(l, "title"@) is Some {
                        json::text_field(l, "title"@)->0
                    } else {
                        "Untitled"@
                    },
                    etag: json::text_or_empty(l, "etag"@),
                    create_target: url->Ok_0,
                }),
            )
        }),
        json::elements(page, "items"@).len() == 0 ==> google::lists_in(page) is Ok
            && google::lists_in(page)->Ok_0 == Map::<Seq<char>, RemoteListView>::empty(),
{
    let items = json::elements(page, "items"@);
    let all = items.push(l);
    lemma_same_lists(items, all, items.len() as int);
    assert(all[all.len() - 1] == l);
}

/// One more page adds its lists to those of the pages before it, in the place
/// of those with their identities.
pub proof fn law_one_more_list_page(pages: Seq<JsonView>, p: JsonView, id: Seq<char>)
    ensures
        ({
            let before = google::lists_in_all(pages);
            let own = google::lists_in(p);
            let after = google::lists_in_all(pages.push(p));
            &&& before is Err ==> after == before
            &&& before is Ok && own is Err ==> after is Err && after->Err_0 == own->Err_0
            &&& before is Ok && own is Ok ==> after is Ok
            &&& before is Ok && own is Ok && own->Ok_0.contains_key(id)
                ==> after->Ok_0.contains_key(id) && after->Ok_0[id] == own->Ok_0[id]
            &&& before is Ok && own is Ok && !own->Ok_0.contains_key(id) ==> (
            after->Ok_0.contains_key(id) == before->Ok_0.contains_key(id) && (
            before->Ok_0.contains_key(id) ==> after->Ok_0[id] == before->Ok_0[id]))
        }),
        google::lists_in_all(Seq::empty()) is Ok,
        google::lists_in_all(Seq::empty())->Ok_0 == Map::<Seq<char>, RemoteListView>::empty(),
{
    assert(pages.push(p).drop_last() =~= pages);
}

/// Another page is asked for exactly where an answer says, with a text that is
/// not empty, where it goes on; that text is asked for then, and on the first
/// page none is. Items that are done and hidden are asked for on every page.
pub proof fn law_pages_are_asked_for(page: JsonView, token: Seq<char>)
    ensures
        google::next_token(page) == Some(token) <==> json::field(page, "nextPageToken"@) == Some(
            JsonView::Text(token),
        ) && token.len() > 0,
        token.len() > 0 ==> google::page_query_of(token) == google::page_query_of(
            Seq::empty(),
        ).push(("pageToken"@, token)),
        token.len() > 0 ==> google::lists_query_of(token) == google::lists_query_of(
            Seq::empty(),
        ).push(("pageToken"@, token)),
        google::page_query_of(token).contains(("showCompleted"@, "true"@)),
        google::page_query_of(token).contains(("showHidden"@, "true"@)),
{
    assert(google::page_query_of(token)[0] == ("showCompleted"@, "true"@));
    assert(google::page_query_of(token)[1] == ("showHidden"@, "true"@));
}

// ── Documents ─────────────────────────────────────────────────────────────

/// A way up from node `j` to node `i`, from each node to the one that it stands
/// in.
pub open spec fn way_up(nodes: Seq<XmlNodeView>, way: Seq<int>, i: int, j: int) -> bool {
    &&& way.len() > 0
    &&& way[0] == j
    &&& way.last() == i
    &&& forall|m: int|
        0 <= m < way.len() - 1 ==> 0 <= #[trigger] way[m] < nodes.len() && (
        nodes[way[m]].parent matches Some(p) && p == way[m + 1] && p < way[m])
}

proof fn lemma_way_down(nodes: Seq<XmlNodeView>, way: Seq<int>, i: int, j: int)
    requires
        way_up(nodes, way, i, j),
    ensures
        caldav::below(nodes, i, j),
    decreases way.len(),
{
    if way.len() > 1 {
        let rest = way.skip(1);
        assert(0 <= way[0] < nodes.len());
        assert(rest[0] == way[1]);
        assert forall|m: int| 0 <= m < rest.len() - 1 implies 0 <= #[trigger] rest[m]
            < nodes.len() && (nodes[rest[m]].parent matches Some(p) && p == rest[m + 1] && p
            < rest[m]) by {
            assert(rest[m] == way[m + 1]);
        }
        lemma_way_down(nodes, rest, i, way[1]);
    }
}

proof fn lemma_way_up(nodes: Seq<XmlNodeView>, i: int, j: int) -> (way: Seq<int>)
    requires
        caldav::below(nodes, i, j),
    ensures
        way_up(nodes, way, i, j),
    decreases j,
{
    if i == j {
        seq![j]
    } else {
        let p = nodes[j].parent->0 as int;
        let rest = lemma_way_up(nodes, i, p);
        let way = seq![j] + rest;
        assert forall|m: int| 0 <= m < way.len() - 1 implies 0 <= #[trigger] way[m] < nodes.len()
            && (nodes[way[m]].parent matches Some(p) && p == way[m + 1] && p < way[m]) by {
            if m > 0 {
                assert(way[m] == rest[m - 1]);
                assert(way[m + 1] == rest[m]);
            } else {
                assert(way[1] == rest[0]);
            }
        }
        assert(way.last() == rest.last());
        way
    }
}

/// A node is in another where a way leads up from it to that.
pub proof fn law_below(nodes: Seq<XmlNodeView>, i: int, j: int)
    ensures
        caldav::below(nodes, i, j) <==> exists|way: Seq<int>| #[trigger] way_up(nodes, way, i, j),
{
    if caldav::below(nodes, i, j) {
        let way = lemma_way_up(nodes, i, j);
    }
    if exists|way: Seq<int>| #[trigger] way_up(nodes, way, i, j) {
        let way = choose|way: Seq<int>| #[trigger] way_up(nodes, way, i, j);
        lemma_way_down(nodes, way, i, j);
    }
}

/// The first node of some kind stands at `k`.
pub open spec fn first_at(nodes: Seq<XmlNodeView>, p: spec_fn(int) -> bool, k: int) -> bool {
    0 <= k < nodes.len() && p(k) && forall|j: int| 0 <= j < k ==> !#[trigger] p(j)
}

/// No node is of some kind.
pub open spec fn none_at(nodes: Seq<XmlNodeView>, p: spec_fn(int) -> bool) -> bool {
    forall|j: int| 0 <= j < nodes.len() ==> !#[trigger] p(j)
}

proof fn lemma_first_node(nodes: Seq<XmlNodeView>, from: int, p: spec_fn(int) -> bool)
    requires
        0 <= from,
    ensures
        match caldav::first_node(nodes, from, p) {
            Some(k) => from <= k < nodes.len() && p(k) && forall|j: int|
                from <= j < k ==> !#[trigger] p(j),
            None => forall|j: int| from <= j < nodes.len() ==> !#[trigger] p(j),
        },
    decreases nodes.len() - from,
{
    if from < nodes.len() && !p(from) {
        lemma_first_node(nodes, from + 1, p);
    }
}

/// A node is found by its name in document order: in the whole document, among
/// a node and all that stands in it, or among its children. Its text is its own.
pub proof fn law_named(nodes: Seq<XmlNodeView>, i: int, name: Seq<char>, k: int)
    requires
        0 <= i <= usize::MAX,
    ensures
        caldav::named(nodes, name) == Some(k) <==> first_at(
            nodes,
            |j: int| nodes[j].name == name,
            k,
        ),
        caldav::named_in(nodes, i, name) == Some(k) <==> first_at(
            nodes,
            |j: int| caldav::below(nodes, i, j) && nodes[j].name == name,
            k,
        ),
        caldav::child_named(nodes, i, name) == Some(k) <==> first_at(
            nodes,
            |j: int| (nodes[j].parent matches Some(p) && p == i) && nodes[j].name == name,
            k,
        ),
        caldav::text_at(nodes, Some(k)) == nodes[k].text,
        caldav::text_at(nodes, None) is None,
{
    let p1 = |j: int| nodes[j].name == name;
    let p2 = |j: int| caldav::below(nodes, i, j) && nodes[j].name == name;
    let p3 = |j: int| nodes[j].parent == Some(i as usize) && nodes[j].name == name;
    let q3 = |j: int| (nodes[j].parent matches Some(p) && p == i) && nodes[j].name == name;
    lemma_first_node(nodes, 0, p1);
    lemma_first_node(nodes, 0, p2);
    lemma_first_node(nodes, 0, p3);
    assert forall|j: int| #[trigger] p3(j) == q3(j) by {}
    if first_at(nodes, p1, k) {
        if let Some(m) = caldav::named(nodes, name) {
            if m < k {
                assert(!p1(m));
            }
        } else {
            assert(!p1(k));
        }
    }
    if first_at(nodes, p2, k) {
        if let Some(m) = caldav::named_in(nodes, i, name) {
            if m < k {
                assert(!p2(m));
            }
        } else {
            assert(!p2(k));
        }
    }
    if caldav::child_named(nodes, i, name) == Some(k) {
        assert(q3(k) == p3(k));
        assert forall|j: int| 0 <= j < k implies !#[trigger] q3(j) by {
            assert(!p3(j));
        }
    }
    if first_at(nodes, q3, k) {
        assert(p3(k) == q3(k));
        if let Some(m) = caldav::child_named(nodes, i, name) {
            if m < k {
                assert(!q3(m));
                assert(p3(m));
            } else if k < m {
                assert(!p3(k));
            }
        } else {
            assert(!p3(k));
        }
    }
}

/// The version tag of an answer is the text of its first element of that name;
/// an answer that is no document has none.
pub proof fn law_etag(nodes: Seq<XmlNodeView>, k: int, e: Seq<char>)
    ensures
        first_at(nodes, |j: int| nodes[j].name == "getetag"@, k) ==> caldav::etag_in(Ok(nodes))
            == nodes[k].text,
        none_at(nodes, |j: int| nodes[j].name == "getetag"@) ==> caldav::etag_in(
            Ok(nodes),
        ) is None,
        caldav::etag_in(Err(e)) is None,
{
    let p = |j: int| nodes[j].name == "getetag"@;
    lemma_first_node(nodes, 0, p);
    if first_at(nodes, p, k) {
        law_named(nodes, 0, "getetag"@, k);
    }
    if none_at(nodes, p) {
        if let Some(m) = caldav::named(nodes, "getetag"@) {
            assert(!p(m));
        }
    }
}

// ── Calendars ─────────────────────────────────────────────────────────────

/// The first attribute of a name has a value.
pub open spec fn attribute_is(
    attributes: Seq<XmlAttributeView>,
    name: Seq<char>,
    value: Seq<char>,
) -> bool {
    exists|k: int|
        0 <= k < attributes.len() && (#[trigger] attributes[k]).name == name && attributes[k].value
            == value && forall|j: int| 0 <= j < k ==> (#[trigger] attributes[j]).name != name
}

proof fn lemma_attribute(attributes: Seq<XmlAttributeView>, name: Seq<char>, value: Seq<char>)
    ensures
        caldav::attribute(attributes, name) == Some(value) <==> attribute_is(
            attributes,
            name,
            value,
        ),
    decreases attributes.len(),
{
    if attributes.len() > 0 {
        let rest = attributes.skip(1);
        lemma_attribute(rest, name, value);
        if attributes[0].name == name {
            if attributes[0].value == value {
                assert(attribute_is(attributes, name, value));
            }
            if attribute_is(attributes, name, value) {
                let k = choose|k: int|
                    0 <= k < attributes.len() && (#[trigger] attributes[k]).name == name
                        && attributes[k].value == value && forall|j: int|
                        0 <= j < k ==> (#[trigger] attributes[j]).name != name;
                assert(k == 0);
            }
        } else {
            if attribute_is(rest, name, value) {
                let k = choose|k: int|
                    0 <= k < rest.len() && (#[trigger] rest[k]).name == name && rest[k].value
                        == value && forall|j: int| 0 <= j < k ==> (#[trigger] rest[j]).name != name;
                assert(attributes[k + 1] == rest[k]);
                assert forall|j: int| 0 <= j < k + 1 implies (#[trigger] attributes[j]).name
                    != name by {
                    if j > 0 {
                        assert(rest[j - 1] == attributes[j]);
                    }
                }
                assert(attribute_is(attributes, name, value));
            }
            if attribute_is(attributes, name, value) {
                let k = choose|k: int|
                    0 <= k < attributes.len() && (#[trigger] attributes[k]).name == name
                        && attributes[k].value == value && forall|j: int|
                        0 <= j < k ==> (#[trigger] attributes[j]).name != name;
                assert(rest[k - 1] == attributes[k]);
                assert forall|j: int| 0 <= j < k - 1 implies (#[trigger] rest[j]).name
                    != name by {
                    assert(attributes[j + 1] == rest[j]);
                }
                assert(attribute_is(rest, name, value));
            }
        }
    }
}

/// A node, or one that stands in it, is a calendar of the calendar namespace.
pub open spec fn holds_calendar(nodes: Seq<XmlNodeView>, i: int) -> bool {
    exists|c: int|
        0 <= c < nodes.len() && #[trigger] caldav::below(nodes, i, c) && nodes[c].name
            == "calendar"@ && nodes[c].namespace == Some("urn:ietf:params:xml:ns:caldav"@)
}

/// A node, or one that stands in it, names the items as a component.
pub open spec fn holds_items(nodes: Seq<XmlNodeView>, i: int) -> bool {
    exists|c: int|
        0 <= c < nodes.len() && #[trigger] caldav::below(nodes, i, c) && nodes[c].name == "comp"@
            && attribute_is(nodes[c].attributes, "name"@, "VTODO"@)
}

/// A node is a response that speaks of a calendar for items, by a reference and
/// a name: its display name, or the reference where it has none.
pub open spec fn speaks_of(
    nodes: Seq<XmlNodeView>,
    i: int,
    href: Seq<char>,
    name: Seq<char>,
) -> bool {
    let shown = caldav::text_at(nodes, caldav::named_in(nodes, i, "displayname"@));
    &&& 0 <= i < nodes.len()
    &&& nodes[i].name == "response"@
    &&& caldav::text_at(nodes, caldav::child_named(nodes, i, "href"@)) == Some(href)
    &&& holds_calendar(nodes, i)
    &&& holds_items(nodes, i)
    &&& shown is Some ==> name == shown->0
    &&& shown is None ==> name == href
}

proof fn lemma_calendar_at(nodes: Seq<XmlNodeView>, i: int, href: Seq<char>, name: Seq<char>)
    requires
        0 <= i < nodes.len(),
    ensures
        caldav::calendar_at(nodes, i) == Some((href, name)) <==> speaks_of(nodes, i, href, name),
{
    let p = |j: int| caldav::below(nodes, i, j) && caldav::is_calendar(nodes[j]);
    let q = |j: int| caldav::below(nodes, i, j) && caldav::says_vtodo(nodes[j]);
    lemma_first_node(nodes, 0, p);
    lemma_first_node(nodes, 0, q);
    if let Some(c) = caldav::first_node(nodes, 0, p) {
        assert(caldav::below(nodes, i, c));
        assert(holds_calendar(nodes, i));
    } else if holds_calendar(nodes, i) {
        let c = choose|c: int|
            0 <= c < nodes.len() && #[trigger] caldav::below(nodes, i, c) && nodes[c].name
                == "calendar"@ && nodes[c].namespace == Some("urn:ietf:params:xml:ns:caldav"@);
        assert(!p(c));
    }
    if let Some(c) = caldav::first_node(nodes, 0, q) {
        assert(caldav::below(nodes, i, c));
        lemma_attribute(nodes[c].attributes, "name"@, "VTODO"@);
        assert(holds_items(nodes, i));
    } else if holds_items(nodes, i) {
        let c = choose|c: int|
            0 <= c < nodes.len() && #[trigger] caldav::below(nodes, i, c) && nodes[c].name
                == "comp"@ && attribute_is(nodes[c].attributes, "name"@, "VTODO"@);
        lemma_attribute(nodes[c].attributes, "name"@, "VTODO"@);
        assert(!q(c));
    }
}

/// Two paths are the same but for slashes that end them.
pub open spec fn same_but_slashes(a: Seq<char>, b: Seq<char>) -> bool {
    exists|n: int|
        0 <= n <= a.len() && n <= b.len() && #[trigger] a.take(n) == b.take(n) && (forall|i: int|
            n <= i < a.len() ==> #[trigger] a[i] == '/') && (forall|i: int|
            n <= i < b.len() ==> #[trigger] b[i] == '/')
}

proof fn lemma_slashes_off(a: Seq<char>)
    ensures
        ({
            let n = caldav::without_slashes(a).len() as int;
            &&& 0 <= n <= a.len()
            &&& caldav::without_slashes(a) == a.take(n)
            &&& n > 0 ==> a[n - 1] != '/'
            &&& forall|i: int| n <= i < a.len() ==> #[trigger] a[i] == '/'
        }),
    decreases a.len(),
{
    if a.len() > 0 && a.last() == '/' {
        let t = a.drop_last();
        lemma_slashes_off(t);
        let n = caldav::without_slashes(a).len() as int;
        assert(t.take(n) =~= a.take(n));
        if n > 0 {
            assert(t[n - 1] == a[n - 1]);
        }
        assert forall|i: int| n <= i < a.len() implies #[trigger] a[i] == '/' by {
            if i < t.len() {
                assert(t[i] == a[i]);
            }
        }
    } else {
        assert(a.take(a.len() as int) =~= a);
    }
}

/// What stays of a path is what it is up to the slashes that end it.
pub proof fn law_slashes_off(a: Seq<char>)
    ensures
        exists|n: int|
            0 <= n <= a.len() && caldav::without_slashes(a) == #[trigger] a.take(n) && (n > 0
                ==> a[n - 1] != '/') && forall|i: int| n <= i < a.len() ==> #[trigger] a[i] == '/',
{
    lemma_slashes_off(a);
    let n = caldav::without_slashes(a).len() as int;
    assert(caldav::without_slashes(a) == a.take(n));
}

proof fn lemma_same_place(a: Seq<char>, b: Seq<char>)
    ensures
        (caldav::without_slashes(a) == caldav::without_slashes(b)) == same_but_slashes(a, b),
{
    lemma_slashes_off(a);
    lemma_slashes_off(b);
    let na = caldav::without_slashes(a).len() as int;
    let nb = caldav::without_slashes(b).len() as int;
    if caldav::without_slashes(a) == caldav::without_slashes(b) {
        assert(a.take(na) == b.take(na));
    }
    if same_but_slashes(a, b) {
        let n = choose|n: int|
            0 <= n <= a.len() && n <= b.len() && #[trigger] a.take(n) == b.take(n) && (forall|
                i: int,
            | n <= i < a.len() ==> #[trigger] a[i] == '/') && (forall|i: int|
                n <= i < b.len() ==> #[trigger] b[i] == '/');
        if na > 0 {
            assert(a[na - 1] != '/');
        }
        if nb > 0 {
            assert(b[nb - 1] != '/');
        }
        assert(na <= n && nb <= n);
        assert forall|i: int| 0 <= i < n implies #[trigger] a[i] == b[i] by {
            assert(a.take(n)[i] == b.take(n)[i]);
        }
        if na < nb {
            assert(a[nb - 1] == b[nb - 1]);
        }
        if nb < na {
            assert(a[na - 1] == b[na - 1]);
        }
        assert(a.take(na) =~= b.take(nb));
    }
}

/// A node speaks of a calendar by a reference that makes a URL, and that URL is
/// not the home's: their paths differ in more than the slashes that end them.
pub open spec fn is_listed(
    nodes: Seq<XmlNodeView>,
    home: Seq<char>,
    i: int,
    url: Seq<char>,
    name: Seq<char>,
) -> bool {
    exists|href: Seq<char>|
        {
            &&& #[trigger] speaks_of(nodes, i, href, name)
            &&& outside::joined_url(home, text::trim(href)) is Ok
            &&& outside::joined_url(home, text::trim(href))->Ok_0 == url
            &&& outside::path_of_url(url) is Some && outside::path_of_url(home) is Some
                ==> !same_but_slashes(outside::path_of_url(url)->0, outside::path_of_url(home)->0)
        }
}

/// Calendars come from the nodes at some places, in document order, one from
/// each, and from every node before `n` that speaks of one.
pub open spec fn come_from(
    calendars: Seq<(Seq<char>, Seq<char>)>,
    places: Seq<int>,
    nodes: Seq<XmlNodeView>,
    home: Seq<char>,
    n: int,
) -> bool {
    &&& places.len() == calendars.len()
    &&& forall|j: int, k: int|
        0 <= j < k < places.len() ==> #[trigger] places[j] < #[trigger] places[k]
    &&& forall|k: int|
        0 <= k < places.len() ==> 0 <= #[trigger] places[k] < n && is_listed(
            nodes,
            home,
            places[k],
            calendars[k].0,
            calendars[k].1,
        )
    &&& forall|i: int, url: Seq<char>, name: Seq<char>|
        0 <= i < n && #[trigger] is_listed(nodes, home, i, url, name) ==> places.contains(i)
}

proof fn lemma_listed(nodes: Seq<XmlNodeView>, home: Seq<char>, i: int)
    requires
        0 <= i < nodes.len(),
        ({
            &&& caldav::calendar_at(nodes, i) is Some
            &&& outside::joined_url(
                home,
                text::trim((caldav::calendar_at(nodes, i)->0).0),
            ) is Ok
        }) || caldav::calendar_at(nodes, i) is None,
    ensures
        match caldav::calendar_at(nodes, i) {
            None => forall|url: Seq<char>, name: Seq<char>|
                !#[trigger] is_listed(nodes, home, i, url, name),
            Some(found) => {
                let url = outside::joined_url(home, text::trim(found.0));
                match caldav::listed(
                    found,
                    url,
                    caldav::path_after(url),
                    outside::path_of_url(home),
                ) {
                    Err(e) => false,
                    Ok(None) => forall|url: Seq<char>, name: Seq<char>|
                        !#[trigger] is_listed(nodes, home, i, url, name),
                    Ok(Some(c)) => is_listed(nodes, home, i, c.0, c.1),
                }
            },
        },
{
    match caldav::calendar_at(nodes, i) {
        None => {
            assert forall|url: Seq<char>, name: Seq<char>| !#[trigger] is_listed(
                nodes,
                home,
                i,
                url,
                name,
            ) by {
                if is_listed(nodes, home, i, url, name) {
                    let href = choose|href: Seq<char>| #[trigger] speaks_of(nodes, i, href, name);
                    lemma_calendar_at(nodes, i, href, name);
                }
            }
        },
        Some(found) => {
            let at = outside::joined_url(home, text::trim(found.0));
            lemma_calendar_at(nodes, i, found.0, found.1);
            if outside::path_of_url(at->Ok_0) is Some && outside::path_of_url(home) is Some {
                lemma_same_place(
                    outside::path_of_url(at->Ok_0)->0,
                    outside::path_of_url(home)->0,
                );
            }
            if caldav::same_place(caldav::path_after(at), outside::path_of_url(home)) {
                assert forall|url: Seq<char>, name: Seq<char>| !#[trigger] is_listed(
                    nodes,
                    home,
                    i,
                    url,
                    name,
                ) by {
                    if is_listed(nodes, home, i, url, name) {
                        let href = choose|href: Seq<char>|
                            {
                                &&& #[trigger] speaks_of(nodes, i, href, name)
                                &&& outside::joined_url(home, text::trim(href)) is Ok
                                &&& outside::joined_url(home, text::trim(href))->Ok_0 == url
                                &&& outside::path_of_url(url) is Some && outside::path_of_url(
                                    home,
                                ) is Some ==> !same_but_slashes(
                                    outside::path_of_url(url)->0,
                                    outside::path_of_url(home)->0,
                                )
                            };
                        lemma_calendar_at(nodes, i, href, name);
                    }
                }
            } else {
                assert(speaks_of(nodes, i, found.0, found.1));
            }
        },
    }
}

proof fn lemma_calendars(nodes: Seq<XmlNodeView>, home: Seq<char>, n: int) -> (places: Seq<int>)
    requires
        0 <= n <= nodes.len(),
        caldav::calendars_upto(nodes, home, n) is Ok,
    ensures
        come_from(caldav::calendars_upto(nodes, home, n)->Ok_0, places, nodes, home, n),
    decreases n,
{
    if n == 0 {
        Seq::empty()
    } else {
        let before = lemma_calendars(nodes, home, n - 1);
        lemma_listed(nodes, home, n - 1);
        let had = caldav::calendars_upto(nodes, home, n - 1)->Ok_0;
        let all = caldav::calendars_upto(nodes, home, n)->Ok_0;
        if all.len() == had.len() {
            assert(all == had);
            assert(come_from(all, before, nodes, home, n));
            before
        } else {
            let places = before.push(n - 1);
            assert(all.len() == had.len() + 1);
            assert forall|k: int| 0 <= k < places.len() implies 0 <= #[trigger] places[k] < n
                && is_listed(nodes, home, places[k], all[k].0, all[k].1) by {
                if k < before.len() {
                    assert(places[k] == before[k]);
                    assert(all[k] == had[k]);
                }
            }
            assert forall|j: int, k: int| 0 <= j < k < places.len() implies #[trigger] places[j]
                < #[trigger] places[k] by {
                assert(places[j] == before[j]);
                if k < before.len() {
                    assert(places[k] == before[k]);
                }
            }
            assert forall|i: int, url: Seq<char>, name: Seq<char>|
                0 <= i < n && #[trigger] is_listed(
                    nodes,
                    home,
                    i,
                    url,
                    name,
                ) implies places.contains(i) by {
                if i < n - 1 {
                    assert(before.contains(i));
                    let m = choose|m: int| 0 <= m < before.len() && before[m] == i;
                    assert(places[m] == i);
                } else {
                    assert(places[before.len() as int] == i);
                }
            }
            places
        }
    }
}

/// The calendars of an answer are, in document order, those that its responses
/// speak of and that are not the home itself: each with the URL that its
/// reference makes and with its name, and no other.
pub proof fn law_calendars(nodes: Seq<XmlNodeView>, home: Seq<char>)
    requires
        caldav::calendars(home, Ok(nodes)) is Ok,
    ensures
        exists|places: Seq<int>| #[trigger]
            come_from(
                caldav::calendars(home, Ok(nodes))->Ok_0,
                places,
                nodes,
                home,
                nodes.len() as int,
            ),
{
    let places = lemma_calendars(nodes, home, nodes.len() as int);
}

/// Every response that speaks of a calendar whose URL's path differs from the
/// home's in more than the slashes that end them is among the calendars, with
/// that URL and its name.
pub proof fn law_calendar_is_found(
    nodes: Seq<XmlNodeView>,
    home: Seq<char>,
    i: int,
    href: Seq<char>,
    name: Seq<char>,
)
    requires
        caldav::calendars(home, Ok(nodes)) is Ok,
        speaks_of(nodes, i, href, name),
        outside::joined_url(home, text::trim(href)) is Ok,
        ({
            let path = outside::path_of_url(outside::joined_url(home, text::trim(href))->Ok_0);
            path is Some && outside::path_of_url(home) is Some ==> !same_but_slashes(
                path->0,
                outside::path_of_url(home)->0,
            )
        }),
    ensures
        caldav::calendars(home, Ok(nodes))->Ok_0.contains(
            (outside::joined_url(home, text::trim(href))->Ok_0, name),
        ),
{
    let url = outside::joined_url(home, text::trim(href))->Ok_0;
    let all = caldav::calendars(home, Ok(nodes))->Ok_0;
    let places = lemma_calendars(nodes, home, nodes.len() as int);
    assert(is_listed(nodes, home, i, url, name));
    let k = choose|k: int| 0 <= k < places.len() && places[k] == i;
    assert(is_listed(nodes, home, places[k], all[k].0, all[k].1));
    let other = choose|other: Seq<char>|
        {
            &&& #[trigger] speaks_of(nodes, i, other, all[k].1)
            &&& outside::joined_url(home, text::trim(other)) is Ok
            &&& outside::joined_url(home, text::trim(other))->Ok_0 == all[k].0
            &&& outside::path_of_url(all[k].0) is Some && outside::path_of_url(home) is Some
                ==> !same_but_slashes(
                outside::path_of_url(all[k].0)->0,
                outside::path_of_url(home)->0,
            )
        };
    lemma_calendar_at(nodes, i, other, all[k].1);
    lemma_calendar_at(nodes, i, href, name);
    assert(all[k] == (url, name));
}

proof fn lemma_calendar_errors(nodes: Seq<XmlNodeView>, home: Seq<char>, n: int)
    requires
        0 <= n <= nodes.len(),
    ensures
        caldav::calendars_upto(nodes, home, n) is Err <==> exists|
            i: int,
            href: Seq<char>,
            name: Seq<char>,
        |
            0 <= i < n && #[trigger] speaks_of(nodes, i, href, name) && outside::joined_url(
                home,
                text::trim(href),
            ) is Err,
    decreases n,
{
    if n > 0 {
        lemma_calendar_errors(nodes, home, n - 1);
        if let Some(found) = caldav::calendar_at(nodes, n - 1) {
            lemma_calendar_at(nodes, n - 1, found.0, found.1);
        }
        if exists|i: int, href: Seq<char>, name: Seq<char>|
            0 <= i < n && #[trigger] speaks_of(nodes, i, href, name) && outside::joined_url(
                home,
                text::trim(href),
            ) is Err {
            let (i, href, name) = choose|i: int, href: Seq<char>, name: Seq<char>|
                0 <= i < n && #[trigger] speaks_of(nodes, i, href, name) && outside::joined_url(
                    home,
                    text::trim(href),
                ) is Err;
            lemma_calendar_at(nodes, i, href, name);
        }
    }
}

/// Calendars cannot be read exactly where the answer is no document or where a
/// response speaks of one by a reference that makes no URL.
pub proof fn law_calendar_errors(nodes: Seq<XmlNodeView>, home: Seq<char>, e: Seq<char>)
    ensures
        caldav::calendars(home, Ok(nodes)) is Err <==> exists|
            i: int,
            href: Seq<char>,
            name: Seq<char>,
        |
            0 <= i < nodes.len() && #[trigger] speaks_of(nodes, i, href, name)
                && outside::joined_url(home, text::trim(href)) is Err,
        caldav::calendars(home, Err(e)) is Err,
{
    lemma_calendar_errors(nodes, home, nodes.len() as int);
}

proof fn lemma_first_bad_calendar(
    nodes: Seq<XmlNodeView>,
    home: Seq<char>,
    i: int,
    href: Seq<char>,
    name: Seq<char>,
    n: int,
)
    requires
        0 <= i < n <= nodes.len(),
        speaks_of(nodes, i, href, name),
        outside::joined_url(home, text::trim(href)) is Err,
        caldav::calendars_upto(nodes, home, i) is Ok,
    ensures
        caldav::calendars_upto(nodes, home, n) == Err::<Seq<(Seq<char>, Seq<char>)>, Seq<char>>(
            "bad href "@ + outside::quoted(href) + ": "@ + outside::joined_url(
                home,
                text::trim(href),
            )->Err_0,
        ),
    decreases n,
{
    if i < n - 1 {
        lemma_first_bad_calendar(nodes, home, i, href, name, n - 1);
    } else {
        lemma_calendar_at(nodes, i, href, name);
    }
}

/// The first reference to a calendar that makes no URL is the error, and it is
/// called by the reference and by what is wrong with it.
pub proof fn law_first_bad_calendar(
    nodes: Seq<XmlNodeView>,
    home: Seq<char>,
    i: int,
    href: Seq<char>,
    name: Seq<char>,
    e: Seq<char>,
)
    requires
        speaks_of(nodes, i, href, name),
        outside::joined_url(home, text::trim(href)) is Err,
        forall|j: int, h: Seq<char>, m: Seq<char>|
            0 <= j < i && #[trigger] speaks_of(nodes, j, h, m) ==> outside::joined_url(
                home,
                text::trim(h),
            ) is Ok,
    ensures
        caldav::calendars(home, Ok(nodes)) == Err::<Seq<(Seq<char>, Seq<char>)>, Seq<char>>(
            "bad href "@ + outside::quoted(href) + ": "@ + outside::joined_url(
                home,
                text::trim(href),
            )->Err_0,
        ),
        caldav::calendars(home, Err(e)) == Err::<Seq<(Seq<char>, Seq<char>)>, Seq<char>>(
            "bad multistatus: "@ + e,
        ),
{
    lemma_calendar_errors(nodes, home, i);
    lemma_first_bad_calendar(nodes, home, i, href, name, nodes.len() as int);
}

/// Each calendar is the list of its URL, with its name and without a version
/// tag, and items are created in it; where two have one URL the last one counts.
pub proof fn law_calendars_are_lists(
    calendars: Seq<(Seq<char>, Seq<char>)>,
    url: Seq<char>,
    name: Seq<char>,
)
    ensures
        caldav::calendar_lists_of(Seq::empty()) == Map::<Seq<char>, RemoteListView>::empty(),
        caldav::calendar_lists_of(calendars.push((url, name))) == caldav::calendar_lists_of(
            calendars,
        ).insert(
            url,
            (RemoteListView { title: name, etag: Seq::empty(), create_target: url }),
        ),
{
    assert(calendars.push((url, name)).drop_last() =~= calendars);
}

// ── Items of a calendar ───────────────────────────────────────────────────

/// A node is a response with a calendar of its own.
pub open spec fn has_calendar_data(nodes: Seq<XmlNodeView>, i: int, ics: Seq<char>) -> bool {
    &&& 0 <= i < nodes.len()
    &&& nodes[i].name == "response"@
    &&& caldav::text_at(nodes, caldav::named_in(nodes, i, "calendar-data"@)) == Some(ics)
}

/// What a text at a place is, and the empty text where there is none.
pub open spec fn text_or_none(nodes: Seq<XmlNodeView>, k: Option<int>) -> Seq<char> {
    let t = caldav::text_at(nodes, k);
    if t is Some {
        t->0
    } else {
        Seq::empty()
    }
}

/// The URL that a response's reference makes.
pub open spec fn response_url(nodes: Seq<XmlNodeView>, cal: Seq<char>, i: int) -> Result<
    Seq<char>,
    Seq<char>,
> {
    outside::joined_url(
        cal,
        text::trim(text_or_none(nodes, caldav::child_named(nodes, i, "href"@))),
    )
}

/// What one response adds to the items of a calendar: an item where its
/// calendar has an identity and does not come again, one more that comes again,
/// or its URL as that of one that cannot be read.
pub open spec fn adds(
    before: TodosView,
    after: TodosView,
    nodes: Seq<XmlNodeView>,
    cal: Seq<char>,
    i: int,
    ics: Seq<char>,
    url: Seq<char>,
) -> bool {
    let lines = ical::logical_lines(ics);
    let t = ical::read_lines(lines);
    &&& t.uid.len() == 0 ==> after == TodosView { unreadable: before.unreadable.push(url), ..before }
    &&& t.uid.len() > 0 && t.recurring ==> after == TodosView {
        recurring: before.recurring + 1,
        ..before
    }
    &&& t.uid.len() > 0 && !t.recurring ==> after == TodosView {
        found: before.found.push(
            (
                t.uid,
                RemoteTodoView {
                    url,
                    etag: text_or_none(nodes, caldav::named_in(nodes, i, "getetag"@)),
                    summary: t.summary,
                    done: t.done,
                    lines,
                    list: cal,
                },
            ),
        ),
        ..before
    }
}

/// The items of a calendar are gathered response by response, in document
/// order: one without a calendar of its own adds nothing, and a reference that
/// makes no URL is an error that stays.
pub proof fn law_todos_are_gathered(nodes: Seq<XmlNodeView>, cal: Seq<char>, i: int, ics: Seq<char>)
    requires
        0 <= i < nodes.len(),
    ensures
        ({
            let before = caldav::todos_upto(nodes, cal, i);
            let after = caldav::todos_upto(nodes, cal, i + 1);
            let url = response_url(nodes, cal, i);
            &&& before is Err ==> after == before
            &&& before is Ok && (forall|c: Seq<char>| !#[trigger] has_calendar_data(nodes, i, c))
                ==> after == before
            &&& before is Ok && has_calendar_data(nodes, i, ics) && url is Err ==> after == Err::<
                TodosView,
                Seq<char>,
            >(
                "bad href "@ + outside::quoted(
                    text_or_none(nodes, caldav::child_named(nodes, i, "href"@)),
                ) + ": "@ + url->Err_0,
            )
            &&& before is Ok && has_calendar_data(nodes, i, ics) && url is Ok ==> after is Ok
                && adds(before->Ok_0, after->Ok_0, nodes, cal, i, ics, url->Ok_0)
        }),
        caldav::todos_upto(nodes, cal, 0) == Ok::<TodosView, Seq<char>>(
            TodosView { found: Seq::empty(), recurring: 0, unreadable: Seq::empty() },
        ),
        caldav::todos_in_answer(cal, Ok(nodes)) == caldav::todos_upto(
            nodes,
            cal,
            nodes.len() as int,
        ),
{
    if let Some(r) = caldav::resource_at(nodes, i) {
        assert(has_calendar_data(nodes, i, r.ics));
    }
}

proof fn lemma_todo_is_found(nodes: Seq<XmlNodeView>, cal: Seq<char>, i: int, ics: Seq<char>, n: int)
    requires
        0 <= i < n <= nodes.len(),
        caldav::todos_upto(nodes, cal, n) is Ok,
        has_calendar_data(nodes, i, ics),
        ical::read_lines(ical::logical_lines(ics)).uid.len() > 0,
        !ical::read_lines(ical::logical_lines(ics)).recurring,
    ensures
        response_url(nodes, cal, i) is Ok,
        caldav::todos_upto(nodes, cal, n)->Ok_0.found.contains(
            item_of(nodes, cal, i, ics, response_url(nodes, cal, i)->Ok_0),
        ),
    decreases n,
{
    let entry = item_of(nodes, cal, i, ics, response_url(nodes, cal, i)->Ok_0);
    let before = caldav::todos_upto(nodes, cal, n - 1)->Ok_0.found;
    let after = caldav::todos_upto(nodes, cal, n)->Ok_0.found;
    if i < n - 1 {
        lemma_todo_is_found(nodes, cal, i, ics, n - 1);
        let k = choose|k: int| 0 <= k < before.len() && before[k] == entry;
        assert(after[k] == entry);
    } else {
        law_todos_are_gathered(nodes, cal, i, ics);
        assert(after[before.len() as int] == entry);
    }
}

/// The item that a response speaks of, with the identity, the summary and the
/// completion that its calendar says.
pub open spec fn item_of(
    nodes: Seq<XmlNodeView>,
    cal: Seq<char>,
    i: int,
    ics: Seq<char>,
    url: Seq<char>,
) -> (Seq<char>, RemoteTodoView) {
    let lines = ical::logical_lines(ics);
    let t = ical::read_lines(lines);
    (
        t.uid,
        RemoteTodoView {
            url,
            etag: text_or_none(nodes, caldav::named_in(nodes, i, "getetag"@)),
            summary: t.summary,
            done: t.done,
            lines,
            list: cal,
        },
    )
}

/// Every response whose calendar has an identity and does not come again is
/// found as an item of the calendar that was asked.
pub proof fn law_todo_is_found(nodes: Seq<XmlNodeView>, cal: Seq<char>, i: int, ics: Seq<char>)
    requires
        caldav::todos_in_answer(cal, Ok(nodes)) is Ok,
        has_calendar_data(nodes, i, ics),
        ical::read_lines(ical::logical_lines(ics)).uid.len() > 0,
        !ical::read_lines(ical::logical_lines(ics)).recurring,
    ensures
        response_url(nodes, cal, i) is Ok,
        caldav::todos_in_answer(cal, Ok(nodes))->Ok_0.found.contains(
            item_of(nodes, cal, i, ics, response_url(nodes, cal, i)->Ok_0),
        ),
{
    lemma_todo_is_found(nodes, cal, i, ics, nodes.len() as int);
}

} // verus!
