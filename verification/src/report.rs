//! What a dry run prints: the lines that say what a plan would do.
use vstd::prelude::*;

use crate::local;
use crate::map::OrdMap;
use crate::plan::{ListPlan, ListPlanView, Plan, PlanView};
use crate::remote::{RemoteList, RemoteListView, RemoteTodo, RemoteTodoView};

verus! {

/// The lines that a plan for lists is printed as.
pub open spec fn list_lines(
    plan: ListPlanView,
    remote: Map<Seq<char>, RemoteListView>,
) -> Seq<Seq<char>> {
    plan.pull_new.map_values(
        |id: Seq<char>| "list pull new:    "@ + remote[id].title + " ("@ + id + ")"@,
    ) + plan.pull_renames.map_values(
        |c: (Seq<char>, Seq<char>, Seq<char>)|
            "list pull rename: "@ + c.1 + " -> "@ + c.2 + " ("@ + c.0 + ")"@,
    ) + plan.pull_deletes.map_values(
        |c: (Seq<char>, Seq<char>)| "list pull delete: "@ + c.1 + " ("@ + c.0 + ")"@,
    ) + plan.push_creates.map_values(
        |c: (Seq<char>, Option<Seq<char>>)| "list push new:    "@ + c.0,
    ) + plan.push_renames.map_values(
        |c: (Seq<char>, Seq<char>)| "list push rename: -> "@ + c.1 + " ("@ + c.0 + ")"@,
    ) + plan.push_deletes.map_values(
        |id: Seq<char>|
            "list push delete: "@ + (if remote.contains_key(id) {
                remote[id].title
            } else {
                "?"@
            }) + " ("@ + id + ")"@,
    )
}

/// A line of up to three texts, two of them parted by `mid`.
fn line(head: &str, a: &str, mid: &str, b: &str, tail: &str) -> (r: String)
    ensures
        r@ == head@ + a@ + mid@ + b@ + tail@,
{
    let mut s = head.to_string();
    s.append(a);
    s.append(mid);
    s.append(b);
    s.append(tail);
    s
}

/// The lines that a plan for lists is printed as.
pub fn list_plan_lines(plan: &ListPlan, remote: &OrdMap<RemoteList>) -> (r: Vec<String>)
    requires
        forall|i: int|
            0 <= i < plan.pull_new@.len() ==> remote@.contains_key(#[trigger] plan.pull_new@[i]@),
    ensures
        r.deep_view() == list_lines(plan.deep_view(), remote@),
{
    let ghost p = plan.deep_view();
    let mut out: Vec<String> = Vec::new();
    let ghost f1 = |id: Seq<char>| "list pull new:    "@ + remote@[id].title + " ("@ + id + ")"@;
    let ghost s1 = p.pull_new.map_values(f1);
    for i in 0..plan.pull_new.len()
        invariant
            p == plan.deep_view(),
            f1 == (|id: Seq<char>|
                "list pull new:    "@ + remote@[id].title + " ("@ + id + ")"@),
            s1 == p.pull_new.map_values(f1),
            forall|i: int|
                0 <= i < plan.pull_new@.len() ==> remote@.contains_key(
                    #[trigger] plan.pull_new@[i]@,
                ),
            out.deep_view() == s1.take(i as int),
    {
        let ghost had = out.deep_view();
        let id = &plan.pull_new[i];
        assert(p.pull_new[i as int] == id@);
        if let Some(list) = remote.get(id.as_str()) {
            out.push(line("list pull new:    ", list.title.as_str(), " (", id.as_str(), ")"));
            assert(out.deep_view() =~= had.push(s1[i as int]));
        }
    }
    assert(out.deep_view() =~= s1);
    let ghost f2 = |c: (Seq<char>, Seq<char>, Seq<char>)|
        "list pull rename: "@ + c.1 + " -> "@ + c.2 + " ("@ + c.0 + ")"@;
    let ghost s2 = p.pull_renames.map_values(f2);
    assert(s1 + s2.take(0) =~= s1);
    for i in 0..plan.pull_renames.len()
        invariant
            p == plan.deep_view(),
            f2 == (|c: (Seq<char>, Seq<char>, Seq<char>)|
                "list pull rename: "@ + c.1 + " -> "@ + c.2 + " ("@ + c.0 + ")"@),
            s2 == p.pull_renames.map_values(f2),
            out.deep_view() == s1 + s2.take(i as int),
    {
        let ghost had = out.deep_view();
        let c = &plan.pull_renames[i];
        assert(p.pull_renames[i as int] == c.deep_view());
        let mut s = line("list pull rename: ", c.1.as_str(), " -> ", c.2.as_str(), " (");
        s.append(c.0.as_str());
        s.append(")");
        out.push(s);
        assert(out.deep_view() =~= had.push(s2[i as int]));
        assert(out.deep_view() =~= s1 + s2.take(i + 1));
    }
    let ghost d2 = s1 + s2;
    assert(out.deep_view() =~= d2);
    let ghost f3 = |c: (Seq<char>, Seq<char>)| "list pull delete: "@ + c.1 + " ("@ + c.0 + ")"@;
    let ghost s3 = p.pull_deletes.map_values(f3);
    assert(d2 + s3.take(0) =~= d2);
    for i in 0..plan.pull_deletes.len()
        invariant
            p == plan.deep_view(),
            f3 == (|c: (Seq<char>, Seq<char>)|
                "list pull delete: "@ + c.1 + " ("@ + c.0 + ")"@),
            s3 == p.pull_deletes.map_values(f3),
            out.deep_view() == d2 + s3.take(i as int),
    {
        let ghost had = out.deep_view();
        let c = &plan.pull_deletes[i];
        assert(p.pull_deletes[i as int] == c.deep_view());
        out.push(line("list pull delete: ", c.1.as_str(), " (", c.0.as_str(), ")"));
        assert(out.deep_view() =~= had.push(s3[i as int]));
        assert(out.deep_view() =~= d2 + s3.take(i + 1));
    }
    let ghost d3 = d2 + s3;
    assert(out.deep_view() =~= d3);
    let ghost f4 = |c: (Seq<char>, Option<Seq<char>>)| "list push new:    "@ + c.0;
    let ghost s4 = p.push_creates.map_values(f4);
    assert(d3 + s4.take(0) =~= d3);
    for i in 0..plan.push_creates.len()
        invariant
            p == plan.deep_view(),
            f4 == (|c: (Seq<char>, Option<Seq<char>>)| "list push new:    "@ + c.0),
            s4 == p.push_creates.map_values(f4),
            out.deep_view() == d3 + s4.take(i as int),
    {
        let ghost had = out.deep_view();
        let c = &plan.push_creates[i];
        assert(p.push_creates[i as int] == c.deep_view());
        let mut s = "list push new:    ".to_string();
        s.append(c.0.as_str());
        out.push(s);
        assert(out.deep_view() =~= had.push(s4[i as int]));
        assert(out.deep_view() =~= d3 + s4.take(i + 1));
    }
    let ghost d4 = d3 + s4;
    assert(out.deep_view() =~= d4);
    let ghost f5 = |c: (Seq<char>, Seq<char>)|
        "list push rename: -> "@ + c.1 + " ("@ + c.0 + ")"@;
    let ghost s5 = p.push_renames.map_values(f5);
    assert(d4 + s5.take(0) =~= d4);
    for i in 0..plan.push_renames.len()
        invariant
            p == plan.deep_view(),
            f5 == (|c: (Seq<char>, Seq<char>)|
                "list push rename: -> "@ + c.1 + " ("@ + c.0 + ")"@),
            s5 == p.push_renames.map_values(f5),
            out.deep_view() == d4 + s5.take(i as int),
    {
        let ghost had = out.deep_view();
        let c = &plan.push_renames[i];
        assert(p.push_renames[i as int] == c.deep_view());
        out.push(line("list push rename: -> ", c.1.as_str(), " (", c.0.as_str(), ")"));
        assert(out.deep_view() =~= had.push(s5[i as int]));
        assert(out.deep_view() =~= d4 + s5.take(i + 1));
    }
    let ghost d5 = d4 + s5;
    assert(out.deep_view() =~= d5);
    let ghost f6 = |id: Seq<char>|
        "list push delete: "@ + (if remote@.contains_key(id) {
            remote@[id].title
        } else {
            "?"@
        }) + " ("@ + id + ")"@;
    let ghost s6 = p.push_deletes.map_values(f6);
    assert(d5 + s6.take(0) =~= d5);
    for i in 0..plan.push_deletes.len()
        invariant
            p == plan.deep_view(),
            f6 == (|id: Seq<char>|
                "list push delete: "@ + (if remote@.contains_key(id) {
                    remote@[id].title
                } else {
                    "?"@
                }) + " ("@ + id + ")"@),
            s6 == p.push_deletes.map_values(f6),
            out.deep_view() == d5 + s6.take(i as int),
    {
        let ghost had = out.deep_view();
        let id = &plan.push_deletes[i];
        assert(p.push_deletes[i as int] == id@);
        let title = match remote.get(id.as_str()) {
            Some(list) => list.title.as_str(),
            None => "?",
        };
        out.push(line("list push delete: ", title, " (", id.as_str(), ")"));
        assert(out.deep_view() =~= had.push(s6[i as int]));
        assert(out.deep_view() =~= d5 + s6.take(i + 1));
    }
    assert(out.deep_view() =~= d5 + s6);
    out
}

/// The lines that say one thing of several items: what it is, the server's
/// text, and the identity.
pub open spec fn named_lines(
    head: Seq<char>,
    uids: Seq<Seq<char>>,
    remote: Map<Seq<char>, RemoteTodoView>,
) -> Seq<Seq<char>> {
    uids.map_values(|uid: Seq<char>| head + remote[uid].summary + " ("@ + uid + ")"@)
}

/// The lines that say one thing of several items: what it is, and the
/// identity.
pub open spec fn bare_lines(head: Seq<char>, uids: Seq<Seq<char>>) -> Seq<Seq<char>> {
    uids.map_values(|uid: Seq<char>| head + uid)
}

/// The lines that a plan for items is printed as.
pub open spec fn item_lines(
    plan: PlanView,
    remote: Map<Seq<char>, RemoteTodoView>,
) -> Seq<Seq<char>> {
    named_lines("  pull new:    "@, plan.pull_new, remote) + named_lines(
        "  pull change: "@,
        plan.pull_updates,
        remote,
    ) + bare_lines("  pull delete: "@, plan.pull_deletes) + bare_lines(
        "  push change: "@,
        plan.push_updates,
    ) + plan.push_creates.map_values(
        |c: (Seq<char>, bool, Option<Seq<char>>)|
            "  push new:    "@ + (if c.1 {
                "[x] "@
            } else {
                ""@
            }) + c.0,
    ) + bare_lines("  push delete: "@, plan.push_deletes)
}

fn add_named(out: &mut Vec<String>, head: &str, uids: &Vec<String>, remote: &OrdMap<RemoteTodo>)
    requires
        forall|i: int| 0 <= i < uids@.len() ==> remote@.contains_key(#[trigger] uids@[i]@),
    ensures
        final(out).deep_view() == old(out).deep_view() + named_lines(
            head@,
            uids.deep_view(),
            remote@,
        ),
{
    let ghost had = out.deep_view();
    let ghost more = named_lines(head@, uids.deep_view(), remote@);
    assert(had + more.take(0) =~= had);
    for i in 0..uids.len()
        invariant
            more == named_lines(head@, uids.deep_view(), remote@),
            forall|i: int| 0 <= i < uids@.len() ==> remote@.contains_key(#[trigger] uids@[i]@),
            out.deep_view() == had + more.take(i as int),
    {
        let ghost now = out.deep_view();
        let uid = &uids[i];
        assert(uids.deep_view()[i as int] == uid@);
        if let Some(todo) = remote.get(uid.as_str()) {
            out.push(line(head, todo.summary.as_str(), " (", uid.as_str(), ")"));
            assert(out.deep_view() =~= now.push(more[i as int]));
            assert(out.deep_view() =~= had + more.take(i + 1));
        }
    }
    assert(more.take(more.len() as int) =~= more);
}

fn add_bare(out: &mut Vec<String>, head: &str, uids: &Vec<String>)
    ensures
        final(out).deep_view() == old(out).deep_view() + bare_lines(head@, uids.deep_view()),
{
    let ghost had = out.deep_view();
    let ghost more = bare_lines(head@, uids.deep_view());
    assert(had + more.take(0) =~= had);
    for i in 0..uids.len()
        invariant
            more == bare_lines(head@, uids.deep_view()),
            out.deep_view() == had + more.take(i as int),
    {
        let ghost now = out.deep_view();
        assert(uids.deep_view()[i as int] == uids@[i as int]@);
        let mut s = head.to_string();
        s.append(uids[i].as_str());
        out.push(s);
        assert(out.deep_view() =~= now.push(more[i as int]));
        assert(out.deep_view() =~= had + more.take(i + 1));
    }
    assert(more.take(more.len() as int) =~= more);
}

/// The lines that a plan for items is printed as.
pub fn item_plan_lines(plan: &Plan, remote: &OrdMap<RemoteTodo>) -> (r: Vec<String>)
    requires
        local::pulls_known(plan.deep_view(), remote@),
    ensures
        r.deep_view() == item_lines(plan.deep_view(), remote@),
{
    let ghost p = plan.deep_view();
    proof {
        assert forall|i: int| 0 <= i < plan.pull_new@.len() implies remote@.contains_key(
            #[trigger] plan.pull_new@[i]@,
        ) by {
            assert(p.pull_new[i] == plan.pull_new@[i]@);
        }
        assert forall|i: int| 0 <= i < plan.pull_updates@.len() implies remote@.contains_key(
            #[trigger] plan.pull_updates@[i]@,
        ) by {
            assert(p.pull_updates[i] == plan.pull_updates@[i]@);
        }
    }
    let mut out: Vec<String> = Vec::new();
    add_named(&mut out, "  pull new:    ", &plan.pull_new, remote);
    add_named(&mut out, "  pull change: ", &plan.pull_updates, remote);
    add_bare(&mut out, "  pull delete: ", &plan.pull_deletes);
    add_bare(&mut out, "  push change: ", &plan.push_updates);
    let ghost had = out.deep_view();
    let ghost f = |c: (Seq<char>, bool, Option<Seq<char>>)|
        "  push new:    "@ + (if c.1 {
            "[x] "@
        } else {
            ""@
        }) + c.0;
    let ghost more = p.push_creates.map_values(f);
    assert(had + more.take(0) =~= had);
    for i in 0..plan.push_creates.len()
        invariant
            p == plan.deep_view(),
            f == (|c: (Seq<char>, bool, Option<Seq<char>>)|
                "  push new:    "@ + (if c.1 {
                    "[x] "@
                } else {
                    ""@
                }) + c.0),
            more == p.push_creates.map_values(f),
            out.deep_view() == had + more.take(i as int),
    {
        let ghost now = out.deep_view();
        let c = &plan.push_creates[i];
        assert(p.push_creates[i as int] == c.deep_view());
        let mut s = "  push new:    ".to_string();
        s.append(if c.1 { "[x] " } else { "" });
        s.append(c.0.as_str());
        out.push(s);
        assert(out.deep_view() =~= now.push(more[i as int]));
        assert(out.deep_view() =~= had + more.take(i + 1));
    }
    assert(more.take(more.len() as int) =~= more);
    add_bare(&mut out, "  push delete: ", &plan.push_deletes);
    assert(out.deep_view() =~= item_lines(p, remote@));
    out
}

} // verus!
