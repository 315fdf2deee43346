//! What holds of calendars: a written one reads as what was written, and a
//! patched one keeps everything that was not patched.
use vstd::prelude::*;

use crate::ical;
use crate::model::ItemView;
use crate::round_trip;
use crate::seqs;
use crate::text;

verus! {

// ── Text values ───────────────────────────────────────────────────────────

/// A text with a space for every line feed.
pub open spec fn spaced(v: Seq<char>) -> Seq<char> {
    v.map_values(
        |c: char|
            if c == '\n' {
                ' '
            } else {
                c
            },
    )
}

proof fn lemma_unescape(a: Seq<char>, rest: Seq<char>)
    ensures
        ical::unescaped(ical::escaped(a) + rest) == spaced(a) + ical::unescaped(rest),
    decreases a.len(),
{
    if a.len() == 0 {
        assert(ical::escaped(a) + rest =~= rest);
        assert(spaced(a) + ical::unescaped(rest) =~= ical::unescaped(rest));
    } else {
        let b = a.drop_last();
        let c = a.last();
        let tail = ical::escaped_char(c) + rest;
        assert(ical::escaped(a) + rest =~= ical::escaped(b) + tail);
        lemma_unescape(b, tail);
        let d = if c == '\n' {
            ' '
        } else {
            c
        };
        if c == '\\' || c == ',' || c == ';' || c == '\n' {
            assert(tail.skip(2) =~= rest);
        } else {
            assert(tail.skip(1) =~= rest);
        }
        assert(ical::unescaped(tail) =~= seq![d] + ical::unescaped(rest));
        assert(spaced(a) =~= spaced(b).push(d));
        assert(spaced(b) + (seq![d] + ical::unescaped(rest)) =~= spaced(a) + ical::unescaped(
            rest,
        ));
    }
}

/// Taking the escapes out of an escaped text gives the text back, with a space
/// for every line feed.
pub proof fn law_escape_round_trip(v: Seq<char>)
    ensures
        ical::unescaped(ical::escaped(v)) == spaced(v),
        text::one_line(v) ==> ical::unescaped(ical::escaped(v)) == v,
{
    lemma_unescape(v, Seq::empty());
    assert(ical::escaped(v) + Seq::<char>::empty() =~= ical::escaped(v));
    assert(spaced(v) + ical::unescaped(Seq::<char>::empty()) =~= spaced(v));
    if text::one_line(v) {
        assert(spaced(v) =~= v);
    }
}

proof fn lemma_escaped_one_line(v: Seq<char>)
    ensures
        text::one_line(ical::escaped(v)),
        v.len() > 0 ==> ical::escaped(v).len() > 0,
        v.len() > 0 && v.last() != '\n' ==> ical::escaped(v).last() == v.last(),
        v.len() > 0 && v[0] != '\n' ==> ical::escaped(v)[0] == v[0] || ical::escaped(v)[0] == '\\',
    decreases v.len(),
{
    if v.len() > 0 {
        lemma_escaped_one_line(v.drop_last());
        let a = ical::escaped(v.drop_last());
        let b = ical::escaped_char(v.last());
        assert forall|i: int| 0 <= i < (a + b).len() implies (a + b)[i] != '\n' by {
            if i < a.len() {
                assert((a + b)[i] == a[i]);
            } else {
                assert((a + b)[i] == b[i - a.len()]);
            }
        }
        if v.len() == 1 {
            assert(a.len() == 0);
            assert((a + b)[0] == b[0]);
        } else {
            assert((a + b)[0] == a[0]);
        }
    }
}

/// What a summary is read as once it has been written.
pub open spec fn reread(summary: Seq<char>) -> Seq<char> {
    ical::unescaped(text::trim(ical::escaped(summary)))
}

/// A trimmed summary on one line is read as it was written.
pub proof fn law_summary_survives(summary: Seq<char>)
    requires
        text::one_line(summary),
        text::trim(summary) == summary,
    ensures
        reread(summary) == summary,
{
    text::lemma_trimmed(summary);
    lemma_escaped_one_line(summary);
    text::lemma_trimmed(ical::escaped(summary));
    law_escape_round_trip(summary);
}

// ── Properties ────────────────────────────────────────────────────────────

/// A plain property name: upper case letters and dashes.
spec fn plain(name: Seq<char>) -> bool {
    name.len() > 0 && forall|i: int|
        0 <= i < name.len() ==> ('A' <= #[trigger] name[i] && name[i] <= 'Z') || name[i] == '-'
}

proof fn lemma_colon(name: Seq<char>, value: Seq<char>, i: int)
    requires
        plain(name),
        0 <= i <= name.len(),
    ensures
        ical::colon_from(name + seq![':'] + value, i, false) == Some(name.len() as int),
    decreases name.len() - i,
{
    let line = name + seq![':'] + value;
    if i < name.len() {
        assert(line[i] == name[i]);
        lemma_colon(name, value, i + 1);
    } else {
        assert(line[i] == ':');
    }
}

/// The property on a line that starts with a plain name and a colon.
proof fn lemma_property(name: Seq<char>, value: Seq<char>)
    requires
        plain(name),
    ensures
        ical::content(name + seq![':'] + value) == Some((name, value)),
        ical::prop_name(name + seq![':'] + value) == name,
        ical::prop_value(name + seq![':'] + value) == value,
{
    let line = name + seq![':'] + value;
    lemma_colon(name, value, 0);
    assert(line.take(name.len() as int) =~= name);
    assert(line.skip(name.len() as int + 1) =~= value);
    reveal_strlit(";");
    text::lemma_find(name, ";"@);
    if let Some(k) = text::find(name, ";"@) {
        assert(name.subrange(k, k + 1)[0] == ';');
        assert(name[k] == ';');
    }
    assert(text::ascii_upper(name) =~= name);
}

proof fn lemma_summary_line(summary: Seq<char>)
    ensures
        ical::content("SUMMARY:"@ + ical::escaped(summary)) is Some,
        ical::prop_name("SUMMARY:"@ + ical::escaped(summary)) == "SUMMARY"@,
        ical::prop_value("SUMMARY:"@ + ical::escaped(summary)) == ical::escaped(summary),
{
    reveal_strlit("SUMMARY:");
    reveal_strlit("SUMMARY");
    lemma_property("SUMMARY"@, ical::escaped(summary));
    assert("SUMMARY:"@ + ical::escaped(summary) =~= "SUMMARY"@ + seq![':'] + ical::escaped(
        summary,
    ));
}

proof fn lemma_completed_line(now: Seq<char>)
    ensures
        ical::content("COMPLETED:"@ + now) is Some,
        ical::prop_name("COMPLETED:"@ + now) == "COMPLETED"@,
        ical::prop_value("COMPLETED:"@ + now) == now,
{
    reveal_strlit("COMPLETED:");
    reveal_strlit("COMPLETED");
    lemma_property("COMPLETED"@, now);
    assert("COMPLETED:"@ + now =~= "COMPLETED"@ + seq![':'] + now);
}

proof fn lemma_status_lines()
    ensures
        ical::content("STATUS:COMPLETED"@) is Some,
        ical::prop_name("STATUS:COMPLETED"@) == "STATUS"@,
        ical::prop_value("STATUS:COMPLETED"@) == "COMPLETED"@,
        ical::content("STATUS:NEEDS-ACTION"@) is Some,
        ical::prop_name("STATUS:NEEDS-ACTION"@) == "STATUS"@,
        ical::prop_value("STATUS:NEEDS-ACTION"@) == "NEEDS-ACTION"@,
        ical::content("PERCENT-COMPLETE:100"@) is Some,
        ical::prop_name("PERCENT-COMPLETE:100"@) == "PERCENT-COMPLETE"@,
        ical::prop_value("PERCENT-COMPLETE:100"@) == "100"@,
        ical::content("PERCENT-COMPLETE:0"@) is Some,
        ical::prop_name("PERCENT-COMPLETE:0"@) == "PERCENT-COMPLETE"@,
        ical::prop_value("PERCENT-COMPLETE:0"@) == "0"@,
{
    reveal_strlit("STATUS");
    reveal_strlit("COMPLETED");
    reveal_strlit("NEEDS-ACTION");
    reveal_strlit("PERCENT-COMPLETE");
    reveal_strlit("100");
    reveal_strlit("0");
    reveal_strlit("STATUS:COMPLETED");
    reveal_strlit("STATUS:NEEDS-ACTION");
    reveal_strlit("PERCENT-COMPLETE:100");
    reveal_strlit("PERCENT-COMPLETE:0");
    lemma_property("STATUS"@, "COMPLETED"@);
    lemma_property("STATUS"@, "NEEDS-ACTION"@);
    lemma_property("PERCENT-COMPLETE"@, "100"@);
    lemma_property("PERCENT-COMPLETE"@, "0"@);
    assert("STATUS:COMPLETED"@ =~= "STATUS"@ + seq![':'] + "COMPLETED"@);
    assert("STATUS:NEEDS-ACTION"@ =~= "STATUS"@ + seq![':'] + "NEEDS-ACTION"@);
    assert("PERCENT-COMPLETE:100"@ =~= "PERCENT-COMPLETE"@ + seq![':'] + "100"@);
    assert("PERCENT-COMPLETE:0"@ =~= "PERCENT-COMPLETE"@ + seq![':'] + "0"@);
}

/// The names that lines are told apart by are different.
pub proof fn lemma_names_differ()
    ensures
        "BEGIN"@.len() > 0,
        "END"@.len() > 0,
        "BEGIN"@ != "END"@,
        "SUMMARY"@ != "BEGIN"@,
        "SUMMARY"@ != "END"@,
        "SUMMARY"@ != "UID"@,
        "STATUS"@ != "BEGIN"@,
        "STATUS"@ != "END"@,
        "STATUS"@ != "UID"@,
        "STATUS"@ != "SUMMARY"@,
        "COMPLETED"@ != "BEGIN"@,
        "COMPLETED"@ != "END"@,
        "COMPLETED"@ != "UID"@,
        "COMPLETED"@ != "SUMMARY"@,
        "COMPLETED"@ != "STATUS"@,
        "PERCENT-COMPLETE"@ != "BEGIN"@,
        "PERCENT-COMPLETE"@ != "END"@,
        "PERCENT-COMPLETE"@ != "UID"@,
        "PERCENT-COMPLETE"@ != "SUMMARY"@,
        "PERCENT-COMPLETE"@ != "STATUS"@,
        "PERCENT-COMPLETE"@ != "COMPLETED"@,
        "UID"@ != "BEGIN"@,
        "UID"@ != "END"@,
        "RRULE"@ != "SUMMARY"@,
        "RRULE"@ != "STATUS"@,
        "RRULE"@ != "COMPLETED"@,
        "RRULE"@ != "PERCENT-COMPLETE"@,
        "RDATE"@ != "SUMMARY"@,
        "RDATE"@ != "STATUS"@,
        "RDATE"@ != "COMPLETED"@,
        "RDATE"@ != "PERCENT-COMPLETE"@,
{
    reveal_strlit("BEGIN");
    reveal_strlit("END");
    reveal_strlit("UID");
    reveal_strlit("SUMMARY");
    reveal_strlit("STATUS");
    reveal_strlit("COMPLETED");
    reveal_strlit("PERCENT-COMPLETE");
    reveal_strlit("RRULE");
    reveal_strlit("RDATE");
    assert("BEGIN"@[0] == 'B');
    assert("END"@[0] == 'E');
    assert("UID"@[0] == 'U');
    assert("SUMMARY"@[1] == 'U');
    assert("STATUS"@[1] == 'T');
    assert("SUMMARY"@[0] == 'S');
    assert("STATUS"@[0] == 'S');
    assert("COMPLETED"@[0] == 'C');
    assert("PERCENT-COMPLETE"@[0] == 'P');
    assert("RRULE"@[0] == 'R');
    assert("RDATE"@[0] == 'R');
}

// ── What a patch keeps ────────────────────────────────────────────────────

proof fn lemma_rewritten(summary: Seq<char>, done: bool, now: Seq<char>)
    ensures
        forall|i: int|
            0 <= i < ical::rewritten(summary, done, now).len() ==> ical::is_rewritten(
                #[trigger] ical::rewritten(summary, done, now)[i],
            ),
{
    lemma_summary_line(summary);
    lemma_completed_line(now);
    lemma_status_lines();
}

/// A patch keeps every line of another property than the summary and the
/// completion, as it is and in order.
pub proof fn law_patch_keeps_others(
    lines: Seq<Seq<char>>,
    summary: Seq<char>,
    done: bool,
    now: Seq<char>,
)
    ensures
        ical::patched_lines(lines, summary, done, now).filter(
            |l: Seq<char>| !ical::is_rewritten(l),
        ) == lines.filter(|l: Seq<char>| !ical::is_rewritten(l)),
    decreases lines.len(),
{
    let p = |l: Seq<char>| !ical::is_rewritten(l);
    reveal(Seq::filter);
    if lines.len() > 0 {
        let rest = lines.drop_last();
        let line = lines.last();
        law_patch_keeps_others(rest, summary, done, now);
        let a = ical::patched_lines(rest, summary, done, now);
        let b = ical::patched_line(
            ical::depth(rest) == Some(0nat),
            line,
            summary,
            done,
            now,
        );
        Seq::filter_distributes_over_add(a, b, p);
        lemma_names_differ();
        if ical::is_begin(line) {
            assert(seq![line].drop_last() =~= Seq::empty());
            assert(seq![line].filter(p) =~= seq![line]);
        } else if ical::is_end(line) {
            let added = ical::rewritten(summary, done, now);
            lemma_rewritten(summary, done, now);
            seqs::lemma_filter_none(added, p);
            assert(added.push(line).drop_last() =~= added);
            assert(b.filter(p) =~= seq![line]);
        } else if ical::depth(rest) == Some(0nat) && ical::is_rewritten(line) {
            assert(b.filter(p) =~= Seq::empty());
        } else {
            assert(seq![line].drop_last() =~= Seq::empty());
            if p(line) {
                assert(b.filter(p) =~= seq![line]);
            } else {
                seqs::lemma_filter_none(b, p);
            }
        }
        assert(a.filter(p) + b.filter(p) =~= lines.filter(p));
    }
}

/// What the first lines are patched to, the patched whole starts with.
proof fn lemma_patched_start(
    lines: Seq<Seq<char>>,
    summary: Seq<char>,
    done: bool,
    now: Seq<char>,
    j: int,
) -> (after: Seq<Seq<char>>)
    requires
        0 <= j <= lines.len(),
    ensures
        ical::patched_lines(lines, summary, done, now) == ical::patched_lines(
            lines.take(j),
            summary,
            done,
            now,
        ) + after,
    decreases lines.len(),
{
    let head = ical::patched_lines(lines.take(j), summary, done, now);
    if j == lines.len() {
        assert(lines.take(j) =~= lines);
        let after = Seq::<Seq<char>>::empty();
        assert(head + after =~= head);
        after
    } else {
        let rest = lines.drop_last();
        let before = lemma_patched_start(rest, summary, done, now, j);
        assert(rest.take(j) =~= lines.take(j));
        let b = ical::patched_line(
            ical::depth(rest) == Some(0nat),
            lines.last(),
            summary,
            done,
            now,
        );
        assert(head + before + b =~= head + (before + b));
        before + b
    }
}

/// A line that a patch drops: of the summary or the completion, in the item
/// itself and not in a component of it.
pub open spec fn is_dropped(lines: Seq<Seq<char>>, k: int) -> bool {
    ical::depth(lines.take(k)) == Some(0nat) && ical::is_rewritten(lines[k])
}

/// A patch keeps every stretch of lines, whole and as it is, in which no item
/// ends and no line of the item's own summary or completion stands: a
/// component of the item, such as an alarm, is such a stretch, whatever its
/// lines say.
pub proof fn law_patch_keeps_stretches(
    lines: Seq<Seq<char>>,
    summary: Seq<char>,
    done: bool,
    now: Seq<char>,
    i: int,
    j: int,
)
    requires
        0 <= i <= j <= lines.len(),
        forall|k: int| i <= k < j ==> !ical::is_end(#[trigger] lines[k]) && !is_dropped(lines, k),
    ensures
        exists|after: Seq<Seq<char>>|
            ical::patched_lines(lines, summary, done, now) == #[trigger] (ical::patched_lines(
                lines.take(i),
                summary,
                done,
                now,
            ) + lines.subrange(i, j) + after),
{
    let after = lemma_patched_start(lines, summary, done, now, j);
    lemma_stretch(lines, summary, done, now, i, j);
}

proof fn lemma_stretch(
    lines: Seq<Seq<char>>,
    summary: Seq<char>,
    done: bool,
    now: Seq<char>,
    i: int,
    j: int,
)
    requires
        0 <= i <= j <= lines.len(),
        forall|k: int| i <= k < j ==> !ical::is_end(#[trigger] lines[k]) && !is_dropped(lines, k),
    ensures
        ical::patched_lines(lines.take(j), summary, done, now) == ical::patched_lines(
            lines.take(i),
            summary,
            done,
            now,
        ) + lines.subrange(i, j),
    decreases j - i,
{
    let head = ical::patched_lines(lines.take(i), summary, done, now);
    if i == j {
        assert(head + lines.subrange(i, j) =~= head);
    } else {
        lemma_stretch(lines, summary, done, now, i, j - 1);
        let line = lines[j - 1];
        let had = lines.take(j - 1);
        assert(!ical::is_end(line) && !is_dropped(lines, j - 1));
        assert(ical::patched_line(
            ical::depth(had) == Some(0nat),
            line,
            summary,
            done,
            now,
        ) == seq![line]);
        lemma_depth_push(had, line);
        assert(lines.take(j) =~= had.push(line));
        assert(lines.subrange(i, j) =~= lines.subrange(i, j - 1).push(line));
        assert(head + lines.subrange(i, j - 1) + seq![line] =~= head + lines.subrange(i, j));
    }
}

/// The lines but for those that a patch drops.
pub open spec fn others(lines: Seq<Seq<char>>) -> Seq<Seq<char>>
    decreases lines.len(),
{
    if lines.len() == 0 {
        Seq::empty()
    } else {
        let rest = lines.drop_last();
        if ical::depth(rest) == Some(0nat) && ical::is_rewritten(lines.last()) {
            others(rest)
        } else {
            others(rest).push(lines.last())
        }
    }
}

/// Where an item ends, each of its components has ended.
pub open spec fn ends_well(lines: Seq<Seq<char>>) -> bool {
    forall|k: int|
        0 <= k < lines.len() && ical::is_end(#[trigger] lines[k]) ==> ical::depth(lines.take(k))
            == Some(0nat)
}

proof fn lemma_depth_push(lines: Seq<Seq<char>>, line: Seq<char>)
    ensures
        lines.push(line).drop_last() == lines,
        lines.push(line).last() == line,
{
    assert(lines.push(line).drop_last() =~= lines);
}

/// The lines that a patch writes in an item are no others, and leave the depth
/// as it was.
proof fn lemma_others_rewritten(
    lines: Seq<Seq<char>>,
    summary: Seq<char>,
    done: bool,
    now: Seq<char>,
    n: int,
)
    requires
        ical::depth(lines) == Some(0nat),
        0 <= n <= ical::rewritten(summary, done, now).len(),
    ensures
        ical::depth(lines + ical::rewritten(summary, done, now).take(n)) == Some(0nat),
        others(lines + ical::rewritten(summary, done, now).take(n)) == others(lines),
    decreases n,
{
    let added = ical::rewritten(summary, done, now);
    if n == 0 {
        assert(lines + added.take(0) =~= lines);
    } else {
        lemma_others_rewritten(lines, summary, done, now, n - 1);
        lemma_rewritten(summary, done, now);
        lemma_names_differ();
        let had = lines + added.take(n - 1);
        let line = added[n - 1];
        assert(lines + added.take(n) =~= had.push(line));
        lemma_depth_push(had, line);
        assert(ical::is_rewritten(line));
    }
}

/// A patch keeps every line but those of the item's own summary and
/// completion, as it is and in order: those of its components too. Where the
/// item ends, each of its components has ended.
pub proof fn law_patch_keeps_all_else(
    lines: Seq<Seq<char>>,
    summary: Seq<char>,
    done: bool,
    now: Seq<char>,
)
    requires
        ends_well(lines),
    ensures
        others(ical::patched_lines(lines, summary, done, now)) == others(lines),
        ical::depth(ical::patched_lines(lines, summary, done, now)) == ical::depth(lines),
    decreases lines.len(),
{
    if lines.len() > 0 {
        let rest = lines.drop_last();
        let line = lines.last();
        assert forall|k: int| 0 <= k < rest.len() && ical::is_end(#[trigger] rest[k]) implies
            ical::depth(rest.take(k)) == Some(0nat) by {
            assert(rest[k] == lines[k]);
            assert(rest.take(k) =~= lines.take(k));
        }
        law_patch_keeps_all_else(rest, summary, done, now);
        lemma_names_differ();
        let a = ical::patched_lines(rest, summary, done, now);
        let b = ical::patched_line(
            ical::depth(rest) == Some(0nat),
            line,
            summary,
            done,
            now,
        );
        if ical::is_end(line) && !ical::is_begin(line) {
            let n = lines.len() - 1;
            assert(lines[n] == line);
            assert(lines.take(n) =~= rest);
            let added = ical::rewritten(summary, done, now);
            assert(added.take(added.len() as int) =~= added);
            lemma_others_rewritten(a, summary, done, now, added.len() as int);
            lemma_depth_push(a + added, line);
            assert(a + b =~= (a + added).push(line));
        } else if ical::depth(rest) == Some(0nat) && ical::is_rewritten(line) {
            assert(a + b =~= a);
        } else {
            assert(a + b =~= a.push(line));
            lemma_depth_push(a, line);
        }
    }
}

// ── What a patched calendar reads as ──────────────────────────────────────

/// Some item ends in some lines.
pub open spec fn has_item(lines: Seq<Seq<char>>) -> bool
    decreases lines.len(),
{
    if lines.len() == 0 {
        false
    } else {
        has_item(lines.drop_last()) || (ical::is_end(lines.last()) && ical::inside(
            lines.drop_last(),
        ) && !ical::is_begin(lines.last()))
    }
}

proof fn lemma_read_push(lines: Seq<Seq<char>>, line: Seq<char>)
    ensures
        ical::read_lines(lines.push(line)) == ical::read_line(ical::read_lines(lines), line),
{
    assert(lines.push(line).drop_last() =~= lines);
}

/// What the lines that a patch writes are read as.
proof fn lemma_read_rewritten(
    lines: Seq<Seq<char>>,
    summary: Seq<char>,
    done: bool,
    now: Seq<char>,
)
    ensures
        ical::read_lines(lines + ical::rewritten(summary, done, now)) == ({
            let t = ical::read_lines(lines);
            if t.in_todo {
                ical::TodoView { summary: reread(summary), done: t.done || done, ..t }
            } else {
                t
            }
        }),
{
    lemma_summary_line(summary);
    lemma_completed_line(now);
    lemma_status_lines();
    lemma_names_differ();
    reveal_strlit("COMPLETED");
    reveal_strlit("NEEDS-ACTION");
    reveal_strlit("100");
    reveal_strlit("0");
    text::lemma_trimmed("COMPLETED"@);
    text::lemma_trimmed("NEEDS-ACTION"@);
    text::lemma_trimmed("100"@);
    text::lemma_trimmed("0"@);
    assert(text::ascii_upper("COMPLETED"@) =~= "COMPLETED"@);
    assert(text::ascii_upper("NEEDS-ACTION"@)[0] == 'N');
    assert("COMPLETED"@[0] == 'C');
    assert("0"@.len() != "100"@.len());
    let s = "SUMMARY:"@ + ical::escaped(summary);
    let l1 = lines.push(s);
    lemma_read_push(lines, s);
    if done {
        let l2 = l1.push("STATUS:COMPLETED"@);
        let l3 = l2.push("PERCENT-COMPLETE:100"@);
        let l4 = l3.push("COMPLETED:"@ + now);
        lemma_read_push(l1, "STATUS:COMPLETED"@);
        lemma_read_push(l2, "PERCENT-COMPLETE:100"@);
        lemma_read_push(l3, "COMPLETED:"@ + now);
        assert(lines + ical::rewritten(summary, done, now) =~= l4);
    } else {
        let l2 = l1.push("STATUS:NEEDS-ACTION"@);
        let l3 = l2.push("PERCENT-COMPLETE:0"@);
        lemma_read_push(l1, "STATUS:NEEDS-ACTION"@);
        lemma_read_push(l2, "PERCENT-COMPLETE:0"@);
        assert(lines + ical::rewritten(summary, done, now) =~= l3);
    }
}

/// A line that is read as a completion.
pub open spec fn says_done(line: Seq<char>) -> bool {
    let value = text::trim(ical::prop_value(line));
    ical::content(line) is Some && (ical::prop_name(line) == "COMPLETED"@ || (ical::prop_name(line)
        == "STATUS"@ && text::ascii_upper(value) == "COMPLETED"@) || (ical::prop_name(line)
        == "PERCENT-COMPLETE"@ && value == "100"@))
}

/// Some component of an item says that it is done.
pub open spec fn says_done_within(lines: Seq<Seq<char>>) -> bool
    decreases lines.len(),
{
    if lines.len() == 0 {
        false
    } else {
        says_done_within(lines.drop_last()) || (says_done(lines.last()) && match ical::depth(
            lines.drop_last(),
        ) {
            Some(d) => d > 0,
            None => false,
        })
    }
}

/// A component of an item that does not end has a summary.
pub open spec fn loose_summary(lines: Seq<Seq<char>>) -> bool
    decreases lines.len(),
{
    if lines.len() == 0 {
        false
    } else {
        let rest = lines.drop_last();
        if ical::is_end(lines.last()) && ical::inside(rest) {
            false
        } else {
            loose_summary(rest) || (ical::prop_name(lines.last()) == "SUMMARY"@
                && match ical::depth(rest) {
                Some(d) => d > 0,
                None => false,
            })
        }
    }
}

/// A patched item is read with the summary that it was patched with, though a
/// component of it has another, and with the completion, unless a component
/// says that it is done, which is read as the item's. Its identity stays, and
/// so does whether it comes again.
pub proof fn law_patched_reads(
    lines: Seq<Seq<char>>,
    summary: Seq<char>,
    done: bool,
    now: Seq<char>,
)
    ensures
        ical::read_lines(lines).in_todo == ical::inside(lines),
        ({
            let t = ical::read_lines(ical::patched_lines(lines, summary, done, now));
            &&& t.in_todo == ical::inside(lines)
            &&& t.uid == ical::read_lines(lines).uid
            &&& t.recurring == ical::read_lines(lines).recurring
            &&& t.done == ((done && has_item(lines)) || says_done_within(lines))
            &&& !loose_summary(lines) ==> t.summary == if has_item(lines) {
                reread(summary)
            } else {
                Seq::empty()
            }
        }),
    decreases lines.len(),
{
    if lines.len() > 0 {
        let rest = lines.drop_last();
        let line = lines.last();
        law_patched_reads(rest, summary, done, now);
        lemma_names_differ();
        let a = ical::patched_lines(rest, summary, done, now);
        let b = ical::patched_line(
            ical::depth(rest) == Some(0nat),
            line,
            summary,
            done,
            now,
        );
        if ical::is_begin(line) {
            assert(a + b =~= a.push(line));
            lemma_read_push(a, line);
        } else if ical::is_end(line) {
            lemma_read_rewritten(a, summary, done, now);
            let c = a + ical::rewritten(summary, done, now);
            assert(a + b =~= c.push(line));
            lemma_read_push(c, line);
        } else if ical::depth(rest) == Some(0nat) && ical::is_rewritten(line) {
            assert(a + b =~= a);
        } else {
            assert(a + b =~= a.push(line));
            lemma_read_push(a, line);
        }
    }
}

// ── Written and read again ────────────────────────────────────────────────

/// Lines that can be written: none empty, none with a line feed, and none
/// that would go on with the one before it.
pub open spec fn clean(lines: Seq<Seq<char>>) -> bool {
    forall|i: int|
        0 <= i < lines.len() ==> (#[trigger] lines[i]).len() > 0 && text::one_line(lines[i]) && (i
            > 0 ==> !ical::is_folded(lines[i]))
}

proof fn lemma_crlf_front(lines: Seq<Seq<char>>)
    requires
        lines.len() > 0,
    ensures
        ical::crlf_lines(lines) == lines[0] + seq!['\r', '\n'] + ical::crlf_lines(lines.skip(1)),
    decreases lines.len(),
{
    let rest = lines.drop_last();
    if rest.len() == 0 {
        assert(lines.skip(1) =~= rest);
        assert(ical::crlf_lines(rest) =~= Seq::empty());
        assert(ical::crlf_lines(lines) =~= lines[0] + seq!['\r', '\n'] + ical::crlf_lines(
            lines.skip(1),
        ));
    } else {
        lemma_crlf_front(rest);
        assert(lines.skip(1).drop_last() =~= rest.skip(1));
        assert(ical::crlf_lines(lines) =~= lines[0] + seq!['\r', '\n'] + ical::crlf_lines(
            lines.skip(1),
        ));
    }
}

proof fn lemma_raw(lines: Seq<Seq<char>>)
    requires
        clean(lines),
    ensures
        ical::raw_lines(ical::crlf_lines(lines)) == lines.push(Seq::empty()),
    decreases lines.len(),
{
    let whole = ical::crlf_lines(lines);
    let f = |l: Seq<char>| text::chop_return(l);
    if lines.len() == 0 {
        text::lemma_find(whole, seq!['\n']);
        assert(text::split(whole, '\n') =~= seq![whole]);
        assert(ical::raw_lines(whole) =~= lines.push(Seq::empty()));
    } else {
        lemma_crlf_front(lines);
        let rest = lines.skip(1);
        assert forall|i: int| 0 <= i < rest.len() implies (#[trigger] rest[i]).len() > 0
            && text::one_line(rest[i]) && (i > 0 ==> !ical::is_folded(rest[i])) by {
            assert(rest[i] == lines[i + 1]);
        }
        lemma_raw(rest);
        let first = lines[0].push('\r');
        let k = first.len() as int;
        assert(whole =~= first + seq!['\n'] + ical::crlf_lines(rest));
        assert(whole.subrange(k, k + 1) =~= seq!['\n']);
        assert forall|j: int| 0 <= j < k implies !text::has_at(whole, seq!['\n'], j) by {
            assert(whole.subrange(j, j + 1)[0] == first[j]);
        }
        text::lemma_find_at(whole, seq!['\n'], k);
        assert(whole.take(k) =~= first);
        assert(whole.skip(k + 1) =~= ical::crlf_lines(rest));
        assert(first.drop_last() =~= lines[0]);
        let tail = text::split(ical::crlf_lines(rest), '\n');
        assert((seq![first] + tail).map_values(f) =~= seq![lines[0]] + tail.map_values(f));
        assert(ical::raw_lines(whole) =~= lines.push(Seq::empty()));
    }
}

proof fn lemma_put_together(raw: Seq<Seq<char>>)
    requires
        forall|i: int| 0 < i < raw.len() ==> !ical::is_folded(#[trigger] raw[i]),
    ensures
        ical::put_together(raw) == raw,
    decreases raw.len(),
{
    if raw.len() > 0 {
        let rest = raw.drop_last();
        assert forall|i: int| 0 < i < rest.len() implies !ical::is_folded(#[trigger] rest[i]) by {
            assert(rest[i] == raw[i]);
        }
        lemma_put_together(rest);
        if rest.len() > 0 {
            assert(!ical::is_folded(raw[raw.len() - 1]));
        }
        assert(rest.push(raw.last()) =~= raw);
    }
}

/// Clean lines that are written are read as they were.
pub proof fn law_written_lines_read(lines: Seq<Seq<char>>)
    requires
        clean(lines),
    ensures
        ical::logical_lines(ical::crlf_text(lines)) == lines,
{
    let p = |l: Seq<char>| l.len() > 0;
    reveal(Seq::filter);
    if lines.len() == 0 {
        let whole = seq!['\r', '\n'];
        assert(whole.subrange(1, 2) =~= seq!['\n']);
        assert(whole.subrange(0, 1)[0] == '\r');
        assert(!text::has_at(whole, seq!['\n'], 0));
        text::lemma_find_at(whole, seq!['\n'], 1);
        let rest = whole.skip(2);
        text::lemma_find(rest, seq!['\n']);
        assert(text::split(rest, '\n') =~= seq![rest]);
        let none = Seq::<char>::empty();
        assert(whole.take(1).drop_last() =~= none);
        assert(rest =~= none);
        let raw = ical::raw_lines(whole);
        assert(raw =~= seq![none, none]);
        lemma_put_together(raw);
        assert(raw.drop_last() =~= seq![none]);
        assert(raw.drop_last().drop_last() =~= Seq::empty());
        assert(raw.filter(p) =~= Seq::empty()) by {
            seqs::lemma_filter_none(raw, p);
        }
        assert(lines =~= Seq::empty());
    } else {
        let raw = lines.push(Seq::empty());
        lemma_raw(lines);
        assert forall|i: int| 0 < i < raw.len() implies !ical::is_folded(#[trigger] raw[i]) by {
            if i < lines.len() {
                assert(raw[i] == lines[i]);
            }
        }
        lemma_put_together(raw);
        assert(raw.drop_last() =~= lines);
        seqs::lemma_filter_all(lines, p);
    }
}

proof fn lemma_end_is_not_folded(line: Seq<char>)
    requires
        ical::is_end(line) || ical::is_begin(line),
    ensures
        !ical::is_folded(line),
{
    reveal_strlit("END");
    reveal_strlit("BEGIN");
    reveal_strlit(";");
    if ical::is_folded(line) {
        let (head, value) = ical::content(line)->0;
        let name = text::before(head, ";"@);
        text::lemma_find(head, ";"@);
        assert(text::ascii_upper(name).len() == name.len());
        assert(name.len() > 0);
        assert(name[0] == head[0]);
        lemma_content_first(line, 0, false);
        assert(head[0] == line[0]);
        assert(text::ascii_upper(name)[0] == text::ascii_upper_char(name[0]));
    }
}

proof fn lemma_content_first(line: Seq<char>, i: int, in_quotes: bool)
    ensures
        match ical::colon_from(line, i, in_quotes) {
            Some(k) => i <= k < line.len() && 0 <= k,
            None => true,
        },
    decreases line.len() - i,
{
    if 0 <= i < line.len() {
        if line[i] == '"' {
            lemma_content_first(line, i + 1, !in_quotes);
        } else if !(line[i] == ':' && !in_quotes) {
            lemma_content_first(line, i + 1, in_quotes);
        }
    }
}

proof fn lemma_rewritten_clean(summary: Seq<char>, done: bool, now: Seq<char>)
    requires
        text::one_line(now),
    ensures
        forall|i: int|
            0 <= i < ical::rewritten(summary, done, now).len() ==> {
                let l = #[trigger] ical::rewritten(summary, done, now)[i];
                l.len() > 0 && text::one_line(l) && !ical::is_folded(l)
            },
{
    reveal_strlit("SUMMARY:");
    reveal_strlit("STATUS:COMPLETED");
    reveal_strlit("STATUS:NEEDS-ACTION");
    reveal_strlit("PERCENT-COMPLETE:100");
    reveal_strlit("PERCENT-COMPLETE:0");
    reveal_strlit("COMPLETED:");
    lemma_escaped_one_line(summary);
    let a = "SUMMARY:"@ + ical::escaped(summary);
    assert forall|i: int| 0 <= i < a.len() implies a[i] != '\n' by {
        if i >= 8 {
            assert(a[i] == ical::escaped(summary)[i - 8]);
        }
    }
    let b = "COMPLETED:"@ + now;
    assert forall|i: int| 0 <= i < b.len() implies b[i] != '\n' by {
        if i >= 10 {
            assert(b[i] == now[i - 10]);
        }
    }
    assert(a[0] == 'S');
    assert(b[0] == 'C');
}

proof fn lemma_patched_clean(
    lines: Seq<Seq<char>>,
    summary: Seq<char>,
    done: bool,
    now: Seq<char>,
)
    requires
        clean(lines),
        text::one_line(now),
    ensures
        clean(ical::patched_lines(lines, summary, done, now)),
        lines.len() > 0 ==> ical::patched_lines(lines, summary, done, now).len() > 0,
    decreases lines.len(),
{
    if lines.len() > 0 {
        let rest = lines.drop_last();
        let line = lines.last();
        assert(lines[lines.len() - 1] == line);
        assert forall|i: int| 0 <= i < rest.len() implies (#[trigger] rest[i]).len() > 0
            && text::one_line(rest[i]) && (i > 0 ==> !ical::is_folded(rest[i])) by {
            assert(rest[i] == lines[i]);
        }
        lemma_patched_clean(rest, summary, done, now);
        let a = ical::patched_lines(rest, summary, done, now);
        let b = ical::patched_line(
            ical::depth(rest) == Some(0nat),
            line,
            summary,
            done,
            now,
        );
        lemma_rewritten_clean(summary, done, now);
        if ical::is_end(line) || ical::is_begin(line) {
            lemma_end_is_not_folded(line);
        }
        assert forall|i: int| 0 <= i < (a + b).len() implies (#[trigger] (a + b)[i]).len() > 0
            && text::one_line((a + b)[i]) && (i > 0 ==> !ical::is_folded((a + b)[i])) by {
            if i < a.len() {
                assert((a + b)[i] == a[i]);
            } else {
                assert((a + b)[i] == b[i - a.len()]);
            }
        }
    }
}

/// A patched calendar, written and read again, is the item with the summary
/// and the completion that it was patched with. No component of the item says
/// that it is done where the item is not, and none of an item that does not
/// end has a summary.
pub proof fn law_patched_parses(
    lines: Seq<Seq<char>>,
    summary: Seq<char>,
    done: bool,
    now: Seq<char>,
)
    requires
        clean(lines),
        text::one_line(now),
        has_item(lines),
        done || !says_done_within(lines),
        !loose_summary(lines),
    ensures
        ical::logical_lines(ical::patched(lines, summary, done, now)) == ical::patched_lines(
            lines,
            summary,
            done,
            now,
        ),
        ({
            let t = ical::read_lines(
                ical::logical_lines(ical::patched(lines, summary, done, now)),
            );
            &&& t.uid == ical::read_lines(lines).uid
            &&& t.summary == reread(summary)
            &&& t.done == done
            &&& t.recurring == ical::read_lines(lines).recurring
        }),
{
    lemma_patched_clean(lines, summary, done, now);
    law_written_lines_read(ical::patched_lines(lines, summary, done, now));
    law_patched_reads(lines, summary, done, now);
}

/// A calendar none of whose lines is empty, but for what follows its last line
/// end.
pub open spec fn tidy(ics: Seq<char>) -> bool {
    forall|i: int|
        0 <= i < ical::raw_lines(ics).len() - 1 ==> (#[trigger] ical::raw_lines(ics)[i]).len() > 0
}

proof fn lemma_split_one_line(s: Seq<char>, k: int)
    requires
        0 <= k < text::split(s, '\n').len(),
    ensures
        text::one_line(text::split(s, '\n')[k]),
        text::split(s, '\n').len() > 0,
    decreases s.len(),
{
    text::lemma_find(s, seq!['\n']);
    assert forall|j: int| 0 <= j < s.len() && s[j] == '\n' implies text::has_at(
        s,
        seq!['\n'],
        j,
    ) by {
        assert(s.subrange(j, j + 1) =~= seq!['\n']);
    }
    if let Some(i) = text::find(s, seq!['\n']) {
        if k > 0 {
            assert(text::split(s, '\n')[k] == text::split(s.skip(i + 1), '\n')[k - 1]);
            lemma_split_one_line(s.skip(i + 1), k - 1);
        } else {
            assert(text::split(s, '\n')[0] == s.take(i));
            assert forall|j: int| 0 <= j < i implies s[j] != '\n' by {
                if s[j] == '\n' {
                    assert(text::has_at(s, seq!['\n'], j));
                }
            }
        }
    }
}

proof fn lemma_put_together_clean(raw: Seq<Seq<char>>)
    requires
        forall|i: int| 0 <= i < raw.len() ==> (#[trigger] raw[i]).len() > 0,
        forall|i: int| 0 <= i < raw.len() ==> text::one_line(#[trigger] raw[i]),
    ensures
        clean(ical::put_together(raw)),
    decreases raw.len(),
{
    if raw.len() > 0 {
        let rest = raw.drop_last();
        let line = raw.last();
        assert forall|i: int| 0 <= i < rest.len() implies (#[trigger] rest[i]).len() > 0
            && text::one_line(rest[i]) by {
            assert(rest[i] == raw[i]);
        }
        lemma_put_together_clean(rest);
        assert(raw[raw.len() - 1] == line);
        let before = ical::put_together(rest);
        if ical::is_folded(line) && before.len() > 0 {
            let last = before[before.len() - 1];
            let whole = last + line.skip(1);
            assert forall|j: int| 0 <= j < whole.len() implies whole[j] != '\n' by {
                if j < last.len() {
                    assert(whole[j] == last[j]);
                } else {
                    assert(whole[j] == line[j - last.len() + 1]);
                }
            }
            assert(whole[0] == last[0]);
        }
    }
}

/// A tidy calendar has clean lines, so that what holds of patched lines holds
/// of what a server sent.
pub proof fn law_tidy_is_clean(ics: Seq<char>)
    requires
        tidy(ics),
    ensures
        clean(ical::logical_lines(ics)),
{
    let raw = ical::raw_lines(ics);
    let p = |l: Seq<char>| l.len() > 0;
    assert forall|i: int| 0 <= i < raw.len() implies text::one_line(#[trigger] raw[i]) by {
        lemma_split_one_line(ics, i);
        let l = text::split(ics, '\n')[i];
        assert(raw[i] == text::chop_return(l));
    }
    reveal(Seq::filter);
    if raw.len() > 0 {
        let rest = raw.drop_last();
        assert forall|i: int| 0 <= i < rest.len() implies (#[trigger] rest[i]).len() > 0
            && text::one_line(rest[i]) by {
            assert(rest[i] == raw[i]);
        }
        if raw.last().len() > 0 {
            assert forall|i: int| 0 <= i < raw.len() implies (#[trigger] raw[i]).len() > 0 by {
                if i < rest.len() {
                    assert(raw[i] == rest[i]);
                }
            }
            lemma_put_together_clean(raw);
            seqs::lemma_filter_all(ical::put_together(raw), p);
        } else {
            lemma_put_together_clean(rest);
            let b = ical::put_together(rest);
            seqs::lemma_filter_all(b, p);
            assert(b.push(raw.last()).drop_last() =~= b);
        }
    }
}

// ── New calendars ─────────────────────────────────────────────────────────

proof fn lemma_behind(name: Seq<char>, head: Seq<char>, value: Seq<char>)
    requires
        plain(name),
        head == name.push(':'),
    ensures
        ical::content(head + value) == Some((name, value)),
        ical::prop_name(head + value) == name,
        ical::prop_value(head + value) == value,
{
    lemma_property(name, value);
    assert(head + value =~= name + seq![':'] + value);
}

/// What the lines of a new calendar before its status are read as.
proof fn lemma_new_head(uid: Seq<char>, summary: Seq<char>, now: Seq<char>)
    ensures
        ical::read_lines(
            seq![
                "BEGIN:VCALENDAR"@,
                "VERSION:2.0"@,
                "PRODID:-//cce//cce-list-sync//EN"@,
                "BEGIN:VTODO"@,
                "UID:"@ + uid,
                "DTSTAMP:"@ + now,
                "CREATED:"@ + now,
                "SUMMARY:"@ + ical::escaped(summary),
            ],
        ) == (ical::TodoView {
            in_todo: true,
            uid: text::trim(uid),
            summary: reread(summary),
            done: false,
            recurring: false,
        }),
{
    reveal_strlit("BEGIN:VCALENDAR");
    reveal_strlit("BEGIN:");
    reveal_strlit("BEGIN");
    reveal_strlit("VCALENDAR");
    reveal_strlit("VERSION:2.0");
    reveal_strlit("VERSION");
    reveal_strlit("2.0");
    reveal_strlit("PRODID:-//cce//cce-list-sync//EN");
    reveal_strlit("PRODID");
    reveal_strlit("-//cce//cce-list-sync//EN");
    reveal_strlit("BEGIN:VTODO");
    reveal_strlit("VTODO");
    reveal_strlit("UID:");
    reveal_strlit("UID");
    reveal_strlit("DTSTAMP:");
    reveal_strlit("DTSTAMP");
    reveal_strlit("CREATED:");
    reveal_strlit("CREATED");
    reveal_strlit("SUMMARY");
    reveal_strlit("STATUS");
    reveal_strlit("COMPLETED");
    reveal_strlit("PERCENT-COMPLETE");
    reveal_strlit("RRULE");
    reveal_strlit("RDATE");
    reveal_strlit("END");
    lemma_names_differ();
    lemma_property("BEGIN"@, "VCALENDAR"@);
    assert("BEGIN:VCALENDAR"@ =~= "BEGIN"@ + seq![':'] + "VCALENDAR"@);
    assert(text::ascii_upper("VCALENDAR"@).len() == 9);
    lemma_property("VERSION"@, "2.0"@);
    assert("VERSION:2.0"@ =~= "VERSION"@ + seq![':'] + "2.0"@);
    assert("VERSION"@[0] == 'V');
    lemma_property("PRODID"@, "-//cce//cce-list-sync//EN"@);
    assert("PRODID:-//cce//cce-list-sync//EN"@ =~= "PRODID"@ + seq![':']
        + "-//cce//cce-list-sync//EN"@);
    assert("PRODID"@[0] == 'P');
    lemma_property("BEGIN"@, "VTODO"@);
    assert("BEGIN:VTODO"@ =~= "BEGIN"@ + seq![':'] + "VTODO"@);
    assert(text::ascii_upper("VTODO"@) =~= "VTODO"@);
    assert("UID:"@ =~= "UID"@.push(':'));
    lemma_behind("UID"@, "UID:"@, uid);
    assert("DTSTAMP:"@ =~= "DTSTAMP"@.push(':'));
    lemma_behind("DTSTAMP"@, "DTSTAMP:"@, now);
    assert("DTSTAMP"@[0] == 'D');
    assert("CREATED:"@ =~= "CREATED"@.push(':'));
    lemma_behind("CREATED"@, "CREATED:"@, now);
    assert("CREATED"@[1] == 'R');
    assert("COMPLETED"@[1] == 'O');
    lemma_summary_line(summary);
    let l0 = Seq::<Seq<char>>::empty();
    let l1 = l0.push("BEGIN:VCALENDAR"@);
    let l2 = l1.push("VERSION:2.0"@);
    let l3 = l2.push("PRODID:-//cce//cce-list-sync//EN"@);
    let l4 = l3.push("BEGIN:VTODO"@);
    let l5 = l4.push("UID:"@ + uid);
    let l6 = l5.push("DTSTAMP:"@ + now);
    let l7 = l6.push("CREATED:"@ + now);
    let l8 = l7.push("SUMMARY:"@ + ical::escaped(summary));
    lemma_read_push(l0, "BEGIN:VCALENDAR"@);
    lemma_read_push(l1, "VERSION:2.0"@);
    lemma_read_push(l2, "PRODID:-//cce//cce-list-sync//EN"@);
    lemma_read_push(l3, "BEGIN:VTODO"@);
    lemma_read_push(l4, "UID:"@ + uid);
    lemma_read_push(l5, "DTSTAMP:"@ + now);
    lemma_read_push(l6, "CREATED:"@ + now);
    lemma_read_push(l7, "SUMMARY:"@ + ical::escaped(summary));
    assert(l8 =~= seq![
        "BEGIN:VCALENDAR"@,
        "VERSION:2.0"@,
        "PRODID:-//cce//cce-list-sync//EN"@,
        "BEGIN:VTODO"@,
        "UID:"@ + uid,
        "DTSTAMP:"@ + now,
        "CREATED:"@ + now,
        "SUMMARY:"@ + ical::escaped(summary),
    ]);
}

proof fn lemma_new_tail(lines: Seq<Seq<char>>)
    ensures
        ical::read_lines(lines.push("END:VTODO"@).push("END:VCALENDAR"@)) == (ical::TodoView {
            in_todo: false,
            ..ical::read_lines(lines)
        }),
{
    reveal_strlit("END:VTODO");
    reveal_strlit("END:VCALENDAR");
    reveal_strlit("END");
    reveal_strlit("VTODO");
    reveal_strlit("VCALENDAR");
    lemma_names_differ();
    lemma_property("END"@, "VTODO"@);
    lemma_property("END"@, "VCALENDAR"@);
    assert("END:VTODO"@ =~= "END"@ + seq![':'] + "VTODO"@);
    assert("END:VCALENDAR"@ =~= "END"@ + seq![':'] + "VCALENDAR"@);
    assert(text::ascii_upper("VTODO"@) =~= "VTODO"@);
    assert(text::ascii_upper("VCALENDAR"@).len() == 9);
    let l1 = lines.push("END:VTODO"@);
    lemma_read_push(lines, "END:VTODO"@);
    lemma_read_push(l1, "END:VCALENDAR"@);
}

/// A new calendar is read as the item that it was made for.
pub proof fn law_new_reads(uid: Seq<char>, summary: Seq<char>, done: bool, now: Seq<char>)
    ensures
        ical::read_lines(ical::new_lines(uid, summary, done, now)) == (ical::TodoView {
            in_todo: false,
            uid: text::trim(uid),
            summary: reread(summary),
            done,
            recurring: false,
        }),
{
    let head = seq![
        "BEGIN:VCALENDAR"@,
        "VERSION:2.0"@,
        "PRODID:-//cce//cce-list-sync//EN"@,
        "BEGIN:VTODO"@,
        "UID:"@ + uid,
        "DTSTAMP:"@ + now,
        "CREATED:"@ + now,
        "SUMMARY:"@ + ical::escaped(summary),
    ];
    lemma_new_head(uid, summary, now);
    lemma_status_lines();
    lemma_completed_line(now);
    lemma_names_differ();
    reveal_strlit("COMPLETED");
    reveal_strlit("NEEDS-ACTION");
    reveal_strlit("100");
    text::lemma_trimmed("COMPLETED"@);
    text::lemma_trimmed("NEEDS-ACTION"@);
    text::lemma_trimmed("100"@);
    assert(text::ascii_upper("COMPLETED"@) =~= "COMPLETED"@);
    assert(text::ascii_upper("NEEDS-ACTION"@)[0] == 'N');
    assert("COMPLETED"@[0] == 'C');
    if done {
        let l1 = head.push("STATUS:COMPLETED"@);
        let l2 = l1.push("PERCENT-COMPLETE:100"@);
        let l3 = l2.push("COMPLETED:"@ + now);
        lemma_read_push(head, "STATUS:COMPLETED"@);
        lemma_read_push(l1, "PERCENT-COMPLETE:100"@);
        lemma_read_push(l2, "COMPLETED:"@ + now);
        lemma_new_tail(l3);
        assert(ical::new_lines(uid, summary, done, now) =~= l3.push("END:VTODO"@).push(
            "END:VCALENDAR"@,
        ));
    } else {
        let l1 = head.push("STATUS:NEEDS-ACTION"@);
        lemma_read_push(head, "STATUS:NEEDS-ACTION"@);
        lemma_new_tail(l1);
        assert(ical::new_lines(uid, summary, done, now) =~= l1.push("END:VTODO"@).push(
            "END:VCALENDAR"@,
        ));
    }
}

proof fn lemma_line(head: Seq<char>, value: Seq<char>)
    requires
        head.len() > 0,
        'A' <= head[0] <= 'Z',
        text::one_line(head),
        text::one_line(value),
    ensures
        (head + value).len() > 0,
        text::one_line(head + value),
        !ical::is_folded(head + value),
{
    let l = head + value;
    assert(l[0] == head[0]);
    assert forall|i: int| 0 <= i < l.len() implies l[i] != '\n' by {
        if i >= head.len() {
            assert(l[i] == value[i - head.len()]);
        } else {
            assert(l[i] == head[i]);
        }
    }
}

/// A new calendar, written and read again, is the item that it was made for.
pub proof fn law_new_parses(uid: Seq<char>, summary: Seq<char>, done: bool, now: Seq<char>)
    requires
        text::one_line(uid),
        text::one_line(now),
    ensures
        ical::logical_lines(ical::crlf_text(ical::new_lines(uid, summary, done, now)))
            == ical::new_lines(uid, summary, done, now),
        ({
            let t = ical::read_lines(
                ical::logical_lines(ical::crlf_text(ical::new_lines(uid, summary, done, now))),
            );
            &&& t.uid == text::trim(uid)
            &&& t.summary == reread(summary)
            &&& t.done == done
            &&& !t.recurring
        }),
{
    reveal_strlit("BEGIN:VCALENDAR");
    reveal_strlit("VERSION:2.0");
    reveal_strlit("PRODID:-//cce//cce-list-sync//EN");
    reveal_strlit("BEGIN:VTODO");
    reveal_strlit("UID:");
    reveal_strlit("DTSTAMP:");
    reveal_strlit("CREATED:");
    reveal_strlit("SUMMARY:");
    reveal_strlit("STATUS:COMPLETED");
    reveal_strlit("PERCENT-COMPLETE:100");
    reveal_strlit("COMPLETED:");
    reveal_strlit("STATUS:NEEDS-ACTION");
    reveal_strlit("END:VTODO");
    reveal_strlit("END:VCALENDAR");
    lemma_escaped_one_line(summary);
    lemma_line("UID:"@, uid);
    lemma_line("DTSTAMP:"@, now);
    lemma_line("CREATED:"@, now);
    lemma_line("SUMMARY:"@, ical::escaped(summary));
    lemma_line("COMPLETED:"@, now);
    assert(clean(ical::new_lines(uid, summary, done, now)));
    law_written_lines_read(ical::new_lines(uid, summary, done, now));
    law_new_reads(uid, summary, done, now);
}

// ── New identities ────────────────────────────────────────────────────────

/// What the digits of bytes are, and that they tell the bytes.
proof fn lemma_hex(a: Seq<u8>, b: Seq<u8>)
    requires
        a.len() == b.len(),
    ensures
        ical::hex(a).len() == 2 * a.len(),
        ical::hex(b).len() == 2 * b.len(),
        ical::hex(a) == ical::hex(b) ==> a == b,
        forall|i: int| 0 <= i < ical::hex(a).len() ==> uid_char(#[trigger] ical::hex(a)[i]),
    decreases a.len(),
{
    if a.len() > 0 {
        lemma_hex(a.drop_last(), b.drop_last());
        let x = a.last() as int;
        let y = b.last() as int;
        let n = 2 * (a.len() - 1);
        lemma_hex_digit(x / 16, y / 16);
        lemma_hex_digit(x % 16, y % 16);
        if ical::hex(a) == ical::hex(b) {
            assert(ical::hex(a.drop_last()) =~= ical::hex(a).take(n));
            assert(ical::hex(b.drop_last()) =~= ical::hex(b).take(n));
            assert(ical::hex(a)[n] == ical::hex_digit(x / 16));
            assert(ical::hex(b)[n] == ical::hex_digit(y / 16));
            assert(ical::hex(a)[n + 1] == ical::hex_digit(x % 16));
            assert(ical::hex(b)[n + 1] == ical::hex_digit(y % 16));
            assert(x == y);
            assert(a =~= a.drop_last().push(a.last()));
            assert(b =~= b.drop_last().push(b.last()));
        }
        assert forall|i: int| 0 <= i < ical::hex(a).len() implies uid_char(
            #[trigger] ical::hex(a)[i],
        ) by {
            if i < n {
                assert(ical::hex(a)[i] == ical::hex(a.drop_last())[i]);
            } else if i == n {
                assert(ical::hex(a)[i] == ical::hex_digit(x / 16));
            } else {
                assert(ical::hex(a)[i] == ical::hex_digit(x % 16));
            }
        }
    } else {
        assert(a =~= b);
    }
}

proof fn lemma_hex_digit(a: int, b: int)
    requires
        0 <= a < 16,
        0 <= b < 16,
    ensures
        ical::hex_digit(a) == ical::hex_digit(b) ==> a == b,
        uid_char(ical::hex_digit(a)),
{
    assert(forall|d: int| 0 <= d < 10 ==> #[trigger] ical::hex_digit(d) as u32 == 48 + d);
    assert(forall|d: int| 10 <= d < 16 ==> #[trigger] ical::hex_digit(d) as u32 == 55 + d);
    assert(ical::hex_digit(a) as u32 == if a < 10 {
        48 + a
    } else {
        55 + a
    });
    assert(ical::hex_digit(b) as u32 == if b < 10 {
        48 + b
    } else {
        55 + b
    });
}

/// A character of a new identity.
pub open spec fn uid_char(c: char) -> bool {
    c == '-' || '0' <= c <= '9' || 'A' <= c <= 'F'
}

/// Different random bytes make different identities.
pub proof fn law_new_uids_differ(a: Seq<u8>, b: Seq<u8>)
    requires
        a.len() == 16,
        b.len() == 16,
        a != b,
    ensures
        ical::uid_of(a) != ical::uid_of(b),
{
    reveal_strlit("CCE-");
    reveal_strlit("-");
    lemma_hex(a.subrange(0, 4), b.subrange(0, 4));
    lemma_hex(a.subrange(4, 8), b.subrange(4, 8));
    lemma_hex(a.subrange(8, 16), b.subrange(8, 16));
    let u = ical::uid_of(a);
    let v = ical::uid_of(b);
    if u == v {
        assert(u.subrange(4, 12) =~= ical::hex(a.subrange(0, 4)));
        assert(v.subrange(4, 12) =~= ical::hex(b.subrange(0, 4)));
        assert(u.subrange(13, 21) =~= ical::hex(a.subrange(4, 8)));
        assert(v.subrange(13, 21) =~= ical::hex(b.subrange(4, 8)));
        assert(u.subrange(22, 38) =~= ical::hex(a.subrange(8, 16)));
        assert(v.subrange(22, 38) =~= ical::hex(b.subrange(8, 16)));
        assert(a =~= a.subrange(0, 4) + a.subrange(4, 8) + a.subrange(8, 16));
        assert(b =~= b.subrange(0, 4) + b.subrange(4, 8) + b.subrange(8, 16));
    }
}

/// A new identity can stand in a checklist, behind any text that can.
pub proof fn law_new_uid_is_writable(bytes: Seq<u8>, text: Seq<char>, done: bool)
    requires
        bytes.len() == 16,
        text::one_line(text),
        text::trim_end(text) == text,
    ensures
        round_trip::writable((ItemView { text, done, uid: Some(ical::uid_of(bytes)) })),
{
    reveal_strlit("CCE-");
    reveal_strlit("-");
    reveal_strlit("<!-- uid:");
    lemma_hex(bytes.subrange(0, 4), bytes.subrange(0, 4));
    lemma_hex(bytes.subrange(4, 8), bytes.subrange(4, 8));
    lemma_hex(bytes.subrange(8, 16), bytes.subrange(8, 16));
    let u = ical::uid_of(bytes);
    assert forall|i: int| 0 <= i < u.len() implies uid_char(#[trigger] u[i]) by {
        if 4 <= i < 12 {
            assert(u[i] == ical::hex(bytes.subrange(0, 4))[i - 4]);
        } else if 13 <= i < 21 {
            assert(u[i] == ical::hex(bytes.subrange(4, 8))[i - 13]);
        } else if 22 <= i {
            assert(u[i] == ical::hex(bytes.subrange(8, 16))[i - 22]);
        }
    }
    text::lemma_trimmed(u);
    assert(uid_char(u[0]) && uid_char(u.last()));
    if text::contains(u, "<!-- uid:"@) {
        let i = choose|i: int| text::has_at(u, "<!-- uid:"@, i);
        assert("<!-- uid:"@[0] == '<');
        assert(u[i] == '<');
    }
}

} // verus!
