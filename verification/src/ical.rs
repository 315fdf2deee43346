//! Calendars that hold one item each: reading them, patching them, and making
//! new ones.
use vstd::prelude::*;
use vstd::slice::*;

use crate::outside;
use crate::text;

verus! {

// ── Lines ─────────────────────────────────────────────────────────────────

/// A line that goes on with the one before it.
pub open spec fn is_folded(line: Seq<char>) -> bool {
    line.len() > 0 && (line[0] == ' ' || line[0] == '\t')
}

/// Lines put together again: one that starts with a space or a tab goes on
/// with the line before it, if there is one.
pub open spec fn put_together(raw: Seq<Seq<char>>) -> Seq<Seq<char>>
    decreases raw.len(),
{
    if raw.len() == 0 {
        Seq::empty()
    } else {
        let before = put_together(raw.drop_last());
        let line = raw.last();
        if is_folded(line) && before.len() > 0 {
            before.update(before.len() - 1, before.last() + line.skip(1))
        } else {
            before.push(line)
        }
    }
}

/// The lines of a calendar as they are written, without their line ends.
pub open spec fn raw_lines(ics: Seq<char>) -> Seq<Seq<char>> {
    text::split(ics, '\n').map_values(|l: Seq<char>| text::chop_return(l))
}

/// The logical lines of a calendar: put together again, without empty ones.
pub open spec fn logical_lines(ics: Seq<char>) -> Seq<Seq<char>> {
    put_together(raw_lines(ics)).filter(|l: Seq<char>| l.len() > 0)
}

/// The logical lines of a calendar.
pub fn unfold(ics: &str) -> (r: Vec<String>)
    ensures
        r.deep_view() == logical_lines(ics@),
{
    let v = text::chars_of(ics);
    let pieces = text::split_at(v.as_slice(), '\n');
    let ghost raw = raw_lines(ics@);
    let mut lines: Vec<String> = Vec::new();
    assert(raw.len() == pieces@.len());
    for i in 0..pieces.len()
        invariant
            text::texts(pieces@) == text::split(ics@, '\n'),
            raw == raw_lines(ics@),
            raw.len() == pieces@.len(),
            lines.deep_view() == put_together(raw.take(i as int)),
    {
        let ghost had = lines.deep_view();
        let line = text::without_return(pieces[i]);
        proof {
            assert(text::texts(pieces@)[i as int] == pieces@[i as int]@);
            assert(line@ == raw[i as int]);
            assert(raw.take(i + 1).drop_last() =~= raw.take(i as int));
        }
        let n: usize = lines.len();
        if line.len() > 0 && (line[0] == ' ' || line[0] == '\t') && n > 0 {
            let mut last = lines[n - 1].clone();
            last.append(text::string_of(slice_subrange(line, 1, line.len())).as_str());
            assert(had.last() == lines@[n - 1]@);
            let ghost joined = last@;
            lines.set(n - 1, last);
            assert(lines.deep_view() =~= had.update(n - 1, joined));
        } else {
            lines.push(text::string_of(line));
            assert(lines.deep_view() =~= had.push(line@));
        }
    }
    assert(raw.take(raw.len() as int) =~= raw);
    let ghost all = lines.deep_view();
    let ghost p = |l: Seq<char>| l.len() > 0;
    let mut out: Vec<String> = Vec::new();
    for i in 0..lines.len()
        invariant
            all == lines.deep_view(),
            p == (|l: Seq<char>| l.len() > 0),
            out.deep_view() == all.take(i as int).filter(p),
    {
        let ghost had = out.deep_view();
        proof {
            crate::seqs::lemma_filter_take(all, p, i as int);
            assert(all[i as int] == lines@[i as int]@);
        }
        if !lines[i].as_str().is_empty() {
            out.push(lines[i].clone());
            assert(out.deep_view() =~= had.push(all[i as int]));
        }
    }
    assert(all.take(all.len() as int) =~= all);
    out
}

/// The first colon at or after `i` that is not in quotes.
pub open spec fn colon_from(line: Seq<char>, i: int, in_quotes: bool) -> Option<int>
    decreases line.len() - i,
{
    if i < 0 || i >= line.len() {
        None
    } else if line[i] == '"' {
        colon_from(line, i + 1, !in_quotes)
    } else if line[i] == ':' && !in_quotes {
        Some(i)
    } else {
        colon_from(line, i + 1, in_quotes)
    }
}

/// A line as name and value, parted by the first colon that is not in quotes.
/// The name goes with its parameters.
pub open spec fn content(line: Seq<char>) -> Option<(Seq<char>, Seq<char>)> {
    match colon_from(line, 0, false) {
        Some(i) => Some((line.take(i), line.skip(i + 1))),
        None => None,
    }
}

/// The name of a line's property, in upper case; empty for a line that is
/// none.
pub open spec fn prop_name(line: Seq<char>) -> Seq<char> {
    match content(line) {
        Some((head, value)) => text::ascii_upper(text::before(head, ";"@)),
        None => Seq::empty(),
    }
}

/// The value of a line's property; empty for a line that is none.
pub open spec fn prop_value(line: Seq<char>) -> Seq<char> {
    match content(line) {
        Some((head, value)) => value,
        None => Seq::empty(),
    }
}

/// A line as name and value.
pub fn split_content_line<'a>(line: &'a [char]) -> (r: Option<(&'a [char], &'a [char])>)
    ensures
        match r {
            Some((head, value)) => content(line@) == Some((head@, value@)),
            None => content(line@) is None,
        },
{
    let mut in_quotes = false;
    let n: usize = line.len();
    let mut i: usize = 0;
    while i < n
        invariant
            n == line@.len(),
            i <= n,
            colon_from(line@, i as int, in_quotes) == colon_from(line@, 0, false),
        decreases n - i,
    {
        if line[i] == '"' {
            in_quotes = !in_quotes;
        } else if line[i] == ':' && !in_quotes {
            return Some((slice_subrange(line, 0, i), slice_subrange(line, i + 1, n)));
        }
        i = i + 1;
    }
    None
}

/// The name and the value of a line's property.
fn property(line: &str) -> (r: (String, String))
    ensures
        r.0@ == prop_name(line@),
        r.1@ == prop_value(line@),
{
    let v = text::chars_of(line);
    let semi = text::chars_of(";");
    match split_content_line(v.as_slice()) {
        Some((head, value)) => {
            let name = text::to_ascii_upper(text::up_to(head, semi.as_slice()));
            (text::string_of(name.as_slice()), text::string_of(value))
        },
        None => (String::new(), String::new()),
    }
}

// ── Text values ───────────────────────────────────────────────────────────

/// A value as text, without escapes. An escaped line feed is a space.
pub open spec fn unescaped(v: Seq<char>) -> Seq<char>
    decreases v.len(),
{
    if v.len() == 0 {
        Seq::empty()
    } else if v[0] != '\\' {
        seq![v[0]] + unescaped(v.skip(1))
    } else if v.len() == 1 {
        Seq::empty()
    } else {
        seq![
            if v[1] == 'n' || v[1] == 'N' {
                ' '
            } else {
                v[1]
            },
        ] + unescaped(v.skip(2))
    }
}

/// A character as it stands in a value.
pub open spec fn escaped_char(c: char) -> Seq<char> {
    if c == '\\' || c == ',' || c == ';' {
        seq!['\\', c]
    } else if c == '\n' {
        seq!['\\', 'n']
    } else {
        seq![c]
    }
}

/// A text as a value, with escapes.
pub open spec fn escaped(v: Seq<char>) -> Seq<char>
    decreases v.len(),
{
    if v.len() == 0 {
        Seq::empty()
    } else {
        escaped(v.drop_last()) + escaped_char(v.last())
    }
}

/// A value as text, without escapes.
pub fn unescape_text(v: &str) -> (r: String)
    ensures
        r@ == unescaped(v@),
{
    let s = text::chars_of(v);
    let mut out = String::new();
    let n: usize = s.len();
    let mut i: usize = 0;
    assert(s@.skip(0) =~= s@);
    assert(out@ + unescaped(s@) =~= unescaped(s@));
    while i < n
        invariant
            n == s@.len(),
            i <= n,
            s@ == v@,
            out@ + unescaped(s@.skip(i as int)) == unescaped(v@),
        decreases n - i,
    {
        let ghost had = out@;
        let ghost rest = s@.skip(i as int);
        if s[i] != '\\' {
            out.push(s[i]);
            assert(rest.skip(1) =~= s@.skip(i + 1));
            assert(out@ + unescaped(rest.skip(1)) =~= had + (seq![rest[0]] + unescaped(
                rest.skip(1),
            )));
            i = i + 1;
        } else if i + 1 == n {
            assert(had + unescaped(rest) =~= had);
            assert(s@.skip(n as int) =~= Seq::empty());
            assert(had + unescaped(s@.skip(n as int)) =~= had);
            i = n;
        } else {
            let c = if s[i + 1] == 'n' || s[i + 1] == 'N' {
                ' '
            } else {
                s[i + 1]
            };
            out.push(c);
            assert(rest.skip(2) =~= s@.skip(i + 2));
            assert(out@ + unescaped(rest.skip(2)) =~= had + (seq![c] + unescaped(rest.skip(2))));
            i = i + 2;
        }
    }
    assert(s@.skip(n as int) =~= Seq::empty());
    assert(out@ + unescaped(s@.skip(n as int)) =~= out@);
    out
}

/// A text as a value, with escapes.
pub fn escape_text(v: &str) -> (r: String)
    ensures
        r@ == escaped(v@),
{
    let s = text::chars_of(v);
    let mut out = String::new();
    for i in 0..s.len()
        invariant
            s@ == v@,
            out@ == escaped(s@.take(i as int)),
    {
        let ghost had = out@;
        assert(s@.take(i + 1).drop_last() =~= s@.take(i as int));
        let c = s[i];
        if c == '\\' || c == ',' || c == ';' {
            out.push('\\');
            out.push(c);
        } else if c == '\n' {
            out.push('\\');
            out.push('n');
        } else {
            out.push(c);
        }
        assert(out@ =~= had + escaped_char(c));
    }
    assert(s@.take(s@.len() as int) =~= s@);
    out
}

// ── Reading ───────────────────────────────────────────────────────────────

/// What a calendar says of its item.
#[derive(Debug)]
pub struct ParsedTodo {
    pub uid: String,
    pub summary: String,
    pub done: bool,
    /// The item comes again and again.
    pub recurring: bool,
    /// The logical lines of the calendar.
    pub lines: Vec<String>,
}

/// What has been read of an item.
pub struct TodoView {
    pub in_todo: bool,
    pub uid: Seq<char>,
    pub summary: Seq<char>,
    pub done: bool,
    pub recurring: bool,
}

/// A line that starts an item.
pub open spec fn is_begin(line: Seq<char>) -> bool {
    prop_name(line) == "BEGIN"@ && text::ascii_upper(prop_value(line)) == "VTODO"@
}

/// A line that ends an item.
pub open spec fn is_end(line: Seq<char>) -> bool {
    prop_name(line) == "END"@ && text::ascii_upper(prop_value(line)) == "VTODO"@
}

/// What one line adds to what has been read.
pub open spec fn read_line(t: TodoView, line: Seq<char>) -> TodoView {
    let name = prop_name(line);
    let value = text::trim(prop_value(line));
    if content(line) is None {
        t
    } else if is_begin(line) {
        TodoView { in_todo: true, ..t }
    } else if is_end(line) {
        TodoView { in_todo: false, ..t }
    } else if !t.in_todo {
        t
    } else if name == "UID"@ {
        TodoView { uid: value, ..t }
    } else if name == "SUMMARY"@ {
        TodoView { summary: unescaped(value), ..t }
    } else if name == "STATUS"@ {
        TodoView { done: t.done || text::ascii_upper(value) == "COMPLETED"@, ..t }
    } else if name == "COMPLETED"@ {
        TodoView { done: true, ..t }
    } else if name == "PERCENT-COMPLETE"@ {
        TodoView { done: t.done || value == "100"@, ..t }
    } else if name == "RRULE"@ || name == "RDATE"@ {
        TodoView { recurring: true, ..t }
    } else {
        t
    }
}

/// What some lines say of an item.
pub open spec fn read_lines(lines: Seq<Seq<char>>) -> TodoView
    decreases lines.len(),
{
    if lines.len() == 0 {
        TodoView {
            in_todo: false,
            uid: Seq::empty(),
            summary: Seq::empty(),
            done: false,
            recurring: false,
        }
    } else {
        read_line(read_lines(lines.drop_last()), lines.last())
    }
}

/// Reads a calendar. One whose item has no identity holds none.
pub fn parse_vtodo(ics: &str) -> (r: Option<ParsedTodo>)
    ensures
        r is Some == (read_lines(logical_lines(ics@)).uid.len() > 0),
        r matches Some(t) ==> {
            let read = read_lines(logical_lines(ics@));
            &&& t.uid@ == read.uid
            &&& t.summary@ == read.summary
            &&& t.done == read.done
            &&& t.recurring == read.recurring
            &&& t.lines.deep_view() == logical_lines(ics@)
        },
{
    let lines = unfold(ics);
    let ghost all = lines.deep_view();
    let vtodo = text::chars_of("VTODO");
    let completed = text::chars_of("COMPLETED");
    proof {
        reveal_strlit("VTODO");
        reveal_strlit("COMPLETED");
        assert(text::ascii_upper(vtodo@) =~= vtodo@);
        assert(text::ascii_upper(completed@) =~= completed@);
    }
    let mut in_todo = false;
    let mut uid = String::new();
    let mut summary = String::new();
    let mut done = false;
    let mut recurring = false;
    for i in 0..lines.len()
        invariant
            all == lines.deep_view(),
            vtodo@ == "VTODO"@,
            completed@ == "COMPLETED"@,
            text::ascii_upper(vtodo@) == vtodo@,
            text::ascii_upper(completed@) == completed@,
            read_lines(all.take(i as int)) == (TodoView {
                in_todo,
                uid: uid@,
                summary: summary@,
                done,
                recurring,
            }),
    {
        let line = lines[i].as_str();
        proof {
            assert(all[i as int] == line@);
            assert(all.take(i + 1).drop_last() =~= all.take(i as int));
            assert(all.take(i + 1).last() == all[i as int]);
        }
        let whole = text::chars_of(line);
        if split_content_line(whole.as_slice()).is_some() {
            let (name, value) = property(line);
            let v = text::chars_of(value.as_str());
            let it = text::same_but_case(v.as_slice(), vtodo.as_slice());
            let trimmed = text::trimmed(v.as_slice());
            let n = name.as_str();
            if text::same_str(n, "BEGIN") && it {
                in_todo = true;
            } else if text::same_str(n, "END") && it {
                in_todo = false;
            } else if in_todo {
                if text::same_str(n, "UID") {
                    uid = text::string_of(trimmed);
                } else if text::same_str(n, "SUMMARY") {
                    summary = unescape_text(text::string_of(trimmed).as_str());
                } else if text::same_str(n, "STATUS") {
                    done = done || text::same_but_case(trimmed, completed.as_slice());
                } else if text::same_str(n, "COMPLETED") {
                    done = true;
                } else if text::same_str(n, "PERCENT-COMPLETE") {
                    done = done || text::same_str(text::string_of(trimmed).as_str(), "100");
                } else if text::same_str(n, "RRULE") || text::same_str(n, "RDATE") {
                    recurring = true;
                }
            }
        }
    }
    assert(all.take(all.len() as int) =~= all);
    if uid.as_str().is_empty() {
        return None;
    }
    Some(ParsedTodo { uid, summary, done, recurring, lines })
}

// ── Writing ───────────────────────────────────────────────────────────────

/// Lines as a calendar, each with its line end.
pub open spec fn crlf_lines(lines: Seq<Seq<char>>) -> Seq<char>
    decreases lines.len(),
{
    if lines.len() == 0 {
        Seq::empty()
    } else {
        crlf_lines(lines.drop_last()) + lines.last() + seq!['\r', '\n']
    }
}

/// Lines as a calendar. No lines at all are one empty line.
pub open spec fn crlf_text(lines: Seq<Seq<char>>) -> Seq<char> {
    if lines.len() == 0 {
        seq!['\r', '\n']
    } else {
        crlf_lines(lines)
    }
}

/// Lines as a calendar.
fn write_lines(lines: &Vec<String>) -> (r: String)
    ensures
        r@ == crlf_text(lines.deep_view()),
{
    let ghost all = lines.deep_view();
    let mut out = String::new();
    for i in 0..lines.len()
        invariant
            all == lines.deep_view(),
            out@ == crlf_lines(all.take(i as int)),
    {
        let ghost had = out@;
        proof {
            assert(all[i as int] == lines@[i as int]@);
            assert(all.take(i + 1).drop_last() =~= all.take(i as int));
        }
        out.append(lines[i].as_str());
        out.push('\r');
        out.push('\n');
        assert(out@ =~= had + all[i as int] + seq!['\r', '\n']);
    }
    assert(all.take(all.len() as int) =~= all);
    if lines.len() == 0 {
        out.push('\r');
        out.push('\n');
        assert(out@ =~= seq!['\r', '\n']);
    }
    out
}

/// The properties that a patch rewrites.
pub open spec fn is_rewritten(line: Seq<char>) -> bool {
    prop_name(line) == "SUMMARY"@ || prop_name(line) == "STATUS"@ || prop_name(line)
        == "PERCENT-COMPLETE"@ || prop_name(line) == "COMPLETED"@
}

/// What a patch writes before an item ends.
pub open spec fn rewritten(summary: Seq<char>, done: bool, now: Seq<char>) -> Seq<Seq<char>> {
    let head = seq!["SUMMARY:"@ + escaped(summary)];
    if done {
        head + seq!["STATUS:COMPLETED"@, "PERCENT-COMPLETE:100"@, "COMPLETED:"@ + now]
    } else {
        head + seq!["STATUS:NEEDS-ACTION"@, "PERCENT-COMPLETE:0"@]
    }
}

/// How deep the last of some lines stand in an item: not at all, or in so many
/// components of it, such as alarms, each of which begins and ends there.
pub open spec fn depth(lines: Seq<Seq<char>>) -> Option<nat>
    decreases lines.len(),
{
    if lines.len() == 0 {
        None
    } else {
        let line = lines.last();
        if is_begin(line) {
            Some(0)
        } else if is_end(line) {
            None
        } else {
            match depth(lines.drop_last()) {
                Some(d) => if prop_name(line) == "BEGIN"@ {
                    Some(d + 1)
                } else if prop_name(line) == "END"@ && d > 0 {
                    Some((d - 1) as nat)
                } else {
                    Some(d)
                },
                None => None,
            }
        }
    }
}

/// The last of some lines stand in an item.
pub open spec fn inside(lines: Seq<Seq<char>>) -> bool {
    depth(lines) is Some
}

/// What a patch makes of a line. `direct` says that it stands in the item
/// itself and not in a component of it.
pub open spec fn patched_line(
    direct: bool,
    line: Seq<char>,
    summary: Seq<char>,
    done: bool,
    now: Seq<char>,
) -> Seq<Seq<char>> {
    if is_begin(line) {
        seq![line]
    } else if is_end(line) {
        rewritten(summary, done, now).push(line)
    } else if direct && is_rewritten(line) {
        Seq::empty()
    } else {
        seq![line]
    }
}

/// Lines with the summary and the completion of the item rewritten, and every
/// other property, and every component of the item, as it was.
pub open spec fn patched_lines(
    lines: Seq<Seq<char>>,
    summary: Seq<char>,
    done: bool,
    now: Seq<char>,
) -> Seq<Seq<char>>
    decreases lines.len(),
{
    if lines.len() == 0 {
        Seq::empty()
    } else {
        let rest = lines.drop_last();
        patched_lines(rest, summary, done, now) + patched_line(
            depth(rest) == Some(0nat),
            lines.last(),
            summary,
            done,
            now,
        )
    }
}

/// A patched calendar.
pub open spec fn patched(
    lines: Seq<Seq<char>>,
    summary: Seq<char>,
    done: bool,
    now: Seq<char>,
) -> Seq<char> {
    crlf_text(patched_lines(lines, summary, done, now))
}

/// A text behind a name.
fn behind(name: &str, value: &str) -> (r: String)
    ensures
        r@ == name@ + value@,
{
    let mut s = name.to_string();
    s.append(value);
    s
}

/// Rewrites the summary and the completion of the item in a calendar, at a
/// given moment. Every other property stays exactly as the server sent it, and
/// so does every component of the item: an alarm keeps its own summary.
pub fn patch_vtodo_at(lines: &[String], summary: &str, done: bool, now: &str) -> (r: String)
    ensures
        r@ == patched(lines.deep_view(), summary@, done, now@),
{
    let ghost all = lines.deep_view();
    let vtodo = text::chars_of("VTODO");
    proof {
        reveal_strlit("VTODO");
        assert(text::ascii_upper(vtodo@) =~= vtodo@);
    }
    let mut out: Vec<String> = Vec::new();
    let mut deep: Option<usize> = None;
    for i in 0..lines.len()
        invariant
            all == lines.deep_view(),
            vtodo@ == "VTODO"@,
            text::ascii_upper(vtodo@) == vtodo@,
            match deep {
                Some(d) => d <= i && depth(all.take(i as int)) == Some(d as nat),
                None => depth(all.take(i as int)) is None,
            },
            out.deep_view() == patched_lines(all.take(i as int), summary@, done, now@),
    {
        let ghost had = out.deep_view();
        let line = &lines[i];
        proof {
            assert(all[i as int] == line@);
            assert(all.take(i + 1).drop_last() =~= all.take(i as int));
            assert(all.take(i + 1).last() == all[i as int]);
        }
        let (name, value) = property(line.as_str());
        let v = text::chars_of(value.as_str());
        let it = text::same_but_case(v.as_slice(), vtodo.as_slice());
        let n = name.as_str();
        if text::same_str(n, "BEGIN") && it {
            deep = Some(0);
            out.push(line.clone());
            assert(out.deep_view() =~= had + seq![line@]);
        } else if text::same_str(n, "END") && it {
            deep = None;
            let e = escape_text(summary);
            out.push(behind("SUMMARY:", e.as_str()));
            assert(out.deep_view() =~= had + seq!["SUMMARY:"@ + escaped(summary@)]);
            if done {
                out.push("STATUS:COMPLETED".to_string());
                out.push("PERCENT-COMPLETE:100".to_string());
                out.push(behind("COMPLETED:", now));
            } else {
                out.push("STATUS:NEEDS-ACTION".to_string());
                out.push("PERCENT-COMPLETE:0".to_string());
            }
            assert(out.deep_view() =~= had + rewritten(summary@, done, now@));
            out.push(line.clone());
            assert(out.deep_view() =~= had + rewritten(summary@, done, now@).push(line@));
        } else {
            let direct = match deep {
                Some(d) => d == 0,
                None => false,
            };
            if direct && (text::same_str(n, "SUMMARY") || text::same_str(n, "STATUS")
                || text::same_str(n, "PERCENT-COMPLETE") || text::same_str(n, "COMPLETED")) {
                assert(had + Seq::<Seq<char>>::empty() =~= had);
            } else {
                out.push(line.clone());
                assert(out.deep_view() =~= had + seq![line@]);
            }
            deep = match deep {
                Some(d) => if text::same_str(n, "BEGIN") {
                    Some(d + 1)
                } else if text::same_str(n, "END") && d > 0 {
                    Some(d - 1)
                } else {
                    Some(d)
                },
                None => None,
            };
        }
    }
    assert(all.take(all.len() as int) =~= all);
    write_lines(&out)
}

/// Rewrites the summary and the completion of the item in a calendar.
pub fn patch_vtodo(lines: &[String], summary: &str, done: bool) -> (r: String)
    ensures
        exists|now: Seq<char>| #[trigger]
            outside::moment_text(now, 0) && r@ == patched(lines.deep_view(), summary@, done, now),
{
    let now = outside::utc_now("%Y%m%dT%H%M%SZ");
    patch_vtodo_at(lines, summary, done, now.as_str())
}

/// The lines of a new calendar.
pub open spec fn new_lines(
    uid: Seq<char>,
    summary: Seq<char>,
    done: bool,
    now: Seq<char>,
) -> Seq<Seq<char>> {
    let status = if done {
        seq!["STATUS:COMPLETED"@, "PERCENT-COMPLETE:100"@, "COMPLETED:"@ + now]
    } else {
        seq!["STATUS:NEEDS-ACTION"@]
    };
    seq![
        "BEGIN:VCALENDAR"@,
        "VERSION:2.0"@,
        "PRODID:-//cce//cce-list-sync//EN"@,
        "BEGIN:VTODO"@,
        "UID:"@ + uid,
        "DTSTAMP:"@ + now,
        "CREATED:"@ + now,
        "SUMMARY:"@ + escaped(summary),
    ] + status + seq!["END:VTODO"@, "END:VCALENDAR"@]
}

/// A new calendar with one item, at a given moment.
pub fn new_vtodo_at(uid: &str, summary: &str, done: bool, now: &str) -> (r: String)
    ensures
        r@ == crlf_text(new_lines(uid@, summary@, done, now@)),
{
    let mut out: Vec<String> = Vec::new();
    out.push("BEGIN:VCALENDAR".to_string());
    out.push("VERSION:2.0".to_string());
    out.push("PRODID:-//cce//cce-list-sync//EN".to_string());
    out.push("BEGIN:VTODO".to_string());
    out.push(behind("UID:", uid));
    out.push(behind("DTSTAMP:", now));
    out.push(behind("CREATED:", now));
    let e = escape_text(summary);
    out.push(behind("SUMMARY:", e.as_str()));
    if done {
        out.push("STATUS:COMPLETED".to_string());
        out.push("PERCENT-COMPLETE:100".to_string());
        out.push(behind("COMPLETED:", now));
    } else {
        out.push("STATUS:NEEDS-ACTION".to_string());
    }
    out.push("END:VTODO".to_string());
    out.push("END:VCALENDAR".to_string());
    assert(out.deep_view() =~= new_lines(uid@, summary@, done, now@));
    write_lines(&out)
}

/// A new calendar with one item.
pub fn new_vtodo(uid: &str, summary: &str, done: bool) -> (r: String)
    ensures
        exists|now: Seq<char>| #[trigger]
            outside::moment_text(now, 0) && r@ == crlf_text(
                new_lines(uid@, summary@, done, now),
            ),
{
    let now = outside::utc_now("%Y%m%dT%H%M%SZ");
    new_vtodo_at(uid, summary, done, now.as_str())
}

// ── Identities ────────────────────────────────────────────────────────────

/// A digit of a number in base sixteen, in upper case.
pub open spec fn hex_digit(n: int) -> char {
    if n < 10 {
        ((48 + n) as u8) as char
    } else {
        ((55 + n) as u8) as char
    }
}

/// Bytes in base sixteen, two digits each.
pub open spec fn hex(bytes: Seq<u8>) -> Seq<char>
    decreases bytes.len(),
{
    if bytes.len() == 0 {
        Seq::empty()
    } else {
        hex(bytes.drop_last()) + seq![
            hex_digit(bytes.last() as int / 16),
            hex_digit(bytes.last() as int % 16),
        ]
    }
}

fn write_hex_digit(n: u8) -> (c: char)
    requires
        n < 16,
    ensures
        c == hex_digit(n as int),
{
    if n < 10 {
        (48 + n) as char
    } else {
        (55 + n) as char
    }
}

/// Bytes in base sixteen.
fn write_hex(bytes: &[u8]) -> (r: String)
    ensures
        r@ == hex(bytes@),
{
    let mut out = String::new();
    for i in 0..bytes.len()
        invariant
            out@ == hex(bytes@.take(i as int)),
    {
        let ghost had = out@;
        let b = bytes[i];
        assert(bytes@.take(i + 1).drop_last() =~= bytes@.take(i as int));
        out.push(write_hex_digit(b / 16));
        out.push(write_hex_digit(b % 16));
        assert(out@ =~= had + seq![hex_digit(b as int / 16), hex_digit(b as int % 16)]);
    }
    assert(bytes@.take(bytes@.len() as int) =~= bytes@);
    out
}

/// The identity out of random bytes.
pub open spec fn uid_of(bytes: Seq<u8>) -> Seq<char> {
    "CCE-"@ + hex(bytes.subrange(0, 4)) + "-"@ + hex(bytes.subrange(4, 8)) + "-"@ + hex(
        bytes.subrange(8, 16),
    )
}

/// A new identity out of sixteen random bytes, or out of a moment where there
/// are none: one user's own list is all that it has to be unique in.
pub fn new_uid_at(random: Option<[u8; 16]>, now: &str) -> (r: String)
    ensures
        match random {
            Some(bytes) => r@ == uid_of(bytes@),
            None => r@ == "CCE-"@ + now@,
        },
{
    let mut s = "CCE-".to_string();
    match random {
        Some(bytes) => {
            let all: &[u8] = bytes.as_slice();
            s.append(write_hex(slice_subrange(all, 0, 4)).as_str());
            s.append("-");
            s.append(write_hex(slice_subrange(all, 4, 8)).as_str());
            s.append("-");
            s.append(write_hex(slice_subrange(all, 8, 16)).as_str());
        },
        None => {
            s.append(now);
        },
    }
    s
}

/// A new identity.
pub fn new_uid(random: Option<[u8; 16]>) -> (r: String)
    ensures
        match random {
            Some(bytes) => r@ == uid_of(bytes@),
            None => exists|now: Seq<char>| #[trigger]
                outside::moment_text(now, 9) && r@ == "CCE-"@ + now,
        },
{
    match random {
        Some(bytes) => new_uid_at(Some(bytes), ""),
        None => {
            let now = outside::utc_now("%Y%m%dT%H%M%S%fZ");
            new_uid_at(None, now.as_str())
        },
    }
}

} // verus!
