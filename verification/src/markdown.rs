//! Markdown checklists: one item a line, an optional list header first.
use vstd::prelude::*;
use vstd::slice::*;
use vstd::string::*;

use crate::model::{Item, ItemView};
use crate::text;

verus! {

/// An item's text without the comment that may end it, and the identity in
/// that comment.
pub open spec fn split_uid(rest: Seq<char>) -> (Seq<char>, Option<Seq<char>>) {
    let line = text::trim_end(rest);
    match text::rfind(line, "<!-- uid:"@) {
        Some(open) => {
            let comment = line.skip(open + "<!-- uid:"@.len());
            let uid = text::trim(comment.take(comment.len() - "-->"@.len()));
            if text::ends(comment, "-->"@) && uid.len() > 0 {
                (text::trim_end(line.take(open)), Some(uid))
            } else {
                (line, None)
            }
        },
        None => (line, None),
    }
}

/// A line's mark and the text after it. A line without a mark is not done,
/// and is text from its start.
pub open spec fn split_mark(line: Seq<char>) -> (bool, Seq<char>) {
    if text::begins(line, "- [ ] "@) {
        (false, line.skip("- [ ] "@.len() as int))
    } else if text::begins(line, "- [x] "@) {
        (true, line.skip("- [x] "@.len() as int))
    } else if text::begins(line, "- [X] "@) {
        (true, line.skip("- [X] "@.len() as int))
    } else {
        (false, line)
    }
}

/// The item on a line; a blank line holds none.
pub open spec fn line_item(line: Seq<char>) -> Option<ItemView> {
    let t = text::trim(line);
    if t.len() == 0 {
        None
    } else {
        let (done, rest) = split_mark(t);
        let (text, uid) = split_uid(rest);
        Some(ItemView { text, done, uid })
    }
}

/// The items on some lines, in order.
pub open spec fn items_on(lines: Seq<Seq<char>>) -> Seq<ItemView> {
    lines.filter_map(|l: Seq<char>| line_item(l))
}

/// The items of a checklist.
pub open spec fn parsed_items(text: Seq<char>) -> Seq<ItemView> {
    items_on(text::lines(text))
}

/// Takes a trailing `<!-- uid:… -->` off an item's text.
pub fn split_uid_comment(rest: &[char]) -> (r: (String, Option<String>))
    ensures
        (r.0@, r.1.deep_view()) == split_uid(rest@),
{
    let line = text::trimmed_end(rest);
    let mark = text::chars_of("<!-- uid:");
    let close = text::chars_of("-->");
    if let Some(open) = text::rfind_in(line, mark.as_slice()) {
        let comment = slice_subrange(line, open + mark.len(), line.len());
        if text::ends_with(comment, close.as_slice()) {
            let uid = text::trimmed(slice_subrange(comment, 0, comment.len() - close.len()));
            if uid.len() > 0 {
                return (
                    text::string_of(text::trimmed_end(slice_subrange(line, 0, open))),
                    Some(text::string_of(uid)),
                );
            }
        }
    }
    (text::string_of(line), None)
}

/// The item on a line.
fn read_line(line: &[char]) -> (r: Option<Item>)
    ensures
        r.deep_view() == line_item(line@),
{
    let t = text::trimmed(line);
    if t.len() == 0 {
        return None;
    }
    let open = text::chars_of("- [ ] ");
    let done = text::chars_of("- [x] ");
    let big = text::chars_of("- [X] ");
    let (mark, rest) = if text::starts_with(t, open.as_slice()) {
        (false, slice_subrange(t, open.len(), t.len()))
    } else if text::starts_with(t, done.as_slice()) {
        (true, slice_subrange(t, done.len(), t.len()))
    } else if text::starts_with(t, big.as_slice()) {
        (true, slice_subrange(t, big.len(), t.len()))
    } else {
        (false, t)
    };
    assert(rest@ == split_mark(t@).1);
    let (text, uid) = split_uid_comment(rest);
    Some(Item { text, done: mark, uid })
}

/// The items on some lines.
fn read_lines(lines: &[&[char]]) -> (r: Vec<Item>)
    ensures
        r.deep_view() == items_on(text::texts(lines@)),
{
    let mut out: Vec<Item> = Vec::new();
    let ghost all = text::texts(lines@);
    let ghost f = |l: Seq<char>| line_item(l);
    assert(all.take(0) =~= Seq::empty());
    for i in 0..lines.len()
        invariant
            all == text::texts(lines@),
            f == (|l: Seq<char>| line_item(l)),
            out.deep_view() == all.take(i as int).filter_map(f),
    {
        let ghost before = out.deep_view();
        proof {
            all.lemma_filter_map_take_succ(f, i as int);
        }
        if let Some(item) = read_line(lines[i]) {
            out.push(item);
            assert(out.deep_view() =~= before.push(item.deep_view()));
        }
    }
    assert(all.take(all.len() as int) =~= all);
    out
}

/// Reads a checklist. Checklist lines become items; any other line that is
/// not blank is adopted as an item that is not done.
pub fn parse_items(text: &str) -> (r: Vec<Item>)
    ensures
        r.deep_view() == parsed_items(text@),
{
    let v = text::chars_of(text);
    let l = text::lines_of(v.as_slice());
    read_lines(l.as_slice())
}

// ── Writing ───────────────────────────────────────────────────────────────

/// The character in the brackets of an item's line.
pub open spec fn mark_char(done: bool) -> char {
    if done {
        'x'
    } else {
        ' '
    }
}

/// The line of an item.
pub open spec fn item_line(item: ItemView) -> Seq<char> {
    "- ["@ + seq![mark_char(item.done)] + "] "@ + item.text + match item.uid {
        Some(uid) => " <!-- uid:"@ + uid + " -->"@,
        None => Seq::empty(),
    }
}

/// The lines of some items, each with its line feed.
pub open spec fn items_text(items: Seq<ItemView>) -> Seq<char>
    decreases items.len(),
{
    if items.len() == 0 {
        Seq::empty()
    } else {
        item_line(items[0]) + seq!['\n'] + items_text(items.skip(1))
    }
}

/// Writes one item and its line feed to the end of `out`.
fn write_item(out: &mut String, item: &Item)
    ensures
        final(out)@ == old(out)@ + item_line(item.deep_view()) + seq!['\n'],
{
    out.append("- [");
    out.push(if item.done { 'x' } else { ' ' });
    out.append("] ");
    out.append(item.text.as_str());
    if let Some(uid) = &item.uid {
        out.append(" <!-- uid:");
        out.append(uid.as_str());
        out.append(" -->");
    }
    out.push('\n');
    assert(out@ =~= old(out)@ + item_line(item.deep_view()) + seq!['\n']);
}

/// Writes a checklist.
pub fn serialize_items(items: &[Item]) -> (r: String)
    ensures
        r@ == items_text(items.deep_view()),
{
    let mut out = String::new();
    let ghost all = items.deep_view();
    assert(all.skip(0) =~= all);
    assert(out@ + items_text(all) =~= items_text(all));
    for i in 0..items.len()
        invariant
            all == items.deep_view(),
            out@ + items_text(all.skip(i as int)) == items_text(all),
    {
        let ghost before = out@;
        write_item(&mut out, &items[i]);
        proof {
            let rest = all.skip(i as int);
            assert(rest.skip(1) =~= all.skip(i + 1));
            assert(before + (item_line(rest[0]) + seq!['\n'] + items_text(rest.skip(1))) =~= out@
                + items_text(rest.skip(1)));
        }
    }
    assert(all.skip(all.len() as int) =~= Seq::empty());
    assert(out@ + items_text(Seq::empty()) =~= out@);
    out
}

// ── The header ────────────────────────────────────────────────────────────

/// The list identity on a header line.
pub open spec fn header_id(line: Seq<char>) -> Option<Seq<char>> {
    let t = text::trim(line);
    let inner = t.skip("<!-- list:"@.len() as int);
    let id = text::trim(inner.take(inner.len() - "-->"@.len()));
    if text::begins(t, "<!-- list:"@) && text::ends(inner, "-->"@) && id.len() > 0 {
        Some(id)
    } else {
        None
    }
}

/// The first line that is not blank.
pub open spec fn first_written(lines: Seq<Seq<char>>) -> Option<int>
    decreases lines.len(),
{
    if lines.len() == 0 {
        None
    } else if text::trim(lines[0]).len() > 0 {
        Some(0)
    } else {
        match first_written(lines.skip(1)) {
            Some(k) => Some(k + 1),
            None => None,
        }
    }
}

/// A whole list file: the identity in its header, and its items. Only the
/// first line that is not blank can be a header.
pub open spec fn parsed_list(text: Seq<char>) -> (Option<Seq<char>>, Seq<ItemView>) {
    let all = text::lines(text);
    match first_written(all) {
        Some(k) => match header_id(all[k]) {
            Some(id) => (Some(id), items_on(all.skip(k + 1))),
            None => (None, items_on(all)),
        },
        None => (None, items_on(all)),
    }
}

/// The text of a whole list file.
pub open spec fn list_text(id: Option<Seq<char>>, items: Seq<ItemView>) -> Seq<char> {
    match id {
        Some(id) => "<!-- list:"@ + id + " -->"@ + seq!['\n'] + items_text(items),
        None => items_text(items),
    }
}

/// The list identity on a header line.
fn read_header(line: &[char]) -> (r: Option<String>)
    ensures
        r.deep_view() == header_id(line@),
{
    let t = text::trimmed(line);
    let open = text::chars_of("<!-- list:");
    let close = text::chars_of("-->");
    if !text::starts_with(t, open.as_slice()) {
        return None;
    }
    let inner = slice_subrange(t, open.len(), t.len());
    if !text::ends_with(inner, close.as_slice()) {
        return None;
    }
    let id = text::trimmed(slice_subrange(inner, 0, inner.len() - close.len()));
    if id.len() > 0 {
        Some(text::string_of(id))
    } else {
        None
    }
}

/// Reads a whole list file: the optional `<!-- list:ID -->` header, then
/// items.
pub fn parse_list(text: &str) -> (r: (Option<String>, Vec<Item>))
    ensures
        (r.0.deep_view(), r.1.deep_view()) == parsed_list(text@),
{
    let v = text::chars_of(text);
    let all = text::lines_of(v.as_slice());
    let ghost ls = text::texts(all@);
    let mut k: usize = 0;
    assert(ls.skip(0) =~= ls);
    while k < all.len() && text::trimmed(all[k]).len() == 0
        invariant
            k <= all@.len(),
            ls == text::texts(all@),
            first_written(ls) == match first_written(ls.skip(k as int)) {
                Some(j) => Some(j + k),
                None => None,
            },
        decreases all@.len() - k,
    {
        assert(ls[k as int] == all@[k as int]@);
        assert(ls.skip(k as int).skip(1) =~= ls.skip(k + 1));
        k = k + 1;
    }
    if k < all.len() {
        assert(ls[k as int] == all@[k as int]@);
        if let Some(id) = read_header(all[k]) {
            let rest = slice_subrange(all.as_slice(), k + 1, all.len());
            assert(text::texts(rest@) =~= ls.skip(k + 1));
            return (Some(id), read_lines(rest));
        }
    }
    (None, read_lines(all.as_slice()))
}

/// Writes a whole list file.
pub fn serialize_list(id: Option<&str>, items: &[Item]) -> (r: String)
    ensures
        r@ == list_text(id.deep_view(), items.deep_view()),
{
    let mut out = String::new();
    if let Some(id) = id {
        out.append("<!-- list:");
        out.append(id);
        out.append(" -->");
        out.push('\n');
    }
    let rest = serialize_items(items);
    out.append(rest.as_str());
    assert(out@ =~= list_text(id.deep_view(), items.deep_view()));
    out
}

} // verus!
