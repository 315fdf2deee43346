//! What reading a checklist gives back of writing it, and what survives a
//! load and a save.
use vstd::prelude::*;

use crate::markdown;
use crate::model::ItemView;
use crate::text;

verus! {

/// The items that a checklist can hold as they are: one line of text without
/// white space at its end; with an identity that is one trimmed line of text
/// in which no other identity opens; without one, with some text, which does
/// not end in a comment that reads as an identity.
pub open spec fn writable(item: ItemView) -> bool {
    &&& text::one_line(item.text)
    &&& text::trim_end(item.text) == item.text
    &&& match item.uid {
        Some(uid) => {
            &&& uid.len() > 0
            &&& text::one_line(uid)
            &&& text::trim(uid) == uid
            &&& !text::contains(uid, "<!-- uid:"@)
        },
        None => item.text.len() > 0 && markdown::split_uid(item.text).1 is None,
    }
}

/// Every item of a sequence is writable.
pub open spec fn all_writable(items: Seq<ItemView>) -> bool {
    forall|i: int| 0 <= i < items.len() ==> writable(#[trigger] items[i])
}

/// The list identities that a header can hold as they are.
pub open spec fn writable_id(id: Option<Seq<char>>) -> bool {
    match id {
        Some(id) => id.len() > 0 && text::one_line(id) && text::trim(id) == id,
        None => true,
    }
}

pub proof fn lemma_items_on_first(line: Seq<char>, rest: Seq<Seq<char>>)
    ensures
        markdown::items_on(seq![line] + rest) == match markdown::line_item(line) {
            Some(item) => seq![item] + markdown::items_on(rest),
            None => markdown::items_on(rest),
        },
    decreases rest.len(),
{
    let f = |l: Seq<char>| markdown::line_item(l);
    if rest.len() == 0 {
        assert(seq![line] + rest =~= seq![line]);
        Seq::lemma_filter_map_singleton(line, f);
        assert(rest.filter_map(f) =~= Seq::empty());
        assert(markdown::items_on(seq![line] + rest) =~= match markdown::line_item(line) {
            Some(item) => seq![item] + markdown::items_on(rest),
            None => markdown::items_on(rest),
        });
    } else {
        lemma_items_on_first(line, rest.drop_last());
        assert((seq![line] + rest).drop_last() =~= seq![line] + rest.drop_last());
        assert((seq![line] + rest).last() == rest.last());
        assert(markdown::items_on(seq![line] + rest) =~= match markdown::line_item(line) {
            Some(item) => seq![item] + markdown::items_on(rest),
            None => markdown::items_on(rest),
        });
    }
}

/// Where the comment of an identity stands in an item's text.
proof fn lemma_uid_comment(t: Seq<char>, uid: Seq<char>)
    requires
        text::trim_end(t) == t,
        uid.len() > 0,
        text::trim(uid) == uid,
        !text::contains(uid, "<!-- uid:"@),
    ensures
        markdown::split_uid(t + (" <!-- uid:"@ + uid + " -->"@)) == (t, Some(uid)),
{
    reveal_strlit("<!-- uid:");
    reveal_strlit(" <!-- uid:");
    reveal_strlit(" -->");
    reveal_strlit("-->");
    let mark = "<!-- uid:"@;
    let rest = t + (" <!-- uid:"@ + uid + " -->"@);
    let k: int = t.len() as int + 1;
    assert(rest.last() == '>');
    assert(text::trim_end(rest) == rest);
    assert(rest.subrange(k, k + 9) =~= mark);
    assert(text::has_at(rest, mark, k));
    assert forall|j: int| k < j implies !text::has_at(rest, mark, j) by {
        if text::has_at(rest, mark, j) {
            let m = rest.subrange(j, j + 9);
            assert(m[0] == '<' && m[8] == ':');
            assert(rest[j] == '<' && rest[j + 8] == ':');
            if j < k + 9 {
                assert(rest[j] == mark[j - k]);
            } else {
                let a = j - (k + 9);
                if a + 9 <= uid.len() {
                    assert(uid.subrange(a, a + 9) =~= m);
                    assert(text::has_at(uid, mark, a));
                } else {
                    assert(rest[j + 8] == " -->"@[a + 8 - uid.len()]);
                }
            }
        }
    }
    text::lemma_rfind_at(rest, mark, k);
    let comment = rest.skip(k + 9);
    assert(comment =~= uid + " -->"@);
    assert(comment.subrange(comment.len() - 3, comment.len() as int) =~= "-->"@);
    let inner = comment.take(comment.len() - 3);
    assert(inner =~= uid.push(' '));
    text::lemma_trimmed(uid);
    assert(text::trim_start(inner) == inner);
    assert(inner.drop_last() =~= uid);
    assert(text::trim_end(uid) == uid);
    assert(text::trim(inner) == uid);
    assert(rest.take(k) =~= t.push(' '));
    assert(t.push(' ').drop_last() =~= t);
}

/// The line of a writable item reads as that item.
proof fn lemma_line_of(item: ItemView)
    requires
        writable(item),
    ensures
        markdown::line_item(markdown::item_line(item)) == Some(item),
        text::one_line(markdown::item_line(item)),
        text::chop_return(markdown::item_line(item)) == markdown::item_line(item),
{
    reveal_strlit("- [");
    reveal_strlit("] ");
    reveal_strlit("- [ ] ");
    reveal_strlit("- [x] ");
    reveal_strlit("- [X] ");
    reveal_strlit(" <!-- uid:");
    reveal_strlit(" -->");
    let line = markdown::item_line(item);
    let tail = match item.uid {
        Some(uid) => " <!-- uid:"@ + uid + " -->"@,
        None => Seq::empty(),
    };
    let rest = item.text + tail;
    assert(line =~= ("- ["@ + seq![markdown::mark_char(item.done)] + "] "@) + rest);
    match item.uid {
        Some(uid) => {
            assert(line.last() == '>');
            lemma_uid_comment(item.text, uid);
        },
        None => {
            assert(rest =~= item.text);
            text::lemma_trim_end(item.text);
            assert(line.last() == item.text.last());
        },
    }
    assert(line[0] == '-');
    text::lemma_trimmed(line);
    assert(line.skip(6) =~= rest);
    if item.done {
        assert(line.subrange(0, 6)[3] == 'x');
        assert("- [ ] "@[3] == ' ');
        assert(line.subrange(0, 6) =~= "- [x] "@);
    } else {
        assert(line.subrange(0, 6) =~= "- [ ] "@);
    }
    assert(markdown::split_mark(line) == (item.done, rest));
}

/// What a line reads as is writable.
proof fn lemma_read_writable(line: Seq<char>)
    requires
        text::one_line(line),
        markdown::line_item(line) is Some,
    ensures
        writable(markdown::line_item(line)->0),
{
    reveal_strlit("- [ ] ");
    reveal_strlit("- [x] ");
    reveal_strlit("- [X] ");
    reveal_strlit("<!-- uid:");
    reveal_strlit("-->");
    let t = text::trim(line);
    let _ = text::lemma_trim(line);
    let (done, rest) = markdown::split_mark(t);
    if t.len() == 6 && rest != t {
        assert(t.subrange(0, 6)[5] == ' ');
    }
    assert(rest.len() > 0 && rest.last() == t.last());
    assert(text::one_line(rest));
    assert(text::trim_end(rest) == rest);
    let (body, uid) = markdown::split_uid(rest);
    let mark = "<!-- uid:"@;
    if uid is Some {
        text::lemma_rfind(rest, mark);
        let open = text::rfind(rest, mark)->0;
        let comment = rest.skip(open + 9);
        let inner = comment.take(comment.len() - 3);
        let o = text::lemma_trim(inner);
        let u = text::trim(inner);
        assert(uid == Some(u));
        assert forall|i: int| !text::has_at(u, mark, i) by {
            if text::has_at(u, mark, i) {
                assert(rest.subrange(open + 9 + o + i, open + 9 + o + i + 9) =~= u.subrange(
                    i,
                    i + 9,
                ));
                assert(text::has_at(rest, mark, open + 9 + o + i));
            }
        }
        text::lemma_trim_end(rest.take(open));
    }
}

/// Every item of a checklist is one that a checklist can hold as it is.
pub proof fn law_parsed_items_writable(t: Seq<char>)
    ensures
        all_writable(markdown::parsed_items(t)),
{
    lemma_items_on_writable(text::lines(t));
    assert forall|k: int| 0 <= k < text::lines(t).len() implies text::one_line(
        #[trigger] text::lines(t)[k],
    ) by {
        text::lemma_lines_one_line(t, k);
    }
}

proof fn lemma_items_on_writable(lines: Seq<Seq<char>>)
    ensures
        (forall|k: int| 0 <= k < lines.len() ==> text::one_line(#[trigger] lines[k]))
            ==> all_writable(markdown::items_on(lines)),
{
    if forall|k: int| 0 <= k < lines.len() ==> text::one_line(#[trigger] lines[k]) {
        let items = markdown::items_on(lines);
        let f = |l: Seq<char>| markdown::line_item(l);
        assert forall|i: int| 0 <= i < items.len() implies writable(#[trigger] items[i]) by {
            assert(items.contains(items[i]));
            lines.lemma_filter_map_contains(f, items[i]);
            let l = choose|l: Seq<char>| #[trigger] lines.contains(l) && f(l) == Some(items[i]);
            lemma_read_writable(l);
        }
    }
}

proof fn lemma_round_trip(items: Seq<ItemView>)
    requires
        all_writable(items),
    ensures
        markdown::parsed_items(markdown::items_text(items)) == items,
    decreases items.len(),
{
    let t = markdown::items_text(items);
    if items.len() == 0 {
        assert(markdown::parsed_items(t) =~= items);
    } else {
        let rest = items.skip(1);
        assert(writable(items[0]));
        lemma_line_of(items[0]);
        text::lemma_lines_first(markdown::item_line(items[0]), markdown::items_text(rest));
        lemma_items_on_first(
            markdown::item_line(items[0]),
            text::lines(markdown::items_text(rest)),
        );
        assert forall|i: int| 0 <= i < rest.len() implies writable(#[trigger] rest[i]) by {
            assert(writable(items[i + 1]));
        }
        lemma_round_trip(rest);
        assert(seq![items[0]] + rest =~= items);
    }
}

/// Reading gives back exactly what was written for the items that a checklist
/// can hold as they are, and for no others.
pub proof fn law_items_round_trip(items: Seq<ItemView>)
    ensures
        (markdown::parsed_items(markdown::items_text(items)) == items) == all_writable(items),
{
    if all_writable(items) {
        lemma_round_trip(items);
    }
    law_parsed_items_writable(markdown::items_text(items));
}

/// A checklist edited by hand survives a load and a save: what is read from
/// the saved file is what was read from the edited one.
pub proof fn law_load_save_keeps_items(t: Seq<char>)
    ensures
        markdown::parsed_items(markdown::items_text(markdown::parsed_items(t)))
            == markdown::parsed_items(t),
{
    law_parsed_items_writable(t);
    law_items_round_trip(markdown::parsed_items(t));
}

/// The lines that are not blank.
pub open spec fn written_lines(lines: Seq<Seq<char>>) -> Seq<Seq<char>> {
    lines.filter(|l: Seq<char>| text::trim(l).len() > 0)
}

/// No line that is not blank is lost: each becomes one item, in its order.
pub proof fn law_no_line_dropped(t: Seq<char>)
    ensures
        markdown::parsed_items(t) == written_lines(text::lines(t)).map_values(
            |l: Seq<char>| markdown::line_item(l)->0,
        ),
{
    lemma_no_line_dropped(text::lines(t));
}

proof fn lemma_no_line_dropped(lines: Seq<Seq<char>>)
    ensures
        markdown::items_on(lines) == written_lines(lines).map_values(
            |l: Seq<char>| markdown::line_item(l)->0,
        ),
    decreases lines.len(),
{
    reveal(Seq::filter);
    if lines.len() > 0 {
        lemma_no_line_dropped(lines.drop_last());
    }
    assert(markdown::items_on(lines) =~= written_lines(lines).map_values(
        |l: Seq<char>| markdown::line_item(l)->0,
    ));
}

// ── Whole list files ──────────────────────────────────────────────────────

/// An identity that was read is one that a header can hold as it is.
proof fn lemma_read_id(line: Seq<char>)
    requires
        text::one_line(line),
    ensures
        writable_id(markdown::header_id(line)),
{
    reveal_strlit("<!-- list:");
    reveal_strlit("-->");
    let t = text::trim(line);
    let _ = text::lemma_trim(line);
    let inner = t.skip("<!-- list:"@.len() as int);
    if markdown::header_id(line) is Some {
        assert(text::one_line(inner.take(inner.len() - 3)));
        let _ = text::lemma_trim(inner.take(inner.len() - 3));
    }
}

proof fn lemma_header(id: Seq<char>)
    requires
        writable_id(Some(id)),
    ensures
        markdown::header_id("<!-- list:"@ + id + " -->"@) == Some(id),
        text::trim("<!-- list:"@ + id + " -->"@).len() > 0,
        text::one_line("<!-- list:"@ + id + " -->"@),
        text::chop_return("<!-- list:"@ + id + " -->"@) == "<!-- list:"@ + id + " -->"@,
{
    reveal_strlit("<!-- list:");
    reveal_strlit("-->");
    reveal_strlit(" -->");
    let line = "<!-- list:"@ + id + " -->"@;
    text::lemma_trimmed(line);
    assert(line.subrange(0, 10) =~= "<!-- list:"@);
    let inner = line.skip(10);
    assert(inner =~= id + " -->"@);
    assert(inner.subrange(inner.len() - 3, inner.len() as int) =~= "-->"@);
    let body = inner.take(inner.len() - 3);
    assert(body =~= id.push(' '));
    text::lemma_trimmed(id);
    assert(text::trim_start(body) == body);
    assert(body.drop_last() =~= id);
}

/// The first line of a written checklist is no header.
proof fn lemma_no_header(items: Seq<ItemView>)
    ensures
        markdown::parsed_list(markdown::items_text(items)) == (
            None::<Seq<char>>,
            markdown::parsed_items(markdown::items_text(items)),
        ),
{
    let t = markdown::items_text(items);
    if items.len() > 0 {
        reveal_strlit("- [");
        reveal_strlit("<!-- list:");
        let ls = text::lines(t);
        assert(t.len() > 0 && t[0] == '-');
        text::lemma_find(t, seq!['\n']);
        match text::find(t, seq!['\n']) {
            Some(i) => {
                if i == 0 {
                    assert(t.subrange(0, 1)[0] == '-');
                }
                assert(ls[0] == text::chop_return(t.take(i)));
                assert(ls[0].len() > 0 && ls[0][0] == '-');
            },
            None => {
                assert(ls[0] == t);
            },
        }
        let _ = text::lemma_trim(ls[0]);
        assert(text::trim_start(ls[0]) == ls[0]);
        text::lemma_trim_end(ls[0]);
        if text::trim(ls[0]).len() == 0 {
            lemma_trim_end_keeps_first(ls[0]);
        }
        assert(text::trim(ls[0])[0] == '-');
        assert(markdown::first_written(ls) == Some(0int));
        if text::begins(text::trim(ls[0]), "<!-- list:"@) {
            assert(text::trim(ls[0]).subrange(0, 10)[0] == '<');
        }
    } else {
        assert(text::lines(t) =~= Seq::empty());
    }
}

proof fn lemma_trim_end_keeps_first(s: Seq<char>)
    requires
        s.len() > 0,
        !text::white_space(s[0]),
    ensures
        text::trim_end(s).len() > 0,
    decreases s.len(),
{
    if text::white_space(s.last()) {
        lemma_trim_end_keeps_first(s.drop_last());
    }
}

/// Every list file that is read has an identity and items that a list file
/// can hold as they are.
pub proof fn law_parsed_list_writable(t: Seq<char>)
    ensures
        writable_id(markdown::parsed_list(t).0),
        all_writable(markdown::parsed_list(t).1),
{
    let ls = text::lines(t);
    assert forall|k: int| 0 <= k < ls.len() implies text::one_line(#[trigger] ls[k]) by {
        text::lemma_lines_one_line(t, k);
    }
    lemma_items_on_writable(ls);
    lemma_first_written(ls);
    if let Some(k) = markdown::first_written(ls) {
        lemma_read_id(ls[k]);
        let rest = ls.skip(k + 1);
        assert forall|j: int| 0 <= j < rest.len() implies text::one_line(#[trigger] rest[j]) by {
            assert(rest[j] == ls[j + k + 1]);
        }
        lemma_items_on_writable(rest);
    }
}

proof fn lemma_first_written(ls: Seq<Seq<char>>)
    ensures
        markdown::first_written(ls) matches Some(k) ==> 0 <= k < ls.len(),
    decreases ls.len(),
{
    if ls.len() > 0 {
        lemma_first_written(ls.skip(1));
    }
}

/// Reading a list file gives back exactly the identity and the items that
/// were written where a list file can hold them as they are, and nowhere else.
pub proof fn law_list_round_trip(id: Option<Seq<char>>, items: Seq<ItemView>)
    ensures
        (markdown::parsed_list(markdown::list_text(id, items)) == (id, items)) == (writable_id(id)
            && all_writable(items)),
{
    let t = markdown::list_text(id, items);
    law_parsed_list_writable(t);
    if writable_id(id) && all_writable(items) {
        law_items_round_trip(items);
        match id {
            Some(i) => {
                lemma_header(i);
                let head = "<!-- list:"@ + i + " -->"@;
                let body = markdown::items_text(items);
                text::lemma_lines_first(head, body);
                let ls = text::lines(t);
                assert(ls == seq![head] + text::lines(body));
                assert(markdown::first_written(ls) == Some(0int));
                assert(ls.skip(1) =~= text::lines(body));
            },
            None => {
                lemma_no_header(items);
            },
        }
    }
}

/// A list file edited by hand survives a load and a save.
pub proof fn law_load_save_keeps_list(t: Seq<char>)
    ensures
        ({
            let (id, items) = markdown::parsed_list(t);
            markdown::parsed_list(markdown::list_text(id, items)) == (id, items)
        }),
{
    law_parsed_list_writable(t);
    let (id, items) = markdown::parsed_list(t);
    law_list_round_trip(id, items);
}

} // verus!
