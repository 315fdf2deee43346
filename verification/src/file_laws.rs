//! What the lines of a list file are as items, what items are as lines, how
//! files and lists are named, and where the rows of the single checklist go.
use vstd::prelude::*;
use vstd::utf8::*;

use crate::lists;
use crate::markdown;
use crate::model;
use crate::model::{ItemView, ListFileView, SyncedItemView};
use crate::moved;
use crate::order;
use crate::paths;
use crate::paths::SLASH;
use crate::round_trip;
use crate::seqs;
use crate::text;
use crate::text_laws;
use crate::titles;

verus! {

// ── Lines as items ────────────────────────────────────────────────────────

proof fn lemma_trim_push(s: Seq<char>, w: char)
    requires
        text::white_space(w),
    ensures
        text::trim(s.push(w)) == text::trim(s),
    decreases s.len(),
{
    let t = s.push(w);
    if s.len() == 0 {
        assert(t.skip(1) =~= Seq::<char>::empty());
        assert(s =~= Seq::<char>::empty());
    } else if text::white_space(s[0]) {
        assert(t.skip(1) =~= s.skip(1).push(w));
        lemma_trim_push(s.skip(1), w);
    } else {
        assert(t.drop_last() =~= s);
    }
}

proof fn lemma_items_on_none()
    ensures
        markdown::items_on(Seq::empty()) == Seq::<ItemView>::empty(),
{
    seqs::lemma_filter_map_none(
        Seq::<Seq<char>>::empty(),
        |l: Seq<char>| markdown::line_item(l),
    );
}

proof fn lemma_one_line(a: Seq<char>)
    requires
        text_laws::without(a, '\n'),
    ensures
        markdown::parsed_items(a) == match markdown::line_item(a) {
            Some(item) => seq![item],
            None => Seq::empty(),
        },
{
    text_laws::law_lines(a, Seq::empty());
    lemma_items_on_none();
    if a.len() > 0 {
        round_trip::lemma_items_on_first(a, Seq::empty());
        assert(seq![a] + Seq::<Seq<char>>::empty() =~= seq![a]);
        if let Some(item) = markdown::line_item(a) {
            assert(seq![item] + Seq::<ItemView>::empty() =~= seq![item]);
        }
    } else {
        assert(a =~= Seq::<char>::empty());
        assert(text::lines(a) =~= Seq::<Seq<char>>::empty());
    }
}

/// The items of a text are those of its first line and then those of the rest.
/// A blank line is no item, and every other line is one.
pub proof fn law_items_line_by_line(a: Seq<char>, b: Seq<char>)
    requires
        text_laws::without(a, '\n'),
    ensures
        markdown::parsed_items(a + seq!['\n'] + b) == markdown::parsed_items(a)
            + markdown::parsed_items(b),
        text::trim(a).len() == 0 ==> markdown::parsed_items(a).len() == 0,
        text::trim(a).len() > 0 ==> markdown::parsed_items(a).len() == 1,
{
    text_laws::law_lines(a, b);
    lemma_one_line(a);
    let line = if a.len() > 0 && a.last() == '\r' {
        a.drop_last()
    } else {
        a
    };
    if a.len() > 0 && a.last() == '\r' {
        assert(line.push('\r') =~= a);
        lemma_trim_push(line, '\r');
    }
    round_trip::lemma_items_on_first(line, text::lines(b));
    assert(Seq::<ItemView>::empty() + markdown::parsed_items(b) =~= markdown::parsed_items(b));
}

/// A line begins with a box that is ticked.
pub open spec fn ticked(line: Seq<char>) -> bool {
    text::begins(line, "- [x] "@) || text::begins(line, "- [X] "@)
}

/// What stands behind the box of a line; all of it where it has none.
pub open spec fn behind_box(line: Seq<char>) -> Seq<char> {
    if ticked(line) || text::begins(line, "- [ ] "@) {
        line.skip(6)
    } else {
        line
    }
}

/// The last identity comment of a line opens at `k` and closes at its end, with
/// an identity in it.
pub open spec fn identified_at(body: Seq<char>, k: int, uid: Seq<char>) -> bool {
    &&& text::has_at(body, "<!-- uid:"@, k)
    &&& forall|j: int| k < j <= body.len() ==> !#[trigger] text::has_at(body, "<!-- uid:"@, j)
    &&& text::ends(body.skip(k + 9), "-->"@)
    &&& uid == text::trim(body.subrange(k + 9, body.len() - 3))
    &&& uid.len() > 0
}

proof fn lemma_row(line: Seq<char>)
    requires
        text_laws::without(line, '\n'),
        text::trim(line).len() > 0,
    ensures
        ({
            let t = text::trim(line);
            let (text, uid) = markdown::split_uid(behind_box(t));
            markdown::parsed_items(line) == seq![ItemView { text, done: ticked(t), uid }]
        }),
{
    lemma_one_line(line);
    let t = text::trim(line);
    reveal_strlit("- [ ] ");
    reveal_strlit("- [x] ");
    reveal_strlit("- [X] ");
    if text::begins(t, "- [ ] "@) {
        assert(t.subrange(0, 6)[3] == t[3]);
        assert("- [ ] "@[3] == ' ');
        if text::begins(t, "- [x] "@) {
            assert("- [x] "@[3] == 'x');
        }
        if text::begins(t, "- [X] "@) {
            assert("- [X] "@[3] == 'X');
        }
    }
}

/// A line that is not blank is an item that is done exactly where its box is
/// ticked, by a small or a capital letter. Its identity is the one in the
/// comment that closes the line, and its text is what stands before that.
pub proof fn law_row_with_identity(line: Seq<char>, k: int, uid: Seq<char>)
    requires
        text_laws::without(line, '\n'),
        text::trim(line).len() > 0,
        identified_at(text::trim_end(behind_box(text::trim(line))), k, uid),
    ensures
        markdown::parsed_items(line) == seq![
            ItemView {
                text: text::trim_end(
                    text::trim_end(behind_box(text::trim(line))).take(k),
                ),
                done: ticked(text::trim(line)),
                uid: Some(uid),
            },
        ],
{
    lemma_row(line);
    let body = text::trim_end(behind_box(text::trim(line)));
    text_laws::law_search(body, "<!-- uid:"@, k);
    reveal_strlit("<!-- uid:");
    reveal_strlit("-->");
    let comment = body.skip(k + 9);
    assert(comment.take(comment.len() - 3) =~= body.subrange(k + 9, body.len() - 3));
}

/// A line that is not blank and that no identity comment closes is an item
/// without an identity, and all that stands behind its box is its text.
pub proof fn law_row_without_identity(line: Seq<char>)
    requires
        text_laws::without(line, '\n'),
        text::trim(line).len() > 0,
        forall|k: int, uid: Seq<char>|
            !#[trigger] identified_at(
                text::trim_end(behind_box(text::trim(line))),
                k,
                uid,
            ),
    ensures
        markdown::parsed_items(line) == seq![
            ItemView {
                text: text::trim_end(behind_box(text::trim(line))),
                done: ticked(text::trim(line)),
                uid: None,
            },
        ],
{
    lemma_row(line);
    let body = text::trim_end(behind_box(text::trim(line)));
    reveal_strlit("<!-- uid:");
    reveal_strlit("-->");
    if let Some(k) = text::rfind(body, "<!-- uid:"@) {
        text_laws::law_search(body, "<!-- uid:"@, k);
        let comment = body.skip(k + 9);
        if text::ends(comment, "-->"@) {
            assert(comment.take(comment.len() - 3) =~= body.subrange(k + 9, body.len() - 3));
            assert(!identified_at(body, k, text::trim(body.subrange(k + 9, body.len() - 3))));
        }
    }
}

// ── Headers ───────────────────────────────────────────────────────────────

/// A line is the header of a list's file, and nothing else.
pub open spec fn is_header(line: Seq<char>, id: Seq<char>) -> bool {
    exists|inner: Seq<char>|
        text::trim(line) == #[trigger] ("<!-- list:"@ + inner + "-->"@) && id == text::trim(inner)
            && id.len() > 0
}

proof fn lemma_header(line: Seq<char>, id: Seq<char>)
    ensures
        markdown::header_id(line) == Some(id) <==> is_header(line, id),
{
    reveal_strlit("<!-- list:");
    reveal_strlit("-->");
    let t = text::trim(line);
    let rest = t.skip(10);
    let inner = rest.take(rest.len() - 3);
    if text::begins(t, "<!-- list:"@) && text::ends(rest, "-->"@) {
        assert(t.subrange(0, 10) =~= "<!-- list:"@);
        assert(rest.subrange(rest.len() - 3, rest.len() as int) =~= "-->"@);
        assert(t =~= t.subrange(0, 10) + rest);
        assert(rest =~= inner + rest.subrange(rest.len() - 3, rest.len() as int));
        assert(t =~= "<!-- list:"@ + inner + "-->"@);
    }
    if is_header(line, id) {
        let inside = choose|inside: Seq<char>|
            t == #[trigger] ("<!-- list:"@ + inside + "-->"@) && id == text::trim(inside)
                && id.len() > 0;
        assert(t.subrange(0, 10) =~= "<!-- list:"@);
        assert(rest =~= inside + "-->"@);
        assert(rest.subrange(rest.len() - 3, rest.len() as int) =~= "-->"@);
        assert(inner =~= inside);
    }
}

proof fn lemma_written(line: Seq<char>, rest: Seq<Seq<char>>)
    ensures
        text::trim(line).len() > 0 ==> markdown::first_written(seq![line] + rest) == Some(0int),
        text::trim(line).len() == 0 ==> markdown::first_written(seq![line] + rest) == match
        markdown::first_written(rest) {
            Some(k) => Some(k + 1),
            None => None,
        },
        markdown::first_written(rest) is Some ==> 0 <= markdown::first_written(rest)->0
            < rest.len(),
    decreases rest.len(),
{
    assert((seq![line] + rest)[0] == line);
    assert((seq![line] + rest).skip(1) =~= rest);
    if rest.len() > 0 {
        assert(seq![rest[0]] + rest.skip(1) =~= rest);
        lemma_written(rest[0], rest.skip(1));
    }
}

proof fn lemma_last_line(a: Seq<char>)
    requires
        text_laws::without(a, '\n'),
    ensures
        markdown::parsed_list(a) == markdown::parsed_list(a + seq!['\n']),
{
    text_laws::law_lines(a, Seq::empty());
    assert(a + seq!['\n'] + Seq::<char>::empty() =~= a + seq!['\n']);
    lemma_items_on_none();
    let none = Seq::<Seq<char>>::empty();
    let line = if a.len() > 0 && a.last() == '\r' {
        a.drop_last()
    } else {
        a
    };
    if a.len() > 0 && a.last() == '\r' {
        assert(line.push('\r') =~= a);
        lemma_trim_push(line, '\r');
    }
    assert(text::lines(Seq::<char>::empty()) =~= none);
    assert(seq![line] + none =~= seq![line]);
    assert(seq![a] + none =~= seq![a]);
    lemma_written(line, none);
    lemma_written(a, none);
    round_trip::lemma_items_on_first(line, none);
    round_trip::lemma_items_on_first(a, none);
    assert(seq![line].skip(1) =~= none);
    assert(seq![a].skip(1) =~= none);
    if a.len() == 0 {
        assert(text::lines(a) =~= none);
    }
}

/// A list's file is read from its first line on: a blank one says nothing; a
/// header gives the list's identity, and the items stand behind it; any other
/// line is an item, and the list has no identity. A line end that ends the file
/// changes nothing.
pub proof fn law_list_line_by_line(a: Seq<char>, b: Seq<char>, id: Seq<char>)
    requires
        text_laws::without(a, '\n'),
    ensures
        text::trim(a).len() == 0 ==> markdown::parsed_list(a + seq!['\n'] + b)
            == markdown::parsed_list(b),
        is_header(a, id) ==> markdown::parsed_list(a + seq!['\n'] + b) == (
            Some(id),
            markdown::parsed_items(b),
        ),
        text::trim(a).len() > 0 && (forall|other: Seq<char>| !#[trigger] is_header(a, other))
            ==> markdown::parsed_list(a + seq!['\n'] + b) == (
            None::<Seq<char>>,
            markdown::parsed_items(a) + markdown::parsed_items(b),
        ),
        markdown::parsed_list(Seq::empty()) == (None::<Seq<char>>, Seq::<ItemView>::empty()),
        markdown::parsed_list(a) == markdown::parsed_list(a + seq!['\n']),
{
    lemma_last_line(a);
    text_laws::law_lines(a, b);
    let line = if a.len() > 0 && a.last() == '\r' {
        a.drop_last()
    } else {
        a
    };
    if a.len() > 0 && a.last() == '\r' {
        assert(line.push('\r') =~= a);
        lemma_trim_push(line, '\r');
    }
    let rest = text::lines(b);
    let all = text::lines(a + seq!['\n'] + b);
    assert(all == seq![line] + rest);
    lemma_written(line, rest);
    round_trip::lemma_items_on_first(line, rest);
    law_items_line_by_line(a, b);
    lemma_header(line, id);
    if text::trim(a).len() > 0 {
        assert(all.skip(1) =~= rest);
        if let Some(other) = markdown::header_id(line) {
            lemma_header(line, other);
            assert(is_header(a, other) == is_header(line, other));
        }
        if is_header(a, id) {
            assert(is_header(line, id));
        }
    } else {
        if let Some(k) = markdown::first_written(rest) {
            assert(all.skip(k + 2) =~= rest.skip(k + 1));
            assert(all[k + 1] == rest[k]);
        }
        if is_header(a, id) {
            reveal_strlit("<!-- list:");
            let inner = choose|inner: Seq<char>|
                text::trim(a) == #[trigger] ("<!-- list:"@ + inner + "-->"@) && id == text::trim(
                    inner,
                ) && id.len() > 0;
            assert(("<!-- list:"@ + inner + "-->"@).len() > 0);
        }
    }
    lemma_items_on_none();
    assert(text::lines(Seq::empty()) =~= Seq::<Seq<char>>::empty());
}

// ── Items as lines ────────────────────────────────────────────────────────

proof fn lemma_items_text(items: Seq<ItemView>, item: ItemView)
    ensures
        markdown::items_text(items.push(item)) == markdown::items_text(items)
            + markdown::item_line(item) + seq!['\n'],
    decreases items.len(),
{
    let more = items.push(item);
    if items.len() == 0 {
        assert(more[0] == item);
        assert(more.skip(1) =~= Seq::<ItemView>::empty());
        assert(items =~= Seq::<ItemView>::empty());
        assert(markdown::item_line(item) + seq!['\n'] + Seq::<char>::empty() =~= Seq::<
            char,
        >::empty() + markdown::item_line(item) + seq!['\n']);
    } else {
        lemma_items_text(items.skip(1), item);
        assert(more.skip(1) =~= items.skip(1).push(item));
        let a = markdown::item_line(items[0]) + seq!['\n'];
        let b = markdown::items_text(items.skip(1));
        let c = markdown::item_line(item);
        assert(a + (b + c + seq!['\n']) =~= (a + b) + c + seq!['\n']);
    }
}

/// One more item is one more line: its box, ticked where it is done, its text,
/// and its identity in a comment where it has one.
pub proof fn law_items_are_written(items: Seq<ItemView>, item: ItemView)
    ensures
        ({
            let box_text = if item.done {
                "- [x] "@
            } else {
                "- [ ] "@
            };
            let comment = if item.uid is Some {
                " <!-- uid:"@ + item.uid->0 + " -->"@
            } else {
                Seq::empty()
            };
            markdown::items_text(items.push(item)) == markdown::items_text(items) + box_text
                + item.text + comment + seq!['\n']
        }),
        markdown::items_text(Seq::empty()).len() == 0,
{
    lemma_items_text(items, item);
    reveal_strlit("- [x] ");
    reveal_strlit("- [ ] ");
    reveal_strlit("- [");
    reveal_strlit("] ");
    let box_text = if item.done {
        "- [x] "@
    } else {
        "- [ ] "@
    };
    assert("- ["@ + seq![markdown::mark_char(item.done)] + "] "@ =~= box_text);
    let comment = if item.uid is Some {
        " <!-- uid:"@ + item.uid->0 + " -->"@
    } else {
        Seq::empty()
    };
    assert(markdown::item_line(item) =~= box_text + item.text + comment);
    assert(markdown::items_text(items) + (box_text + item.text + comment) + seq!['\n']
        =~= markdown::items_text(items) + box_text + item.text + comment + seq!['\n']);
}

/// A list's file is its items, behind a header line with the list's identity
/// where it has one. It stands under the name that its title makes.
pub proof fn law_list_is_written(data: Seq<u8>, list: ListFileView)
    ensures
        list.id is Some ==> markdown::list_text(list.id, list.items) == "<!-- list:"@
            + list.id->0 + " -->\n"@ + markdown::items_text(list.items),
        list.id is None ==> markdown::list_text(list.id, list.items) == markdown::items_text(
            list.items,
        ),
        paths::saved_list(data, list).path == paths::list_path_of(data, list.title),
        paths::saved_list(data, list).content == markdown::list_text(list.id, list.items),
{
    reveal_strlit(" -->\n");
    reveal_strlit(" -->");
    if list.id is Some {
        assert(" -->"@ + seq!['\n'] =~= " -->\n"@);
        assert("<!-- list:"@ + list.id->0 + " -->"@ + seq!['\n'] + markdown::items_text(list.items)
            =~= "<!-- list:"@ + list.id->0 + (" -->"@ + seq!['\n']) + markdown::items_text(
            list.items,
        ));
    }
}

// ── Names ─────────────────────────────────────────────────────────────────

/// A title as a file name is the title without white space at its ends and with
/// a dash for each slash; a title of nothing, of one dot and of two is replaced.
pub proof fn law_file_name(title: Seq<char>)
    ensures
        ({
            let t = text::trim(title);
            let replaced = t.len() == 0 || t == seq!['.'] || t == seq!['.', '.'];
            &&& replaced ==> paths::safe(title) == "Untitled"@
            &&& !replaced ==> paths::safe(title).len() == t.len()
            &&& !replaced ==> forall|i: int|
                0 <= i < t.len() ==> #[trigger] paths::safe(title)[i] == if t[i] == '/' {
                    '-'
                } else {
                    t[i]
                }
        }),
{
    let t = text::trim(title);
    let u = paths::without_slashes(t);
    reveal_strlit(".");
    reveal_strlit("..");
    assert("."@ =~= seq!['.']);
    assert(".."@ =~= seq!['.', '.']);
    if t == seq!['.'] || t == seq!['.', '.'] {
        assert(u =~= t);
    }
    if u == "."@ {
        assert(u[0] == '.');
        assert(t =~= seq!['.']);
    }
    if u == ".."@ {
        assert(u[0] == '.' && u[1] == '.');
        assert(t =~= seq!['.', '.']);
    }
}

/// A file is a list's exactly where its name is more than `.md` and ends so, and
/// what stands before that is the list's title.
pub proof fn law_title_of_file(name: Seq<char>, title: Seq<char>)
    ensures
        paths::file_title(name) == Some(title) <==> name == title + ".md"@ && title.len() > 0,
{
    reveal_strlit(".md");
    if paths::file_title(name) == Some(title) {
        assert(name.subrange(name.len() - 3, name.len() as int) =~= ".md"@);
        assert(name =~= title + ".md"@);
    }
    if name == title + ".md"@ && title.len() > 0 {
        assert(name.subrange(name.len() - 3, name.len() as int) =~= ".md"@);
        assert(name.take(name.len() - 3) =~= title);
    }
}

/// A path and a name below it are parted by one slash, unless the path is empty
/// or ends with one; a name that starts with a slash stands for itself.
pub proof fn law_joined(base: Seq<u8>, name: Seq<u8>)
    ensures
        name.len() > 0 && name[0] == 47 ==> paths::joined(base, name) == name,
        (name.len() == 0 || name[0] != 47) && base.len() > 0 && base.last() != 47
            ==> paths::joined(base, name) == base + seq![47u8] + name,
        (name.len() == 0 || name[0] != 47) && (base.len() == 0 || base.last() == 47)
            ==> paths::joined(base, name) == base + name,
{
    assert(base.push(SLASH) + name =~= base + seq![47u8] + name);
}

/// Everything stands below `cce-list` in the data directory that is set, where
/// that is an absolute path, and else in `.local/share` below the home.
pub proof fn law_data_dir(xdg: Option<Seq<u8>>, home: Option<Seq<u8>>)
    ensures
        ({
            let set = xdg is Some && xdg->0.len() > 0 && xdg->0[0] == 47;
            let under = if home is Some {
                home->0
            } else {
                Seq::empty()
            };
            &&& set ==> paths::data_dir_of(xdg, home) == paths::joined(
                xdg->0,
                encode_utf8("cce-list"@),
            )
            &&& !set ==> paths::data_dir_of(xdg, home) == paths::joined(
                paths::joined(under, encode_utf8(".local/share"@)),
                encode_utf8("cce-list"@),
            )
        }),
{
}

/// The shown list is named in the file `current` by the name of its file, on a
/// line of its own; lists stand in the directory `lists`.
pub proof fn law_places(data: Seq<u8>, title: Seq<char>)
    ensures
        paths::lists_dir_of(data) == paths::joined(data, encode_utf8("lists"@)),
        paths::current_path_of(data) == paths::joined(data, encode_utf8("current"@)),
        paths::saved_current(data, title).path == paths::joined(data, encode_utf8("current"@)),
        paths::saved_current(data, title).content == paths::safe(title) + seq!['\n'],
        paths::list_path_of(data, title) == paths::joined(
            paths::joined(data, encode_utf8("lists"@)),
            encode_utf8(paths::safe(title) + ".md"@),
        ),
{
    assert(paths::safe(title).push('\n') =~= paths::safe(title) + seq!['\n']);
}

proof fn lemma_last_of(s: Seq<u8>, b: u8)
    ensures
        -1 <= paths::last_of(s, b) < s.len(),
        paths::last_of(s, b) >= 0 ==> s[paths::last_of(s, b)] == b,
        forall|i: int| paths::last_of(s, b) < i < s.len() ==> s[i] != b,
    decreases s.len(),
{
    if s.len() > 0 && s.last() != b {
        let t = s.drop_last();
        lemma_last_of(t, b);
        assert forall|i: int| paths::last_of(s, b) < i < s.len() implies s[i] != b by {
            if i < t.len() {
                assert(t[i] == s[i]);
            }
        }
    }
}

/// What is written before it takes a file's place stands beside it, with `tmp`
/// in the place of its extension.
pub proof fn law_temp_path(dir: Seq<u8>, stem: Seq<u8>, extension: Seq<u8>)
    requires
        stem.len() > 0,
        extension.len() > 0,
        !stem.contains(47u8),
        !extension.contains(47u8),
        !extension.contains(46u8),
    ensures
        paths::temp_path_of(dir + seq![47u8] + stem + seq![46u8] + extension) == dir + seq![47u8]
            + stem + encode_utf8(".tmp"@),
{
    let path = dir + seq![47u8] + stem + seq![46u8] + extension;
    let name = stem + seq![46u8] + extension;
    let n = path.len() as int;
    assert(path.last() == extension.last());
    assert(extension.contains(extension.last()));
    assert(paths::upto_name(path) == path);
    let start = dir.len() as int + 1;
    lemma_last_of(path, 47u8);
    assert(path[dir.len() as int] == 47);
    assert forall|i: int| start <= i < n implies path[i] != 47 by {
        if i < start + stem.len() {
            assert(path[i] == stem[i - start]);
            assert(stem.contains(stem[i - start]));
        } else if i > start + stem.len() {
            assert(path[i] == extension[i - start - stem.len() - 1]);
            assert(extension.contains(extension[i - start - stem.len() - 1]));
        }
    }
    assert(paths::last_of(path, 47u8) == dir.len());
    assert(path.skip(start) =~= name);
    lemma_last_of(name, 46u8);
    assert(name[stem.len() as int] == 46);
    assert forall|i: int| stem.len() < i < name.len() implies name[i] != 46 by {
        assert(name[i] == extension[i - stem.len() - 1]);
        assert(extension.contains(extension[i - stem.len() - 1]));
    }
    assert(paths::last_of(name, 46u8) == stem.len());
    assert(name != seq![46u8]);
    if name == seq![46u8, 46u8] {
        assert(name[1] == 46);
        assert(name.last() == extension.last());
        assert(name.last() == 46);
    }
    assert(path.take(start + stem.len()) + encode_utf8(".tmp"@) =~= dir + seq![47u8] + stem
        + encode_utf8(".tmp"@));
}

/// What is written before it takes the place of a file without an extension
/// stands beside it, with `tmp` as its extension.
pub proof fn law_temp_path_without_extension(dir: Seq<u8>, name: Seq<u8>)
    requires
        name.len() > 0,
        !name.contains(47u8),
        !name.contains(46u8),
    ensures
        paths::temp_path_of(dir + seq![47u8] + name) == dir + seq![47u8] + name + encode_utf8(
            ".tmp"@,
        ),
{
    let path = dir + seq![47u8] + name;
    let start = dir.len() as int + 1;
    assert(path.last() == name.last());
    assert(name.contains(name.last()));
    assert(paths::upto_name(path) == path);
    lemma_last_of(path, 47u8);
    assert(path[dir.len() as int] == 47);
    assert forall|i: int| start <= i < path.len() implies path[i] != 47 by {
        assert(path[i] == name[i - start]);
        assert(name.contains(name[i - start]));
    }
    assert(paths::last_of(path, 47u8) == dir.len());
    assert(path.skip(start) =~= name);
    lemma_last_of(name, 46u8);
    if paths::last_of(name, 46u8) >= 0 {
        assert(name.contains(name[paths::last_of(name, 46u8)]));
    }
    assert(name.contains(name[0]));
    if name == seq![46u8] || name == seq![46u8, 46u8] {
        assert(name[0] == 46);
    }
}

/// Neither a list nor a file has a title.
pub open spec fn unused(
    title: Seq<char>,
    taken: Seq<ListFileView>,
    on_disk: Seq<Seq<char>>,
) -> bool {
    &&& forall|i: int| 0 <= i < taken.len() ==> (#[trigger] taken[i]).title != title
    &&& forall|i: int| 0 <= i < on_disk.len() ==> #[trigger] on_disk[i] != title
}

proof fn lemma_unused(title: Seq<char>, taken: Seq<ListFileView>, on_disk: Seq<Seq<char>>)
    ensures
        titles::title_taken(title, taken, on_disk) == !unused(title, taken, on_disk),
{
    if on_disk.contains(title) {
        let i = choose|i: int| 0 <= i < on_disk.len() && on_disk[i] == title;
        assert(on_disk[i] == title);
    }
    if !unused(title, taken, on_disk) && forall|i: int|
        0 <= i < taken.len() ==> (#[trigger] taken[i]).title != title {
        let i = choose|i: int| 0 <= i < on_disk.len() && #[trigger] on_disk[i] == title;
        assert(on_disk.contains(title));
    }
}

/// A list gets its title as a file name where nothing else has that, and else
/// that with the first number from two on, in brackets, that nothing else has.
pub proof fn law_free_title(
    title: Seq<char>,
    taken: Seq<ListFileView>,
    on_disk: Seq<Seq<char>>,
    n: nat,
)
    ensures
        unused(paths::safe(title), taken, on_disk) ==> titles::free_title(title, taken, on_disk)
            == paths::safe(title),
        !unused(paths::safe(title), taken, on_disk) && 2 <= n && unused(
            paths::safe(title) + " ("@ + text::decimal(n) + ")"@,
            taken,
            on_disk,
        ) && (forall|m: nat|
            2 <= m < n ==> !unused(
                paths::safe(title) + " ("@ + #[trigger] text::decimal(m) + ")"@,
                taken,
                on_disk,
            )) ==> titles::free_title(title, taken, on_disk) == paths::safe(title) + " ("@
            + text::decimal(n) + ")"@,
{
    let base = paths::safe(title);
    lemma_unused(base, taken, on_disk);
    if !unused(base, taken, on_disk) && 2 <= n && unused(
        base + " ("@ + text::decimal(n) + ")"@,
        taken,
        on_disk,
    ) && (forall|m: nat|
        2 <= m < n ==> !unused(
            base + " ("@ + #[trigger] text::decimal(m) + ")"@,
            taken,
            on_disk,
        )) {
        lemma_unused(titles::numbered(base, n), taken, on_disk);
        assert forall|m: nat| 2 <= m < n implies titles::title_taken(
            #[trigger] titles::numbered(base, m),
            taken,
            on_disk,
        ) by {
            lemma_unused(titles::numbered(base, m), taken, on_disk);
            assert(!unused(base + " ("@ + text::decimal(m) + ")"@, taken, on_disk));
        }
        assert(titles::frees(base, n, taken, on_disk));
        titles::law_free_number_unique(
            base,
            n,
            choose|m: nat| titles::frees(base, m, taken, on_disk),
            taken,
            on_disk,
        );
    }
}

// ── The lists directory ───────────────────────────────────────────────────

/// One more file of the lists directory is one more list, with the title that
/// its name has and what its content says, and none where its name is no
/// list's.
pub proof fn law_one_more_list_file(
    files: Seq<(Seq<char>, Seq<char>)>,
    name: Seq<char>,
    content: Seq<char>,
    title: Seq<char>,
)
    ensures
        lists::lists_in(Seq::empty()).len() == 0,
        name == title + ".md"@ && title.len() > 0 ==> lists::lists_in(files.push((name, content)))
            == lists::lists_in(files).push(
            (ListFileView {
                title,
                id: markdown::parsed_list(content).0,
                items: markdown::parsed_list(content).1,
            }),
        ),
        (forall|t: Seq<char>| t.len() > 0 ==> name != #[trigger] (t + ".md"@)) ==> lists::lists_in(
            files.push((name, content)),
        ) == lists::lists_in(files),
{
    let f = |f: (Seq<char>, Seq<char>)|
        match paths::file_title(f.0) {
            Some(title) => Some(paths::read_list(title, f.1)),
            None => None,
        };
    let more = files.push((name, content));
    let n = files.len() as int;
    seqs::lemma_filter_map_take(more, f, n);
    assert(more.take(n + 1) =~= more);
    assert(more.take(n) =~= files);
    seqs::lemma_filter_map_none(Seq::<(Seq<char>, Seq<char>)>::empty(), f);
    law_title_of_file(name, title);
    if let Some(t) = paths::file_title(name) {
        law_title_of_file(name, t);
    }
}

/// Lists are sorted where no title comes before one that stands before it,
/// without regard to letter case, and those that only case tells apart stay as
/// they were.
pub proof fn law_lists_are_sorted(
    new: Seq<ListFileView>,
    old: Seq<ListFileView>,
    i: int,
    j: int,
    key: Seq<char>,
)
    requires
        lists::sorted_from(new, old),
    ensures
        0 <= i < j < new.len() ==> !order::precedes(
            text::lowercase(new[j].title),
            text::lowercase(new[i].title),
        ),
        new.filter(|l: ListFileView| text::lowercase(l.title) == key) == old.filter(
            |l: ListFileView| text::lowercase(l.title) == key,
        ),
{
    let p = |l: ListFileView| lists::title_key(l) == key;
    let q = |l: ListFileView| text::lowercase(l.title) == key;
    moved::lemma_filter_same(new, p, q);
    moved::lemma_filter_same(old, p, q);
    assert(lists::with_key(new, key) == lists::with_key(old, key));
}

// ── The list of an item ───────────────────────────────────────────────────

/// An item is in the list that it is recorded in, and in the one that its URL
/// says where none is recorded.
pub proof fn law_list_of_item(item: SyncedItemView)
    ensures
        item.list.len() > 0 ==> item.list_id() == item.list,
        item.list.len() == 0 ==> item.list_id() == model::url_list_id(item.url),
{
}

/// A URL in which no list is named belongs to the collection that it stands in:
/// all of it up to its last slash, and nothing where it has none. So does a
/// calendar's that names no task behind a list.
pub proof fn law_collection_of_url(url: Seq<char>, i: int, k: int)
    requires
        (forall|j: int| 0 <= j <= url.len() ==> !#[trigger] text::has_at(url, "/lists/"@, j)) || (
        text::has_at(url, "/lists/"@, i) && (forall|j: int|
            0 <= j < i ==> !#[trigger] text::has_at(url, "/lists/"@, j)) && text::ends(
            url,
            ".ics"@,
        ) && !text::contains(url.skip(i + 7), "/tasks/"@)),
    ensures
        text::has_at(url, "/"@, k) && (forall|j: int|
            k < j <= url.len() ==> !#[trigger] text::has_at(url, "/"@, j)) ==> model::url_list_id(
            url,
        ) == url.take(k + 1),
        (forall|j: int| 0 <= j <= url.len() ==> !#[trigger] text::has_at(url, "/"@, j))
            ==> model::url_list_id(url).len() == 0,
{
    reveal_strlit("/lists/");
    text_laws::law_search(url, "/lists/"@, i);
    text_laws::law_search(url, "/"@, k);
}

/// A URL that names a list names it behind the first `/lists/`, up to the next
/// one, or up to `/tasks`.
pub proof fn law_list_named_in_url(url: Seq<char>, i: int)
    requires
        text::has_at(url, "/lists/"@, i),
        forall|j: int| 0 <= j < i ==> !#[trigger] text::has_at(url, "/lists/"@, j),
        !text::ends(url, ".ics"@) || text::contains(url.skip(i + 7), "/tasks/"@),
    ensures
        model::url_list_id(url) == text::before(
            text::before(url.skip(i + 7), "/lists/"@),
            "/tasks"@,
        ),
{
    reveal_strlit("/lists/");
    text_laws::law_search(url, "/lists/"@, i);
}

/// How many items are in a list.
pub open spec fn items_in(items: Map<Seq<char>, SyncedItemView>, id: Seq<char>) -> nat {
    items.dom().filter(|uid: Seq<char>| items[uid].list_id() == id).len()
}

/// The list that most items are in has an item, no other has more, and of those
/// that have as many it is the last by name; there is none where no item is in
/// a list.
pub proof fn law_list_of_most_items(
    items: Map<Seq<char>, SyncedItemView>,
    id: Seq<char>,
    other: Seq<char>,
)
    requires
        items.dom().finite(),
    ensures
        model::majority(items) == Some(id) ==> id.len() > 0 && items_in(items, id) > 0,
        model::majority(items) == Some(id) && other.len() > 0 && other != id ==> items_in(
            items,
            other,
        ) < items_in(items, id) || (items_in(items, other) == items_in(items, id)
            && order::precedes(other, id)),
        model::majority(items) is None ==> forall|uid: Seq<char>| #[trigger]
            items.contains_key(uid) ==> items[uid].list_id().len() == 0,
{
    if model::majority(items) == Some(id) {
        assert(model::is_majority(items, id));
        assert(model::share_of(items, id) == items_in(items, id));
        assert(model::share_of(items, other) == items_in(items, other));
    }
    if model::majority(items) is None {
        assert forall|uid: Seq<char>| #[trigger] items.contains_key(uid) implies
            items[uid].list_id().len() == 0 by {
            if items[uid].list_id().len() > 0 {
                model::law_majority_exists(items, uid);
            }
        }
    }
}

// ── The single checklist ──────────────────────────────────────────────────

/// The list that a row is known to be in: its identity is tracked in one.
pub open spec fn tracked_in(
    row: ItemView,
    tracks: Map<Seq<char>, SyncedItemView>,
    id: Seq<char>,
) -> bool {
    row.uid is Some && tracks.contains_key(row.uid->0) && tracks[row.uid->0].list_id() == id
        && id.len() > 0
}

/// How many rows are known to be in a list.
pub open spec fn rows_in(
    items: Seq<ItemView>,
    tracks: Map<Seq<char>, SyncedItemView>,
    id: Seq<char>,
) -> nat {
    items.filter(|row: ItemView| tracked_in(row, tracks, id)).len()
}

proof fn lemma_rows_in(
    items: Seq<ItemView>,
    tracks: Map<Seq<char>, SyncedItemView>,
    id: Seq<char>,
)
    ensures
        lists::row_share(items, tracks, id) == rows_in(items, tracks, id),
{
    let p = |i: ItemView| lists::known_owner(i, tracks) == Some(id);
    let q = |row: ItemView| tracked_in(row, tracks, id);
    moved::lemma_filter_same(items, p, q);
}

/// The main list of the single checklist is one that most of its rows are in;
/// of those that as many are in it is the one that most tracked items are in,
/// and else the last by name. Where no row is known to be in a list it is the
/// list that most tracked items are in.
pub proof fn law_main_list(
    items: Seq<ItemView>,
    tracks: Map<Seq<char>, SyncedItemView>,
    id: Seq<char>,
    other: Seq<char>,
)
    ensures
        lists::main_list(items, tracks) == Some(id) && other != id && rows_in(
            items,
            tracks,
            other,
        ) > 0 ==> rows_in(items, tracks, other) < rows_in(items, tracks, id) || (rows_in(
            items,
            tracks,
            other,
        ) == rows_in(items, tracks, id) && (model::majority(tracks) == Some(id) || (
        model::majority(tracks) != Some(other) && order::precedes(other, id)))),
        (forall|i: int, l: Seq<char>|
            0 <= i < items.len() ==> !#[trigger] tracked_in(items[i], tracks, l))
            ==> lists::main_list(items, tracks) == model::majority(tracks),
{
    lemma_rows_in(items, tracks, id);
    lemma_rows_in(items, tracks, other);
    if lists::main_list(items, tracks) == Some(id) && other != id && rows_in(items, tracks, other)
        > 0 {
        let q = |row: ItemView| tracked_in(row, tracks, other);
        let x = items.filter(q)[0];
        assert(items.filter(q).contains(x));
        seqs::lemma_filter_contains(items, q, x);
        let k = choose|k: int| 0 <= k < items.len() && items[k] == x;
        lists::law_most_rows_exist(items, tracks, k);
        assert(lists::has_most_rows(items, tracks, id));
        assert(lists::row_share(items, tracks, other) <= lists::row_share(items, tracks, id));
    }
    if forall|i: int, l: Seq<char>|
        0 <= i < items.len() ==> !#[trigger] tracked_in(items[i], tracks, l) {
        assert forall|l: Seq<char>| !#[trigger] lists::has_most_rows(items, tracks, l) by {
            lemma_rows_in(items, tracks, l);
            let q = |row: ItemView| tracked_in(row, tracks, l);
            assert forall|i: int| 0 <= i < items.len() implies !q(#[trigger] items[i]) by {
                assert(!tracked_in(items[i], tracks, l));
            }
            seqs::lemma_filter_none(items, q);
        }
    }
}

/// A row of the single checklist goes to the file of a list: the one that it is
/// tracked in, or the main one where it is tracked in none.
pub open spec fn goes_to(
    row: ItemView,
    tracks: Map<Seq<char>, SyncedItemView>,
    main: Option<Seq<char>>,
    id: Option<Seq<char>>,
) -> bool {
    if row.uid is Some && tracks.contains_key(row.uid->0) && tracks[row.uid->0].list_id().len()
        > 0 {
        id == Some(tracks[row.uid->0].list_id())
    } else {
        id == main
    }
}

proof fn lemma_goes_to(
    items: Seq<ItemView>,
    tracks: Map<Seq<char>, SyncedItemView>,
    main: Option<Seq<char>>,
    id: Option<Seq<char>>,
)
    ensures
        lists::rows_of(items, tracks, main, id) == items.filter(
            |row: ItemView| goes_to(row, tracks, main, id),
        ),
{
    moved::lemma_filter_same(
        items,
        |i: ItemView| lists::row_owner(i, tracks, main) == id,
        |row: ItemView| goes_to(row, tracks, main, id),
    );
}

/// Each file that the single checklist becomes holds the rows that go to its
/// list, in their order. The main list's, and that of rows without a list, is
/// titled Tasks, and each other is titled by its list.
pub proof fn law_migrated_file(
    items: Seq<ItemView>,
    tracks: Map<Seq<char>, SyncedItemView>,
    f: int,
)
    requires
        0 <= f < lists::migrated(items, tracks).len(),
    ensures
        ({
            let main = lists::main_list(items, tracks);
            let file = lists::migrated(items, tracks)[f];
            &&& file.items == items.filter(
                |row: ItemView| goes_to(row, tracks, main, file.id),
            )
            &&& file.id == main || file.id is None || main is None ==> file.title == "Tasks"@
            &&& file.id is Some && main is Some && file.id != main ==> file.title == paths::safe(
                file.id->0,
            )
            &&& items.len() > 0 ==> file.items.len() > 0
            &&& items.len() == 0 ==> file.id == main
        }),
        items.len() == 0 ==> lists::migrated(items, tracks).len() == 1,
{
    let main = lists::main_list(items, tracks);
    let all = lists::migrated(items, tracks);
    let file = all[f];
    let owners = lists::row_owners(items, tracks, main);
    let ids = order::in_order(owners);
    lemma_goes_to(items, tracks, main, file.id);
    if items.len() > 0 {
        let g = |i: ItemView| lists::row_owner(i, tracks, main);
        let named = ids.map_values(|id: Seq<char>| lists::migrated_file(items, tracks, main, Some(id)));
        let strays = if lists::rows_of(items, tracks, main, None).len() > 0 {
            seq![lists::migrated_file(items, tracks, main, None)]
        } else {
            Seq::empty()
        };
        assert(all == strays + named);
        assert(owners.finite());
        order::law_in_order(owners);
        if f >= strays.len() {
            let id = ids[f - strays.len()];
            assert(file == named[f - strays.len()]);
            assert(ids.to_set().contains(id));
            let s = items.filter_map(g);
            let k = choose|k: int| 0 <= k < s.len() && s[k] == id;
            seqs::lemma_filter_map_from(items, g, k);
            let i = choose|i: int| 0 <= i < items.len() && g(#[trigger] items[i]) == Some(s[k]);
            let p = |i: ItemView| lists::row_owner(i, tracks, main) == Some(id);
            assert(items.contains(items[i]));
            seqs::lemma_filter_contains(items, p, items[i]);
            assert(lists::rows_of(items, tracks, main, Some(id)).contains(items[i]));
        }
    }
}

/// The files that the single checklist becomes are of different lists: the one
/// of rows without a list comes first, and the others by the order of their
/// lists.
pub proof fn law_migrated_files_differ(
    items: Seq<ItemView>,
    tracks: Map<Seq<char>, SyncedItemView>,
    f: int,
    g: int,
)
    requires
        0 <= f < g < lists::migrated(items, tracks).len(),
    ensures
        ({
            let a = lists::migrated(items, tracks)[f].id;
            let b = lists::migrated(items, tracks)[g].id;
            &&& b is Some
            &&& a is Some ==> order::precedes(a->0, b->0)
            &&& a is None ==> f == 0
        }),
{
    let main = lists::main_list(items, tracks);
    let owners = lists::row_owners(items, tracks, main);
    let ids = order::in_order(owners);
    assert(owners.finite());
    order::law_in_order(owners);
    let all = lists::migrated(items, tracks);
    let named = ids.map_values(|id: Seq<char>| lists::migrated_file(items, tracks, main, Some(id)));
    let strays = if lists::rows_of(items, tracks, main, None).len() > 0 {
        seq![lists::migrated_file(items, tracks, main, None)]
    } else {
        Seq::empty()
    };
    if items.len() > 0 {
        assert(all == strays + named);
        assert(all[g] == named[g - strays.len()]);
        if f >= strays.len() {
            assert(all[f] == named[f - strays.len()]);
            assert(order::precedes(ids[f - strays.len()], ids[g - strays.len()]));
        }
    }
}

} // verus!
