//! Titles as file names, and where everything is kept.
//!
//! A path is a byte string, as the system has it. Everything stands below one
//! data directory: `lists/<title>.md`, one file per list; `current`, the title
//! of the list that is shown; `sync-state.json`; and the single `list.md` of
//! the time before there were lists.
use vstd::prelude::*;
use vstd::string::*;
use vstd::utf8::*;

use crate::markdown;
use crate::model::{ItemView, ListFile, ListFileView};
use crate::round_trip;
use crate::text;

verus! {

/// `/`, which parts the names of a path.
pub const SLASH: u8 = 47;

/// A path and a name below it. A name that starts with a slash is a path of
/// its own.
pub open spec fn joined(base: Seq<u8>, name: Seq<u8>) -> Seq<u8> {
    if name.len() > 0 && name[0] == SLASH {
        name
    } else if base.len() == 0 || base.last() == SLASH {
        base + name
    } else {
        base.push(SLASH) + name
    }
}

/// A path and a name below it.
pub fn join(base: &[u8], name: &[u8]) -> (r: Vec<u8>)
    ensures
        r@ == joined(base@, name@),
{
    let mut out: Vec<u8> = Vec::new();
    if !(name.len() > 0 && name[0] == SLASH) {
        out.extend_from_slice(base);
        if base.len() > 0 && base[base.len() - 1] != SLASH {
            out.push(SLASH);
        }
    }
    out.extend_from_slice(name);
    assert(out@ =~= joined(base@, name@));
    out
}

/// Where the data is kept, given the two variables of the environment: below
/// the user's data directory if it is set to an absolute path, else below the
/// home directory.
pub open spec fn data_dir_of(xdg: Option<Seq<u8>>, home: Option<Seq<u8>>) -> Seq<u8> {
    let fallback = joined(
        match home {
            Some(h) => h,
            None => Seq::empty(),
        },
        encode_utf8(".local/share"@),
    );
    let base = match xdg {
        Some(x) => if x.len() > 0 && x[0] == SLASH {
            x
        } else {
            fallback
        },
        None => fallback,
    };
    joined(base, encode_utf8("cce-list"@))
}

/// The data directory, from the values of `XDG_DATA_HOME` and `HOME`.
pub fn data_dir(xdg: Option<&[u8]>, home: Option<&[u8]>) -> (r: Vec<u8>)
    ensures
        r@ == data_dir_of(
            match xdg {
                Some(x) => Some(x@),
                None => None,
            },
            match home {
                Some(h) => Some(h@),
                None => None,
            },
        ),
{
    if let Some(x) = xdg {
        if x.len() > 0 && x[0] == SLASH {
            return join(x, "cce-list".as_bytes());
        }
    }
    let none: Vec<u8> = Vec::new();
    let base = match home {
        Some(h) => join(h, ".local/share".as_bytes()),
        None => join(none.as_slice(), ".local/share".as_bytes()),
    };
    assert(none@ =~= Seq::<u8>::empty());
    join(base.as_slice(), "cce-list".as_bytes())
}

/// The directory of the list files.
pub open spec fn lists_dir_of(data: Seq<u8>) -> Seq<u8> {
    joined(data, encode_utf8("lists"@))
}

/// The directory of the list files.
pub fn lists_dir(data: &[u8]) -> (r: Vec<u8>)
    ensures
        r@ == lists_dir_of(data@),
{
    join(data, "lists".as_bytes())
}

/// The single checklist of the time before there were lists.
pub fn legacy_path(data: &[u8]) -> (r: Vec<u8>)
    ensures
        r@ == joined(data@, encode_utf8("list.md"@)),
{
    join(data, "list.md".as_bytes())
}

/// What the single checklist is kept as once its rows are in lists.
pub fn migrated_path(data: &[u8]) -> (r: Vec<u8>)
    ensures
        r@ == joined(data@, encode_utf8("list.md.migrated"@)),
{
    join(data, "list.md.migrated".as_bytes())
}

/// The file that names the shown list.
pub open spec fn current_path_of(data: Seq<u8>) -> Seq<u8> {
    joined(data, encode_utf8("current"@))
}

/// The file that names the shown list.
pub fn current_path(data: &[u8]) -> (r: Vec<u8>)
    ensures
        r@ == current_path_of(data@),
{
    join(data, "current".as_bytes())
}

/// The file of the last synced server state.
pub fn sync_state_path(data: &[u8]) -> (r: Vec<u8>)
    ensures
        r@ == joined(data@, encode_utf8("sync-state.json"@)),
{
    join(data, "sync-state.json".as_bytes())
}

// ── Titles ────────────────────────────────────────────────────────────────

/// A text with a dash for every slash.
pub open spec fn without_slashes(s: Seq<char>) -> Seq<char> {
    s.map_values(
        |c: char|
            if c == '/' {
                '-'
            } else {
                c
            },
    )
}

/// A title as a file stem.
pub open spec fn safe(title: Seq<char>) -> Seq<char> {
    let t = without_slashes(text::trim(title));
    if t.len() == 0 || t == "."@ || t == ".."@ {
        "Untitled"@
    } else {
        t
    }
}

/// Whether a slash is in a title.
pub fn has_slash(title: &str) -> (r: bool)
    ensures
        r == title@.contains('/'),
{
    let v = text::chars_of(title);
    for i in 0..v.len()
        invariant
            v@ == title@,
            forall|j: int| 0 <= j < i ==> #[trigger] title@[j] != '/',
    {
        if v[i] == '/' {
            assert(title@[i as int] == '/');
            return true;
        }
    }
    false
}

/// A title as a file stem. A slash is the one character that a stem cannot
/// hold; a server title with one comes back to the server renamed, which is
/// the lesser evil next to a list that cannot be written at all.
pub fn safe_title(title: &str) -> (r: String)
    ensures
        r@ == safe(title@),
{
    let v = text::chars_of(title);
    let t = text::trimmed(v.as_slice());
    let mut out = String::new();
    for i in 0..t.len()
        invariant
            out@ == without_slashes(t@).take(i as int),
    {
        out.push(if t[i] == '/' { '-' } else { t[i] });
    }
    assert(out@ =~= without_slashes(t@));
    if out.as_str().is_empty() || text::same_str(out.as_str(), ".") || text::same_str(
        out.as_str(),
        "..",
    ) {
        "Untitled".to_string()
    } else {
        out
    }
}

/// The path of a list's file.
pub open spec fn list_path_of(data: Seq<u8>, title: Seq<char>) -> Seq<u8> {
    joined(lists_dir_of(data), encode_utf8(safe(title) + ".md"@))
}

/// The path of a list's file.
pub fn list_path(data: &[u8], title: &str) -> (r: Vec<u8>)
    ensures
        r@ == list_path_of(data@, title@),
{
    let mut name = safe_title(title);
    name.append(".md");
    join(lists_dir(data).as_slice(), name.as_str().as_bytes())
}

/// The title of the list that a file of the lists directory holds. Other
/// files than `<title>.md` hold none.
pub open spec fn file_title(name: Seq<char>) -> Option<Seq<char>> {
    if name.len() > 3 && text::ends(name, ".md"@) {
        Some(name.take(name.len() - 3))
    } else {
        None
    }
}

/// The title of the list that a file of the lists directory holds.
pub fn title_of_file(name: &str) -> (r: Option<String>)
    ensures
        r.deep_view() == file_title(name@),
{
    let v = text::chars_of(name);
    let tail = text::chars_of(".md");
    if v.len() > 3 && text::ends_with(v.as_slice(), tail.as_slice()) {
        Some(text::string_of(vstd::slice::slice_subrange(v.as_slice(), 0, v.len() - 3)))
    } else {
        None
    }
}

// ── What is read and written ──────────────────────────────────────────────

/// A file to be replaced as a whole.
#[derive(Debug)]
pub struct FileWrite {
    pub path: Vec<u8>,
    pub content: String,
}

/// A file to be replaced, as plain values.
pub struct FileWriteView {
    pub path: Seq<u8>,
    pub content: Seq<char>,
}

impl DeepView for FileWrite {
    type V = FileWriteView;

    open spec fn deep_view(&self) -> FileWriteView {
        FileWriteView { path: self.path@, content: self.content@ }
    }
}

/// What saving a list writes, and where.
pub open spec fn saved_list(data: Seq<u8>, list: ListFileView) -> FileWriteView {
    FileWriteView {
        path: list_path_of(data, list.title),
        content: markdown::list_text(list.id, list.items),
    }
}

/// What showing the list with the given title writes, and where.
pub open spec fn saved_current(data: Seq<u8>, title: Seq<char>) -> FileWriteView {
    FileWriteView { path: current_path_of(data), content: safe(title).push('\n') }
}

/// The last position of a byte, or -1 where there is none.
pub open spec fn last_of(s: Seq<u8>, b: u8) -> int
    decreases s.len(),
{
    if s.len() == 0 {
        -1
    } else if s.last() == b {
        s.len() - 1
    } else {
        last_of(s.drop_last(), b)
    }
}

/// `.`, which a file's extension starts with.
pub const DOT: u8 = 46;

/// A path up to the name that it ends in: without the slashes behind it, and
/// without names that stand for the same directory again.
pub open spec fn upto_name(path: Seq<u8>) -> Seq<u8>
    decreases path.len(),
{
    let n = path.len();
    if n > 0 && (path.last() == SLASH || (n > 1 && path.last() == DOT && path[n - 2] == SLASH)) {
        upto_name(path.drop_last())
    } else {
        path
    }
}

/// The file beside another one that is written first: its name has `tmp` in
/// the place of the extension. A path that ends in no name has none.
pub open spec fn temp_path_of(path: Seq<u8>) -> Seq<u8> {
    let p = upto_name(path);
    let start = last_of(p, SLASH) + 1;
    let name = p.skip(start);
    let dot = last_of(name, DOT);
    if name.len() == 0 || name == seq![DOT] || name == seq![DOT, DOT] {
        path
    } else if dot > 0 {
        p.take(start + dot) + encode_utf8(".tmp"@)
    } else {
        p + encode_utf8(".tmp"@)
    }
}

/// How many bytes there are up to the last `b`, with it; none where there is
/// no `b`.
fn upto_last(s: &[u8], b: u8) -> (n: usize)
    ensures
        n == last_of(s@, b) + 1,
        n <= s@.len(),
{
    let mut n: usize = s.len();
    assert(s@.take(n as int) =~= s@);
    while n > 0 && s[n - 1] != b
        invariant
            n <= s@.len(),
            last_of(s@.take(n as int), b) == last_of(s@, b),
        decreases n,
    {
        assert(s@.take(n as int).drop_last() =~= s@.take(n - 1));
        n = n - 1;
    }
    n
}

/// The file that is written before it takes the place of the one at `path`:
/// in the same directory, so that a crash in the middle of a write never
/// leaves half a list behind.
pub fn temp_path(path: &[u8]) -> (r: Vec<u8>)
    ensures
        r@ == temp_path_of(path@),
{
    let mut n: usize = path.len();
    assert(path@.take(n as int) =~= path@);
    while n > 0 && (path[n - 1] == SLASH || (n > 1 && path[n - 1] == DOT && path[n - 2] == SLASH))
        invariant
            n <= path@.len(),
            upto_name(path@.take(n as int)) == upto_name(path@),
        decreases n,
    {
        assert(path@.take(n as int).drop_last() =~= path@.take(n - 1));
        n = n - 1;
    }
    let p = vstd::slice::slice_subrange(path, 0, n);
    assert(p@ =~= path@.take(n as int));
    let start: usize = upto_last(p, SLASH);
    let name = vstd::slice::slice_subrange(p, start, n);
    assert(name@ =~= p@.skip(start as int));
    let mut out: Vec<u8> = Vec::new();
    let here = name.len() == 1 && name[0] == DOT;
    let above = name.len() == 2 && name[0] == DOT && name[1] == DOT;
    assert(here == (name@ =~= seq![DOT]));
    assert(above == (name@ =~= seq![DOT, DOT]));
    if name.len() == 0 || here || above {
        out.extend_from_slice(path);
        assert(out@ =~= path@);
        return out;
    }
    let dots: usize = upto_last(name, DOT);
    if dots > 1 {
        out.extend_from_slice(vstd::slice::slice_subrange(p, 0, start + dots - 1));
    } else {
        out.extend_from_slice(p);
    }
    out.extend_from_slice(".tmp".as_bytes());
    assert(out@ =~= temp_path_of(path@));
    out
}

/// The list that a file holds, given its title and its content.
pub open spec fn read_list(title: Seq<char>, content: Seq<char>) -> ListFileView {
    let (id, items) = markdown::parsed_list(content);
    ListFileView { title, id, items }
}

/// The list of one file in the lists directory.
pub fn list_of_file(title: String, content: &str) -> (r: ListFile)
    ensures
        r.deep_view() == read_list(title@, content@),
{
    let (id, items) = markdown::parse_list(content);
    ListFile { title, id, items }
}

/// The list with the given title, from the content of the file at its path.
pub fn load_list(title: &str, content: &str) -> (r: ListFile)
    ensures
        r.deep_view() == read_list(safe(title@), content@),
{
    list_of_file(safe_title(title), content)
}

/// What saving a list writes, and where.
pub fn save_list(data: &[u8], list: &ListFile) -> (r: FileWrite)
    ensures
        r.deep_view() == saved_list(data@, list.deep_view()),
{
    let id: Option<&str> = match &list.id {
        Some(id) => Some(id.as_str()),
        None => None,
    };
    FileWrite {
        path: list_path(data, list.title.as_str()),
        content: markdown::serialize_list(id, list.items.as_slice()),
    }
}

/// The paths between which a rename moves a list's file, or `None` where both
/// titles have the same file.
pub fn rename_list(data: &[u8], old_title: &str, new_title: &str) -> (r: Option<(Vec<u8>, Vec<u8>)>)
    ensures
        match r {
            Some((from, to)) => safe(old_title@) != safe(new_title@) && from@ == list_path_of(
                data@,
                old_title@,
            ) && to@ == list_path_of(data@, new_title@),
            None => safe(old_title@) == safe(new_title@),
        },
{
    if text::same_str(safe_title(old_title).as_str(), safe_title(new_title).as_str()) {
        None
    } else {
        Some((list_path(data, old_title), list_path(data, new_title)))
    }
}

/// The title in the file that names the shown list.
pub fn load_current(content: &str) -> (r: Option<String>)
    ensures
        r.deep_view() == if text::trim(content@).len() > 0 {
            Some(text::trim(content@))
        } else {
            None
        },
{
    let t = text::trimmed_string(content);
    if t.as_str().is_empty() {
        None
    } else {
        Some(t)
    }
}

/// What showing the list with the given title writes, and where.
pub fn save_current(data: &[u8], title: &str) -> (r: FileWrite)
    ensures
        r.deep_view() == saved_current(data@, title@),
{
    let mut content = safe_title(title);
    content.push('\n');
    FileWrite { path: current_path(data), content }
}

// ── Laws ──────────────────────────────────────────────────────────────────

/// A file stem is never empty, holds no slash, names no directory, and is its
/// own stem.
pub proof fn law_safe_title(title: Seq<char>)
    ensures
        safe(title).len() > 0,
        !safe(title).contains('/'),
        safe(title) != "."@,
        safe(title) != ".."@,
        text::trim(safe(title)) == safe(title),
        safe(safe(title)) == safe(title),
{
    reveal_strlit(".");
    reveal_strlit("..");
    reveal_strlit("Untitled");
    let _ = text::lemma_trim(title);
    let s = safe(title);
    assert("Untitled"@[0] == 'U');
    assert("Untitled"@.last() == 'd');
    text::lemma_trimmed(s);
    assert(without_slashes(s) =~= s);
}

proof fn lemma_no_slash_byte(s: Seq<char>)
    requires
        !s.contains('/'),
    ensures
        !encode_utf8(s).contains(SLASH),
    decreases s.len(),
{
    if s.len() > 0 {
        let c = s[0] as u32;
        char_is_scalar(s[0]);
        char_u32_cast(s[0], c);
        assert(s.contains(s[0]));
        assert forall|i: int| 0 <= i < s.drop_first().len() implies s.drop_first()[i] != '/' by {
            assert(s.contains(s[i + 1]));
        }
        lemma_no_slash_byte(s.drop_first());
        let first = encode_scalar(c);
        assert(!first.contains(SLASH)) by {
            assert(c != 47) by {
                if c == 47 {
                    assert(c as char == '/');
                }
            }
            assert(c <= 0x7f ==> (c & 0x7f) as u8 == c) by (bit_vector);
            assert((0xc0u8 | ((c >> 6) & 0x1f) as u8) >= 0x80) by (bit_vector);
            assert((0xe0u8 | ((c >> 12) & 0x0f) as u8) >= 0x80) by (bit_vector);
            assert((0xf0u8 | ((c >> 18) & 0x07) as u8) >= 0x80) by (bit_vector);
            assert((0x80u8 | (c & 0x3f) as u8) >= 0x80) by (bit_vector);
            assert((0x80u8 | ((c >> 6) & 0x3f) as u8) >= 0x80) by (bit_vector);
            assert((0x80u8 | ((c >> 12) & 0x3f) as u8) >= 0x80) by (bit_vector);
        }
        assert(encode_utf8(s) =~= first + encode_utf8(s.drop_first()));
        assert forall|i: int| 0 <= i < encode_utf8(s).len() implies encode_utf8(s)[i]
            != SLASH by {
            if i < first.len() {
                assert(first.contains(first[i]));
            } else {
                assert(encode_utf8(s.drop_first()).contains(
                    encode_utf8(s.drop_first())[i - first.len()],
                ));
            }
        }
    }
}

/// Every list's file stands directly in the lists directory, whatever its
/// title.
pub proof fn law_list_file_in_lists_dir(data: Seq<u8>, title: Seq<char>)
    ensures
        ({
            let name = encode_utf8(safe(title) + ".md"@);
            &&& !name.contains(SLASH)
            &&& list_path_of(data, title) == lists_dir_of(data).push(SLASH) + name
        }),
{
    reveal_strlit(".md");
    reveal_strlit("lists");
    law_safe_title(title);
    let file = safe(title) + ".md"@;
    assert forall|i: int| 0 <= i < file.len() implies file[i] != '/' by {
        if i < safe(title).len() {
            assert(safe(title).contains(safe(title)[i]));
        }
    }
    lemma_no_slash_byte(file);
    let name = encode_utf8(file);
    if name.len() > 0 {
        assert(name.contains(name[0]));
    }
    is_ascii_chars_encode_utf8("lists"@);
    let l = encode_utf8("lists"@);
    assert(l.len() == 5);
    assert(l[0] == 108 && l[4] == 115);
}

proof fn lemma_encode_concat(a: Seq<char>, b: Seq<char>)
    ensures
        encode_utf8(a + b) == encode_utf8(a) + encode_utf8(b),
    decreases a.len(),
{
    if a.len() == 0 {
        assert(a + b =~= b);
        assert(encode_utf8(a) + encode_utf8(b) =~= encode_utf8(b));
    } else {
        lemma_encode_concat(a.drop_first(), b);
        assert((a + b).drop_first() =~= a.drop_first() + b);
        assert(encode_utf8(a + b) =~= encode_utf8(a) + encode_utf8(b));
    }
}

proof fn lemma_last_of(s: Seq<u8>, b: u8, k: int)
    requires
        0 <= k < s.len(),
        s[k] == b,
        forall|i: int| k < i < s.len() ==> s[i] != b,
    ensures
        last_of(s, b) == k,
    decreases s.len(),
{
    if k < s.len() - 1 {
        assert(s.last() != b);
        lemma_last_of(s.drop_last(), b, k);
    }
}

/// What is written before it takes the place of a list's file stands beside
/// it, and is not taken for a list.
pub proof fn law_temp_file_is_no_list(data: Seq<u8>, title: Seq<char>)
    ensures
        temp_path_of(list_path_of(data, title)) == lists_dir_of(data).push(SLASH) + encode_utf8(
            safe(title) + ".tmp"@,
        ),
        file_title(safe(title) + ".tmp"@) is None,
{
    law_list_file_in_lists_dir(data, title);
    law_safe_title(title);
    reveal_strlit(".md");
    reveal_strlit(".tmp");
    let stem = encode_utf8(safe(title));
    lemma_encode_concat(safe(title), ".md"@);
    lemma_encode_concat(safe(title), ".tmp"@);
    is_ascii_chars_encode_utf8(".md"@);
    let tail = encode_utf8(".md"@);
    assert(tail.len() == 3 && tail[0] == 46 && tail[1] == 109 && tail[2] == 100);
    let name = encode_utf8(safe(title) + ".md"@);
    assert(name =~= stem + tail);
    assert(stem.len() > 0) by {
        let c = safe(title)[0] as u32;
        char_is_scalar(safe(title)[0]);
        char_u32_cast(safe(title)[0], c);
        assert(encode_scalar(c).len() > 0);
        assert(stem =~= encode_scalar(c) + encode_utf8(safe(title).drop_first()));
    }
    let dir = lists_dir_of(data).push(SLASH);
    let path = list_path_of(data, title);
    assert(path =~= dir + name);
    let k = dir.len() - 1;
    assert forall|i: int| k < i < path.len() implies path[i] != SLASH by {
        assert(path[i] == name[i - dir.len()]);
        assert(name.contains(name[i - dir.len()]));
    }
    lemma_last_of(path, SLASH, k);
    assert(path.skip(k + 1) =~= name);
    let d = stem.len() as int;
    assert(name[d] == tail[0] && name[d + 1] == tail[1] && name[d + 2] == tail[2]);
    assert(path.last() == 100);
    assert(upto_name(path) == path);
    lemma_last_of(name, DOT, d);
    assert(path.take(dir.len() + d) =~= dir + stem);
    assert(temp_path_of(path) =~= dir + encode_utf8(safe(title) + ".tmp"@));
    let file = safe(title) + ".tmp"@;
    if text::ends(file, ".md"@) {
        assert(file.subrange(file.len() - 3, file.len() as int)[2] == 'p');
        assert(".md"@[2] == 'd');
    }
}

/// A saved list is found again under its own title.
pub proof fn law_saved_file_is_found(title: Seq<char>)
    ensures
        file_title(safe(title) + ".md"@) == Some(safe(title)),
{
    reveal_strlit(".md");
    law_safe_title(title);
    let file = safe(title) + ".md"@;
    assert(file.subrange(file.len() - 3, file.len() as int) =~= ".md"@);
    assert(file.take(file.len() - 3) =~= safe(title));
}

/// Loading a saved list gives back its identity and its items exactly where a
/// list file can hold them as they are.
pub proof fn law_saved_list_loads(title: Seq<char>, id: Option<Seq<char>>, items: Seq<ItemView>)
    ensures
        (read_list(safe(title), markdown::list_text(id, items)) == ListFileView {
            title: safe(title),
            id,
            items,
        }) == (round_trip::writable_id(id) && round_trip::all_writable(items)),
{
    round_trip::law_list_round_trip(id, items);
}

/// The title that was saved as the shown one is read back.
pub proof fn law_saved_current_loads(title: Seq<char>)
    ensures
        text::trim(safe(title).push('\n')) == safe(title),
{
    law_safe_title(title);
    let s = safe(title);
    text::lemma_trimmed(s);
    assert(s.push('\n')[0] == s[0]);
    assert(text::trim_start(s.push('\n')) == s.push('\n'));
    assert(s.push('\n').drop_last() =~= s);
}

} // verus!
