//! What the lists are made of: items and list files, and the server's last
//! synced state of both.
use vstd::prelude::*;

use crate::map::{Copied, OrdMap};
use crate::order;
use crate::seqs;
use crate::text;

verus! {

/// One row of a checklist.
#[derive(Debug, PartialEq, Eq)]
pub struct Item {
    pub text: String,
    pub done: bool,
    /// Server identity for synced items; `None` for purely local ones.
    pub uid: Option<String>,
}

/// An item as plain values.
pub struct ItemView {
    pub text: Seq<char>,
    pub done: bool,
    pub uid: Option<Seq<char>>,
}

impl DeepView for Item {
    type V = ItemView;

    open spec fn deep_view(&self) -> ItemView {
        ItemView { text: self.text@, done: self.done, uid: self.uid.deep_view() }
    }
}

impl Clone for Item {
    fn clone(&self) -> (r: Item)
        ensures
            r.deep_view() == self.deep_view(),
    {
        Item { text: self.text.clone(), done: self.done, uid: copy_opt(&self.uid) }
    }
}

/// One checklist: its file stem, its server identity if it is mirrored, and
/// its items.
#[derive(Debug, PartialEq, Eq)]
pub struct ListFile {
    pub title: String,
    pub id: Option<String>,
    pub items: Vec<Item>,
}

/// A checklist as plain values.
pub struct ListFileView {
    pub title: Seq<char>,
    pub id: Option<Seq<char>>,
    pub items: Seq<ItemView>,
}

impl DeepView for ListFile {
    type V = ListFileView;

    open spec fn deep_view(&self) -> ListFileView {
        ListFileView {
            title: self.title@,
            id: self.id.deep_view(),
            items: self.items.deep_view(),
        }
    }
}

impl Clone for ListFile {
    fn clone(&self) -> (r: ListFile)
        ensures
            r.deep_view() == self.deep_view(),
    {
        ListFile {
            title: self.title.clone(),
            id: copy_opt(&self.id),
            items: copy_items(&self.items),
        }
    }
}

/// A copy of a text that may be missing.
pub fn copy_opt(o: &Option<String>) -> (r: Option<String>)
    ensures
        r.deep_view() == o.deep_view(),
{
    match o {
        Some(s) => Some(s.clone()),
        None => None,
    }
}

/// A copy of some items.
pub fn copy_items(items: &Vec<Item>) -> (r: Vec<Item>)
    ensures
        r.deep_view() == items.deep_view(),
{
    let mut out: Vec<Item> = Vec::new();
    for i in 0..items.len()
        invariant
            out.deep_view() == items.deep_view().take(i as int),
    {
        let ghost done = out.deep_view();
        out.push(items[i].clone());
        assert(out.deep_view() =~= done.push(items@[i as int].deep_view()));
    }
    out
}

// ── The last synced state ─────────────────────────────────────────────────

/// What the server held for one item at the end of the last sync. It tells
/// "the user checked it off here" apart from "it changed on the phone": an
/// identity in the state but not in the list is a local deletion to push, one
/// on the server but not in the state is a new item to pull.
#[derive(Debug)]
pub struct SyncedItem {
    /// Absolute resource URL, which updates and deletions go to.
    pub url: String,
    pub etag: String,
    /// Which account's credentials the URL answers to.
    pub account: String,
    pub text: String,
    pub done: bool,
    /// The server list the item belongs to; empty where it was not recorded.
    pub list: String,
}

/// A synced item as plain values.
pub struct SyncedItemView {
    pub url: Seq<char>,
    pub etag: Seq<char>,
    pub account: Seq<char>,
    pub text: Seq<char>,
    pub done: bool,
    pub list: Seq<char>,
}

impl DeepView for SyncedItem {
    type V = SyncedItemView;

    open spec fn deep_view(&self) -> SyncedItemView {
        SyncedItemView {
            url: self.url@,
            etag: self.etag@,
            account: self.account@,
            text: self.text@,
            done: self.done,
            list: self.list@,
        }
    }
}

impl Copied for SyncedItem {
    fn copied(&self) -> (r: SyncedItem) {
        self.clone()
    }
}

impl Clone for SyncedItem {
    fn clone(&self) -> (r: SyncedItem)
        ensures
            r.deep_view() == self.deep_view(),
    {
        SyncedItem {
            url: self.url.clone(),
            etag: self.etag.clone(),
            account: self.account.clone(),
            text: self.text.clone(),
            done: self.done,
            list: self.list.clone(),
        }
    }
}

/// A server list as last synced: its title then, so that a rename on either
/// side is told apart from one on the other.
#[derive(Debug)]
pub struct SyncedList {
    pub title: String,
    pub etag: String,
    pub account: String,
}

/// A synced list as plain values.
pub struct SyncedListView {
    pub title: Seq<char>,
    pub etag: Seq<char>,
    pub account: Seq<char>,
}

impl DeepView for SyncedList {
    type V = SyncedListView;

    open spec fn deep_view(&self) -> SyncedListView {
        SyncedListView { title: self.title@, etag: self.etag@, account: self.account@ }
    }
}

impl Copied for SyncedList {
    fn copied(&self) -> (r: SyncedList) {
        self.clone()
    }
}

impl Clone for SyncedList {
    fn clone(&self) -> (r: SyncedList)
        ensures
            r.deep_view() == self.deep_view(),
    {
        SyncedList {
            title: self.title.clone(),
            etag: self.etag.clone(),
            account: self.account.clone(),
        }
    }
}

/// The state at the end of the last sync.
pub struct SyncState {
    /// By item identity.
    pub items: OrdMap<SyncedItem>,
    /// By server list identity.
    pub lists: OrdMap<SyncedList>,
}

impl Default for SyncState {
    fn default() -> (r: SyncState)
        ensures
            r.items@ == Map::<Seq<char>, SyncedItemView>::empty(),
            r.lists@ == Map::<Seq<char>, SyncedListView>::empty(),
    {
        SyncState { items: OrdMap::new(), lists: OrdMap::new() }
    }
}

/// What follows the first `/lists/` in a URL, unless it is that of a calendar's
/// item: one that ends in `.ics` and has no `/tasks/` after `/lists/`.
pub open spec fn google_part(url: Seq<char>) -> Option<Seq<char>> {
    match text::find(url, "/lists/"@) {
        Some(i) => {
            let rest = url.skip(i + "/lists/"@.len());
            if text::ends(url, ".ics"@) && !text::contains(rest, "/tasks/"@) {
                None
            } else {
                Some(rest)
            }
        },
        None => None,
    }
}

/// The list identity in the URL of an item: of Google's what follows
/// `/lists/`, up to `/tasks`, and of any other the URL of the collection that
/// the item stands in.
pub open spec fn url_list_id(url: Seq<char>) -> Seq<char> {
    match google_part(url) {
        Some(rest) => text::before(text::before(rest, "/lists/"@), "/tasks"@),
        None => match text::rfind(url, "/"@) {
            Some(i) => url.take(i + 1),
            None => Seq::empty(),
        },
    }
}

/// The list identity in the URL of an item. Google's are
/// `…/lists/{id}/tasks/{task}`; a calendar's are `<calendar>/<uid>.ics`, where
/// the calendar's URL is the list's identity.
pub fn list_id_from_url(url: &str) -> (r: String)
    ensures
        r@ == url_list_id(url@),
{
    let v = text::chars_of(url);
    let lists = text::chars_of("/lists/");
    let mark = text::chars_of("/tasks/");
    let tasks = text::chars_of("/tasks");
    let slash = text::chars_of("/");
    let ics = text::chars_of(".ics");
    proof {
        reveal_strlit("/");
    }
    if let Some(i) = text::find_in(v.as_slice(), lists.as_slice()) {
        let rest = vstd::slice::slice_subrange(v.as_slice(), i + lists.len(), v.len());
        proof {
            assert(rest@ =~= url@.skip(i + lists@.len()));
            text::lemma_find(rest@, mark@);
        }
        if !text::ends_with(v.as_slice(), ics.as_slice()) || text::find_in(
            rest,
            mark.as_slice(),
        ).is_some() {
            let piece = text::up_to(rest, lists.as_slice());
            return text::string_of(text::up_to(piece, tasks.as_slice()));
        }
    }
    match text::rfind_in(v.as_slice(), slash.as_slice()) {
        Some(i) => text::string_of(vstd::slice::slice_subrange(v.as_slice(), 0, i + 1)),
        None => String::new(),
    }
}

/// The list of a calendar's item is the calendar, by its URL, whatever it is
/// named, as long as `/tasks/` does not follow `/lists/` in it.
pub proof fn law_calendar_item_list(calendar: Seq<char>, name: Seq<char>)
    requires
        calendar.len() > 0,
        calendar.last() == '/',
        !name.contains('/'),
        text::ends(name, ".ics"@),
        text::find(calendar + name, "/lists/"@) matches Some(i) ==> !text::contains(
            (calendar + name).skip(i + "/lists/"@.len()),
            "/tasks/"@,
        ),
    ensures
        url_list_id(calendar + name) == calendar,
{
    reveal_strlit("/");
    reveal_strlit(".ics");
    let url = calendar + name;
    let tail = ".ics"@.len();
    assert(url.subrange(url.len() - tail, url.len() as int) =~= name.subrange(
        name.len() - tail,
        name.len() as int,
    ));
    let k = calendar.len() - 1;
    assert(url.subrange(k, k + 1) =~= "/"@);
    assert forall|j: int| k < j implies !text::has_at(url, "/"@, j) by {
        if text::has_at(url, "/"@, j) {
            assert(url.subrange(j, j + 1)[0] == name[j - calendar.len()]);
            assert(name.contains(name[j - calendar.len()]));
        }
    }
    text::lemma_rfind_at(url, "/"@, k);
    assert(url.take(k + 1) =~= calendar);
}

/// The list of an item of Google's is the one that its address names.
pub proof fn law_google_item_list(id: Seq<char>, task: Seq<char>)
    requires
        !id.contains('/'),
        !task.contains('/'),
    ensures
        url_list_id(
            "https://tasks.googleapis.com/tasks/v1"@ + "/lists/"@ + id + "/tasks/"@ + task,
        ) == id,
{
    reveal_strlit("https://tasks.googleapis.com/tasks/v1");
    reveal_strlit("/lists/");
    reveal_strlit("/tasks/");
    reveal_strlit("/tasks");
    let api = "https://tasks.googleapis.com/tasks/v1"@;
    let rest = id + "/tasks/"@ + task;
    let url = api + "/lists/"@ + id + "/tasks/"@ + task;
    let n = api.len() as int;
    assert(n == 37);
    assert(url =~= api + "/lists/"@ + rest);
    assert(url.subrange(n, n + 7) =~= "/lists/"@);
    assert forall|j: int| 0 <= j < n implies !text::has_at(url, "/lists/"@, j) by {
        if text::has_at(url, "/lists/"@, j) {
            let w = url.subrange(j, j + 7);
            assert(w[0] == url[j] && w[1] == url[j + 1]);
            assert(url[j] == api[j]);
            assert(url[j] == '/' && url[j + 1] == 'l');
            assert(j == 5 || j == 6 || j == 28 || j == 34);
            assert(url[6] == '/' && url[7] == 't' && url[29] == 't' && url[35] == 'v');
        }
    }
    text::lemma_find_at(url, "/lists/"@, n);
    assert(url.skip(n + 7) =~= rest);
    let m = id.len() as int;
    assert(rest.subrange(m, m + 7) =~= "/tasks/"@);
    assert(text::has_at(rest, "/tasks/"@, m));
    assert forall|j: int| 0 <= j < rest.len() && rest[j] == '/' implies j == m || j == m + 6 by {
        if j < m {
            assert(id.contains(id[j]));
        } else if j >= m + 7 {
            assert(rest[j] == task[j - m - 7]);
            assert(task.contains(task[j - m - 7]));
        }
    }
    text::lemma_find(rest, "/lists/"@);
    if let Some(j) = text::find(rest, "/lists/"@) {
        let w = rest.subrange(j, j + 7);
        assert(w[0] == rest[j] && w[1] == rest[j + 1] && w[6] == rest[j + 6]);
        assert(rest[m + 1] == 't');
        assert(rest[j + 6] == '/');
        assert(false);
    }
    assert(rest.subrange(m, m + 6) =~= "/tasks"@);
    assert forall|j: int| 0 <= j < m implies !text::has_at(rest, "/tasks"@, j) by {
        if text::has_at(rest, "/tasks"@, j) {
            assert(rest.subrange(j, j + 6)[0] == rest[j]);
        }
    }
    text::lemma_find_at(rest, "/tasks"@, m);
    assert(rest.take(m) =~= id);
}

impl SyncedItemView {
    /// The server list that the item belongs to.
    pub open spec fn list_id(self) -> Seq<char> {
        if self.list.len() > 0 {
            self.list
        } else {
            url_list_id(self.url)
        }
    }
}

impl SyncedItem {
    /// The server list that the item belongs to, read off its URL where it was
    /// not recorded.
    pub fn list_id(&self) -> (r: String)
        ensures
            r@ == self.deep_view().list_id(),
    {
        if !self.list.as_str().is_empty() {
            self.list.clone()
        } else {
            list_id_from_url(self.url.as_str())
        }
    }
}

/// How many tracked items belong to a list.
pub open spec fn share_of(items: Map<Seq<char>, SyncedItemView>, id: Seq<char>) -> nat {
    items.dom().filter(|uid: Seq<char>| items[uid].list_id() == id).len()
}

/// A list has the most tracked items, and of those that have as many it comes
/// last in the order of texts.
pub open spec fn is_majority(items: Map<Seq<char>, SyncedItemView>, id: Seq<char>) -> bool {
    &&& id.len() > 0
    &&& share_of(items, id) > 0
    &&& forall|other: Seq<char>|
        other.len() > 0 && other != id ==> #[trigger] share_of(items, other) < share_of(items, id)
            || (share_of(items, other) == share_of(items, id) && order::precedes(other, id))
}

/// The list that most tracked items belong to.
pub open spec fn majority(items: Map<Seq<char>, SyncedItemView>) -> Option<Seq<char>> {
    if exists|id: Seq<char>| is_majority(items, id) {
        Some(choose|id: Seq<char>| is_majority(items, id))
    } else {
        None
    }
}

/// At most one list is the majority's.
pub proof fn law_majority_unique(
    items: Map<Seq<char>, SyncedItemView>,
    a: Seq<char>,
    b: Seq<char>,
)
    requires
        is_majority(items, a),
        is_majority(items, b),
    ensures
        a == b,
{
    if a != b {
        order::law_precedes_total(a, b);
        assert(share_of(items, a) < share_of(items, b) || order::precedes(a, b));
        assert(share_of(items, b) < share_of(items, a) || order::precedes(b, a));
    }
}

/// Of some texts one has the highest score, and of those that have as high a
/// one it comes last.
pub proof fn lemma_top(c: Seq<Seq<char>>, score: spec_fn(Seq<char>) -> nat) -> (top: Seq<char>)
    requires
        c.len() > 0,
    ensures
        c.contains(top),
        forall|x: Seq<char>| #[trigger]
            c.contains(x) && x != top ==> score(x) < score(top) || (score(x) == score(top)
                && order::precedes(x, top)),
    decreases c.len(),
{
    let x = c.last();
    assert(c[c.len() - 1] == x);
    if c.len() == 1 {
        x
    } else {
        let rest = c.drop_last();
        let t = lemma_top(rest, score);
        let top = if score(x) > score(t) || (score(x) == score(t) && order::precedes(t, x)) {
            x
        } else {
            t
        };
        let k = choose|k: int| 0 <= k < rest.len() && rest[k] == t;
        assert(c[k] == t);
        assert forall|y: Seq<char>| #[trigger] c.contains(y) && y != top implies score(y) < score(
            top,
        ) || (score(y) == score(top) && order::precedes(y, top)) by {
            let i = choose|i: int| 0 <= i < c.len() && c[i] == y;
            if i < rest.len() {
                assert(rest[i] == y);
                assert(rest.contains(y));
                if y != t && x != t && top == x && score(y) == score(t) && score(t) == score(x) {
                    order::law_precedes_transitive(y, t, x);
                }
            } else {
                order::law_precedes_total(x, t);
            }
        }
        top
    }
}

/// Where some tracked item has a list, there is a list that most belong to.
pub proof fn law_majority_exists(items: Map<Seq<char>, SyncedItemView>, uid: Seq<char>)
    requires
        items.dom().finite(),
        items.contains_key(uid),
        items[uid].list_id().len() > 0,
    ensures
        majority(items) is Some,
        is_majority(items, majority(items)->0),
{
    order::law_in_order(items.dom());
    let uids = order::in_order(items.dom());
    let f = |u: Seq<char>|
        if items[u].list_id().len() > 0 {
            Some(items[u].list_id())
        } else {
            None
        };
    let ids = uids.filter_map(f);
    assert(uids.to_set().contains(uid));
    let k = choose|k: int| 0 <= k < uids.len() && uids[k] == uid;
    seqs::lemma_filter_map_contains(uids, f, k);
    let score = |id: Seq<char>| share_of(items, id);
    let top = lemma_top(ids, score);
    assert forall|u: Seq<char>| #[trigger]
        items.dom().contains(u) && items[u].list_id().len() > 0 implies ids.contains(
        items[u].list_id(),
    ) by {
        assert(uids.to_set().contains(u));
        let j = choose|j: int| 0 <= j < uids.len() && uids[j] == u;
        seqs::lemma_filter_map_contains(uids, f, j);
    }
    let j = choose|j: int| 0 <= j < ids.len() && ids[j] == top;
    seqs::lemma_filter_map_from(uids, f, j);
    let m = choose|m: int| 0 <= m < uids.len() && f(#[trigger] uids[m]) == Some(ids[j]);
    let p = |u: Seq<char>| items[u].list_id() == top;
    assert(uids.to_set().contains(uids[m]));
    assert(items.dom().filter(p).contains(uids[m]));
    assert(share_of(items, top) > 0) by {
        if share_of(items, top) == 0 {
            assert(items.dom().filter(p) =~= Set::empty());
        }
    }
    assert forall|other: Seq<char>| other.len() > 0 && other != top implies #[trigger] share_of(
        items,
        other,
    ) < share_of(items, top) || (share_of(items, other) == share_of(items, top)
        && order::precedes(other, top)) by {
        if share_of(items, other) > 0 {
            let q = |u: Seq<char>| items[u].list_id() == other;
            let s = items.dom().filter(q);
            assert(!(s =~= Set::empty()));
            let u = choose|u: Seq<char>| s.contains(u);
            assert(items.dom().contains(u));
            assert(ids.contains(other));
            assert(score(other) == share_of(items, other));
        }
        assert(score(top) == share_of(items, top));
    }
    assert(is_majority(items, top));
}

/// Counting along a sequence without repetitions counts its set.
proof fn lemma_count(s: Seq<Seq<char>>, p: spec_fn(Seq<char>) -> bool)
    requires
        s.no_duplicates(),
    ensures
        s.filter(p).len() == s.to_set().filter(p).len(),
        s.to_set().filter(p).finite(),
    decreases s.len(),
{
    reveal(Seq::filter);
    if s.len() == 0 {
        assert(s.to_set().filter(p) =~= Set::empty());
    } else {
        let t = s.drop_last();
        lemma_count(t, p);
        assert forall|x: Seq<char>| s.to_set().contains(x) == t.to_set().insert(
            s.last(),
        ).contains(x) by {
            if s.contains(x) {
                let i = choose|i: int| 0 <= i < s.len() && s[i] == x;
                if i < t.len() {
                    assert(t[i] == x);
                }
            }
            if t.contains(x) {
                let i = choose|i: int| 0 <= i < t.len() && t[i] == x;
                assert(s[i] == x);
            }
            assert(s[s.len() - 1] == s.last());
        }
        assert(s.to_set() =~= t.to_set().insert(s.last()));
        assert(!t.contains(s.last())) by {
            if t.contains(s.last()) {
                let i = choose|i: int| 0 <= i < t.len() && t[i] == s.last();
                assert(s[i] == s[s.len() - 1]);
            }
        }
        if p(s.last()) {
            assert(s.to_set().filter(p) =~= t.to_set().filter(p).insert(s.last()));
        } else {
            assert(s.to_set().filter(p) =~= t.to_set().filter(p));
        }
    }
}

impl SyncState {
    /// The list that most tracked items belong to: what the single checklist
    /// of the time before there were lists was.
    pub fn majority_list_id(&self) -> (r: Option<String>)
        ensures
            r.deep_view() == majority(self.items@),
    {
        let ghost items = self.items@;
        let ghost keys = self.items.keys();
        proof {
            use_type_invariant(&self.items);
            self.items.lemma_entries();
        }
        let mut counts: OrdMap<usize> = OrdMap::new();
        let n: usize = self.items.len();
        let mut i: usize = 0;
        while i < n
            invariant
                i <= n,
                n == keys.len(),
                keys == self.items.keys(),
                items == self.items@,
                keys.len() == self.items.values().len(),
                forall|j: int|
                    0 <= j < keys.len() ==> items[#[trigger] keys[j]] == self.items.values()[j],
                forall|id: Seq<char>| #[trigger]
                    counts@.contains_key(id) ==> id.len() > 0 && counts@[id] > 0,
                forall|id: Seq<char>|
                    id.len() > 0 ==> #[trigger] count_in(items, keys.take(i as int), id) == (
                    if counts@.contains_key(id) {
                        counts@[id] as int
                    } else {
                        0
                    }),
            decreases n - i,
        {
            let id = self.items.value_at(i).list_id();
            let ghost before = counts@;
            proof {
                let now = keys.take(i + 1);
                assert(now.drop_last() =~= keys.take(i as int));
                assert(now.last() == keys[i as int]);
                assert(items[keys[i as int]].list_id() == id@);
                assert forall|other: Seq<char>| #[trigger]
                    count_in(items, now, other) == count_in(items, keys.take(i as int), other) + if other
                        == id@ {
                        1int
                    } else {
                        0
                    } by {
                    reveal(Seq::filter);
                }
                assert forall|other: Seq<char>| #[trigger]
                    count_in(items, now, other) <= i + 1 by {
                    now.lemma_filter_len(|uid: Seq<char>| items[uid].list_id() == other);
                }
            }
            if !id.as_str().is_empty() {
                let c: usize = match counts.get(id.as_str()) {
                    Some(c) => *c,
                    None => 0,
                };
                proof {
                    assert(count_in(items, keys.take(i as int), id@) == c);
                    assert(count_in(items, keys.take(i + 1), id@) <= i + 1);
                }
                counts.insert(id, c + 1);
            }
            proof {
                assert forall|other: Seq<char>| other.len() > 0 implies #[trigger] count_in(
                    items,
                    keys.take(i + 1),
                    other,
                ) == (if counts@.contains_key(other) {
                    counts@[other] as int
                } else {
                    0
                }) by {
                    assert(count_in(items, keys.take(i as int), other) == (
                    if before.contains_key(other) {
                        before[other] as int
                    } else {
                        0
                    }));
                }
            }
            i = i + 1;
        }
        proof {
            assert(keys.take(n as int) =~= keys);
            assert forall|id: Seq<char>| #[trigger] share_of(items, id) == count_in(
                items,
                keys,
                id,
            ) by {
                lemma_count(keys, |uid: Seq<char>| items[uid].list_id() == id);
            }
            use_type_invariant(&counts);
            counts.lemma_entries();
        }
        let ghost ids = counts.keys();
        let m: usize = counts.len();
        if m == 0 {
            proof {
                assert forall|id: Seq<char>| !is_majority(items, id) by {
                    if id.len() > 0 {
                        assert(count_in(items, keys, id) == share_of(items, id));
                        assert(!counts@.contains_key(id)) by {
                            if counts@.contains_key(id) {
                                assert(ids.to_set().contains(id));
                            }
                        }
                    }
                }
            }
            return None;
        }
        let mut best: usize = 0;
        for i in 1..m
            invariant
                m == ids.len(),
                best < i <= m,
                ids == counts.keys(),
                ids.len() == counts.values().len(),
                forall|j: int|
                    0 <= j < i ==> counts.values()[j] <= counts.values()[best as int],
                forall|j: int|
                    best < j < i ==> counts.values()[j] < counts.values()[best as int],
        {
            if *counts.value_at(i) >= *counts.value_at(best) {
                best = i;
            }
        }
        let r = counts.key_at(best).clone();
        proof {
            assert(counts@.contains_key(ids[best as int]));
            assert(count_in(items, keys, r@) == share_of(items, r@));
            assert forall|other: Seq<char>| other.len() > 0 && other != r@ implies #[trigger] share_of(
                items,
                other,
            ) < share_of(items, r@) || (share_of(items, other) == share_of(items, r@)
                && order::precedes(other, r@)) by {
                assert(count_in(items, keys, other) == share_of(items, other));
                if counts@.contains_key(other) {
                    assert(ids.to_set().contains(other));
                    let j = choose|j: int| 0 <= j < ids.len() && ids[j] == other;
                    assert(counts@[ids[j]] == counts.values()[j]);
                    if j < best {
                        assert(order::precedes(ids[j], ids[best as int]));
                    }
                }
            }
            assert(is_majority(items, r@));
            law_majority_unique(items, r@, majority(items)->0);
        }
        Some(r)
    }
}

/// How many items of a sequence belong to a list.
spec fn count_in(
    items: Map<Seq<char>, SyncedItemView>,
    uids: Seq<Seq<char>>,
    id: Seq<char>,
) -> int {
    uids.filter(|uid: Seq<char>| items[uid].list_id() == id).len() as int
}

} // verus!
