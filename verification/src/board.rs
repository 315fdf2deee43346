//! The window's lists: which one is shown, what the input box is for, and what
//! clicks, picks and entries do.
use vstd::prelude::*;

use crate::list_tasks;
use crate::lists;
use crate::model;
use crate::model::{Item, ItemView, ListFile, ListFileView};
use crate::paths;
use crate::paths::{FileWrite, FileWriteView};
use crate::text;

verus! {

/// What the input box is for.
#[derive(Clone, Copy, Debug, PartialEq, Eq, Structural)]
pub enum Mode {
    /// Typing adds an item to the shown list.
    Items,
    /// Typing names a new list.
    NamingList,
    /// Enter deletes the shown list, Escape keeps it.
    ConfirmDelete,
}

/// The lists of the window. `cur` is the one that is shown.
pub struct Board {
    pub lists: Vec<ListFile>,
    pub cur: usize,
    pub mode: Mode,
}

/// The lists of the window, as plain values.
pub struct BoardView {
    pub lists: Seq<ListFileView>,
    pub cur: int,
    pub mode: Mode,
}

impl DeepView for Board {
    type V = BoardView;

    open spec fn deep_view(&self) -> BoardView {
        BoardView { lists: self.lists.deep_view(), cur: self.cur as int, mode: self.mode }
    }
}

impl BoardView {
    /// There is a list to show, and another one to show in its place where it
    /// is about to be deleted.
    pub open spec fn wf(self) -> bool {
        &&& 0 <= self.cur < self.lists.len()
        &&& self.mode == Mode::ConfirmDelete ==> self.lists.len() > 1
    }

    /// The list that is shown.
    pub open spec fn shown(self) -> ListFileView {
        self.lists[self.cur]
    }

    /// The same lists, another one of them shown.
    pub open spec fn showing(self, i: int) -> BoardView {
        BoardView { cur: i, mode: Mode::Items, ..self }
    }

    /// The same lists, the shown one with other items.
    pub open spec fn with_items(self, items: Seq<ItemView>) -> BoardView {
        BoardView {
            lists: self.lists.update(self.cur, (ListFileView { items, ..self.shown() })),
            ..self
        }
    }
}

// ── Words ─────────────────────────────────────────────────────────────────

/// What the empty input box says.
pub open spec fn placeholder_of(mode: Mode, title: Seq<char>) -> Seq<char> {
    match mode {
        Mode::Items => "Remember to…"@,
        Mode::NamingList => "Name the new list, then Enter"@,
        Mode::ConfirmDelete => "Enter deletes “"@ + title + "” · Esc keeps it"@,
    }
}

/// What the empty input box says. `title` is that of the shown list.
pub fn placeholder(mode: Mode, title: &str) -> (r: String)
    ensures
        r@ == placeholder_of(mode, title@),
{
    match mode {
        Mode::Items => "Remember to…".to_string(),
        Mode::NamingList => "Name the new list, then Enter".to_string(),
        Mode::ConfirmDelete => {
            let mut s = "Enter deletes “".to_string();
            s.append(title);
            s.append("” · Esc keeps it");
            s
        },
    }
}

/// What the switcher offers: the lists, and then two more entries.
pub open spec fn options_of(lists: Seq<ListFileView>) -> Seq<Seq<char>> {
    lists.map_values(|l: ListFileView| l.title) + seq!["New list…"@, "Delete list…"@]
}

/// What the switcher offers.
pub fn switcher_options(lists: &[ListFile]) -> (r: Vec<String>)
    ensures
        r.deep_view() == options_of(lists.deep_view()),
{
    let ghost names = lists.deep_view().map_values(|l: ListFileView| l.title);
    let mut out: Vec<String> = Vec::new();
    for i in 0..lists.len()
        invariant
            names == lists.deep_view().map_values(|l: ListFileView| l.title),
            out.deep_view() == names.take(i as int),
    {
        let ghost had = out.deep_view();
        assert(lists.deep_view()[i as int] == lists@[i as int].deep_view());
        out.push(lists[i].title.clone());
        assert(out.deep_view() =~= had.push(names[i as int]));
    }
    assert(names.take(names.len() as int) =~= names);
    out.push("New list…".to_string());
    out.push("Delete list…".to_string());
    assert(out.deep_view() =~= options_of(lists.deep_view()));
    out
}

/// What has been typed: while the box is being edited that is what stands in
/// its buffer, else what was last committed.
pub fn input_value(editing: bool, buffer: &str, committed: &str) -> (r: String)
    ensures
        r@ == text::trim(if editing {
            buffer@
        } else {
            committed@
        }),
{
    if editing {
        text::trimmed_string(buffer)
    } else {
        text::trimmed_string(committed)
    }
}

// ── Keys and picks ────────────────────────────────────────────────────────

/// A key, as far as keys are told apart.
#[derive(Debug, PartialEq, Eq)]
pub enum KeyPress {
    Character(String),
    Escape,
    Enter,
    Other,
}

/// What a key does.
#[derive(Clone, Copy, Debug, PartialEq, Eq, Structural)]
pub enum KeyAction {
    /// Ends the program.
    Exit,
    /// Leaves the input box, and what it was for.
    Leave,
    /// Enters what was typed.
    Submit,
    /// Goes to the input box.
    Type,
}

/// What a key does. Enter takes what was typed while the box is being edited;
/// a pending deletion takes it from anywhere.
pub open spec fn key_action_of(
    fresh: bool,
    ctrl: bool,
    q: bool,
    escape: bool,
    enter: bool,
    editing: bool,
    mode: Mode,
) -> KeyAction {
    if !fresh {
        KeyAction::Type
    } else if ctrl && q {
        KeyAction::Exit
    } else if escape {
        KeyAction::Leave
    } else if enter && (editing || mode == Mode::ConfirmDelete) {
        KeyAction::Submit
    } else {
        KeyAction::Type
    }
}

/// What a key does. `pressed` and `repeat` say how it came, `editing` whether
/// the input box is being edited.
pub fn key_action(
    pressed: bool,
    repeat: bool,
    ctrl: bool,
    key: &KeyPress,
    editing: bool,
    mode: Mode,
) -> (r: KeyAction)
    ensures
        r == key_action_of(
            pressed && !repeat,
            ctrl,
            key matches KeyPress::Character(c) && c@ == "q"@,
            key is Escape,
            key is Enter,
            editing,
            mode,
        ),
{
    if !pressed || repeat {
        return KeyAction::Type;
    }
    if ctrl {
        if let KeyPress::Character(c) = key {
            if text::same_str(c.as_str(), "q") {
                return KeyAction::Exit;
            }
        }
    }
    match key {
        KeyPress::Escape => KeyAction::Leave,
        KeyPress::Enter => if editing || mode == Mode::ConfirmDelete {
            KeyAction::Submit
        } else {
            KeyAction::Type
        },
        _ => KeyAction::Type,
    }
}

/// What a pick of the switcher is.
#[derive(Clone, Copy, Debug, PartialEq, Eq, Structural)]
pub enum Pick {
    /// The list that is shown already.
    Same,
    /// Another list.
    List(usize),
    /// The entry for a new list.
    NewList,
    /// The entry that deletes the shown list.
    DeleteList,
}

/// Whether the lists are read again: where something else changed them, but
/// never while a name is being typed or a deletion is pending.
pub fn should_reload(mode: Mode, changed: bool) -> (r: bool)
    ensures
        r == (mode == Mode::Items && changed),
{
    mode == Mode::Items && changed
}

impl Board {
    /// What a pick of the switcher is.
    pub fn switcher_picked(&self, picked: usize) -> (r: Pick)
        ensures
            r == (if picked < self.lists@.len() {
                if picked == self.cur {
                    Pick::Same
                } else {
                    Pick::List(picked)
                }
            } else if picked == self.lists@.len() {
                Pick::NewList
            } else {
                Pick::DeleteList
            }),
    {
        if picked < self.lists.len() {
            if picked == self.cur {
                Pick::Same
            } else {
                Pick::List(picked)
            }
        } else if picked == self.lists.len() {
            Pick::NewList
        } else {
            Pick::DeleteList
        }
    }
}

// ── Reading ───────────────────────────────────────────────────────────────

/// The list that is made where there is none.
pub open spec fn first_list() -> ListFileView {
    ListFileView { title: "Tasks"@, id: None, items: Seq::empty() }
}

/// The lists, of which there is at least one.
pub open spec fn at_least_one(lists: Seq<ListFileView>) -> Seq<ListFileView> {
    if lists.len() == 0 {
        seq![first_list()]
    } else {
        lists
    }
}

/// The title of the list to show: the one that is named on disk, or else the
/// one that was shown before.
pub open spec fn wanted_title(current: Option<Seq<char>>, before: Option<Seq<char>>) -> Option<
    Seq<char>,
> {
    match current {
        Some(t) => Some(t),
        None => before,
    }
}

/// The list to show: the wanted one, or else the first.
pub open spec fn wanted_list(lists: Seq<ListFileView>, wanted: Option<Seq<char>>) -> int {
    match wanted {
        Some(t) => match list_tasks::titled(lists, t) {
            Some(i) => i,
            None => 0,
        },
        None => 0,
    }
}

/// What reading the lists writes: the first list where there is none, and the
/// name of the shown list where another one was wanted.
pub open spec fn load_writes(
    lists: Seq<ListFileView>,
    wanted: Option<Seq<char>>,
    data: Seq<u8>,
) -> Seq<FileWriteView> {
    let all = at_least_one(lists);
    let shown = all[wanted_list(all, wanted)].title;
    let first = if lists.len() == 0 {
        seq![paths::saved_list(data, first_list())]
    } else {
        Seq::empty()
    };
    let pointer = if wanted == Some(shown) {
        Seq::empty()
    } else {
        seq![paths::saved_current(data, shown)]
    };
    first + pointer
}

impl Board {
    /// A board without lists, before they are read.
    pub fn new() -> (b: Board)
        ensures
            b.deep_view().lists == Seq::<ListFileView>::empty(),
            b.cur == 0,
            b.mode == Mode::Items,
    {
        let b = Board { lists: Vec::new(), cur: 0, mode: Mode::Items };
        assert(b.lists.deep_view() =~= Seq::<ListFileView>::empty());
        b
    }

    /// The items of the shown list.
    pub fn items(&self) -> (r: &[Item])
        ensures
            r.deep_view() == if self.cur < self.lists@.len() {
                self.lists@[self.cur as int].items.deep_view()
            } else {
                Seq::empty()
            },
    {
        if self.cur < self.lists.len() {
            let r = self.lists[self.cur].items.as_slice();
            assert(r.deep_view() =~= self.lists@[self.cur as int].items.deep_view());
            r
        } else {
            let r: &[Item] = &[];
            assert(r.deep_view() =~= Seq::empty());
            r
        }
    }

    /// The title of the shown list.
    pub fn title(&self) -> (r: Option<String>)
        ensures
            r.deep_view() == if self.cur < self.lists@.len() {
                Some(self.lists@[self.cur as int].title@)
            } else {
                None
            },
    {
        if self.cur < self.lists.len() {
            Some(self.lists[self.cur].title.clone())
        } else {
            None
        }
    }

    /// Takes the lists as they were read. Keeps the shown list by its title
    /// where it is still there, makes the first list where there is none, and
    /// says what is to be written. `current` is the title that is named on
    /// disk.
    pub fn load_from_disk(
        &mut self,
        lists: Vec<ListFile>,
        current: Option<String>,
        data: &[u8],
    ) -> (r: Vec<FileWrite>)
        requires
            old(self).mode == Mode::Items,
        ensures
            final(self).deep_view().wf(),
            final(self).mode == Mode::Items,
            final(self).deep_view().lists == at_least_one(lists.deep_view()),
            ({
                let wanted = wanted_title(
                    current.deep_view(),
                    if old(self).cur < old(self).lists@.len() {
                        Some(old(self).lists@[old(self).cur as int].title@)
                    } else {
                        None
                    },
                );
                &&& final(self).cur == wanted_list(final(self).deep_view().lists, wanted)
                &&& r.deep_view() == load_writes(lists.deep_view(), wanted, data@)
            }),
    {
        let ghost given = lists.deep_view();
        let mut writes: Vec<FileWrite> = Vec::new();
        let mut all = lists;
        if all.len() == 0 {
            let first = ListFile { title: "Tasks".to_string(), id: None, items: Vec::new() };
            assert(first.items.deep_view() =~= Seq::empty());
            assert(first.deep_view() == first_list());
            writes.push(paths::save_list(data, &first));
            all.push(first);
        }
        assert(all.deep_view() =~= at_least_one(given));
        let wanted = match current {
            Some(t) => Some(t),
            None => self.title(),
        };
        let cur: usize = match &wanted {
            Some(t) => match list_tasks::find_titled(&all, t.as_str()) {
                Some(i) => i,
                None => 0,
            },
            None => 0,
        };
        let ghost av = all.deep_view();
        assert(av[cur as int] == all@[cur as int].deep_view());
        if !text::is_text(&wanted, all[cur].title.as_str()) {
            writes.push(paths::save_current(data, all[cur].title.as_str()));
        }
        assert(writes.deep_view() =~= load_writes(given, wanted.deep_view(), data@));
        self.lists = all;
        self.cur = cur;
        writes
    }

    /// Shows another list, and says what is to be written.
    pub fn select_list(&mut self, i: usize, data: &[u8]) -> (r: Option<FileWrite>)
        ensures
            i >= old(self).lists@.len() ==> r is None && *final(self) == *old(self),
            i < old(self).lists@.len() ==> {
                &&& final(self).deep_view() == old(self).deep_view().showing(i as int)
                &&& r is Some
                &&& r->0.deep_view() == paths::saved_current(data@, old(self).lists@[i as int].title@)
                &&& final(self).deep_view().wf()
            },
    {
        if i >= self.lists.len() {
            return None;
        }
        self.cur = i;
        self.mode = Mode::Items;
        Some(paths::save_current(data, self.lists[i].title.as_str()))
    }

    /// Gives the input box another purpose.
    pub fn set_mode(&mut self, mode: Mode)
        requires
            mode != Mode::ConfirmDelete || old(self).lists@.len() > 1,
        ensures
            final(self).deep_view() == (BoardView { mode, ..old(self).deep_view() }),
            old(self).deep_view().wf() ==> final(self).deep_view().wf(),
    {
        self.mode = mode;
    }

    // ── New lists ──

    /// The list that a typed name makes, or the one that has it already.
    pub fn create_list(&self, name: &str, data: &[u8]) -> (r: NewList)
        ensures
            match list_tasks::titled(self.deep_view().lists, paths::safe(name@)) {
                Some(i) => r matches NewList::There(k) && k == i && k < self.lists@.len(),
                None => r matches NewList::Write { list, write } && list.deep_view() == (
                ListFileView { title: paths::safe(name@), id: None, items: Seq::empty() })
                    && write.deep_view() == paths::saved_list(data@, list.deep_view()),
            },
    {
        let title = paths::safe_title(name);
        match list_tasks::find_titled(&self.lists, title.as_str()) {
            Some(i) => NewList::There(i),
            None => {
                let list = ListFile { title, id: None, items: Vec::new() };
                assert(list.items.deep_view() =~= Seq::empty());
                let write = paths::save_list(data, &list);
                NewList::Write { list, write }
            },
        }
    }

    /// Takes a new list in once its file is written, shows it, and says what
    /// is to be written.
    pub fn add_list(&mut self, list: ListFile, data: &[u8]) -> (r: FileWrite)
        ensures
            lists::sorted_from(
                final(self).deep_view().lists,
                old(self).deep_view().lists.push(list.deep_view()),
            ),
            lists::ascii_by_letters(final(self).deep_view().lists),
            list_tasks::titled(final(self).deep_view().lists, list.title@) == Some(
                final(self).cur as int,
            ),
            final(self).mode == Mode::Items,
            final(self).deep_view().wf(),
            r.deep_view() == paths::saved_current(data@, list.title@),
    {
        let title = list.title.clone();
        let ghost was = self.lists.deep_view();
        let ghost lv = list.deep_view();
        let mut all: Vec<ListFile> = Vec::new();
        std::mem::swap(&mut all, &mut self.lists);
        all.push(list);
        let ghost grown = all.deep_view();
        assert(grown =~= was.push(lv));
        lists::sort_lists(&mut all);
        proof {
            lists::lemma_sorted_contains(all.deep_view(), grown, lv);
            assert(grown[was.len() as int] == lv);
            list_tasks::lemma_titled(all.deep_view(), title@);
        }
        let i: usize = match list_tasks::find_titled(&all, title.as_str()) {
            Some(i) => i,
            None => 0,
        };
        assert(all.deep_view()[i as int] == all@[i as int].deep_view());
        self.lists = all;
        self.cur = i;
        self.mode = Mode::Items;
        paths::save_current(data, title.as_str())
    }

    // ── Deletion ──

    /// Asks whether the shown list is to be deleted. One list stays: where
    /// there is no other, nothing is asked, and the answer is `false`.
    pub fn begin_delete(&mut self) -> (asked: bool)
        ensures
            asked == (old(self).lists@.len() > 1),
            final(self).deep_view() == (BoardView {
                mode: if asked {
                    Mode::ConfirmDelete
                } else {
                    Mode::Items
                },
                ..old(self).deep_view()
            }),
            old(self).deep_view().wf() ==> final(self).deep_view().wf(),
    {
        if self.lists.len() <= 1 {
            self.mode = Mode::Items;
            false
        } else {
            self.mode = Mode::ConfirmDelete;
            true
        }
    }

    /// The file that goes with the shown list.
    pub fn delete_path(&self, data: &[u8]) -> (r: Vec<u8>)
        requires
            self.deep_view().wf(),
        ensures
            r@ == paths::list_path_of(data@, self.deep_view().shown().title),
    {
        assert(self.lists.deep_view()[self.cur as int] == self.lists@[self.cur as int].deep_view());
        paths::list_path(data, self.lists[self.cur].title.as_str())
    }

    /// Takes the shown list out once its file is deleted, shows the one that
    /// takes its place, and says what is to be written.
    pub fn confirm_delete(&mut self, data: &[u8]) -> (r: FileWrite)
        requires
            old(self).deep_view().wf(),
            old(self).mode == Mode::ConfirmDelete,
        ensures
            ({
                let rest = old(self).deep_view().lists.remove(old(self).cur as int);
                let next = if old(self).cur < rest.len() {
                    old(self).cur as int
                } else {
                    rest.len() - 1
                };
                &&& final(self).deep_view() == (BoardView {
                    lists: rest,
                    cur: next,
                    mode: Mode::Items,
                })
                &&& final(self).deep_view().wf()
                &&& r.deep_view() == paths::saved_current(data@, rest[next].title)
            }),
    {
        let ghost was = self.lists.deep_view();
        let at: usize = self.cur;
        let n: usize = self.lists.len();
        self.lists.remove(at);
        assert(self.lists.deep_view() =~= was.remove(at as int));
        let next: usize = if at < n - 1 {
            at
        } else {
            n - 2
        };
        self.cur = next;
        self.mode = Mode::Items;
        assert(self.lists.deep_view()[next as int] == self.lists@[next as int].deep_view());
        paths::save_current(data, self.lists[next].title.as_str())
    }

    // ── Items ──

    /// Puts other items in the shown list, and says what is to be written.
    fn put_items(&mut self, items: Vec<Item>, data: &[u8]) -> (r: FileWrite)
        requires
            old(self).deep_view().wf(),
        ensures
            final(self).deep_view() == old(self).deep_view().with_items(items.deep_view()),
            final(self).deep_view().wf(),
            r.deep_view() == paths::saved_list(data@, final(self).deep_view().shown()),
    {
        let ghost was = self.lists.deep_view();
        let at: usize = self.cur;
        assert(was[at as int] == self.lists@[at as int].deep_view());
        let list = ListFile {
            title: self.lists[at].title.clone(),
            id: model::copy_opt(&self.lists[at].id),
            items,
        };
        let ghost lv = list.deep_view();
        let r = paths::save_list(data, &list);
        self.lists.set(at, list);
        assert(self.lists.deep_view() =~= was.update(at as int, lv));
        r
    }

    /// What a click on a row does: marks it done, or not done any more.
    pub fn toggle_row(&mut self, i: usize, data: &[u8]) -> (r: FileWrite)
        requires
            old(self).deep_view().wf(),
            i < old(self).deep_view().shown().items.len(),
        ensures
            ({
                let items = old(self).deep_view().shown().items;
                let row = items[i as int];
                &&& final(self).deep_view() == old(self).deep_view().with_items(
                    items.update(i as int, (ItemView { done: !row.done, ..row })),
                )
                &&& final(self).deep_view().wf()
                &&& r.deep_view() == paths::saved_list(data@, final(self).deep_view().shown())
            }),
    {
        assert(self.lists.deep_view()[self.cur as int] == self.lists@[self.cur as int].deep_view());
        let mut items = model::copy_items(&self.lists[self.cur].items);
        let ghost was = items.deep_view();
        assert(was[i as int] == items@[i as int].deep_view());
        let row = Item {
            text: items[i].text.clone(),
            done: !items[i].done,
            uid: model::copy_opt(&items[i].uid),
        };
        let ghost rv = row.deep_view();
        items.set(i, row);
        assert(items.deep_view() =~= was.update(i as int, rv));
        self.put_items(items, data)
    }

    /// What a click on a row's cross does: takes the row out.
    pub fn remove_row(&mut self, i: usize, data: &[u8]) -> (r: FileWrite)
        requires
            old(self).deep_view().wf(),
            i < old(self).deep_view().shown().items.len(),
        ensures
            final(self).deep_view() == old(self).deep_view().with_items(
                old(self).deep_view().shown().items.remove(i as int),
            ),
            final(self).deep_view().wf(),
            r.deep_view() == paths::saved_list(data@, final(self).deep_view().shown()),
    {
        assert(self.lists.deep_view()[self.cur as int] == self.lists@[self.cur as int].deep_view());
        let mut items = model::copy_items(&self.lists[self.cur].items);
        let ghost was = items.deep_view();
        items.remove(i);
        assert(items.deep_view() =~= was.remove(i as int));
        self.put_items(items, data)
    }

    /// What entering a typed text does: it deletes the shown list, names a new
    /// one, or adds an item. `typed` is trimmed.
    pub fn submit_input(&mut self, typed: &str, data: &[u8]) -> (r: Submitted)
        requires
            old(self).deep_view().wf(),
        ensures
            final(self).deep_view().wf(),
            match old(self).mode {
                Mode::ConfirmDelete => r is Delete && *final(self) == *old(self),
                Mode::NamingList => *final(self) == *old(self) && if typed@.len() > 0 {
                    r is Create
                } else {
                    r is Nothing
                },
                Mode::Items => if typed@.len() > 0 {
                    &&& final(self).deep_view() == old(self).deep_view().with_items(
                        old(self).deep_view().shown().items.push(
                            (ItemView { text: typed@, done: false, uid: None }),
                        ),
                    )
                    &&& r is Added
                    &&& r->Added_0.deep_view() == paths::saved_list(
                        data@,
                        final(self).deep_view().shown(),
                    )
                } else {
                    r is Nothing && *final(self) == *old(self)
                },
            },
    {
        match self.mode {
            Mode::ConfirmDelete => Submitted::Delete,
            Mode::NamingList => if typed.is_empty() {
                Submitted::Nothing
            } else {
                Submitted::Create
            },
            Mode::Items => {
                if typed.is_empty() {
                    return Submitted::Nothing;
                }
                assert(self.lists.deep_view()[self.cur as int]
                    == self.lists@[self.cur as int].deep_view());
                let mut items = model::copy_items(&self.lists[self.cur].items);
                let ghost was = items.deep_view();
                let item = Item { text: typed.to_string(), done: false, uid: None };
                let ghost iv = item.deep_view();
                items.push(item);
                assert(items.deep_view() =~= was.push(iv));
                Submitted::Added(self.put_items(items, data))
            },
        }
    }
}

/// The list that a typed name makes.
#[derive(Debug)]
pub enum NewList {
    /// There is one already.
    There(usize),
    /// A list to be written and taken in.
    Write { list: ListFile, write: FileWrite },
}

/// What entering a typed text does.
#[derive(Debug)]
pub enum Submitted {
    /// Nothing.
    Nothing,
    /// The shown list is to be deleted.
    Delete,
    /// A list with the typed name is to be created.
    Create,
    /// An item was added; this is to be written.
    Added(FileWrite),
}

} // verus!
