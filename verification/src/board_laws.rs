//! What the window shows, and what keys, clicks and picks change in it.
use vstd::prelude::*;

use crate::apply_laws;
use crate::board;
use crate::board::{Board, BoardView, KeyAction, Mode, NewList, Pick, Submitted};
use crate::list_tasks;
use crate::lists;
use crate::model::{Item, ItemView, ListFile, ListFileView};
use crate::paths;
use crate::paths::FileWrite;
use crate::text;

verus! {

/// A key does something once when it goes down: with control, q ends the
/// program; Escape leaves the box; Enter takes what was typed while the box is
/// edited, and confirms a deletion from anywhere; every other key goes to the
/// box.
pub proof fn law_keys(
    fresh: bool,
    ctrl: bool,
    q: bool,
    escape: bool,
    enter: bool,
    editing: bool,
    mode: Mode,
)
    ensures
        ({
            let r = board::key_action_of(fresh, ctrl, q, escape, enter, editing, mode);
            let ends = fresh && ctrl && q;
            let leaves = fresh && !ends && escape;
            let takes = fresh && !ends && !escape && enter && (editing || mode
                == Mode::ConfirmDelete);
            &&& r == KeyAction::Exit <==> ends
            &&& r == KeyAction::Leave <==> leaves
            &&& r == KeyAction::Submit <==> takes
            &&& r == KeyAction::Type <==> !ends && !leaves && !takes
        }),
{
}

/// The switcher offers the lists by their titles, in order, and then a new list
/// and the deletion of the shown one.
pub proof fn law_switcher(lists: Seq<ListFileView>, i: int)
    ensures
        ({
            let r = board::options_of(lists);
            &&& r.len() == lists.len() + 2
            &&& 0 <= i < lists.len() ==> r[i] == lists[i].title
            &&& r[lists.len() as int] == "New list…"@
            &&& r[lists.len() as int + 1] == "Delete list…"@
        }),
{
}

/// The empty box says what it is for, and a pending deletion what it deletes.
pub proof fn law_placeholder(title: Seq<char>)
    ensures
        board::placeholder_of(Mode::Items, title) == "Remember to…"@,
        board::placeholder_of(Mode::NamingList, title) == "Name the new list, then Enter"@,
        board::placeholder_of(Mode::ConfirmDelete, title) == "Enter deletes “"@ + title
            + "” · Esc keeps it"@,
{
}

/// Other items in the shown list change nothing else: not another list, not the
/// shown list's title and identity, and not what is shown.
pub proof fn law_only_shown_items_change(b: BoardView, items: Seq<ItemView>, i: int)
    requires
        b.wf(),
        0 <= i < b.lists.len(),
    ensures
        ({
            let after = b.with_items(items);
            &&& after.lists.len() == b.lists.len()
            &&& after.cur == b.cur
            &&& after.mode == b.mode
            &&& i != b.cur ==> after.lists[i] == b.lists[i]
            &&& i == b.cur ==> after.lists[i] == (ListFileView {
                title: b.lists[i].title,
                id: b.lists[i].id,
                items,
            })
        }),
{
}

/// Another list that is shown is the one at its place, and the box is for items
/// again; the lists stay.
pub proof fn law_other_list_is_shown(b: BoardView, i: int)
    requires
        0 <= i < b.lists.len(),
    ensures
        b.showing(i).shown() == b.lists[i],
        b.showing(i).lists == b.lists,
        b.showing(i).cur == i,
        b.showing(i).mode == Mode::Items,
        b.showing(i).wf(),
{
}

/// A board shows one of its lists, and asks for a deletion only where another
/// list stays.
pub proof fn law_board_is_whole(b: BoardView)
    ensures
        b.wf() <==> 0 <= b.cur < b.lists.len() && (b.mode == Mode::ConfirmDelete ==> b.lists.len()
            >= 2),
        b.wf() ==> b.shown() == b.lists[b.cur],
{
}

/// Where there is no list, an empty one called Tasks is made; else the lists are
/// as they were read.
pub proof fn law_one_list_at_least(lists: Seq<ListFileView>)
    ensures
        lists.len() > 0 ==> board::at_least_one(lists) == lists,
        lists.len() == 0 ==> board::at_least_one(lists) == seq![
            ListFileView { title: "Tasks"@, id: None, items: Seq::empty() },
        ],
{
}

/// The list that is named on disk is shown, or else the one that was shown, where
/// it is still there; else the first is.
pub proof fn law_list_to_show(
    lists: Seq<ListFileView>,
    current: Option<Seq<char>>,
    before: Option<Seq<char>>,
    k: int,
)
    ensures
        current is Some ==> board::wanted_title(current, before) == current,
        current is None ==> board::wanted_title(current, before) == before,
        ({
            let wanted = board::wanted_title(current, before);
            &&& wanted is Some && apply_laws::first_titled(lists, wanted->0, k)
                ==> board::wanted_list(lists, wanted) == k
            &&& wanted is Some && apply_laws::none_titled(lists, wanted->0)
                ==> board::wanted_list(lists, wanted) == 0
            &&& wanted is None ==> board::wanted_list(lists, wanted) == 0
        }),
{
    let wanted = board::wanted_title(current, before);
    if wanted is Some {
        apply_laws::law_found_lists(lists, wanted->0, k);
    }
}

/// Reading the lists writes the first list where there is none, and the name of
/// the shown list where another one, or none, was wanted.
pub proof fn law_reading_writes(
    lists: Seq<ListFileView>,
    wanted: Option<Seq<char>>,
    data: Seq<u8>,
)
    ensures
        ({
            let all = board::at_least_one(lists);
            let shown = all[board::wanted_list(all, wanted)].title;
            let r = board::load_writes(lists, wanted, data);
            let first = paths::saved_list(
                data,
                (ListFileView { title: "Tasks"@, id: None, items: Seq::empty() }),
            );
            let pointer = paths::saved_current(data, shown);
            &&& lists.len() > 0 && wanted == Some(shown) ==> r.len() == 0
            &&& lists.len() > 0 && wanted != Some(shown) ==> r == seq![pointer]
            &&& lists.len() == 0 && wanted == Some(shown) ==> r == seq![first]
            &&& lists.len() == 0 && wanted != Some(shown) ==> r == seq![first, pointer]
        }),
{
}

// ── What the window's calls do ────────────────────────────────────────────

/// A click on a row turns its mark and nothing else: not its text, not its
/// identity, not another row, and not another list. What is written is the
/// shown list as it is then.
pub proof fn law_click_turns_mark(
    b: &mut Board,
    i: usize,
    data: &[u8],
    r: FileWrite,
    k: int,
)
    requires
        old(b).deep_view().wf(),
        i < old(b).deep_view().shown().items.len(),
        call_ensures(Board::toggle_row, (b, i, data), r),
    ensures
        ({
            let before = old(b).deep_view();
            let after = final(b).deep_view();
            let was = before.shown().items;
            let is = after.shown().items;
            &&& is.len() == was.len()
            &&& is[i as int].done == !was[i as int].done
            &&& is[i as int].text == was[i as int].text
            &&& is[i as int].uid == was[i as int].uid
            &&& 0 <= k < was.len() && k != i ==> is[k] == was[k]
            &&& after.shown().title == before.shown().title
            &&& after.shown().id == before.shown().id
            &&& after.cur == before.cur
            &&& after.mode == before.mode
            &&& after.lists.len() == before.lists.len()
            &&& 0 <= k < before.lists.len() && k != before.cur ==> after.lists[k]
                == before.lists[k]
            &&& r.deep_view() == paths::saved_list(data@, after.shown())
        }),
{
}

/// Two clicks on a row leave everything as it was.
pub proof fn law_two_clicks(
    a: &mut Board,
    b: &mut Board,
    i: usize,
    data: &[u8],
    r: FileWrite,
    t: FileWrite,
)
    requires
        old(a).deep_view().wf(),
        i < old(a).deep_view().shown().items.len(),
        call_ensures(Board::toggle_row, (a, i, data), r),
        old(b).deep_view() == final(a).deep_view(),
        call_ensures(Board::toggle_row, (b, i, data), t),
    ensures
        final(b).deep_view() == old(a).deep_view(),
        t.deep_view() == paths::saved_list(data@, old(a).deep_view().shown()),
{
    let x = old(a).deep_view();
    let z = final(b).deep_view();
    assert(z.shown().items =~= x.shown().items);
    assert(z.lists =~= x.lists);
}

/// A click on a row's cross takes that row out: those before it stay, those
/// behind it move up, and nothing else changes.
pub proof fn law_cross_removes_row(
    b: &mut Board,
    i: usize,
    data: &[u8],
    r: FileWrite,
    k: int,
)
    requires
        old(b).deep_view().wf(),
        i < old(b).deep_view().shown().items.len(),
        call_ensures(Board::remove_row, (b, i, data), r),
    ensures
        ({
            let before = old(b).deep_view();
            let after = final(b).deep_view();
            let was = before.shown().items;
            let is = after.shown().items;
            &&& is.len() == was.len() - 1
            &&& 0 <= k < i ==> is[k] == was[k]
            &&& i <= k < is.len() ==> is[k] == was[k + 1]
            &&& after.shown().title == before.shown().title
            &&& after.shown().id == before.shown().id
            &&& after.cur == before.cur
            &&& after.mode == before.mode
            &&& after.lists.len() == before.lists.len()
            &&& 0 <= k < before.lists.len() && k != before.cur ==> after.lists[k]
                == before.lists[k]
            &&& r.deep_view() == paths::saved_list(data@, after.shown())
        }),
{
}

/// A typed text is a new row behind all others, not done and without an
/// identity, and it is written. Nothing typed adds nothing. Where the box is for
/// something else, the lists stay, and the text names a list or deletes one.
pub proof fn law_typed_text(b: &mut Board, typed: &str, data: &[u8], r: Submitted, k: int)
    requires
        old(b).deep_view().wf(),
        call_ensures(Board::submit_input, (b, typed, data), r),
    ensures
        ({
            let before = old(b).deep_view();
            let after = final(b).deep_view();
            let was = before.shown().items;
            let is = after.shown().items;
            let adds = before.mode == Mode::Items && typed@.len() > 0;
            &&& r is Added <==> adds
            &&& r is Delete <==> before.mode == Mode::ConfirmDelete
            &&& r is Create <==> before.mode == Mode::NamingList && typed@.len() > 0
            &&& !adds ==> after == before
            &&& adds ==> is.len() == was.len() + 1
            &&& adds && 0 <= k < was.len() ==> is[k] == was[k]
            &&& adds ==> is.last() == (ItemView { text: typed@, done: false, uid: None })
            &&& adds ==> after.lists.len() == before.lists.len() && after.cur == before.cur
                && after.mode == before.mode
            &&& adds && 0 <= k < before.lists.len() && k != before.cur ==> after.lists[k]
                == before.lists[k]
            &&& adds ==> r->Added_0.deep_view() == paths::saved_list(data@, after.shown())
        }),
{
}

/// What was typed is what stands in the box while it is edited, and else what
/// was last taken from it, without white space at its ends.
pub proof fn law_box_text(editing: bool, buffer: &str, committed: &str, r: String)
    requires
        call_ensures(board::input_value, (editing, buffer, committed), r),
    ensures
        editing ==> r@ == text::trim(buffer@),
        !editing ==> r@ == text::trim(committed@),
{
}

/// A deletion is asked for only where another list stays.
pub proof fn law_deletion_is_asked(b: &mut Board, asked: bool)
    requires
        call_ensures(Board::begin_delete, (b,), asked),
    ensures
        asked <==> old(b).lists@.len() >= 2,
        asked <==> final(b).mode == Mode::ConfirmDelete,
        !asked ==> final(b).mode == Mode::Items,
        final(b).deep_view().lists == old(b).deep_view().lists,
        final(b).cur == old(b).cur,
{
}

/// A deletion takes the shown list out and no other. The list behind it is shown
/// then, or the last one where it was the last, and that is written.
pub proof fn law_shown_list_is_deleted(b: &mut Board, data: &[u8], r: FileWrite, k: int)
    requires
        old(b).deep_view().wf(),
        old(b).mode == Mode::ConfirmDelete,
        call_ensures(Board::confirm_delete, (b, data), r),
    ensures
        ({
            let before = old(b).deep_view();
            let after = final(b).deep_view();
            &&& after.lists.len() == before.lists.len() - 1
            &&& 0 <= k < before.cur ==> after.lists[k] == before.lists[k]
            &&& before.cur <= k < after.lists.len() ==> after.lists[k] == before.lists[k + 1]
            &&& before.cur < before.lists.len() - 1 ==> after.cur == before.cur
            &&& before.cur == before.lists.len() - 1 ==> after.cur == after.lists.len() - 1
            &&& after.mode == Mode::Items
            &&& after.wf()
            &&& r.deep_view() == paths::saved_current(data@, after.shown().title)
        }),
{
}

/// The file that goes with the shown list is the one that its title names.
pub proof fn law_file_to_delete(b: &Board, data: &[u8], r: Vec<u8>)
    requires
        b.deep_view().wf(),
        call_ensures(Board::delete_path, (b, data), r),
    ensures
        r@ == paths::list_path_of(data@, b.deep_view().lists[b.cur as int].title),
{
}

/// A list that is picked by its place is shown, and the box is for items then;
/// the lists stay, and what is written names it. A place without a list changes
/// nothing.
pub proof fn law_list_is_selected(b: &mut Board, i: usize, data: &[u8], r: Option<FileWrite>)
    requires
        call_ensures(Board::select_list, (b, i, data), r),
    ensures
        ({
            let before = old(b).deep_view();
            let after = final(b).deep_view();
            let there = i < before.lists.len();
            &&& after.lists == before.lists
            &&& r is Some <==> there
            &&& there ==> after.cur == i && after.mode == Mode::Items
            &&& there ==> r->0.deep_view() == paths::saved_current(
                data@,
                before.lists[i as int].title,
            )
            &&& !there ==> after == before
        }),
{
    if i < old(b).deep_view().lists.len() {
        assert(old(b).deep_view().lists[i as int] == old(b).lists@[i as int].deep_view());
    }
}

/// A pick of the switcher is the list at that place, the shown one or another;
/// behind the lists it is the new list, and behind that the deletion.
pub proof fn law_picks(b: &Board, picked: usize, r: Pick)
    requires
        call_ensures(Board::switcher_picked, (b, picked), r),
    ensures
        r == Pick::Same <==> picked < b.lists@.len() && picked == b.cur,
        picked < b.lists@.len() && picked != b.cur ==> r == Pick::List(picked),
        r == Pick::NewList <==> picked == b.lists@.len(),
        r == Pick::DeleteList <==> picked > b.lists@.len(),
{
}

/// The lists are read again where something else changed them, and never while a
/// name is typed or a deletion is asked for.
pub proof fn law_reload(mode: Mode, changed: bool, r: bool)
    requires
        call_ensures(board::should_reload, (mode, changed), r),
    ensures
        r ==> changed,
        r ==> mode != Mode::NamingList && mode != Mode::ConfirmDelete,
        changed && mode == Mode::Items ==> r,
{
}

/// A typed name that a list has already, as a file name, is that list; any other
/// makes an empty list without an identity, to be written under that name.
pub proof fn law_new_list(b: &Board, name: &str, data: &[u8], r: NewList, k: int)
    requires
        call_ensures(Board::create_list, (b, name, data), r),
    ensures
        ({
            let lists = b.deep_view().lists;
            let title = paths::safe(name@);
            let made = ListFileView { title, id: None, items: Seq::empty() };
            &&& apply_laws::first_titled(lists, title, k) ==> r is There && r->There_0 == k
            &&& apply_laws::none_titled(lists, title) ==> r is Write && r->list.deep_view() == made
                && r->write.deep_view() == paths::saved_list(data@, made)
        }),
{
    apply_laws::law_found_lists(b.deep_view().lists, paths::safe(name@), k);
}

/// A list that is taken in is shown, among the others in the order of titles,
/// and named in what is written; no other list is lost.
pub proof fn law_list_is_taken_in(b: &mut Board, list: ListFile, data: &[u8], r: FileWrite)
    requires
        call_ensures(Board::add_list, (b, list, data), r),
    ensures
        ({
            let before = old(b).deep_view();
            let after = final(b).deep_view();
            &&& lists::sorted_from(after.lists, before.lists.push(list.deep_view()))
            &&& 0 <= after.cur < after.lists.len()
            &&& after.shown().title == list.deep_view().title
            &&& after.mode == Mode::Items
            &&& r.deep_view() == paths::saved_current(data@, list.deep_view().title)
        }),
{
    list_tasks::lemma_titled(final(b).deep_view().lists, list.deep_view().title);
}

/// The box gets another purpose, and nothing else changes.
pub proof fn law_mode_is_set(b: &mut Board, mode: Mode)
    requires
        mode != Mode::ConfirmDelete || old(b).lists@.len() > 1,
        call_ensures(Board::set_mode, (b, mode), ()),
    ensures
        final(b).mode == mode,
        final(b).deep_view().lists == old(b).deep_view().lists,
        final(b).cur == old(b).cur,
{
}

/// What is shown of a board is the list at its place, and nothing before one is
/// read.
pub proof fn law_shown_list(b: &Board, items: &[Item], title: Option<String>)
    requires
        call_ensures(Board::items, (b,), items),
        call_ensures(Board::title, (b,), title),
    ensures
        b.cur < b.lists@.len() ==> items.deep_view() == b.deep_view().lists[b.cur as int].items
            && title.deep_view() == Some(b.deep_view().lists[b.cur as int].title),
        b.cur >= b.lists@.len() ==> items.deep_view().len() == 0 && title is None,
{
}

/// Reading the lists takes them as they were read, or makes the first one, and
/// shows the wanted one.
pub proof fn law_lists_are_read(
    b: &mut Board,
    lists: Vec<ListFile>,
    current: Option<String>,
    data: &[u8],
    r: Vec<FileWrite>,
    k: int,
)
    requires
        old(b).mode == Mode::Items,
        call_ensures(Board::load_from_disk, (b, lists, current, data), r),
    ensures
        ({
            let before = old(b).deep_view();
            let after = final(b).deep_view();
            let shown = if old(b).cur < old(b).lists@.len() {
                Some(before.lists[before.cur].title)
            } else {
                None
            };
            let wanted = if current is Some {
                current.deep_view()
            } else {
                shown
            };
            &&& after.wf()
            &&& after.mode == Mode::Items
            &&& lists@.len() > 0 ==> after.lists == lists.deep_view()
            &&& lists@.len() == 0 ==> after.lists == seq![
                ListFileView { title: "Tasks"@, id: None, items: Seq::empty() },
            ]
            &&& wanted is Some && apply_laws::first_titled(after.lists, wanted->0, k)
                ==> after.cur == k
            &&& wanted is None || apply_laws::none_titled(after.lists, wanted->0) ==> after.cur
                == 0
            &&& r.deep_view() == board::load_writes(lists.deep_view(), wanted, data@)
        }),
{
    let before = old(b).deep_view();
    let shown = if old(b).cur < old(b).lists@.len() {
        Some(before.lists[before.cur].title)
    } else {
        None
    };
    let wanted = if current is Some {
        current.deep_view()
    } else {
        shown
    };
    if old(b).cur < old(b).lists@.len() {
        assert(before.lists[before.cur] == old(b).lists@[old(b).cur as int].deep_view());
    }
    law_one_list_at_least(lists.deep_view());
    law_list_to_show(final(b).deep_view().lists, current.deep_view(), shown, k);
}

} // verus!
