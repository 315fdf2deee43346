//! What a server holds: its lists and their items, whichever server it is.
use vstd::prelude::*;

use crate::map::{Copied, OrdMap};

verus! {

/// A list on a server.
#[derive(Debug)]
pub struct RemoteList {
    pub title: String,
    pub etag: String,
    /// The URL at which a new item of the list is created.
    pub create_target: String,
}

/// A server's list as plain values.
pub struct RemoteListView {
    pub title: Seq<char>,
    pub etag: Seq<char>,
    pub create_target: Seq<char>,
}

impl DeepView for RemoteList {
    type V = RemoteListView;

    open spec fn deep_view(&self) -> RemoteListView {
        RemoteListView {
            title: self.title@,
            etag: self.etag@,
            create_target: self.create_target@,
        }
    }
}

impl Clone for RemoteList {
    fn clone(&self) -> (r: RemoteList)
        ensures
            r.deep_view() == self.deep_view(),
    {
        RemoteList {
            title: self.title.clone(),
            etag: self.etag.clone(),
            create_target: self.create_target.clone(),
        }
    }
}

impl Copied for RemoteList {
    fn copied(&self) -> (r: RemoteList) {
        self.clone()
    }
}

/// An item on a server.
#[derive(Debug)]
pub struct RemoteTodo {
    /// The item's own URL.
    pub url: String,
    pub etag: String,
    pub summary: String,
    pub done: bool,
    /// The logical lines of the calendar that holds the item, to be patched
    /// and written back; empty where the server knows no calendars.
    pub lines: Vec<String>,
    /// The identity of the list that the item lives in.
    pub list: String,
}

/// A server's item as plain values.
pub struct RemoteTodoView {
    pub url: Seq<char>,
    pub etag: Seq<char>,
    pub summary: Seq<char>,
    pub done: bool,
    pub lines: Seq<Seq<char>>,
    pub list: Seq<char>,
}

impl DeepView for RemoteTodo {
    type V = RemoteTodoView;

    open spec fn deep_view(&self) -> RemoteTodoView {
        RemoteTodoView {
            url: self.url@,
            etag: self.etag@,
            summary: self.summary@,
            done: self.done,
            lines: self.lines.deep_view(),
            list: self.list@,
        }
    }
}

/// A copy of some texts.
pub fn copy_texts(v: &Vec<String>) -> (r: Vec<String>)
    ensures
        r.deep_view() == v.deep_view(),
{
    let mut out: Vec<String> = Vec::new();
    for i in 0..v.len()
        invariant
            out.deep_view() == v.deep_view().take(i as int),
    {
        let ghost had = out.deep_view();
        out.push(v[i].clone());
        assert(out.deep_view() =~= had.push(v@[i as int]@));
    }
    out
}

impl Clone for RemoteTodo {
    fn clone(&self) -> (r: RemoteTodo)
        ensures
            r.deep_view() == self.deep_view(),
    {
        RemoteTodo {
            url: self.url.clone(),
            etag: self.etag.clone(),
            summary: self.summary.clone(),
            done: self.done,
            lines: copy_texts(&self.lines),
            list: self.list.clone(),
        }
    }
}

impl Copied for RemoteTodo {
    fn copied(&self) -> (r: RemoteTodo) {
        self.clone()
    }
}

/// Everything a server holds of one account: lists by their identities, and
/// items by theirs.
pub struct RemoteSnapshot {
    pub lists: OrdMap<RemoteList>,
    pub todos: OrdMap<RemoteTodo>,
}

} // verus!
