//! Small lists of things to remember: plain markdown checklists on disk, and
//! their two-way sync with remote task lists.
//!
//! Lists are one file each under `lists/<title>.md`, readable and editable
//! with anything. A list that mirrors one of a server carries its identity in
//! a comment on its first line, `<!-- list:MDM5… -->`, and each mirrored item
//! in one at its end, `- [ ] call mom <!-- uid:ABC-123 -->`. Which list is
//! shown is named in a file `current` beside `lists/`, and what the sync needs
//! besides, the server's last synced state, is in `sync-state.json`.
//!
//! This library holds the rules: it reads and writes checklists, plans what a
//! sync does, reads what servers answer, and says what is to be asked and
//! written. Talking to servers, files and the screen is left to its callers.
pub mod account_laws;
pub mod accounts;
pub mod apply_laws;
pub mod board;
pub mod board_laws;
pub mod caldav;
pub mod calls;
pub mod file_laws;
pub mod found;
pub mod google;
pub mod ical;
pub mod ical_laws;
pub mod item_tasks;
pub mod json;
pub mod list_tasks;
pub mod lists;
pub mod local;
pub mod map;
pub mod markdown;
pub mod merge;
pub mod model;
pub mod moved;
pub mod ops;
pub mod order;
pub mod outside;
pub mod paths;
pub mod plan;
pub mod plan_laws;
pub mod reading;
pub mod remote;
pub mod report;
pub mod round_trip;
pub mod run;
pub mod run_laws;
pub mod seqs;
pub mod settled;
pub mod text;
pub mod text_laws;
pub mod titles;
pub mod writing;

pub use crate::lists::{load_lists, migrate_legacy, sort_lists};
pub use crate::markdown::{parse_items, parse_list, serialize_items, serialize_list};
pub use crate::model::{list_id_from_url, Item, ListFile, SyncState, SyncedItem, SyncedList};
pub use crate::paths::{
    current_path, data_dir, legacy_path, list_path, lists_dir, load_current, load_list,
    migrated_path, rename_list, safe_title, save_current, save_list, sync_state_path,
};
