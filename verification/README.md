# cce-list

Small lists of things to remember, kept as plain markdown checklists and synced
with Google Tasks or iCloud Reminders.

- `src/` is the verified library: the checklists and their round trips, the
  paths, the three-way merge, what each task of a sync does to the files and to
  the last synced state, iCalendar and CalDAV answers, the Google Tasks
  answers, the accounts, and what the window's clicks and entries do. Contracts
  are stated over plain values (`Seq<char>` for texts, `Map` for the maps) and
  proved by Verus. `outside.rs` and `text.rs` hold the few items whose contracts
  are believed: URLs, XML documents, JSON, the clock, quoted and lower-case text,
  and `String::push`.
- `tests/` runs the library on concrete values.
- `app/` is the program around it: files, the network, the keyring and the
  window. It is not verified.

Properties that span functions are public proof functions named `law_..`, for
example:

- a checklist reads back as it was written (`round_trip.rs`);
- a patched calendar keeps every line but those of the item's own summary and
  completion, the lines of its alarms included, where each alarm ends before its
  item does; and every stretch of lines without such a line and without an
  item's end stays whole in any case (`ical_laws.rs`);
- the files win where both sides changed, and lists of other accounts are left
  alone (`plan_laws.rs`);
- after a run over the items of a list in which the server did all that it was
  asked for and gave new names, and in which no identity stands on two rows, the
  next run finds nothing to do in the list (`settled.rs`). Where rows were moved
  from one list to another the same holds of both lists, under the conditions
  that the law names (`moved.rs`).
