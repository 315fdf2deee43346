//! What calendars are written as, line by line: new ones, and patched ones.
use vstd::prelude::*;

use crate::ical;
use crate::ical_laws;
use crate::reading;

verus! {

// ── Texts ─────────────────────────────────────────────────────────────────

/// Each line is written with a carriage return and a line feed behind it, and
/// no lines as these alone.
pub proof fn law_lines_are_written(lines: Seq<Seq<char>>, line: Seq<char>)
    ensures
        ical::crlf_text(Seq::empty()) == seq!['\r', '\n'],
        lines.len() > 0 ==> ical::crlf_text(lines.push(line)) == ical::crlf_text(lines) + line
            + seq!['\r', '\n'],
        lines.len() == 0 ==> ical::crlf_text(lines.push(line)) == line + seq!['\r', '\n'],
{
    assert(lines.push(line).drop_last() =~= lines);
    if lines.len() == 0 {
        assert(ical::crlf_lines(lines) =~= Seq::<char>::empty());
        assert(Seq::<char>::empty() + line =~= line);
    }
}

// ── Patches ───────────────────────────────────────────────────────────────

/// How deep the next line stands in an item: not at all before one begins and
/// once it has ended; just in it where it has begun; and one deeper with every
/// component that begins in it, until that ends.
pub proof fn law_depth_by_line(lines: Seq<Seq<char>>, line: Seq<char>)
    ensures
        ({
            let before = ical::depth(lines);
            let after = ical::depth(lines.push(line));
            let begins = reading::begins_item(line);
            let ends = reading::ends_item(line);
            let opens = ical::prop_name(line) == "BEGIN"@;
            let closes = ical::prop_name(line) == "END"@;
            &&& begins ==> after == Some(0nat)
            &&& ends ==> after is None
            &&& !begins && !ends && before is None ==> after is None
            &&& !begins && !ends && before is Some && opens ==> after == Some(before->0 + 1)
            &&& !begins && !ends && before is Some && closes && before->0 > 0 ==> after == Some(
                (before->0 - 1) as nat,
            )
            &&& !begins && !ends && before is Some && !opens && !(closes && before->0 > 0)
                ==> after == before
        }),
        ical::depth(Seq::empty()) is None,
{
    assert(lines.push(line).drop_last() =~= lines);
    ical_laws::lemma_names_differ();
}

/// A patch goes line by line: where an item ends it writes the summary and the
/// status, and for one that is done the time too; of the lines just in an item
/// it leaves out those that said so before; and every other line stays.
pub proof fn law_patch_by_line(
    lines: Seq<Seq<char>>,
    line: Seq<char>,
    summary: Seq<char>,
    done: bool,
    now: Seq<char>,
)
    ensures
        ({
            let before = ical::patched_lines(lines, summary, done, now);
            let after = ical::patched_lines(lines.push(line), summary, done, now);
            let name = ical::prop_name(line);
            let begins = reading::begins_item(line);
            let ends = reading::ends_item(line);
            let said = name == "SUMMARY"@ || name == "STATUS"@ || name == "PERCENT-COMPLETE"@
                || name == "COMPLETED"@;
            let says = if done {
                seq![
                    "SUMMARY:"@ + ical::escaped(summary),
                    "STATUS:COMPLETED"@,
                    "PERCENT-COMPLETE:100"@,
                    "COMPLETED:"@ + now,
                ]
            } else {
                seq![
                    "SUMMARY:"@ + ical::escaped(summary),
                    "STATUS:NEEDS-ACTION"@,
                    "PERCENT-COMPLETE:0"@,
                ]
            };
            let dropped = ical::depth(lines) == Some(0nat) && said;
            &&& ends ==> after == before + says + seq![line]
            &&& !ends && dropped ==> after == before
            &&& !ends && !dropped ==> after == before + seq![line]
        }),
        ical::patched_lines(Seq::empty(), summary, done, now).len() == 0,
        ical::patched(lines, summary, done, now) == ical::crlf_text(
            ical::patched_lines(lines, summary, done, now),
        ),
{
    assert(lines.push(line).drop_last() =~= lines);
    ical_laws::lemma_names_differ();
    let before = ical::patched_lines(lines, summary, done, now);
    let says = ical::rewritten(summary, done, now);
    assert(before + says.push(line) =~= before + says + seq![line]);
    assert(before + Seq::<Seq<char>>::empty() =~= before);
    if done {
        assert(says =~= seq![
            "SUMMARY:"@ + ical::escaped(summary),
            "STATUS:COMPLETED"@,
            "PERCENT-COMPLETE:100"@,
            "COMPLETED:"@ + now,
        ]);
    } else {
        assert(says =~= seq![
            "SUMMARY:"@ + ical::escaped(summary),
            "STATUS:NEEDS-ACTION"@,
            "PERCENT-COMPLETE:0"@,
        ]);
    }
}

// ── New calendars ─────────────────────────────────────────────────────────

/// A new calendar holds one item, with its identity, the moment at which it is
/// made, its summary and its status; one that is done was completed at that
/// moment.
pub proof fn law_new_calendar(uid: Seq<char>, summary: Seq<char>, done: bool, now: Seq<char>)
    ensures
        ({
            let lines = ical::new_lines(uid, summary, done, now);
            let n = lines.len();
            &&& lines.take(8) == seq![
                "BEGIN:VCALENDAR"@,
                "VERSION:2.0"@,
                "PRODID:-//cce//cce-list-sync//EN"@,
                "BEGIN:VTODO"@,
                "UID:"@ + uid,
                "DTSTAMP:"@ + now,
                "CREATED:"@ + now,
                "SUMMARY:"@ + ical::escaped(summary),
            ]
            &&& lines.subrange(n - 2, n as int) == seq!["END:VTODO"@, "END:VCALENDAR"@]
            &&& done ==> lines.subrange(8, n - 2) == seq![
                "STATUS:COMPLETED"@,
                "PERCENT-COMPLETE:100"@,
                "COMPLETED:"@ + now,
            ]
            &&& !done ==> lines.subrange(8, n - 2) == seq!["STATUS:NEEDS-ACTION"@]
        }),
{
    let lines = ical::new_lines(uid, summary, done, now);
    let n = lines.len() as int;
    assert(lines.take(8) =~= seq![
        "BEGIN:VCALENDAR"@,
        "VERSION:2.0"@,
        "PRODID:-//cce//cce-list-sync//EN"@,
        "BEGIN:VTODO"@,
        "UID:"@ + uid,
        "DTSTAMP:"@ + now,
        "CREATED:"@ + now,
        "SUMMARY:"@ + ical::escaped(summary),
    ]);
    assert(lines.subrange(n - 2, n) =~= seq!["END:VTODO"@, "END:VCALENDAR"@]);
    if done {
        assert(lines.subrange(8, n - 2) =~= seq![
            "STATUS:COMPLETED"@,
            "PERCENT-COMPLETE:100"@,
            "COMPLETED:"@ + now,
        ]);
    } else {
        assert(lines.subrange(8, n - 2) =~= seq!["STATUS:NEEDS-ACTION"@]);
    }
}

/// A character is a digit of a number in base sixteen.
pub open spec fn is_hex_digit(c: char, n: int) -> bool {
    0 <= n < 16 && c as u32 == if n < 10 {
        '0' as u32 + n
    } else {
        'A' as u32 + n - 10
    }
}

/// Bytes are written as two digits each, the higher one first.
pub proof fn law_hex(bytes: Seq<u8>, b: u8)
    ensures
        ical::hex(Seq::empty()).len() == 0,
        ical::hex(bytes.push(b)).len() == ical::hex(bytes).len() + 2,
        ical::hex(bytes.push(b)).take(ical::hex(bytes).len() as int) == ical::hex(bytes),
        is_hex_digit(ical::hex(bytes.push(b))[ical::hex(bytes).len() as int], b as int / 16),
        is_hex_digit(ical::hex(bytes.push(b))[ical::hex(bytes).len() as int + 1], b as int % 16),
{
    assert(bytes.push(b).drop_last() =~= bytes);
    let h = ical::hex(bytes);
    assert(ical::hex(bytes.push(b)).take(h.len() as int) =~= h);
}

/// A new identity is the name of the program, and then the drawn bytes in three
/// groups of four, four and eight.
pub proof fn law_new_uid(a: Seq<u8>, b: Seq<u8>, c: Seq<u8>)
    requires
        a.len() == 4,
        b.len() == 4,
        c.len() == 8,
    ensures
        ical::uid_of(a + b + c) == "CCE-"@ + ical::hex(a) + "-"@ + ical::hex(b) + "-"@ + ical::hex(
            c,
        ),
{
    let all = a + b + c;
    assert(all.subrange(0, 4) =~= a);
    assert(all.subrange(4, 8) =~= b);
    assert(all.subrange(8, 16) =~= c);
}

} // verus!
