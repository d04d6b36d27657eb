//! A reply that was written can be read: it gives back the UID of the
//! event and says that it is a reply.

use crate::calendar::{
    event_block, event_of, property, property_from, property_on, reply_of, reply_tail, reply_text,
    stamp, time_from, time_of, time_on, time_property, unfold,
};
use crate::text::{after, contains, find, has_prefix, lemma_find_from, lines, occurs_at, replace};
use crate::text_laws::{
    crlf, is_fold_mark, lemma_contains_after, lemma_find_past_line, lemma_lines_first,
    lemma_no_occurrence, lemma_occurs_chars, lemma_trim_is_identity, lemma_unfold_keeps_line,
    lemma_unfold_keeps_start, line_then, plain,
};
use crate::types::{CalendarEventView, DateTime};
use vstd::prelude::*;

verus! {

/// A text that can stand as a value on one line of an event: it has no
/// line break and does not hold the line that closes the event.
pub open spec fn fits_one_line(x: Seq<char>) -> bool {
    plain(x) && !contains(x, "END:VEVENT"@)
}

/// Whether the text that is written for a start time fits one line and is
/// read as a time again.
pub open spec fn reads_back(t: DateTime) -> bool {
    match stamp(t) {
        Some(s) => fits_one_line(s) && time_of(seq![':'] + s, s) is Some,
        None => false,
    }
}

/// The three lines at the head of an event block, and what follows them.
spec fn block_of(uid_line: Seq<char>, start_line: Seq<char>, rest: Seq<char>) -> Seq<char> {
    line_then("BEGIN:VEVENT"@, line_then(uid_line, line_then(start_line, rest)))
}

/// A line that begins with a name which holds no `E` does not hold the
/// closing line of an event unless its value does.
proof fn lemma_named_line_fits(name: Seq<char>, value: Seq<char>)
    requires
        forall|i: int| 0 <= i < name.len() ==> name[i] != 'E',
        plain(name),
        fits_one_line(value),
    ensures
        fits_one_line(name + value),
{
    reveal_strlit("END:VEVENT");
    let n = "END:VEVENT"@;
    let l = name + value;
    lemma_find_from(value, n, 0);
    assert forall|p: int| 0 <= p implies !occurs_at(l, n, p) by {
        if occurs_at(l, n, p) {
            lemma_occurs_chars(l, n, p, 0);
            if p < name.len() {
                assert(l[p] == name[p]);
            } else {
                assert(l.subrange(p, p + n.len()) =~= value.subrange(
                    p - name.len(),
                    p - name.len() + n.len(),
                ));
                assert(occurs_at(value, n, p - name.len()));
            }
        }
    }
    lemma_no_occurrence(l, n);
    assert forall|i: int| 0 <= i < l.len() implies #[trigger] l[i] != '\r' && l[i] != '\n' by {
        if i < name.len() {
            assert(l[i] == name[i]);
        } else {
            assert(l[i] == value[i - name.len()]);
        }
    }
}

/// A literal line holds the closing line of an event nowhere if none of
/// its places begins `END:`.
proof fn lemma_line_without_end(l: Seq<char>)
    requires
        forall|p: int|
            0 <= p && p + 4 <= l.len() ==> !(#[trigger] l[p] == 'E' && l[p + 1] == 'N' && l[p + 2]
                == 'D' && l[p + 3] == ':'),
    ensures
        !contains(l, "END:VEVENT"@),
{
    reveal_strlit("END:VEVENT");
    let n = "END:VEVENT"@;
    assert forall|p: int| 0 <= p implies !occurs_at(l, n, p) by {
        if occurs_at(l, n, p) {
            lemma_occurs_chars(l, n, p, 0);
            lemma_occurs_chars(l, n, p, 1);
            lemma_occurs_chars(l, n, p, 2);
            lemma_occurs_chars(l, n, p, 3);
        }
    }
    lemma_no_occurrence(l, n);
}

/// A literal line holds the opening line of an event nowhere if none of
/// its places begins `BEGIN:VE`.
proof fn lemma_line_without_begin(l: Seq<char>)
    requires
        forall|p: int|
            0 <= p && p + 8 <= l.len() ==> !(#[trigger] l[p] == 'B' && l[p + 7] == 'E'),
    ensures
        !contains(l, "BEGIN:VEVENT"@),
{
    reveal_strlit("BEGIN:VEVENT");
    let n = "BEGIN:VEVENT"@;
    assert forall|p: int| 0 <= p implies !occurs_at(l, n, p) by {
        if occurs_at(l, n, p) {
            lemma_occurs_chars(l, n, p, 0);
            lemma_occurs_chars(l, n, p, 7);
        }
    }
    lemma_no_occurrence(l, n);
}

/// What is known of the fixed lines of a reply.
proof fn lemma_fixed_lines()
    ensures
        plain("BEGIN:VCALENDAR"@),
        plain("VERSION:2.0"@),
        plain("PRODID:-//Supervillain//EN"@),
        plain("METHOD:REPLY"@),
        plain("BEGIN:VEVENT"@),
        plain("END:VEVENT"@),
        !contains("BEGIN:VCALENDAR"@, "END:VEVENT"@),
        !contains("VERSION:2.0"@, "END:VEVENT"@),
        !contains("PRODID:-//Supervillain//EN"@, "END:VEVENT"@),
        !contains("METHOD:REPLY"@, "END:VEVENT"@),
        !contains("BEGIN:VEVENT"@, "END:VEVENT"@),
        !contains("BEGIN:VCALENDAR"@, "BEGIN:VEVENT"@),
        !contains("VERSION:2.0"@, "BEGIN:VEVENT"@),
        !contains("PRODID:-//Supervillain//EN"@, "BEGIN:VEVENT"@),
        !contains("METHOD:REPLY"@, "BEGIN:VEVENT"@),
{
    reveal_strlit("BEGIN:VCALENDAR");
    reveal_strlit("VERSION:2.0");
    reveal_strlit("PRODID:-//Supervillain//EN");
    reveal_strlit("METHOD:REPLY");
    reveal_strlit("BEGIN:VEVENT");
    reveal_strlit("END:VEVENT");
    lemma_line_without_end("BEGIN:VCALENDAR"@);
    lemma_line_without_end("VERSION:2.0"@);
    lemma_line_without_end("PRODID:-//Supervillain//EN"@);
    lemma_line_without_end("METHOD:REPLY"@);
    lemma_line_without_end("BEGIN:VEVENT"@);
    lemma_line_without_begin("BEGIN:VCALENDAR"@);
    lemma_line_without_begin("VERSION:2.0"@);
    lemma_line_without_begin("PRODID:-//Supervillain//EN"@);
    lemma_line_without_begin("METHOD:REPLY"@);
}

/// What is known of the lines of a reply that follow its start time: they
/// begin with a letter, end with a letter, and hold the line that closes
/// the event.
proof fn lemma_tail(
    event: CalendarEventView,
    attendee: Seq<char>,
    status: Seq<char>,
    end: Option<Seq<char>>,
)
    ensures
        reply_tail(event, attendee, status, end).len() > 0,
        reply_tail(event, attendee, status, end)[0] == 'D' || reply_tail(
            event,
            attendee,
            status,
            end,
        )[0] == 'S',
        reply_tail(event, attendee, status, end).last() == 'R',
        contains(reply_tail(event, attendee, status, end), "END:VEVENT"@),
{
    reveal_strlit("DTEND:");
    reveal_strlit("SUMMARY:");
    reveal_strlit("END:VCALENDAR");
    let tail = reply_tail(event, attendee, status, end);
    let closing = line_then("END:VEVENT"@, "END:VCALENDAR"@);
    let before_closing = (match end {
        Some(e) => "DTEND:"@ + e + crlf(),
        None => Seq::<char>::empty(),
    }) + ("SUMMARY:"@ + event.summary + crlf()) + (("ORGANIZER"@ + crate::calendar::cn_parameter(
        event.organizer_name,
    ) + ":mailto:"@ + event.organizer_email) + crlf()) + (("ATTENDEE"@
        + crate::calendar::cn_parameter(crate::calendar::invited_name(event.attendees, attendee))
        + ";PARTSTAT="@ + status + ":mailto:"@ + attendee) + crlf()) + (("SEQUENCE:"@
        + crate::number::decimal(event.sequence)) + crlf());
    assert(tail =~= before_closing + "END:VEVENT"@ + (crlf() + "END:VCALENDAR"@));
    lemma_contains_after(before_closing, "END:VEVENT"@, crlf() + "END:VCALENDAR"@);
    assert(tail.last() == "END:VCALENDAR"@["END:VCALENDAR"@.len() - 1]);
    match end {
        Some(e) => {
            assert(tail[0] == "DTEND:"@[0]);
        },
        None => {
            assert(tail[0] == "SUMMARY:"@[0]);
        },
    }
}

/// Removing one kind of fold mark leaves the head of an event block alone.
proof fn lemma_unfold_block_once(
    uid_line: Seq<char>,
    start_line: Seq<char>,
    rest: Seq<char>,
    from: Seq<char>,
)
    requires
        plain(uid_line),
        plain(start_line),
        uid_line.len() > 0,
        uid_line[0] == 'U',
        start_line.len() > 0,
        start_line[0] == 'D',
        rest.len() > 0,
        rest[0] == 'D' || rest[0] == 'S',
        is_fold_mark(from),
    ensures
        replace(block_of(uid_line, start_line, rest), from, Seq::empty()) == block_of(
            uid_line,
            start_line,
            replace(rest, from, Seq::empty()),
        ),
        replace(rest, from, Seq::empty()).len() > 0,
        replace(rest, from, Seq::empty())[0] == rest[0],
{
    lemma_fixed_lines();
    let none = Seq::<char>::empty();
    let b2 = line_then(start_line, rest);
    let b1 = line_then(uid_line, b2);
    assert(b2[0] == start_line[0]);
    assert(b1[0] == uid_line[0]);
    lemma_unfold_keeps_line("BEGIN:VEVENT"@, b1, from);
    lemma_unfold_keeps_line(uid_line, b2, from);
    lemma_unfold_keeps_line(start_line, rest, from);
    lemma_unfold_keeps_start(rest, from);
}

/// Unfolding leaves the head of an event block alone.
proof fn lemma_unfold_block(uid_line: Seq<char>, start_line: Seq<char>, rest: Seq<char>) -> (after_unfold:
    Seq<char>)
    requires
        plain(uid_line),
        plain(start_line),
        uid_line.len() > 0,
        uid_line[0] == 'U',
        start_line.len() > 0,
        start_line[0] == 'D',
        rest.len() > 0,
        rest[0] == 'D' || rest[0] == 'S',
    ensures
        unfold(block_of(uid_line, start_line, rest)) == block_of(
            uid_line,
            start_line,
            after_unfold,
        ),
{
    reveal_strlit("\r\n ");
    reveal_strlit("\r\n\t");
    reveal_strlit("\n ");
    reveal_strlit("\n\t");
    let none = Seq::<char>::empty();
    assert("\r\n "@ =~= seq!['\r', '\n', ' ']);
    assert("\r\n\t"@ =~= seq!['\r', '\n', '\t']);
    assert("\n "@ =~= seq!['\n', ' ']);
    assert("\n\t"@ =~= seq!['\n', '\t']);
    let r1 = replace(rest, "\r\n "@, none);
    lemma_unfold_block_once(uid_line, start_line, rest, "\r\n "@);
    let r2 = replace(r1, "\r\n\t"@, none);
    lemma_unfold_block_once(uid_line, start_line, r1, "\r\n\t"@);
    let r3 = replace(r2, "\n "@, none);
    lemma_unfold_block_once(uid_line, start_line, r2, "\n "@);
    let r4 = replace(r3, "\n\t"@, none);
    lemma_unfold_block_once(uid_line, start_line, r3, "\n\t"@);
    r4
}

/// The UID and the start time of an event block are read from its second
/// and third line.
proof fn lemma_read_block(uid: Seq<char>, start: Seq<char>, rest: Seq<char>)
    requires
        plain(uid),
        plain(start),
    ensures
        property(lines(block_of("UID:"@ + uid, "DTSTART:"@ + start, rest)), "UID"@) == Some(uid),
        time_property(lines(block_of("UID:"@ + uid, "DTSTART:"@ + start, rest)), "DTSTART"@)
            == time_of(seq![':'] + start, start),
{
    reveal_strlit("BEGIN:VEVENT");
    reveal_strlit("UID:");
    reveal_strlit("DTSTART:");
    reveal_strlit("UID");
    reveal_strlit("DTSTART");
    lemma_fixed_lines();
    let uid_line = "UID:"@ + uid;
    let start_line = "DTSTART:"@ + start;
    assert(plain(uid_line)) by {
        assert forall|i: int| 0 <= i < uid_line.len() implies #[trigger] uid_line[i] != '\r'
            && uid_line[i] != '\n' by {
            if i >= 4 {
                assert(uid_line[i] == uid[i - 4]);
            }
        }
    }
    assert(plain(start_line)) by {
        assert forall|i: int| 0 <= i < start_line.len() implies #[trigger] start_line[i] != '\r'
            && start_line[i] != '\n' by {
            if i >= 8 {
                assert(start_line[i] == start[i - 8]);
            }
        }
    }
    let b2 = line_then(start_line, rest);
    let b1 = line_then(uid_line, b2);
    lemma_lines_first("BEGIN:VEVENT"@, b1);
    lemma_lines_first(uid_line, b2);
    lemma_lines_first(start_line, rest);
    let all = lines(block_of(uid_line, start_line, rest));
    assert(all =~= seq!["BEGIN:VEVENT"@, uid_line, start_line] + lines(rest));
    assert(all[0] == "BEGIN:VEVENT"@);
    assert(all[1] == uid_line);
    assert(all[2] == start_line);

    // the UID
    assert(!has_prefix(all[0], "UID"@)) by {
        if has_prefix(all[0], "UID"@) {
            lemma_occurs_chars(all[0], "UID"@, 0, 0);
        }
    }
    assert(property_on(all[0], "UID"@) is None);
    assert(uid_line.subrange(0, 3) =~= "UID"@);
    assert(has_prefix(uid_line, "UID"@));
    assert(after(uid_line, 3) =~= seq![':'] + uid);
    assert(after(seq![':'] + uid, 1) =~= uid);
    assert(property_on(all[1], "UID"@) == Some(uid));
    assert(property_from(all, "UID"@, 1) == Some(uid));
    assert(property_from(all, "UID"@, 0) == Some(uid));

    // the start time
    assert(!has_prefix(all[0], "DTSTART"@)) by {
        if has_prefix(all[0], "DTSTART"@) {
            lemma_occurs_chars(all[0], "DTSTART"@, 0, 0);
        }
    }
    assert(!has_prefix(all[1], "DTSTART"@)) by {
        if has_prefix(all[1], "DTSTART"@) {
            lemma_occurs_chars(all[1], "DTSTART"@, 0, 0);
        }
    }
    assert(time_on(all[0], "DTSTART"@) is None);
    assert(time_on(all[1], "DTSTART"@) is None);
    assert(start_line.subrange(0, 7) =~= "DTSTART"@);
    assert(has_prefix(start_line, "DTSTART"@));
    assert(after(start_line, 7) =~= seq![':'] + start);
    assert(after(seq![':'] + start, 1) =~= start);
    assert(time_on(all[2], "DTSTART"@) == Some(time_of(seq![':'] + start, start)));
    assert(time_from(all, "DTSTART"@, 2) == time_of(seq![':'] + start, start));
    assert(time_from(all, "DTSTART"@, 1) == time_of(seq![':'] + start, start));
    assert(time_from(all, "DTSTART"@, 0) == time_of(seq![':'] + start, start));
}

/// The method of a reply is read from its fourth line.
proof fn lemma_read_method(rest: Seq<char>)
    ensures
        property(
            lines(
                line_then(
                    "BEGIN:VCALENDAR"@,
                    line_then(
                        "VERSION:2.0"@,
                        line_then("PRODID:-//Supervillain//EN"@, line_then("METHOD:REPLY"@, rest)),
                    ),
                ),
            ),
            "METHOD"@,
        ) == Some("REPLY"@),
{
    reveal_strlit("BEGIN:VCALENDAR");
    reveal_strlit("VERSION:2.0");
    reveal_strlit("PRODID:-//Supervillain//EN");
    reveal_strlit("METHOD:REPLY");
    reveal_strlit("METHOD");
    reveal_strlit("REPLY");
    lemma_fixed_lines();
    let r3 = line_then("METHOD:REPLY"@, rest);
    let r2 = line_then("PRODID:-//Supervillain//EN"@, r3);
    let r1 = line_then("VERSION:2.0"@, r2);
    let g = line_then("BEGIN:VCALENDAR"@, r1);
    lemma_lines_first("BEGIN:VCALENDAR"@, r1);
    lemma_lines_first("VERSION:2.0"@, r2);
    lemma_lines_first("PRODID:-//Supervillain//EN"@, r3);
    lemma_lines_first("METHOD:REPLY"@, rest);
    let all = lines(g);
    assert(all =~= seq![
        "BEGIN:VCALENDAR"@,
        "VERSION:2.0"@,
        "PRODID:-//Supervillain//EN"@,
        "METHOD:REPLY"@,
    ] + lines(rest));
    assert(all[0] == "BEGIN:VCALENDAR"@);
    assert(all[1] == "VERSION:2.0"@);
    assert(all[2] == "PRODID:-//Supervillain//EN"@);
    assert(all[3] == "METHOD:REPLY"@);
    assert(!has_prefix(all[0], "METHOD"@)) by {
        if has_prefix(all[0], "METHOD"@) {
            lemma_occurs_chars(all[0], "METHOD"@, 0, 0);
        }
    }
    assert(!has_prefix(all[1], "METHOD"@)) by {
        if has_prefix(all[1], "METHOD"@) {
            lemma_occurs_chars(all[1], "METHOD"@, 0, 0);
        }
    }
    assert(!has_prefix(all[2], "METHOD"@)) by {
        if has_prefix(all[2], "METHOD"@) {
            lemma_occurs_chars(all[2], "METHOD"@, 0, 0);
        }
    }
    assert("METHOD:REPLY"@.subrange(0, 6) =~= "METHOD"@);
    assert(after("METHOD:REPLY"@, 6) =~= seq![':'] + "REPLY"@);
    assert(after(seq![':'] + "REPLY"@, 1) =~= "REPLY"@);
    assert(property_on(all[3], "METHOD"@) == Some("REPLY"@));
    assert(property_on(all[0], "METHOD"@) is None);
    assert(property_on(all[1], "METHOD"@) is None);
    assert(property_on(all[2], "METHOD"@) is None);
    assert(property_from(all, "METHOD"@, 3) == Some("REPLY"@));
    assert(property_from(all, "METHOD"@, 2) == Some("REPLY"@));
    assert(property_from(all, "METHOD"@, 1) == Some("REPLY"@));
    assert(property_from(all, "METHOD"@, 0) == Some("REPLY"@));
}

/// The event block of a reply: its head as it was written, and some
/// beginning of what follows the start time.
proof fn lemma_reply_block(uid: Seq<char>, start: Seq<char>, tail: Seq<char>) -> (rest: Seq<char>)
    requires
        fits_one_line(uid),
        fits_one_line(start),
        tail.len() > 0,
        contains(tail, "END:VEVENT"@),
    ensures
        event_block(
            line_then(
                "BEGIN:VCALENDAR"@,
                line_then(
                    "VERSION:2.0"@,
                    line_then(
                        "PRODID:-//Supervillain//EN"@,
                        line_then(
                            "METHOD:REPLY"@,
                            line_then(
                                "BEGIN:VEVENT"@,
                                line_then(
                                    "UID:"@ + uid,
                                    line_then("DTSTART:"@ + start, tail),
                                ),
                            ),
                        ),
                    ),
                ),
            ),
        ) == Some(block_of("UID:"@ + uid, "DTSTART:"@ + start, rest)),
        rest.len() > 0,
        rest[0] == tail[0],
{
    reveal_strlit("BEGIN:VCALENDAR");
    reveal_strlit("VERSION:2.0");
    reveal_strlit("PRODID:-//Supervillain//EN");
    reveal_strlit("METHOD:REPLY");
    reveal_strlit("BEGIN:VEVENT");
    reveal_strlit("END:VEVENT");
    reveal_strlit("UID:");
    reveal_strlit("DTSTART:");
    lemma_fixed_lines();
    let begin = "BEGIN:VEVENT"@;
    let close = "END:VEVENT"@;
    let uid_line = "UID:"@ + uid;
    let start_line = "DTSTART:"@ + start;
    lemma_named_line_fits("UID:"@, uid);
    lemma_named_line_fits("DTSTART:"@, start);
    let r6 = line_then(start_line, tail);
    let r5 = line_then(uid_line, r6);
    let r4 = line_then(begin, r5);
    let r3 = line_then("METHOD:REPLY"@, r4);
    let r2 = line_then("PRODID:-//Supervillain//EN"@, r3);
    let r1 = line_then("VERSION:2.0"@, r2);
    let g = line_then("BEGIN:VCALENDAR"@, r1);

    // where the block begins
    assert(r4.subrange(0, 12) =~= begin);
    assert(find(r4, begin) == Some(0int));
    lemma_find_past_line("METHOD:REPLY"@, r4, begin);
    lemma_find_past_line("PRODID:-//Supervillain//EN"@, r3, begin);
    lemma_find_past_line("VERSION:2.0"@, r2, begin);
    lemma_find_past_line("BEGIN:VCALENDAR"@, r1, begin);
    let first = 72int;
    assert(find(g, begin) == Some(first));

    // where the block ends
    lemma_find_from(tail, close, 0);
    let t = find(tail, close)->0;
    lemma_find_past_line(start_line, tail, close);
    lemma_find_past_line(uid_line, r6, close);
    lemma_find_past_line(begin, r5, close);
    lemma_find_past_line("METHOD:REPLY"@, r4, close);
    lemma_find_past_line("PRODID:-//Supervillain//EN"@, r3, close);
    lemma_find_past_line("VERSION:2.0"@, r2, close);
    lemma_find_past_line("BEGIN:VCALENDAR"@, r1, close);
    let head_len = first + 14 + (uid_line.len() + 2) + (start_line.len() + 2);
    assert(find(g, close) == Some(t + head_len));
    assert(g.len() == head_len + tail.len());

    let rest = tail.subrange(0, t + 10);
    assert(g.subrange(first, t + head_len + 10) =~= block_of(uid_line, start_line, rest));
    rest
}

/// A reply that was written for an event is read as an event with the UID
/// of that event and the method `REPLY`, and its start is the time that is
/// read from the text written for the start of the event. This holds where
/// the UID fits one line, and where the text written for the start time
/// fits one line and is read as a time again.
pub proof fn law_reply_reads_back(event: CalendarEventView, attendee: Seq<char>, status: Seq<char>)
    requires
        fits_one_line(event.uid),
        reads_back(event.dtstart),
        reply_of(event, attendee, status) is Some,
    ensures
        event_of(reply_of(event, attendee, status)->0) is Some,
        event_of(reply_of(event, attendee, status)->0)->0.uid == event.uid,
        event_of(reply_of(event, attendee, status)->0)->0.method == "REPLY"@,
        Some(event_of(reply_of(event, attendee, status)->0)->0.dtstart) == time_of(
            seq![':'] + stamp(event.dtstart)->0,
            stamp(event.dtstart)->0,
        ),
{
    reveal_strlit("BEGIN:VCALENDAR");
    reveal_strlit("UID:");
    reveal_strlit("DTSTART:");
    let start = stamp(event.dtstart)->0;
    let end = match event.dtend {
        Some(t) => stamp(t),
        None => None,
    };
    let tail = reply_tail(event, attendee, status, end);
    let g = reply_text(event, attendee, status, start, end);
    assert(reply_of(event, attendee, status) == Some(g));
    lemma_tail(event, attendee, status, end);

    // the text is its own trimmed form
    assert(g[0] == "BEGIN:VCALENDAR"@[0]);
    assert(g.last() == tail.last());
    lemma_trim_is_identity(g);

    // it names a calendar
    assert(g.subrange(0, 15) =~= "BEGIN:VCALENDAR"@);
    assert(find(g, "BEGIN:VCALENDAR"@) == Some(0int));

    // its method
    lemma_read_method(
        line_then(
            "BEGIN:VEVENT"@,
            line_then("UID:"@ + event.uid, line_then("DTSTART:"@ + start, tail)),
        ),
    );

    // its event block
    let rest = lemma_reply_block(event.uid, start, tail);
    let uid_line = "UID:"@ + event.uid;
    let start_line = "DTSTART:"@ + start;
    lemma_named_line_fits("UID:"@, event.uid);
    lemma_named_line_fits("DTSTART:"@, start);
    assert(uid_line[0] == "UID:"@[0]);
    assert(start_line[0] == "DTSTART:"@[0]);
    let unfolded_rest = lemma_unfold_block(uid_line, start_line, rest);
    lemma_read_block(event.uid, start, unfolded_rest);
}

} // verus!
