//! Calendar invitations: reading an event from calendar text, writing the
//! reply to an invitation, and recording an attendee's answer in a copy of
//! the invitation.

use crate::clock::{
    chrono_date, chrono_date_time, chrono_stamp, format_date_time, parse_date, parse_date_time,
};
use crate::number::{decimal, format_i64, parse_bounded, parse_i32};
use crate::text::{
    after, ascii_lower, before, chars_of, contains, eq_ignore_ascii_case, eq_ignore_case, find,
    find_char, find_char_in, find_first, has_prefix, has_substring, join, joined, lines, pieces,
    push_all, push_str, replace, replaced, rest_from, run_until_any, split_lines, split_pieces,
    starts_with, string_of, texts, to_ascii_lower, to_vec, trim, trim_end_char, trimmed,
    trimmed_end_char, until_any, up_to,
};
use crate::text_laws::{crlf, line_then};
use crate::types::{
    opt_text, views, Attendee, AttendeeView, CalendarEvent, CalendarEventView, DateTime,
};
use vstd::prelude::*;

verus! {

// ---------------------------------------------------------------------------
// Lines and properties
// ---------------------------------------------------------------------------

/// A text with its folded lines joined: a line break that is followed by a
/// space or a tab continues the line before it.
pub open spec fn unfold(s: Seq<char>) -> Seq<char> {
    replace(
        replace(
            replace(replace(s, "\r\n "@, Seq::empty()), "\r\n\t"@, Seq::empty()),
            "\n "@,
            Seq::empty(),
        ),
        "\n\t"@,
        Seq::empty(),
    )
}

/// Joins the folded lines of a text.
pub fn unfold_lines(s: &[char]) -> (r: Vec<char>)
    ensures
        r@ == unfold(s@),
{
    let none: Vec<char> = Vec::new();
    let a = replaced(s, chars_of("\r\n ").as_slice(), none.as_slice());
    let b = replaced(a.as_slice(), chars_of("\r\n\t").as_slice(), none.as_slice());
    let c = replaced(b.as_slice(), chars_of("\n ").as_slice(), none.as_slice());
    replaced(c.as_slice(), chars_of("\n\t").as_slice(), none.as_slice())
}

/// What follows the name of a property on its line counts as the value
/// after the first colon, if the name is followed by a colon at once or by
/// a semicolon and parameters.
pub open spec fn value_after_name(rest: Seq<char>) -> Option<Seq<char>> {
    if rest.len() > 0 && rest[0] == ':' {
        Some(after(rest, 1))
    } else if rest.len() > 0 && rest[0] == ';' {
        match find_char(rest, ':') {
            Some(i) => Some(after(rest, i + 1)),
            None => None,
        }
    } else {
        None
    }
}

/// The value of the property `name` on a line, if the line holds it.
pub open spec fn property_on(line: Seq<char>, name: Seq<char>) -> Option<Seq<char>> {
    if has_prefix(line, name) {
        value_after_name(after(line, name.len() as int))
    } else {
        None
    }
}

/// The value of the first line at or after `from` that holds `name`.
pub open spec fn property_from(all: Seq<Seq<char>>, name: Seq<char>, from: int) -> Option<
    Seq<char>,
>
    decreases all.len() - from,
{
    if from < 0 || from >= all.len() {
        None
    } else {
        match property_on(all[from], name) {
            Some(v) => Some(v),
            None => property_from(all, name, from + 1),
        }
    }
}

/// The value of the property `name` in a list of lines.
pub open spec fn property(all: Seq<Seq<char>>, name: Seq<char>) -> Option<Seq<char>> {
    property_from(all, name, 0)
}

fn read_value_after_name<'a>(rest: &'a [char]) -> (r: Option<&'a [char]>)
    ensures
        match r {
            Some(v) => value_after_name(rest@) == Some(v@),
            None => value_after_name(rest@) is None,
        },
{
    if rest.len() > 0 && rest[0] == ':' {
        Some(rest_from(rest, 1))
    } else if rest.len() > 0 && rest[0] == ';' {
        match find_char_in(rest, ':') {
            Some(i) => Some(rest_from(rest, i + 1)),
            None => None,
        }
    } else {
        None
    }
}

fn read_property_on<'a>(line: &'a [char], name: &[char]) -> (r: Option<&'a [char]>)
    ensures
        match r {
            Some(v) => property_on(line@, name@) == Some(v@),
            None => property_on(line@, name@) is None,
        },
{
    if starts_with(line, name) {
        read_value_after_name(rest_from(line, name.len()))
    } else {
        None
    }
}

/// Finds the value of the property `name` in a list of lines.
pub fn extract_property(all: &Vec<Vec<char>>, name: &str) -> (r: Option<String>)
    ensures
        opt_text(r) == property(texts(all@), name@),
{
    let wanted = chars_of(name);
    let mut i: usize = 0;
    while i < all.len()
        invariant
            i <= all@.len(),
            wanted@ == name@,
            property(texts(all@), name@) == property_from(texts(all@), name@, i as int),
        decreases all@.len() - i,
    {
        proof {
            assert(texts(all@)[i as int] == all@[i as int]@);
        }
        match read_property_on(all[i].as_slice(), wanted.as_slice()) {
            Some(v) => {
                return Some(string_of(v));
            },
            None => {},
        }
        i += 1;
    }
    None
}

// ---------------------------------------------------------------------------
// Times
// ---------------------------------------------------------------------------

/// Whether a time is written as a date alone: its parameters say
/// `VALUE=DATE`, or its value has the eight characters of a date.
pub open spec fn is_date_only(rest: Seq<char>, value: Seq<char>) -> bool {
    (contains(rest, "VALUE=DATE"@) && !contains(rest, "VALUE=DATE-TIME"@)) || value.len() == 8
}

/// The instant that the value of a time property denotes. A date alone is
/// the first instant of its day.
pub open spec fn time_of(rest: Seq<char>, value: Seq<char>) -> Option<DateTime> {
    if is_date_only(rest, value) {
        match chrono_date(trim(value), "%Y%m%d"@) {
            Some(d) => Some(d.midnight()),
            None => None,
        }
    } else {
        chrono_date_time(trim_end_char(trim(value), 'Z'), "%Y%m%dT%H%M%S"@)
    }
}

/// What a line says of the time property `name`: nothing if the line does
/// not hold it, else the time, which may be unreadable.
pub open spec fn time_on(line: Seq<char>, name: Seq<char>) -> Option<Option<DateTime>> {
    if !has_prefix(line, name) {
        None
    } else {
        let rest = after(line, name.len() as int);
        if rest.len() > 0 && rest[0] == ':' {
            Some(time_of(rest, after(rest, 1)))
        } else if rest.len() > 0 && rest[0] == ';' {
            match find_char(rest, ':') {
                Some(i) => Some(time_of(rest, after(rest, i + 1))),
                None => Some(None),
            }
        } else {
            None
        }
    }
}

/// The time of the first line at or after `from` that holds `name`.
pub open spec fn time_from(all: Seq<Seq<char>>, name: Seq<char>, from: int) -> Option<DateTime>
    decreases all.len() - from,
{
    if from < 0 || from >= all.len() {
        None
    } else {
        match time_on(all[from], name) {
            Some(t) => t,
            None => time_from(all, name, from + 1),
        }
    }
}

/// The time property `name` of a list of lines.
pub open spec fn time_property(all: Seq<Seq<char>>, name: Seq<char>) -> Option<DateTime> {
    time_from(all, name, 0)
}

fn read_time(rest: &[char], value: &[char]) -> (r: Option<DateTime>)
    ensures
        r == time_of(rest@, value@),
{
    let date_only = (has_substring(rest, chars_of("VALUE=DATE").as_slice()) && !has_substring(
        rest,
        chars_of("VALUE=DATE-TIME").as_slice(),
    )) || value.len() == 8;
    if date_only {
        let text = string_of(trimmed(value));
        match parse_date(text.as_str(), "%Y%m%d") {
            Some(d) => Some(d.at_midnight()),
            None => None,
        }
    } else {
        let text = string_of(trimmed_end_char(trimmed(value), 'Z'));
        parse_date_time(text.as_str(), "%Y%m%dT%H%M%S")
    }
}

fn read_time_on(line: &[char], name: &[char]) -> (r: Option<Option<DateTime>>)
    ensures
        r == time_on(line@, name@),
{
    if !starts_with(line, name) {
        return None;
    }
    let rest = rest_from(line, name.len());
    if rest.len() > 0 && rest[0] == ':' {
        Some(read_time(rest, rest_from(rest, 1)))
    } else if rest.len() > 0 && rest[0] == ';' {
        match find_char_in(rest, ':') {
            Some(i) => Some(read_time(rest, rest_from(rest, i + 1))),
            None => Some(None),
        }
    } else {
        None
    }
}

/// Finds the time property `name` in a list of lines.
pub fn parse_ics_datetime_property(all: &Vec<Vec<char>>, name: &str) -> (r: Option<DateTime>)
    ensures
        r == time_property(texts(all@), name@),
{
    let wanted = chars_of(name);
    let mut i: usize = 0;
    while i < all.len()
        invariant
            i <= all@.len(),
            wanted@ == name@,
            time_property(texts(all@), name@) == time_from(texts(all@), name@, i as int),
        decreases all@.len() - i,
    {
        proof {
            assert(texts(all@)[i as int] == all@[i as int]@);
        }
        match read_time_on(all[i].as_slice(), wanted.as_slice()) {
            Some(t) => {
                return t;
            },
            None => {},
        }
        i += 1;
    }
    None
}

// ---------------------------------------------------------------------------
// People
// ---------------------------------------------------------------------------

/// The characters that end an address.
pub open spec fn address_stops() -> Seq<char> {
    seq![';', ',', '\r', '\n', ' ']
}

/// The characters that end the bare value of a parameter.
pub open spec fn parameter_stops() -> Seq<char> {
    seq![';', ':', ',', '\r', '\n']
}

/// The address that follows the first `mailto:` of a line, written in any
/// case; empty where the line has none.
pub open spec fn mailto(line: Seq<char>) -> Seq<char> {
    match find(ascii_lower(line), "mailto:"@) {
        Some(pos) => until_any(after(line, pos + 7), address_stops()),
        None => Seq::empty(),
    }
}

/// Reads the address that follows the first `mailto:` of a line.
pub fn extract_mailto(line: &[char]) -> (r: Vec<char>)
    ensures
        r@ == mailto(line@),
{
    let lower = to_ascii_lower(line);
    let scheme = chars_of("mailto:");
    let total: usize = line.len();
    proof {
        reveal_strlit("mailto:");
        assert(lower@.len() == line@.len());
        assert(scheme@.len() == 7);
    }
    match find_first(lower.as_slice(), scheme.as_slice()) {
        Some(pos) => {
            let stops: [char; 5] = [';', ',', '\r', '\n', ' '];
            proof {
                assert(stops@ =~= address_stops());
            }
            to_vec(run_until_any(rest_from(line, pos + 7), stops.as_slice()))
        },
        None => Vec::new(),
    }
}

/// The value of the parameter `name` on a line: what follows the first
/// `name=`, between double quotes if it begins with one, else up to the
/// next delimiter. A quote that is not closed gives no value.
pub open spec fn parameter(line: Seq<char>, name: Seq<char>) -> Option<Seq<char>> {
    match find(line, name + seq!['=']) {
        Some(pos) => {
            let rest = after(line, pos + name.len() + 1);
            if rest.len() > 0 && rest[0] == '"' {
                match find_char(after(rest, 1), '"') {
                    Some(end) => Some(before(after(rest, 1), end)),
                    None => None,
                }
            } else {
                Some(until_any(rest, parameter_stops()))
            }
        },
        None => None,
    }
}

/// Reads the value of a parameter of a line.
pub fn extract_param(line: &[char], param_name: &str) -> (r: Option<Vec<char>>)
    ensures
        match r {
            Some(v) => parameter(line@, param_name@) == Some(v@),
            None => parameter(line@, param_name@) is None,
        },
{
    let mut search = chars_of(param_name);
    search.push('=');
    proof {
        assert(search@ =~= param_name@ + seq!['=']);
    }
    let total: usize = line.len();
    match find_first(line, search.as_slice()) {
        Some(pos) => {
            let rest = rest_from(line, pos + search.len());
            if rest.len() > 0 && rest[0] == '"' {
                let inner = rest_from(rest, 1);
                match find_char_in(inner, '"') {
                    Some(end) => Some(to_vec(up_to(inner, end))),
                    None => None,
                }
            } else {
                let stops: [char; 5] = [';', ':', ',', '\r', '\n'];
                proof {
                    assert(stops@ =~= parameter_stops());
                }
                Some(to_vec(run_until_any(rest, stops.as_slice())))
            }
        },
        None => None,
    }
}

/// The organizer's line: the first at or after `from` that begins with
/// `ORGANIZER`.
pub open spec fn organizer_line(all: Seq<Seq<char>>, from: int) -> Option<Seq<char>>
    decreases all.len() - from,
{
    if from < 0 || from >= all.len() {
        None
    } else if has_prefix(all[from], "ORGANIZER"@) {
        Some(all[from])
    } else {
        organizer_line(all, from + 1)
    }
}

/// The address of the organizer; empty where no line names one.
pub open spec fn organizer_email(all: Seq<Seq<char>>) -> Seq<char> {
    match organizer_line(all, 0) {
        Some(line) => mailto(line),
        None => Seq::empty(),
    }
}

/// The display name of the organizer.
pub open spec fn organizer_name(all: Seq<Seq<char>>) -> Option<Seq<char>> {
    match organizer_line(all, 0) {
        Some(line) => parameter(line, "CN"@),
        None => None,
    }
}

fn opt_string(v: Option<Vec<char>>) -> (r: Option<String>)
    ensures
        opt_text(r) == match v {
            Some(c) => Some(c@),
            None => None,
        },
{
    match v {
        Some(c) => Some(string_of(c.as_slice())),
        None => None,
    }
}

/// Reads the address and the display name of the organizer.
pub fn parse_organizer(all: &Vec<Vec<char>>) -> (r: (String, Option<String>))
    ensures
        r.0@ == organizer_email(texts(all@)),
        opt_text(r.1) == organizer_name(texts(all@)),
{
    let marker = chars_of("ORGANIZER");
    let mut i: usize = 0;
    while i < all.len()
        invariant
            i <= all@.len(),
            marker@ == "ORGANIZER"@,
            organizer_line(texts(all@), 0) == organizer_line(texts(all@), i as int),
        decreases all@.len() - i,
    {
        proof {
            assert(texts(all@)[i as int] == all@[i as int]@);
        }
        let line = all[i].as_slice();
        if starts_with(line, marker.as_slice()) {
            let name = opt_string(extract_param(line, "CN"));
            let email = string_of(extract_mailto(line).as_slice());
            return (email, name);
        }
        i += 1;
    }
    (String::new(), None)
}

/// The attendee that a line names, if it begins with `ATTENDEE` and holds
/// an address. A line without a status counts as `NEEDS-ACTION`.
pub open spec fn attendee_on(line: Seq<char>) -> Option<AttendeeView> {
    if has_prefix(line, "ATTENDEE"@) && mailto(line).len() > 0 {
        Some(
            AttendeeView {
                email: mailto(line),
                name: parameter(line, "CN"@),
                status: match parameter(line, "PARTSTAT"@) {
                    Some(s) => s,
                    None => "NEEDS-ACTION"@,
                },
            },
        )
    } else {
        None
    }
}

/// The attendees that the lines name, in order.
pub open spec fn attendees(all: Seq<Seq<char>>) -> Seq<AttendeeView>
    decreases all.len(),
{
    if all.len() == 0 {
        Seq::empty()
    } else {
        match attendee_on(all.last()) {
            Some(a) => attendees(all.drop_last()).push(a),
            None => attendees(all.drop_last()),
        }
    }
}

/// Reads the attendees, in the order of their lines.
pub fn parse_attendees(all: &Vec<Vec<char>>) -> (r: Vec<Attendee>)
    ensures
        views(r@) == attendees(texts(all@)),
{
    let marker = chars_of("ATTENDEE");
    let mut out: Vec<Attendee> = Vec::new();
    let mut i: usize = 0;
    proof {
        assert(texts(all@).take(0) =~= Seq::<Seq<char>>::empty());
        assert(views(out@) =~= Seq::<AttendeeView>::empty());
    }
    while i < all.len()
        invariant
            i <= all@.len(),
            marker@ == "ATTENDEE"@,
            views(out@) == attendees(texts(all@).take(i as int)),
        decreases all@.len() - i,
    {
        let ghost next = texts(all@).take(i + 1);
        proof {
            assert(next.drop_last() =~= texts(all@).take(i as int));
            assert(next.last() == all@[i as int]@);
        }
        let line = all[i].as_slice();
        if starts_with(line, marker.as_slice()) {
            let email = extract_mailto(line);
            if email.len() > 0 {
                let name = opt_string(extract_param(line, "CN"));
                let status = match extract_param(line, "PARTSTAT") {
                    Some(s) => string_of(s.as_slice()),
                    None => crate::text::owned("NEEDS-ACTION"),
                };
                let ghost before_push = out@;
                let a = Attendee { email: string_of(email.as_slice()), name, status };
                out.push(a);
                proof {
                    crate::types::lemma_views_push(before_push, a);
                }
            }
        }
        i += 1;
    }
    proof {
        assert(texts(all@).take(all@.len() as int) =~= texts(all@));
    }
    out
}

// ---------------------------------------------------------------------------
// Events
// ---------------------------------------------------------------------------

/// The text of the event block of a calendar: from the first
/// `BEGIN:VEVENT` to the end of the first `END:VEVENT`, which must not end
/// before the block begins.
pub open spec fn event_block(data: Seq<char>) -> Option<Seq<char>> {
    match (find(data, "BEGIN:VEVENT"@), find(data, "END:VEVENT"@)) {
        (Some(start), Some(end)) => if 0 <= start <= end + 10 <= data.len() {
            Some(data.subrange(start, end + 10))
        } else {
            None
        },
        _ => None,
    }
}

/// The sequence number that a text denotes; zero where it is no number.
pub open spec fn sequence_of(value: Option<Seq<char>>) -> int {
    match value {
        Some(v) => match parse_bounded(v, i32::MIN as int, i32::MAX as int) {
            Some(n) => n,
            None => 0,
        },
        None => 0,
    }
}

/// The event that a calendar text describes. There is none unless the text
/// names a calendar, holds an event block, and the block has a UID and a
/// start time that can be read. White space around the text is passed over
/// in reading; the event keeps the text as it came.
pub open spec fn event_of(text: Seq<char>) -> Option<CalendarEventView> {
    let data = trim(text);
    if !contains(data, "BEGIN:VCALENDAR"@) {
        None
    } else {
        match event_block(data) {
            None => None,
            Some(block) => {
                let all = lines(unfold(block));
                match (property(all, "UID"@), time_property(all, "DTSTART"@)) {
                    (Some(uid), Some(start)) => Some(
                        CalendarEventView {
                            uid,
                            summary: match property(all, "SUMMARY"@) {
                                Some(s) => s,
                                None => Seq::empty(),
                            },
                            dtstart: start,
                            dtend: time_property(all, "DTEND"@),
                            location: property(all, "LOCATION"@),
                            description: property(all, "DESCRIPTION"@),
                            organizer_email: organizer_email(all),
                            organizer_name: organizer_name(all),
                            attendees: attendees(all),
                            sequence: sequence_of(property(all, "SEQUENCE"@)),
                            method: match property(lines(data), "METHOD"@) {
                                Some(m) => m,
                                None => "REQUEST"@,
                            },
                            raw_ics: text,
                        },
                    ),
                    _ => None,
                }
            },
        }
    }
}

/// An event that is read keeps the text it was read from, character for
/// character, white space at either end included.
pub proof fn law_event_keeps_its_text(text: Seq<char>)
    requires
        event_of(text) is Some,
    ensures
        event_of(text)->0.raw_ics == text,
{
}

/// The view of an optional event.
pub open spec fn opt_event(e: Option<CalendarEvent>) -> Option<CalendarEventView> {
    match e {
        Some(v) => Some(v@),
        None => None,
    }
}

/// Reads an event from calendar text.
pub fn parse_ics(data: &str) -> (r: Option<CalendarEvent>)
    ensures
        opt_event(r) == event_of(data@),
{
    let all_chars = chars_of(data);
    let text = trimmed(all_chars.as_slice());
    if !has_substring(text, chars_of("BEGIN:VCALENDAR").as_slice()) {
        return None;
    }
    let calendar_lines = split_lines(text);
    let method = match extract_property(&calendar_lines, "METHOD") {
        Some(m) => m,
        None => crate::text::owned("REQUEST"),
    };
    let begin = chars_of("BEGIN:VEVENT");
    let finish = chars_of("END:VEVENT");
    let total: usize = text.len();
    proof {
        reveal_strlit("END:VEVENT");
        assert(finish@.len() == 10);
    }
    let start = match find_first(text, begin.as_slice()) {
        Some(i) => i,
        None => {
            return None;
        },
    };
    let end = match find_first(text, finish.as_slice()) {
        Some(i) => i,
        None => {
            return None;
        },
    };
    if start > end + 10 {
        return None;
    }
    let block = vstd::slice::slice_subrange(text, start, end + 10);
    let unfolded = unfold_lines(block);
    let all = split_lines(unfolded.as_slice());
    let uid = match extract_property(&all, "UID") {
        Some(u) => u,
        None => {
            return None;
        },
    };
    let summary = match extract_property(&all, "SUMMARY") {
        Some(s) => s,
        None => String::new(),
    };
    let location = extract_property(&all, "LOCATION");
    let description = extract_property(&all, "DESCRIPTION");
    let sequence: i32 = match extract_property(&all, "SEQUENCE") {
        Some(s) => match parse_i32(chars_of(s.as_str()).as_slice()) {
            Some(n) => n,
            None => 0,
        },
        None => 0,
    };
    let dtstart = match parse_ics_datetime_property(&all, "DTSTART") {
        Some(t) => t,
        None => {
            return None;
        },
    };
    let dtend = parse_ics_datetime_property(&all, "DTEND");
    let (organizer_email, organizer_name) = parse_organizer(&all);
    let attendees = parse_attendees(&all);
    Some(
        CalendarEvent {
            uid,
            summary,
            dtstart,
            dtend,
            location,
            description,
            organizer_email,
            organizer_name,
            attendees,
            sequence,
            method,
            raw_ics: crate::text::owned(data),
        },
    )
}

// ---------------------------------------------------------------------------
// All-day events
// ---------------------------------------------------------------------------

/// The position of the line that decides the time property `name`: the
/// first at or after `from` that holds it.
pub open spec fn time_line(all: Seq<Seq<char>>, name: Seq<char>, from: int) -> Option<int>
    decreases all.len() - from,
{
    if from < 0 || from >= all.len() {
        None
    } else if time_on(all[from], name) is Some {
        Some(from)
    } else {
        time_line(all, name, from + 1)
    }
}

/// Whether a line writes the time property `name` as a date alone: by a
/// `VALUE=DATE` parameter, or by a value of eight characters.
pub open spec fn is_all_day_line(line: Seq<char>, name: Seq<char>) -> bool {
    has_prefix(line, name) && match value_after_name(after(line, name.len() as int)) {
        Some(value) => is_date_only(after(line, name.len() as int), value),
        None => false,
    }
}

/// A time that is written as a date alone is the first instant of its day.
pub proof fn law_date_alone_is_midnight(rest: Seq<char>, value: Seq<char>)
    requires
        is_date_only(rest, value),
        time_of(rest, value) is Some,
    ensures
        time_of(rest, value)->0.hour == 0,
        time_of(rest, value)->0.minute == 0,
        time_of(rest, value)->0.second == 0,
        time_of(rest, value)->0.nanosecond == 0,
{
}

proof fn lemma_time_from_line(all: Seq<Seq<char>>, name: Seq<char>, from: int)
    requires
        0 <= from,
        time_line(all, name, from) is Some,
    ensures
        from <= time_line(all, name, from)->0 < all.len(),
        time_on(all[time_line(all, name, from)->0], name) is Some,
        time_from(all, name, from) == time_on(all[time_line(all, name, from)->0], name)->0,
    decreases all.len() - from,
{
    if from < all.len() && time_on(all[from], name) is None {
        lemma_time_from_line(all, name, from + 1);
    }
}

/// A time property whose deciding line is written as a date alone has
/// hour and minute zero.
pub proof fn law_all_day_time_is_midnight(all: Seq<Seq<char>>, name: Seq<char>)
    requires
        time_property(all, name) is Some,
        time_line(all, name, 0) is Some,
        is_all_day_line(all[time_line(all, name, 0)->0], name),
    ensures
        time_property(all, name)->0.hour == 0,
        time_property(all, name)->0.minute == 0,
        time_property(all, name)->0.second == 0,
        time_property(all, name)->0.nanosecond == 0,
{
    lemma_time_from_line(all, name, 0);
}

/// The lines of the event block of a calendar text, unfolded.
pub open spec fn event_lines(text: Seq<char>) -> Seq<Seq<char>> {
    match event_block(trim(text)) {
        Some(block) => lines(unfold(block)),
        None => Seq::empty(),
    }
}

/// An event whose start is written as a date alone, be it by an eight-digit
/// value or by the date-only parameter, starts at hour and minute zero.
pub proof fn law_all_day_event_starts_at_midnight(text: Seq<char>)
    requires
        event_of(text) is Some,
        time_line(event_lines(text), "DTSTART"@, 0) is Some,
        is_all_day_line(
            event_lines(text)[time_line(event_lines(text), "DTSTART"@, 0)->0],
            "DTSTART"@,
        ),
    ensures
        event_of(text)->0.dtstart.hour == 0,
        event_of(text)->0.dtstart.minute == 0,
        event_of(text)->0.dtstart.second == 0,
{
    law_all_day_time_is_midnight(event_lines(text), "DTSTART"@);
}

// ---------------------------------------------------------------------------
// Replies
// ---------------------------------------------------------------------------

/// The format in which the times of a reply are written.
pub open spec fn stamp(t: DateTime) -> Option<Seq<char>> {
    chrono_stamp(t, "%Y%m%dT%H%M%SZ"@)
}

/// The display name under which an attendee was invited: that of the first
/// attendee with the address, compared without regard to the case of ASCII
/// letters.
pub open spec fn invited_name(list: Seq<AttendeeView>, email: Seq<char>) -> Option<Seq<char>>
    decreases list.len(),
{
    if list.len() == 0 {
        None
    } else if eq_ignore_case(list[0].email, email) {
        list[0].name
    } else {
        invited_name(list.drop_first(), email)
    }
}

/// A `CN` parameter for a display name, or nothing.
pub open spec fn cn_parameter(name: Option<Seq<char>>) -> Seq<char> {
    match name {
        Some(n) => ";CN="@ + n,
        None => Seq::empty(),
    }
}

/// The lines of a reply that follow its start time: the end time where
/// the event has one, the summary, the organizer, the attendee with the
/// answer, the sequence number, and the closing lines.
pub open spec fn reply_tail(
    event: CalendarEventView,
    attendee: Seq<char>,
    status: Seq<char>,
    end: Option<Seq<char>>,
) -> Seq<char> {
    (match end {
        Some(e) => "DTEND:"@ + e + crlf(),
        None => Seq::empty(),
    }) + line_then(
        "SUMMARY:"@ + event.summary,
        line_then(
            "ORGANIZER"@ + cn_parameter(event.organizer_name) + ":mailto:"@
                + event.organizer_email,
            line_then(
                "ATTENDEE"@ + cn_parameter(invited_name(event.attendees, attendee))
                    + ";PARTSTAT="@ + status + ":mailto:"@ + attendee,
                line_then(
                    "SEQUENCE:"@ + decimal(event.sequence),
                    line_then("END:VEVENT"@, "END:VCALENDAR"@),
                ),
            ),
        ),
    )
}

/// The reply that tells an event's organizer that `attendee` answers with
/// `status`, given the texts of the event's start and end. Its lines end
/// with a carriage return and a line feed, but for the last.
pub open spec fn reply_text(
    event: CalendarEventView,
    attendee: Seq<char>,
    status: Seq<char>,
    start: Seq<char>,
    end: Option<Seq<char>>,
) -> Seq<char> {
    line_then(
        "BEGIN:VCALENDAR"@,
        line_then(
            "VERSION:2.0"@,
            line_then(
                "PRODID:-//Supervillain//EN"@,
                line_then(
                    "METHOD:REPLY"@,
                    line_then(
                        "BEGIN:VEVENT"@,
                        line_then(
                            "UID:"@ + event.uid,
                            line_then(
                                "DTSTART:"@ + start,
                                reply_tail(event, attendee, status, end),
                            ),
                        ),
                    ),
                ),
            ),
        ),
    )
}

/// The reply to an invitation. There is none if the start of the event, or
/// its end where it has one, is not a time that can be written.
pub open spec fn reply_of(event: CalendarEventView, attendee: Seq<char>, status: Seq<char>)
    -> Option<Seq<char>> {
    match stamp(event.dtstart) {
        None => None,
        Some(start) => match event.dtend {
            None => Some(reply_text(event, attendee, status, start, None)),
            Some(t) => match stamp(t) {
                Some(end) => Some(reply_text(event, attendee, status, start, Some(end))),
                None => None,
            },
        },
    }
}

fn find_invited_name(list: &Vec<Attendee>, email: &str) -> (r: Option<Vec<char>>)
    ensures
        match r {
            Some(n) => invited_name(views(list@), email@) == Some(n@),
            None => invited_name(views(list@), email@) is None,
        },
{
    let wanted = chars_of(email);
    let mut i: usize = 0;
    proof {
        assert(views(list@).skip(0) =~= views(list@));
    }
    while i < list.len()
        invariant
            i <= list@.len(),
            wanted@ == email@,
            invited_name(views(list@), email@) == invited_name(
                views(list@).skip(i as int),
                email@,
            ),
        decreases list@.len() - i,
    {
        proof {
            assert(views(list@).skip(i as int).drop_first() =~= views(list@).skip(i + 1));
            assert(views(list@).skip(i as int)[0] == list@[i as int]@);
        }
        let have = chars_of(list[i].email.as_str());
        if eq_ignore_ascii_case(have.as_slice(), wanted.as_slice()) {
            return match &list[i].name {
                Some(n) => Some(chars_of(n.as_str())),
                None => None,
            };
        }
        i += 1;
    }
    None
}

/// A line and what follows it.
fn line_before(line: Vec<char>, rest: Vec<char>) -> (r: Vec<char>)
    ensures
        r@ == line_then(line@, rest@),
{
    let mut out = line;
    out.push('\r');
    out.push('\n');
    push_all(&mut out, rest.as_slice());
    proof {
        assert(out@ =~= line_then(line@, rest@));
    }
    out
}

fn push_cn(out: &mut Vec<char>, name: &Option<Vec<char>>)
    ensures
        final(out)@ == old(out)@ + cn_parameter(
            match name {
                Some(n) => Some(n@),
                None => None,
            },
        ),
{
    match name {
        Some(n) => {
            let ghost start = out@;
            push_str(out, ";CN=");
            push_all(out, n.as_slice());
            proof {
                assert(out@ =~= start + (";CN="@ + n@));
            }
        },
        None => {
            proof {
                assert(out@ + Seq::<char>::empty() =~= out@);
            }
        },
    }
}

/// Writes the reply to an invitation: `attendee_email` answers with
/// `status`.
pub fn generate_rsvp(event: &CalendarEvent, attendee_email: &str, status: &str) -> (r: Option<
    String,
>)
    ensures
        opt_text(r) == reply_of(event@, attendee_email@, status@),
{
    let start = match format_date_time(&event.dtstart, "%Y%m%dT%H%M%SZ") {
        Some(s) => s,
        None => {
            return None;
        },
    };
    let end: Option<String> = match &event.dtend {
        Some(t) => match format_date_time(t, "%Y%m%dT%H%M%SZ") {
            Some(s) => Some(s),
            None => {
                return None;
            },
        },
        None => None,
    };
    let closing = line_before(chars_of("END:VEVENT"), chars_of("END:VCALENDAR"));
    let mut sequence = chars_of("SEQUENCE:");
    push_all(&mut sequence, format_i64(event.sequence as i64).as_slice());
    let mut answer = chars_of("ATTENDEE");
    let invited = find_invited_name(&event.attendees, attendee_email);
    push_cn(&mut answer, &invited);
    push_str(&mut answer, ";PARTSTAT=");
    push_str(&mut answer, status);
    push_str(&mut answer, ":mailto:");
    push_str(&mut answer, attendee_email);
    let mut organizer = chars_of("ORGANIZER");
    let organizer_name = match &event.organizer_name {
        Some(n) => Some(chars_of(n.as_str())),
        None => None,
    };
    push_cn(&mut organizer, &organizer_name);
    push_str(&mut organizer, ":mailto:");
    push_str(&mut organizer, event.organizer_email.as_str());
    let mut summary = chars_of("SUMMARY:");
    push_str(&mut summary, event.summary.as_str());
    let body = line_before(
        summary,
        line_before(organizer, line_before(answer, line_before(sequence, closing))),
    );
    let mut tail: Vec<char> = Vec::new();
    match &end {
        Some(e) => {
            push_str(&mut tail, "DTEND:");
            push_str(&mut tail, e.as_str());
            tail.push('\r');
            tail.push('\n');
            proof {
                assert(tail@ =~= "DTEND:"@ + e@ + crlf());
            }
        },
        None => {},
    }
    push_all(&mut tail, body.as_slice());
    let mut start_line = chars_of("DTSTART:");
    push_str(&mut start_line, start.as_str());
    let mut uid_line = chars_of("UID:");
    push_str(&mut uid_line, event.uid.as_str());
    let out = line_before(
        chars_of("BEGIN:VCALENDAR"),
        line_before(
            chars_of("VERSION:2.0"),
            line_before(
                chars_of("PRODID:-//Supervillain//EN"),
                line_before(
                    chars_of("METHOD:REPLY"),
                    line_before(
                        chars_of("BEGIN:VEVENT"),
                        line_before(uid_line, line_before(start_line, tail)),
                    ),
                ),
            ),
        ),
    );
    Some(string_of(out.as_slice()))
}

// ---------------------------------------------------------------------------
// Recording an answer
// ---------------------------------------------------------------------------

/// Whether a line of calendar text names the attendee `attendee`: it
/// begins with `ATTENDEE`, and its address is the attendee's, compared
/// without regard to the case of ASCII letters.
pub open spec fn names_attendee(line: Seq<char>, attendee: Seq<char>) -> bool {
    has_prefix(line, "ATTENDEE"@) && eq_ignore_case(mailto(line), attendee)
}

/// A line with the status `status` in place of the one it has. A line
/// without a status gets one right after its name.
pub open spec fn line_with_status(line: Seq<char>, status: Seq<char>) -> Seq<char> {
    match find(line, "PARTSTAT="@) {
        Some(pos) => {
            let value = until_any(after(line, pos + 9), parameter_stops());
            before(line, pos + 9) + status + after(line, pos + 9 + value.len())
        },
        None => before(line, 8) + ";PARTSTAT="@ + status + after(line, 8),
    }
}

/// The line as it is, or with the new status if it names the attendee.
pub open spec fn answered_line(line: Seq<char>, attendee: Seq<char>, status: Seq<char>) -> Seq<
    char,
> {
    if names_attendee(line, attendee) {
        line_with_status(line, status)
    } else {
        line
    }
}

/// Each line of a list, answered.
pub open spec fn answered_lines(all: Seq<Seq<char>>, attendee: Seq<char>, status: Seq<char>)
    -> Seq<Seq<char>> {
    Seq::new(all.len(), |i: int| answered_line(all[i], attendee, status))
}

/// The calendar text with the attendee's status replaced, line by line.
/// Every line that does not name the attendee stays as it is, line breaks
/// included.
pub open spec fn answered(text: Seq<char>, attendee: Seq<char>, status: Seq<char>) -> Seq<char> {
    join(answered_lines(pieces(text, '\n'), attendee, status), seq!['\n'])
}

fn answer_line(line: &[char], attendee: &[char], status: &[char]) -> (r: Vec<char>)
    ensures
        r@ == answered_line(line@, attendee@, status@),
{
    let marker = chars_of("ATTENDEE");
    let total: usize = line.len();
    proof {
        reveal_strlit("ATTENDEE");
        reveal_strlit("PARTSTAT=");
        assert("ATTENDEE"@.len() == 8);
        assert("PARTSTAT="@.len() == 9);
    }
    if !starts_with(line, marker.as_slice()) {
        return to_vec(line);
    }
    let address = extract_mailto(line);
    if !eq_ignore_ascii_case(address.as_slice(), attendee) {
        return to_vec(line);
    }
    let key = chars_of("PARTSTAT=");
    match find_first(line, key.as_slice()) {
        Some(pos) => {
            let stops: [char; 5] = [';', ':', ',', '\r', '\n'];
            proof {
                assert(stops@ =~= parameter_stops());
            }
            let value = run_until_any(rest_from(line, pos + 9), stops.as_slice());
            proof {
                crate::text::lemma_find_any_from(after(line@, pos + 9), parameter_stops(), 0);
                assert(value@.len() <= line@.len() - (pos + 9));
            }
            let mut out = to_vec(up_to(line, pos + 9));
            push_all(&mut out, status);
            push_all(&mut out, rest_from(line, pos + 9 + value.len()));
            out
        },
        None => {
            let mut out = to_vec(up_to(line, 8));
            push_str(&mut out, ";PARTSTAT=");
            push_all(&mut out, status);
            push_all(&mut out, rest_from(line, 8));
            out
        },
    }
}

/// Records an attendee's answer in a copy of the calendar text.
pub fn update_partstat(ics: &str, attendee_email: &str, status: &str) -> (r: String)
    ensures
        r@ == answered(ics@, attendee_email@, status@),
{
    let text = chars_of(ics);
    let attendee = chars_of(attendee_email);
    let new_status = chars_of(status);
    let all = split_pieces(text.as_slice(), '\n');
    let mut out: Vec<Vec<char>> = Vec::new();
    let mut i: usize = 0;
    while i < all.len()
        invariant
            i <= all@.len(),
            out@.len() == i,
            attendee@ == attendee_email@,
            new_status@ == status@,
            forall|j: int|
                0 <= j < i ==> out@[j]@ == answered_line(all@[j]@, attendee_email@, status@),
        decreases all@.len() - i,
    {
        out.push(answer_line(all[i].as_slice(), attendee.as_slice(), new_status.as_slice()));
        i += 1;
    }
    proof {
        assert(texts(out@) =~= answered_lines(texts(all@), attendee_email@, status@));
    }
    let sep: [char; 1] = ['\n'];
    proof {
        assert(sep@ =~= seq!['\n']);
    }
    string_of(joined(&out, sep.as_slice()).as_slice())
}

/// Recording an answer changes nothing in a text none of whose lines names
/// the attendee.
pub proof fn law_answer_of_a_stranger_changes_nothing(
    text: Seq<char>,
    attendee: Seq<char>,
    status: Seq<char>,
)
    requires
        forall|i: int|
            0 <= i < pieces(text, '\n').len() ==> !names_attendee(
                #[trigger] pieces(text, '\n')[i],
                attendee,
            ),
    ensures
        answered(text, attendee, status) == text,
{
    let all = pieces(text, '\n');
    assert(answered_lines(all, attendee, status) =~= all);
    crate::text_laws::lemma_join_pieces(text, '\n');
}

/// Recording an answer keeps the number of lines, and every line that does
/// not name the attendee.
pub proof fn law_answer_keeps_other_lines(
    all: Seq<Seq<char>>,
    attendee: Seq<char>,
    status: Seq<char>,
    i: int,
)
    requires
        0 <= i < all.len(),
        !names_attendee(all[i], attendee),
    ensures
        answered_lines(all, attendee, status).len() == all.len(),
        answered_lines(all, attendee, status)[i] == all[i],
{
}

} // verus!
