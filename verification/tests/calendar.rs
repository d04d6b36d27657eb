use vimmail::calendar::{
    extract_mailto, extract_param, generate_rsvp, parse_ics, unfold_lines, update_partstat,
};
use vimmail::types::{CalendarEvent, DateTime};

fn chars(s: &str) -> Vec<char> {
    s.chars().collect()
}

fn text(v: Vec<char>) -> String {
    v.into_iter().collect()
}


const SAMPLE_ICS: &str = "\
BEGIN:VCALENDAR\r\n\
VERSION:2.0\r\n\
PRODID:-//Test//Test//EN\r\n\
METHOD:REQUEST\r\n\
BEGIN:VEVENT\r\n\
UID:test-uid-123@example.com\r\n\
DTSTART:20260215T100000Z\r\n\
DTEND:20260215T110000Z\r\n\
SUMMARY:Team Standup\r\n\
LOCATION:Conference Room B\r\n\
DESCRIPTION:Daily standup meeting\r\n\
ORGANIZER;CN=Alice:mailto:alice@example.com\r\n\
ATTENDEE;CN=Bob;PARTSTAT=NEEDS-ACTION:mailto:bob@example.com\r\n\
ATTENDEE;CN=Carol;PARTSTAT=ACCEPTED:mailto:carol@example.com\r\n\
SEQUENCE:0\r\n\
END:VEVENT\r\n\
END:VCALENDAR";

const SAMPLE_ICS_NO_LOCATION: &str = "\
BEGIN:VCALENDAR\r\n\
VERSION:2.0\r\n\
METHOD:REQUEST\r\n\
BEGIN:VEVENT\r\n\
UID:no-loc-uid@example.com\r\n\
DTSTART:20260215T100000Z\r\n\
DTEND:20260215T110000Z\r\n\
SUMMARY:Quick Sync\r\n\
ORGANIZER;CN=Alice:mailto:alice@example.com\r\n\
SEQUENCE:0\r\n\
END:VEVENT\r\n\
END:VCALENDAR";

const SAMPLE_ICS_ALL_DAY: &str = "\
BEGIN:VCALENDAR\r\n\
VERSION:2.0\r\n\
METHOD:REQUEST\r\n\
BEGIN:VEVENT\r\n\
UID:all-day-uid@example.com\r\n\
DTSTART;VALUE=DATE:20260215\r\n\
SUMMARY:All Day Event\r\n\
ORGANIZER;CN=Alice:mailto:alice@example.com\r\n\
SEQUENCE:0\r\n\
END:VEVENT\r\n\
END:VCALENDAR";

const SAMPLE_ICS_NO_DTEND: &str = "\
BEGIN:VCALENDAR\r\n\
VERSION:2.0\r\n\
METHOD:REQUEST\r\n\
BEGIN:VEVENT\r\n\
UID:no-dtend-uid@example.com\r\n\
DTSTART:20260215T100000Z\r\n\
SUMMARY:Open Ended\r\n\
ORGANIZER;CN=Alice:mailto:alice@example.com\r\n\
ATTENDEE;CN=Bob;PARTSTAT=NEEDS-ACTION:mailto:bob@example.com\r\n\
SEQUENCE:1\r\n\
END:VEVENT\r\n\
END:VCALENDAR";

const SAMPLE_ICS_ATTENDEE_NO_CN: &str = "\
BEGIN:VCALENDAR\r\n\
VERSION:2.0\r\n\
METHOD:REQUEST\r\n\
BEGIN:VEVENT\r\n\
UID:no-cn-uid@example.com\r\n\
DTSTART:20260215T100000Z\r\n\
SUMMARY:Test\r\n\
ORGANIZER;CN=Alice:mailto:alice@example.com\r\n\
ATTENDEE;PARTSTAT=ACCEPTED:mailto:dave@example.com\r\n\
SEQUENCE:0\r\n\
END:VEVENT\r\n\
END:VCALENDAR";



#[test]
fn parse_basic_event() {
    let event = parse_ics(SAMPLE_ICS).unwrap();
    assert_eq!(event.uid, "test-uid-123@example.com");
    assert_eq!(event.summary, "Team Standup");
    assert_eq!(event.location, Some("Conference Room B".into()));
    assert_eq!(event.description, Some("Daily standup meeting".into()));
    assert_eq!(event.sequence, 0);
    assert!(event.dtend.is_some());
}

#[test]
fn parse_organizer_email() {
    let event = parse_ics(SAMPLE_ICS).unwrap();
    assert_eq!(event.organizer_email, "alice@example.com");
}

#[test]
fn parse_organizer_name() {
    let event = parse_ics(SAMPLE_ICS).unwrap();
    assert_eq!(event.organizer_name, Some("Alice".into()));
}

#[test]
fn parse_attendees() {
    let event = parse_ics(SAMPLE_ICS).unwrap();
    assert_eq!(event.attendees.len(), 2);
    assert_eq!(event.attendees[0].email, "bob@example.com");
    assert_eq!(event.attendees[0].name, Some("Bob".into()));
    assert_eq!(event.attendees[0].status, "NEEDS-ACTION");
    assert_eq!(event.attendees[1].email, "carol@example.com");
    assert_eq!(event.attendees[1].name, Some("Carol".into()));
    assert_eq!(event.attendees[1].status, "ACCEPTED");
}

#[test]
fn parse_missing_location() {
    let event = parse_ics(SAMPLE_ICS_NO_LOCATION).unwrap();
    assert!(event.location.is_none());
    assert_eq!(event.summary, "Quick Sync");
}

#[test]
fn parse_missing_dtend() {
    let event = parse_ics(SAMPLE_ICS_NO_DTEND).unwrap();
    assert!(event.dtend.is_none());
}

#[test]
fn parse_all_day_event() {
    let event = parse_ics(SAMPLE_ICS_ALL_DAY).unwrap();
    assert_eq!(event.dtstart.hour, 0);
    assert_eq!(event.dtstart.minute, 0);
}

#[test]
fn parse_preserves_raw_ics() {
    let event = parse_ics(SAMPLE_ICS).unwrap();
    assert!(event.raw_ics.contains("VEVENT"));
    assert!(event.raw_ics.contains("Team Standup"));
}

#[test]
fn parse_invalid_ics_returns_none() {
    assert!(parse_ics("this is not valid ICS data").is_none());
}

#[test]
fn parse_no_vevent_returns_none() {
    let data = "BEGIN:VCALENDAR\r\nVERSION:2.0\r\nEND:VCALENDAR";
    assert!(parse_ics(data).is_none());
}

#[test]
fn parse_no_uid_returns_none() {
    let data = "\
BEGIN:VCALENDAR\r\n\
VERSION:2.0\r\n\
BEGIN:VEVENT\r\n\
SUMMARY:No UID\r\n\
DTSTART:20260215T100000Z\r\n\
END:VEVENT\r\n\
END:VCALENDAR";
    assert!(parse_ics(data).is_none());
}

#[test]
fn parse_attendee_without_cn() {
    let event = parse_ics(SAMPLE_ICS_ATTENDEE_NO_CN).unwrap();
    assert_eq!(event.attendees.len(), 1);
    assert!(event.attendees[0].name.is_none());
    assert_eq!(event.attendees[0].email, "dave@example.com");
    assert_eq!(event.attendees[0].status, "ACCEPTED");
}

#[test]
fn parse_method() {
    let event = parse_ics(SAMPLE_ICS).unwrap();
    assert_eq!(event.method, "REQUEST");
}

#[test]
fn parse_dtstart_value() {
    let event = parse_ics(SAMPLE_ICS).unwrap();
    assert_eq!(event.dtstart.year, 2026);
    assert_eq!(event.dtstart.month, 2);
    assert_eq!(event.dtstart.day, 15);
    assert_eq!(event.dtstart.hour, 10);
}



fn sample_event() -> CalendarEvent {
    parse_ics(SAMPLE_ICS).unwrap()
}

#[test]
fn rsvp_method_reply() {
    let rsvp = generate_rsvp(&sample_event(), "bob@example.com", "ACCEPTED").unwrap();
    assert!(rsvp.contains("METHOD:REPLY"));
}

#[test]
fn rsvp_includes_uid() {
    let rsvp = generate_rsvp(&sample_event(), "bob@example.com", "ACCEPTED").unwrap();
    assert!(rsvp.contains("test-uid-123@example.com"));
}

#[test]
fn rsvp_attendee_accepted() {
    let rsvp = generate_rsvp(&sample_event(), "bob@example.com", "ACCEPTED").unwrap();
    assert!(rsvp.contains("bob@example.com"));
    assert!(rsvp.contains("ACCEPTED"));
}

#[test]
fn rsvp_tentative() {
    let rsvp = generate_rsvp(&sample_event(), "bob@example.com", "TENTATIVE").unwrap();
    assert!(rsvp.contains("TENTATIVE"));
}

#[test]
fn rsvp_declined() {
    let rsvp = generate_rsvp(&sample_event(), "bob@example.com", "DECLINED").unwrap();
    assert!(rsvp.contains("DECLINED"));
}

#[test]
fn rsvp_includes_organizer() {
    let rsvp = generate_rsvp(&sample_event(), "bob@example.com", "ACCEPTED").unwrap();
    assert!(rsvp.contains("alice@example.com"));
}

#[test]
fn rsvp_preserves_cn() {
    let rsvp = generate_rsvp(&sample_event(), "bob@example.com", "ACCEPTED").unwrap();
    assert!(rsvp.contains("CN=Bob"));
}

#[test]
fn rsvp_unknown_attendee() {
    // an address that was not invited can answer too
    let rsvp = generate_rsvp(&sample_event(), "unknown@example.com", "ACCEPTED").unwrap();
    assert!(rsvp.contains("unknown@example.com"));
    assert!(rsvp.contains("ACCEPTED"));
}

#[test]
fn rsvp_is_parseable() {
    let rsvp = generate_rsvp(&sample_event(), "bob@example.com", "ACCEPTED").unwrap();
    assert!(rsvp.starts_with("BEGIN:VCALENDAR"));
    let parsed = parse_ics(&rsvp).unwrap();
    assert_eq!(parsed.uid, "test-uid-123@example.com");
    assert_eq!(parsed.method, "REPLY");
}

#[test]
fn rsvp_no_dtend() {
    let event = parse_ics(SAMPLE_ICS_NO_DTEND).unwrap();
    let rsvp = generate_rsvp(&event, "bob@example.com", "ACCEPTED").unwrap();
    assert!(rsvp.contains("METHOD:REPLY"));
    assert!(!rsvp.contains("DTEND"));
}



#[test]
fn parse_dtstart_value_in_full() {
    let event = parse_ics(SAMPLE_ICS).unwrap();
    assert_eq!(
        event.dtstart,
        DateTime { year: 2026, month: 2, day: 15, hour: 10, minute: 0, second: 0, nanosecond: 0 }
    );
    assert_eq!(
        event.dtend,
        Some(DateTime { year: 2026, month: 2, day: 15, hour: 11, minute: 0, second: 0, nanosecond: 0 })
    );
}

#[test]
fn parse_all_day_event_by_length_of_value() {
    let data = "BEGIN:VCALENDAR\r\nBEGIN:VEVENT\r\nUID:u\r\nDTSTART:20260301\r\nEND:VEVENT\r\nEND:VCALENDAR";
    let event = parse_ics(data).unwrap();
    assert_eq!(
        event.dtstart,
        DateTime { year: 2026, month: 3, day: 1, hour: 0, minute: 0, second: 0, nanosecond: 0 }
    );
    assert_eq!(event.method, "REQUEST");
    assert_eq!(event.summary, "");
    assert_eq!(event.sequence, 0);
    assert_eq!(event.organizer_email, "");
    assert!(event.organizer_name.is_none());
    assert!(event.attendees.is_empty());
}

#[test]
fn parse_without_start_returns_none() {
    let data = "BEGIN:VCALENDAR\r\nBEGIN:VEVENT\r\nUID:u\r\nSUMMARY:x\r\nEND:VEVENT\r\nEND:VCALENDAR";
    assert!(parse_ics(data).is_none());
    let data = "BEGIN:VCALENDAR\r\nBEGIN:VEVENT\r\nUID:u\r\nDTSTART:tomorrow\r\nEND:VEVENT\r\nEND:VCALENDAR";
    assert!(parse_ics(data).is_none());
    let data = "BEGIN:VCALENDAR\r\nBEGIN:VEVENT\r\nUID:u\r\nDTSTART;VALUE=DATE\r\nEND:VEVENT\r\nEND:VCALENDAR";
    assert!(parse_ics(data).is_none());
}

#[test]
fn parse_event_block_that_ends_before_it_begins_returns_none() {
    let data = "BEGIN:VCALENDAR\r\nEND:VEVENT\r\nfiller filler\r\nBEGIN:VEVENT\r\nUID:u\r\nDTSTART:20260301\r\n";
    assert!(parse_ics(data).is_none());
}

#[test]
fn parse_unfolds_continuation_lines() {
    let data = "BEGIN:VCALENDAR\r\nBEGIN:VEVENT\r\nUID:long-\r\n uid\r\nDTSTART:20260215T100000Z\r\nSUMMARY:Two\n\twords\r\nSEQUENCE:7\r\nEND:VEVENT\r\nEND:VCALENDAR";
    let event = parse_ics(data).unwrap();
    assert_eq!(event.uid, "long-uid");
    assert_eq!(event.summary, "Twowords");
    assert_eq!(event.sequence, 7);
}

#[test]
fn parse_keeps_the_text_as_it_came() {
    let padded = format!("  \n{}\r\n  ", SAMPLE_ICS);
    let event = parse_ics(&padded).unwrap();
    assert_eq!(event.raw_ics, padded);
    assert_eq!(event.uid, "test-uid-123@example.com");
    assert_eq!(event.method, "REQUEST");
    let ending_in_line_break = format!("{}\r\n", SAMPLE_ICS);
    assert_eq!(parse_ics(&ending_in_line_break).unwrap().raw_ics, ending_in_line_break);
    assert_eq!(parse_ics(SAMPLE_ICS).unwrap().raw_ics, SAMPLE_ICS);
}

#[test]
fn parse_sequence_defaults_to_zero_when_unreadable() {
    let data = "BEGIN:VCALENDAR\r\nBEGIN:VEVENT\r\nUID:u\r\nDTSTART:20260301\r\nSEQUENCE: 4\r\nEND:VEVENT\r\nEND:VCALENDAR";
    assert_eq!(parse_ics(data).unwrap().sequence, 0);
    let data = "BEGIN:VCALENDAR\r\nBEGIN:VEVENT\r\nUID:u\r\nDTSTART:20260301\r\nSEQUENCE:-12\r\nEND:VEVENT\r\nEND:VCALENDAR";
    assert_eq!(parse_ics(data).unwrap().sequence, -12);
    let data = "BEGIN:VCALENDAR\r\nBEGIN:VEVENT\r\nUID:u\r\nDTSTART:20260301\r\nSEQUENCE:99999999999\r\nEND:VEVENT\r\nEND:VCALENDAR";
    assert_eq!(parse_ics(data).unwrap().sequence, 0);
}

#[test]
fn unfold_joins_folded_lines() {
    assert_eq!(text(unfold_lines(&chars("a\r\n b\r\n\tc\n d\n\te\r\nf"))), "abcde\r\nf");
}

#[test]
fn mailto_is_found_in_any_case() {
    assert_eq!(text(extract_mailto(&chars("ATTENDEE:MAILTO:Bob@Example.com;X=1"))), "Bob@Example.com");
    assert_eq!(text(extract_mailto(&chars("ATTENDEE:mailto:bob@example.com"))), "bob@example.com");
    assert_eq!(text(extract_mailto(&chars("ATTENDEE:bob@example.com"))), "");
    assert_eq!(text(extract_mailto(&chars("ÀTTENDEE:mailto:bob@example.com next"))), "bob@example.com");
}

#[test]
fn param_is_quoted_or_bare() {
    assert_eq!(extract_param(&chars("ORGANIZER;CN=\"Alice, A.\":mailto:a@b.c"), "CN").map(text), Some("Alice, A.".into()));
    assert_eq!(extract_param(&chars("ORGANIZER;CN=Alice:mailto:a@b.c"), "CN").map(text), Some("Alice".into()));
    assert_eq!(extract_param(&chars("ORGANIZER;CN=\"Alice:mailto:a@b.c"), "CN").map(text), None);
    assert_eq!(extract_param(&chars("ORGANIZER:mailto:a@b.c"), "CN").map(text), None);
    assert_eq!(extract_param(&chars("ORGANIZER;CN="), "CN").map(text), Some("".into()));
}

#[test]
fn rsvp_exact_text() {
    let rsvp = generate_rsvp(&sample_event(), "BOB@example.com", "DECLINED").unwrap();
    assert_eq!(
        rsvp,
        "BEGIN:VCALENDAR\r\nVERSION:2.0\r\nPRODID:-//Supervillain//EN\r\nMETHOD:REPLY\r\n\
         BEGIN:VEVENT\r\nUID:test-uid-123@example.com\r\nDTSTART:20260215T100000Z\r\n\
         DTEND:20260215T110000Z\r\nSUMMARY:Team Standup\r\n\
         ORGANIZER;CN=Alice:mailto:alice@example.com\r\n\
         ATTENDEE;CN=Bob;PARTSTAT=DECLINED:mailto:BOB@example.com\r\nSEQUENCE:0\r\n\
         END:VEVENT\r\nEND:VCALENDAR"
    );
}

#[test]
fn rsvp_round_trip_keeps_uid_and_method() {
    for sample in [SAMPLE_ICS, SAMPLE_ICS_NO_DTEND, SAMPLE_ICS_ALL_DAY, SAMPLE_ICS_ATTENDEE_NO_CN] {
        let event = parse_ics(sample).unwrap();
        let rsvp = generate_rsvp(&event, "bob@example.com", "TENTATIVE").unwrap();
        let parsed = parse_ics(&rsvp).unwrap();
        assert_eq!(parsed.uid, event.uid);
        assert_eq!(parsed.method, "REPLY");
        assert_eq!(parsed.dtstart, event.dtstart);
        assert_eq!(parsed.dtend, event.dtend);
        assert_eq!(parsed.attendees.len(), 1);
        assert_eq!(parsed.attendees[0].status, "TENTATIVE");
    }
}

#[test]
fn rsvp_of_an_impossible_time_is_none() {
    let mut event: CalendarEvent = sample_event();
    event.dtstart.month = 13;
    assert!(generate_rsvp(&event, "bob@example.com", "ACCEPTED").is_none());
    let mut event: CalendarEvent = sample_event();
    event.dtend = Some(DateTime { year: 2026, month: 2, day: 30, hour: 0, minute: 0, second: 0, nanosecond: 0 });
    assert!(generate_rsvp(&event, "bob@example.com", "ACCEPTED").is_none());
}

#[test]
fn update_partstat_replaces_only_that_attendee() {
    let updated = update_partstat(SAMPLE_ICS, "BOB@example.com", "ACCEPTED");
    let expected = SAMPLE_ICS.replace(
        "ATTENDEE;CN=Bob;PARTSTAT=NEEDS-ACTION:mailto:bob@example.com",
        "ATTENDEE;CN=Bob;PARTSTAT=ACCEPTED:mailto:bob@example.com",
    );
    assert_eq!(updated, expected);
    let event = parse_ics(&updated).unwrap();
    assert_eq!(event.attendees[0].status, "ACCEPTED");
    assert_eq!(event.attendees[1].status, "ACCEPTED");
    let updated = update_partstat(SAMPLE_ICS, "carol@example.com", "DECLINED");
    let event = parse_ics(&updated).unwrap();
    assert_eq!(event.attendees[0].status, "NEEDS-ACTION");
    assert_eq!(event.attendees[1].status, "DECLINED");
}

#[test]
fn update_partstat_adds_a_missing_status() {
    let line = "X-UNKNOWN:keep me\nATTENDEE;CN=Dave:mailto:dave@example.com\r\nATTENDEE:mailto:erin@example.com\n";
    assert_eq!(
        update_partstat(line, "dave@example.com", "TENTATIVE"),
        "X-UNKNOWN:keep me\nATTENDEE;PARTSTAT=TENTATIVE;CN=Dave:mailto:dave@example.com\r\nATTENDEE:mailto:erin@example.com\n"
    );
}

#[test]
fn update_partstat_leaves_other_text_alone() {
    assert_eq!(update_partstat(SAMPLE_ICS, "nobody@example.com", "ACCEPTED"), SAMPLE_ICS);
    assert_eq!(update_partstat("", "bob@example.com", "ACCEPTED"), "");
    assert_eq!(update_partstat("\n\n", "bob@example.com", "ACCEPTED"), "\n\n");
}
