use vimmail::error::Error;
use vimmail::routes::{
    answer_removes_event, calendar_action, choose_attendee, content_disposition, count_split,
    create_split, delete_split, is_safe_path_segment, list_fetch_limit, query_for_sender,
    record_answer, rsvp_submission, sanitize_filename_for_header, split_counts, update_split,
    CalendarAction, RsvpStatus,
};
use vimmail::types::{
    Attendee, CalendarEvent, DateTime, Email, EmailAddress, FilterType, MatchMode, SplitFilter,
    SplitInbox, SplitsConfig,
};

fn address(email: &str) -> EmailAddress {
    EmailAddress { name: None, email: email.into() }
}

fn message(from: &str, to: &[&str], cc: &[&str]) -> Email {
    Email {
        id: "id".into(),
        blob_id: "blob".into(),
        thread_id: "thread".into(),
        mailbox_ids: vec![],
        keywords: vec![],
        received_at: DateTime { year: 2026, month: 1, day: 1, hour: 0, minute: 0, second: 0, nanosecond: 0 },
        subject: "Subject".into(),
        from: vec![address(from)],
        to: to.iter().map(|a| address(a)).collect(),
        cc: cc.iter().map(|a| address(a)).collect(),
        preview: String::new(),
        has_attachment: false,
        size: 0,
        text_body: None,
        html_body: None,
        has_calendar: false,
        attachments: vec![],
    }
}

fn event(attendees: &[&str]) -> CalendarEvent {
    CalendarEvent {
        uid: "uid-1".into(),
        summary: "Team Standup".into(),
        dtstart: DateTime { year: 2026, month: 2, day: 15, hour: 10, minute: 0, second: 0, nanosecond: 0 },
        dtend: None,
        location: None,
        description: None,
        organizer_email: "alice@example.com".into(),
        organizer_name: None,
        attendees: attendees
            .iter()
            .map(|a| Attendee { email: (*a).into(), name: None, status: "NEEDS-ACTION".into() })
            .collect(),
        sequence: 0,
        method: "REQUEST".into(),
        raw_ics: String::new(),
    }
}

#[test]
fn safe_path_segment_rejects_traversal() {
    assert!(!is_safe_path_segment("../etc/passwd"));
    assert!(!is_safe_path_segment(".."));
    assert!(!is_safe_path_segment("."));
    assert!(!is_safe_path_segment("foo/bar"));
    assert!(!is_safe_path_segment("foo\\bar"));
    assert!(!is_safe_path_segment(""));
    assert!(!is_safe_path_segment("foo\0bar"));
}

#[test]
fn safe_path_segment_accepts_valid() {
    assert!(is_safe_path_segment("blob-abc123"));
    assert!(is_safe_path_segment("report.pdf"));
    assert!(is_safe_path_segment("G1234abcdef"));
    assert!(is_safe_path_segment("file..backup.pdf"));
}

#[test]
fn sanitize_filename_strips_dangerous_chars() {
    assert_eq!(sanitize_filename_for_header("normal.pdf"), "normal.pdf");
    assert_eq!(sanitize_filename_for_header("file\".txt"), "file.txt");
    assert_eq!(
        sanitize_filename_for_header("file\r\ninjected"),
        "fileinjected"
    );
    assert_eq!(
        sanitize_filename_for_header("file\\\"name.txt"),
        "filename.txt"
    );
}

#[test]
fn safe_path_segment_accepts_dots_among_other_characters() {
    assert!(is_safe_path_segment("..."));
    assert!(is_safe_path_segment(".a"));
    assert!(is_safe_path_segment("é"));
}

#[test]
fn content_disposition_quotes_the_sanitized_name() {
    assert_eq!(
        content_disposition("re\"port\r\n.pdf"),
        "attachment; filename=\"report.pdf\""
    );
}

#[test]
fn fetch_limit_is_tenfold_for_a_split_view() {
    assert_eq!(list_fetch_limit(150, false), 150);
    assert_eq!(list_fetch_limit(150, true), 1500);
    assert_eq!(list_fetch_limit(usize::MAX, true), usize::MAX);
    assert_eq!(list_fetch_limit(usize::MAX / 10, true), usize::MAX / 10 * 10);
    assert_eq!(list_fetch_limit(usize::MAX / 10 + 1, true), usize::MAX);
}

#[test]
fn rsvp_status_texts() {
    assert_eq!(RsvpStatus::Accepted.as_ics_str(), "ACCEPTED");
    assert_eq!(RsvpStatus::Tentative.as_ics_str(), "TENTATIVE");
    assert_eq!(RsvpStatus::Declined.as_ics_str(), "DECLINED");
}

#[test]
fn attendee_is_first_invited_recipient() {
    let ev = event(&["carol@example.com", "BOB@example.com"]);
    let msg = message("alice@example.com", &["dave@example.com", "bob@example.com"], &["carol@example.com"]);
    assert_eq!(choose_attendee(&msg, &ev, "me@example.com"), "bob@example.com");
    let msg = message("alice@example.com", &["dave@example.com"], &["x@example.com", "Carol@Example.com"]);
    assert_eq!(choose_attendee(&msg, &ev, "me@example.com"), "Carol@Example.com");
    let msg = message("alice@example.com", &["dave@example.com"], &[]);
    assert_eq!(choose_attendee(&msg, &ev, "me@example.com"), "me@example.com");
}

#[test]
fn rsvp_submission_addresses_the_organizer() {
    let ev = event(&["bob@example.com"]);
    let sub = rsvp_submission(&ev, "bob@example.com", RsvpStatus::Tentative, "BEGIN:VCALENDAR");
    assert_eq!(sub.to, vec!["alice@example.com"]);
    assert!(sub.cc.is_empty());
    assert_eq!(sub.subject, "Re: Team Standup");
    assert_eq!(sub.text_body, "bob@example.com has tentative the invitation: Team Standup");
    assert_eq!(sub.calendar_ics.as_deref(), Some("BEGIN:VCALENDAR"));
    assert!(sub.html_body.is_none());
    assert!(sub.bcc.is_none());
    assert!(sub.attachments.is_empty());
}

#[test]
fn split_counts_follow_the_splits() {
    let emails = vec![
        message("a@x.com", &["me@one.com"], &[]),
        message("b@x.com", &["me@two.com"], &[]),
        message("c@y.com", &["me@one.com"], &[]),
    ];
    let rule = |id: &str, kind: FilterType, pattern: &str| SplitInbox {
        id: id.into(),
        name: id.into(),
        icon: None,
        filters: vec![SplitFilter { filter_type: kind, pattern: pattern.into(), name: None }],
        match_mode: MatchMode::Any,
    };
    let config = SplitsConfig {
        splits: vec![
            rule("one", FilterType::To, "*@one.com"),
            rule("x", FilterType::From, "*@x.com"),
            rule("none", FilterType::From, "*@z.com"),
        ],
    };
    assert_eq!(count_split(&emails, &config.splits[0]), 2);
    assert_eq!(
        split_counts(&emails, &config),
        vec![("one".to_string(), 2), ("x".to_string(), 2), ("none".to_string(), 0)]
    );
}

#[test]
fn an_answer_is_recorded_for_the_first_attendee_with_the_address() {
    let mut ev = event(&["carol@example.com", "Bob@example.com", "bob@example.com"]);
    ev.attendees[1].name = Some("Bob".into());
    record_answer(&mut ev, "BOB@EXAMPLE.COM", "ACCEPTED");
    let statuses: Vec<&str> = ev.attendees.iter().map(|a| a.status.as_str()).collect();
    assert_eq!(statuses, vec!["NEEDS-ACTION", "ACCEPTED", "NEEDS-ACTION"]);
    assert_eq!(ev.attendees[1].email, "Bob@example.com");
    assert_eq!(ev.attendees[1].name.as_deref(), Some("Bob"));
    record_answer(&mut ev, "nobody@example.com", "DECLINED");
    let statuses: Vec<&str> = ev.attendees.iter().map(|a| a.status.as_str()).collect();
    assert_eq!(statuses, vec!["NEEDS-ACTION", "ACCEPTED", "NEEDS-ACTION"]);
    assert_eq!(ev.uid, "uid-1");
}

fn named(id: &str, name: &str) -> SplitInbox {
    SplitInbox { id: id.into(), name: name.into(), icon: None, filters: vec![], match_mode: MatchMode::Any }
}

fn names(config: &SplitsConfig) -> Vec<&str> {
    config.splits.iter().map(|s| s.name.as_str()).collect()
}

#[test]
fn splits_are_created_updated_and_deleted_by_id() {
    let mut config = SplitsConfig { splits: vec![named("a", "A"), named("b", "B"), named("a", "A2")] };
    assert!(create_split(&mut config, named("c", "C")).is_ok());
    assert_eq!(names(&config), vec!["A", "B", "A2", "C"]);
    assert!(matches!(
        create_split(&mut config, named("b", "again")),
        Err(Error::BadRequest(m)) if m == "Split with id 'b' already exists"
    ));
    assert_eq!(names(&config), vec!["A", "B", "A2", "C"]);
    assert!(update_split(&mut config, "a", named("z", "Z")).is_ok());
    assert_eq!(names(&config), vec!["Z", "B", "A2", "C"]);
    assert!(matches!(
        update_split(&mut config, "missing", named("m", "M")),
        Err(Error::NotFound(m)) if m == "Split 'missing' not found"
    ));
    config.splits.push(named("b", "B2"));
    assert!(delete_split(&mut config, "b").is_ok());
    assert_eq!(names(&config), vec!["Z", "A2", "C"]);
    assert!(matches!(
        delete_split(&mut config, "b"),
        Err(Error::NotFound(m)) if m == "Split 'b' not found"
    ));
    assert_eq!(names(&config), vec!["Z", "A2", "C"]);
}

#[test]
fn reading_an_invitation_acts_on_the_calendar() {
    let mut ev = event(&[]);
    assert_eq!(calendar_action(&ev), CalendarAction::Add);
    ev.method = "CANCEL".into();
    assert_eq!(calendar_action(&ev), CalendarAction::Remove);
    for method in ["REPLY", "request", "", "PUBLISH"] {
        ev.method = method.into();
        assert_eq!(calendar_action(&ev), CalendarAction::Nothing);
    }
    assert!(answer_removes_event(RsvpStatus::Declined));
    assert!(!answer_removes_event(RsvpStatus::Accepted));
    assert!(!answer_removes_event(RsvpStatus::Tentative));
}

#[test]
fn unsubscribing_asks_for_everything_from_the_sender() {
    let mut msg = message("news@example.com", &["me@example.com"], &[]);
    msg.from.push(address("second@example.com"));
    let query = query_for_sender(&msg).unwrap();
    assert_eq!(query.from, vec!["news@example.com"]);
    assert!(query.to.is_empty() && query.subject.is_empty() && query.text.is_empty());
    assert!(!query.has_attachment && query.is_unread.is_none() && query.before.is_none());
    msg.from[0].email.clear();
    assert!(matches!(query_for_sender(&msg), Err(Error::BadRequest(m)) if m == "No sender found"));
    msg.from.clear();
    assert!(matches!(query_for_sender(&msg), Err(Error::BadRequest(m)) if m == "No sender found"));
}
