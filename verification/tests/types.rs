use vimmail::types::{
    flag_present, Date, DateTime, Email, EmailAddress, Flag, MatchMode, ParsedQuery, SplitsConfig,
};

fn test_email() -> Email {
    Email {
        id: "test-id".into(),
        blob_id: "blob-id".into(),
        thread_id: "thread-id".into(),
        mailbox_ids: vec![],
        keywords: vec![],
        received_at: DateTime { year: 2026, month: 1, day: 2, hour: 3, minute: 4, second: 5, nanosecond: 0 },
        subject: "Test Subject".into(),
        from: vec![EmailAddress {
            name: None,
            email: "sender@example.com".into(),
        }],
        to: vec![EmailAddress {
            name: None,
            email: "recipient@example.com".into(),
        }],
        cc: vec![],
        preview: "Preview".into(),
        has_attachment: false,
        size: 1000,
        text_body: None,
        html_body: None,
        has_calendar: false,
        attachments: vec![],
    }
}

#[test]
fn email_is_unread_when_no_seen_keyword() {
    let email = test_email();
    assert!(email.is_unread());
}

#[test]
fn email_is_read_when_seen_keyword_present() {
    let mut email = test_email();
    email.keywords.push(Flag { key: "$seen".into(), on: true });
    assert!(!email.is_unread());
}

#[test]
fn email_is_flagged_when_flagged_keyword_present() {
    let mut email = test_email();
    email.keywords.push(Flag { key: "$flagged".into(), on: true });
    assert!(email.is_flagged());
}

#[test]
fn email_not_flagged_by_default() {
    let email = test_email();
    assert!(!email.is_flagged());
}

#[test]
fn splits_config_empty_default() {
    let config = SplitsConfig::default();
    assert!(config.splits.is_empty());
}

#[test]
fn a_keyword_counts_whatever_its_flag() {
    let mut email = test_email();
    email.keywords.push(Flag { key: "$draft".into(), on: true });
    email.keywords.push(Flag { key: "$seen".into(), on: false });
    assert!(!email.is_unread());
    assert!(!email.is_flagged());
    assert!(flag_present(&email.keywords, "$draft"));
    assert!(!flag_present(&email.keywords, "$Seen"));
}

#[test]
fn default_values() {
    assert_eq!(MatchMode::default(), MatchMode::Any);
    let q = ParsedQuery::default();
    assert!(q.is_empty());
    assert!(q.text.is_empty());
    let q = ParsedQuery { text: "x".into(), ..Default::default() };
    assert!(!q.is_empty());
    let q = ParsedQuery { is_unread: Some(false), ..Default::default() };
    assert!(!q.is_empty());
}

#[test]
fn a_date_begins_at_midnight() {
    let d = Date { year: 2026, month: 2, day: 15 };
    assert_eq!(
        d.at_midnight(),
        DateTime { year: 2026, month: 2, day: 15, hour: 0, minute: 0, second: 0, nanosecond: 0 }
    );
}
