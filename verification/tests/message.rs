use vimmail::json::Json;
use vimmail::message::{
    parse_addresses, parse_identity, parse_jmap_email, parse_jmap_email_at, parse_mailbox,
};
use vimmail::types::DateTime;

fn s(v: &str) -> Json {
    Json::Str(v.into())
}

fn n(v: i64) -> Json {
    Json::Number(v.to_string())
}

fn arr(items: Vec<Json>) -> Json {
    Json::Array(items)
}

fn obj(entries: Vec<(&str, Json)>) -> Json {
    Json::Object(entries.into_iter().map(|(k, v)| (k.to_string(), v)).collect())
}

fn part(id: &str, mime: &str) -> Json {
    obj(vec![("partId", s(id)), ("type", s(mime))])
}

fn value(text: &str) -> Json {
    obj(vec![("value", s(text))])
}

fn record(
    id: &str,
    subject: &str,
    text_body: Vec<Json>,
    html_body: Vec<Json>,
    body_values: Vec<(&str, Json)>,
    structure: &str,
) -> Json {
    obj(vec![
        ("id", s(id)),
        ("blobId", s("blob-1")),
        ("threadId", s("thread-1")),
        ("mailboxIds", obj(vec![("inbox-id", Json::Bool(true))])),
        ("keywords", obj(vec![("$seen", Json::Bool(true))])),
        ("receivedAt", s("2024-01-15T10:30:00Z")),
        ("subject", s(subject)),
        ("from", arr(vec![obj(vec![("name", s("Alice")), ("email", s("alice@example.com"))])])),
        ("to", arr(vec![obj(vec![("name", s("Bob")), ("email", s("bob@example.com"))])])),
        ("cc", arr(vec![])),
        ("preview", s("Hello there")),
        ("hasAttachment", Json::Bool(false)),
        ("size", n(500)),
        ("textBody", arr(text_body)),
        ("htmlBody", arr(html_body)),
        ("bodyValues", obj(body_values)),
        ("bodyStructure", obj(vec![("type", s(structure))])),
    ])
}

#[test]
fn parse_single_text_body_part() {
    let item = record(
        "email-1",
        "Hello",
        vec![part("1", "text/plain")],
        vec![],
        vec![("1", value("Hello there"))],
        "text/plain",
    );
    let email = parse_jmap_email(&item, true);
    assert_eq!(email.text_body, Some("Hello there".into()));
    assert_eq!(email.html_body, None);
}

#[test]
fn parse_single_html_body_part() {
    let item = record(
        "email-2",
        "HTML Email",
        vec![],
        vec![part("1", "text/html")],
        vec![("1", value("<p>Hello</p>"))],
        "text/html",
    );
    let email = parse_jmap_email(&item, true);
    assert_eq!(email.text_body, None);
    assert_eq!(email.html_body, Some("<p>Hello</p>".into()));
}

#[test]
fn parse_both_text_and_html_single_parts() {
    let item = record(
        "email-3",
        "Both Bodies",
        vec![part("t1", "text/plain")],
        vec![part("h1", "text/html")],
        vec![("t1", value("Plain text version")), ("h1", value("<p>HTML version</p>"))],
        "multipart/alternative",
    );
    let email = parse_jmap_email(&item, true);
    assert_eq!(email.text_body, Some("Plain text version".into()));
    assert_eq!(email.html_body, Some("<p>HTML version</p>".into()));
}

#[test]
fn parse_no_body_when_fetch_body_false() {
    let item = record(
        "email-4",
        "No Body",
        vec![obj(vec![("partId", s("1"))])],
        vec![obj(vec![("partId", s("2"))])],
        vec![("1", value("Text")), ("2", value("<p>HTML</p>"))],
        "multipart/alternative",
    );
    let email = parse_jmap_email(&item, false);
    assert_eq!(email.text_body, None);
    assert_eq!(email.html_body, None);
}

#[test]
fn parse_multiple_text_body_parts_concatenated() {
    let item = record(
        "email-5",
        "Fwd: Original",
        vec![part("1", "text/plain"), part("2", "text/plain")],
        vec![],
        vec![
            ("1", value("See below forwarded message.")),
            ("2", value("This is the original message text.")),
        ],
        "multipart/mixed",
    );
    let email = parse_jmap_email(&item, true);
    let text = email.text_body.expect("text_body should be Some");
    assert!(
        text.contains("See below forwarded message."),
        "Should contain first part: {text}"
    );
    assert!(
        text.contains("This is the original message text."),
        "Should contain second part: {text}"
    );
    assert!(
        !text.contains("message.This"),
        "Parts should be separated, not concatenated directly: {text}"
    );
}

#[test]
fn parse_multiple_html_body_parts_concatenated() {
    let item = record(
        "email-6",
        "Fwd: Newsletter",
        vec![],
        vec![part("1", "text/html"), part("2", "text/html")],
        vec![
            ("1", value("<p>FYI see below</p>")),
            ("2", value("<div>Original newsletter content</div>")),
        ],
        "multipart/mixed",
    );
    let email = parse_jmap_email(&item, true);
    let html = email.html_body.expect("html_body should be Some");
    assert!(
        html.contains("<p>FYI see below</p>"),
        "Should contain first HTML part: {html}"
    );
    assert!(
        html.contains("<div>Original newsletter content</div>"),
        "Should contain second HTML part: {html}"
    );
    assert!(
        html.contains("</p>\n<div>"),
        "HTML parts should be separated by newline: {html}"
    );
}

#[test]
fn html_body_of_two_parts_is_joined_by_a_line_feed() {
    let item = record(
        "email-7",
        "Two",
        vec![],
        vec![part("a", "text/html"), part("b", "text/html")],
        vec![("a", value("<p>A</p>")), ("b", value("<div>B</div>"))],
        "multipart/mixed",
    );
    let email = parse_jmap_email(&item, true);
    assert_eq!(email.html_body.as_deref(), Some("<p>A</p>\n<div>B</div>"));
}

#[test]
fn parse_reads_every_field() {
    let item = record("email-1", "Hello", vec![], vec![], vec![], "text/plain");
    let email = parse_jmap_email(&item, false);
    assert_eq!(email.id, "email-1");
    assert_eq!(email.blob_id, "blob-1");
    assert_eq!(email.thread_id, "thread-1");
    assert_eq!(email.subject, "Hello");
    assert_eq!(email.preview, "Hello there");
    assert_eq!(email.size, 500);
    assert!(!email.has_attachment);
    assert!(!email.has_calendar);
    assert!(email.attachments.is_empty());
    assert_eq!(email.mailbox_ids.len(), 1);
    assert_eq!(email.mailbox_ids[0].key, "inbox-id");
    assert!(email.mailbox_ids[0].on);
    assert!(!email.is_unread());
    assert!(!email.is_flagged());
    assert_eq!(email.from.len(), 1);
    assert_eq!(email.from[0].name.as_deref(), Some("Alice"));
    assert_eq!(email.from[0].email, "alice@example.com");
    assert_eq!(email.to[0].email, "bob@example.com");
    assert!(email.cc.is_empty());
    assert_eq!(
        email.received_at,
        DateTime { year: 2024, month: 1, day: 15, hour: 10, minute: 30, second: 0, nanosecond: 0 }
    );
}

#[test]
fn parse_defaults_for_an_empty_record() {
    let fallback = DateTime { year: 1999, month: 12, day: 31, hour: 23, minute: 59, second: 58, nanosecond: 7 };
    for item in [obj(vec![]), Json::Null, s("text")] {
        let email = parse_jmap_email_at(&item, true, &fallback);
        assert_eq!(email.id, "");
        assert_eq!(email.subject, "");
        assert_eq!(email.size, 0);
        assert!(email.keywords.is_empty());
        assert!(email.from.is_empty());
        assert!(email.text_body.is_none());
        assert!(!email.has_calendar);
        assert!(email.attachments.is_empty());
        assert!(email.is_unread());
        assert_eq!(email.received_at, fallback);
    }
}

#[test]
fn parse_converts_the_time_of_receipt_to_utc() {
    let fallback = DateTime { year: 1, month: 1, day: 1, hour: 0, minute: 0, second: 0, nanosecond: 0 };
    let item = obj(vec![("receivedAt", s("2024-03-01T01:30:00.5+02:00"))]);
    let email = parse_jmap_email_at(&item, false, &fallback);
    assert_eq!(
        email.received_at,
        DateTime { year: 2024, month: 2, day: 29, hour: 23, minute: 30, second: 0, nanosecond: 500_000_000 }
    );
    let item = obj(vec![("receivedAt", s("yesterday"))]);
    assert_eq!(parse_jmap_email_at(&item, false, &fallback).received_at, fallback);
}

#[test]
fn parse_reads_keywords_and_attachments() {
    let item = obj(vec![
        ("keywords", obj(vec![("$flagged", s("yes")), ("$draft", Json::Bool(false))])),
        (
            "bodyStructure",
            obj(vec![
                ("type", s("multipart/mixed")),
                (
                    "subParts",
                    arr(vec![
                        obj(vec![("type", s("text/calendar")), ("blobId", s("cal"))]),
                        obj(vec![
                            ("type", s("application/pdf")),
                            ("blobId", s("pdf")),
                            ("name", s("a.pdf")),
                        ]),
                    ]),
                ),
            ]),
        ),
    ]);
    let email = parse_jmap_email(&item, true);
    assert!(email.is_flagged());
    assert!(email.is_unread());
    assert_eq!(email.keywords.len(), 2);
    assert!(email.keywords[0].on);
    assert!(!email.keywords[1].on);
    assert!(email.has_calendar);
    assert_eq!(email.attachments.len(), 1);
    assert_eq!(email.attachments[0].blob_id, "pdf");
    let email = parse_jmap_email(&item, false);
    assert!(!email.has_calendar);
    assert!(email.attachments.is_empty());
}

#[test]
fn addresses_drop_empty_names() {
    let list = arr(vec![
        obj(vec![("name", s("")), ("email", s("a@example.com"))]),
        obj(vec![("name", n(3)), ("email", s("b@example.com"))]),
        obj(vec![("name", s("Carol"))]),
        s("not an object"),
    ]);
    let addresses = parse_addresses(Some(&list));
    assert_eq!(addresses.len(), 4);
    assert!(addresses[0].name.is_none());
    assert!(addresses[1].name.is_none());
    assert_eq!(addresses[2].name.as_deref(), Some("Carol"));
    assert_eq!(addresses[2].email, "");
    assert_eq!(addresses[3].email, "");
    assert!(parse_addresses(None).is_empty());
    assert!(parse_addresses(Some(&obj(vec![]))).is_empty());
}

#[test]
fn mailbox_and_identity_records() {
    let mb = parse_mailbox(&obj(vec![
        ("id", s("mb-1")),
        ("name", s("Inbox")),
        ("role", s("inbox")),
        ("totalEmails", n(42)),
        ("unreadEmails", n(5)),
        ("parentId", Json::Null),
    ]));
    assert_eq!(mb.id, "mb-1");
    assert_eq!(mb.name, "Inbox");
    assert_eq!(mb.role.as_deref(), Some("inbox"));
    assert_eq!(mb.total_emails, 42);
    assert_eq!(mb.unread_emails, 5);
    assert!(mb.parent_id.is_none());
    let mb = parse_mailbox(&obj(vec![("totalEmails", Json::Number("1.5".into()))]));
    assert_eq!(mb.id, "");
    assert!(mb.role.is_none());
    assert_eq!(mb.total_emails, 0);
    let identity = parse_identity(&obj(vec![
        ("id", s("id1")),
        ("email", s("test@example.com")),
        ("name", s("Test User")),
    ]));
    assert_eq!(identity.id, "id1");
    assert_eq!(identity.email, "test@example.com");
    assert_eq!(identity.name, "Test User");
}

#[test]
fn a_key_that_stands_twice_counts_once() {
    let item = Json::Object(vec![(
        "keywords".to_string(),
        Json::Object(vec![
            ("$seen".to_string(), Json::Bool(false)),
            ("$flagged".to_string(), Json::Bool(true)),
            ("$seen".to_string(), Json::Bool(true)),
        ]),
    )]);
    let email = parse_jmap_email(&item, false);
    let keys: Vec<(&str, bool)> = email.keywords.iter().map(|f| (f.key.as_str(), f.on)).collect();
    assert_eq!(keys, vec![("$seen", false), ("$flagged", true)]);
    assert!(!email.is_unread());
    assert!(email.is_flagged());
}
