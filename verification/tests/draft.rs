use vimmail::draft::{build_body_structure, build_draft_email};
use vimmail::json::Json;
use vimmail::types::{Attachment, EmailSubmission};

fn s(v: &str) -> Json {
    Json::Str(v.into())
}

fn arr(items: Vec<Json>) -> Json {
    Json::Array(items)
}

fn obj(entries: Vec<(&str, Json)>) -> Json {
    Json::Object(entries.into_iter().map(|(k, v)| (k.to_string(), v)).collect())
}

fn at<'a>(doc: &'a Json, path: &[&str]) -> &'a Json {
    let mut here = doc;
    for key in path {
        here = here.get(key).expect("the field is there");
    }
    here
}

fn parts(draft: &Json) -> &Vec<Json> {
    at(draft, &["bodyStructure", "subParts"]).as_array().expect("subParts")
}

fn kind(part: &Json) -> &str {
    at(part, &["type"]).as_str().expect("type")
}

fn simple_submission() -> EmailSubmission {
    EmailSubmission {
        to: vec!["bob@example.com".into()],
        cc: vec![],
        subject: "Test".into(),
        text_body: "Hello".into(),
        bcc: None,
        html_body: None,
        in_reply_to: None,
        references: None,
        attachments: vec![],
        calendar_ics: None,
    }
}

#[test]
fn draft_includes_mailbox_ids() {
    let sub = simple_submission();
    let draft = build_draft_email(&sub, "alice@example.com", "mb-drafts-123");
    let ids = draft.get("mailboxIds").expect("mailboxIds must be present");
    assert_eq!(ids, &obj(vec![("mb-drafts-123", Json::Bool(true))]));
}

#[test]
fn draft_forward_includes_mailbox_ids() {
    let sub = EmailSubmission {
        to: vec!["charlie@example.com".into()],
        subject: "Fwd: Important".into(),
        text_body: "---------- Forwarded message ---------\n...".into(),
        ..simple_submission()
    };
    let draft = build_draft_email(&sub, "alice@example.com", "mb-drafts-456");
    let ids = draft.get("mailboxIds").expect("mailboxIds must be present");
    assert_eq!(ids, &obj(vec![("mb-drafts-456", Json::Bool(true))]));
}

#[test]
fn draft_reply_includes_mailbox_ids() {
    let sub = EmailSubmission {
        subject: "Re: Hello".into(),
        text_body: "Reply body".into(),
        in_reply_to: Some("<msg-123@example.com>".into()),
        references: Some(vec!["<msg-123@example.com>".into()]),
        ..simple_submission()
    };
    let draft = build_draft_email(&sub, "alice@example.com", "mb-drafts-789");
    assert!(draft.contains_key("mailboxIds"));
    assert!(draft.contains_key("inReplyTo"));
    assert!(draft.contains_key("references"));
    assert_eq!(at(&draft, &["inReplyTo"]), &arr(vec![s("<msg-123@example.com>")]));
    assert_eq!(at(&draft, &["references"]), &arr(vec![s("<msg-123@example.com>")]));
}

#[test]
fn draft_sets_from_to_subject_body() {
    let sub = simple_submission();
    let draft = build_draft_email(&sub, "alice@example.com", "mb-drafts");
    assert_eq!(
        at(&draft, &["from"]),
        &arr(vec![obj(vec![("email", s("alice@example.com"))])])
    );
    assert_eq!(
        at(&draft, &["to"]),
        &arr(vec![obj(vec![("email", s("bob@example.com"))])])
    );
    assert_eq!(at(&draft, &["subject"]), &s("Test"));
}

#[test]
fn draft_omits_empty_cc_and_bcc() {
    let sub = simple_submission();
    let draft = build_draft_email(&sub, "a@b.com", "mb");
    assert!(!draft.contains_key("cc"));
    assert!(!draft.contains_key("bcc"));
    let sub = EmailSubmission { bcc: Some(vec![]), ..simple_submission() };
    let draft = build_draft_email(&sub, "a@b.com", "mb");
    assert!(!draft.contains_key("bcc"));
}

#[test]
fn draft_includes_cc_and_bcc_when_present() {
    let sub = EmailSubmission {
        cc: vec!["cc@example.com".into()],
        bcc: Some(vec!["bcc@example.com".into()]),
        ..simple_submission()
    };
    let draft = build_draft_email(&sub, "a@b.com", "mb");
    assert_eq!(
        at(&draft, &["cc"]),
        &arr(vec![obj(vec![("email", s("cc@example.com"))])])
    );
    assert_eq!(
        at(&draft, &["bcc"]),
        &arr(vec![obj(vec![("email", s("bcc@example.com"))])])
    );
}

#[test]
fn draft_text_only_when_no_html_body() {
    let sub = simple_submission();
    let draft = build_draft_email(&sub, "alice@example.com", "mb-drafts");
    assert!(
        !draft.contains_key("textBody"),
        "textBody must not be set when bodyStructure is present"
    );
    assert_eq!(at(&draft, &["bodyValues", "body", "value"]), &s("Hello"));
    assert!(
        draft.contains_key("bodyStructure"),
        "Text-only draft should have bodyStructure"
    );
    assert_eq!(
        at(&draft, &["bodyStructure", "type"]),
        &s("text/plain"),
        "Text-only bodyStructure should be text/plain"
    );
}

#[test]
fn draft_multipart_when_html_body_present() {
    let sub = EmailSubmission {
        subject: "Rich email".into(),
        text_body: "Hello, world!".into(),
        html_body: Some("<p>Hello, world!</p>".into()),
        ..simple_submission()
    };
    let draft = build_draft_email(&sub, "alice@example.com", "mb-drafts");
    assert!(
        !draft.contains_key("textBody"),
        "textBody must not be set when bodyStructure is present"
    );
    assert!(
        !draft.contains_key("htmlBody"),
        "htmlBody must not be set when bodyStructure is present"
    );
    let body_values = at(&draft, &["bodyValues"])
        .as_object()
        .expect("bodyValues should be an object");
    let has_html = body_values
        .iter()
        .any(|(_, v)| v.get("value").and_then(|t| t.as_str()) == Some("<p>Hello, world!</p>"));
    assert!(has_html, "bodyValues should contain the HTML content");
    let has_text = body_values
        .iter()
        .any(|(_, v)| v.get("value").and_then(|t| t.as_str()) == Some("Hello, world!"));
    assert!(has_text, "bodyValues should still contain the text content");
    assert!(
        draft.contains_key("bodyStructure"),
        "Multipart draft should have bodyStructure"
    );
    assert_eq!(
        at(&draft, &["bodyStructure", "type"]),
        &s("multipart/alternative"),
        "bodyStructure type should be multipart/alternative"
    );
    let sub_parts = parts(&draft);
    assert_eq!(sub_parts.len(), 2, "Should have text and html sub-parts");
    assert_eq!(kind(&sub_parts[0]), "text/plain");
    assert_eq!(kind(&sub_parts[1]), "text/html");
}

#[test]
fn draft_with_calendar_ics_has_multipart_mixed() {
    let sub = EmailSubmission {
        to: vec!["organizer@example.com".into()],
        subject: "Re: Team Standup".into(),
        text_body: "Bob has accepted the invitation: Team Standup".into(),
        calendar_ics: Some("BEGIN:VCALENDAR\r\nMETHOD:REPLY\r\nEND:VCALENDAR".into()),
        ..simple_submission()
    };
    let draft = build_draft_email(&sub, "bob@example.com", "mb-drafts");
    assert_eq!(
        at(&draft, &["bodyStructure", "type"]),
        &s("multipart/mixed"),
        "Calendar draft should use multipart/mixed"
    );
    let sub_parts = parts(&draft);
    assert_eq!(sub_parts.len(), 2);
    assert_eq!(kind(&sub_parts[0]), "text/plain");
    assert_eq!(kind(&sub_parts[1]), "text/calendar; method=REPLY");
}

#[test]
fn draft_without_calendar_ics_unchanged() {
    let sub = simple_submission();
    let draft = build_draft_email(&sub, "alice@example.com", "mb-drafts");
    assert_eq!(
        at(&draft, &["bodyStructure", "type"]),
        &s("text/plain"),
        "Non-calendar draft should stay text/plain"
    );
}

#[test]
fn draft_calendar_body_value_contains_ics() {
    let ics = "BEGIN:VCALENDAR\r\nVERSION:2.0\r\nMETHOD:REPLY\r\nEND:VCALENDAR";
    let sub = EmailSubmission {
        to: vec!["organizer@example.com".into()],
        subject: "Re: Meeting".into(),
        text_body: "Accepted".into(),
        calendar_ics: Some(ics.into()),
        ..simple_submission()
    };
    let draft = build_draft_email(&sub, "bob@example.com", "mb-drafts");
    assert_eq!(at(&draft, &["bodyValues", "calendar", "value"]), &s(ics));
    assert_eq!(at(&draft, &["bodyValues", "body", "value"]), &s("Accepted"));
}

fn pdf_attachment() -> Attachment {
    Attachment {
        blob_id: "blob-pdf-123".into(),
        name: "report.pdf".into(),
        mime_type: "application/pdf".into(),
        size: 12345,
    }
}

#[test]
fn draft_text_with_attachment_wraps_in_mixed() {
    let sub = EmailSubmission {
        subject: "With attachment".into(),
        text_body: "See attached".into(),
        attachments: vec![pdf_attachment()],
        ..simple_submission()
    };
    let draft = build_draft_email(&sub, "alice@example.com", "mb-drafts");
    assert_eq!(at(&draft, &["bodyStructure", "type"]), &s("multipart/mixed"));
    let parts = parts(&draft);
    assert_eq!(parts.len(), 2);
    assert_eq!(kind(&parts[0]), "text/plain");
    assert_eq!(at(&parts[0], &["partId"]), &s("body"));
    assert_eq!(kind(&parts[1]), "application/pdf");
    assert_eq!(at(&parts[1], &["blobId"]), &s("blob-pdf-123"));
    assert_eq!(at(&parts[1], &["name"]), &s("report.pdf"));
    assert_eq!(at(&parts[1], &["disposition"]), &s("attachment"));
    assert_eq!(at(&parts[1], &["size"]).as_i64(), Some(12345));
}

#[test]
fn draft_html_with_attachment_wraps_in_mixed() {
    let sub = EmailSubmission {
        subject: "HTML + attachment".into(),
        text_body: "See attached".into(),
        html_body: Some("<p>See attached</p>".into()),
        attachments: vec![pdf_attachment()],
        ..simple_submission()
    };
    let draft = build_draft_email(&sub, "alice@example.com", "mb-drafts");
    assert_eq!(at(&draft, &["bodyStructure", "type"]), &s("multipart/mixed"));
    let parts = parts(&draft);
    assert_eq!(parts.len(), 2);
    assert_eq!(kind(&parts[0]), "multipart/alternative");
    assert_eq!(at(&parts[0], &["subParts"]).as_array().unwrap().len(), 2);
    assert_eq!(kind(&parts[1]), "application/pdf");
    assert_eq!(at(&parts[1], &["blobId"]), &s("blob-pdf-123"));
}

#[test]
fn draft_calendar_with_attachment_appends() {
    let sub = EmailSubmission {
        to: vec!["organizer@example.com".into()],
        subject: "Re: Meeting".into(),
        text_body: "Accepted".into(),
        attachments: vec![pdf_attachment()],
        calendar_ics: Some("BEGIN:VCALENDAR\r\nMETHOD:REPLY\r\nEND:VCALENDAR".into()),
        ..simple_submission()
    };
    let draft = build_draft_email(&sub, "bob@example.com", "mb-drafts");
    assert_eq!(at(&draft, &["bodyStructure", "type"]), &s("multipart/mixed"));
    let parts = parts(&draft);
    assert_eq!(parts.len(), 3);
    assert_eq!(kind(&parts[0]), "text/plain");
    assert_eq!(kind(&parts[1]), "text/calendar; method=REPLY");
    assert_eq!(kind(&parts[2]), "application/pdf");
}

#[test]
fn draft_multiple_attachments() {
    let sub = EmailSubmission {
        subject: "Multiple".into(),
        text_body: "See attached".into(),
        attachments: vec![
            pdf_attachment(),
            Attachment {
                blob_id: "blob-img-456".into(),
                name: "photo.jpg".into(),
                mime_type: "image/jpeg".into(),
                size: 54321,
            },
            Attachment {
                blob_id: "blob-doc-789".into(),
                name: "notes.txt".into(),
                mime_type: "text/plain".into(),
                size: 100,
            },
        ],
        ..simple_submission()
    };
    let draft = build_draft_email(&sub, "alice@example.com", "mb-drafts");
    assert_eq!(at(&draft, &["bodyStructure", "type"]), &s("multipart/mixed"));
    let parts = parts(&draft);
    assert_eq!(parts.len(), 4);
    assert_eq!(kind(&parts[0]), "text/plain");
    assert_eq!(at(&parts[1], &["blobId"]), &s("blob-pdf-123"));
    assert_eq!(at(&parts[2], &["blobId"]), &s("blob-img-456"));
    assert_eq!(at(&parts[3], &["blobId"]), &s("blob-doc-789"));
}

#[test]
fn draft_no_attachments_unchanged() {
    let sub = simple_submission();
    let draft = build_draft_email(&sub, "alice@example.com", "mb-drafts");
    assert_eq!(at(&draft, &["bodyStructure", "type"]), &s("text/plain"));
    assert!(at(&draft, &["bodyStructure"]).get("subParts").is_none());
}

#[test]
fn text_only_draft_has_no_html_or_calendar_part() {
    for attachments in [vec![], vec![pdf_attachment()]] {
        let sub = EmailSubmission { attachments, ..simple_submission() };
        let draft = build_draft_email(&sub, "alice@example.com", "mb-drafts");
        let values = at(&draft, &["bodyValues"]);
        assert_eq!(values, &obj(vec![("body", obj(vec![("value", s("Hello"))]))]));
        assert!(!values.contains_key("html"));
        assert!(!values.contains_key("calendar"));
    }
}

#[test]
fn draft_exact_document() {
    let sub = EmailSubmission {
        cc: vec!["c@example.com".into()],
        html_body: Some("<p>Hello</p>".into()),
        ..simple_submission()
    };
    let draft = build_draft_email(&sub, "alice@example.com", "mb");
    let expected = obj(vec![
        ("mailboxIds", obj(vec![("mb", Json::Bool(true))])),
        ("from", arr(vec![obj(vec![("email", s("alice@example.com"))])])),
        ("to", arr(vec![obj(vec![("email", s("bob@example.com"))])])),
        ("subject", s("Test")),
        (
            "bodyValues",
            obj(vec![
                ("body", obj(vec![("value", s("Hello"))])),
                ("html", obj(vec![("value", s("<p>Hello</p>"))])),
            ]),
        ),
        (
            "bodyStructure",
            obj(vec![
                ("type", s("multipart/alternative")),
                (
                    "subParts",
                    arr(vec![
                        obj(vec![("partId", s("body")), ("type", s("text/plain"))]),
                        obj(vec![("partId", s("html")), ("type", s("text/html"))]),
                    ]),
                ),
            ]),
        ),
        ("cc", arr(vec![obj(vec![("email", s("c@example.com"))])])),
    ]);
    assert_eq!(draft, expected);
    assert_eq!(&build_body_structure(&sub), at(&expected, &["bodyStructure"]));
}
