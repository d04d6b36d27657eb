use vimmail::session::find_mailbox_by_role;
use vimmail::types::Mailbox;

fn mailbox(id: &str, name: &str, role: Option<&str>) -> Mailbox {
    Mailbox {
        id: id.into(),
        name: name.into(),
        role: role.map(String::from),
        total_emails: 0,
        unread_emails: 0,
        parent_id: None,
    }
}

#[test]
fn drafts_mailbox_lookup_fails_when_missing() {
    let cache = vec![mailbox("inbox-id", "Inbox", Some("inbox"))];
    let result = find_mailbox_by_role(&cache, "drafts");
    assert!(
        result.is_none(),
        "should not find drafts in cache without one"
    );
}

#[test]
fn drafts_mailbox_lookup_succeeds() {
    let cache = vec![
        mailbox("inbox-id", "Inbox", Some("inbox")),
        mailbox("drafts-id", "Drafts", Some("drafts")),
    ];
    let result = find_mailbox_by_role(&cache, "drafts");
    assert_eq!(result.unwrap().id, "drafts-id");
}

#[test]
fn mailbox_lookup_takes_the_last_with_the_role() {
    let cache = vec![
        mailbox("a", "Old archive", Some("archive")),
        mailbox("b", "No role", None),
        mailbox("c", "Archive", Some("archive")),
    ];
    assert_eq!(find_mailbox_by_role(&cache, "archive").unwrap().id, "c");
    assert!(find_mailbox_by_role(&cache, "Archive").is_none());
    assert!(find_mailbox_by_role(&[].to_vec(), "archive").is_none());
}
