//! Reading the records of the mail store: messages, addresses, mailboxes
//! and identities.

use crate::clock::{chrono_rfc3339, now, parse_rfc3339};
use crate::json::{
    bool_of, docs, entries_of, i64_or_zero, text_of, text_or_empty, Doc, Entry, Json,
};
use crate::mime::{
    attachments_in, body_text, calendar_blob, find_attachments, find_calendar_blob_id, read_body,
};
use crate::text::owned;
use crate::types::{
    flag_present, has_flag, keys_differ, opt_owned, views, Attachment, AttachmentView,
    DateTime, Email, EmailAddress, EmailAddressView, EmailView, Flag, FlagView, Identity,
    IdentityView, Mailbox, MailboxView,
};
use vstd::prelude::*;

verus! {

/// The text of a string field, if it is one.
pub open spec fn opt_str(d: Doc) -> Option<Seq<char>> {
    d.as_str()
}

/// The flag that an entry of a keyword or mailbox table stands for: the
/// entry's value if it is a boolean, and `true` otherwise.
pub open spec fn flag_of(e: Entry) -> FlagView {
    FlagView {
        key: e.key,
        on: match e.value.as_bool() {
            Some(b) => b,
            None => true,
        },
    }
}

/// The flags of the first `n` entries of a table, in the order of the
/// entries. A key that stands in the table more than once counts where it
/// stands first, as it does for a lookup.
pub open spec fn flags_among(entries: Seq<Entry>, n: nat) -> Seq<FlagView>
    decreases n,
{
    if n == 0 || n > entries.len() {
        Seq::empty()
    } else {
        let earlier = flags_among(entries, (n - 1) as nat);
        if has_flag(earlier, entries[n - 1].key) {
            earlier
        } else {
            earlier.push(flag_of(entries[n - 1]))
        }
    }
}

/// The flags of a table, each key once; none if the document is no object.
pub open spec fn flags_of(d: Doc) -> Seq<FlagView> {
    match d.as_object() {
        Some(entries) => flags_among(entries, entries.len()),
        None => Seq::empty(),
    }
}

/// No key stands twice among the flags of a table.
pub proof fn lemma_flags_differ(entries: Seq<Entry>, n: nat)
    ensures
        keys_differ(flags_among(entries, n)),
    decreases n,
{
    if n > 0 && n <= entries.len() {
        lemma_flags_differ(entries, (n - 1) as nat);
        let earlier = flags_among(entries, (n - 1) as nat);
        let all = flags_among(entries, n);
        if !has_flag(earlier, entries[n - 1].key) {
            assert forall|i: int, j: int| 0 <= i < j < all.len() implies all[i].key
                != all[j].key by {
                if j == earlier.len() {
                    assert(earlier[i].key != entries[n - 1].key);
                } else {
                    assert(earlier[i].key != earlier[j].key);
                }
            }
        }
    }
}

/// The address that an element of an address list stands for. An empty
/// display name counts as none.
pub open spec fn address_of(d: Doc) -> EmailAddressView {
    EmailAddressView {
        name: match d.field("name"@).as_str() {
            Some(n) => if n.len() > 0 {
                Some(n)
            } else {
                None
            },
            None => None,
        },
        email: d.field("email"@).str_or_empty(),
    }
}

/// The addresses of a list; none if the document is no array.
pub open spec fn addresses_of(d: Doc) -> Seq<EmailAddressView> {
    match d.as_array() {
        Some(items) => Seq::new(items.len(), |i: int| address_of(items[i])),
        None => Seq::empty(),
    }
}

/// When a message was received: its timestamp, or `fallback` where the
/// timestamp is missing or cannot be read.
pub open spec fn received_at(item: Doc, fallback: DateTime) -> DateTime {
    match item.field("receivedAt"@).as_str() {
        Some(s) => match chrono_rfc3339(s) {
            Some(t) => t,
            None => fallback,
        },
        None => fallback,
    }
}

/// The message that a record of the mail store stands for. Every field that
/// is missing or of another kind takes its default. Bodies, the calendar
/// flag and the attachments are read only where `fetch_body` asks for them.
pub open spec fn email_of(item: Doc, fetch_body: bool, fallback: DateTime) -> EmailView {
    EmailView {
        id: item.field("id"@).str_or_empty(),
        blob_id: item.field("blobId"@).str_or_empty(),
        thread_id: item.field("threadId"@).str_or_empty(),
        mailbox_ids: flags_of(item.field("mailboxIds"@)),
        keywords: flags_of(item.field("keywords"@)),
        received_at: received_at(item, fallback),
        subject: item.field("subject"@).str_or_empty(),
        from: addresses_of(item.field("from"@)),
        to: addresses_of(item.field("to"@)),
        cc: addresses_of(item.field("cc"@)),
        preview: item.field("preview"@).str_or_empty(),
        has_attachment: match item.field("hasAttachment"@).as_bool() {
            Some(b) => b,
            None => false,
        },
        size: item.field("size"@).i64_or_zero(),
        text_body: if fetch_body {
            body_text(item, "textBody"@)
        } else {
            None
        },
        html_body: if fetch_body {
            body_text(item, "htmlBody"@)
        } else {
            None
        },
        has_calendar: fetch_body && calendar_blob(item.field("bodyStructure"@)) is Some,
        attachments: if fetch_body {
            attachments_in(item.field("bodyStructure"@), false)
        } else {
            Seq::empty()
        },
    }
}

/// Reads a table of flags. No key stands twice in the result.
pub fn parse_flags(table: Option<&Json>) -> (r: Vec<Flag>)
    ensures
        views(r@) == flags_of(crate::json::doc_of(table)),
        keys_differ(views(r@)),
{
    let mut out: Vec<Flag> = Vec::new();
    proof {
        assert(views(out@) =~= Seq::<FlagView>::empty());
    }
    match crate::json::entries_in(table) {
        Some(entries) => {
            let mut i: usize = 0;
            while i < entries.len()
                invariant
                    i <= entries@.len(),
                    views(out@) == flags_among(entries_of(entries@), i as nat),
                decreases entries@.len() - i,
            {
                proof {
                    assert(entries_of(entries@)[i as int].key == entries@[i as int].0@);
                    assert(entries_of(entries@)[i as int].value == entries@[i as int].1@);
                }
                if !flag_present(&out, entries[i].0.as_str()) {
                    let on = match entries[i].1.as_bool() {
                        Some(b) => b,
                        None => true,
                    };
                    let ghost earlier = out@;
                    let flag = Flag { key: owned(entries[i].0.as_str()), on };
                    out.push(flag);
                    proof {
                        crate::types::lemma_views_push(earlier, flag);
                    }
                }
                i += 1;
            }
            proof {
                lemma_flags_differ(entries_of(entries@), entries@.len() as nat);
            }
        },
        None => {},
    }
    out
}

/// Reads a list of addresses.
pub fn parse_addresses(value: Option<&Json>) -> (r: Vec<EmailAddress>)
    ensures
        views(r@) == addresses_of(crate::json::doc_of(value)),
{
    let mut out: Vec<EmailAddress> = Vec::new();
    match crate::json::list_of(value) {
        Some(items) => {
            let mut i: usize = 0;
            while i < items.len()
                invariant
                    i <= items@.len(),
                    out@.len() == i,
                    forall|j: int| 0 <= j < i ==> out@[j]@ == address_of(docs(items@)[j]),
                decreases items@.len() - i,
            {
                let name = match text_of(items[i].get("name")) {
                    Some(n) => if n.is_empty() {
                        None
                    } else {
                        Some(owned(n))
                    },
                    None => None,
                };
                let email = owned(text_or_empty(items[i].get("email")));
                out.push(EmailAddress { name, email });
                i += 1;
            }
            proof {
                assert(views(out@) =~= addresses_of(crate::json::doc_of(value)));
            }
        },
        None => {
            proof {
                assert(views(out@) =~= Seq::<EmailAddressView>::empty());
            }
        },
    }
    out
}

/// Reads a message from its record, with `fallback` as the time of receipt
/// where the record gives none.
pub fn parse_jmap_email_at(item: &Json, fetch_body: bool, fallback: &DateTime) -> (r: Email)
    ensures
        r@ == email_of(item@, fetch_body, *fallback),
{
    let received = match text_of(item.get("receivedAt")) {
        Some(s) => match parse_rfc3339(s) {
            Some(t) => t,
            None => *fallback,
        },
        None => *fallback,
    };
    let mut text_body: Option<String> = None;
    let mut html_body: Option<String> = None;
    let mut has_calendar = false;
    let mut attachments: Vec<Attachment> = Vec::new();
    if fetch_body {
        text_body = read_body(item, "textBody");
        html_body = read_body(item, "htmlBody");
        match item.get("bodyStructure") {
            Some(structure) => {
                has_calendar = find_calendar_blob_id(structure).is_some();
                attachments = find_attachments(structure);
            },
            None => {
                proof {
                    lemma_null_structure();
                    assert(views(attachments@) =~= Seq::<AttachmentView>::empty());
                }
            },
        }
    }
    proof {
        if !fetch_body {
            assert(views(attachments@) =~= Seq::<AttachmentView>::empty());
        }
    }
    Email {
        id: owned(text_or_empty(item.get("id"))),
        blob_id: owned(text_or_empty(item.get("blobId"))),
        thread_id: owned(text_or_empty(item.get("threadId"))),
        mailbox_ids: parse_flags(item.get("mailboxIds")),
        keywords: parse_flags(item.get("keywords")),
        received_at: received,
        subject: owned(text_or_empty(item.get("subject"))),
        from: parse_addresses(item.get("from")),
        to: parse_addresses(item.get("to")),
        cc: parse_addresses(item.get("cc")),
        preview: owned(text_or_empty(item.get("preview"))),
        has_attachment: match bool_of(item.get("hasAttachment")) {
            Some(b) => b,
            None => false,
        },
        size: i64_or_zero(item.get("size")),
        text_body,
        html_body,
        has_calendar,
        attachments,
    }
}

/// The null document has no calendar part and no attachment.
pub proof fn lemma_null_structure()
    ensures
        calendar_blob(Doc::Null) is None,
        attachments_in(Doc::Null, false) == Seq::<AttachmentView>::empty(),
{
    reveal_strlit("text/calendar");
    reveal_strlit(".ics");
    reveal_strlit("text/plain");
    reveal_strlit("text/html");
    reveal_strlit("inline");
    reveal_strlit("attachment");
    let none = Seq::<char>::empty();
    assert(crate::text::ascii_lower(none) =~= none);
    assert(crate::text::ascii_lower("text/calendar"@).len() == 13);
    assert(crate::text::ascii_lower("text/plain"@).len() == 10);
    assert(crate::text::ascii_lower("text/html"@).len() == 9);
    assert(crate::text::ascii_lower("inline"@).len() == 6);
    assert(crate::text::ascii_lower("attachment"@).len() == 10);
}

/// Reads a message from its record. Where the record gives no time of
/// receipt the present instant stands in, so the result is what `email_of`
/// gives for some fallback.
pub fn parse_jmap_email(item: &Json, fetch_body: bool) -> (r: Email)
    ensures
        exists|fallback: DateTime| r@ == email_of(item@, fetch_body, fallback),
{
    let fallback = now();
    let r = parse_jmap_email_at(item, fetch_body, &fallback);
    proof {
        assert(r@ == email_of(item@, fetch_body, fallback));
    }
    r
}

/// The mailbox that a record stands for.
pub open spec fn mailbox_of(item: Doc) -> MailboxView {
    MailboxView {
        id: item.field("id"@).str_or_empty(),
        name: item.field("name"@).str_or_empty(),
        role: item.field("role"@).as_str(),
        total_emails: item.field("totalEmails"@).i64_or_zero(),
        unread_emails: item.field("unreadEmails"@).i64_or_zero(),
        parent_id: item.field("parentId"@).as_str(),
    }
}

/// Reads a mailbox from its record.
pub fn parse_mailbox(item: &Json) -> (r: Mailbox)
    ensures
        r@ == mailbox_of(item@),
{
    Mailbox {
        id: owned(text_or_empty(item.get("id"))),
        name: owned(text_or_empty(item.get("name"))),
        role: opt_owned(text_of(item.get("role"))),
        total_emails: i64_or_zero(item.get("totalEmails")),
        unread_emails: i64_or_zero(item.get("unreadEmails")),
        parent_id: opt_owned(text_of(item.get("parentId"))),
    }
}

/// The identity that a record stands for.
pub open spec fn identity_of(item: Doc) -> IdentityView {
    IdentityView {
        id: item.field("id"@).str_or_empty(),
        email: item.field("email"@).str_or_empty(),
        name: item.field("name"@).str_or_empty(),
    }
}

/// Reads an identity from its record.
pub fn parse_identity(item: &Json) -> (r: Identity)
    ensures
        r@ == identity_of(item@),
{
    Identity {
        id: owned(text_or_empty(item.get("id"))),
        email: owned(text_or_empty(item.get("email"))),
        name: owned(text_or_empty(item.get("name"))),
    }
}

} // verus!
