//! Building the document that creates an outgoing message: its headers, its
//! body values and its body structure.

use crate::json::{
    array, docs, entry, integer, no_entries, no_items, object, one, push_item, put, single, text,
    Doc, Entry, Json,
};
use crate::number::decimal;
use crate::types::{
    str_views, views, Attachment, AttachmentView, EmailSubmission, EmailSubmissionView,
};
use vstd::prelude::*;

verus! {

/// An object with two entries.
pub open spec fn two(k1: Seq<char>, v1: Doc, k2: Seq<char>, v2: Doc) -> Doc {
    Doc::Object(Seq::<Entry>::empty().push(entry(k1, v1)).push(entry(k2, v2)))
}

/// A list of addresses, each an object with its `email`.
pub open spec fn address_docs(addresses: Seq<Seq<char>>) -> Seq<Doc> {
    Seq::new(addresses.len(), |i: int| one("email"@, Doc::Str(addresses[i])))
}

/// A list of plain strings.
pub open spec fn string_docs(items: Seq<Seq<char>>) -> Seq<Doc> {
    Seq::new(items.len(), |i: int| Doc::Str(items[i]))
}

/// A leaf of the body structure that takes its content from a body value.
pub open spec fn value_leaf(part_id: Seq<char>, mime: Seq<char>) -> Doc {
    two("partId"@, Doc::Str(part_id), "type"@, Doc::Str(mime))
}

/// The leaf that carries the plain text.
pub open spec fn plain_leaf() -> Doc {
    value_leaf("body"@, "text/plain"@)
}

/// The leaf that carries the HTML text.
pub open spec fn html_leaf() -> Doc {
    value_leaf("html"@, "text/html"@)
}

/// The leaf that carries a calendar reply.
pub open spec fn calendar_leaf() -> Doc {
    value_leaf("calendar"@, "text/calendar; method=REPLY"@)
}

/// A container of the body structure.
pub open spec fn container(mime: Seq<char>, parts: Seq<Doc>) -> Doc {
    two("type"@, Doc::Str(mime), "subParts"@, Doc::Array(parts))
}

/// The leaf that refers to an uploaded attachment.
pub open spec fn attachment_leaf(a: AttachmentView) -> Doc {
    Doc::Object(
        Seq::<Entry>::empty().push(entry("type"@, Doc::Str(a.mime_type))).push(
            entry("blobId"@, Doc::Str(a.blob_id)),
        ).push(entry("name"@, Doc::Str(a.name))).push(
            entry("disposition"@, Doc::Str("attachment"@)),
        ).push(entry("size"@, Doc::Number(decimal(a.size)))),
    )
}

/// The leaves for a list of attachments, in their order.
pub open spec fn attachment_leaves(attachments: Seq<AttachmentView>) -> Seq<Doc> {
    Seq::new(attachments.len(), |i: int| attachment_leaf(attachments[i]))
}

/// A submission may carry HTML or a calendar reply, not both.
pub open spec fn well_formed(sub: EmailSubmissionView) -> bool {
    !(sub.calendar_ics is Some && sub.html_body is Some)
}

/// The parts that hold the message's own content, before any attachment.
pub open spec fn content_parts(sub: EmailSubmissionView) -> Seq<Doc> {
    if sub.calendar_ics is Some {
        Seq::<Doc>::empty().push(plain_leaf()).push(calendar_leaf())
    } else if sub.html_body is Some {
        Seq::<Doc>::empty().push(plain_leaf()).push(html_leaf())
    } else {
        Seq::<Doc>::empty().push(plain_leaf())
    }
}

/// The body structure of a message without attachments: the plain leaf
/// alone, or a container with the plain leaf and the HTML or calendar leaf.
pub open spec fn content_structure(sub: EmailSubmissionView) -> Doc {
    if sub.calendar_ics is Some {
        container("multipart/mixed"@, content_parts(sub))
    } else if sub.html_body is Some {
        container("multipart/alternative"@, content_parts(sub))
    } else {
        two("type"@, Doc::Str("text/plain"@), "partId"@, Doc::Str("body"@))
    }
}

/// The body structure of a message. Attachments are appended to the parts
/// of a calendar reply, which is a `multipart/mixed` container already; any
/// other content is wrapped, as one part, in a new `multipart/mixed`
/// container that the attachments follow.
pub open spec fn body_structure(sub: EmailSubmissionView) -> Doc {
    if sub.attachments.len() == 0 {
        content_structure(sub)
    } else if sub.calendar_ics is Some {
        container("multipart/mixed"@, content_parts(sub) + attachment_leaves(sub.attachments))
    } else {
        container(
            "multipart/mixed"@,
            Seq::<Doc>::empty().push(content_structure(sub)) + attachment_leaves(sub.attachments),
        )
    }
}

/// The table of body values that the leaves refer to.
pub open spec fn body_values(sub: EmailSubmissionView) -> Doc {
    let body = entry("body"@, one("value"@, Doc::Str(sub.text_body)));
    if sub.calendar_ics is Some {
        Doc::Object(
            Seq::<Entry>::empty().push(body).push(
                entry("calendar"@, one("value"@, Doc::Str(sub.calendar_ics->0))),
            ),
        )
    } else if sub.html_body is Some {
        Doc::Object(
            Seq::<Entry>::empty().push(body).push(
                entry("html"@, one("value"@, Doc::Str(sub.html_body->0))),
            ),
        )
    } else {
        Doc::Object(Seq::<Entry>::empty().push(body))
    }
}

/// The entries that are present only where the submission has something to
/// put in them.
pub open spec fn optional_entries(sub: EmailSubmissionView) -> Seq<Entry> {
    let cc = if sub.cc.len() > 0 {
        Seq::<Entry>::empty().push(entry("cc"@, Doc::Array(address_docs(sub.cc))))
    } else {
        Seq::<Entry>::empty()
    };
    let bcc = if sub.bcc is Some && sub.bcc->0.len() > 0 {
        cc.push(entry("bcc"@, Doc::Array(address_docs(sub.bcc->0))))
    } else {
        cc
    };
    let reply = if sub.in_reply_to is Some {
        bcc.push(
            entry(
                "inReplyTo"@,
                Doc::Array(Seq::<Doc>::empty().push(Doc::Str(sub.in_reply_to->0))),
            ),
        )
    } else {
        bcc
    };
    if sub.references is Some {
        reply.push(entry("references"@, Doc::Array(string_docs(sub.references->0))))
    } else {
        reply
    }
}

/// The document that creates the draft of a submission.
pub open spec fn draft(sub: EmailSubmissionView, from: Seq<char>, mailbox: Seq<char>) -> Doc {
    Doc::Object(
        Seq::<Entry>::empty().push(entry("mailboxIds"@, one(mailbox, Doc::Bool(true)))).push(
            entry("from"@, Doc::Array(address_docs(Seq::<Seq<char>>::empty().push(from)))),
        ).push(entry("to"@, Doc::Array(address_docs(sub.to)))).push(
            entry("subject"@, Doc::Str(sub.subject)),
        ).push(entry("bodyValues"@, body_values(sub))).push(
            entry("bodyStructure"@, body_structure(sub)),
        ) + optional_entries(sub),
    )
}

// ---------------------------------------------------------------------------
// Construction
// ---------------------------------------------------------------------------

/// Builds a list of addresses.
pub fn address_list(addresses: &Vec<String>) -> (r: Json)
    ensures
        r@ == Doc::Array(address_docs(str_views(addresses@))),
{
    let mut items = no_items();
    let mut i: usize = 0;
    while i < addresses.len()
        invariant
            i <= addresses@.len(),
            docs(items@) == address_docs(str_views(addresses@).take(i as int)),
        decreases addresses@.len() - i,
    {
        push_item(&mut items, single("email", text(addresses[i].as_str())));
        proof {
            assert(docs(items@) =~= address_docs(str_views(addresses@).take(i + 1)));
        }
        i += 1;
    }
    proof {
        assert(str_views(addresses@).take(addresses@.len() as int) =~= str_views(addresses@));
    }
    array(items)
}

/// Builds a list of strings.
pub fn string_list(strings: &Vec<String>) -> (r: Json)
    ensures
        r@ == Doc::Array(string_docs(str_views(strings@))),
{
    let mut items = no_items();
    let mut i: usize = 0;
    while i < strings.len()
        invariant
            i <= strings@.len(),
            docs(items@) == string_docs(str_views(strings@).take(i as int)),
        decreases strings@.len() - i,
    {
        push_item(&mut items, text(strings[i].as_str()));
        proof {
            assert(docs(items@) =~= string_docs(str_views(strings@).take(i + 1)));
        }
        i += 1;
    }
    proof {
        assert(str_views(strings@).take(strings@.len() as int) =~= str_views(strings@));
    }
    array(items)
}

fn pair(k1: &str, v1: Json, k2: &str, v2: Json) -> (r: Json)
    ensures
        r@ == two(k1@, v1@, k2@, v2@),
{
    let mut entries = no_entries();
    put(&mut entries, k1, v1);
    put(&mut entries, k2, v2);
    object(entries)
}

fn leaf(part_id: &str, mime: &str) -> (r: Json)
    ensures
        r@ == value_leaf(part_id@, mime@),
{
    pair("partId", text(part_id), "type", text(mime))
}

fn attachment_part(a: &Attachment) -> (r: Json)
    ensures
        r@ == attachment_leaf(a@),
{
    let mut entries = no_entries();
    put(&mut entries, "type", text(a.mime_type.as_str()));
    put(&mut entries, "blobId", text(a.blob_id.as_str()));
    put(&mut entries, "name", text(a.name.as_str()));
    put(&mut entries, "disposition", text("attachment"));
    put(&mut entries, "size", integer(a.size));
    object(entries)
}

/// Appends the leaves of the attachments to a list of parts.
fn add_attachment_parts(parts: &mut Vec<Json>, attachments: &Vec<Attachment>)
    ensures
        docs(final(parts)@) == docs(old(parts)@) + attachment_leaves(views(attachments@)),
{
    let mut i: usize = 0;
    proof {
        assert(docs(parts@) + attachment_leaves(views(attachments@).take(0)) =~= docs(parts@));
    }
    while i < attachments.len()
        invariant
            i <= attachments@.len(),
            docs(parts@) == docs(old(parts)@) + attachment_leaves(
                views(attachments@).take(i as int),
            ),
        decreases attachments@.len() - i,
    {
        push_item(parts, attachment_part(&attachments[i]));
        proof {
            assert(docs(parts@) =~= docs(old(parts)@) + attachment_leaves(
                views(attachments@).take(i + 1),
            ));
        }
        i += 1;
    }
    proof {
        assert(views(attachments@).take(attachments@.len() as int) =~= views(attachments@));
    }
}

/// The parts that hold the content of a submission.
fn build_content_parts(sub: &EmailSubmission) -> (r: Vec<Json>)
    ensures
        docs(r@) == content_parts(sub@),
{
    let mut parts = no_items();
    push_item(&mut parts, leaf("body", "text/plain"));
    if sub.calendar_ics.is_some() {
        push_item(&mut parts, leaf("calendar", "text/calendar; method=REPLY"));
    } else if sub.html_body.is_some() {
        push_item(&mut parts, leaf("html", "text/html"));
    }
    parts
}

fn build_content_structure(sub: &EmailSubmission) -> (r: Json)
    ensures
        r@ == content_structure(sub@),
{
    if sub.calendar_ics.is_some() {
        pair("type", text("multipart/mixed"), "subParts", array(build_content_parts(sub)))
    } else if sub.html_body.is_some() {
        pair("type", text("multipart/alternative"), "subParts", array(build_content_parts(sub)))
    } else {
        pair("type", text("text/plain"), "partId", text("body"))
    }
}

/// Builds the body structure of a submission.
pub fn build_body_structure(sub: &EmailSubmission) -> (r: Json)
    ensures
        r@ == body_structure(sub@),
{
    if sub.attachments.len() == 0 {
        build_content_structure(sub)
    } else if sub.calendar_ics.is_some() {
        let mut parts = build_content_parts(sub);
        add_attachment_parts(&mut parts, &sub.attachments);
        pair("type", text("multipart/mixed"), "subParts", array(parts))
    } else {
        let mut parts = no_items();
        push_item(&mut parts, build_content_structure(sub));
        add_attachment_parts(&mut parts, &sub.attachments);
        pair("type", text("multipart/mixed"), "subParts", array(parts))
    }
}

/// Builds the table of body values of a submission.
pub fn build_body_values(sub: &EmailSubmission) -> (r: Json)
    ensures
        r@ == body_values(sub@),
{
    let mut entries = no_entries();
    put(&mut entries, "body", single("value", text(sub.text_body.as_str())));
    match &sub.calendar_ics {
        Some(ics) => {
            put(&mut entries, "calendar", single("value", text(ics.as_str())));
        },
        None => match &sub.html_body {
            Some(html) => {
                put(&mut entries, "html", single("value", text(html.as_str())));
            },
            None => {},
        },
    }
    object(entries)
}

/// Builds the document that creates the draft of `sub`, sent from
/// `from_addr` and filed in the mailbox `drafts_mailbox_id`.
pub fn build_draft_email(sub: &EmailSubmission, from_addr: &str, drafts_mailbox_id: &str) -> (r:
    Json)
    requires
        well_formed(sub@),
    ensures
        r@ == draft(sub@, from_addr@, drafts_mailbox_id@),
{
    let mut entries = no_entries();
    put(&mut entries, "mailboxIds", single(drafts_mailbox_id, Json::Bool(true)));
    let mut sender = no_items();
    push_item(&mut sender, single("email", text(from_addr)));
    proof {
        assert(docs(sender@) =~= address_docs(Seq::<Seq<char>>::empty().push(from_addr@)));
    }
    put(&mut entries, "from", array(sender));
    put(&mut entries, "to", address_list(&sub.to));
    put(&mut entries, "subject", text(sub.subject.as_str()));
    put(&mut entries, "bodyValues", build_body_values(sub));
    put(&mut entries, "bodyStructure", build_body_structure(sub));
    let ghost fixed = crate::json::entries_of(entries@);
    let ghost mut extra = Seq::<Entry>::empty();
    proof {
        assert(fixed + extra =~= fixed);
    }
    if sub.cc.len() > 0 {
        put(&mut entries, "cc", address_list(&sub.cc));
        proof {
            extra = extra.push(entry("cc"@, Doc::Array(address_docs(sub@.cc))));
            assert(crate::json::entries_of(entries@) =~= fixed + extra);
        }
    }
    match &sub.bcc {
        Some(bcc) => {
            if bcc.len() > 0 {
                put(&mut entries, "bcc", address_list(bcc));
                proof {
                    extra = extra.push(entry("bcc"@, Doc::Array(address_docs(sub@.bcc->0))));
                    assert(crate::json::entries_of(entries@) =~= fixed + extra);
                }
            }
        },
        None => {},
    }
    match &sub.in_reply_to {
        Some(reply_to) => {
            let mut ids = no_items();
            push_item(&mut ids, text(reply_to.as_str()));
            put(&mut entries, "inReplyTo", array(ids));
            proof {
                extra = extra.push(
                    entry(
                        "inReplyTo"@,
                        Doc::Array(Seq::<Doc>::empty().push(Doc::Str(sub@.in_reply_to->0))),
                    ),
                );
                assert(crate::json::entries_of(entries@) =~= fixed + extra);
            }
        },
        None => {},
    }
    match &sub.references {
        Some(refs) => {
            put(&mut entries, "references", string_list(refs));
            proof {
                extra = extra.push(entry("references"@, Doc::Array(string_docs(sub@.references->0))));
                assert(crate::json::entries_of(entries@) =~= fixed + extra);
            }
        },
        None => {},
    }
    proof {
        assert(extra == optional_entries(sub@));
    }
    object(entries)
}

// ---------------------------------------------------------------------------
// Laws
// ---------------------------------------------------------------------------

/// A submission with plain text only has no HTML and no calendar part: its
/// body values hold the text alone, and its structure is the plain leaf, on
/// its own or followed by the attachments.
pub proof fn law_text_only_draft(sub: EmailSubmissionView)
    requires
        sub.html_body is None,
        sub.calendar_ics is None,
    ensures
        body_values(sub) == one("body"@, one("value"@, Doc::Str(sub.text_body))),
        !body_values(sub).has_key("html"@),
        !body_values(sub).has_key("calendar"@),
        content_parts(sub) == Seq::<Doc>::empty().push(plain_leaf()),
        sub.attachments.len() == 0 ==> body_structure(sub) == two(
            "type"@,
            Doc::Str("text/plain"@),
            "partId"@,
            Doc::Str("body"@),
        ),
        sub.attachments.len() > 0 ==> body_structure(sub) == container(
            "multipart/mixed"@,
            Seq::<Doc>::empty().push(content_structure(sub)) + attachment_leaves(sub.attachments),
        ),
{
    reveal_strlit("body");
    reveal_strlit("html");
    reveal_strlit("calendar");
    let entries = Seq::<Entry>::empty().push(
        entry("body"@, one("value"@, Doc::Str(sub.text_body))),
    );
    assert("body"@[0] == 'b' && "html"@[0] == 'h' && "calendar"@[0] == 'c');
    assert(entries[0].key != "html"@);
    assert(entries[0].key != "calendar"@);
    assert(crate::json::position(entries, "html"@, 1) is None);
    assert(crate::json::position(entries, "calendar"@, 1) is None);
    assert(crate::json::position(entries, "html"@, 0) is None);
    assert(crate::json::position(entries, "calendar"@, 0) is None);
}

/// Attachments of a calendar reply are appended to its two parts, the plain
/// text and the calendar data, inside the one `multipart/mixed` container:
/// the reply is not wrapped a second time.
pub proof fn law_calendar_reply_keeps_its_container(sub: EmailSubmissionView)
    requires
        sub.calendar_ics is Some,
        sub.html_body is None,
    ensures
        body_structure(sub) == container(
            "multipart/mixed"@,
            Seq::<Doc>::empty().push(plain_leaf()).push(calendar_leaf()) + attachment_leaves(
                sub.attachments,
            ),
        ),
        body_structure(sub).field("subParts"@).as_array() == Some(
            Seq::<Doc>::empty().push(plain_leaf()).push(calendar_leaf()) + attachment_leaves(
                sub.attachments,
            ),
        ),
{
    reveal_strlit("type");
    reveal_strlit("subParts");
    let parts = Seq::<Doc>::empty().push(plain_leaf()).push(calendar_leaf());
    if sub.attachments.len() == 0 {
        assert(attachment_leaves(sub.attachments) =~= Seq::<Doc>::empty());
        assert(parts + attachment_leaves(sub.attachments) =~= parts);
    }
    let all = parts + attachment_leaves(sub.attachments);
    let entries = Seq::<Entry>::empty().push(entry("type"@, Doc::Str("multipart/mixed"@))).push(
        entry("subParts"@, Doc::Array(all)),
    );
    assert("type"@.len() == 4 && "subParts"@.len() == 8);
    assert(entries[0].key != "subParts"@);
    assert(entries[1].key == "subParts"@);
    assert(crate::json::position(entries, "subParts"@, 1) == Some(1int));
    assert(crate::json::position(entries, "subParts"@, 0) == Some(1int));
}

} // verus!
