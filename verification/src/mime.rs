//! Reading a message's body structure: the readable text, the attachments
//! and an embedded calendar part.

use crate::json::{
    docs, field, i64_or_zero, lemma_field_decreases, lemma_items_decrease, list_of, text_of,
    text_or_empty, Doc, Json,
};
use crate::text::{
    ascii_lower, chars_of, ends_with, eq_ignore_ascii_case, eq_ignore_case, has_suffix, join,
    joined, lemma_ascii_lower_idempotent, string_of, texts, to_ascii_lower,
};
use crate::types::{views, Attachment, AttachmentView};
use vstd::prelude::*;

verus! {

// ---------------------------------------------------------------------------
// Attachments
// ---------------------------------------------------------------------------

/// The parts directly below a container. A part whose list of parts is
/// missing or empty is a leaf and has none.
pub open spec fn sub_parts(part: Doc) -> Option<Seq<Doc>> {
    match part.field("subParts"@).as_array() {
        Some(subs) => if subs.len() > 0 {
            Some(subs)
        } else {
            None
        },
        None => None,
    }
}

/// The MIME type of a part, as it is written.
pub open spec fn mime_of(part: Doc) -> Seq<char> {
    part.field("type"@).str_or_empty()
}

/// The types that make up a message's body and are never attachments.
pub open spec fn is_body_type(mime: Seq<char>) -> bool {
    ||| eq_ignore_case(mime, "text/plain"@)
    ||| eq_ignore_case(mime, "text/html"@)
    ||| eq_ignore_case(mime, "text/calendar"@)
}

/// Whether a part's disposition is `inline`.
pub open spec fn is_inline(part: Doc) -> bool {
    eq_ignore_case(part.field("disposition"@).str_or_empty(), "inline"@)
}

/// Whether a leaf presents itself as something to download: by its
/// disposition, or by carrying a file name.
pub open spec fn is_offered(part: Doc) -> bool {
    ||| eq_ignore_case(part.field("disposition"@).str_or_empty(), "attachment"@)
    ||| is_inline(part)
    ||| part.field("name"@).str_or_empty().len() > 0
}

/// The attachment that a leaf part gives, if any. `in_related` says that the
/// leaf stands directly under a `multipart/related` container.
pub open spec fn leaf_attachment(part: Doc, in_related: bool) -> Option<AttachmentView> {
    if is_body_type(mime_of(part)) {
        None
    } else if is_inline(part) && in_related {
        None
    } else if !is_offered(part) {
        None
    } else {
        match part.field("blobId"@).as_str() {
            Some(blob) => {
                let name = part.field("name"@).str_or_empty();
                Some(
                    AttachmentView {
                        blob_id: blob,
                        name: if name.len() == 0 {
                            "attachment"@
                        } else {
                            name
                        },
                        mime_type: ascii_lower(mime_of(part)),
                        size: part.field("size"@).i64_or_zero(),
                    },
                )
            },
            None => None,
        }
    }
}

/// The attachments of a part tree, in document order.
pub open spec fn attachments_in(part: Doc, in_related: bool) -> Seq<AttachmentView>
    decreases part, 0nat,
{
    match sub_parts(part) {
        Some(subs) => {
            proof {
                lemma_field_decreases(part, "subParts"@);
                lemma_items_decrease(part.field("subParts"@));
            }
            attachments_among(
                subs,
                eq_ignore_case(mime_of(part), "multipart/related"@),
                subs.len(),
            )
        },
        None => match leaf_attachment(part, in_related) {
            Some(a) => seq![a],
            None => Seq::empty(),
        },
    }
}

/// The attachments of the first `n` of a container's parts.
pub open spec fn attachments_among(parts: Seq<Doc>, in_related: bool, n: nat) -> Seq<
    AttachmentView,
>
    decreases parts, n,
{
    if n == 0 || n > parts.len() {
        Seq::empty()
    } else {
        attachments_among(parts, in_related, (n - 1) as nat) + attachments_in(
            parts[n - 1],
            in_related,
        )
    }
}

/// Adds the attachments of a part tree to `out`.
pub fn collect_attachments(part: &Json, in_related: bool, out: &mut Vec<Attachment>)
    ensures
        views(final(out)@) == views(old(out)@) + attachments_in(part@, in_related),
    decreases part,
{
    let mime = chars_of(text_or_empty(part.get("type")));
    proof {
        assert(views(out@) + Seq::<AttachmentView>::empty() =~= views(out@));
    }
    match list_of(part.get("subParts")) {
        Some(subs) => {
            if subs.len() > 0 {
                let related = chars_of("multipart/related");
                let child_flag = eq_ignore_ascii_case(mime.as_slice(), related.as_slice());
                let mut i: usize = 0;
                while i < subs.len()
                    invariant
                        i <= subs@.len(),
                        forall|k: int|
                            0 <= k < subs@.len() ==> decreases_to!(part => #[trigger] subs@[k]),
                        views(out@) == views(old(out)@) + attachments_among(
                            docs(subs@),
                            child_flag,
                            i as nat,
                        ),
                    decreases subs@.len() - i,
                {
                    let ghost before = views(out@);
                    collect_attachments(&subs[i], child_flag, out);
                    proof {
                        assert(docs(subs@)[i as int] == subs@[i as int]@);
                        assert(views(out@) =~= views(old(out)@) + attachments_among(
                            docs(subs@),
                            child_flag,
                            (i + 1) as nat,
                        ));
                    }
                    i += 1;
                }
                return ;
            }
        },
        None => {},
    }
    let plain = chars_of("text/plain");
    let html = chars_of("text/html");
    let calendar = chars_of("text/calendar");
    if eq_ignore_ascii_case(mime.as_slice(), plain.as_slice()) || eq_ignore_ascii_case(
        mime.as_slice(),
        html.as_slice(),
    ) || eq_ignore_ascii_case(mime.as_slice(), calendar.as_slice()) {
        return ;
    }
    let disposition = chars_of(text_or_empty(part.get("disposition")));
    let name = text_or_empty(part.get("name"));
    let inline = chars_of("inline");
    let attached = chars_of("attachment");
    let is_inline = eq_ignore_ascii_case(disposition.as_slice(), inline.as_slice());
    if is_inline && in_related {
        return ;
    }
    if eq_ignore_ascii_case(disposition.as_slice(), attached.as_slice()) || is_inline
        || !name.is_empty() {
        let blob_id = match text_of(part.get("blobId")) {
            Some(id) => string_of(chars_of(id).as_slice()),
            None => {
                return ;
            },
        };
        let size = i64_or_zero(part.get("size"));
        let shown = if name.is_empty() {
            string_of(chars_of("attachment").as_slice())
        } else {
            string_of(chars_of(name).as_slice())
        };
        let a = Attachment {
            blob_id,
            name: shown,
            mime_type: string_of(to_ascii_lower(mime.as_slice()).as_slice()),
            size,
        };
        let ghost before = views(out@);
        out.push(a);
        proof {
            assert(views(out@) =~= before + seq![a@]);
        }
    }
}

/// The attachments of a message, given its body structure.
pub fn find_attachments(body_structure: &Json) -> (r: Vec<Attachment>)
    ensures
        views(r@) == attachments_in(body_structure@, false),
{
    let mut attachments: Vec<Attachment> = Vec::new();
    collect_attachments(body_structure, false, &mut attachments);
    proof {
        assert(views(Seq::<Attachment>::empty()) + attachments_in(body_structure@, false)
            =~= attachments_in(body_structure@, false));
    }
    attachments
}

// ---------------------------------------------------------------------------
// Laws of the attachment list
// ---------------------------------------------------------------------------

/// A leaf of a body type gives no attachment, whatever its disposition, its
/// name or its place in the tree.
pub proof fn law_body_leaf_is_no_attachment(part: Doc, in_related: bool)
    requires
        sub_parts(part) is None,
        is_body_type(mime_of(part)),
    ensures
        attachments_in(part, in_related) == Seq::<AttachmentView>::empty(),
{
}

/// A leaf without a blob reference gives no attachment, whatever its
/// disposition, its name or its place in the tree.
pub proof fn law_leaf_without_blob_is_no_attachment(part: Doc, in_related: bool)
    requires
        sub_parts(part) is None,
        part.field("blobId"@).as_str() is None,
    ensures
        attachments_in(part, in_related) == Seq::<AttachmentView>::empty(),
{
}

/// No attachment of a part tree has a body type.
pub proof fn law_no_attachment_has_body_type(part: Doc, in_related: bool)
    ensures
        forall|i: int|
            0 <= i < attachments_in(part, in_related).len() ==> !is_body_type(
                (#[trigger] attachments_in(part, in_related)[i]).mime_type,
            ),
    decreases part, 0nat,
{
    match sub_parts(part) {
        Some(subs) => {
            lemma_field_decreases(part, "subParts"@);
            lemma_items_decrease(part.field("subParts"@));
            let flag = eq_ignore_case(mime_of(part), "multipart/related"@);
            lemma_no_body_type_among(subs, flag, subs.len());
            assert(attachments_in(part, in_related) == attachments_among(subs, flag, subs.len()));
            assert forall|i: int| 0 <= i < attachments_in(part, in_related).len() implies !is_body_type(
                (#[trigger] attachments_in(part, in_related)[i]).mime_type,
            ) by {
                assert(!is_body_type(attachments_among(subs, flag, subs.len())[i].mime_type));
            }
        },
        None => {
            lemma_ascii_lower_idempotent(mime_of(part));
            assert forall|i: int| 0 <= i < attachments_in(part, in_related).len() implies !is_body_type(
                (#[trigger] attachments_in(part, in_related)[i]).mime_type,
            ) by {
                let a = leaf_attachment(part, in_related)->0;
                assert(attachments_in(part, in_related)[i] == a);
                assert(a.mime_type == ascii_lower(mime_of(part)));
            }
        },
    }
}

proof fn lemma_no_body_type_among(parts: Seq<Doc>, in_related: bool, n: nat)
    ensures
        forall|i: int|
            0 <= i < attachments_among(parts, in_related, n).len() ==> !is_body_type(
                (#[trigger] attachments_among(parts, in_related, n)[i]).mime_type,
            ),
    decreases parts, n,
{
    if n > 0 && n <= parts.len() {
        lemma_no_body_type_among(parts, in_related, (n - 1) as nat);
        law_no_attachment_has_body_type(parts[n - 1], in_related);
        let head = attachments_among(parts, in_related, (n - 1) as nat);
        let tail = attachments_in(parts[n - 1], in_related);
        assert forall|i: int| 0 <= i < attachments_among(parts, in_related, n).len() implies !is_body_type(
            (#[trigger] attachments_among(parts, in_related, n)[i]).mime_type,
        ) by {
            if i < head.len() {
                assert((head + tail)[i] == head[i]);
            } else {
                assert((head + tail)[i] == tail[i - head.len()]);
            }
        }
    }
}

/// What one part of a container gives is part of what the container gives.
proof fn lemma_among_holds_each(parts: Seq<Doc>, in_related: bool, n: nat, i: int, a: AttachmentView)
    requires
        0 <= i < n <= parts.len(),
        attachments_in(parts[i], in_related).contains(a),
    ensures
        attachments_among(parts, in_related, n).contains(a),
    decreases n,
{
    let head = attachments_among(parts, in_related, (n - 1) as nat);
    let tail = attachments_in(parts[n - 1], in_related);
    if i == n - 1 {
        let k = choose|k: int| 0 <= k < tail.len() && tail[k] == a;
        assert((head + tail)[head.len() + k] == a);
    } else {
        lemma_among_holds_each(parts, in_related, (n - 1) as nat, i, a);
        let k = choose|k: int| 0 <= k < head.len() && head[k] == a;
        assert((head + tail)[k] == a);
    }
}

/// An inline leaf directly under a `multipart/related` container is left
/// out: the container's parts are read as related-scoped, and an inline leaf
/// read so gives nothing.
pub proof fn law_inline_under_related_is_hidden(container: Doc, in_related: bool, i: int)
    requires
        sub_parts(container) is Some,
        eq_ignore_case(mime_of(container), "multipart/related"@),
        0 <= i < sub_parts(container)->0.len(),
        sub_parts(sub_parts(container)->0[i]) is None,
        is_inline(sub_parts(container)->0[i]),
    ensures
        attachments_in(container, in_related) == attachments_among(
            sub_parts(container)->0,
            true,
            sub_parts(container)->0.len(),
        ),
        attachments_in(sub_parts(container)->0[i], true) == Seq::<AttachmentView>::empty(),
{
}

/// An inline leaf under a container of any other type, such as
/// `multipart/mixed`, is listed if it has a blob and no body type, and this
/// does not depend on where the container itself stands: under a
/// `multipart/related` container or not.
pub proof fn law_inline_under_mixed_is_listed(container: Doc, in_related: bool, i: int)
    requires
        sub_parts(container) is Some,
        !eq_ignore_case(mime_of(container), "multipart/related"@),
        0 <= i < sub_parts(container)->0.len(),
        sub_parts(sub_parts(container)->0[i]) is None,
        is_inline(sub_parts(container)->0[i]),
        !is_body_type(mime_of(sub_parts(container)->0[i])),
        sub_parts(container)->0[i].field("blobId"@).as_str() is Some,
    ensures
        leaf_attachment(sub_parts(container)->0[i], false) is Some,
        attachments_in(container, in_related).contains(
            leaf_attachment(sub_parts(container)->0[i], false)->0,
        ),
{
    let subs = sub_parts(container)->0;
    let a = leaf_attachment(subs[i], false)->0;
    assert(attachments_in(subs[i], false) == seq![a]);
    assert(seq![a][0] == a);
    lemma_among_holds_each(subs, false, subs.len(), i, a);
}

// ---------------------------------------------------------------------------
// The calendar part
// ---------------------------------------------------------------------------

/// Whether a part holds calendar data: by its MIME type, or by a file name
/// that ends in `.ics`, both without regard to case.
pub open spec fn is_calendar_part(part: Doc) -> bool {
    ||| eq_ignore_case(mime_of(part), "text/calendar"@)
    ||| has_suffix(ascii_lower(part.field("name"@).str_or_empty()), ".ics"@)
}

/// The blob of the first calendar part of a tree, depth first. A calendar
/// part without a blob gives nothing, and what stands below a calendar part
/// is not searched.
pub open spec fn calendar_blob(part: Doc) -> Option<Seq<char>>
    decreases part, 0nat,
{
    if is_calendar_part(part) {
        part.field("blobId"@).as_str()
    } else {
        match part.field("subParts"@).as_array() {
            Some(subs) => {
                proof {
                    lemma_field_decreases(part, "subParts"@);
                    lemma_items_decrease(part.field("subParts"@));
                }
                calendar_blob_among(subs, 0)
            },
            None => None,
        }
    }
}

/// The blob of the first calendar part among `parts[from..]`.
pub open spec fn calendar_blob_among(parts: Seq<Doc>, from: nat) -> Option<Seq<char>>
    decreases parts, parts.len() - from,
{
    if from >= parts.len() {
        None
    } else {
        match calendar_blob(parts[from as int]) {
            Some(blob) => Some(blob),
            None => calendar_blob_among(parts, from + 1),
        }
    }
}

/// Finds the blob that holds a message's calendar data.
pub fn find_calendar_blob_id(body_structure: &Json) -> (r: Option<String>)
    ensures
        crate::types::opt_text(r) == calendar_blob(body_structure@),
    decreases body_structure,
{
    let mime = chars_of(text_or_empty(body_structure.get("type")));
    let name = to_ascii_lower(chars_of(text_or_empty(body_structure.get("name"))).as_slice());
    let calendar = chars_of("text/calendar");
    let ics = chars_of(".ics");
    if eq_ignore_ascii_case(mime.as_slice(), calendar.as_slice()) || ends_with(
        name.as_slice(),
        ics.as_slice(),
    ) {
        return match text_of(body_structure.get("blobId")) {
            Some(id) => Some(string_of(chars_of(id).as_slice())),
            None => None,
        };
    }
    match list_of(body_structure.get("subParts")) {
        Some(subs) => {
            let mut i: usize = 0;
            while i < subs.len()
                invariant
                    i <= subs@.len(),
                    forall|k: int|
                        0 <= k < subs@.len() ==> decreases_to!(body_structure => #[trigger] subs@[k]),
                    calendar_blob(body_structure@) == calendar_blob_among(docs(subs@), 0),
                    calendar_blob_among(docs(subs@), 0) == calendar_blob_among(
                        docs(subs@),
                        i as nat,
                    ),
                decreases subs@.len() - i,
            {
                proof {
                    assert(docs(subs@)[i as int] == subs@[i as int]@);
                }
                match find_calendar_blob_id(&subs[i]) {
                    Some(blob) => {
                        return Some(blob);
                    },
                    None => {},
                }
                i += 1;
            }
            None
        },
        None => None,
    }
}

// ---------------------------------------------------------------------------
// Readable text
// ---------------------------------------------------------------------------

/// The values of the first `n` listed parts, looked up by part id in the
/// table of body values; a part without a value is passed over.
pub open spec fn part_values(parts: Seq<Doc>, table: Doc, n: nat) -> Seq<Seq<char>>
    decreases n,
{
    if n == 0 || n > parts.len() {
        Seq::empty()
    } else {
        let rest = part_values(parts, table, (n - 1) as nat);
        let id = parts[n - 1].field("partId"@).str_or_empty();
        match table.field(id).field("value"@).as_str() {
            Some(v) => rest.push(v),
            None => rest,
        }
    }
}

/// The text of a message body: the values of all parts listed under
/// `list_key`, joined by line feeds. There is none if no part has a value.
pub open spec fn body_text(item: Doc, list_key: Seq<char>) -> Option<Seq<char>> {
    match item.field(list_key).as_array() {
        Some(parts) => {
            let values = part_values(parts, item.field("bodyValues"@), parts.len());
            if values.len() > 0 {
                Some(join(values, seq!['\n']))
            } else {
                None
            }
        },
        None => None,
    }
}

/// Reads the body of a message that is listed under `list_key`.
pub fn read_body(item: &Json, list_key: &str) -> (r: Option<String>)
    ensures
        crate::types::opt_text(r) == body_text(item@, list_key@),
{
    let table = item.get("bodyValues");
    match list_of(item.get(list_key)) {
        Some(parts) => {
            let mut values: Vec<Vec<char>> = Vec::new();
            let mut i: usize = 0;
            proof {
                assert(texts(values@) =~= Seq::<Seq<char>>::empty());
            }
            while i < parts.len()
                invariant
                    i <= parts@.len(),
                    texts(values@) == part_values(docs(parts@), crate::json::doc_of(table), i as nat),
                decreases parts@.len() - i,
            {
                let id = text_or_empty(parts[i].get("partId"));
                let ghost before = texts(values@);
                proof {
                    assert(docs(parts@)[i as int] == parts@[i as int]@);
                }
                match text_of(field(field(table, id), "value")) {
                    Some(v) => {
                        values.push(chars_of(v));
                        proof {
                            assert(texts(values@) =~= before.push(v@));
                        }
                    },
                    None => {},
                }
                i += 1;
            }
            if values.len() > 0 {
                let sep: [char; 1] = ['\n'];
                proof {
                    assert(sep@ =~= seq!['\n']);
                }
                Some(string_of(joined(&values, sep.as_slice()).as_slice()))
            } else {
                None
            }
        },
        None => None,
    }
}

} // verus!
