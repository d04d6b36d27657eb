//! The method calls that are sent to the mail store, as documents.

use crate::draft::{address_docs, address_list, build_draft_email, draft, string_docs, well_formed};
use crate::json::{
    array, docs, entry, no_entries, no_items, object, one, push_item, put, single, text, Doc,
    Entry, Json,
};
use crate::number::digits;
use crate::search::{conditions, filter_of, to_jmap_filter};
use crate::types::{str_views, EmailSubmission, EmailSubmissionView, ParsedQuery};
use vstd::prelude::*;

verus! {

/// A method call: its name, its arguments and its id within the batch.
pub open spec fn call(name: Seq<char>, args: Doc, id: Seq<char>) -> Doc {
    Doc::Array(Seq::<Doc>::empty().push(Doc::Str(name)).push(args).push(Doc::Str(id)))
}

/// The capabilities that every batch declares.
pub open spec fn capabilities() -> Seq<Doc> {
    Seq::<Doc>::empty().push(Doc::Str("urn:ietf:params:jmap:core"@)).push(
        Doc::Str("urn:ietf:params:jmap:mail"@),
    ).push(Doc::Str("urn:ietf:params:jmap:submission"@))
}

/// The request that carries a batch of method calls.
pub open spec fn batch(calls: Seq<Doc>) -> Doc {
    Doc::Object(
        Seq::<Entry>::empty().push(entry("using"@, Doc::Array(capabilities()))).push(
            entry("methodCalls"@, Doc::Array(calls)),
        ),
    )
}

/// The call that lists all records of a kind, such as `Mailbox/get`.
pub open spec fn get_all(method: Seq<char>, account: Seq<char>) -> Doc {
    call(method, one("accountId"@, Doc::Str(account)), "0"@)
}

/// The order in which messages are asked for: newest first.
pub open spec fn newest_first() -> Doc {
    Doc::Array(
        Seq::<Doc>::empty().push(
            Doc::Object(
                Seq::<Entry>::empty().push(entry("property"@, Doc::Str("receivedAt"@))).push(
                    entry("isAscending"@, Doc::Bool(false)),
                ),
            ),
        ),
    )
}

/// The call that asks for the ids of the messages that pass a filter.
pub open spec fn email_query(account: Seq<char>, filter: Doc, limit: int, position: int) -> Doc {
    call(
        "Email/query"@,
        Doc::Object(
            Seq::<Entry>::empty().push(entry("accountId"@, Doc::Str(account))).push(
                entry("filter"@, filter),
            ).push(entry("sort"@, newest_first())).push(
                entry("limit"@, Doc::Number(digits(limit))),
            ).push(entry("position"@, Doc::Number(digits(position)))),
        ),
        "0"@,
    )
}

/// The properties of a message that are asked for by default.
pub open spec fn default_properties() -> Seq<Seq<char>> {
    Seq::<Seq<char>>::empty().push("id"@).push("blobId"@).push("threadId"@).push(
        "mailboxIds"@,
    ).push("keywords"@).push("receivedAt"@).push("subject"@).push("from"@).push("to"@).push(
        "cc"@,
    ).push("preview"@).push("hasAttachment"@).push("size"@)
}

/// The properties that are asked for in addition when bodies are wanted.
pub open spec fn body_properties() -> Seq<Seq<char>> {
    Seq::<Seq<char>>::empty().push("textBody"@).push("htmlBody"@).push("bodyValues"@).push(
        "bodyStructure"@,
    )
}

/// The properties of each body part that are asked for.
pub open spec fn part_properties() -> Seq<Seq<char>> {
    Seq::<Seq<char>>::empty().push("partId"@).push("blobId"@).push("type"@).push("name"@).push(
        "size"@,
    ).push("disposition"@).push("subParts"@)
}

/// The properties asked for in a fetch: the caller's choice or the default
/// ones, and the body properties after them where bodies are wanted.
pub open spec fn wanted_properties(fetch_body: bool, chosen: Option<Seq<Seq<char>>>) -> Seq<
    Seq<char>,
> {
    let base = match chosen {
        Some(p) => p,
        None => default_properties(),
    };
    if fetch_body {
        base + body_properties()
    } else {
        base
    }
}

/// The call that fetches messages by id.
pub open spec fn email_get(
    account: Seq<char>,
    ids: Seq<Seq<char>>,
    fetch_body: bool,
    chosen: Option<Seq<Seq<char>>>,
) -> Doc {
    let fixed = Seq::<Entry>::empty().push(entry("accountId"@, Doc::Str(account))).push(
        entry("ids"@, Doc::Array(string_docs(ids))),
    ).push(
        entry("properties"@, Doc::Array(string_docs(wanted_properties(fetch_body, chosen)))),
    ).push(entry("fetchHTMLBodyValues"@, Doc::Bool(fetch_body))).push(
        entry("fetchTextBodyValues"@, Doc::Bool(fetch_body)),
    ).push(entry("maxBodyValueBytes"@, Doc::Number(digits(1000000))));
    call(
        "Email/get"@,
        Doc::Object(
            if fetch_body {
                fixed.push(entry("bodyProperties"@, Doc::Array(string_docs(part_properties()))))
            } else {
                fixed
            },
        ),
        "0"@,
    )
}

/// The call that changes messages: `updates` holds one patch for each
/// message id.
pub open spec fn email_update(account: Seq<char>, updates: Seq<Entry>) -> Doc {
    call(
        "Email/set"@,
        Doc::Object(
            Seq::<Entry>::empty().push(entry("accountId"@, Doc::Str(account))).push(
                entry("update"@, Doc::Object(updates)),
            ),
        ),
        "0"@,
    )
}

/// The patch that sets a keyword, or removes it.
pub open spec fn keyword_patch(keyword: Seq<char>, on: bool) -> Doc {
    one(
        "keywords/"@ + keyword,
        if on {
            Doc::Bool(true)
        } else {
            Doc::Null
        },
    )
}

/// The patch that files a message in one mailbox and no other.
pub open spec fn move_patch(mailbox: Seq<char>) -> Doc {
    one("mailboxIds"@, one(mailbox, Doc::Bool(true)))
}

/// One patch, the same for every id of a list.
pub open spec fn patch_each(ids: Seq<Seq<char>>, patch: Doc) -> Seq<Entry> {
    Seq::new(ids.len(), |i: int| entry(ids[i], patch))
}

/// The call that looks up the body structure of one message.
pub open spec fn structure_get(account: Seq<char>, email_id: Seq<char>) -> Doc {
    call(
        "Email/get"@,
        Doc::Object(
            Seq::<Entry>::empty().push(entry("accountId"@, Doc::Str(account))).push(
                entry("ids"@, Doc::Array(Seq::<Doc>::empty().push(Doc::Str(email_id)))),
            ).push(
                entry(
                    "properties"@,
                    Doc::Array(Seq::<Doc>::empty().push(Doc::Str("bodyStructure"@))),
                ),
            ).push(
                entry(
                    "bodyProperties"@,
                    Doc::Array(
                        Seq::<Doc>::empty().push(Doc::Str("partId"@)).push(
                            Doc::Str("blobId"@),
                        ).push(Doc::Str("type"@)).push(Doc::Str("name"@)).push(
                            Doc::Str("subParts"@),
                        ),
                    ),
                ),
            ),
        ),
        "0"@,
    )
}

/// Everyone a submission is addressed to: first `to`, then `cc`, then `bcc`.
pub open spec fn recipients(sub: EmailSubmissionView) -> Seq<Seq<char>> {
    sub.to + sub.cc + match sub.bcc {
        Some(b) => b,
        None => Seq::empty(),
    }
}

/// The call that creates the draft of a submission.
pub open spec fn draft_create(account: Seq<char>, draft_doc: Doc) -> Doc {
    call(
        "Email/set"@,
        Doc::Object(
            Seq::<Entry>::empty().push(entry("accountId"@, Doc::Str(account))).push(
                entry("create"@, one("draft"@, draft_doc)),
            ),
        ),
        "0"@,
    )
}

/// The call that submits the draft created by the call before it, which it
/// names by the back-reference `#draft`.
pub open spec fn submission_create(
    account: Seq<char>,
    identity: Seq<char>,
    from: Seq<char>,
    to: Seq<Seq<char>>,
) -> Doc {
    call(
        "EmailSubmission/set"@,
        Doc::Object(
            Seq::<Entry>::empty().push(entry("accountId"@, Doc::Str(account))).push(
                entry(
                    "create"@,
                    one(
                        "send"@,
                        Doc::Object(
                            Seq::<Entry>::empty().push(entry("emailId"@, Doc::Str("#draft"@))).push(
                                entry("identityId"@, Doc::Str(identity)),
                            ).push(
                                entry(
                                    "envelope"@,
                                    Doc::Object(
                                        Seq::<Entry>::empty().push(
                                            entry("mailFrom"@, one("email"@, Doc::Str(from))),
                                        ).push(entry("rcptTo"@, Doc::Array(address_docs(to)))),
                                    ),
                                ),
                            ),
                        ),
                    ),
                ),
            ),
        ),
        "1"@,
    )
}

/// The two calls that send a message: create the draft, then submit it.
pub open spec fn send_calls(
    account: Seq<char>,
    sub: EmailSubmissionView,
    from: Seq<char>,
    identity: Seq<char>,
    drafts_mailbox: Seq<char>,
) -> Seq<Doc> {
    Seq::<Doc>::empty().push(draft_create(account, draft(sub, from, drafts_mailbox))).push(
        submission_create(account, identity, from, recipients(sub)),
    )
}

// ---------------------------------------------------------------------------
// Construction
// ---------------------------------------------------------------------------

fn push_text(items: &mut Vec<Json>, s: &str)
    ensures
        docs(final(items)@) == docs(old(items)@).push(Doc::Str(s@)),
{
    push_item(items, text(s));
}

/// Builds a method call.
pub fn make_call(name: &str, args: Json, id: &str) -> (r: Json)
    ensures
        r@ == call(name@, args@, id@),
{
    let mut items = no_items();
    push_text(&mut items, name);
    push_item(&mut items, args);
    push_text(&mut items, id);
    array(items)
}

/// Wraps a batch of method calls into one request.
pub fn batch_of(calls: Vec<Json>) -> (r: Json)
    ensures
        r@ == batch(docs(calls@)),
{
    let mut caps = no_items();
    push_text(&mut caps, "urn:ietf:params:jmap:core");
    push_text(&mut caps, "urn:ietf:params:jmap:mail");
    push_text(&mut caps, "urn:ietf:params:jmap:submission");
    let mut entries = no_entries();
    put(&mut entries, "using", array(caps));
    put(&mut entries, "methodCalls", array(calls));
    object(entries)
}

/// Builds the call that lists all records of a kind.
pub fn get_all_call(method: &str, account: &str) -> (r: Json)
    ensures
        r@ == get_all(method@, account@),
{
    make_call(method, single("accountId", text(account)), "0")
}

/// Builds the call that asks for message ids under a filter.
pub fn email_query_call(account: &str, filter: Json, limit: usize, position: usize) -> (r: Json)
    ensures
        r@ == email_query(account@, filter@, limit as int, position as int),
{
    let mut order = no_entries();
    put(&mut order, "property", text("receivedAt"));
    put(&mut order, "isAscending", Json::Bool(false));
    let mut sort = no_items();
    push_item(&mut sort, object(order));
    let mut args = no_entries();
    put(&mut args, "accountId", text(account));
    put(&mut args, "filter", filter);
    put(&mut args, "sort", array(sort));
    put(&mut args, "limit", crate::json::natural(limit));
    put(&mut args, "position", crate::json::natural(position));
    make_call("Email/query", object(args), "0")
}

fn string_items(strings: &Vec<String>, out: &mut Vec<Json>)
    ensures
        docs(final(out)@) == docs(old(out)@) + string_docs(str_views(strings@)),
{
    let mut i: usize = 0;
    proof {
        assert(docs(out@) + string_docs(str_views(strings@).take(0)) =~= docs(out@));
    }
    while i < strings.len()
        invariant
            i <= strings@.len(),
            docs(out@) == docs(old(out)@) + string_docs(str_views(strings@).take(i as int)),
        decreases strings@.len() - i,
    {
        push_item(out, text(strings[i].as_str()));
        proof {
            assert(docs(out@) =~= docs(old(out)@) + string_docs(
                str_views(strings@).take(i + 1),
            ));
        }
        i += 1;
    }
    proof {
        assert(str_views(strings@).take(strings@.len() as int) =~= str_views(strings@));
    }
}

fn wanted_property_items(fetch_body: bool, chosen: Option<&Vec<String>>) -> (r: Vec<Json>)
    ensures
        docs(r@) == string_docs(
            wanted_properties(
                fetch_body,
                match chosen {
                    Some(p) => Some(str_views(p@)),
                    None => None,
                },
            ),
        ),
{
    let mut items = no_items();
    let ghost base;
    match chosen {
        Some(p) => {
            string_items(p, &mut items);
            proof {
                base = str_views(p@);
                assert(docs(items@) =~= string_docs(base));
            }
        },
        None => {
            push_text(&mut items, "id");
            push_text(&mut items, "blobId");
            push_text(&mut items, "threadId");
            push_text(&mut items, "mailboxIds");
            push_text(&mut items, "keywords");
            push_text(&mut items, "receivedAt");
            push_text(&mut items, "subject");
            push_text(&mut items, "from");
            push_text(&mut items, "to");
            push_text(&mut items, "cc");
            push_text(&mut items, "preview");
            push_text(&mut items, "hasAttachment");
            push_text(&mut items, "size");
            proof {
                base = default_properties();
                assert(docs(items@) =~= string_docs(base));
            }
        },
    }
    if fetch_body {
        push_text(&mut items, "textBody");
        push_text(&mut items, "htmlBody");
        push_text(&mut items, "bodyValues");
        push_text(&mut items, "bodyStructure");
        proof {
            assert(docs(items@) =~= string_docs(base + body_properties()));
        }
    }
    items
}

/// Builds the call that fetches messages by id.
pub fn email_get_call(
    account: &str,
    ids: &Vec<String>,
    fetch_body: bool,
    chosen: Option<&Vec<String>>,
) -> (r: Json)
    ensures
        r@ == email_get(
            account@,
            str_views(ids@),
            fetch_body,
            match chosen {
                Some(p) => Some(str_views(p@)),
                None => None,
            },
        ),
{
    let mut id_items = no_items();
    string_items(ids, &mut id_items);
    proof {
        assert(docs(id_items@) =~= string_docs(str_views(ids@)));
    }
    let mut args = no_entries();
    put(&mut args, "accountId", text(account));
    put(&mut args, "ids", array(id_items));
    put(&mut args, "properties", array(wanted_property_items(fetch_body, chosen)));
    put(&mut args, "fetchHTMLBodyValues", Json::Bool(fetch_body));
    put(&mut args, "fetchTextBodyValues", Json::Bool(fetch_body));
    put(&mut args, "maxBodyValueBytes", crate::json::natural(1000000));
    if fetch_body {
        let mut parts = no_items();
        push_text(&mut parts, "partId");
        push_text(&mut parts, "blobId");
        push_text(&mut parts, "type");
        push_text(&mut parts, "name");
        push_text(&mut parts, "size");
        push_text(&mut parts, "disposition");
        push_text(&mut parts, "subParts");
        proof {
            assert(docs(parts@) =~= string_docs(part_properties()));
        }
        put(&mut args, "bodyProperties", array(parts));
    }
    make_call("Email/get", object(args), "0")
}

/// Builds the call that changes messages.
pub fn email_update_call(account: &str, updates: Vec<(String, Json)>) -> (r: Json)
    ensures
        r@ == email_update(account@, crate::json::entries_of(updates@)),
{
    let mut args = no_entries();
    put(&mut args, "accountId", text(account));
    put(&mut args, "update", object(updates));
    make_call("Email/set", object(args), "0")
}

/// Builds the patch that sets or removes a keyword.
pub fn keyword_patch_doc(keyword: &str, on: bool) -> (r: Json)
    ensures
        r@ == keyword_patch(keyword@, on),
{
    let key = crate::text::cat("keywords/", keyword);
    single(
        key.as_str(),
        if on {
            Json::Bool(true)
        } else {
            Json::Null
        },
    )
}

/// Builds the patch that files a message in one mailbox.
pub fn move_patch_doc(mailbox: &str) -> (r: Json)
    ensures
        r@ == move_patch(mailbox@),
{
    single("mailboxIds", single(mailbox, Json::Bool(true)))
}

/// The patch `patch` for the single message `email_id`.
pub fn single_update(email_id: &str, patch: Json) -> (r: Vec<(String, Json)>)
    ensures
        crate::json::entries_of(r@) == Seq::<Entry>::empty().push(entry(email_id@, patch@)),
{
    let mut updates = no_entries();
    put(&mut updates, email_id, patch);
    updates
}

/// The patch that files each message of a list in `mailbox`.
pub fn move_each(ids: &Vec<String>, mailbox: &str) -> (r: Vec<(String, Json)>)
    ensures
        crate::json::entries_of(r@) == patch_each(str_views(ids@), move_patch(mailbox@)),
{
    let mut updates = no_entries();
    let mut i: usize = 0;
    proof {
        assert(crate::json::entries_of(updates@) =~= patch_each(
            str_views(ids@).take(0),
            move_patch(mailbox@),
        ));
    }
    while i < ids.len()
        invariant
            i <= ids@.len(),
            crate::json::entries_of(updates@) == patch_each(
                str_views(ids@).take(i as int),
                move_patch(mailbox@),
            ),
        decreases ids@.len() - i,
    {
        put(&mut updates, ids[i].as_str(), move_patch_doc(mailbox));
        proof {
            assert(crate::json::entries_of(updates@) =~= patch_each(
                str_views(ids@).take(i + 1),
                move_patch(mailbox@),
            ));
        }
        i += 1;
    }
    proof {
        assert(str_views(ids@).take(ids@.len() as int) =~= str_views(ids@));
    }
    updates
}

/// Builds the call that looks up the body structure of a message.
pub fn structure_get_call(account: &str, email_id: &str) -> (r: Json)
    ensures
        r@ == structure_get(account@, email_id@),
{
    let mut ids = no_items();
    push_text(&mut ids, email_id);
    let mut properties = no_items();
    push_text(&mut properties, "bodyStructure");
    let mut parts = no_items();
    push_text(&mut parts, "partId");
    push_text(&mut parts, "blobId");
    push_text(&mut parts, "type");
    push_text(&mut parts, "name");
    push_text(&mut parts, "subParts");
    let mut args = no_entries();
    put(&mut args, "accountId", text(account));
    put(&mut args, "ids", array(ids));
    put(&mut args, "properties", array(properties));
    put(&mut args, "bodyProperties", array(parts));
    make_call("Email/get", object(args), "0")
}

/// The addresses of everyone a submission is addressed to.
fn recipient_list(sub: &EmailSubmission) -> (r: Json)
    ensures
        r@ == Doc::Array(address_docs(recipients(sub@))),
{
    let mut all: Vec<String> = Vec::new();
    let mut i: usize = 0;
    while i < sub.to.len()
        invariant
            i <= sub.to@.len(),
            str_views(all@) == str_views(sub.to@).take(i as int),
        decreases sub.to@.len() - i,
    {
        let ghost before = all@;
        let next = crate::text::owned(sub.to[i].as_str());
        all.push(next);
        proof {
            crate::types::lemma_str_views_push(before, next);
            assert(str_views(sub.to@)[i as int] == next@);
            assert(str_views(all@) =~= str_views(sub.to@).take(i + 1));
        }
        i += 1;
    }
    proof {
        assert(str_views(sub.to@).take(sub.to@.len() as int) =~= str_views(sub.to@));
    }
    i = 0;
    while i < sub.cc.len()
        invariant
            i <= sub.cc@.len(),
            str_views(all@) == str_views(sub.to@) + str_views(sub.cc@).take(i as int),
        decreases sub.cc@.len() - i,
    {
        let ghost before = all@;
        let next = crate::text::owned(sub.cc[i].as_str());
        all.push(next);
        proof {
            crate::types::lemma_str_views_push(before, next);
            assert(str_views(sub.cc@)[i as int] == next@);
            assert(str_views(all@) =~= str_views(sub.to@) + str_views(sub.cc@).take(i + 1));
        }
        i += 1;
    }
    proof {
        assert(str_views(sub.cc@).take(sub.cc@.len() as int) =~= str_views(sub.cc@));
    }
    match &sub.bcc {
        Some(bcc) => {
            i = 0;
            while i < bcc.len()
                invariant
                    i <= bcc@.len(),
                    str_views(all@) == str_views(sub.to@) + str_views(sub.cc@) + str_views(
                        bcc@,
                    ).take(i as int),
                decreases bcc@.len() - i,
            {
                let ghost before = all@;
                let next = crate::text::owned(bcc[i].as_str());
                all.push(next);
                proof {
                    crate::types::lemma_str_views_push(before, next);
                    assert(str_views(bcc@)[i as int] == next@);
                    assert(str_views(all@) =~= str_views(sub.to@) + str_views(sub.cc@)
                        + str_views(bcc@).take(i + 1));
                }
                i += 1;
            }
            proof {
                assert(str_views(bcc@).take(bcc@.len() as int) =~= str_views(bcc@));
            }
        },
        None => {
            proof {
                assert(str_views(all@) =~= recipients(sub@));
            }
        },
    }
    address_list(&all)
}

/// The two calls that send a message.
pub fn send_calls_for(
    account: &str,
    sub: &EmailSubmission,
    from_addr: &str,
    identity: &str,
    drafts_mailbox: &str,
) -> (r: Vec<Json>)
    requires
        well_formed(sub@),
    ensures
        docs(r@) == send_calls(account@, sub@, from_addr@, identity@, drafts_mailbox@),
{
    let mut create = no_entries();
    put(&mut create, "accountId", text(account));
    put(&mut create, "create", single("draft", build_draft_email(sub, from_addr, drafts_mailbox)));
    let first = make_call("Email/set", object(create), "0");

    let mut envelope = no_entries();
    put(&mut envelope, "mailFrom", single("email", text(from_addr)));
    put(&mut envelope, "rcptTo", recipient_list(sub));
    let mut send = no_entries();
    put(&mut send, "emailId", text("#draft"));
    put(&mut send, "identityId", text(identity));
    put(&mut send, "envelope", object(envelope));
    let mut submit = no_entries();
    put(&mut submit, "accountId", text(account));
    put(&mut submit, "create", single("send", object(send)));
    let second = make_call("EmailSubmission/set", object(submit), "1");

    let mut calls = no_items();
    push_item(&mut calls, first);
    push_item(&mut calls, second);
    calls
}

/// The call that asks for the ids of the messages that a query and a
/// mailbox scope select.
pub fn query_call(
    account: &str,
    mailbox_id: Option<&str>,
    limit: usize,
    position: usize,
    query: Option<&ParsedQuery>,
) -> (r: Json)
    ensures
        r@ == email_query(
            account@,
            filter_of(
                conditions(
                    match query {
                        Some(q) => Some(q@),
                        None => None,
                    },
                    match mailbox_id {
                        Some(id) => Some(id@),
                        None => None,
                    },
                ),
            ),
            limit as int,
            position as int,
        ),
{
    email_query_call(account, to_jmap_filter(query, mailbox_id), limit, position)
}

} // verus!
