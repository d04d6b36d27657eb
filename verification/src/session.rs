//! The session with the mail store: what is known of the account, which
//! request each operation sends, and what its answer means.
//!
//! Nothing here touches the network. An operation that needs one exchange
//! has a function that builds the request and one that reads the response;
//! an operation that needs more says, step by step, what to send next.

use crate::error::{internal, not_found, Error, ErrorView};
use crate::json::{
    docs, entries_in, field, item, list_of, null_at, text_of, write_document, written_text, Doc,
    Json,
};
use crate::message::{
    email_of, identity_of, mailbox_of, parse_identity, parse_jmap_email_at, parse_mailbox,
};
use crate::mime::{calendar_blob, find_calendar_blob_id};
use crate::number::{digits, format_u64};
use crate::request::{
    batch, batch_of, email_get, email_get_call, email_update, email_update_call, get_all,
    get_all_call, keyword_patch, keyword_patch_doc, move_each, move_patch, move_patch_doc,
    patch_each, query_call, send_calls, send_calls_for, single_update, structure_get,
    structure_get_call,
};
use crate::draft::well_formed;
use crate::search::{conditions, filter_of};
use crate::text::{
    cat, cat3, chars_of, eq_ignore_ascii_case, eq_ignore_case, owned, replace, replaced, str_eq,
    string_of,
};
use crate::types::{
    opt_owned, opt_text, str_views, views, DateTime, Email, EmailSubmission, EmailSubmissionView,
    EmailView, Identity, IdentityView, Mailbox, MailboxView, ParsedQuery, ParsedQueryView,
};
use vstd::prelude::*;

verus! {

// ---------------------------------------------------------------------------
// State
// ---------------------------------------------------------------------------

/// What is known of the account. The endpoints and the account id are
/// there once the session is connected; the identities once they were
/// fetched.
#[derive(Debug, Clone)]
pub struct JmapSession {
    pub username: String,
    pub auth_header: String,
    pub api_url: Option<String>,
    pub account_id: Option<String>,
    pub upload_url: Option<String>,
    pub download_url: Option<String>,
    /// The mailboxes that have a role, at most one for each role.
    pub mailbox_cache: Vec<Mailbox>,
    pub identity_id: Option<String>,
    pub identities: Option<Vec<Identity>>,
}

/// The mathematical value of a session.
pub ghost struct JmapSessionView {
    pub username: Seq<char>,
    pub auth_header: Seq<char>,
    pub api_url: Option<Seq<char>>,
    pub account_id: Option<Seq<char>>,
    pub upload_url: Option<Seq<char>>,
    pub download_url: Option<Seq<char>>,
    pub mailbox_cache: Seq<MailboxView>,
    pub identity_id: Option<Seq<char>>,
    pub identities: Option<Seq<IdentityView>>,
}

impl View for JmapSession {
    type V = JmapSessionView;

    open spec fn view(&self) -> JmapSessionView {
        JmapSessionView {
            username: self.username@,
            auth_header: self.auth_header@,
            api_url: opt_text(self.api_url),
            account_id: opt_text(self.account_id),
            upload_url: opt_text(self.upload_url),
            download_url: opt_text(self.download_url),
            mailbox_cache: views(self.mailbox_cache@),
            identity_id: opt_text(self.identity_id),
            identities: match self.identities {
                Some(ids) => Some(views(ids@)),
                None => None,
            },
        }
    }
}

impl JmapSession {
    /// A session that is not connected yet.
    pub fn new(username: &str, auth_header: &str) -> (r: JmapSession)
        ensures
            r@ == (JmapSessionView {
                username: username@,
                auth_header: auth_header@,
                api_url: None,
                account_id: None,
                upload_url: None,
                download_url: None,
                mailbox_cache: Seq::empty(),
                identity_id: None,
                identities: None,
            }),
    {
        let r = JmapSession {
            username: owned(username),
            auth_header: owned(auth_header),
            api_url: None,
            account_id: None,
            upload_url: None,
            download_url: None,
            mailbox_cache: Vec::new(),
            identity_id: None,
            identities: None,
        };
        proof {
            assert(views(r.mailbox_cache@) =~= Seq::<MailboxView>::empty());
        }
        r
    }
}

/// A success status: one from 200 to 299.
pub open spec fn success(code: int) -> bool {
    200 <= code <= 299
}

/// Whether a status reports success.
pub fn is_success(code: u16) -> (r: bool)
    ensures
        r == success(code as int),
{
    200 <= code && code <= 299
}

/// The text of an optional string, taken or refused as not connected.
fn connected(value: &Option<String>) -> (r: Result<&str, Error>)
    ensures
        match r {
            Ok(s) => opt_text(*value) == Some(s@),
            Err(e) => opt_text(*value) is None && e@ == ErrorView::NotConnected,
        },
{
    match value {
        Some(s) => Ok(s.as_str()),
        None => Err(Error::NotConnected),
    }
}

// ---------------------------------------------------------------------------
// Connecting
// ---------------------------------------------------------------------------

/// What the status of the discovery response means: 200 lets the session
/// go on, 401 and 403 are failures of authentication, anything else is a
/// failure of the network.
pub open spec fn discovery_status(code: int) -> Result<(), ErrorView> {
    if code == 401 {
        Err(ErrorView::Auth("Authentication failed (401)"@))
    } else if code == 403 {
        Err(ErrorView::Auth("Access forbidden (403)"@))
    } else if code == 200 {
        Ok(())
    } else {
        Err(ErrorView::Network("HTTP "@ + digits(code)))
    }
}

/// Says what the status of the discovery response means.
pub fn check_discovery_status(code: u16) -> (r: Result<(), Error>)
    ensures
        match r {
            Ok(()) => discovery_status(code as int) == Ok::<(), ErrorView>(()),
            Err(e) => discovery_status(code as int) == Err::<(), ErrorView>(e@),
        },
{
    if code == 401 {
        Err(Error::Auth(owned("Authentication failed (401)")))
    } else if code == 403 {
        Err(Error::Auth(owned("Access forbidden (403)")))
    } else if code == 200 {
        Ok(())
    } else {
        let number = string_of(format_u64(code as u64).as_slice());
        Err(Error::Network(cat("HTTP ", number.as_str())))
    }
}

/// The account id that a discovery document names for mail, if it has a
/// table of primary accounts; `previous` stays where it has none.
pub open spec fn discovered_account(body: Doc, previous: Option<Seq<char>>) -> Option<Seq<char>> {
    if body.field("primaryAccounts"@).as_object() is Some {
        body.field("primaryAccounts"@).field("urn:ietf:params:jmap:mail"@).as_str()
    } else {
        previous
    }
}

/// The session after it has read a discovery document.
pub open spec fn discovered(s: JmapSessionView, body: Doc) -> JmapSessionView {
    JmapSessionView {
        api_url: body.field("apiUrl"@).as_str(),
        upload_url: body.field("uploadUrl"@).as_str(),
        download_url: body.field("downloadUrl"@).as_str(),
        account_id: discovered_account(body, s.account_id),
        ..s
    }
}

/// Takes the endpoints and the account id from a discovery document. The
/// session is changed in any case; a document that leaves the session
/// without an account id breaks the protocol's contract and is reported.
pub fn connect(s: &mut JmapSession, body: &Json) -> (r: Result<(), Error>)
    ensures
        final(s)@ == discovered(old(s)@, body@),
        match r {
            Ok(()) => final(s)@.account_id is Some,
            Err(e) => final(s)@.account_id is None && e@ == ErrorView::Internal(
                "JMAP session must have accountId"@,
            ),
        },
{
    s.api_url = opt_owned(text_of(body.get("apiUrl")));
    s.upload_url = opt_owned(text_of(body.get("uploadUrl")));
    s.download_url = opt_owned(text_of(body.get("downloadUrl")));
    let accounts = body.get("primaryAccounts");
    if entries_in(accounts).is_some() {
        s.account_id = opt_owned(text_of(field(accounts, "urn:ietf:params:jmap:mail")));
    }
    if s.account_id.is_some() {
        Ok(())
    } else {
        Err(internal("JMAP session must have accountId"))
    }
}

// ---------------------------------------------------------------------------
// Batches
// ---------------------------------------------------------------------------

/// The endpoint and the request for a batch of method calls. The session
/// must be connected.
pub fn jmap_call(s: &JmapSession, method_calls: Vec<Json>) -> (r: Result<(String, Json), Error>)
    ensures
        match r {
            Ok(sent) => s@.api_url == Some(sent.0@) && sent.1@ == batch(docs(method_calls@)),
            Err(e) => s@.api_url is None && e@ == ErrorView::NotConnected,
        },
{
    let url = match connected(&s.api_url) {
        Ok(u) => owned(u),
        Err(e) => {
            return Err(e);
        },
    };
    Ok((url, batch_of(method_calls)))
}

/// What the status of a batch response means: anything but success is a
/// failure of the network, described by the status line.
pub fn check_call_status(code: u16, status_line: &str) -> (r: Result<(), Error>)
    ensures
        match r {
            Ok(()) => success(code as int),
            Err(e) => !success(code as int) && e@ == ErrorView::Network(
                "JMAP call failed: HTTP "@ + status_line@,
            ),
        },
{
    if is_success(code) {
        Ok(())
    } else {
        Err(Error::Network(cat("JMAP call failed: HTTP ", status_line)))
    }
}

/// The result of the first method call of a batch response.
pub open spec fn first_result(resp: Doc) -> Doc {
    resp.field("methodResponses"@).item(0).item(1)
}

/// The result of the second method call of a batch response.
pub open spec fn second_result(resp: Doc) -> Doc {
    resp.field("methodResponses"@).item(1).item(1)
}

fn result_at(resp: &Json, index: usize) -> (r: Option<&Json>)
    ensures
        crate::json::doc_of(r) == resp@.field("methodResponses"@).item(index as int).item(1),
{
    item(item(resp.get("methodResponses"), index), 1)
}

// ---------------------------------------------------------------------------
// Mailboxes
// ---------------------------------------------------------------------------

/// The call that lists the mailboxes.
pub fn get_mailboxes_request(s: &JmapSession) -> (r: Result<Json, Error>)
    ensures
        match r {
            Ok(call) => s@.account_id is Some && call@ == get_all(
                "Mailbox/get"@,
                s@.account_id->0,
            ),
            Err(e) => s@.account_id is None && e@ == ErrorView::NotConnected,
        },
{
    match connected(&s.account_id) {
        Ok(account) => Ok(get_all_call("Mailbox/get", account)),
        Err(e) => Err(e),
    }
}

/// The mailboxes that a list of records stands for.
pub open spec fn mailboxes_of(list: Seq<Doc>) -> Seq<MailboxView> {
    Seq::new(list.len(), |i: int| mailbox_of(list[i]))
}

/// Reads the mailboxes from the response to `Mailbox/get`.
pub fn get_mailboxes_response(resp: &Json) -> (r: Result<Vec<Mailbox>, Error>)
    ensures
        match r {
            Ok(mailboxes) => first_result(resp@).field("list"@).as_array() is Some && views(
                mailboxes@,
            ) == mailboxes_of(first_result(resp@).field("list"@).as_array()->0),
            Err(e) => first_result(resp@).field("list"@).as_array() is None && e@
                == ErrorView::Internal("Invalid Mailbox/get response"@),
        },
{
    let list = match list_of(field(result_at(resp, 0), "list")) {
        Some(l) => l,
        None => {
            return Err(internal("Invalid Mailbox/get response"));
        },
    };
    let mut mailboxes: Vec<Mailbox> = Vec::new();
    let mut i: usize = 0;
    while i < list.len()
        invariant
            i <= list@.len(),
            mailboxes@.len() == i,
            forall|j: int| 0 <= j < i ==> mailboxes@[j]@ == mailbox_of(docs(list@)[j]),
        decreases list@.len() - i,
    {
        mailboxes.push(parse_mailbox(&list[i]));
        i += 1;
    }
    proof {
        assert(views(mailboxes@) =~= mailboxes_of(docs(list@)));
    }
    Ok(mailboxes)
}

/// Whether a cache is as a table by role: every mailbox in it has a role,
/// and no role stands in it twice.
pub open spec fn by_role(cache: Seq<MailboxView>) -> bool {
    &&& forall|i: int| 0 <= i < cache.len() ==> (#[trigger] cache[i]).role is Some
    &&& forall|i: int, j: int| 0 <= i < j < cache.len() ==> cache[i].role != cache[j].role
}

/// A cache without the mailboxes of a role.
pub open spec fn without_role(cache: Seq<MailboxView>, role: Seq<char>) -> Seq<MailboxView>
    decreases cache.len(),
{
    if cache.len() == 0 {
        cache
    } else if cache.last().role == Some(role) {
        without_role(cache.drop_last(), role)
    } else {
        without_role(cache.drop_last(), role).push(cache.last())
    }
}

/// A cache after a mailbox is remembered: a mailbox with a role takes the
/// place of the mailboxes that the cache held under that role; a mailbox
/// without a role is not remembered.
pub open spec fn remembered(cache: Seq<MailboxView>, m: MailboxView) -> Seq<MailboxView> {
    if m.role is Some {
        without_role(cache, m.role->0).push(m)
    } else {
        cache
    }
}

/// A cache after a list of mailboxes is remembered, one after the other.
pub open spec fn remembered_all(cache: Seq<MailboxView>, mailboxes: Seq<MailboxView>) -> Seq<
    MailboxView,
>
    decreases mailboxes.len(),
{
    if mailboxes.len() == 0 {
        cache
    } else {
        remembered(remembered_all(cache, mailboxes.drop_last()), mailboxes.last())
    }
}

/// What is left of a cache without a role was in the cache, has another
/// role, and is by role if the cache was.
pub proof fn lemma_without_role(cache: Seq<MailboxView>, role: Seq<char>)
    ensures
        forall|i: int|
            0 <= i < without_role(cache, role).len() ==> cache.contains(
                #[trigger] without_role(cache, role)[i],
            ) && without_role(cache, role)[i].role != Some(role),
        by_role(cache) ==> by_role(without_role(cache, role)),
    decreases cache.len(),
{
    let w = without_role(cache, role);
    if cache.len() > 0 {
        let front = cache.drop_last();
        let wf = without_role(front, role);
        lemma_without_role(front, role);
        assert forall|i: int| 0 <= i < w.len() implies cache.contains(#[trigger] w[i]) && w[i].role
            != Some(role) by {
            if i < wf.len() {
                assert(w[i] == wf[i]);
                assert(front.contains(wf[i]));
                let k = choose|k: int| 0 <= k < front.len() && front[k] == wf[i];
                assert(cache[k] == wf[i]);
            } else {
                assert(w[i] == cache.last());
                assert(cache[cache.len() - 1] == w[i]);
            }
        }
        if by_role(cache) {
            assert(by_role(front)) by {
                assert forall|i: int| 0 <= i < front.len() implies (#[trigger] front[i]).role
                    is Some by {
                    assert(cache[i].role is Some);
                }
                assert forall|i: int, j: int| 0 <= i < j < front.len() implies front[i].role
                    != front[j].role by {
                    assert(cache[i].role != cache[j].role);
                }
            }
            assert forall|i: int| 0 <= i < w.len() implies (#[trigger] w[i]).role is Some by {
                assert(cache.contains(w[i]));
                let k = choose|k: int| 0 <= k < cache.len() && cache[k] == w[i];
                assert(cache[k].role is Some);
            }
            assert forall|i: int, j: int| 0 <= i < j < w.len() implies w[i].role != w[j].role by {
                if j < wf.len() {
                    assert(wf[i].role != wf[j].role);
                } else {
                    assert(w[j] == cache.last());
                    assert(w[i] == wf[i]);
                    assert(front.contains(wf[i]));
                    let k = choose|k: int| 0 <= k < front.len() && front[k] == wf[i];
                    assert(cache[k].role != cache[cache.len() - 1].role);
                }
            }
        }
    }
}

/// Remembering a mailbox keeps a cache by role.
pub proof fn lemma_remembered_by_role(cache: Seq<MailboxView>, m: MailboxView)
    requires
        by_role(cache),
    ensures
        by_role(remembered(cache, m)),
{
    if m.role is Some {
        let w = without_role(cache, m.role->0);
        lemma_without_role(cache, m.role->0);
        let r = w.push(m);
        assert forall|i: int| 0 <= i < r.len() implies (#[trigger] r[i]).role is Some by {
            if i < w.len() {
                assert(w[i].role is Some);
            }
        }
        assert forall|i: int, j: int| 0 <= i < j < r.len() implies r[i].role != r[j].role by {
            if j < w.len() {
                assert(w[i].role != w[j].role);
            } else {
                assert(w[i].role != Some(m.role->0));
            }
        }
    }
}

/// Remembering a list of mailboxes keeps a cache by role.
pub proof fn lemma_remembered_all_by_role(cache: Seq<MailboxView>, mailboxes: Seq<MailboxView>)
    requires
        by_role(cache),
    ensures
        by_role(remembered_all(cache, mailboxes)),
    decreases mailboxes.len(),
{
    if mailboxes.len() > 0 {
        lemma_remembered_all_by_role(cache, mailboxes.drop_last());
        lemma_remembered_by_role(
            remembered_all(cache, mailboxes.drop_last()),
            mailboxes.last(),
        );
    }
}

/// The mailbox that the cache holds for a role: the last one that was
/// remembered under it.
pub open spec fn role_mailbox(cache: Seq<MailboxView>, role: Seq<char>) -> Option<MailboxView>
    decreases cache.len(),
{
    if cache.len() == 0 {
        None
    } else if cache.last().role == Some(role) {
        Some(cache.last())
    } else {
        role_mailbox(cache.drop_last(), role)
    }
}

/// A copy of a mailbox.
pub fn copy_mailbox(m: &Mailbox) -> (r: Mailbox)
    ensures
        r@ == m@,
{
    Mailbox {
        id: owned(m.id.as_str()),
        name: owned(m.name.as_str()),
        role: match &m.role {
            Some(t) => Some(owned(t.as_str())),
            None => None,
        },
        total_emails: m.total_emails,
        unread_emails: m.unread_emails,
        parent_id: match &m.parent_id {
            Some(t) => Some(owned(t.as_str())),
            None => None,
        },
    }
}

/// Takes the mailboxes of a role out of a cache.
fn forget_role(cache: &mut Vec<Mailbox>, role: &str)
    ensures
        views(final(cache)@) == without_role(views(old(cache)@), role@),
{
    let mut kept: Vec<Mailbox> = Vec::new();
    let mut k: usize = 0;
    proof {
        assert(views(cache@).take(0) =~= Seq::<MailboxView>::empty());
        assert(views(kept@) =~= Seq::<MailboxView>::empty());
    }
    while k < cache.len()
        invariant
            k <= cache@.len(),
            cache@ == old(cache)@,
            views(kept@) == without_role(views(cache@).take(k as int), role@),
        decreases cache@.len() - k,
    {
        let ghost next = views(cache@).take(k + 1);
        proof {
            assert(next.drop_last() =~= views(cache@).take(k as int));
            assert(next.last() == cache@[k as int]@);
        }
        let same = match &cache[k].role {
            Some(r) => str_eq(r.as_str(), role),
            None => false,
        };
        if !same {
            let ghost before = kept@;
            let m = copy_mailbox(&cache[k]);
            kept.push(m);
            proof {
                crate::types::lemma_views_push(before, m);
            }
        }
        k += 1;
    }
    proof {
        assert(views(cache@).take(cache@.len() as int) =~= views(cache@));
    }
    *cache = kept;
}

/// Remembers the mailboxes that have a role. A mailbox remembered later
/// takes the place of an earlier one with the same role, so that a cache
/// that held no role twice holds none twice afterwards.
pub fn cache_mailboxes(s: &mut JmapSession, mailboxes: &Vec<Mailbox>)
    ensures
        final(s)@ == (JmapSessionView {
            mailbox_cache: remembered_all(old(s)@.mailbox_cache, views(mailboxes@)),
            ..old(s)@
        }),
        by_role(old(s)@.mailbox_cache) ==> by_role(final(s)@.mailbox_cache),
{
    let mut i: usize = 0;
    proof {
        assert(views(mailboxes@).take(0) =~= Seq::<MailboxView>::empty());
    }
    while i < mailboxes.len()
        invariant
            i <= mailboxes@.len(),
            s@ == (JmapSessionView {
                mailbox_cache: remembered_all(
                    old(s)@.mailbox_cache,
                    views(mailboxes@).take(i as int),
                ),
                ..old(s)@
            }),
        decreases mailboxes@.len() - i,
    {
        let ghost next = views(mailboxes@).take(i + 1);
        proof {
            assert(next.drop_last() =~= views(mailboxes@).take(i as int));
            assert(next.last() == mailboxes@[i as int]@);
        }
        match &mailboxes[i].role {
            Some(role) => {
                forget_role(&mut s.mailbox_cache, role.as_str());
                let ghost before = s.mailbox_cache@;
                let m = copy_mailbox(&mailboxes[i]);
                s.mailbox_cache.push(m);
                proof {
                    crate::types::lemma_views_push(before, m);
                }
            },
            None => {},
        }
        i += 1;
    }
    proof {
        assert(views(mailboxes@).take(mailboxes@.len() as int) =~= views(mailboxes@));
        if by_role(old(s)@.mailbox_cache) {
            lemma_remembered_all_by_role(old(s)@.mailbox_cache, views(mailboxes@));
        }
    }
}

/// Looks up the mailbox with a role.
pub fn find_mailbox_by_role<'a>(cache: &'a Vec<Mailbox>, role: &str) -> (r: Option<&'a Mailbox>)
    ensures
        match r {
            Some(m) => role_mailbox(views(cache@), role@) == Some(m@),
            None => role_mailbox(views(cache@), role@) is None,
        },
{
    let mut n: usize = cache.len();
    proof {
        assert(views(cache@).take(cache@.len() as int) =~= views(cache@));
    }
    while n > 0
        invariant
            n <= cache@.len(),
            role_mailbox(views(cache@), role@) == role_mailbox(views(cache@).take(n as int), role@),
        decreases n,
    {
        let ghost prefix = views(cache@).take(n as int);
        proof {
            assert(prefix.drop_last() =~= views(cache@).take(n - 1));
            assert(prefix.last() == cache@[n - 1]@);
        }
        n -= 1;
        let hit = match &cache[n].role {
            Some(r) => str_eq(r.as_str(), role),
            None => false,
        };
        if hit {
            return Some(&cache[n]);
        }
    }
    None
}

// ---------------------------------------------------------------------------
// Identities
// ---------------------------------------------------------------------------

/// The call that lists the sending identities.
pub fn get_identities_request(s: &JmapSession) -> (r: Result<Json, Error>)
    ensures
        match r {
            Ok(call) => s@.account_id is Some && call@ == get_all(
                "Identity/get"@,
                s@.account_id->0,
            ),
            Err(e) => s@.account_id is None && e@ == ErrorView::NotConnected,
        },
{
    match connected(&s.account_id) {
        Ok(account) => Ok(get_all_call("Identity/get", account)),
        Err(e) => Err(e),
    }
}

/// The identities that a list of records stands for.
pub open spec fn identities_of(list: Seq<Doc>) -> Seq<IdentityView> {
    Seq::new(list.len(), |i: int| identity_of(list[i]))
}

/// The session after it has read the identities: they are cached, and the
/// first of them becomes the default identity unless there is one already.
pub open spec fn with_identities(s: JmapSessionView, found: Seq<IdentityView>) -> JmapSessionView {
    JmapSessionView {
        identities: Some(found),
        identity_id: if s.identity_id is None && found.len() > 0 {
            Some(found[0].id)
        } else {
            s.identity_id
        },
        ..s
    }
}

/// A copy of an identity.
pub fn copy_identity(identity: &Identity) -> (r: Identity)
    ensures
        r@ == identity@,
{
    Identity {
        id: owned(identity.id.as_str()),
        email: owned(identity.email.as_str()),
        name: owned(identity.name.as_str()),
    }
}

/// A copy of a list of identities.
pub fn copy_identities(identities: &Vec<Identity>) -> (r: Vec<Identity>)
    ensures
        views(r@) == views(identities@),
{
    let mut out: Vec<Identity> = Vec::new();
    let mut i: usize = 0;
    while i < identities.len()
        invariant
            i <= identities@.len(),
            out@.len() == i,
            forall|j: int| 0 <= j < i ==> out@[j]@ == identities@[j]@,
        decreases identities@.len() - i,
    {
        out.push(copy_identity(&identities[i]));
        i += 1;
    }
    proof {
        assert(views(out@) =~= views(identities@));
    }
    out
}

/// The identities that the session has cached, if it has fetched them.
pub fn cached_identities(s: &JmapSession) -> (r: Option<Vec<Identity>>)
    ensures
        match r {
            Some(ids) => s@.identities == Some(views(ids@)),
            None => s@.identities is None,
        },
{
    match &s.identities {
        Some(ids) => Some(copy_identities(ids)),
        None => None,
    }
}

/// Reads the identities from the response to `Identity/get` and caches
/// them. A response without a list leaves the session as it is.
pub fn get_identities_response(s: &mut JmapSession, resp: &Json) -> (r: Result<
    Vec<Identity>,
    Error,
>)
    ensures
        match r {
            Ok(found) => first_result(resp@).field("list"@).as_array() is Some && views(found@)
                == identities_of(first_result(resp@).field("list"@).as_array()->0) && final(s)@
                == with_identities(old(s)@, views(found@)),
            Err(e) => first_result(resp@).field("list"@).as_array() is None && e@
                == ErrorView::Internal("Invalid Identity/get response"@) && final(s)@ == old(s)@,
        },
{
    let list = match list_of(field(result_at(resp, 0), "list")) {
        Some(l) => l,
        None => {
            return Err(internal("Invalid Identity/get response"));
        },
    };
    let mut found: Vec<Identity> = Vec::new();
    let mut i: usize = 0;
    while i < list.len()
        invariant
            i <= list@.len(),
            found@.len() == i,
            forall|j: int| 0 <= j < i ==> found@[j]@ == identity_of(docs(list@)[j]),
        decreases list@.len() - i,
    {
        found.push(parse_identity(&list[i]));
        i += 1;
    }
    proof {
        assert(views(found@) =~= identities_of(docs(list@)));
    }
    if s.identity_id.is_none() && found.len() > 0 {
        s.identity_id = Some(owned(found[0].id.as_str()));
    }
    s.identities = Some(copy_identities(&found));
    Ok(found)
}

/// The id of the first identity whose address is `email`, without regard
/// to the case of ASCII letters.
pub open spec fn identity_for(identities: Seq<IdentityView>, email: Seq<char>) -> Option<
    Seq<char>,
>
    decreases identities.len(),
{
    if identities.len() == 0 {
        None
    } else if eq_ignore_case(identities[0].email, email) {
        Some(identities[0].id)
    } else {
        identity_for(identities.drop_first(), email)
    }
}

/// Finds the identity that sends from an address.
pub fn get_identity_for_email(identities: &Vec<Identity>, email: &str) -> (r: Option<String>)
    ensures
        opt_text(r) == identity_for(views(identities@), email@),
{
    let wanted = chars_of(email);
    let mut i: usize = 0;
    proof {
        assert(views(identities@).skip(0) =~= views(identities@));
    }
    while i < identities.len()
        invariant
            i <= identities@.len(),
            wanted@ == email@,
            identity_for(views(identities@), email@) == identity_for(
                views(identities@).skip(i as int),
                email@,
            ),
        decreases identities@.len() - i,
    {
        proof {
            assert(views(identities@).skip(i as int).drop_first() =~= views(identities@).skip(
                i + 1,
            ));
            assert(views(identities@).skip(i as int)[0] == identities@[i as int]@);
        }
        let have = chars_of(identities[i].email.as_str());
        if eq_ignore_ascii_case(have.as_slice(), wanted.as_slice()) {
            return Some(owned(identities[i].id.as_str()));
        }
        i += 1;
    }
    None
}

// ---------------------------------------------------------------------------
// Queries and fetches
// ---------------------------------------------------------------------------

/// The view of an optional query.
pub open spec fn opt_query(query: Option<&ParsedQuery>) -> Option<ParsedQueryView> {
    match query {
        Some(q) => Some(q@),
        None => None,
    }
}

/// The text of an optional string.
pub open spec fn opt_str(s: Option<&str>) -> Option<Seq<char>> {
    match s {
        Some(t) => Some(t@),
        None => None,
    }
}

/// The texts of an optional list of strings.
pub open spec fn opt_strs(s: Option<&Vec<String>>) -> Option<Seq<Seq<char>>> {
    match s {
        Some(v) => Some(str_views(v@)),
        None => None,
    }
}

/// The call that asks for the ids of the messages that a query selects in
/// a mailbox, newest first, `limit` of them from position `position` on.
pub fn query_emails_request(
    s: &JmapSession,
    mailbox_id: Option<&str>,
    limit: usize,
    position: usize,
    query: Option<&ParsedQuery>,
) -> (r: Result<Json, Error>)
    ensures
        match r {
            Ok(call) => s@.account_id is Some && call@ == crate::request::email_query(
                s@.account_id->0,
                filter_of(conditions(opt_query(query), opt_str(mailbox_id))),
                limit as int,
                position as int,
            ),
            Err(e) => s@.account_id is None && e@ == ErrorView::NotConnected,
        },
{
    match connected(&s.account_id) {
        Ok(account) => Ok(query_call(account, mailbox_id, limit, position, query)),
        Err(e) => Err(e),
    }
}

/// The strings among the first `n` elements of a list, in order.
pub open spec fn strings_among(list: Seq<Doc>, n: nat) -> Seq<Seq<char>>
    decreases n,
{
    if n == 0 || n > list.len() {
        Seq::empty()
    } else {
        match list[n - 1].as_str() {
            Some(s) => strings_among(list, (n - 1) as nat).push(s),
            None => strings_among(list, (n - 1) as nat),
        }
    }
}

/// Reads the message ids from the response to `Email/query`. Elements that
/// are no strings are passed over.
pub fn query_emails_response(resp: &Json) -> (r: Result<Vec<String>, Error>)
    ensures
        match r {
            Ok(ids) => first_result(resp@).field("ids"@).as_array() is Some && str_views(ids@)
                == strings_among(
                first_result(resp@).field("ids"@).as_array()->0,
                first_result(resp@).field("ids"@).as_array()->0.len(),
            ),
            Err(e) => first_result(resp@).field("ids"@).as_array() is None && e@
                == ErrorView::Internal("Invalid Email/query response"@),
        },
{
    let list = match list_of(field(result_at(resp, 0), "ids")) {
        Some(l) => l,
        None => {
            return Err(internal("Invalid Email/query response"));
        },
    };
    let mut ids: Vec<String> = Vec::new();
    let mut i: usize = 0;
    proof {
        assert(str_views(ids@) =~= Seq::<Seq<char>>::empty());
    }
    while i < list.len()
        invariant
            i <= list@.len(),
            str_views(ids@) == strings_among(docs(list@), i as nat),
        decreases list@.len() - i,
    {
        proof {
            assert(docs(list@)[i as int] == list@[i as int]@);
        }
        match list[i].as_str() {
            Some(id) => {
                let ghost before = ids@;
                let next = owned(id);
                ids.push(next);
                proof {
                    crate::types::lemma_str_views_push(before, next);
                }
            },
            None => {},
        }
        i += 1;
    }
    Ok(ids)
}

/// The call that fetches messages by id. There is nothing to ask for an
/// empty list of ids, connected or not.
pub fn get_emails_request(
    s: &JmapSession,
    ids: &Vec<String>,
    fetch_body: bool,
    properties_override: Option<&Vec<String>>,
) -> (r: Result<Option<Json>, Error>)
    ensures
        match r {
            Ok(None) => ids@.len() == 0,
            Ok(Some(call)) => ids@.len() > 0 && s@.account_id is Some && call@ == email_get(
                s@.account_id->0,
                str_views(ids@),
                fetch_body,
                opt_strs(properties_override),
            ),
            Err(e) => ids@.len() > 0 && s@.account_id is None && e@ == ErrorView::NotConnected,
        },
{
    if ids.len() == 0 {
        return Ok(None);
    }
    match connected(&s.account_id) {
        Ok(account) => Ok(Some(email_get_call(account, ids, fetch_body, properties_override))),
        Err(e) => Err(e),
    }
}

/// The messages that a list of records stands for.
pub open spec fn emails_of(list: Seq<Doc>, fetch_body: bool, fallback: DateTime) -> Seq<
    EmailView,
> {
    Seq::new(list.len(), |i: int| email_of(list[i], fetch_body, fallback))
}

/// Reads the messages from the response to `Email/get`, with `fallback` as
/// the time of receipt of a message that names none.
pub fn get_emails_response(resp: &Json, fetch_body: bool, fallback: &DateTime) -> (r: Result<
    Vec<Email>,
    Error,
>)
    ensures
        match r {
            Ok(emails) => first_result(resp@).field("list"@).as_array() is Some && views(emails@)
                == emails_of(
                first_result(resp@).field("list"@).as_array()->0,
                fetch_body,
                *fallback,
            ),
            Err(e) => first_result(resp@).field("list"@).as_array() is None && e@
                == ErrorView::Internal("Invalid Email/get response"@),
        },
{
    let list = match list_of(field(result_at(resp, 0), "list")) {
        Some(l) => l,
        None => {
            return Err(internal("Invalid Email/get response"));
        },
    };
    let mut emails: Vec<Email> = Vec::new();
    let mut i: usize = 0;
    while i < list.len()
        invariant
            i <= list@.len(),
            emails@.len() == i,
            forall|j: int|
                0 <= j < i ==> emails@[j]@ == email_of(docs(list@)[j], fetch_body, *fallback),
        decreases list@.len() - i,
    {
        emails.push(parse_jmap_email_at(&list[i], fetch_body, fallback));
        i += 1;
    }
    proof {
        assert(views(emails@) =~= emails_of(docs(list@), fetch_body, *fallback));
    }
    Ok(emails)
}

// ---------------------------------------------------------------------------
// Changes
// ---------------------------------------------------------------------------

/// The call that applies one patch to one message.
pub open spec fn update_one(account: Seq<char>, email_id: Seq<char>, patch: Doc) -> Doc {
    email_update(account, Seq::empty().push(crate::json::entry(email_id, patch)))
}

fn update_one_request(s: &JmapSession, email_id: &str, patch: Json) -> (r: Result<Json, Error>)
    ensures
        match r {
            Ok(call) => s@.account_id is Some && call@ == update_one(
                s@.account_id->0,
                email_id@,
                patch@,
            ),
            Err(e) => s@.account_id is None && e@ == ErrorView::NotConnected,
        },
{
    match connected(&s.account_id) {
        Ok(account) => Ok(email_update_call(account, single_update(email_id, patch))),
        Err(e) => Err(e),
    }
}

/// The call that marks a message as read.
pub fn mark_read_request(s: &JmapSession, email_id: &str) -> (r: Result<Json, Error>)
    ensures
        match r {
            Ok(call) => s@.account_id is Some && call@ == update_one(
                s@.account_id->0,
                email_id@,
                keyword_patch("$seen"@, true),
            ),
            Err(e) => s@.account_id is None && e@ == ErrorView::NotConnected,
        },
{
    update_one_request(s, email_id, keyword_patch_doc("$seen", true))
}

/// The call that marks a message as unread.
pub fn mark_unread_request(s: &JmapSession, email_id: &str) -> (r: Result<Json, Error>)
    ensures
        match r {
            Ok(call) => s@.account_id is Some && call@ == update_one(
                s@.account_id->0,
                email_id@,
                keyword_patch("$seen"@, false),
            ),
            Err(e) => s@.account_id is None && e@ == ErrorView::NotConnected,
        },
{
    update_one_request(s, email_id, keyword_patch_doc("$seen", false))
}

/// The call that flips the flag of a message, given the message as it was
/// fetched just before: `fetched` is the answer to a fetch of this one id.
/// A message that was not found cannot be flagged.
pub fn toggle_flag_request(s: &JmapSession, email_id: &str, fetched: &Vec<Email>) -> (r: Result<
    Json,
    Error,
>)
    ensures
        match r {
            Ok(call) => fetched@.len() > 0 && s@.account_id is Some && call@ == update_one(
                s@.account_id->0,
                email_id@,
                keyword_patch("$flagged"@, !fetched@[0]@.is_flagged()),
            ),
            Err(e) => if fetched@.len() == 0 {
                e@ == ErrorView::NotFound("Email not found"@)
            } else {
                s@.account_id is None && e@ == ErrorView::NotConnected
            },
        },
{
    if fetched.len() == 0 {
        return Err(not_found("Email not found"));
    }
    let flagged = fetched[0].is_flagged();
    update_one_request(s, email_id, keyword_patch_doc("$flagged", !flagged))
}

/// Whether a response to `Email/set` lists a message among the updated
/// ones. That the call was answered is not enough.
pub open spec fn updated(resp: Doc, email_id: Seq<char>) -> bool {
    first_result(resp).field("updated"@).has_key(email_id)
}

/// Says whether the server lists a message among the updated ones.
pub fn was_updated(resp: &Json, email_id: &str) -> (r: bool)
    ensures
        r == updated(resp@, email_id@),
{
    match field(result_at(resp, 0), "updated") {
        Some(table) => table.contains_key(email_id),
        None => false,
    }
}

/// The number of messages that a response to `Email/set` lists as updated.
pub open spec fn updated_count(resp: Doc) -> int {
    match first_result(resp).field("updated"@).as_object() {
        Some(entries) => entries.len() as int,
        None => 0,
    }
}

/// Counts the messages that the server lists as updated.
pub fn count_updated(resp: &Json) -> (r: usize)
    ensures
        r == updated_count(resp@),
{
    match entries_in(field(result_at(resp, 0), "updated")) {
        Some(entries) => entries.len(),
        None => 0,
    }
}

/// What moving to the mailbox of a role asks for: the session must be
/// connected and must know a mailbox with the role.
pub open spec fn move_to_role(s: JmapSessionView, email_id: Seq<char>, role: Seq<char>) -> Result<
    Doc,
    ErrorView,
> {
    if s.account_id is None {
        Err(ErrorView::NotConnected)
    } else {
        match role_mailbox(s.mailbox_cache, role) {
            Some(m) => Ok(update_one(s.account_id->0, email_id, move_patch(m.id))),
            None => Err(ErrorView::Internal("No mailbox with role '"@ + role + "'"@)),
        }
    }
}

/// Builds the call that moves a message to the mailbox of a role.
pub fn move_to_role_request(s: &JmapSession, email_id: &str, role: &str) -> (r: Result<
    Json,
    Error,
>)
    ensures
        match r {
            Ok(call) => move_to_role(s@, email_id@, role@) == Ok::<Doc, ErrorView>(call@),
            Err(e) => move_to_role(s@, email_id@, role@) == Err::<Doc, ErrorView>(e@),
        },
{
    let account = match connected(&s.account_id) {
        Ok(a) => a,
        Err(e) => {
            return Err(e);
        },
    };
    match find_mailbox_by_role(&s.mailbox_cache, role) {
        Some(m) => Ok(
            email_update_call(account, single_update(email_id, move_patch_doc(m.id.as_str()))),
        ),
        None => Err(Error::Internal(cat3("No mailbox with role '", role, "'"))),
    }
}

/// The call that moves a message to the archive.
pub fn archive_request(s: &JmapSession, email_id: &str) -> (r: Result<Json, Error>)
    ensures
        match r {
            Ok(call) => move_to_role(s@, email_id@, "archive"@) == Ok::<Doc, ErrorView>(call@),
            Err(e) => move_to_role(s@, email_id@, "archive"@) == Err::<Doc, ErrorView>(e@),
        },
{
    move_to_role_request(s, email_id, "archive")
}

/// The call that moves a message to the trash.
pub fn trash_request(s: &JmapSession, email_id: &str) -> (r: Result<Json, Error>)
    ensures
        match r {
            Ok(call) => move_to_role(s@, email_id@, "trash"@) == Ok::<Doc, ErrorView>(call@),
            Err(e) => move_to_role(s@, email_id@, "trash"@) == Err::<Doc, ErrorView>(e@),
        },
{
    move_to_role_request(s, email_id, "trash")
}

/// The call that moves a message to a mailbox.
pub fn move_to_mailbox_request(s: &JmapSession, email_id: &str, mailbox_id: &str) -> (r: Result<
    Json,
    Error,
>)
    ensures
        match r {
            Ok(call) => s@.account_id is Some && call@ == update_one(
                s@.account_id->0,
                email_id@,
                move_patch(mailbox_id@),
            ),
            Err(e) => s@.account_id is None && e@ == ErrorView::NotConnected,
        },
{
    update_one_request(s, email_id, move_patch_doc(mailbox_id))
}

/// What archiving a list of messages asks for. An empty list needs no
/// call; otherwise the session must be connected and must know the archive.
pub open spec fn archive_batch(s: JmapSessionView, ids: Seq<Seq<char>>) -> Result<
    Option<Doc>,
    ErrorView,
> {
    if ids.len() == 0 {
        Ok(None)
    } else if s.account_id is None {
        Err(ErrorView::NotConnected)
    } else {
        match role_mailbox(s.mailbox_cache, "archive"@) {
            Some(m) => Ok(
                Some(email_update(s.account_id->0, patch_each(ids, move_patch(m.id)))),
            ),
            None => Err(ErrorView::Internal("No archive mailbox"@)),
        }
    }
}

/// Builds the call that moves a list of messages to the archive.
pub fn archive_batch_request(s: &JmapSession, email_ids: &Vec<String>) -> (r: Result<
    Option<Json>,
    Error,
>)
    ensures
        match r {
            Ok(None) => archive_batch(s@, str_views(email_ids@)) == Ok::<Option<Doc>, ErrorView>(
                None,
            ),
            Ok(Some(call)) => archive_batch(s@, str_views(email_ids@)) == Ok::<
                Option<Doc>,
                ErrorView,
            >(Some(call@)),
            Err(e) => archive_batch(s@, str_views(email_ids@)) == Err::<Option<Doc>, ErrorView>(
                e@,
            ),
        },
{
    if email_ids.len() == 0 {
        return Ok(None);
    }
    let account = match connected(&s.account_id) {
        Ok(a) => a,
        Err(e) => {
            return Err(e);
        },
    };
    match find_mailbox_by_role(&s.mailbox_cache, "archive") {
        Some(m) => Ok(Some(email_update_call(account, move_each(email_ids, m.id.as_str())))),
        None => Err(internal("No archive mailbox")),
    }
}

// ---------------------------------------------------------------------------
// Sending
// ---------------------------------------------------------------------------

/// The next step of sending a message.
#[derive(Debug)]
pub enum SendStep {
    /// The identities are needed and were not fetched yet: send this call,
    /// hand its response to `get_identities_response`, and ask again.
    FetchIdentities(Json),
    /// Send these two calls as one batch.
    Submit(Vec<Json>),
}

/// The mathematical value of a step of sending.
pub ghost enum SendStepView {
    FetchIdentities(Doc),
    Submit(Seq<Doc>),
}

impl View for SendStep {
    type V = SendStepView;

    open spec fn view(&self) -> SendStepView {
        match self {
            SendStep::FetchIdentities(call) => SendStepView::FetchIdentities(call@),
            SendStep::Submit(calls) => SendStepView::Submit(docs(calls@)),
        }
    }
}

/// How the sending identity is found.
pub ghost enum IdentityChoice {
    /// This identity sends.
    Known(Seq<char>),
    /// The identities have to be fetched first.
    Unknown,
    /// No identity can send.
    Missing(ErrorView),
}

/// The identity that sends a message from `from`: the one the caller names;
/// else, for an address other than the account's own, the identity with
/// that address, and the default identity where there is none; else the
/// default identity. The identities are fetched where the choice depends on
/// them and they are not cached.
pub open spec fn choose_identity(
    s: JmapSessionView,
    from: Seq<char>,
    named: Option<Seq<char>>,
) -> IdentityChoice {
    if named is Some {
        IdentityChoice::Known(named->0)
    } else if from != s.username {
        match s.identities {
            None => IdentityChoice::Unknown,
            Some(ids) => match identity_for(ids, from) {
                Some(id) => IdentityChoice::Known(id),
                None => match s.identity_id {
                    Some(id) => IdentityChoice::Known(id),
                    None => IdentityChoice::Missing(
                        ErrorView::Internal("No identity found for "@ + from),
                    ),
                },
            },
        }
    } else {
        match s.identity_id {
            Some(id) => IdentityChoice::Known(id),
            None => if s.identities is None {
                IdentityChoice::Unknown
            } else {
                IdentityChoice::Missing(ErrorView::Internal("No identities configured"@))
            },
        }
    }
}

/// What sending a message asks for next.
pub open spec fn send_step(
    s: JmapSessionView,
    sub: EmailSubmissionView,
    from: Seq<char>,
    named: Option<Seq<char>>,
) -> Result<SendStepView, ErrorView> {
    if s.account_id is None {
        Err(ErrorView::NotConnected)
    } else {
        match choose_identity(s, from, named) {
            IdentityChoice::Unknown => Ok(
                SendStepView::FetchIdentities(get_all("Identity/get"@, s.account_id->0)),
            ),
            IdentityChoice::Missing(e) => Err(e),
            IdentityChoice::Known(identity) => match role_mailbox(s.mailbox_cache, "drafts"@) {
                Some(m) => Ok(
                    SendStepView::Submit(send_calls(s.account_id->0, sub, from, identity, m.id)),
                ),
                None => Err(ErrorView::Internal("No drafts mailbox found"@)),
            },
        }
    }
}

/// Says what to send next in order to send a message. Once the identities
/// are cached the answer is never to fetch them again.
pub fn send_email_request(
    s: &JmapSession,
    sub: &EmailSubmission,
    from_addr: &str,
    identity_id_override: Option<&str>,
) -> (r: Result<SendStep, Error>)
    requires
        well_formed(sub@),
    ensures
        match r {
            Ok(step) => send_step(s@, sub@, from_addr@, opt_str(identity_id_override)) == Ok::<
                SendStepView,
                ErrorView,
            >(step@),
            Err(e) => send_step(s@, sub@, from_addr@, opt_str(identity_id_override)) == Err::<
                SendStepView,
                ErrorView,
            >(e@),
        },
        s@.identities is Some ==> !(r matches Ok(SendStep::FetchIdentities(_))),
{
    let account = match connected(&s.account_id) {
        Ok(a) => a,
        Err(e) => {
            return Err(e);
        },
    };
    let identity: String = match identity_id_override {
        Some(id) => owned(id),
        None => {
            if !str_eq(from_addr, s.username.as_str()) {
                match &s.identities {
                    None => {
                        return Ok(SendStep::FetchIdentities(get_all_call("Identity/get", account)));
                    },
                    Some(ids) => match get_identity_for_email(ids, from_addr) {
                        Some(id) => id,
                        None => match &s.identity_id {
                            Some(id) => owned(id.as_str()),
                            None => {
                                return Err(
                                    Error::Internal(cat("No identity found for ", from_addr)),
                                );
                            },
                        },
                    },
                }
            } else {
                match &s.identity_id {
                    Some(id) => owned(id.as_str()),
                    None => {
                        if s.identities.is_none() {
                            return Ok(
                                SendStep::FetchIdentities(get_all_call("Identity/get", account)),
                            );
                        } else {
                            return Err(internal("No identities configured"));
                        }
                    },
                }
            }
        },
    };
    match find_mailbox_by_role(&s.mailbox_cache, "drafts") {
        Some(m) => Ok(
            SendStep::Submit(
                send_calls_for(account, sub, from_addr, identity.as_str(), m.id.as_str()),
            ),
        ),
        None => Err(internal("No drafts mailbox found")),
    }
}

/// What the server says of a creation that it refused: its `notCreated`
/// table as `serde_json` writes it, or `no detail` where it gave none.
pub open spec fn rejection_detail(result: Doc) -> Seq<char> {
    if result.field("notCreated"@).is_null() {
        "no detail"@
    } else {
        written_text(result.field("notCreated"@))
    }
}

/// What a response to the two calls of a send means: both the draft and
/// the submission must have been created. The id of the message is taken
/// from the submission, else from the draft.
pub open spec fn send_outcome(resp: Doc) -> Result<Option<Seq<char>>, ErrorView> {
    let created = first_result(resp).field("created"@).field("draft"@);
    let sent = second_result(resp).field("created"@).field("send"@);
    if created.is_null() {
        Err(ErrorView::Internal("Email creation failed: "@ + rejection_detail(first_result(resp))))
    } else if sent.is_null() {
        Err(
            ErrorView::Internal(
                "Email submission failed: "@ + rejection_detail(second_result(resp)),
            ),
        )
    } else {
        Ok(
            match sent.field("emailId"@).as_str() {
                Some(id) => Some(id),
                None => created.field("id"@).as_str(),
            },
        )
    }
}

fn detail_of(result: Option<&Json>) -> (r: String)
    ensures
        r@ == rejection_detail(crate::json::doc_of(result)),
{
    match field(result, "notCreated") {
        Some(table) => if table.is_null() {
            owned("no detail")
        } else {
            write_document(table)
        },
        None => owned("no detail"),
    }
}

/// Reads the response to the two calls of a send.
pub fn send_email_response(resp: &Json) -> (r: Result<Option<String>, Error>)
    ensures
        match r {
            Ok(id) => send_outcome(resp@) == Ok::<Option<Seq<char>>, ErrorView>(opt_text(id)),
            Err(e) => send_outcome(resp@) == Err::<Option<Seq<char>>, ErrorView>(e@),
        },
{
    let first = result_at(resp, 0);
    let second = result_at(resp, 1);
    let created = field(field(first, "created"), "draft");
    if null_at(created) {
        let detail = detail_of(first);
        return Err(Error::Internal(cat("Email creation failed: ", detail.as_str())));
    }
    let sent = field(field(second, "created"), "send");
    if null_at(sent) {
        let detail = detail_of(second);
        return Err(Error::Internal(cat("Email submission failed: ", detail.as_str())));
    }
    match text_of(field(sent, "emailId")) {
        Some(id) => Ok(Some(owned(id))),
        None => Ok(opt_owned(text_of(field(created, "id")))),
    }
}

// ---------------------------------------------------------------------------
// Blobs and calendar storage
// ---------------------------------------------------------------------------

/// A download address: the template with the account, the blob, the file
/// name and the type put in, one after the other.
pub open spec fn download_address(
    template: Seq<char>,
    account: Seq<char>,
    blob: Seq<char>,
    name: Seq<char>,
    mime: Seq<char>,
) -> Seq<char> {
    replace(
        replace(
            replace(replace(template, "{accountId}"@, account), "{blobId}"@, blob),
            "{name}"@,
            name,
        ),
        "{type}"@,
        mime,
    )
}

/// The address from which a blob is downloaded.
pub fn download_url(s: &JmapSession, blob_id: &str, name: &str, mime: &str) -> (r: Result<
    String,
    Error,
>)
    ensures
        match r {
            Ok(url) => s@.account_id is Some && s@.download_url is Some && url@
                == download_address(s@.download_url->0, s@.account_id->0, blob_id@, name@, mime@),
            Err(e) => (s@.account_id is None || s@.download_url is None) && e@
                == ErrorView::NotConnected,
        },
{
    let account = match connected(&s.account_id) {
        Ok(a) => a,
        Err(e) => {
            return Err(e);
        },
    };
    let template = match connected(&s.download_url) {
        Ok(t) => t,
        Err(e) => {
            return Err(e);
        },
    };
    let a = replaced(
        chars_of(template).as_slice(),
        chars_of("{accountId}").as_slice(),
        chars_of(account).as_slice(),
    );
    let b = replaced(a.as_slice(), chars_of("{blobId}").as_slice(), chars_of(blob_id).as_slice());
    let c = replaced(b.as_slice(), chars_of("{name}").as_slice(), chars_of(name).as_slice());
    let d = replaced(c.as_slice(), chars_of("{type}").as_slice(), chars_of(mime).as_slice());
    Ok(string_of(d.as_slice()))
}

/// The address to which a blob is uploaded.
pub fn upload_url(s: &JmapSession) -> (r: Result<String, Error>)
    ensures
        match r {
            Ok(url) => s@.account_id is Some && s@.upload_url is Some && url@ == replace(
                s@.upload_url->0,
                "{accountId}"@,
                s@.account_id->0,
            ),
            Err(e) => (s@.account_id is None || s@.upload_url is None) && e@
                == ErrorView::NotConnected,
        },
{
    let account = match connected(&s.account_id) {
        Ok(a) => a,
        Err(e) => {
            return Err(e);
        },
    };
    let template = match connected(&s.upload_url) {
        Ok(t) => t,
        Err(e) => {
            return Err(e);
        },
    };
    let a = replaced(
        chars_of(template).as_slice(),
        chars_of("{accountId}").as_slice(),
        chars_of(account).as_slice(),
    );
    Ok(string_of(a.as_slice()))
}

/// The largest upload that is accepted, in bytes: 25 MiB.
pub const MAX_UPLOAD_SIZE: usize = 26214400;

/// An upload above the limit is refused, with both sizes in the message.
pub fn check_upload_size(size: usize) -> (r: Result<(), Error>)
    ensures
        match r {
            Ok(()) => size <= MAX_UPLOAD_SIZE,
            Err(e) => size > MAX_UPLOAD_SIZE && e@ == ErrorView::BadRequest(
                "File too large ("@ + digits(size as int) + " bytes, max "@ + digits(
                    MAX_UPLOAD_SIZE as int,
                ) + ")"@,
            ),
        },
{
    if size <= MAX_UPLOAD_SIZE {
        Ok(())
    } else {
        let mut out = chars_of("File too large (");
        crate::text::push_all(&mut out, format_u64(size as u64).as_slice());
        crate::text::push_str(&mut out, " bytes, max ");
        crate::text::push_all(&mut out, format_u64(MAX_UPLOAD_SIZE as u64).as_slice());
        crate::text::push_str(&mut out, ")");
        Err(Error::BadRequest(string_of(out.as_slice())))
    }
}

/// The call that looks up the body structure of a message, in order to
/// find its calendar data.
pub fn get_calendar_data_request(s: &JmapSession, email_id: &str) -> (r: Result<Json, Error>)
    ensures
        match r {
            Ok(call) => s@.account_id is Some && call@ == structure_get(
                s@.account_id->0,
                email_id@,
            ),
            Err(e) => s@.account_id is None && e@ == ErrorView::NotConnected,
        },
{
    match connected(&s.account_id) {
        Ok(account) => Ok(structure_get_call(account, email_id)),
        Err(e) => Err(e),
    }
}

/// Where the calendar data of a message is downloaded from, given the
/// response to the lookup of its body structure: nowhere if the message
/// has no calendar part.
pub open spec fn calendar_download(s: JmapSessionView, resp: Doc) -> Result<
    Option<Seq<char>>,
    ErrorView,
> {
    match first_result(resp).field("list"@).as_array() {
        None => Err(ErrorView::Internal("Invalid JMAP Email/get response"@)),
        Some(list) => if list.len() == 0 {
            Err(ErrorView::NotFound("Email not found"@))
        } else {
            match calendar_blob(list[0].field("bodyStructure"@)) {
                None => Ok(None),
                Some(blob) => if s.account_id is None || s.download_url is None {
                    Err(ErrorView::NotConnected)
                } else {
                    Ok(
                        Some(
                            download_address(
                                s.download_url->0,
                                s.account_id->0,
                                blob,
                                "invite.ics"@,
                                "text/calendar"@,
                            ),
                        ),
                    )
                },
            }
        },
    }
}

/// Says where the calendar data of a message is downloaded from.
pub fn get_calendar_data_response(s: &JmapSession, resp: &Json) -> (r: Result<
    Option<String>,
    Error,
>)
    ensures
        match r {
            Ok(url) => calendar_download(s@, resp@) == Ok::<Option<Seq<char>>, ErrorView>(
                opt_text(url),
            ),
            Err(e) => calendar_download(s@, resp@) == Err::<Option<Seq<char>>, ErrorView>(e@),
        },
{
    let list = match list_of(field(result_at(resp, 0), "list")) {
        Some(l) => l,
        None => {
            return Err(internal("Invalid JMAP Email/get response"));
        },
    };
    if list.len() == 0 {
        return Err(not_found("Email not found"));
    }
    proof {
        assert(docs(list@)[0] == list@[0]@);
    }
    let blob = match list[0].get("bodyStructure") {
        Some(structure) => find_calendar_blob_id(structure),
        None => {
            proof {
                crate::message::lemma_null_structure();
            }
            None
        },
    };
    match blob {
        None => Ok(None),
        Some(id) => match download_url(s, id.as_str(), "invite.ics", "text/calendar") {
            Ok(url) => Ok(Some(url)),
            Err(e) => Err(e),
        },
    }
}

/// One header of a request.
#[derive(Debug, Clone)]
pub struct Header {
    pub name: String,
    pub value: String,
}

/// The mathematical value of a header.
pub ghost struct HeaderView {
    pub name: Seq<char>,
    pub value: Seq<char>,
}

impl View for Header {
    type V = HeaderView;

    open spec fn view(&self) -> HeaderView {
        HeaderView { name: self.name@, value: self.value@ }
    }
}

/// The headers with which an event is written to the calendar store. A
/// write that must not replace an event that is there says so by
/// `If-None-Match: *`.
pub open spec fn calendar_write_headers(auth: Seq<char>, only_if_new: bool) -> Seq<HeaderView> {
    let fixed = seq![
        HeaderView { name: "Authorization"@, value: auth },
        HeaderView { name: "Content-Type"@, value: "text/calendar; charset=utf-8"@ },
    ];
    if only_if_new {
        fixed.push(HeaderView { name: "If-None-Match"@, value: "*"@ })
    } else {
        fixed
    }
}

/// Builds the headers with which an event is written to the calendar store.
pub fn calendar_put_headers(s: &JmapSession, only_if_new: bool) -> (r: Vec<Header>)
    ensures
        views(r@) == calendar_write_headers(s@.auth_header, only_if_new),
{
    let mut headers: Vec<Header> = Vec::new();
    headers.push(Header { name: owned("Authorization"), value: owned(s.auth_header.as_str()) });
    headers.push(
        Header { name: owned("Content-Type"), value: owned("text/calendar; charset=utf-8") },
    );
    if only_if_new {
        headers.push(Header { name: owned("If-None-Match"), value: owned("*") });
    }
    proof {
        assert(views(headers@) =~= calendar_write_headers(s@.auth_header, only_if_new));
    }
    headers
}

/// The address under which an event is kept in the calendar store.
pub open spec fn calendar_address(username: Seq<char>, uid: Seq<char>) -> Seq<char> {
    "https://caldav.fastmail.com/dav/calendars/user/"@ + username + "/Default/"@ + uid + ".ics"@
}

/// Builds the address of an event in the calendar store.
pub fn calendar_url(s: &JmapSession, uid: &str) -> (r: String)
    ensures
        r@ == calendar_address(s@.username, uid@),
{
    let mut out = chars_of("https://caldav.fastmail.com/dav/calendars/user/");
    crate::text::push_str(&mut out, s.username.as_str());
    crate::text::push_str(&mut out, "/Default/");
    crate::text::push_str(&mut out, uid);
    crate::text::push_str(&mut out, ".ics");
    string_of(out.as_slice())
}

} // verus!
