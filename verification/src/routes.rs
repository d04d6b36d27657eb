//! The decisions of the request handlers that stand in front of the mail
//! client: which names are safe, who answers an invitation, what is sent to
//! the organizer, how many messages are fetched for a view.

use crate::error::{Error, ErrorView};
use crate::splits::{matches_split, split_matches, split_position};
use crate::text::{
    ascii_lower, cat3, chars_of, eq_ignore_ascii_case, eq_ignore_case, owned, push_str, str_eq,
    string_of, to_ascii_lower,
};
use crate::types::{
    views, Attendee, AttendeeView, CalendarEvent, CalendarEventView, Email, EmailAddress,
    EmailAddressView, EmailSubmission, EmailSubmissionView, EmailView, ParsedQuery,
    ParsedQueryView, SplitInbox, SplitInboxView, SplitsConfig, SplitsConfigView,
};
use vstd::prelude::*;

verus! {

// ---------------------------------------------------------------------------
// Names in paths and headers
// ---------------------------------------------------------------------------

/// Whether a text can stand as one segment of a path: it is not empty, has
/// no slash, backslash or NUL, and is neither `.` nor `..`.
pub open spec fn safe_segment(s: Seq<char>) -> bool {
    &&& s.len() > 0
    &&& !s.contains('/')
    &&& !s.contains('\\')
    &&& !s.contains('\0')
    &&& s != seq!['.']
    &&& s != seq!['.', '.']
}

/// Whether a text can stand as one segment of a path.
pub fn is_safe_path_segment(s: &str) -> (r: bool)
    ensures
        r == safe_segment(s@),
{
    let chars = chars_of(s);
    if chars.len() == 0 {
        return false;
    }
    let mut i: usize = 0;
    while i < chars.len()
        invariant
            i <= chars@.len(),
            chars@ == s@,
            forall|j: int|
                0 <= j < i ==> chars@[j] != '/' && chars@[j] != '\\' && chars@[j] != '\0',
        decreases chars@.len() - i,
    {
        let c = chars[i];
        if c == '/' || c == '\\' || c == '\0' {
            proof {
                assert(chars@[i as int] == c);
                assert(chars@.contains(c));
            }
            return false;
        }
        i += 1;
    }
    if chars.len() == 1 && chars[0] == '.' {
        proof {
            assert(chars@ =~= seq!['.']);
        }
        return false;
    }
    if chars.len() == 2 && chars[0] == '.' && chars[1] == '.' {
        proof {
            assert(chars@ =~= seq!['.', '.']);
        }
        return false;
    }
    proof {
        if chars@ == seq!['.'] {
            assert(seq!['.'].len() == 1);
            assert(seq!['.'][0] == '.');
        }
        if chars@ == seq!['.', '.'] {
            assert(seq!['.', '.'].len() == 2);
            assert(seq!['.', '.'][0] == '.');
            assert(seq!['.', '.'][1] == '.');
        }
    }
    true
}

/// Whether a character may stand in a file name that is quoted in a header.
pub open spec fn header_safe(c: char) -> bool {
    c != '"' && c != '\\' && c != '\r' && c != '\n'
}

/// A file name without the characters that would end or break the quoted
/// string of a header.
pub open spec fn sanitized(name: Seq<char>) -> Seq<char> {
    name.filter(|c: char| header_safe(c))
}

/// Removes from a file name what would break a quoted header value.
pub fn sanitize_filename_for_header(name: &str) -> (r: String)
    ensures
        r@ == sanitized(name@),
{
    let chars = chars_of(name);
    let mut out: Vec<char> = Vec::new();
    let mut i: usize = 0;
    let ghost keep = |c: char| header_safe(c);
    proof {
        assert(chars@.take(0) =~= Seq::<char>::empty());
    }
    while i < chars.len()
        invariant
            i <= chars@.len(),
            keep == (|c: char| header_safe(c)),
            out@ == chars@.take(i as int).filter(keep),
        decreases chars@.len() - i,
    {
        let c = chars[i];
        proof {
            assert(chars@.take(i + 1).drop_last() =~= chars@.take(i as int));
            assert(chars@.take(i + 1).last() == c);
            reveal(Seq::filter);
        }
        if c != '"' && c != '\\' && c != '\r' && c != '\n' {
            out.push(c);
        }
        i += 1;
    }
    proof {
        assert(chars@.take(chars@.len() as int) =~= chars@);
    }
    string_of(out.as_slice())
}

/// The header under which an attachment is handed out for download.
pub fn content_disposition(filename: &str) -> (r: String)
    ensures
        r@ == "attachment; filename=\""@ + sanitized(filename@) + "\""@,
{
    let safe = sanitize_filename_for_header(filename);
    let mut out = chars_of("attachment; filename=\"");
    push_str(&mut out, safe.as_str());
    push_str(&mut out, "\"");
    string_of(out.as_slice())
}

// ---------------------------------------------------------------------------
// Views
// ---------------------------------------------------------------------------

/// How many messages are fetched for a view of `limit` messages: ten times
/// as many where a split is shown, so that a sparse split still fills the
/// screen; never more than the machine can count.
pub open spec fn fetch_limit(limit: int, split_view: bool) -> int {
    if split_view {
        if limit * 10 <= usize::MAX {
            limit * 10
        } else {
            usize::MAX as int
        }
    } else {
        limit
    }
}

/// Says how many messages to fetch for a view.
pub fn list_fetch_limit(limit: usize, split_view: bool) -> (r: usize)
    ensures
        r == fetch_limit(limit as int, split_view),
{
    if split_view {
        if limit <= usize::MAX / 10 {
            limit * 10
        } else {
            usize::MAX
        }
    } else {
        limit
    }
}

/// The number of messages among the first `n` that belong to a split.
pub open spec fn count_in(emails: Seq<EmailView>, n: nat, split: SplitInboxView) -> nat
    decreases n,
{
    if n == 0 || n > emails.len() {
        0
    } else if split_matches(emails[n - 1], split) {
        count_in(emails, (n - 1) as nat, split) + 1
    } else {
        count_in(emails, (n - 1) as nat, split)
    }
}

proof fn lemma_count_in_bound(emails: Seq<EmailView>, n: nat, split: SplitInboxView)
    ensures
        count_in(emails, n, split) <= n,
    decreases n,
{
    if n > 0 && n <= emails.len() {
        lemma_count_in_bound(emails, (n - 1) as nat, split);
    }
}

/// Counts the messages that belong to a split.
pub fn count_split(emails: &Vec<Email>, split: &SplitInbox) -> (r: usize)
    ensures
        r == count_in(views(emails@), emails@.len(), split@),
{
    let mut count: usize = 0;
    let mut i: usize = 0;
    while i < emails.len()
        invariant
            i <= emails@.len(),
            count == count_in(views(emails@), i as nat, split@),
            count <= i,
        decreases emails@.len() - i,
    {
        proof {
            assert(views(emails@)[i as int] == emails@[i as int]@);
        }
        if matches_split(&emails[i], split) {
            count += 1;
        }
        i += 1;
    }
    count
}

/// Counts, for each split of a configuration, the messages that belong to
/// it. The counts come in the order of the splits, each with its split's id.
pub fn split_counts(emails: &Vec<Email>, config: &SplitsConfig) -> (r: Vec<(String, usize)>)
    ensures
        r@.len() == config.splits@.len(),
        forall|i: int|
            0 <= i < r@.len() ==> (#[trigger] r@[i]).0@ == config.splits@[i].id@ && r@[i].1
                == count_in(views(emails@), emails@.len(), config.splits@[i]@),
{
    let mut out: Vec<(String, usize)> = Vec::new();
    let mut i: usize = 0;
    while i < config.splits.len()
        invariant
            i <= config.splits@.len(),
            out@.len() == i,
            forall|j: int|
                0 <= j < i ==> (#[trigger] out@[j]).0@ == config.splits@[j].id@ && out@[j].1
                    == count_in(views(emails@), emails@.len(), config.splits@[j]@),
        decreases config.splits@.len() - i,
    {
        let n = count_split(emails, &config.splits[i]);
        out.push((owned(config.splits[i].id.as_str()), n));
        i += 1;
    }
    out
}

// ---------------------------------------------------------------------------
// Answering invitations
// ---------------------------------------------------------------------------

/// An answer to an invitation.
#[derive(Debug, Clone, Copy, PartialEq, Eq, Structural)]
pub enum RsvpStatus {
    Accepted,
    Tentative,
    Declined,
}

impl RsvpStatus {
    /// The status as calendar text writes it.
    pub open spec fn ics_text(self) -> Seq<char> {
        match self {
            RsvpStatus::Accepted => "ACCEPTED"@,
            RsvpStatus::Tentative => "TENTATIVE"@,
            RsvpStatus::Declined => "DECLINED"@,
        }
    }

    /// The status as calendar text writes it.
    pub fn as_ics_str(&self) -> (r: &'static str)
        ensures
            r@ == self.ics_text(),
    {
        match self {
            RsvpStatus::Accepted => "ACCEPTED",
            RsvpStatus::Tentative => "TENTATIVE",
            RsvpStatus::Declined => "DECLINED",
        }
    }
}

/// Whether an address is that of one of the attendees, without regard to
/// the case of ASCII letters.
pub open spec fn is_attendee(attendees: Seq<AttendeeView>, address: Seq<char>) -> bool {
    exists|i: int| 0 <= i < attendees.len() && eq_ignore_case(
        (#[trigger] attendees[i]).email,
        address,
    )
}

/// The first address of a list that is an attendee's.
pub open spec fn first_attendee(addresses: Seq<EmailAddressView>, attendees: Seq<AttendeeView>)
    -> Option<Seq<char>>
    decreases addresses.len(),
{
    if addresses.len() == 0 {
        None
    } else if is_attendee(attendees, addresses[0].email) {
        Some(addresses[0].email)
    } else {
        first_attendee(addresses.drop_first(), attendees)
    }
}

/// The address as which the account answers an invitation: the first of
/// the message's recipients, `to` before `cc`, that was invited; else the
/// account's own name.
pub open spec fn answering_address(
    email: EmailView,
    event: CalendarEventView,
    username: Seq<char>,
) -> Seq<char> {
    match first_attendee(email.to, event.attendees) {
        Some(a) => a,
        None => match first_attendee(email.cc, event.attendees) {
            Some(a) => a,
            None => username,
        },
    }
}

fn check_is_attendee(attendees: &Vec<Attendee>, address: &[char]) -> (r: bool)
    ensures
        r == is_attendee(views(attendees@), address@),
{
    let mut i: usize = 0;
    while i < attendees.len()
        invariant
            i <= attendees@.len(),
            forall|j: int|
                0 <= j < i ==> !eq_ignore_case((#[trigger] views(attendees@)[j]).email, address@),
        decreases attendees@.len() - i,
    {
        let have = chars_of(attendees[i].email.as_str());
        if eq_ignore_ascii_case(have.as_slice(), address) {
            proof {
                assert(eq_ignore_case(views(attendees@)[i as int].email, address@));
            }
            return true;
        }
        i += 1;
    }
    false
}

fn find_first_attendee(addresses: &Vec<EmailAddress>, attendees: &Vec<Attendee>) -> (r: Option<
    String,
>)
    ensures
        crate::types::opt_text(r) == first_attendee(views(addresses@), views(attendees@)),
{
    let mut i: usize = 0;
    proof {
        assert(views(addresses@).skip(0) =~= views(addresses@));
    }
    while i < addresses.len()
        invariant
            i <= addresses@.len(),
            first_attendee(views(addresses@), views(attendees@)) == first_attendee(
                views(addresses@).skip(i as int),
                views(attendees@),
            ),
        decreases addresses@.len() - i,
    {
        proof {
            assert(views(addresses@).skip(i as int).drop_first() =~= views(addresses@).skip(
                i + 1,
            ));
            assert(views(addresses@).skip(i as int)[0] == addresses@[i as int]@);
        }
        let address = chars_of(addresses[i].email.as_str());
        if check_is_attendee(attendees, address.as_slice()) {
            return Some(string_of(address.as_slice()));
        }
        i += 1;
    }
    None
}

/// Chooses the address as which the account answers an invitation.
pub fn choose_attendee(email: &Email, event: &CalendarEvent, username: &str) -> (r: String)
    ensures
        r@ == answering_address(email@, event@, username@),
{
    match find_first_attendee(&email.to, &event.attendees) {
        Some(a) => a,
        None => match find_first_attendee(&email.cc, &event.attendees) {
            Some(a) => a,
            None => owned(username),
        },
    }
}

/// The message that carries an answer to the organizer of an event: the
/// reply as its calendar part, and a line of plain text that says who
/// answered what.
pub open spec fn answer_submission(
    event: CalendarEventView,
    attendee: Seq<char>,
    status: RsvpStatus,
    reply: Seq<char>,
) -> EmailSubmissionView {
    EmailSubmissionView {
        to: seq![event.organizer_email],
        cc: Seq::empty(),
        subject: "Re: "@ + event.summary,
        text_body: attendee + " has "@ + ascii_lower(status.ics_text()) + " the invitation: "@
            + event.summary,
        bcc: None,
        html_body: None,
        in_reply_to: None,
        references: None,
        attachments: Seq::empty(),
        calendar_ics: Some(reply),
    }
}

/// Builds the message that carries an answer to the organizer.
pub fn rsvp_submission(event: &CalendarEvent, attendee: &str, status: RsvpStatus, reply: &str)
    -> (r: EmailSubmission)
    ensures
        r@ == answer_submission(event@, attendee@, status, reply@),
        crate::draft::well_formed(r@),
{
    let mut to: Vec<String> = Vec::new();
    to.push(owned(event.organizer_email.as_str()));
    let mut body = chars_of(attendee);
    push_str(&mut body, " has ");
    let word = to_ascii_lower(chars_of(status.as_ics_str()).as_slice());
    crate::text::push_all(&mut body, word.as_slice());
    push_str(&mut body, " the invitation: ");
    push_str(&mut body, event.summary.as_str());
    let r = EmailSubmission {
        to,
        cc: Vec::new(),
        subject: crate::text::cat("Re: ", event.summary.as_str()),
        text_body: string_of(body.as_slice()),
        bcc: None,
        html_body: None,
        in_reply_to: None,
        references: None,
        attachments: Vec::new(),
        calendar_ics: Some(owned(reply)),
    };
    proof {
        assert(r@.to =~= seq![event@.organizer_email]);
        assert(r@.cc =~= Seq::<Seq<char>>::empty());
        assert(r@.attachments =~= Seq::empty());
    }
    r
}

/// The attendees after the first of them with the address `attendee` has
/// answered with `status`.
pub open spec fn answered_attendees(
    list: Seq<AttendeeView>,
    attendee: Seq<char>,
    status: Seq<char>,
) -> Seq<AttendeeView>
    decreases list.len(),
{
    if list.len() == 0 {
        list
    } else if eq_ignore_case(list[0].email, attendee) {
        seq![AttendeeView { status, ..list[0] }] + list.drop_first()
    } else {
        seq![list[0]] + answered_attendees(list.drop_first(), attendee, status)
    }
}

/// Records an answer in an event that was read: the first attendee with
/// the address gets the status, and nothing else changes.
pub fn record_answer(event: &mut CalendarEvent, attendee: &str, status: &str)
    ensures
        final(event)@ == (CalendarEventView {
            attendees: answered_attendees(old(event)@.attendees, attendee@, status@),
            ..old(event)@
        }),
{
    let wanted = chars_of(attendee);
    let ghost start = views(event.attendees@);
    let mut i: usize = 0;
    proof {
        assert(start.skip(0) =~= start);
        assert(start.take(0) + answered_attendees(start, attendee@, status@)
            =~= answered_attendees(start, attendee@, status@));
    }
    while i < event.attendees.len()
        invariant
            i <= event.attendees@.len(),
            wanted@ == attendee@,
            event@ == old(event)@,
            start == views(event.attendees@),
            answered_attendees(start, attendee@, status@) == start.take(i as int)
                + answered_attendees(start.skip(i as int), attendee@, status@),
        decreases event.attendees@.len() - i,
    {
        proof {
            assert(start.skip(i as int)[0] == event.attendees@[i as int]@);
            assert(start.skip(i as int).drop_first() =~= start.skip(i + 1));
        }
        let have = chars_of(event.attendees[i].email.as_str());
        if eq_ignore_ascii_case(have.as_slice(), wanted.as_slice()) {
            let changed = Attendee {
                email: owned(event.attendees[i].email.as_str()),
                name: match &event.attendees[i].name {
                    Some(n) => Some(owned(n.as_str())),
                    None => None,
                },
                status: owned(status),
            };
            event.attendees.set(i, changed);
            proof {
                assert(views(event.attendees@) =~= start.take(i as int) + (seq![
                    AttendeeView { status: status@, ..start[i as int] },
                ] + start.skip(i + 1)));
            }
            return ;
        }
        proof {
            assert(start.take(i as int) + (seq![start[i as int]] + answered_attendees(
                start.skip(i + 1),
                attendee@,
                status@,
            )) =~= start.take(i + 1) + answered_attendees(start.skip(i + 1), attendee@, status@));
        }
        i += 1;
    }
    proof {
        assert(start.skip(start.len() as int) =~= Seq::<AttendeeView>::empty());
        assert(start.take(start.len() as int) + Seq::<AttendeeView>::empty() =~= start);
    }
}

/// What is done with the calendar when an invitation is read.
#[derive(Debug, Clone, Copy, PartialEq, Eq, Structural)]
pub enum CalendarAction {
    /// The event is added, unless the calendar holds it already.
    Add,
    /// The event is removed.
    Remove,
    /// The calendar is left alone.
    Nothing,
}

/// What reading an event of the given method does to the calendar: a
/// request adds the event, a cancellation removes it.
pub open spec fn action_for(method: Seq<char>) -> CalendarAction {
    if method == "REQUEST"@ {
        CalendarAction::Add
    } else if method == "CANCEL"@ {
        CalendarAction::Remove
    } else {
        CalendarAction::Nothing
    }
}

/// Says what reading an event does to the calendar.
pub fn calendar_action(event: &CalendarEvent) -> (r: CalendarAction)
    ensures
        r == action_for(event@.method),
{
    if str_eq(event.method.as_str(), "REQUEST") {
        CalendarAction::Add
    } else if str_eq(event.method.as_str(), "CANCEL") {
        CalendarAction::Remove
    } else {
        CalendarAction::Nothing
    }
}

/// Whether an answer takes the event off the calendar: declining does, any
/// other answer keeps the event, with the answer recorded in it.
pub fn answer_removes_event(status: RsvpStatus) -> (r: bool)
    ensures
        r == (status == RsvpStatus::Declined),
{
    match status {
        RsvpStatus::Declined => true,
        _ => false,
    }
}

// ---------------------------------------------------------------------------
// Unsubscribing
// ---------------------------------------------------------------------------

/// The query for everything that the sender of a message has sent: the
/// first address of `from`. A message without a sender gives none.
pub open spec fn sender_query(email: EmailView) -> Result<ParsedQueryView, ErrorView> {
    if email.from.len() == 0 || email.from[0].email.len() == 0 {
        Err(ErrorView::BadRequest("No sender found"@))
    } else {
        Ok(ParsedQueryView { from: seq![email.from[0].email], ..ParsedQueryView::blank() })
    }
}

/// Builds the query for everything that the sender of a message has sent.
pub fn query_for_sender(email: &Email) -> (r: Result<ParsedQuery, Error>)
    ensures
        match r {
            Ok(q) => sender_query(email@) == Ok::<ParsedQueryView, ErrorView>(q@),
            Err(e) => sender_query(email@) == Err::<ParsedQueryView, ErrorView>(e@),
        },
{
    if email.from.len() == 0 || email.from[0].email.as_str().is_empty() {
        return Err(Error::BadRequest(owned("No sender found")));
    }
    let mut query = ParsedQuery::default();
    query.from.push(owned(email.from[0].email.as_str()));
    proof {
        assert(crate::types::str_views(query.from@) =~= seq![email@.from[0].email]);
    }
    Ok(query)
}

// ---------------------------------------------------------------------------
// Changing the configuration
// ---------------------------------------------------------------------------

/// Adds a split to a configuration. Its id must be new.
pub fn create_split(config: &mut SplitsConfig, split: SplitInbox) -> (r: Result<(), Error>)
    ensures
        match r {
            Ok(()) => split_position(old(config)@.splits, split@.id, 0) is None && final(config)@
                == (SplitsConfigView { splits: old(config)@.splits.push(split@) }),
            Err(e) => split_position(old(config)@.splits, split@.id, 0) is Some && final(config)@
                == old(config)@ && e@ == ErrorView::BadRequest(
                "Split with id '"@ + split@.id + "' already exists"@,
            ),
        },
{
    match find_position(config, split.id.as_str()) {
        Some(_) => Err(
            Error::BadRequest(cat3("Split with id '", split.id.as_str(), "' already exists")),
        ),
        None => {
            let ghost before = config.splits@;
            config.splits.push(split);
            proof {
                crate::types::lemma_views_push(before, split);
            }
            Ok(())
        },
    }
}

/// Puts a split in the place of the first split with the id `split_id`.
pub fn update_split(config: &mut SplitsConfig, split_id: &str, split: SplitInbox) -> (r: Result<
    (),
    Error,
>)
    ensures
        match r {
            Ok(()) => split_position(old(config)@.splits, split_id@, 0) is Some && final(config)@
                == (SplitsConfigView {
                splits: old(config)@.splits.update(
                    split_position(old(config)@.splits, split_id@, 0)->0,
                    split@,
                ),
            }),
            Err(e) => split_position(old(config)@.splits, split_id@, 0) is None && final(config)@
                == old(config)@ && e@ == ErrorView::NotFound(
                "Split '"@ + split_id@ + "' not found"@,
            ),
        },
{
    match find_position(config, split_id) {
        Some(k) => {
            let ghost before = views(config.splits@);
            config.splits.set(k, split);
            proof {
                assert(views(config.splits@) =~= before.update(k as int, split@));
            }
            Ok(())
        },
        None => Err(Error::NotFound(cat3("Split '", split_id, "' not found"))),
    }
}

/// The splits whose id is not `id`, in order.
pub open spec fn without_id(splits: Seq<SplitInboxView>, id: Seq<char>) -> Seq<SplitInboxView>
    decreases splits.len(),
{
    if splits.len() == 0 {
        splits
    } else if splits.last().id == id {
        without_id(splits.drop_last(), id)
    } else {
        without_id(splits.drop_last(), id).push(splits.last())
    }
}

/// Removes every split with the id `split_id`. There must be one.
pub fn delete_split(config: &mut SplitsConfig, split_id: &str) -> (r: Result<(), Error>)
    ensures
        match r {
            Ok(()) => split_position(old(config)@.splits, split_id@, 0) is Some && final(config)@
                == (SplitsConfigView { splits: without_id(old(config)@.splits, split_id@) }),
            Err(e) => split_position(old(config)@.splits, split_id@, 0) is None && final(config)@
                == old(config)@ && e@ == ErrorView::NotFound(
                "Split '"@ + split_id@ + "' not found"@,
            ),
        },
{
    if find_position(config, split_id).is_none() {
        return Err(Error::NotFound(cat3("Split '", split_id, "' not found")));
    }
    let ghost start = views(config.splits@);
    let mut kept_backwards: Vec<SplitInbox> = Vec::new();
    proof {
        assert(views(kept_backwards@) =~= Seq::<SplitInboxView>::empty());
        assert(start.take(start.len() as int) =~= start);
    }
    while config.splits.len() > 0
        invariant
            config.splits@.len() <= start.len(),
            views(config.splits@) == start.take(config.splits@.len() as int),
            without_id(start, split_id@) == without_id(views(config.splits@), split_id@) + views(
                kept_backwards@,
            ).reverse(),
        decreases config.splits@.len(),
    {
        let ghost now = views(config.splits@);
        let ghost kept = views(kept_backwards@);
        let n = config.splits.len();
        let last = config.splits.pop().unwrap();
        proof {
            assert(views(config.splits@) =~= now.drop_last());
            assert(now.last() == last@);
            assert(now.drop_last() =~= start.take(n - 1));
        }
        if !str_eq(last.id.as_str(), split_id) {
            let ghost before = kept_backwards@;
            kept_backwards.push(last);
            proof {
                crate::types::lemma_views_push(before, last);
                assert(kept.push(last@).reverse() =~= seq![last@] + kept.reverse());
                assert(without_id(now.drop_last(), split_id@).push(last@) + kept.reverse()
                    =~= without_id(now.drop_last(), split_id@) + (seq![last@] + kept.reverse()));
            }
        }
    }
    let ghost target = views(kept_backwards@).reverse();
    proof {
        assert(without_id(Seq::<SplitInboxView>::empty(), split_id@) + target =~= target);
        assert(views(config.splits@) =~= target.take(0));
    }
    while kept_backwards.len() > 0
        invariant
            target.len() >= kept_backwards@.len(),
            views(config.splits@) == target.take(target.len() - kept_backwards@.len()),
            views(kept_backwards@) == target.reverse().take(kept_backwards@.len() as int),
        decreases kept_backwards@.len(),
    {
        let n = kept_backwards.len();
        let ghost before = config.splits@;
        let ghost vb = views(kept_backwards@);
        let e = kept_backwards.pop().unwrap();
        config.splits.push(e);
        proof {
            crate::types::lemma_views_push(before, e);
            assert(vb[n - 1] == e@);
            assert(target.reverse()[n - 1] == e@);
            assert(target[target.len() - n] == e@);
            assert(views(config.splits@) =~= target.take(target.len() - (n - 1)));
            assert(views(kept_backwards@) =~= target.reverse().take(n - 1));
        }
    }
    proof {
        assert(target.take(target.len() as int) =~= target);
    }
    Ok(())
}

fn find_position(config: &SplitsConfig, split_id: &str) -> (r: Option<usize>)
    ensures
        match r {
            Some(k) => split_position(config@.splits, split_id@, 0) == Some(k as int) && k
                < config.splits@.len(),
            None => split_position(config@.splits, split_id@, 0) is None,
        },
{
    let mut i: usize = 0;
    while i < config.splits.len()
        invariant
            i <= config.splits@.len(),
            split_position(config@.splits, split_id@, 0) == split_position(
                config@.splits,
                split_id@,
                i as int,
            ),
        decreases config.splits@.len() - i,
    {
        if str_eq(config.splits[i].id.as_str(), split_id) {
            return Some(i);
        }
        i += 1;
    }
    None
}

} // verus!
