//! The data that the mail client works on, each with its mathematical view.

use vstd::prelude::*;

verus! {

/// The views of a sequence of values.
pub open spec fn views<T: View>(items: Seq<T>) -> Seq<T::V> {
    Seq::new(items.len(), |i: int| items[i]@)
}

/// The text of an optional string.
pub open spec fn opt_text(s: Option<String>) -> Option<Seq<char>> {
    match s {
        Some(t) => Some(t@),
        None => None,
    }
}

/// A copy of an optional string.
pub fn opt_owned(s: Option<&str>) -> (r: Option<String>)
    ensures
        opt_text(r) == match s {
            Some(t) => Some(t@),
            None => None,
        },
{
    match s {
        Some(t) => Some(crate::text::owned(t)),
        None => None,
    }
}

/// The texts of a sequence of strings.
pub open spec fn str_views(items: Seq<String>) -> Seq<Seq<char>> {
    Seq::new(items.len(), |i: int| items[i]@)
}

/// The texts of an optional list of strings.
pub open spec fn opt_str_views(items: Option<Vec<String>>) -> Option<Seq<Seq<char>>> {
    match items {
        Some(v) => Some(str_views(v@)),
        None => None,
    }
}

/// The views of a list with one more element.
pub proof fn lemma_views_push<T: View>(items: Seq<T>, last: T)
    ensures
        views(items.push(last)) == views(items).push(last@),
{
    assert(views(items.push(last)) =~= views(items).push(last@));
}

/// The texts of a list with one more string.
pub proof fn lemma_str_views_push(items: Seq<String>, last: String)
    ensures
        str_views(items.push(last)) == str_views(items).push(last@),
{
    assert(str_views(items.push(last)) =~= str_views(items).push(last@));
}

// ---------------------------------------------------------------------------
// Dates and times
// ---------------------------------------------------------------------------

/// A calendar date.
#[derive(Debug, Clone, Copy, PartialEq, Eq, Structural)]
pub struct Date {
    pub year: i32,
    pub month: u32,
    pub day: u32,
}

/// A point in time, in UTC.
#[derive(Debug, Clone, Copy, PartialEq, Eq, Structural)]
pub struct DateTime {
    pub year: i32,
    pub month: u32,
    pub day: u32,
    pub hour: u32,
    pub minute: u32,
    pub second: u32,
    pub nanosecond: u32,
}

impl Date {
    /// The first instant of the day.
    pub open spec fn midnight(self) -> DateTime {
        DateTime {
            year: self.year,
            month: self.month,
            day: self.day,
            hour: 0,
            minute: 0,
            second: 0,
            nanosecond: 0,
        }
    }

    /// The first instant of the day.
    pub fn at_midnight(&self) -> (r: DateTime)
        ensures
            r == self.midnight(),
    {
        DateTime {
            year: self.year,
            month: self.month,
            day: self.day,
            hour: 0,
            minute: 0,
            second: 0,
            nanosecond: 0,
        }
    }
}

// ---------------------------------------------------------------------------
// Mail
// ---------------------------------------------------------------------------

/// An address with an optional display name.
#[derive(Debug, Clone)]
pub struct EmailAddress {
    pub name: Option<String>,
    pub email: String,
}

/// The mathematical value of an address.
pub ghost struct EmailAddressView {
    pub name: Option<Seq<char>>,
    pub email: Seq<char>,
}

impl View for EmailAddress {
    type V = EmailAddressView;

    open spec fn view(&self) -> EmailAddressView {
        EmailAddressView { name: opt_text(self.name), email: self.email@ }
    }
}

/// A file attached to a message, by the blob that holds it.
#[derive(Debug, Clone)]
pub struct Attachment {
    pub blob_id: String,
    pub name: String,
    pub mime_type: String,
    pub size: i64,
}

/// The mathematical value of an attachment.
pub ghost struct AttachmentView {
    pub blob_id: Seq<char>,
    pub name: Seq<char>,
    pub mime_type: Seq<char>,
    pub size: int,
}

impl View for Attachment {
    type V = AttachmentView;

    open spec fn view(&self) -> AttachmentView {
        AttachmentView {
            blob_id: self.blob_id@,
            name: self.name@,
            mime_type: self.mime_type@,
            size: self.size as int,
        }
    }
}

/// A keyword or a mailbox id together with the flag stored under it.
#[derive(Debug, Clone)]
pub struct Flag {
    pub key: String,
    pub on: bool,
}

/// The mathematical value of a flag.
pub ghost struct FlagView {
    pub key: Seq<char>,
    pub on: bool,
}

impl View for Flag {
    type V = FlagView;

    open spec fn view(&self) -> FlagView {
        FlagView { key: self.key@, on: self.on }
    }
}

/// Whether a list of flags has an entry under `key`.
pub open spec fn has_flag(flags: Seq<FlagView>, key: Seq<char>) -> bool {
    exists|i: int| 0 <= i < flags.len() && #[trigger] flags[i].key == key
}

/// Whether no key stands twice in a list of flags, as in the table that
/// the list stands for.
pub open spec fn keys_differ(flags: Seq<FlagView>) -> bool {
    forall|i: int, j: int| 0 <= i < j < flags.len() ==> flags[i].key != flags[j].key
}

/// A message as the mail store describes it.
#[derive(Debug, Clone)]
pub struct Email {
    pub id: String,
    pub blob_id: String,
    pub thread_id: String,
    /// The mailboxes that hold the message, each id once.
    pub mailbox_ids: Vec<Flag>,
    /// The keywords of the message, each once.
    pub keywords: Vec<Flag>,
    pub received_at: DateTime,
    pub subject: String,
    pub from: Vec<EmailAddress>,
    pub to: Vec<EmailAddress>,
    pub cc: Vec<EmailAddress>,
    pub preview: String,
    pub has_attachment: bool,
    pub size: i64,
    pub text_body: Option<String>,
    pub html_body: Option<String>,
    pub has_calendar: bool,
    pub attachments: Vec<Attachment>,
}

/// The mathematical value of a message.
pub ghost struct EmailView {
    pub id: Seq<char>,
    pub blob_id: Seq<char>,
    pub thread_id: Seq<char>,
    pub mailbox_ids: Seq<FlagView>,
    pub keywords: Seq<FlagView>,
    pub received_at: DateTime,
    pub subject: Seq<char>,
    pub from: Seq<EmailAddressView>,
    pub to: Seq<EmailAddressView>,
    pub cc: Seq<EmailAddressView>,
    pub preview: Seq<char>,
    pub has_attachment: bool,
    pub size: int,
    pub text_body: Option<Seq<char>>,
    pub html_body: Option<Seq<char>>,
    pub has_calendar: bool,
    pub attachments: Seq<AttachmentView>,
}

impl View for Email {
    type V = EmailView;

    open spec fn view(&self) -> EmailView {
        EmailView {
            id: self.id@,
            blob_id: self.blob_id@,
            thread_id: self.thread_id@,
            mailbox_ids: views(self.mailbox_ids@),
            keywords: views(self.keywords@),
            received_at: self.received_at,
            subject: self.subject@,
            from: views(self.from@),
            to: views(self.to@),
            cc: views(self.cc@),
            preview: self.preview@,
            has_attachment: self.has_attachment,
            size: self.size as int,
            text_body: opt_text(self.text_body),
            html_body: opt_text(self.html_body),
            has_calendar: self.has_calendar,
            attachments: views(self.attachments@),
        }
    }
}

impl EmailView {
    /// A message is unread as long as it has no `$seen` keyword.
    pub open spec fn is_unread(self) -> bool {
        !has_flag(self.keywords, "$seen"@)
    }

    /// A message is flagged if it has a `$flagged` keyword.
    pub open spec fn is_flagged(self) -> bool {
        has_flag(self.keywords, "$flagged"@)
    }
}

/// Whether a list of flags has an entry under `key`.
pub fn flag_present(flags: &Vec<Flag>, key: &str) -> (r: bool)
    ensures
        r == has_flag(views(flags@), key@),
{
    let mut i: usize = 0;
    while i < flags.len()
        invariant
            i <= flags@.len(),
            forall|j: int| 0 <= j < i ==> (#[trigger] views(flags@)[j]).key != key@,
        decreases flags@.len() - i,
    {
        if crate::text::str_eq(flags[i].key.as_str(), key) {
            proof {
                assert(views(flags@)[i as int].key == key@);
            }
            return true;
        }
        i += 1;
    }
    false
}

impl Email {
    /// Whether the message has not been seen.
    pub fn is_unread(&self) -> (r: bool)
        ensures
            r == self@.is_unread(),
    {
        !flag_present(&self.keywords, "$seen")
    }

    /// Whether the message is flagged.
    pub fn is_flagged(&self) -> (r: bool)
        ensures
            r == self@.is_flagged(),
    {
        flag_present(&self.keywords, "$flagged")
    }
}

/// A message to send. It carries HTML or a calendar reply, not both.
#[derive(Debug, Clone)]
pub struct EmailSubmission {
    pub to: Vec<String>,
    pub cc: Vec<String>,
    pub subject: String,
    pub text_body: String,
    pub bcc: Option<Vec<String>>,
    pub html_body: Option<String>,
    pub in_reply_to: Option<String>,
    pub references: Option<Vec<String>>,
    pub attachments: Vec<Attachment>,
    pub calendar_ics: Option<String>,
}

/// The mathematical value of a submission.
pub ghost struct EmailSubmissionView {
    pub to: Seq<Seq<char>>,
    pub cc: Seq<Seq<char>>,
    pub subject: Seq<char>,
    pub text_body: Seq<char>,
    pub bcc: Option<Seq<Seq<char>>>,
    pub html_body: Option<Seq<char>>,
    pub in_reply_to: Option<Seq<char>>,
    pub references: Option<Seq<Seq<char>>>,
    pub attachments: Seq<AttachmentView>,
    pub calendar_ics: Option<Seq<char>>,
}

impl View for EmailSubmission {
    type V = EmailSubmissionView;

    open spec fn view(&self) -> EmailSubmissionView {
        EmailSubmissionView {
            to: str_views(self.to@),
            cc: str_views(self.cc@),
            subject: self.subject@,
            text_body: self.text_body@,
            bcc: opt_str_views(self.bcc),
            html_body: opt_text(self.html_body),
            in_reply_to: opt_text(self.in_reply_to),
            references: opt_str_views(self.references),
            attachments: views(self.attachments@),
            calendar_ics: opt_text(self.calendar_ics),
        }
    }
}

/// A mailbox with its counts and, where it has one, its role.
#[derive(Debug, Clone)]
pub struct Mailbox {
    pub id: String,
    pub name: String,
    pub role: Option<String>,
    pub total_emails: i64,
    pub unread_emails: i64,
    pub parent_id: Option<String>,
}

/// The mathematical value of a mailbox.
pub ghost struct MailboxView {
    pub id: Seq<char>,
    pub name: Seq<char>,
    pub role: Option<Seq<char>>,
    pub total_emails: int,
    pub unread_emails: int,
    pub parent_id: Option<Seq<char>>,
}

impl View for Mailbox {
    type V = MailboxView;

    open spec fn view(&self) -> MailboxView {
        MailboxView {
            id: self.id@,
            name: self.name@,
            role: opt_text(self.role),
            total_emails: self.total_emails as int,
            unread_emails: self.unread_emails as int,
            parent_id: opt_text(self.parent_id),
        }
    }
}

/// An identity under which the account sends.
#[derive(Debug, Clone)]
pub struct Identity {
    pub id: String,
    pub email: String,
    pub name: String,
}

/// The mathematical value of an identity.
pub ghost struct IdentityView {
    pub id: Seq<char>,
    pub email: Seq<char>,
    pub name: Seq<char>,
}

impl View for Identity {
    type V = IdentityView;

    open spec fn view(&self) -> IdentityView {
        IdentityView { id: self.id@, email: self.email@, name: self.name@ }
    }
}

// ---------------------------------------------------------------------------
// Calendar
// ---------------------------------------------------------------------------

/// Someone invited to an event, with the answer given so far.
#[derive(Debug, Clone)]
pub struct Attendee {
    pub email: String,
    pub name: Option<String>,
    pub status: String,
}

/// The mathematical value of an attendee.
pub ghost struct AttendeeView {
    pub email: Seq<char>,
    pub name: Option<Seq<char>>,
    pub status: Seq<char>,
}

impl View for Attendee {
    type V = AttendeeView;

    open spec fn view(&self) -> AttendeeView {
        AttendeeView { email: self.email@, name: opt_text(self.name), status: self.status@ }
    }
}

/// An event as read from calendar text, with that text.
#[derive(Debug, Clone)]
pub struct CalendarEvent {
    pub uid: String,
    pub summary: String,
    pub dtstart: DateTime,
    pub dtend: Option<DateTime>,
    pub location: Option<String>,
    pub description: Option<String>,
    pub organizer_email: String,
    pub organizer_name: Option<String>,
    pub attendees: Vec<Attendee>,
    pub sequence: i32,
    pub method: String,
    pub raw_ics: String,
}

/// The mathematical value of an event.
pub ghost struct CalendarEventView {
    pub uid: Seq<char>,
    pub summary: Seq<char>,
    pub dtstart: DateTime,
    pub dtend: Option<DateTime>,
    pub location: Option<Seq<char>>,
    pub description: Option<Seq<char>>,
    pub organizer_email: Seq<char>,
    pub organizer_name: Option<Seq<char>>,
    pub attendees: Seq<AttendeeView>,
    pub sequence: int,
    pub method: Seq<char>,
    pub raw_ics: Seq<char>,
}

impl View for CalendarEvent {
    type V = CalendarEventView;

    open spec fn view(&self) -> CalendarEventView {
        CalendarEventView {
            uid: self.uid@,
            summary: self.summary@,
            dtstart: self.dtstart,
            dtend: self.dtend,
            location: opt_text(self.location),
            description: opt_text(self.description),
            organizer_email: self.organizer_email@,
            organizer_name: opt_text(self.organizer_name),
            attendees: views(self.attendees@),
            sequence: self.sequence as int,
            method: self.method@,
            raw_ics: self.raw_ics@,
        }
    }
}

// ---------------------------------------------------------------------------
// Search
// ---------------------------------------------------------------------------

/// What a search asks for.
#[derive(Debug, Clone)]
pub struct ParsedQuery {
    pub from: Vec<String>,
    pub to: Vec<String>,
    pub subject: Vec<String>,
    pub has_attachment: bool,
    pub is_unread: Option<bool>,
    pub is_flagged: Option<bool>,
    pub before: Option<Date>,
    pub after: Option<Date>,
    pub text: String,
}

/// The mathematical value of a query.
pub ghost struct ParsedQueryView {
    pub from: Seq<Seq<char>>,
    pub to: Seq<Seq<char>>,
    pub subject: Seq<Seq<char>>,
    pub has_attachment: bool,
    pub is_unread: Option<bool>,
    pub is_flagged: Option<bool>,
    pub before: Option<Date>,
    pub after: Option<Date>,
    pub text: Seq<char>,
}

impl View for ParsedQuery {
    type V = ParsedQueryView;

    open spec fn view(&self) -> ParsedQueryView {
        ParsedQueryView {
            from: str_views(self.from@),
            to: str_views(self.to@),
            subject: str_views(self.subject@),
            has_attachment: self.has_attachment,
            is_unread: self.is_unread,
            is_flagged: self.is_flagged,
            before: self.before,
            after: self.after,
            text: self.text@,
        }
    }
}

impl ParsedQueryView {
    /// The query that asks for nothing.
    pub open spec fn blank() -> ParsedQueryView {
        ParsedQueryView {
            from: Seq::empty(),
            to: Seq::empty(),
            subject: Seq::empty(),
            has_attachment: false,
            is_unread: None,
            is_flagged: None,
            before: None,
            after: None,
            text: Seq::empty(),
        }
    }

    /// Whether the query asks for nothing.
    pub open spec fn is_empty(self) -> bool {
        &&& self.from.len() == 0
        &&& self.to.len() == 0
        &&& self.subject.len() == 0
        &&& !self.has_attachment
        &&& self.is_unread is None
        &&& self.is_flagged is None
        &&& self.before is None
        &&& self.after is None
        &&& self.text.len() == 0
    }
}

impl Default for ParsedQuery {
    fn default() -> (r: ParsedQuery)
        ensures
            r@ == ParsedQueryView::blank(),
    {
        let r = ParsedQuery {
            from: Vec::new(),
            to: Vec::new(),
            subject: Vec::new(),
            has_attachment: false,
            is_unread: None,
            is_flagged: None,
            before: None,
            after: None,
            text: String::new(),
        };
        proof {
            assert(str_views(r.from@) =~= Seq::empty());
            assert(str_views(r.to@) =~= Seq::empty());
            assert(str_views(r.subject@) =~= Seq::empty());
        }
        r
    }
}

impl ParsedQuery {
    /// Whether the query asks for nothing.
    pub fn is_empty(&self) -> (r: bool)
        ensures
            r == self@.is_empty(),
    {
        self.from.len() == 0 && self.to.len() == 0 && self.subject.len() == 0
            && !self.has_attachment && self.is_unread.is_none() && self.is_flagged.is_none()
            && self.before.is_none() && self.after.is_none() && self.text.as_str().is_empty()
    }
}

// ---------------------------------------------------------------------------
// Split inboxes
// ---------------------------------------------------------------------------

/// What a clause of a rule looks at.
#[derive(Debug, Clone, Copy, PartialEq, Eq, Structural)]
pub enum FilterType {
    From,
    To,
    Subject,
    Header,
    Calendar,
}

/// Whether a rule asks for one of its clauses or for all.
#[derive(Debug, Clone, Copy, PartialEq, Eq, Structural)]
pub enum MatchMode {
    Any,
    All,
}

impl Default for MatchMode {
    fn default() -> (r: MatchMode)
        ensures
            r == MatchMode::Any,
    {
        MatchMode::Any
    }
}

/// One clause of a rule.
#[derive(Debug, Clone)]
pub struct SplitFilter {
    pub filter_type: FilterType,
    pub pattern: String,
    pub name: Option<String>,
}

/// The mathematical value of a clause.
pub ghost struct SplitFilterView {
    pub filter_type: FilterType,
    pub pattern: Seq<char>,
    pub name: Option<Seq<char>>,
}

impl View for SplitFilter {
    type V = SplitFilterView;

    open spec fn view(&self) -> SplitFilterView {
        SplitFilterView {
            filter_type: self.filter_type,
            pattern: self.pattern@,
            name: opt_text(self.name),
        }
    }
}

/// A named rule that sorts messages into a view of their own.
#[derive(Debug, Clone)]
pub struct SplitInbox {
    pub id: String,
    pub name: String,
    pub icon: Option<String>,
    pub filters: Vec<SplitFilter>,
    pub match_mode: MatchMode,
}

/// The mathematical value of a split.
pub ghost struct SplitInboxView {
    pub id: Seq<char>,
    pub name: Seq<char>,
    pub icon: Option<Seq<char>>,
    pub filters: Seq<SplitFilterView>,
    pub match_mode: MatchMode,
}

impl View for SplitInbox {
    type V = SplitInboxView;

    open spec fn view(&self) -> SplitInboxView {
        SplitInboxView {
            id: self.id@,
            name: self.name@,
            icon: opt_text(self.icon),
            filters: views(self.filters@),
            match_mode: self.match_mode,
        }
    }
}

/// The rules of an account, in order.
#[derive(Debug, Clone)]
pub struct SplitsConfig {
    pub splits: Vec<SplitInbox>,
}

/// The mathematical value of a configuration.
pub ghost struct SplitsConfigView {
    pub splits: Seq<SplitInboxView>,
}

impl View for SplitsConfig {
    type V = SplitsConfigView;

    open spec fn view(&self) -> SplitsConfigView {
        SplitsConfigView { splits: views(self.splits@) }
    }
}

impl Default for SplitsConfig {
    fn default() -> (r: SplitsConfig)
        ensures
            r@.splits.len() == 0,
    {
        SplitsConfig { splits: Vec::new() }
    }
}

} // verus!
