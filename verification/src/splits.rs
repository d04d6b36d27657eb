//! Split inboxes: rules that sort messages into named views, and the rules
//! that are proposed for an account with several domains.

use crate::glob::{glob_match, glob_matches};
use crate::text::{
    after, before, cat, chars_of, contains, find_char, find_char_in, has_substring, lowercase,
    pieces, replace, replaced, slice_eq, split_pieces, str_eq, string_of, texts, to_lowercase,
    to_vec,
};
use crate::types::{
    views, Email, EmailAddress, EmailAddressView, EmailView, FilterType, Identity, IdentityView,
    MatchMode, SplitFilter, SplitFilterView, SplitInbox, SplitInboxView, SplitsConfig,
    SplitsConfigView,
};
use vstd::prelude::*;

verus! {

// ---------------------------------------------------------------------------
// Regular expressions
// ---------------------------------------------------------------------------

/// What the `regex` crate finds: nothing if it refuses the pattern, else
/// whether the pattern matches anywhere in the text.
pub uninterp spec fn regex_search(pattern: Seq<char>, text: Seq<char>) -> Option<bool>;

/// `Regex::new`, then `Regex::is_match`: whether `pattern` matches anywhere
/// in `text`, or nothing where `Regex::new` returns an error, be it for an
/// invalid pattern or for one that is too large.
#[verifier::external_body]
pub(crate) fn search_pattern(pattern: &str, text: &str) -> (r: Option<bool>)
    ensures
        r == regex_search(pattern@, text@),
{
    match regex::Regex::new(pattern) {
        Ok(re) => Some(re.is_match(text)),
        Err(_) => None,
    }
}

// ---------------------------------------------------------------------------
// Matching
// ---------------------------------------------------------------------------

/// Whether some address of a list matches a glob pattern.
pub open spec fn some_address_matches(addresses: Seq<EmailAddressView>, pattern: Seq<char>)
    -> bool {
    exists|i: int| 0 <= i < addresses.len() && glob_matches(pattern, #[trigger] addresses[i].email)
}

/// What a subject clause decides, given what the regular expression found:
/// its verdict; or, for a pattern that is no regular expression, whether the
/// subject holds the pattern as a substring, both in lowercase.
pub open spec fn subject_decision(found: Option<bool>, pattern: Seq<char>, subject: Seq<char>)
    -> bool {
    match found {
        Some(b) => b,
        None => contains(lowercase(subject), lowercase(pattern)),
    }
}

/// Whether a subject matches a pattern, read as a regular expression that
/// disregards case.
pub open spec fn subject_matches(pattern: Seq<char>, subject: Seq<char>) -> bool {
    subject_decision(regex_search("(?i)"@ + pattern, subject), pattern, subject)
}

/// Whether a message passes one clause of a rule. A clause on the sender
/// looks at every sender; a clause on the recipient at everyone in `to` and
/// in `cc`; a calendar clause, and the older header clause, at whether the
/// message carries calendar data, whatever their pattern.
pub open spec fn filter_matches(email: EmailView, filter: SplitFilterView) -> bool {
    match filter.filter_type {
        FilterType::From => some_address_matches(email.from, filter.pattern),
        FilterType::To => some_address_matches(email.to, filter.pattern) || some_address_matches(
            email.cc,
            filter.pattern,
        ),
        FilterType::Subject => subject_matches(filter.pattern, email.subject),
        FilterType::Calendar => email.has_calendar,
        FilterType::Header => email.has_calendar,
    }
}

/// Whether a message belongs to a split: to one without clauses never; to
/// one in ANY mode if it passes some clause; to one in ALL mode if it
/// passes every clause.
pub open spec fn split_matches(email: EmailView, split: SplitInboxView) -> bool {
    if split.filters.len() == 0 {
        false
    } else {
        match split.match_mode {
            MatchMode::Any => exists|i: int|
                0 <= i < split.filters.len() && filter_matches(email, #[trigger] split.filters[i]),
            MatchMode::All => forall|i: int|
                0 <= i < split.filters.len() ==> filter_matches(
                    email,
                    #[trigger] split.filters[i],
                ),
        }
    }
}

/// Whether a message belongs to some split of a configuration.
pub open spec fn any_split_matches(email: EmailView, config: SplitsConfigView) -> bool {
    exists|i: int| 0 <= i < config.splits.len() && split_matches(email, #[trigger] config.splits[i])
}

fn any_address_matches(addresses: &Vec<EmailAddress>, pattern: &str) -> (r: bool)
    ensures
        r == some_address_matches(views(addresses@), pattern@),
{
    let mut i: usize = 0;
    while i < addresses.len()
        invariant
            i <= addresses@.len(),
            forall|j: int|
                0 <= j < i ==> !glob_matches(pattern@, (#[trigger] views(addresses@)[j]).email),
        decreases addresses@.len() - i,
    {
        if glob_match(pattern, addresses[i].email.as_str()) {
            proof {
                assert(glob_matches(pattern@, views(addresses@)[i as int].email));
            }
            return true;
        }
        i += 1;
    }
    false
}

/// Decides a subject clause from what the regular expression found.
pub fn decide_subject(found: Option<bool>, pattern: &str, subject: &str) -> (r: bool)
    ensures
        r == subject_decision(found, pattern@, subject@),
{
    match found {
        Some(b) => b,
        None => {
            let p = to_lowercase(chars_of(pattern).as_slice());
            let s = to_lowercase(chars_of(subject).as_slice());
            has_substring(s.as_slice(), p.as_slice())
        },
    }
}

/// Whether a message passes one clause of a rule.
pub fn matches_filter(email: &Email, filter: &SplitFilter) -> (r: bool)
    ensures
        r == filter_matches(email@, filter@),
{
    match filter.filter_type {
        FilterType::From => any_address_matches(&email.from, filter.pattern.as_str()),
        FilterType::To => any_address_matches(&email.to, filter.pattern.as_str())
            || any_address_matches(&email.cc, filter.pattern.as_str()),
        FilterType::Subject => {
            let pattern = cat("(?i)", filter.pattern.as_str());
            let found = search_pattern(pattern.as_str(), email.subject.as_str());
            decide_subject(found, filter.pattern.as_str(), email.subject.as_str())
        },
        FilterType::Calendar => email.has_calendar,
        FilterType::Header => email.has_calendar,
    }
}

/// Whether a message belongs to a split.
pub fn matches_split(email: &Email, split: &SplitInbox) -> (r: bool)
    ensures
        r == split_matches(email@, split@),
{
    if split.filters.len() == 0 {
        return false;
    }
    match split.match_mode {
        MatchMode::Any => {
            let mut i: usize = 0;
            while i < split.filters.len()
                invariant
                    i <= split.filters@.len(),
                    split.filters@.len() > 0,
                    split.match_mode == MatchMode::Any,
                    forall|j: int|
                        0 <= j < i ==> !filter_matches(email@, #[trigger] split@.filters[j]),
                decreases split.filters@.len() - i,
            {
                if matches_filter(email, &split.filters[i]) {
                    proof {
                        assert(split@.filters[i as int] == split.filters@[i as int]@);
                        assert(filter_matches(email@, split@.filters[i as int]));
                    }
                    return true;
                }
                i += 1;
            }
            false
        },
        MatchMode::All => {
            let mut i: usize = 0;
            while i < split.filters.len()
                invariant
                    i <= split.filters@.len(),
                    split.filters@.len() > 0,
                    split.match_mode == MatchMode::All,
                    forall|j: int|
                        0 <= j < i ==> filter_matches(email@, #[trigger] split@.filters[j]),
                decreases split.filters@.len() - i,
            {
                if !matches_filter(email, &split.filters[i]) {
                    proof {
                        assert(split@.filters[i as int] == split.filters@[i as int]@);
                        assert(!filter_matches(email@, split@.filters[i as int]));
                    }
                    return false;
                }
                i += 1;
            }
            true
        },
    }
}

/// Whether a message belongs to some split of a configuration.
pub fn matches_any_split(email: &Email, config: &SplitsConfig) -> (r: bool)
    ensures
        r == any_split_matches(email@, config@),
{
    let mut i: usize = 0;
    while i < config.splits.len()
        invariant
            i <= config.splits@.len(),
            forall|j: int| 0 <= j < i ==> !split_matches(email@, #[trigger] config@.splits[j]),
        decreases config.splits@.len() - i,
    {
        if matches_split(email, &config.splits[i]) {
            proof {
                assert(split_matches(email@, config@.splits[i as int]));
            }
            return true;
        }
        i += 1;
    }
    false
}

/// The name of the view that shows what belongs to no split.
pub open spec fn primary() -> Seq<char> {
    "primary"@
}

/// The position of the first split with the id `id`, at or after `from`.
pub open spec fn split_position(splits: Seq<SplitInboxView>, id: Seq<char>, from: int) -> Option<
    int,
>
    decreases splits.len() - from,
{
    if from < 0 || from >= splits.len() {
        None
    } else if splits[from].id == id {
        Some(from)
    } else {
        split_position(splits, id, from + 1)
    }
}

/// Whether a message is shown in the view `split_id`: in the primary view
/// if it belongs to no split; in the view of a split if it belongs to the
/// first split with that id; in a view that is not configured, never.
pub open spec fn shown_in(email: EmailView, split_id: Seq<char>, config: SplitsConfigView)
    -> bool {
    if split_id == primary() {
        !any_split_matches(email, config)
    } else {
        match split_position(config.splits, split_id, 0) {
            Some(k) => split_matches(email, config.splits[k]),
            None => false,
        }
    }
}

/// The messages among the first `n` that are shown in a view, in order.
pub open spec fn shown_among(
    emails: Seq<EmailView>,
    n: nat,
    split_id: Seq<char>,
    config: SplitsConfigView,
) -> Seq<EmailView>
    decreases n,
{
    if n == 0 || n > emails.len() {
        Seq::empty()
    } else if shown_in(emails[n - 1], split_id, config) {
        shown_among(emails, (n - 1) as nat, split_id, config).push(emails[n - 1])
    } else {
        shown_among(emails, (n - 1) as nat, split_id, config)
    }
}

/// The messages of a list that are shown in a view: exactly those, in
/// their order.
pub open spec fn shown(emails: Seq<EmailView>, split_id: Seq<char>, config: SplitsConfigView)
    -> Seq<EmailView> {
    shown_among(emails, emails.len(), split_id, config)
}

fn find_split<'a>(config: &'a SplitsConfig, split_id: &str) -> (r: Option<&'a SplitInbox>)
    ensures
        match r {
            Some(s) => split_position(config@.splits, split_id@, 0) is Some && s@
                == config@.splits[split_position(config@.splits, split_id@, 0)->0],
            None => split_position(config@.splits, split_id@, 0) is None,
        },
{
    let mut i: usize = 0;
    while i < config.splits.len()
        invariant
            i <= config.splits@.len(),
            split_position(config@.splits, split_id@, 0) == split_position(
                config@.splits,
                split_id@,
                i as int,
            ),
        decreases config.splits@.len() - i,
    {
        if str_eq(config.splits[i].id.as_str(), split_id) {
            return Some(&config.splits[i]);
        }
        i += 1;
    }
    None
}

fn is_shown(email: &Email, split_id: &str, config: &SplitsConfig) -> (r: bool)
    ensures
        r == shown_in(email@, split_id@, config@),
{
    if str_eq(split_id, "primary") {
        !matches_any_split(email, config)
    } else {
        match find_split(config, split_id) {
            Some(split) => matches_split(email, split),
            None => false,
        }
    }
}

/// Keeps the messages that are shown in the view `split_id`.
pub fn filter_by_split(emails: Vec<Email>, split_id: &str, config: &SplitsConfig) -> (r: Vec<
    Email,
>)
    ensures
        views(r@) == shown(views(emails@), split_id@, config@),
{
    let mut rest = emails;
    let mut keep: Vec<bool> = Vec::new();
    let mut i: usize = 0;
    while i < rest.len()
        invariant
            rest@ == emails@,
            i <= rest@.len(),
            keep@.len() == i,
            forall|j: int| 0 <= j < i ==> keep@[j] == shown_in(emails@[j]@, split_id@, config@),
        decreases rest@.len() - i,
    {
        keep.push(is_shown(&rest[i], split_id, config));
        i += 1;
    }
    let mut backwards: Vec<Email> = Vec::new();
    let ghost all = views(emails@);
    proof {
        assert(views(backwards@) =~= Seq::<EmailView>::empty());
    }
    while rest.len() > 0
        invariant
            rest@.len() <= emails@.len(),
            rest@ == emails@.take(rest@.len() as int),
            keep@.len() == emails@.len(),
            all == views(emails@),
            forall|j: int|
                0 <= j < emails@.len() ==> keep@[j] == shown_in(emails@[j]@, split_id@, config@),
            shown_among(all, all.len(), split_id@, config@) == shown_among(
                all,
                rest@.len() as nat,
                split_id@,
                config@,
            ) + views(backwards@).reverse(),
        decreases rest@.len(),
    {
        let n = rest.len();
        let ghost before_pop = rest@;
        let ghost kept = views(backwards@);
        let e = rest.pop().unwrap();
        proof {
            assert(e == emails@[n - 1]);
            assert(rest@ =~= emails@.take(n - 1));
            assert(all[n - 1] == e@);
        }
        if keep[n - 1] {
            backwards.push(e);
            proof {
                crate::types::lemma_views_push(
                    backwards@.drop_last(),
                    e,
                );
                assert(backwards@.drop_last().push(e) =~= backwards@);
                assert(views(backwards@) =~= kept.push(e@));
                assert(kept.push(e@).reverse() =~= seq![e@] + kept.reverse());
                assert(shown_among(all, (n - 1) as nat, split_id@, config@).push(e@)
                    + kept.reverse() =~= shown_among(all, (n - 1) as nat, split_id@, config@) + (
                seq![e@] + kept.reverse()));
            }
        }
    }
    let mut out: Vec<Email> = Vec::new();
    let ghost target = views(backwards@).reverse();
    proof {
        assert(views(out@) =~= target.take(0));
    }
    while backwards.len() > 0
        invariant
            target.len() >= backwards@.len(),
            views(out@) == target.take(target.len() - backwards@.len()),
            views(backwards@) == target.reverse().take(backwards@.len() as int),
        decreases backwards@.len(),
    {
        let n = backwards.len();
        let ghost before_out = out@;
        let ghost vb = views(backwards@);
        let e = backwards.pop().unwrap();
        out.push(e);
        proof {
            crate::types::lemma_views_push(before_out, e);
            assert(vb[n - 1] == e@);
            assert(target.reverse()[n - 1] == e@);
            assert(target[target.len() - n] == e@);
            assert(views(out@) =~= target.take(target.len() - (n - 1)));
            assert(views(backwards@) =~= target.reverse().take(n - 1));
        }
    }
    proof {
        assert(target.take(target.len() as int) =~= target);
        assert(shown_among(all, 0, split_id@, config@) + target =~= target);
    }
    out
}

// ---------------------------------------------------------------------------
// Laws
// ---------------------------------------------------------------------------

/// A split in ANY mode takes a message that passes one of its clauses.
pub proof fn law_any_takes_one_match(email: EmailView, split: SplitInboxView, i: int)
    requires
        split.match_mode == MatchMode::Any,
        0 <= i < split.filters.len(),
        filter_matches(email, split.filters[i]),
    ensures
        split_matches(email, split),
{
}

/// A split in ALL mode refuses a message that fails one of its clauses,
/// whatever the other clauses say.
pub proof fn law_all_refuses_one_miss(email: EmailView, split: SplitInboxView, i: int)
    requires
        split.match_mode == MatchMode::All,
        0 <= i < split.filters.len(),
        !filter_matches(email, split.filters[i]),
    ensures
        !split_matches(email, split),
{
}

/// The same clauses on the same message: where one clause matches and one
/// does not, the split takes the message in ANY mode and refuses it in ALL
/// mode.
pub proof fn law_any_and_all_differ(email: EmailView, split: SplitInboxView, hit: int, miss: int)
    requires
        0 <= hit < split.filters.len(),
        0 <= miss < split.filters.len(),
        filter_matches(email, split.filters[hit]),
        !filter_matches(email, split.filters[miss]),
    ensures
        split_matches(email, SplitInboxView { match_mode: MatchMode::Any, ..split }),
        !split_matches(email, SplitInboxView { match_mode: MatchMode::All, ..split }),
{
    let any = SplitInboxView { match_mode: MatchMode::Any, ..split };
    let all = SplitInboxView { match_mode: MatchMode::All, ..split };
    assert(filter_matches(email, any.filters[hit]));
    assert(!filter_matches(email, all.filters[miss]));
}

// ---------------------------------------------------------------------------
// Proposed splits
// ---------------------------------------------------------------------------

/// The order of texts: by the first character in which they differ, and a
/// text before every longer text that begins with it.
pub open spec fn text_before(a: Seq<char>, b: Seq<char>) -> bool
    decreases a.len(),
{
    if b.len() == 0 {
        false
    } else if a.len() == 0 {
        true
    } else if a[0] != b[0] {
        a[0] < b[0]
    } else {
        text_before(a.drop_first(), b.drop_first())
    }
}

/// Whether one text comes before another.
pub fn is_text_before(a: &[char], b: &[char]) -> (r: bool)
    ensures
        r == text_before(a@, b@),
{
    let mut i: usize = 0;
    proof {
        assert(a@.skip(0) =~= a@);
        assert(b@.skip(0) =~= b@);
    }
    loop
        invariant
            i <= a@.len(),
            i <= b@.len(),
            text_before(a@, b@) == text_before(a@.skip(i as int), b@.skip(i as int)),
        decreases a@.len() - i,
    {
        if i >= b.len() {
            return false;
        }
        if i >= a.len() {
            return true;
        }
        proof {
            assert(a@.skip(i as int).drop_first() =~= a@.skip(i + 1));
            assert(b@.skip(i as int).drop_first() =~= b@.skip(i + 1));
        }
        if a[i] != b[i] {
            return a[i] < b[i];
        }
        i += 1;
    }
}

/// A list with `x` put in its place: before the first element that does
/// not come before it. An element equal to `x` keeps its place and `x` is
/// left out.
pub open spec fn inserted(list: Seq<Seq<char>>, x: Seq<char>) -> Seq<Seq<char>>
    decreases list.len(),
{
    if list.len() == 0 {
        seq![x]
    } else if text_before(list[0], x) {
        seq![list[0]] + inserted(list.drop_first(), x)
    } else if list[0] == x {
        list
    } else {
        seq![x] + list
    }
}

/// The texts of a list in order, each once.
pub open spec fn ordered(list: Seq<Seq<char>>) -> Seq<Seq<char>>
    decreases list.len(),
{
    if list.len() == 0 {
        Seq::empty()
    } else {
        inserted(ordered(list.drop_last()), list.last())
    }
}

/// Whether a list is in order, each text before all that follow it.
pub open spec fn in_order(list: Seq<Seq<char>>) -> bool {
    forall|i: int, j: int| 0 <= i < j < list.len() ==> text_before(list[i], list[j])
}

/// No text comes before itself.
pub proof fn lemma_before_is_strict(a: Seq<char>)
    ensures
        !text_before(a, a),
    decreases a.len(),
{
    if a.len() > 0 {
        lemma_before_is_strict(a.drop_first());
    }
}

/// The order of texts is transitive.
pub proof fn lemma_before_is_transitive(a: Seq<char>, b: Seq<char>, c: Seq<char>)
    requires
        text_before(a, b),
        text_before(b, c),
    ensures
        text_before(a, c),
    decreases a.len(),
{
    if a.len() > 0 && b.len() > 0 && c.len() > 0 && a[0] == b[0] && b[0] == c[0] {
        lemma_before_is_transitive(a.drop_first(), b.drop_first(), c.drop_first());
    }
}

/// Of two different texts one comes before the other.
pub proof fn lemma_before_is_total(a: Seq<char>, b: Seq<char>)
    ensures
        a == b || text_before(a, b) || text_before(b, a),
    decreases a.len(),
{
    if a.len() == 0 && b.len() == 0 {
        assert(a =~= b);
    } else if a.len() > 0 && b.len() > 0 {
        if a[0] == b[0] {
            lemma_before_is_total(a.drop_first(), b.drop_first());
            if a.drop_first() == b.drop_first() {
                assert(a =~= seq![a[0]] + a.drop_first());
                assert(b =~= seq![b[0]] + b.drop_first());
            }
        }
    }
}

proof fn lemma_cons_contains(h: Seq<char>, v: Seq<Seq<char>>, y: Seq<char>)
    ensures
        (seq![h] + v).contains(y) <==> (y == h || v.contains(y)),
{
    let s = seq![h] + v;
    if s.contains(y) {
        let k = choose|k: int| 0 <= k < s.len() && s[k] == y;
        if k > 0 {
            assert(v[k - 1] == y);
        }
    }
    if y == h {
        assert(s[0] == y);
    }
    if v.contains(y) {
        let m = choose|m: int| 0 <= m < v.len() && v[m] == y;
        assert(s[m + 1] == y);
    }
}

proof fn lemma_cons_in_order(h: Seq<char>, v: Seq<Seq<char>>)
    requires
        in_order(v),
        forall|j: int| 0 <= j < v.len() ==> text_before(h, #[trigger] v[j]),
    ensures
        in_order(seq![h] + v),
{
    let s = seq![h] + v;
    assert forall|i: int, j: int| 0 <= i < j < s.len() implies text_before(s[i], s[j]) by {
        assert(s[j] == v[j - 1]);
        if i > 0 {
            assert(s[i] == v[i - 1]);
        }
    }
}

proof fn lemma_tail_in_order(list: Seq<Seq<char>>)
    requires
        in_order(list),
        list.len() > 0,
    ensures
        in_order(list.drop_first()),
        forall|j: int|
            0 <= j < list.drop_first().len() ==> text_before(
                list[0],
                #[trigger] list.drop_first()[j],
            ),
{
    let rest = list.drop_first();
    assert forall|i: int, j: int| 0 <= i < j < rest.len() implies text_before(rest[i], rest[j]) by {
        assert(text_before(list[i + 1], list[j + 1]));
    }
    assert forall|j: int| 0 <= j < rest.len() implies text_before(list[0], #[trigger] rest[j]) by {
        assert(text_before(list[0], list[j + 1]));
    }
}

/// Putting a text in its place adds that text to a list and nothing else.
pub proof fn lemma_inserted_contains(list: Seq<Seq<char>>, x: Seq<char>, y: Seq<char>)
    ensures
        inserted(list, x).contains(y) <==> (y == x || list.contains(y)),
    decreases list.len(),
{
    if list.len() == 0 {
        lemma_cons_contains(x, Seq::empty(), y);
        assert(seq![x] + Seq::<Seq<char>>::empty() =~= seq![x]);
        assert(inserted(list, x) == seq![x]);
    } else {
        let rest = list.drop_first();
        assert(list =~= seq![list[0]] + rest);
        lemma_cons_contains(list[0], rest, y);
        if text_before(list[0], x) {
            lemma_inserted_contains(rest, x, y);
            lemma_cons_contains(list[0], inserted(rest, x), y);
        } else if list[0] == x {
        } else {
            lemma_cons_contains(x, list, y);
        }
    }
}

/// Putting a text in its place keeps a list in order.
pub proof fn lemma_inserted_in_order(list: Seq<Seq<char>>, x: Seq<char>)
    requires
        in_order(list),
    ensures
        in_order(inserted(list, x)),
    decreases list.len(),
{
    if list.len() == 0 {
        assert(in_order(seq![x]));
    } else {
        let rest = list.drop_first();
        lemma_tail_in_order(list);
        if text_before(list[0], x) {
            lemma_inserted_in_order(rest, x);
            let tail = inserted(rest, x);
            assert forall|j: int| 0 <= j < tail.len() implies text_before(
                list[0],
                #[trigger] tail[j],
            ) by {
                lemma_inserted_contains(rest, x, tail[j]);
                assert(tail.contains(tail[j]));
                if tail[j] != x {
                    let m = choose|m: int| 0 <= m < rest.len() && rest[m] == tail[j];
                    assert(text_before(list[0], rest[m]));
                }
            }
            lemma_cons_in_order(list[0], tail);
        } else if list[0] == x {
        } else {
            lemma_before_is_total(list[0], x);
            assert forall|j: int| 0 <= j < list.len() implies text_before(x, #[trigger] list[j]) by {
                if j > 0 {
                    assert(list[j] == rest[j - 1]);
                    lemma_before_is_transitive(x, list[0], list[j]);
                }
            }
            lemma_cons_in_order(x, list);
        }
    }
}

/// The ordered form of a list is in order, which leaves no room for a text
/// to stand in it twice, and holds exactly the texts of the list.
pub proof fn law_ordered_is_in_order(list: Seq<Seq<char>>)
    ensures
        in_order(ordered(list)),
        forall|y: Seq<char>| ordered(list).contains(y) <==> list.contains(y),
        forall|i: int, j: int|
            0 <= i < j < ordered(list).len() ==> ordered(list)[i] != ordered(list)[j],
    decreases list.len(),
{
    let r = ordered(list);
    if list.len() > 0 {
        let front = list.drop_last();
        law_ordered_is_in_order(front);
        lemma_inserted_in_order(ordered(front), list.last());
        assert forall|y: Seq<char>| r.contains(y) <==> list.contains(y) by {
            lemma_inserted_contains(ordered(front), list.last(), y);
            if list.contains(y) {
                let m = choose|m: int| 0 <= m < list.len() && list[m] == y;
                if m < list.len() - 1 {
                    assert(front[m] == y);
                    assert(front.contains(y));
                }
            }
            if front.contains(y) {
                let m = choose|m: int| 0 <= m < front.len() && front[m] == y;
                assert(list[m] == y);
            }
            if y == list.last() {
                assert(list[list.len() - 1] == y);
            }
        }
    }
    assert forall|i: int, j: int| 0 <= i < j < r.len() implies r[i] != r[j] by {
        lemma_before_is_strict(r[i]);
    }
}

/// The domain of an address: what stands between its first `@` and the
/// second, or the end, in lowercase. An address without `@` has none.
pub open spec fn domain_of(email: Seq<char>) -> Option<Seq<char>> {
    let parts = pieces(email, '@');
    if parts.len() >= 2 {
        Some(lowercase(parts[1]))
    } else {
        None
    }
}

/// The domains of the identities that have one, in the order of the
/// identities.
pub open spec fn domains_of(identities: Seq<IdentityView>) -> Seq<Seq<char>>
    decreases identities.len(),
{
    if identities.len() == 0 {
        Seq::empty()
    } else {
        match domain_of(identities.last().email) {
            Some(d) => domains_of(identities.drop_last()).push(d),
            None => domains_of(identities.drop_last()),
        }
    }
}

/// The first label of a domain: what stands before its first dot.
pub open spec fn first_label(domain: Seq<char>) -> Seq<char> {
    match find_char(domain, '.') {
        Some(i) => before(domain, i),
        None => domain,
    }
}

/// Whether no two domains of a list share their first label.
pub open spec fn labels_differ(domains: Seq<Seq<char>>) -> bool {
    forall|i: int, j: int|
        0 <= i < j < domains.len() ==> first_label(#[trigger] domains[i]) != first_label(
            #[trigger] domains[j],
        )
}

/// The split proposed for a domain: everything that is addressed to it. It
/// is named by the domain's first label where `short` allows it, else by the
/// whole domain, whose dots give way to hyphens in the id.
pub open spec fn split_for(domain: Seq<char>, short: bool) -> SplitInboxView {
    SplitInboxView {
        id: if short {
            first_label(domain)
        } else {
            replace(domain, seq!['.'], seq!['-'])
        },
        name: if short {
            first_label(domain)
        } else {
            domain
        },
        icon: None,
        filters: seq![
            SplitFilterView { filter_type: FilterType::To, pattern: "*@"@ + domain, name: None },
        ],
        match_mode: MatchMode::Any,
    }
}

/// The splits proposed for a list of domains: none for fewer than two,
/// else one for each, with short names if those tell the domains apart.
pub open spec fn splits_for(domains: Seq<Seq<char>>) -> Seq<SplitInboxView> {
    if domains.len() <= 1 {
        Seq::empty()
    } else {
        Seq::new(domains.len(), |i: int| split_for(domains[i], labels_differ(domains)))
    }
}

/// The splits proposed for an account with the given identities: one for
/// each of their domains, in the order of the domains.
pub open spec fn proposed(identities: Seq<IdentityView>) -> SplitsConfigView {
    SplitsConfigView { splits: splits_for(ordered(domains_of(identities))) }
}

fn insert_text(list: &mut Vec<Vec<char>>, x: Vec<char>)
    ensures
        texts(final(list)@) == inserted(texts(old(list)@), x@),
{
    let mut i: usize = 0;
    let ghost start = texts(list@);
    proof {
        assert(start.skip(0) =~= start);
        assert(start.take(0) + inserted(start, x@) =~= inserted(start, x@));
    }
    while i < list.len() && is_text_before(list[i].as_slice(), x.as_slice())
        invariant
            i <= list@.len(),
            start == texts(list@),
            inserted(start, x@) == start.take(i as int) + inserted(start.skip(i as int), x@),
        decreases list@.len() - i,
    {
        proof {
            assert(start.skip(i as int)[0] == list@[i as int]@);
            assert(start.skip(i as int).drop_first() =~= start.skip(i + 1));
            assert(start.take(i as int) + (seq![start[i as int]] + inserted(
                start.skip(i + 1),
                x@,
            )) =~= start.take(i + 1) + inserted(start.skip(i + 1), x@));
        }
        i += 1;
    }
    proof {
        if i < list@.len() {
            assert(start.skip(i as int)[0] == list@[i as int]@);
        }
    }
    if i < list.len() && slice_eq(list[i].as_slice(), x.as_slice()) {
        proof {
            assert(start.take(i as int) + start.skip(i as int) =~= start);
        }
    } else {
        list.insert(i, x);
        proof {
            assert(texts(list@) =~= start.take(i as int) + (seq![x@] + start.skip(i as int)));
            if i as int == start.len() {
                assert(start.skip(i as int) =~= Seq::<Seq<char>>::empty());
                assert(seq![x@] + start.skip(i as int) =~= seq![x@]);
            }
        }
    }
}

fn read_domain(email: &str) -> (r: Option<Vec<char>>)
    ensures
        match r {
            Some(d) => domain_of(email@) == Some(d@),
            None => domain_of(email@) is None,
        },
{
    let chars = chars_of(email);
    let parts = split_pieces(chars.as_slice(), '@');
    if parts.len() >= 2 {
        proof {
            assert(texts(parts@)[1] == parts@[1]@);
        }
        Some(to_lowercase(parts[1].as_slice()))
    } else {
        None
    }
}

fn read_first_label(domain: &[char]) -> (r: Vec<char>)
    ensures
        r@ == first_label(domain@),
{
    match find_char_in(domain, '.') {
        Some(i) => to_vec(crate::text::up_to(domain, i)),
        None => to_vec(domain),
    }
}

fn check_labels_differ(domains: &Vec<Vec<char>>) -> (r: bool)
    ensures
        r == labels_differ(texts(domains@)),
{
    let mut j: usize = 0;
    while j < domains.len()
        invariant
            j <= domains@.len(),
            forall|a: int, b: int|
                0 <= a < b < j ==> first_label(#[trigger] texts(domains@)[a]) != first_label(
                    #[trigger] texts(domains@)[b],
                ),
        decreases domains@.len() - j,
    {
        let label = read_first_label(domains[j].as_slice());
        let mut i: usize = 0;
        while i < j
            invariant
                i <= j < domains@.len(),
                label@ == first_label(texts(domains@)[j as int]),
                forall|a: int|
                    0 <= a < i ==> first_label(#[trigger] texts(domains@)[a]) != label@,
            decreases j - i,
        {
            let other = read_first_label(domains[i].as_slice());
            if slice_eq(other.as_slice(), label.as_slice()) {
                proof {
                    assert(first_label(texts(domains@)[i as int]) == first_label(
                        texts(domains@)[j as int],
                    ));
                }
                return false;
            }
            i += 1;
        }
        j += 1;
    }
    true
}

fn make_split(domain: &[char], short: bool) -> (r: SplitInbox)
    ensures
        r@ == split_for(domain@, short),
{
    let label = read_first_label(domain);
    let dot: [char; 1] = ['.'];
    let hyphen: [char; 1] = ['-'];
    proof {
        assert(dot@ =~= seq!['.']);
        assert(hyphen@ =~= seq!['-']);
    }
    let id = if short {
        string_of(label.as_slice())
    } else {
        string_of(replaced(domain, dot.as_slice(), hyphen.as_slice()).as_slice())
    };
    let name = if short {
        string_of(label.as_slice())
    } else {
        string_of(domain)
    };
    let mut pattern = chars_of("*@");
    crate::text::push_all(&mut pattern, domain);
    let mut filters: Vec<SplitFilter> = Vec::new();
    let filter = SplitFilter {
        filter_type: FilterType::To,
        pattern: string_of(pattern.as_slice()),
        name: None,
    };
    filters.push(filter);
    proof {
        assert(views(filters@) =~= seq![filter@]);
    }
    SplitInbox { id, name, icon: None, filters, match_mode: MatchMode::Any }
}

/// Proposes splits for an account: one for each domain of its identities,
/// and none unless there are at least two domains.
pub fn generate_splits_from_identities(identities: &Vec<Identity>) -> (r: SplitsConfig)
    ensures
        r@ == proposed(views(identities@)),
{
    let mut domains: Vec<Vec<char>> = Vec::new();
    let ghost mut seen: Seq<Seq<char>> = Seq::empty();
    let mut i: usize = 0;
    proof {
        assert(views(identities@).take(0) =~= Seq::<IdentityView>::empty());
        assert(texts(domains@) =~= Seq::<Seq<char>>::empty());
    }
    while i < identities.len()
        invariant
            i <= identities@.len(),
            seen == domains_of(views(identities@).take(i as int)),
            texts(domains@) == ordered(seen),
        decreases identities@.len() - i,
    {
        let ghost next = views(identities@).take(i + 1);
        proof {
            assert(next.drop_last() =~= views(identities@).take(i as int));
            assert(next.last() == identities@[i as int]@);
        }
        match read_domain(identities[i].email.as_str()) {
            Some(d) => {
                proof {
                    assert(seen.push(d@).drop_last() =~= seen);
                    seen = seen.push(d@);
                }
                insert_text(&mut domains, d);
            },
            None => {},
        }
        i += 1;
    }
    proof {
        assert(views(identities@).take(identities@.len() as int) =~= views(identities@));
    }
    let mut splits: Vec<SplitInbox> = Vec::new();
    if domains.len() <= 1 {
        proof {
            assert(views(splits@) =~= Seq::<SplitInboxView>::empty());
        }
        return SplitsConfig { splits };
    }
    let short = check_labels_differ(&domains);
    let mut k: usize = 0;
    while k < domains.len()
        invariant
            k <= domains@.len(),
            short == labels_differ(texts(domains@)),
            splits@.len() == k,
            forall|j: int| 0 <= j < k ==> splits@[j]@ == split_for(texts(domains@)[j], short),
        decreases domains@.len() - k,
    {
        proof {
            assert(texts(domains@)[k as int] == domains@[k as int]@);
        }
        splits.push(make_split(domains[k].as_slice(), short));
        k += 1;
    }
    proof {
        assert(views(splits@) =~= splits_for(texts(domains@)));
    }
    SplitsConfig { splits }
}

/// The view of an optional configuration.
pub open spec fn opt_config(c: Option<SplitsConfig>) -> Option<SplitsConfigView> {
    match c {
        Some(v) => Some(v@),
        None => None,
    }
}

/// The splits with which a new configuration is seeded: those proposed for
/// the identities, unless splits are configured already or none is
/// proposed.
pub open spec fn seed(identities: Seq<IdentityView>, existing: SplitsConfigView) -> Option<
    SplitsConfigView,
> {
    if existing.splits.len() > 0 || proposed(identities).splits.len() == 0 {
        None
    } else {
        Some(proposed(identities))
    }
}

/// Proposes the first splits of an account, given the configuration that is
/// stored for it. Storing the proposal is left to the caller.
pub fn seed_from_identities(identities: &Vec<Identity>, existing: &SplitsConfig) -> (r: Option<
    SplitsConfig,
>)
    ensures
        opt_config(r) == seed(views(identities@), existing@),
{
    if existing.splits.len() > 0 {
        return None;
    }
    let config = generate_splits_from_identities(identities);
    if config.splits.len() == 0 {
        return None;
    }
    Some(config)
}

} // verus!
