//! The search language: `keyword:value` clauses among free words, read into
//! a query and turned into a filter of the mail protocol.

use crate::clock::{
    chrono_date, chrono_date_text, chrono_days_before, days_before, format_date, parse_date, today,
};
use crate::json::{
    array, docs, entry, no_entries, no_items, object, one, push_item, put, single, text, Doc,
    Entry, Json,
};
use crate::number::{parse_bounded, parse_i64};
use crate::text::{
    cat, chars_of, find_char, find_char_in, join, joined, lemma_find_any_from, slice_eq,
    string_of, texts, to_vec, trim, trimmed,
};
use crate::types::{str_views, Date, ParsedQuery, ParsedQueryView};
use vstd::prelude::*;
use vstd::slice::slice_subrange;

verus! {

// ---------------------------------------------------------------------------
// Tokens
// ---------------------------------------------------------------------------

/// One piece of a query: a clause with a known keyword, or a free word.
pub ghost enum Token {
    Clause { keyword: Seq<char>, value: Seq<char> },
    Word(Seq<char>),
}

/// The keywords of the language.
pub open spec fn is_operator(keyword: Seq<char>) -> bool {
    ||| keyword == "from"@
    ||| keyword == "to"@
    ||| keyword == "subject"@
    ||| keyword == "has"@
    ||| keyword == "is"@
    ||| keyword == "before"@
    ||| keyword == "after"@
    ||| keyword == "newer_than"@
    ||| keyword == "older_than"@
}

/// The first position at or after `pos` that holds no space.
pub open spec fn skip_spaces(raw: Seq<char>, pos: int) -> int
    decreases raw.len() - pos,
{
    if 0 <= pos < raw.len() && raw[pos] == ' ' {
        skip_spaces(raw, pos + 1)
    } else {
        pos
    }
}

/// The end of the run without `stop` that begins at `start`: the position
/// of the next `stop`, or the end of the text.
pub open spec fn run_end(raw: Seq<char>, start: int, stop: char) -> int {
    match find_char(raw.subrange(start, raw.len() as int), stop) {
        Some(i) => start + i,
        None => raw.len() as int,
    }
}

/// The value that begins at `start`, and the position after it. A value in
/// double quotes runs to the next quote, or to the end where there is none,
/// and the closing quote is passed over; a bare value runs to the next space.
pub open spec fn value_at(raw: Seq<char>, start: int) -> (Seq<char>, int) {
    if start < 0 || start >= raw.len() {
        (Seq::empty(), start)
    } else if raw[start] == '"' {
        let end = run_end(raw, start + 1, '"');
        (
            raw.subrange(start + 1, end),
            if end < raw.len() {
                end + 1
            } else {
                end
            },
        )
    } else {
        let end = run_end(raw, start, ' ');
        (raw.subrange(start, end), end)
    }
}

/// The tokens of `raw` from position `pos` on.
pub open spec fn tokens_from(raw: Seq<char>, pos: int) -> Seq<Token>
    decreases raw.len() - pos,
{
    let p = skip_spaces(raw, pos);
    if pos < 0 || p < pos || p >= raw.len() {
        Seq::empty()
    } else {
        let colon = run_end(raw, p, ':');
        let keyword = raw.subrange(p, colon);
        if colon < raw.len() && !keyword.contains(' ') && is_operator(keyword) {
            let (value, end) = value_at(raw, colon + 1);
            if p < end <= raw.len() {
                seq![Token::Clause { keyword, value }] + tokens_from(raw, end)
            } else {
                Seq::empty()
            }
        } else {
            let end = run_end(raw, p, ' ');
            if p < end <= raw.len() {
                seq![Token::Word(raw.subrange(p, end))] + tokens_from(raw, end)
            } else {
                Seq::empty()
            }
        }
    }
}

// ---------------------------------------------------------------------------
// Meaning
// ---------------------------------------------------------------------------

/// The day that a value of `newer_than` or `older_than` names: a positive
/// count of days, weeks or months of thirty days before `today`, or a date
/// written as month, day and year. A count that is not positive, or whose
/// unit is not one of `d`, `w` and `m`, is read as a date.
pub open spec fn date_offset(value: Seq<char>, today: Date) -> Option<Date> {
    let s = trim(value);
    if s.len() < 2 {
        None
    } else {
        let days = relative_days(s);
        if days is Some {
            if days->0 <= i64::MAX {
                chrono_days_before(today, days->0)
            } else {
                None
            }
        } else {
            match chrono_date(s, "%m-%d-%y"@) {
                Some(d) => Some(d),
                None => chrono_date(s, "%m-%d-%Y"@),
            }
        }
    }
}

/// The number of days that a relative offset such as `7d`, `2w` or `3m`
/// stands for.
pub open spec fn relative_days(s: Seq<char>) -> Option<int> {
    if s.len() < 2 {
        None
    } else {
        match parse_bounded(s.drop_last(), i64::MIN as int, i64::MAX as int) {
            Some(n) => if n <= 0 {
                None
            } else if s.last() == 'd' {
                Some(n)
            } else if s.last() == 'w' {
                Some(n * 7)
            } else if s.last() == 'm' {
                Some(n * 30)
            } else {
                None
            },
            None => None,
        }
    }
}

/// A count that is not positive is never read as an offset, whatever its
/// unit.
pub proof fn law_non_positive_count_is_no_offset(s: Seq<char>)
    requires
        s.len() >= 2,
        parse_bounded(s.drop_last(), i64::MIN as int, i64::MAX as int) is Some,
        parse_bounded(s.drop_last(), i64::MIN as int, i64::MAX as int)->0 <= 0,
    ensures
        relative_days(s) is None,
{
}

/// A unit other than `d`, `w` and `m` is never read as an offset.
pub proof fn law_unknown_unit_is_no_offset(s: Seq<char>)
    requires
        s.len() >= 2,
        s.last() != 'd',
        s.last() != 'w',
        s.last() != 'm',
    ensures
        relative_days(s) is None,
{
}

/// A value that is no offset names the same day whenever it is read: only
/// offsets count from the present day.
pub proof fn law_only_offsets_depend_on_the_day(value: Seq<char>, a: Date, b: Date)
    requires
        relative_days(trim(value)) is None,
    ensures
        date_offset(value, a) == date_offset(value, b),
{
}

/// The query after one more token.
pub open spec fn apply_token(q: ParsedQueryView, t: Token, today: Date) -> ParsedQueryView {
    match t {
        Token::Word(_) => q,
        Token::Clause { keyword, value } => {
            if keyword == "from"@ {
                ParsedQueryView { from: q.from.push(value), ..q }
            } else if keyword == "to"@ {
                ParsedQueryView { to: q.to.push(value), ..q }
            } else if keyword == "subject"@ {
                ParsedQueryView { subject: q.subject.push(value), ..q }
            } else if keyword == "has"@ {
                if value == "attachment"@ {
                    ParsedQueryView { has_attachment: true, ..q }
                } else {
                    q
                }
            } else if keyword == "is"@ {
                if value == "unread"@ {
                    ParsedQueryView { is_unread: Some(true), ..q }
                } else if value == "read"@ {
                    ParsedQueryView { is_unread: Some(false), ..q }
                } else if value == "starred"@ || value == "flagged"@ {
                    ParsedQueryView { is_flagged: Some(true), ..q }
                } else {
                    q
                }
            } else if keyword == "before"@ {
                ParsedQueryView { before: chrono_date(value, "%Y-%m-%d"@), ..q }
            } else if keyword == "after"@ {
                ParsedQueryView { after: chrono_date(value, "%Y-%m-%d"@), ..q }
            } else if keyword == "newer_than"@ {
                ParsedQueryView { after: date_offset(value, today), ..q }
            } else if keyword == "older_than"@ {
                ParsedQueryView { before: date_offset(value, today), ..q }
            } else {
                q
            }
        },
    }
}

/// The query after a run of tokens, its free text left aside.
pub open spec fn clauses_of(tokens: Seq<Token>, today: Date) -> ParsedQueryView
    decreases tokens.len(),
{
    if tokens.len() == 0 {
        ParsedQueryView::blank()
    } else {
        apply_token(clauses_of(tokens.drop_last(), today), tokens.last(), today)
    }
}

/// The free words among a run of tokens.
pub open spec fn words_of(tokens: Seq<Token>) -> Seq<Seq<char>>
    decreases tokens.len(),
{
    if tokens.len() == 0 {
        Seq::empty()
    } else {
        match tokens.last() {
            Token::Word(w) => words_of(tokens.drop_last()).push(w),
            _ => words_of(tokens.drop_last()),
        }
    }
}

/// What a query text asks for, read on the day `today`: its clauses in
/// order, and its free words joined by single spaces.
pub open spec fn query_on(raw: Seq<char>, today: Date) -> ParsedQueryView {
    let tokens = tokens_from(trim(raw), 0);
    ParsedQueryView {
        text: join(words_of(tokens), seq![' ']),
        ..clauses_of(tokens, today)
    }
}

// ---------------------------------------------------------------------------
// Reading
// ---------------------------------------------------------------------------

/// Whether a keyword belongs to the language.
pub fn is_known_operator(keyword: &[char]) -> (r: bool)
    ensures
        r == is_operator(keyword@),
{
    slice_eq(keyword, chars_of("from").as_slice()) || slice_eq(keyword, chars_of("to").as_slice())
        || slice_eq(keyword, chars_of("subject").as_slice()) || slice_eq(
        keyword,
        chars_of("has").as_slice(),
    ) || slice_eq(keyword, chars_of("is").as_slice()) || slice_eq(
        keyword,
        chars_of("before").as_slice(),
    ) || slice_eq(keyword, chars_of("after").as_slice()) || slice_eq(
        keyword,
        chars_of("newer_than").as_slice(),
    ) || slice_eq(keyword, chars_of("older_than").as_slice())
}

/// The end of the run without `stop` that begins at `start`.
fn find_run_end(raw: &[char], start: usize, stop: char) -> (r: usize)
    requires
        start <= raw@.len(),
    ensures
        r == run_end(raw@, start as int, stop),
        start <= r <= raw@.len(),
        r < raw@.len() ==> raw@[r as int] == stop,
        forall|j: int| start <= j < r ==> raw@[j] != stop,
{
    let rest = slice_subrange(raw, start, raw.len());
    proof {
        lemma_find_any_from(rest@, seq![stop], 0);
        assert(forall|j: int| 0 <= j < rest@.len() ==> rest@[j] == raw@[start + j]);
    }
    match find_char_in(rest, stop) {
        Some(i) => {
            proof {
                assert forall|j: int| start <= j < start + i implies raw@[j] != stop by {
                    assert(!seq![stop].contains(rest@[j - start]));
                    assert(seq![stop][0] == stop);
                }
            }
            start + i
        },
        None => {
            proof {
                assert forall|j: int| start <= j < raw@.len() implies raw@[j] != stop by {
                    assert(!seq![stop].contains(rest@[j - start]));
                    assert(seq![stop][0] == stop);
                }
            }
            raw.len()
        },
    }
}

/// Reads the value that begins at `start`.
pub fn extract_value(raw: &[char], start: usize) -> (r: (Vec<char>, usize))
    ensures
        r.0@ == value_at(raw@, start as int).0,
        r.1 == value_at(raw@, start as int).1,
        start <= r.1,
        r.1 <= raw@.len() || r.1 == start,
{
    if start >= raw.len() {
        return (Vec::new(), start);
    }
    if raw[start] == '"' {
        let end = find_run_end(raw, start + 1, '"');
        let value = to_vec(slice_subrange(raw, start + 1, end));
        let past = if end < raw.len() {
            end + 1
        } else {
            end
        };
        return (value, past);
    }
    let end = find_run_end(raw, start, ' ');
    (to_vec(slice_subrange(raw, start, end)), end)
}

/// Reads a date written as year, month and day.
pub fn parse_day(value: &[char]) -> (r: Option<Date>)
    ensures
        r == chrono_date(value@, "%Y-%m-%d"@),
{
    let s = string_of(value);
    parse_date(s.as_str(), "%Y-%m-%d")
}

/// Reads the value of `newer_than` or `older_than` on the day `today`.
pub fn parse_date_offset(value: &[char], today: &Date) -> (r: Option<Date>)
    ensures
        r == date_offset(value@, *today),
{
    let s = trimmed(value);
    if s.len() < 2 {
        return None;
    }
    let number = slice_subrange(s, 0, s.len() - 1);
    let unit = s[s.len() - 1];
    proof {
        assert(number@ =~= s@.drop_last());
    }
    match parse_i64(number) {
        Some(n) => {
            if n > 0 {
                if unit == 'd' {
                    return days_before(today, n);
                } else if unit == 'w' {
                    if n <= i64::MAX / 7 {
                        return days_before(today, n * 7);
                    } else {
                        return None;
                    }
                } else if unit == 'm' {
                    if n <= i64::MAX / 30 {
                        return days_before(today, n * 30);
                    } else {
                        return None;
                    }
                }
            }
        },
        None => {},
    }
    let text = string_of(s);
    match parse_date(text.as_str(), "%m-%d-%y") {
        Some(d) => Some(d),
        None => parse_date(text.as_str(), "%m-%d-%Y"),
    }
}

/// Applies one clause to a query.
fn apply_clause(query: &mut ParsedQuery, keyword: &[char], value: Vec<char>, today: &Date)
    requires
        is_operator(keyword@),
    ensures
        final(query)@ == apply_token(
            old(query)@,
            Token::Clause { keyword: keyword@, value: value@ },
            *today,
        ),
{
    let ghost before = query@;
    if slice_eq(keyword, chars_of("from").as_slice()) {
        let v = string_of(value.as_slice());
        query.from.push(v);
        proof {
            assert(str_views(query.from@) =~= before.from.push(value@));
        }
    } else if slice_eq(keyword, chars_of("to").as_slice()) {
        let v = string_of(value.as_slice());
        query.to.push(v);
        proof {
            assert(str_views(query.to@) =~= before.to.push(value@));
        }
    } else if slice_eq(keyword, chars_of("subject").as_slice()) {
        let v = string_of(value.as_slice());
        query.subject.push(v);
        proof {
            assert(str_views(query.subject@) =~= before.subject.push(value@));
        }
    } else if slice_eq(keyword, chars_of("has").as_slice()) {
        if slice_eq(value.as_slice(), chars_of("attachment").as_slice()) {
            query.has_attachment = true;
        }
    } else if slice_eq(keyword, chars_of("is").as_slice()) {
        if slice_eq(value.as_slice(), chars_of("unread").as_slice()) {
            query.is_unread = Some(true);
        } else if slice_eq(value.as_slice(), chars_of("read").as_slice()) {
            query.is_unread = Some(false);
        } else if slice_eq(value.as_slice(), chars_of("starred").as_slice()) || slice_eq(
            value.as_slice(),
            chars_of("flagged").as_slice(),
        ) {
            query.is_flagged = Some(true);
        }
    } else if slice_eq(keyword, chars_of("before").as_slice()) {
        query.before = parse_day(value.as_slice());
    } else if slice_eq(keyword, chars_of("after").as_slice()) {
        query.after = parse_day(value.as_slice());
    } else if slice_eq(keyword, chars_of("newer_than").as_slice()) {
        query.after = parse_date_offset(value.as_slice(), today);
    } else if slice_eq(keyword, chars_of("older_than").as_slice()) {
        query.before = parse_date_offset(value.as_slice(), today);
    }
}

/// Reads a query text on the day `today`.
pub fn parse_query_on(raw: &str, today: &Date) -> (r: ParsedQuery)
    ensures
        r@ == query_on(raw@, *today),
{
    let all = chars_of(raw);
    let s = trimmed(all.as_slice());
    let mut query = ParsedQuery::default();
    let mut words: Vec<Vec<char>> = Vec::new();
    let mut pos: usize = 0;
    let ghost tokens = tokens_from(s@, 0);
    let ghost mut done: Seq<Token> = Seq::empty();
    proof {
        assert(done + tokens_from(s@, 0) =~= tokens);
        assert(texts(words@) =~= Seq::<Seq<char>>::empty());
    }
    while pos < s.len()
        invariant
            pos <= s@.len(),
            tokens == done + tokens_from(s@, pos as int),
            tokens == tokens_from(s@, 0),
            query@ == clauses_of(done, *today),
            texts(words@) == words_of(done),
        decreases s@.len() - pos,
    {
        let mut p: usize = pos;
        while p < s.len() && s[p] == ' '
            invariant
                pos <= p <= s@.len(),
                skip_spaces(s@, pos as int) == skip_spaces(s@, p as int),
            decreases s@.len() - p,
        {
            p += 1;
        }
        if p >= s.len() {
            proof {
                assert(tokens_from(s@, pos as int) =~= Seq::<Token>::empty());
            }
            pos = s.len();
            proof {
                assert(tokens_from(s@, pos as int) =~= Seq::<Token>::empty());
            }
        } else {
            let colon = find_run_end(s, p, ':');
            let keyword = slice_subrange(s, p, colon);
            let mut is_clause = false;
            if colon < s.len() {
                let spaced = find_char_in(keyword, ' ').is_some();
                proof {
                    lemma_find_any_from(keyword@, seq![' '], 0);
                    if keyword@.contains(' ') {
                        let k = choose|k: int| 0 <= k < keyword@.len() && keyword@[k] == ' ';
                        assert(seq![' '][0] == keyword@[k]);
                        assert(seq![' '].contains(keyword@[k]));
                    }
                    if spaced {
                        let i = find_char(keyword@, ' ')->0;
                        assert(seq![' '][0] == ' ');
                        assert(keyword@[i] == ' ');
                    }
                }
                if !spaced && is_known_operator(keyword) {
                    is_clause = true;
                }
            }
            let ghost old_done = done;
            if is_clause {
                let (value, end) = extract_value(s, colon + 1);
                proof {
                    done = old_done.push(Token::Clause { keyword: keyword@, value: value@ });
                    assert(done.drop_last() =~= old_done);
                    assert(old_done + (seq![Token::Clause { keyword: keyword@, value: value@ }]
                        + tokens_from(s@, end as int)) =~= done + tokens_from(s@, end as int));
                }
                apply_clause(&mut query, keyword, value, today);
                pos = end;
            } else {
                let end = find_run_end(s, p, ' ');
                proof {
                    assert(s@[p as int] != ' ');
                    done = old_done.push(Token::Word(s@.subrange(p as int, end as int)));
                    assert(done.drop_last() =~= old_done);
                    assert(old_done + (seq![Token::Word(s@.subrange(p as int, end as int))]
                        + tokens_from(s@, end as int)) =~= done + tokens_from(s@, end as int));
                }
                let ghost before = texts(words@);
                words.push(to_vec(slice_subrange(s, p, end)));
                proof {
                    assert(texts(words@) =~= before.push(s@.subrange(p as int, end as int)));
                }
                pos = end;
            }
        }
    }
    proof {
        assert(tokens_from(s@, s@.len() as int) =~= Seq::<Token>::empty());
        assert(done =~= tokens);
    }
    let sep: [char; 1] = [' '];
    proof {
        assert(sep@ =~= seq![' ']);
    }
    let ghost clauses = query@;
    query.text = string_of(joined(&words, sep.as_slice()).as_slice());
    proof {
        assert(query@ == (ParsedQueryView { text: query.text@, ..clauses }));
    }
    query
}

/// Reads a query text. Offsets such as `newer_than:7d` count from the
/// present day, so the result is what `query_on` gives for some day.
pub fn parse_query(raw: &str) -> (r: ParsedQuery)
    ensures
        exists|day: Date| r@ == query_on(raw@, day),
{
    let day = today();
    let r = parse_query_on(raw, &day);
    proof {
        assert(r@ == query_on(raw@, day));
    }
    r
}

// ---------------------------------------------------------------------------
// Filters
// ---------------------------------------------------------------------------

/// One condition for each text of a list.
pub open spec fn text_conditions(key: Seq<char>, values: Seq<Seq<char>>) -> Seq<Doc> {
    Seq::new(values.len(), |i: int| one(key, Doc::Str(values[i])))
}

/// The condition on a date bound: the first instant of the day. There is
/// none for a date that the calendar does not know.
pub open spec fn date_conditions(key: Seq<char>, bound: Option<Date>) -> Seq<Doc> {
    match bound {
        Some(d) => match chrono_date_text(d) {
            Some(t) => seq![one(key, Doc::Str(t + "T00:00:00Z"@))],
            None => Seq::empty(),
        },
        None => Seq::empty(),
    }
}

/// A condition that is present or not.
pub open spec fn when(present: bool, c: Doc) -> Seq<Doc> {
    if present {
        seq![c]
    } else {
        Seq::empty()
    }
}

/// The conditions that a query and a mailbox scope ask for, one for each
/// clause, in a fixed order.
pub open spec fn conditions(query: Option<ParsedQueryView>, mailbox: Option<Seq<char>>) -> Seq<
    Doc,
> {
    let scope = match mailbox {
        Some(id) => seq![one("inMailbox"@, Doc::Str(id))],
        None => Seq::empty(),
    };
    match query {
        Some(q) => scope + text_conditions("from"@, q.from) + text_conditions("to"@, q.to)
            + text_conditions("subject"@, q.subject) + when(
            q.has_attachment,
            one("hasAttachment"@, Doc::Bool(true)),
        ) + when(q.is_unread == Some(true), one("notKeyword"@, Doc::Str("$seen"@))) + when(
            q.is_unread == Some(false),
            one("hasKeyword"@, Doc::Str("$seen"@)),
        ) + when(q.is_flagged == Some(true), one("hasKeyword"@, Doc::Str("$flagged"@)))
            + date_conditions("after"@, q.after) + date_conditions("before"@, q.before) + when(
            q.text.len() > 0,
            one("text"@, Doc::Str(q.text)),
        ),
        None => scope,
    }
}

/// The filter for a list of conditions: the empty object for none, which
/// matches everything; a single condition as it is; several joined by AND.
pub open spec fn filter_of(conds: Seq<Doc>) -> Doc {
    if conds.len() == 0 {
        Doc::Object(Seq::empty())
    } else if conds.len() == 1 {
        conds[0]
    } else {
        Doc::Object(
            Seq::<Entry>::empty().push(entry("operator"@, Doc::Str("AND"@))).push(
                entry("conditions"@, Doc::Array(conds)),
            ),
        )
    }
}

fn push_condition(out: &mut Vec<Json>, key: &str, value: Json)
    ensures
        docs(final(out)@) == docs(old(out)@) + seq![one(key@, value@)],
{
    let ghost before = docs(out@);
    push_item(out, single(key, value));
    proof {
        assert(docs(out@) =~= before + seq![one(key@, value@)]);
    }
}

fn push_text_conditions(out: &mut Vec<Json>, key: &str, values: &Vec<String>)
    ensures
        docs(final(out)@) == docs(old(out)@) + text_conditions(key@, str_views(values@)),
{
    let mut i: usize = 0;
    proof {
        assert(docs(out@) + text_conditions(key@, str_views(values@).take(0)) =~= docs(out@));
    }
    while i < values.len()
        invariant
            i <= values@.len(),
            docs(out@) == docs(old(out)@) + text_conditions(
                key@,
                str_views(values@).take(i as int),
            ),
        decreases values@.len() - i,
    {
        push_item(out, single(key, text(values[i].as_str())));
        proof {
            assert(docs(out@) =~= docs(old(out)@) + text_conditions(
                key@,
                str_views(values@).take(i + 1),
            ));
        }
        i += 1;
    }
    proof {
        assert(str_views(values@).take(values@.len() as int) =~= str_views(values@));
    }
}

fn push_date_condition(out: &mut Vec<Json>, key: &str, bound: &Option<Date>)
    ensures
        docs(final(out)@) == docs(old(out)@) + date_conditions(key@, *bound),
{
    proof {
        assert(docs(out@) + Seq::<Doc>::empty() =~= docs(out@));
    }
    match bound {
        Some(d) => match format_date(d) {
            Some(t) => {
                let stamp = cat(t.as_str(), "T00:00:00Z");
                push_condition(out, key, text(stamp.as_str()));
            },
            None => {},
        },
        None => {},
    }
}

/// Turns a query and a mailbox scope into a filter of the mail protocol.
pub fn to_jmap_filter(query: Option<&ParsedQuery>, mailbox_id: Option<&str>) -> (r: Json)
    ensures
        r@ == filter_of(
            conditions(
                match query {
                    Some(q) => Some(q@),
                    None => None,
                },
                match mailbox_id {
                    Some(id) => Some(id@),
                    None => None,
                },
            ),
        ),
{
    let mut conds = no_items();
    proof {
        assert(docs(conds@) + Seq::<Doc>::empty() =~= docs(conds@));
    }
    match mailbox_id {
        Some(id) => {
            push_condition(&mut conds, "inMailbox", text(id));
            proof {
                assert(docs(conds@) =~= seq![one("inMailbox"@, Doc::Str(id@))]);
            }
        },
        None => {},
    }
    match query {
        Some(q) => {
            push_text_conditions(&mut conds, "from", &q.from);
            push_text_conditions(&mut conds, "to", &q.to);
            push_text_conditions(&mut conds, "subject", &q.subject);
            let ghost c0 = docs(conds@);
            proof {
                assert(c0 + Seq::<Doc>::empty() =~= c0);
            }
            if q.has_attachment {
                push_condition(&mut conds, "hasAttachment", Json::Bool(true));
            }
            let ghost c1 = docs(conds@);
            proof {
                assert(c1 + Seq::<Doc>::empty() =~= c1);
            }
            match q.is_unread {
                Some(true) => {
                    push_condition(&mut conds, "notKeyword", text("$seen"));
                    proof {
                        assert(docs(conds@) + Seq::<Doc>::empty() =~= docs(conds@));
                    }
                },
                Some(false) => {
                    proof {
                        assert(c1 + Seq::<Doc>::empty() =~= c1);
                    }
                    push_condition(&mut conds, "hasKeyword", text("$seen"));
                },
                None => {},
            }
            let ghost c2 = docs(conds@);
            proof {
                assert(c2 + Seq::<Doc>::empty() =~= c2);
                assert(c2 == c1 + when(
                    q@.is_unread == Some(true),
                    one("notKeyword"@, Doc::Str("$seen"@)),
                ) + when(
                    q@.is_unread == Some(false),
                    one("hasKeyword"@, Doc::Str("$seen"@)),
                ));
            }
            match q.is_flagged {
                Some(true) => {
                    push_condition(&mut conds, "hasKeyword", text("$flagged"));
                },
                _ => {},
            }
            push_date_condition(&mut conds, "after", &q.after);
            push_date_condition(&mut conds, "before", &q.before);
            let ghost c3 = docs(conds@);
            proof {
                assert(c3 + Seq::<Doc>::empty() =~= c3);
            }
            if !q.text.as_str().is_empty() {
                push_condition(&mut conds, "text", text(q.text.as_str()));
            }
        },
        None => {},
    }
    if conds.len() == 0 {
        let empty = no_entries();
        object(empty)
    } else if conds.len() == 1 {
        let ghost all = docs(conds@);
        let ghost first = conds@[0];
        let only = conds.pop().unwrap();
        proof {
            assert(only == first);
            assert(all[0] == first@);
        }
        only
    } else {
        let mut entries = no_entries();
        put(&mut entries, "operator", text("AND"));
        put(&mut entries, "conditions", array(conds));
        object(entries)
    }
}

} // verus!
