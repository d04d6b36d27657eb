//! Facts about searching, splitting and replacing in texts that are put
//! together from parts.

use crate::text::{
    after, before, contains, find, find_char, is_space, join, lemma_find_any_from,
    lemma_find_from, lines, occurs_at, pieces, replace, trim, trim_end, trim_end_char, trim_start,
};
use vstd::prelude::*;

verus! {

/// A carriage return and a line feed.
pub open spec fn crlf() -> Seq<char> {
    seq!['\r', '\n']
}

/// A line and what follows it.
pub open spec fn line_then(line: Seq<char>, rest: Seq<char>) -> Seq<char> {
    line + crlf() + rest
}

/// A text without carriage return and line feed.
pub open spec fn plain(x: Seq<char>) -> bool {
    forall|i: int| 0 <= i < x.len() ==> #[trigger] x[i] != '\r' && x[i] != '\n'
}

/// Where a text occurs, its characters stand.
pub proof fn lemma_occurs_chars(s: Seq<char>, n: Seq<char>, p: int, k: int)
    requires
        occurs_at(s, n, p),
        0 <= k < n.len(),
    ensures
        s[p + k] == n[k],
{
    assert(s.subrange(p, p + n.len())[k] == s[p + k]);
}

/// An occurrence is found, and the first one at that.
pub proof fn lemma_first_occurrence(s: Seq<char>, n: Seq<char>, q: int)
    requires
        occurs_at(s, n, q),
        forall|p: int| 0 <= p < q ==> !occurs_at(s, n, p),
    ensures
        find(s, n) == Some(q),
{
    lemma_find_from(s, n, 0);
}

/// Where nothing occurs, nothing is found.
pub proof fn lemma_no_occurrence(s: Seq<char>, n: Seq<char>)
    requires
        forall|p: int| 0 <= p ==> !occurs_at(s, n, p),
    ensures
        find(s, n) is None,
{
    lemma_find_from(s, n, 0);
}

/// An occurrence of a plain text in a line and what follows it lies in the
/// line or in what follows: it cannot reach over the line break.
pub proof fn lemma_occurrence_beside_break(a: Seq<char>, b: Seq<char>, n: Seq<char>, p: int)
    requires
        plain(n),
        n.len() > 0,
        occurs_at(line_then(a, b), n, p),
    ensures
        (p + n.len() <= a.len() && occurs_at(a, n, p)) || (p >= a.len() + 2 && occurs_at(
            b,
            n,
            p - a.len() - 2,
        )),
{
    let s = line_then(a, b);
    assert(s[a.len() as int] == '\r');
    assert(s[a.len() as int + 1] == '\n');
    if p <= a.len() && a.len() < p + n.len() {
        lemma_occurs_chars(s, n, p, a.len() - p);
        assert(false);
    }
    if p <= a.len() + 1 && a.len() + 1 < p + n.len() {
        lemma_occurs_chars(s, n, p, a.len() + 1 - p);
        assert(false);
    }
    if p + n.len() <= a.len() {
        assert(s.subrange(p, p + n.len()) =~= a.subrange(p, p + n.len()));
    } else {
        assert(s.subrange(p, p + n.len()) =~= b.subrange(
            p - a.len() - 2,
            p - a.len() - 2 + n.len(),
        ));
    }
}

/// What occurs in the rest occurs in the whole, a line further on.
pub proof fn lemma_occurrence_after_line(a: Seq<char>, b: Seq<char>, n: Seq<char>, q: int)
    requires
        occurs_at(b, n, q),
    ensures
        occurs_at(line_then(a, b), n, q + a.len() + 2),
{
    let s = line_then(a, b);
    assert(s.subrange(q + a.len() + 2, q + a.len() + 2 + n.len()) =~= b.subrange(q, q + n.len()));
}

/// The first occurrence of a plain text behind a line that does not hold
/// it is its first occurrence in what follows the line.
pub proof fn lemma_find_past_line(a: Seq<char>, b: Seq<char>, n: Seq<char>)
    requires
        plain(n),
        n.len() > 0,
        !contains(a, n),
    ensures
        find(line_then(a, b), n) == match find(b, n) {
            Some(i) => Some(i + a.len() + 2),
            None => None,
        },
{
    let s = line_then(a, b);
    lemma_find_from(a, n, 0);
    lemma_find_from(b, n, 0);
    match find(b, n) {
        Some(i) => {
            lemma_occurrence_after_line(a, b, n, i);
            assert forall|p: int| 0 <= p < i + a.len() + 2 implies !occurs_at(s, n, p) by {
                if occurs_at(s, n, p) {
                    lemma_occurrence_beside_break(a, b, n, p);
                }
            }
            lemma_first_occurrence(s, n, i + a.len() + 2);
        },
        None => {
            assert forall|p: int| 0 <= p implies !occurs_at(s, n, p) by {
                if occurs_at(s, n, p) {
                    lemma_occurrence_beside_break(a, b, n, p);
                }
            }
            lemma_no_occurrence(s, n);
        },
    }
}

/// A text that is put after a prefix occurs in the whole.
pub proof fn lemma_contains_after(pre: Seq<char>, n: Seq<char>, post: Seq<char>)
    ensures
        contains(pre + n + post, n),
{
    let s = pre + n + post;
    assert(s.subrange(pre.len() as int, pre.len() as int + n.len()) =~= n);
    assert(occurs_at(s, n, pre.len() as int));
    lemma_find_from(s, n, 0);
}

/// Replacing leaves a prefix alone in which, and out of which, the text to
/// replace does not occur.
pub proof fn lemma_replace_keeps_prefix(
    pre: Seq<char>,
    rest: Seq<char>,
    from: Seq<char>,
    to: Seq<char>,
)
    requires
        from.len() > 0,
        forall|p: int| 0 <= p < pre.len() ==> !occurs_at(pre + rest, from, p),
    ensures
        replace(pre + rest, from, to) == pre + replace(rest, from, to),
    decreases pre.len(),
{
    let s = pre + rest;
    if pre.len() == 0 {
        assert(s =~= rest);
        assert(pre + replace(rest, from, to) =~= replace(rest, from, to));
    } else {
        let shorter = pre.drop_first();
        assert(s.drop_first() =~= shorter + rest);
        assert(!occurs_at(s, from, 0));
        assert forall|p: int| 0 <= p < shorter.len() implies !occurs_at(shorter + rest, from, p) by {
            if occurs_at(shorter + rest, from, p) {
                assert(s.subrange(p + 1, p + 1 + from.len()) =~= (shorter + rest).subrange(
                    p,
                    p + from.len(),
                ));
                assert(occurs_at(s, from, p + 1));
            }
        }
        lemma_replace_keeps_prefix(shorter, rest, from, to);
        assert(seq![s[0]] + (shorter + replace(rest, from, to)) =~= pre + replace(rest, from, to));
    }
}

/// A fold mark: a line break, with or without carriage return, and the
/// space or tab that continues the line.
pub open spec fn is_fold_mark(from: Seq<char>) -> bool {
    ||| from == seq!['\r', '\n', ' ']
    ||| from == seq!['\r', '\n', '\t']
    ||| from == seq!['\n', ' ']
    ||| from == seq!['\n', '\t']
}

/// Removing fold marks leaves a plain line alone if what follows it does
/// not begin with a space or a tab.
pub proof fn lemma_unfold_keeps_line(a: Seq<char>, b: Seq<char>, from: Seq<char>)
    requires
        plain(a),
        is_fold_mark(from),
        b.len() > 0,
        b[0] != ' ',
        b[0] != '\t',
    ensures
        replace(line_then(a, b), from, Seq::empty()) == line_then(
            a,
            replace(b, from, Seq::empty()),
        ),
{
    let s = line_then(a, b);
    let pre = a + crlf();
    assert(s =~= pre + b);
    assert forall|p: int| 0 <= p < pre.len() implies !occurs_at(pre + b, from, p) by {
        if occurs_at(pre + b, from, p) {
            lemma_occurs_chars(pre + b, from, p, 0);
            lemma_occurs_chars(pre + b, from, p, 1);
            if from.len() == 3 {
                lemma_occurs_chars(pre + b, from, p, 2);
            }
            if p < a.len() {
                assert((pre + b)[p] == a[p]);
            }
            assert((pre + b)[a.len() as int] == '\r');
            assert((pre + b)[a.len() as int + 1] == '\n');
            assert((pre + b)[a.len() as int + 2] == b[0]);
        }
    }
    lemma_replace_keeps_prefix(pre, b, from, Seq::empty());
    assert(pre + replace(b, from, Seq::empty()) =~= line_then(
        a,
        replace(b, from, Seq::empty()),
    ));
}

/// Removing fold marks keeps the first character of a text that does not
/// begin with a line break.
pub proof fn lemma_unfold_keeps_start(b: Seq<char>, from: Seq<char>)
    requires
        is_fold_mark(from),
        b.len() > 0,
        b[0] != '\r',
        b[0] != '\n',
    ensures
        replace(b, from, Seq::empty()).len() > 0,
        replace(b, from, Seq::empty())[0] == b[0],
{
    if occurs_at(b, from, 0) {
        lemma_occurs_chars(b, from, 0, 0);
    }
}

/// The first line of a plain line and what follows it is that line.
pub proof fn lemma_lines_first(x: Seq<char>, rest: Seq<char>)
    requires
        plain(x),
    ensures
        lines(line_then(x, rest)) == seq![x] + lines(rest),
{
    let s = line_then(x, rest);
    let n = x.len() as int;
    assert(s[n] == '\r');
    assert(s[n + 1] == '\n');
    let set = seq!['\n'];
    assert(set[0] == '\n');
    lemma_find_any_from(s, set, 0);
    assert(set.contains(s[n + 1]));
    assert forall|j: int| 0 <= j < n + 1 implies !set.contains(#[trigger] s[j]) by {
        if j < n {
            assert(s[j] == x[j]);
        }
        if set.contains(s[j]) {
            let k = choose|k: int| 0 <= k < set.len() && set[k] == s[j];
            assert(set[k] == '\n');
        }
    }
    assert(find_char(s, '\n') == Some(n + 1));
    assert(s.subrange(0, n + 1) =~= x + seq!['\r']);
    assert(s.subrange(n + 2, s.len() as int) =~= rest);
    let with_cr = x + seq!['\r'];
    assert(with_cr.last() == '\r');
    assert(with_cr.drop_last() =~= x);
    assert(trim_end_char(with_cr, '\r') == trim_end_char(x, '\r'));
    if x.len() > 0 {
        assert(x.last() == x[x.len() - 1]);
    }
    assert(trim_end_char(x, '\r') == x);
}

/// Trimming leaves a text alone that neither begins nor ends with white
/// space.
pub proof fn lemma_trim_is_identity(s: Seq<char>)
    requires
        s.len() > 0,
        !is_space(s[0]),
        !is_space(s.last()),
    ensures
        trim(s) == s,
{
    assert(trim_start(s) == s);
    assert(trim_end(s) == s);
}

/// Joining a first part and further parts puts the separator between them.
pub proof fn lemma_join_front(first: Seq<char>, more: Seq<Seq<char>>, sep: Seq<char>)
    requires
        more.len() > 0,
    ensures
        join(seq![first] + more, sep) == first + sep + join(more, sep),
    decreases more.len(),
{
    let all = seq![first] + more;
    assert(all.drop_last() =~= seq![first] + more.drop_last());
    assert(all.last() == more.last());
    if more.len() == 1 {
        assert(all.drop_last() =~= seq![first]);
        assert(join(all.drop_last(), sep) == first);
        assert(join(more, sep) == more[0]);
    } else {
        lemma_join_front(first, more.drop_last(), sep);
        assert(first + sep + join(more.drop_last(), sep) + sep + more.last() =~= first + sep + (
        join(more.drop_last(), sep) + sep + more.last()));
    }
}

/// A text has at least one piece.
pub proof fn lemma_pieces_exist(s: Seq<char>, sep: char)
    ensures
        pieces(s, sep).len() > 0,
{
}

/// The pieces of a text, joined by the separator, are the text.
pub proof fn lemma_join_pieces(s: Seq<char>, sep: char)
    ensures
        join(pieces(s, sep), seq![sep]) == s,
    decreases s.len(),
{
    let set = seq![sep];
    lemma_find_any_from(s, set, 0);
    match find_char(s, sep) {
        Some(i) => {
            assert(set.contains(s[i]));
            let k = choose|k: int| 0 <= k < set.len() && set[k] == s[i];
            assert(s[i] == sep);
            let rest = after(s, i + 1);
            lemma_join_pieces(rest, sep);
            lemma_pieces_exist(rest, sep);
            lemma_join_front(before(s, i), pieces(rest, sep), seq![sep]);
            assert(before(s, i) + seq![sep] + rest =~= s);
        },
        None => {},
    }
}

} // verus!
