//! Shell-style pattern matching: `*` stands for any run of bytes, `?` for
//! any single byte, and letters are compared without regard to case.

use crate::text::{
    ascii_lower, chars_of, is_ascii_text, lemma_ascii_lower_idempotent, lowercase, string_of,
    to_lowercase,
};
use vstd::prelude::*;
use vstd::utf8::{encode_utf8, is_ascii_chars, is_ascii_chars_encode_utf8};

verus! {

/// The byte `*`, which stands for any run of bytes.
pub const STAR: u8 = 42u8;

/// The byte `?`, which stands for any single byte.
pub const QUERY: u8 = 63u8;

/// Whether the pattern from position `i` on matches the text from position
/// `j` on.
pub open spec fn matches_from(p: Seq<u8>, t: Seq<u8>, i: int, j: int) -> bool
    decreases p.len() - i, t.len() - j,
{
    if i < 0 || j < 0 {
        false
    } else if i >= p.len() {
        j == t.len()
    } else if p[i] == STAR {
        matches_from(p, t, i + 1, j) || (j < t.len() && matches_from(p, t, i, j + 1))
    } else {
        j < t.len() && (p[i] == QUERY || p[i] == t[j]) && matches_from(p, t, i + 1, j + 1)
    }
}

/// Whether the whole pattern matches the whole text.
pub open spec fn wild_match(p: Seq<u8>, t: Seq<u8>) -> bool {
    matches_from(p, t, 0, 0)
}

/// Whether a pattern matches a text once both are put in lowercase and read
/// as UTF-8 bytes.
pub open spec fn glob_matches(pattern: Seq<char>, text: Seq<char>) -> bool {
    wild_match(encode_utf8(lowercase(pattern)), encode_utf8(lowercase(text)))
}

/// `p[a..b]` holds no star and agrees with `t[j..j + (b - a)]` byte by byte.
pub open spec fn literal_run(p: Seq<u8>, t: Seq<u8>, a: int, b: int, j: int) -> bool {
    &&& 0 <= a <= b <= p.len()
    &&& 0 <= j
    &&& j + (b - a) <= t.len()
    &&& forall|d: int|
        0 <= d < b - a ==> #[trigger] p[a + d] != STAR && (p[a + d] == QUERY || p[a + d] == t[j + d])
}

/// `p[a..b]` holds no star.
pub open spec fn star_free(p: Seq<u8>, a: int, b: int) -> bool {
    &&& 0 <= a <= b <= p.len()
    &&& forall|d: int| a <= d < b ==> #[trigger] p[d] != STAR
}

proof fn lemma_literal_run(p: Seq<u8>, t: Seq<u8>, a: int, b: int, j: int)
    requires
        literal_run(p, t, a, b, j),
    ensures
        matches_from(p, t, a, j) == matches_from(p, t, b, j + (b - a)),
    decreases b - a,
{
    if a < b {
        assert(p[a + 0] != STAR);
        assert forall|d: int| 0 <= d < b - (a + 1) implies #[trigger] p[(a + 1) + d] != STAR && (p[(a
            + 1) + d] == QUERY || p[(a + 1) + d] == t[(j + 1) + d]) by {
            assert(p[a + (d + 1)] != STAR);
        }
        lemma_literal_run(p, t, a + 1, b, j + 1);
    }
}

proof fn lemma_star_free_needs_room(p: Seq<u8>, t: Seq<u8>, a: int, b: int, j: int)
    requires
        star_free(p, a, b),
        0 <= j <= t.len(),
        matches_from(p, t, a, j),
    ensures
        j + (b - a) <= t.len(),
        matches_from(p, t, b, j + (b - a)),
    decreases b - a,
{
    if a < b {
        assert(p[a] != STAR);
        lemma_star_free_needs_room(p, t, a + 1, b, j + 1);
    }
}

proof fn lemma_star_absorbs(p: Seq<u8>, t: Seq<u8>, s: int, lo: int, hi: int)
    requires
        0 <= s < p.len(),
        p[s] == STAR,
        0 <= lo <= hi <= t.len(),
        matches_from(p, t, s, hi),
    ensures
        matches_from(p, t, s, lo),
    decreases hi - lo,
{
    if lo < hi {
        lemma_star_absorbs(p, t, s, lo + 1, hi);
    }
}

proof fn lemma_star_fails(p: Seq<u8>, t: Seq<u8>, s: int, k: int)
    requires
        0 <= s < p.len(),
        p[s] == STAR,
        0 <= k <= t.len(),
        forall|j: int| k <= j <= t.len() ==> !#[trigger] matches_from(p, t, s + 1, j),
    ensures
        !matches_from(p, t, s, k),
    decreases t.len() - k,
{
    assert(!matches_from(p, t, s + 1, k));
    if k < t.len() {
        lemma_star_fails(p, t, s, k + 1);
    }
}

/// Reaching a second star after a literal run: the match from the first star
/// succeeds exactly if the match from the second does.
proof fn lemma_next_star(p: Seq<u8>, t: Seq<u8>, s: int, k: int, pi: int, ti: int)
    requires
        0 <= s < pi < p.len(),
        p[s] == STAR,
        p[pi] == STAR,
        literal_run(p, t, s + 1, pi, k),
        ti == k + (pi - (s + 1)),
    ensures
        matches_from(p, t, s, k) == matches_from(p, t, pi, ti),
{
    lemma_literal_run(p, t, s + 1, pi, k);
    if !matches_from(p, t, pi, ti) {
        assert forall|j: int| k <= j <= t.len() implies !#[trigger] matches_from(
            p,
            t,
            s + 1,
            j,
        ) by {
            if matches_from(p, t, s + 1, j) {
                assert(star_free(p, s + 1, pi)) by {
                    assert forall|d: int| s + 1 <= d < pi implies #[trigger] p[d] != STAR by {
                        assert(p[(s + 1) + (d - (s + 1))] != STAR);
                    }
                }
                lemma_star_free_needs_room(p, t, s + 1, pi, j);
                lemma_star_absorbs(p, t, pi, ti, j + (pi - (s + 1)));
            }
        }
        lemma_star_fails(p, t, s, k);
    }
}

/// At the end of the text after a literal run: if the rest of the pattern
/// does not match the empty rest, no later start can succeed either.
proof fn lemma_end_of_text(p: Seq<u8>, t: Seq<u8>, s: int, k: int, pi: int)
    requires
        0 <= s < pi <= p.len(),
        p[s] == STAR,
        literal_run(p, t, s + 1, pi, k),
        t.len() == k + (pi - (s + 1)),
    ensures
        matches_from(p, t, s, k) == matches_from(p, t, pi, t.len() as int),
{
    lemma_literal_run(p, t, s + 1, pi, k);
    if !matches_from(p, t, pi, t.len() as int) {
        assert forall|j: int| k <= j <= t.len() implies !#[trigger] matches_from(
            p,
            t,
            s + 1,
            j,
        ) by {
            if matches_from(p, t, s + 1, j) {
                assert(star_free(p, s + 1, pi)) by {
                    assert forall|d: int| s + 1 <= d < pi implies #[trigger] p[d] != STAR by {
                        assert(p[(s + 1) + (d - (s + 1))] != STAR);
                    }
                }
                lemma_star_free_needs_room(p, t, s + 1, pi, j);
            }
        }
        lemma_star_fails(p, t, s, k);
    }
}

/// Matches a pattern against a text, byte by byte, in one pass that
/// remembers the last star and where it was tried.
pub fn glob_match_bytes(pattern: &[u8], text: &[u8]) -> (r: bool)
    ensures
        r == wild_match(pattern@, text@),
{
    let plen: usize = pattern.len();
    let tlen: usize = text.len();
    let mut pi: usize = 0;
    let mut ti: usize = 0;
    let mut have_star: bool = false;
    let mut star_pi: usize = 0;
    let mut star_ti: usize = 0;
    let ghost p = pattern@;
    let ghost t = text@;

    while ti < tlen
        invariant
            p == pattern@,
            t == text@,
            plen == p.len(),
            tlen == t.len(),
            pi <= plen,
            star_ti <= ti <= tlen,
            !have_star ==> wild_match(p, t) == matches_from(p, t, pi as int, ti as int),
            have_star ==> {
                &&& star_pi < pi
                &&& p[star_pi as int] == STAR
                &&& star_ti <= ti
                &&& ti == star_ti + (pi - (star_pi + 1))
                &&& wild_match(p, t) == matches_from(p, t, star_pi as int, star_ti as int)
                &&& literal_run(p, t, star_pi + 1, pi as int, star_ti as int)
            },
        decreases tlen - star_ti, tlen - ti, plen - pi,
    {
        if pi < plen && pattern[pi] == STAR {
            proof {
                if have_star {
                    lemma_next_star(p, t, star_pi as int, star_ti as int, pi as int, ti as int);
                }
            }
            have_star = true;
            star_pi = pi;
            star_ti = ti;
            pi += 1;
        } else if pi < plen && (pattern[pi] == QUERY || pattern[pi] == text[ti]) {
            proof {
                if have_star {
                    assert forall|d: int| 0 <= d < (pi + 1) - (star_pi + 1) implies #[trigger] p[(
                    star_pi + 1) + d] != STAR && (p[(star_pi + 1) + d] == QUERY || p[(star_pi + 1)
                        + d] == t[star_ti + d]) by {
                        if d < pi - (star_pi + 1) {
                            assert(p[(star_pi + 1) + d] != STAR);
                        }
                    }
                }
            }
            pi += 1;
            ti += 1;
        } else if have_star {
            proof {
                lemma_literal_run(p, t, star_pi + 1, pi as int, star_ti as int);
                assert(!matches_from(p, t, pi as int, ti as int));
            }
            pi = star_pi + 1;
            star_ti += 1;
            ti = star_ti;
        } else {
            return false;
        }
    }

    let ghost end_pi = pi as int;
    while pi < plen && pattern[pi] == STAR
        invariant
            p == pattern@,
            plen == p.len(),
            tlen == t.len(),
            end_pi <= pi <= plen,
            matches_from(p, t, end_pi, tlen as int) == matches_from(p, t, pi as int, tlen as int),
        decreases plen - pi,
    {
        pi += 1;
    }
    proof {
        if have_star {
            lemma_end_of_text(p, t, star_pi as int, star_ti as int, end_pi);
        }
    }
    pi == plen
}

/// Matches `text` against `pattern` without regard to case.
pub fn glob_match(pattern: &str, text: &str) -> (r: bool)
    ensures
        r == glob_matches(pattern@, text@),
{
    let p = string_of(to_lowercase(chars_of(pattern).as_slice()).as_slice());
    let t = string_of(to_lowercase(chars_of(text).as_slice()).as_slice());
    glob_match_bytes(p.as_str().as_bytes(), t.as_str().as_bytes())
}

// ---------------------------------------------------------------------------
// Laws
// ---------------------------------------------------------------------------

/// A text whose lowercase form is left as it is by lowercasing it again.
pub open spec fn case_stable(s: Seq<char>) -> bool {
    lowercase(lowercase(s)) == lowercase(s)
}

/// Every ASCII text is case stable.
pub proof fn lemma_ascii_is_case_stable(s: Seq<char>)
    requires
        is_ascii_text(s),
    ensures
        case_stable(s),
        lowercase(s).len() == s.len(),
{
    lemma_ascii_lower_idempotent(s);
    lemma_ascii_lower_idempotent(ascii_lower(s));
}

/// Matching disregards case: a pattern matches a text exactly if the
/// lowercase pattern matches the lowercase text.
pub proof fn law_match_ignores_case(pattern: Seq<char>, text: Seq<char>)
    requires
        case_stable(pattern),
        case_stable(text),
    ensures
        glob_matches(pattern, text) == glob_matches(lowercase(pattern), lowercase(text)),
{
}

/// For ASCII patterns and texts matching disregards case without
/// further condition.
pub proof fn law_ascii_match_ignores_case(pattern: Seq<char>, text: Seq<char>)
    requires
        is_ascii_text(pattern),
        is_ascii_text(text),
    ensures
        glob_matches(pattern, text) == glob_matches(lowercase(pattern), lowercase(text)),
{
    lemma_ascii_is_case_stable(pattern);
    lemma_ascii_is_case_stable(text);
}

proof fn lemma_lone_star(t: Seq<u8>, j: int)
    requires
        0 <= j <= t.len(),
    ensures
        matches_from(seq![STAR], t, 0, j),
    decreases t.len() - j,
{
    let p = seq![STAR];
    if j < t.len() {
        lemma_lone_star(t, j + 1);
    } else {
        assert(matches_from(p, t, 1, j));
    }
}

/// The pattern `*` matches every text.
pub proof fn law_star_matches_everything(text: Seq<char>)
    ensures
        glob_matches(seq!['*'], text),
{
    let star = seq!['*'];
    assert(is_ascii_text(star));
    assert(lowercase(star) =~= star);
    assert(is_ascii_chars(star));
    is_ascii_chars_encode_utf8(star);
    assert(encode_utf8(star) =~= seq![STAR]);
    lemma_lone_star(encode_utf8(lowercase(text)), 0);
}

proof fn lemma_encoding_is_empty(s: Seq<char>)
    ensures
        (encode_utf8(s).len() == 0) == (s.len() == 0),
{
    if s.len() > 0 {
        assert(encode_utf8(s) == vstd::utf8::encode_scalar(s[0] as u32) + encode_utf8(
            s.drop_first(),
        ));
    }
}

/// The empty pattern matches the empty text and no other: a text matches it
/// exactly if its lowercase form is empty, which for ASCII text means that
/// the text is empty.
pub proof fn law_empty_pattern(text: Seq<char>)
    ensures
        glob_matches(Seq::empty(), Seq::empty()),
        glob_matches(Seq::empty(), text) == (lowercase(text).len() == 0),
        is_ascii_text(text) ==> glob_matches(Seq::empty(), text) == (text.len() == 0),
{
    let none = Seq::<char>::empty();
    assert(is_ascii_text(none));
    assert(lowercase(none) =~= none);
    lemma_encoding_is_empty(none);
    lemma_encoding_is_empty(lowercase(text));
    assert(encode_utf8(none) =~= Seq::<u8>::empty());
    if is_ascii_text(text) {
        lemma_ascii_lower_idempotent(text);
    }
}

} // verus!
