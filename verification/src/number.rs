//! Decimal notation: reading and writing integers as text.

use vstd::prelude::*;

verus! {

/// The characters `0` to `9`.
pub open spec fn is_decimal_digit(c: char) -> bool {
    '0' <= c <= '9'
}

/// Whether a text holds decimal digits only.
pub open spec fn all_digits(s: Seq<char>) -> bool {
    forall|i: int| 0 <= i < s.len() ==> is_decimal_digit(#[trigger] s[i])
}

/// The value of a decimal digit.
pub open spec fn digit_value(c: char) -> int {
    (c as u32) - ('0' as u32)
}

/// The digit for a value from zero to nine.
pub open spec fn digit_char(d: int) -> char {
    (('0' as u8) + (d as u8)) as char
}

/// The number that a run of decimal digits denotes.
pub open spec fn digits_value(s: Seq<char>) -> int
    decreases s.len(),
{
    if s.len() == 0 {
        0
    } else {
        digits_value(s.drop_last()) * 10 + digit_value(s.last())
    }
}

/// The decimal digits of a natural number, without leading zeros.
pub open spec fn digits(n: int) -> Seq<char>
    decreases n,
{
    if n < 10 {
        seq![digit_char(if n < 0 { 0 } else { n })]
    } else {
        digits(n / 10).push(digit_char(n % 10))
    }
}

/// An integer in decimal notation, with a minus sign if it is negative.
pub open spec fn decimal(n: int) -> Seq<char> {
    if n < 0 {
        seq!['-'] + digits(-n)
    } else {
        digits(n)
    }
}

/// The integer that a text denotes: an optional sign, then one or more
/// decimal digits and nothing else.
pub open spec fn parse_int(s: Seq<char>) -> Option<int> {
    if s.len() == 0 {
        None
    } else if s[0] == '-' {
        let body = s.drop_first();
        if body.len() > 0 && all_digits(body) {
            Some(-digits_value(body))
        } else {
            None
        }
    } else if s[0] == '+' {
        let body = s.drop_first();
        if body.len() > 0 && all_digits(body) {
            Some(digits_value(body))
        } else {
            None
        }
    } else if all_digits(s) {
        Some(digits_value(s))
    } else {
        None
    }
}

/// As `parse_int`, for a number that must fit a signed type of the given
/// bounds.
pub open spec fn parse_bounded(s: Seq<char>, lo: int, hi: int) -> Option<int> {
    match parse_int(s) {
        Some(n) => if lo <= n <= hi {
            Some(n)
        } else {
            None
        },
        None => None,
    }
}

/// A natural number without a minus sign that fits the given bound.
pub open spec fn parse_unsigned(s: Seq<char>, hi: int) -> Option<int> {
    if s.len() > 0 && s[0] == '-' {
        None
    } else {
        parse_bounded(s, 0, hi)
    }
}

/// A run of digits denotes a natural number.
pub proof fn lemma_digits_value_bounds(s: Seq<char>)
    requires
        all_digits(s),
    ensures
        0 <= digits_value(s),
    decreases s.len(),
{
    if s.len() > 0 {
        assert(is_decimal_digit(s.last()));
        assert forall|i: int| 0 <= i < s.drop_last().len() implies is_decimal_digit(
            #[trigger] s.drop_last()[i],
        ) by {
            assert(s.drop_last()[i] == s[i]);
        }
        lemma_digits_value_bounds(s.drop_last());
    }
}

/// Reads the digits `s[from..]` as a number no greater than `limit`.
fn read_digits(s: &[char], from: usize, limit: u64) -> (r: Option<u64>)
    requires
        from <= s@.len(),
    ensures
        match r {
            Some(n) => from < s@.len() && all_digits(s@.skip(from as int)) && n == digits_value(
                s@.skip(from as int),
            ) && n <= limit,
            None => from == s@.len() || !all_digits(s@.skip(from as int)) || digits_value(
                s@.skip(from as int),
            ) > limit,
        },
{
    if from == s.len() {
        return None;
    }
    let ghost body = s@.skip(from as int);
    let mut acc: u64 = 0;
    let mut i: usize = from;
    let mut over: bool = false;
    while i < s.len()
        invariant
            from <= i <= s@.len(),
            body == s@.skip(from as int),
            all_digits(body.take(i - from)),
            !over ==> acc == digits_value(body.take(i - from)) && acc <= limit,
            over ==> digits_value(body.take(i - from)) > limit,
        decreases s@.len() - i,
    {
        let c = s[i];
        let ghost next = body.take(i - from + 1);
        proof {
            assert(next.drop_last() =~= body.take(i - from));
            assert(next.last() == c);
            lemma_digits_value_bounds(body.take(i - from));
        }
        if !('0' <= c && c <= '9') {
            proof {
                assert(body[i - from] == c);
            }
            return None;
        }
        proof {
            assert forall|k: int| 0 <= k < next.len() implies is_decimal_digit(#[trigger] next[k]) by {
                if k < i - from {
                    assert(body.take(i - from)[k] == next[k]);
                }
            }
        }
        let d: u64 = (c as u32 - '0' as u32) as u64;
        if !over {
            if limit < d || acc > (limit - d) / 10 {
                over = true;
                proof {
                    assert(acc * 10 + d > limit) by (nonlinear_arith)
                        requires
                            limit < d || acc > (limit - d) / 10,
                            0 <= d,
                            0 <= acc,
                            0 <= limit,
                    ;
                }
            } else {
                proof {
                    assert(acc * 10 + d <= limit) by (nonlinear_arith)
                        requires
                            acc <= (limit - d) / 10,
                            d <= limit,
                            0 <= d,
                            0 <= acc,
                    ;
                }
                acc = acc * 10 + d;
            }
        } else {
            proof {
                assert(digits_value(body.take(i - from)) * 10 + d > limit) by (nonlinear_arith)
                    requires
                        digits_value(body.take(i - from)) > limit,
                        0 <= d,
                        0 <= limit,
                ;
            }
        }
        i += 1;
    }
    proof {
        assert(body.take(s@.len() - from) =~= body);
    }
    if over {
        None
    } else {
        Some(acc)
    }
}

/// Reads a signed 64-bit integer in decimal notation.
pub fn parse_i64(s: &[char]) -> (r: Option<i64>)
    ensures
        match r {
            Some(n) => parse_bounded(s@, i64::MIN as int, i64::MAX as int) == Some(n as int),
            None => parse_bounded(s@, i64::MIN as int, i64::MAX as int) is None,
        },
{
    if s.len() == 0 {
        return None;
    }
    proof {
        assert(s@.skip(1) =~= s@.drop_first());
        assert(s@.skip(0) =~= s@);
    }
    if s[0] == '-' {
        match read_digits(s, 1, 9223372036854775808u64) {
            Some(n) => {
                if n == 9223372036854775808u64 {
                    Some(i64::MIN)
                } else {
                    Some(-(n as i64))
                }
            },
            None => {
                proof {
                    if s@.len() > 1 && all_digits(s@.skip(1)) {
                        lemma_digits_value_bounds(s@.skip(1));
                    }
                }
                None
            },
        }
    } else if s[0] == '+' {
        match read_digits(s, 1, 9223372036854775807u64) {
            Some(n) => Some(n as i64),
            None => {
                proof {
                    if s@.len() > 1 && all_digits(s@.skip(1)) {
                        lemma_digits_value_bounds(s@.skip(1));
                    }
                }
                None
            },
        }
    } else {
        match read_digits(s, 0, 9223372036854775807u64) {
            Some(n) => Some(n as i64),
            None => {
                proof {
                    if all_digits(s@) {
                        lemma_digits_value_bounds(s@);
                    }
                }
                None
            },
        }
    }
}

/// Reads a signed 32-bit integer in decimal notation.
pub fn parse_i32(s: &[char]) -> (r: Option<i32>)
    ensures
        match r {
            Some(n) => parse_bounded(s@, i32::MIN as int, i32::MAX as int) == Some(n as int),
            None => parse_bounded(s@, i32::MIN as int, i32::MAX as int) is None,
        },
{
    match parse_i64(s) {
        Some(n) => if -2147483648 <= n && n <= 2147483647 {
            Some(n as i32)
        } else {
            None
        },
        None => {
            proof {
                lemma_out_of_wider_range(s@);
            }
            None
        },
    }
}

proof fn lemma_out_of_wider_range(s: Seq<char>)
    requires
        parse_bounded(s, i64::MIN as int, i64::MAX as int) is None,
    ensures
        parse_bounded(s, i32::MIN as int, i32::MAX as int) is None,
{
}

/// Reads a natural number below `bound` in decimal notation; a minus sign is
/// not accepted.
pub fn parse_index(s: &[char], bound: u64) -> (r: Option<u64>)
    requires
        bound > 0,
    ensures
        match r {
            Some(n) => parse_unsigned(s@, bound - 1) == Some(n as int),
            None => parse_unsigned(s@, bound - 1) is None,
        },
{
    if s.len() == 0 {
        return None;
    }
    proof {
        assert(s@.skip(1) =~= s@.drop_first());
        assert(s@.skip(0) =~= s@);
    }
    if s[0] == '-' {
        None
    } else if s[0] == '+' {
        let r = read_digits(s, 1, bound - 1);
        proof {
            if s@.len() > 1 && all_digits(s@.skip(1)) {
                lemma_digits_value_bounds(s@.skip(1));
            }
        }
        r
    } else {
        let r = read_digits(s, 0, bound - 1);
        proof {
            if all_digits(s@) {
                lemma_digits_value_bounds(s@);
            }
        }
        r
    }
}

/// Writes a natural number in decimal notation.
pub fn format_u64(n: u64) -> (r: Vec<char>)
    ensures
        r@ == digits(n as int),
{
    let mut rev: Vec<char> = Vec::new();
    let mut m: u64 = n;
    while m >= 10
        invariant
            digits(n as int) == digits(m as int) + rev@.reverse(),
        decreases m,
    {
        let d: u8 = (m % 10) as u8;
        let c: char = (('0' as u8) + d) as char;
        proof {
            assert(digits(m as int) == digits(m as int / 10).push(digit_char(m as int % 10)));
            assert(rev@.push(c).reverse() =~= seq![c] + rev@.reverse());
            assert(digits(m as int) + rev@.reverse() =~= digits(m as int / 10) + (seq![c]
                + rev@.reverse()));
        }
        rev.push(c);
        m = m / 10;
    }
    let c: char = (('0' as u8) + (m as u8)) as char;
    let mut out: Vec<char> = Vec::new();
    out.push(c);
    let mut i: usize = rev.len();
    while i > 0
        invariant
            i <= rev@.len(),
            out@ == seq![c] + rev@.reverse().take(rev@.len() - i),
        decreases i,
    {
        i -= 1;
        out.push(rev[i]);
        proof {
            assert(rev@.reverse()[rev@.len() - 1 - i] == rev@[i as int]);
            assert(seq![c] + rev@.reverse().take(rev@.len() - i) =~= (seq![c]
                + rev@.reverse().take(rev@.len() - i - 1)).push(rev@[i as int]));
        }
    }
    proof {
        assert(rev@.reverse().take(rev@.len() as int) =~= rev@.reverse());
        assert(digits(m as int) =~= seq![c]);
    }
    out
}

/// Writes an integer in decimal notation.
pub fn format_i64(n: i64) -> (r: Vec<char>)
    ensures
        r@ == decimal(n as int),
{
    if n < 0 {
        let magnitude: u64 = if n == i64::MIN {
            9223372036854775808u64
        } else {
            (-n) as u64
        };
        let body = format_u64(magnitude);
        let mut out: Vec<char> = Vec::new();
        out.push('-');
        crate::text::push_all(&mut out, body.as_slice());
        proof {
            assert(out@ =~= seq!['-'] + digits(-(n as int)));
        }
        out
    } else {
        format_u64(n as u64)
    }
}

} // verus!
