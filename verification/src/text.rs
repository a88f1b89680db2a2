//! Tokenising helpers: whitespace splitting and decimal number parsing.

use vstd::prelude::*;
use vstd::string::*;

verus! {

pub open spec fn is_ws(c: char) -> bool {
    c == ' ' || c == '\t' || c == '\r' || c == '\n'
}

/// The first index at or after `i` holding whitespace, or the end.
pub open spec fn token_end(s: Seq<char>, i: int) -> int
    decreases s.len() - i,
{
    if i < 0 || i >= s.len() || is_ws(s[i]) {
        i
    } else {
        token_end(s, i + 1)
    }
}

pub proof fn lemma_token_end(s: Seq<char>, i: int)
    requires
        0 <= i <= s.len(),
    ensures
        i <= token_end(s, i) <= s.len(),
        forall|j: int| i <= j < token_end(s, i) ==> !is_ws(s[j]),
        token_end(s, i) < s.len() ==> is_ws(s[token_end(s, i)]),
        i < s.len() && !is_ws(s[i]) ==> token_end(s, i) > i,
    decreases s.len() - i,
{
    if i < s.len() && !is_ws(s[i]) {
        lemma_token_end(s, i + 1);
    }
}

/// A scan that stopped at `e` stopped at the token end.
pub proof fn lemma_token_end_at(s: Seq<char>, i: int, e: int)
    requires
        0 <= i <= e <= s.len(),
        forall|j: int| i <= j < e ==> !is_ws(s[j]),
        e == s.len() || is_ws(s[e]),
    ensures
        token_end(s, i) == e,
    decreases e - i,
{
    if i < e {
        lemma_token_end_at(s, i + 1, e);
    }
}

/// The whitespace-separated tokens of `s` from index `i` on.
pub open spec fn split_ws_from(s: Seq<char>, i: int) -> Seq<Seq<char>>
    decreases s.len() - i,
    via split_ws_from_decreases
{
    if i < 0 || i >= s.len() {
        Seq::empty()
    } else if is_ws(s[i]) {
        split_ws_from(s, i + 1)
    } else {
        seq![s.subrange(i, token_end(s, i))] + split_ws_from(s, token_end(s, i))
    }
}

#[via_fn]
proof fn split_ws_from_decreases(s: Seq<char>, i: int) {
    if 0 <= i < s.len() {
        lemma_token_end(s, i);
    }
}

/// The whitespace-separated tokens of `s`.
pub open spec fn spec_split_ws(s: Seq<char>) -> Seq<Seq<char>> {
    split_ws_from(s, 0)
}

/// Whether a character is whitespace.
pub fn ws_char(c: char) -> (r: bool)
    ensures
        r == is_ws(c),
{
    c == ' ' || c == '\t' || c == '\r' || c == '\n'
}

/// Splits a line into whitespace-separated tokens.
pub fn split_ws(s: &str) -> (r: Vec<String>)
    ensures
        r.deep_view() == spec_split_ws(s@),
{
    let n = s.unicode_len();
    let mut r: Vec<String> = Vec::new();
    let mut i: usize = 0;
    while i < n
        invariant
            n == s@.len(),
            0 <= i <= n,
            r.deep_view() + split_ws_from(s@, i as int) == spec_split_ws(s@),
        decreases n - i,
    {
        let c = s.get_char(i);
        if c == ' ' || c == '\t' || c == '\r' || c == '\n' {
            i = i + 1;
        } else {
            let start = i;
            i = i + 1;
            while i < n && !ws_char(s.get_char(i))
                invariant
                    n == s@.len(),
                    0 <= start < i <= n,
                    forall|j: int| start <= j < i ==> !is_ws(s@[j]),
                decreases n - i,
            {
                i = i + 1;
            }
            proof {
                lemma_token_end_at(s@, start as int, i as int);
            }
            let tok = String::from_str(s.substring_char(start, i));
            let ghost old_r = r.deep_view();
            r.push(tok);
            proof {
                assert(r.deep_view() =~= old_r + seq![tok@]);
                assert(old_r + seq![tok@] + split_ws_from(s@, i as int) =~= old_r + (seq![tok@]
                    + split_ws_from(s@, i as int)));
            }
        }
    }
    r
}

pub open spec fn is_digit(c: char) -> bool {
    '0' <= c <= '9'
}

pub open spec fn digit_val(c: char) -> int {
    if is_digit(c) {
        c as int - '0' as int
    } else {
        0
    }
}

/// The value of an all-digit sequence read left to right.
pub open spec fn digits_val(s: Seq<char>, n: int) -> int
    decreases n,
{
    if n <= 0 {
        0
    } else {
        digits_val(s, n - 1) * 10 + digit_val(s[n - 1])
    }
}

pub open spec fn all_digits(s: Seq<char>) -> bool {
    forall|j: int| 0 <= j < s.len() ==> is_digit(s[j])
}

/// What `parse_u16` yields: the value of a non-empty digit string that fits.
pub open spec fn spec_parse_u16(s: Seq<char>) -> Option<u16> {
    if s.len() > 0 && all_digits(s) && digits_val(s, s.len() as int) <= 0xffff {
        Some(digits_val(s, s.len() as int) as u16)
    } else {
        None
    }
}

/// Reads a decimal number that fits a `u16`.
pub fn parse_u16(s: &str) -> (r: Option<u16>)
    ensures
        r == spec_parse_u16(s@),
{
    let n = s.unicode_len();
    if n == 0 {
        return None;
    }
    let mut value: u32 = 0;
    let mut i: usize = 0;
    while i < n
        invariant
            n == s@.len(),
            0 <= i <= n,
            forall|j: int| 0 <= j < i ==> is_digit(s@[j]),
            value == digits_val(s@, i as int),
            value <= 0xffff,
        decreases n - i,
    {
        let c = s.get_char(i);
        let v = c as u32;
        if v < 48 || v > 57 {
            return None;
        }
        value = value * 10 + (v - 48);
        if value > 0xffff {
            proof {
                assert(digits_val(s@, i + 1) > 0xffff);
                lemma_digits_grow_limit(s@, i + 1, s@.len() as int, 0xffff);
            }
            return None;
        }
        i = i + 1;
    }
    Some(value as u16)
}


/// What `parse_i32` yields: an optional minus sign and digits, fitting `i32`.
pub open spec fn spec_parse_i32(s: Seq<char>) -> Option<i32> {
    if s.len() > 0 && s[0] == '-' {
        let d = s.subrange(1, s.len() as int);
        if d.len() > 0 && all_digits(d) && digits_val(d, d.len() as int) <= 0x8000_0000 {
            Some((-digits_val(d, d.len() as int)) as i32)
        } else {
            None
        }
    } else if s.len() > 0 && all_digits(s) && digits_val(s, s.len() as int) <= 0x7fff_ffff {
        Some(digits_val(s, s.len() as int) as i32)
    } else {
        None
    }
}

/// Reads a signed decimal number that fits an `i32`.
pub fn parse_i32(s: &str) -> (r: Option<i32>)
    ensures
        r == spec_parse_i32(s@),
{
    let n = s.unicode_len();
    if n == 0 {
        return None;
    }
    let negative = s.get_char(0) == '-';
    let start: usize = if negative {
        1
    } else {
        0
    };
    let ghost d = if negative {
        s@.subrange(1, s@.len() as int)
    } else {
        s@
    };
    if start >= n {
        return None;
    }
    let limit: u32 = if negative {
        0x8000_0000
    } else {
        0x7fff_ffff
    };
    let mut value: u32 = 0;
    let mut i: usize = start;
    while i < n
        invariant
            n == s@.len(),
            start <= i <= n,
            start == if negative {
                1int
            } else {
                0int
            },
            start < n,
            d == if negative {
                s@.subrange(1, s@.len() as int)
            } else {
                s@
            },
            limit == if negative {
                0x8000_0000u32
            } else {
                0x7fff_ffffu32
            },
            negative ==> s@[0] == '-',
            !negative ==> s@[0] != '-',
            forall|j: int| 0 <= j < i - start ==> is_digit(d[j]),
            value == digits_val(d, i - start),
            value <= limit,
        decreases n - i,
    {
        let c = s.get_char(i);
        let v = c as u32;
        proof {
            assert(d[i - start] == s@[i as int]);
        }
        if v < 48 || v > 57 {
            return None;
        }
        if value > (limit - (v - 48)) / 10 {
            proof {
                assert(value * 10 + (v - 48) > limit) by (nonlinear_arith)
                    requires
                        value > (limit - (v - 48)) / 10,
                        48 <= v <= 57,
                        limit >= 10,
                ;
                assert(digits_val(d, i - start + 1) > limit);
                lemma_digits_grow_limit(d, i - start + 1, d.len() as int, limit as int);
            }
            return None;
        }
        value = value * 10 + (v - 48);
        i = i + 1;
    }
    proof {
        assert(d.len() == n - start);
    }
    if negative {
        if value == 0x8000_0000 {
            return Some(i32::MIN);
        }
        return Some(-(value as i32));
    }
    Some(value as i32)
}

/// Once past a limit, digit values stay past it as more digits are read.
proof fn lemma_digits_grow_limit(s: Seq<char>, i: int, n: int, limit: int)
    requires
        0 <= i <= n <= s.len(),
        limit >= 0,
        digits_val(s, i) > limit,
    ensures
        digits_val(s, n) > limit,
    decreases n - i,
{
    if i < n {
        let v = digits_val(s, i);
        let d = digit_val(s[i]);
        assert(digits_val(s, i + 1) == v * 10 + d);
        assert(v * 10 + d > limit) by (nonlinear_arith)
            requires
                v > limit,
                limit >= 0,
                d >= 0,
        ;
        lemma_digits_grow_limit(s, i + 1, n, limit);
    }
}

} // verus!
