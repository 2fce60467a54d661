//! Decimal text of an unsigned machine integer, as `str::parse::<usize>`
//! accepts it: an optional `+`, then digits, with overflow checked digit by
//! digit from the left.

use vstd::prelude::*;

use crate::float_text::{digit_of, is_ascii_digit};
use crate::text::chars_of;

verus! {

/// Why a text is not a `usize` (the kinds of `ParseIntError` that can arise).
#[derive(Clone, Copy, Debug, PartialEq, Eq, Structural)]
pub enum IntParseError {
    Empty,
    InvalidDigit,
    PosOverflow,
}

/// Reads digits of `s` from `i` on, with `acc` the value read so far.
pub open spec fn parse_usize_from(s: Seq<char>, i: int, acc: nat) -> Result<nat, IntParseError>
    decreases s.len() - i,
{
    if i >= s.len() {
        Ok(acc)
    } else if !is_ascii_digit(s[i]) {
        Err(IntParseError::InvalidDigit)
    } else if acc * 10 + digit_of(s[i]) > usize::MAX {
        Err(IntParseError::PosOverflow)
    } else {
        parse_usize_from(s, i + 1, acc * 10 + digit_of(s[i]) as nat)
    }
}

/// `str::parse::<usize>`.
pub open spec fn parse_usize_text(s: Seq<char>) -> Result<nat, IntParseError> {
    if s.len() == 0 {
        Err(IntParseError::Empty)
    } else if (s[0] == '+' || s[0] == '-') && s.len() == 1 {
        Err(IntParseError::InvalidDigit)
    } else if s[0] == '+' {
        parse_usize_from(s, 1, 0)
    } else {
        parse_usize_from(s, 0, 0)
    }
}

/// Parses a `usize` by the rules of `parse_usize_text`.
pub fn parse_usize(text: &str) -> (r: Result<usize, IntParseError>)
    ensures
        match r {
            Ok(n) => parse_usize_text(text@) == Ok::<nat, IntParseError>(n as nat),
            Err(e) => parse_usize_text(text@) == Err::<nat, IntParseError>(e),
        },
{
    let v = chars_of(text);
    if v.len() == 0 {
        return Err(IntParseError::Empty);
    }
    if (v[0] == '+' || v[0] == '-') && v.len() == 1 {
        return Err(IntParseError::InvalidDigit);
    }
    let mut i: usize = if v[0] == '+' {
        1
    } else {
        0
    };
    let mut acc: usize = 0;
    while i < v.len()
        invariant
            i <= v.len(),
            v@ == text@,
            parse_usize_text(text@) == parse_usize_from(v@, i as int, acc as nat),
        decreases v.len() - i,
    {
        let c = v[i];
        if !('0' <= c && c <= '9') {
            return Err(IntParseError::InvalidDigit);
        }
        let d = (c as u32 - '0' as u32) as usize;
        assert(d == digit_of(c));
        if acc > (usize::MAX - d) / 10 {
            assert(acc * 10 + d > usize::MAX) by (nonlinear_arith)
                requires
                    acc > (usize::MAX - d) / 10,
                    d <= 9,
            ;
            return Err(IntParseError::PosOverflow);
        }
        assert(acc * 10 + d <= usize::MAX) by (nonlinear_arith)
            requires
                acc <= (usize::MAX - d) / 10,
                d <= 9,
        ;
        acc = acc * 10 + d;
        i = i + 1;
    }
    Ok(acc)
}

} // verus!
