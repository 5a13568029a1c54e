//! The single-shot status/header capture object and status-line parsing.
//!
//! The application commits a status line (`<code> <reason phrase>`) and an
//! ordered header list through one call on the collector; the gateway reads
//! them only after the invocation has returned, and reads the status code
//! out of the line's leading token.

use vstd::prelude::*;
use crate::scan::{find_byte, find_byte_in, lemma_find_byte_bounds};

verus! {

/// Separator between the code and the reason phrase of a status line.
pub const TOKEN_SEPARATOR: u8 = 32;

/// Lowest and highest byte of a decimal digit.
pub const DIGIT_ZERO: u8 = 48;

pub const DIGIT_NINE: u8 = 57;

/// The leading token of a status line: everything before the first space.
pub open spec fn leading_token(status: Seq<u8>) -> Seq<u8> {
    status.take(find_byte(status, TOKEN_SEPARATOR))
}

/// Is every byte of `s` a decimal digit?
pub open spec fn all_digits(s: Seq<u8>) -> bool {
    forall|j: int| 0 <= j < s.len() ==> DIGIT_ZERO <= #[trigger] s[j] <= DIGIT_NINE
}

/// The numeric value of a run of decimal digits.
pub open spec fn decimal_value(s: Seq<u8>) -> int
    decreases s.len(),
{
    if s.len() == 0 {
        0
    } else {
        10 * decimal_value(s.drop_last()) + (s.last() - DIGIT_ZERO)
    }
}

/// The status code of a captured status line: its leading token read as a
/// decimal integer, provided the token is a non-empty run of digits whose
/// value fits a 16-bit code; anything else (in particular the empty status
/// line of a collector that was never called) has none.
pub open spec fn status_code_of(status: Seq<u8>) -> Option<u16> {
    let tok = leading_token(status);
    if tok.len() > 0 && all_digits(tok) && decimal_value(tok) <= 65535 {
        Option::Some(decimal_value(tok) as u16)
    } else {
        Option::None
    }
}

/// The value of a digit run is never negative.
pub proof fn lemma_decimal_nonneg(s: Seq<u8>)
    requires
        all_digits(s),
    ensures
        decimal_value(s) >= 0,
    decreases s.len(),
{
    if s.len() > 0 {
        lemma_decimal_nonneg(s.drop_last());
    }
}

/// Appending digits never shrinks the value: the value of a digit run is at
/// least the value of any of its prefixes.
pub proof fn lemma_decimal_prefix_le(s: Seq<u8>, k: int)
    requires
        all_digits(s),
        0 <= k <= s.len(),
    ensures
        decimal_value(s.take(k)) <= decimal_value(s),
    decreases s.len() - k,
{
    if k == s.len() {
        assert(s.take(k) =~= s);
    } else {
        lemma_decimal_prefix_le(s, k + 1);
        assert(s.take(k + 1).drop_last() =~= s.take(k));
        assert(decimal_value(s.take(k + 1)) == 10 * decimal_value(s.take(k)) + (s[k]
            - DIGIT_ZERO));
        assert(all_digits(s.take(k)));
        lemma_decimal_nonneg(s.take(k));
    }
}

/// The status code of a status line, or nothing when the leading token is
/// empty or not a digit run whose value fits a 16-bit code.
pub fn parse_status_code(status: &Vec<u8>) -> (r: Option<u16>)
    ensures
        r == status_code_of(status@),
{
    proof {
        lemma_find_byte_bounds(status@, TOKEN_SEPARATOR);
    }
    let ghost tok = leading_token(status@);
    let t: usize = find_byte_in(status, TOKEN_SEPARATOR);
    if t == 0 {
        return None;
    }
    let mut i: usize = 0;
    while i < t
        invariant
            t <= status@.len(),
            find_byte(status@, TOKEN_SEPARATOR) == t,
            tok == leading_token(status@),
            tok.len() == t,
            0 <= i <= t,
            forall|j: int| 0 <= j < i ==> DIGIT_ZERO <= #[trigger] tok[j] <= DIGIT_NINE,
        decreases t - i,
    {
        let b: u8 = status[i];
        proof {
            assert(tok[i as int] == status@[i as int]);
        }
        if b < DIGIT_ZERO || b > DIGIT_NINE {
            return None;
        }
        i = i + 1;
    }
    assert(all_digits(tok));
    let mut value: u32 = 0;
    let mut k: usize = 0;
    while k < t
        invariant
            t <= status@.len(),
            find_byte(status@, TOKEN_SEPARATOR) == t,
            tok == leading_token(status@),
            tok.len() == t,
            all_digits(tok),
            0 <= k <= t,
            value == decimal_value(tok.take(k as int)),
            value <= 65535,
        decreases t - k,
    {
        let b: u8 = status[k];
        proof {
            assert(tok[k as int] == status@[k as int]);
            assert(tok.take(k as int + 1).drop_last() =~= tok.take(k as int));
        }
        value = 10 * value + (b - DIGIT_ZERO) as u32;
        if value > 65535 {
            proof {
                lemma_decimal_prefix_le(tok, k as int + 1);
            }
            return None;
        }
        k = k + 1;
    }
    proof {
        assert(tok.take(t as int) =~= tok);
    }
    Some(value as u16)
}

/// Single-shot response-start capability handed to the application: it
/// captures the status line and the ordered header pairs of one call.
/// Both start empty; when the application calls more than once, the last
/// call's values win. The gateway reads the captured state only after the
/// invocation has returned; a collector whose status line is still empty
/// was never called, which the gateway treats as an invocation failure.
pub struct ResponseCollector {
    pub status: Vec<u8>,
    pub headers: Vec<(Vec<u8>, Vec<u8>)>,
}

impl ResponseCollector {
    /// A collector with nothing captured yet.
    pub fn new() -> (c: Self)
        ensures
            c.status@ == Seq::<u8>::empty(),
            c.headers@ == Seq::<(Vec<u8>, Vec<u8>)>::empty(),
    {
        ResponseCollector { status: Vec::new(), headers: Vec::new() }
    }

    /// The application's call: capture the status line and header pairs,
    /// overwriting whatever an earlier call left behind.
    pub fn call(&mut self, status: Vec<u8>, headers: Vec<(Vec<u8>, Vec<u8>)>)
        ensures
            final(self).status == status,
            final(self).headers == headers,
    {
        self.status = status;
        self.headers = headers;
    }
}

} // verus!
