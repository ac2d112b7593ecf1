//! Numeric literals: which runs of digits, signs and points are integers,
//! which are reals, and which are neither.

use crate::bytes::{digit, is_digit, DIGIT_0, MINUS, PERIOD, PLUS};
use crate::token::{Lexeme, Token};
use vstd::prelude::*;
use vstd::slice::slice_subrange;

verus! {

/// The number that a run of decimal digits denotes.
pub open spec fn decimal_value(digits: Seq<u8>) -> nat
    decreases digits.len(),
{
    if digits.len() == 0 {
        0
    } else {
        decimal_value(digits.drop_last()) * 10 + digit_value(digits.last())
    }
}

/// The value of one decimal digit.
pub open spec fn digit_value(b: u8) -> nat {
    if is_digit(b) {
        (b - DIGIT_0) as nat
    } else {
        0
    }
}

/// Every byte of `text` is a decimal digit.
pub open spec fn all_digits(text: Seq<u8>) -> bool {
    forall|i: int| 0 <= i < text.len() ==> is_digit(#[trigger] text[i])
}

/// The number that `text` denotes where it is one or more decimal digits and
/// that number is no more than `limit`.
pub open spec fn bounded_decimal(text: Seq<u8>, limit: u64) -> Option<u64> {
    if text.len() > 0 && all_digits(text) && decimal_value(text) <= limit {
        Some(decimal_value(text) as u64)
    } else {
        None
    }
}

/// `text` begins with `+` or `-`.
pub open spec fn has_sign(text: Seq<u8>) -> bool {
    text.len() > 0 && (text[0] == PLUS || text[0] == MINUS)
}

/// `text` without its sign, if it has one.
pub open spec fn unsigned_part(text: Seq<u8>) -> Seq<u8> {
    if has_sign(text) {
        text.subrange(1, text.len() as int)
    } else {
        text
    }
}

/// The integer that `text` denotes: an optional sign, then one or more
/// digits, the value within the range of `i64`.
pub open spec fn integer_value(text: Seq<u8>) -> Option<i64> {
    let body = unsigned_part(text);
    let magnitude = decimal_value(body) as int;
    let value = if has_sign(text) && text[0] == MINUS {
        -magnitude
    } else {
        magnitude
    };
    if body.len() > 0 && all_digits(body) && i64::MIN <= value <= i64::MAX {
        Some(value as i64)
    } else {
        None
    }
}

/// `body` is made of digits and at most one point, with at least one digit.
pub open spec fn is_real_body(body: Seq<u8>) -> bool {
    &&& forall|i: int| 0 <= i < body.len() ==> is_digit(#[trigger] body[i]) || body[i] == PERIOD
    &&& exists|i: int| 0 <= i < body.len() && is_digit(#[trigger] body[i])
    &&& forall|i: int, j: int|
        0 <= i < j < body.len() ==> !(#[trigger] body[i] == PERIOD && #[trigger] body[j] == PERIOD)
}

/// `text` is a real literal: an optional sign, then digits with at most one
/// point among them.
pub open spec fn is_real(text: Seq<u8>) -> bool {
    is_real_body(unsigned_part(text))
}

/// The token that a numeric literal stands for: an integer where it is one,
/// else a real where it is one.
pub open spec fn number_lexeme(text: Seq<u8>) -> Option<Lexeme> {
    match integer_value(text) {
        Some(i) => Some(Lexeme::Int(i)),
        None => if is_real(text) {
            Some(Lexeme::Real(text))
        } else {
            None
        },
    }
}

/// A run of digits denotes no less than any of its prefixes.
pub proof fn lemma_decimal_value_prefix(digits: Seq<u8>, k: int)
    requires
        0 <= k <= digits.len(),
    ensures
        decimal_value(digits.subrange(0, k)) <= decimal_value(digits),
    decreases digits.len() - k,
{
    if k == digits.len() {
        assert(digits.subrange(0, k) =~= digits);
    } else {
        lemma_decimal_value_prefix(digits.drop_last(), k);
        assert(digits.drop_last().subrange(0, k) =~= digits.subrange(0, k));
    }
}

/// Reads `text` as a run of decimal digits that denotes no more than `limit`.
#[verifier::loop_isolation(false)]
pub fn parse_decimal(text: &[u8], limit: u64) -> (r: Option<u64>)
    ensures
        r == bounded_decimal(text@, limit),
{
    if text.len() == 0 {
        return None;
    }
    let mut magnitude: u64 = 0;
    let mut i: usize = 0;
    while i < text.len()
        invariant
            i <= text.len(),
            all_digits(text@.subrange(0, i as int)),
            magnitude == decimal_value(text@.subrange(0, i as int)),
            magnitude <= limit,
        decreases text.len() - i,
    {
        let b = text[i];
        if !digit(b) {
            return None;
        }
        let next: u128 = magnitude as u128 * 10 + (b - DIGIT_0) as u128;
        proof {
            let longer = text@.subrange(0, i + 1);
            assert(longer.drop_last() =~= text@.subrange(0, i as int));
            assert(longer.last() == b);
            assert(next == decimal_value(longer));
            assert forall|j: int| 0 <= j < longer.len() implies is_digit(#[trigger] longer[j]) by {
                if j < i {
                    assert(text@.subrange(0, i as int)[j] == longer[j]);
                }
            }
            lemma_decimal_value_prefix(text@, i + 1);
        }
        if next > limit as u128 {
            return None;
        }
        magnitude = next as u64;
        i += 1;
    }
    assert(text@.subrange(0, i as int) =~= text@);
    Some(magnitude)
}

/// Reads `text` as an integer.
pub fn parse_integer(text: &[u8]) -> (r: Option<i64>)
    ensures
        r == integer_value(text@),
{
    let n = text.len();
    if n == 0 {
        return None;
    }
    let negative = text[0] == MINUS;
    let signed = text[0] == PLUS || text[0] == MINUS;
    let body = if signed {
        slice_subrange(text, 1, n)
    } else {
        text
    };
    assert(body@ == unsigned_part(text@));
    let limit: u64 = if negative {
        0x8000_0000_0000_0000
    } else {
        0x7fff_ffff_ffff_ffff
    };
    match parse_decimal(body, limit) {
        None => None,
        Some(magnitude) => {
            if negative {
                if magnitude == 0x8000_0000_0000_0000 {
                    Some(i64::MIN)
                } else {
                    Some(-(magnitude as i64))
                }
            } else {
                Some(magnitude as i64)
            }
        },
    }
}

/// Tests whether `text` is a real literal.
#[verifier::loop_isolation(false)]
pub fn is_real_literal(text: &[u8]) -> (r: bool)
    ensures
        r == is_real(text@),
{
    let n = text.len();
    let signed = n > 0 && (text[0] == PLUS || text[0] == MINUS);
    let body = if signed {
        slice_subrange(text, 1, n)
    } else {
        text
    };
    assert(body@ == unsigned_part(text@));
    let mut seen_digit = false;
    let mut seen_point = false;
    let mut i: usize = 0;
    while i < body.len()
        invariant
            i <= body.len(),
            forall|j: int| 0 <= j < i ==> is_digit(#[trigger] body@[j]) || body@[j] == PERIOD,
            seen_digit <==> exists|j: int| 0 <= j < i && is_digit(#[trigger] body@[j]),
            seen_point <==> exists|j: int| 0 <= j < i && #[trigger] body@[j] == PERIOD,
            forall|j: int, k: int|
                0 <= j < k < i ==> !(#[trigger] body@[j] == PERIOD && #[trigger] body@[k] == PERIOD),
        decreases body.len() - i,
    {
        let b = body[i];
        if digit(b) {
            seen_digit = true;
        } else if b == PERIOD {
            if seen_point {
                proof {
                    let j = choose|j: int| 0 <= j < i && #[trigger] body@[j] == PERIOD;
                    assert(body@[j] == PERIOD && body@[i as int] == PERIOD);
                }
                return false;
            }
            seen_point = true;
        } else {
            assert(!is_digit(body@[i as int]) && body@[i as int] != PERIOD);
            return false;
        }
        i += 1;
    }
    seen_digit
}

/// The token that the numeric literal `text` stands for, or `None` where it
/// is neither an integer nor a real.
pub fn number_token(text: Vec<u8>) -> (r: Option<Token>)
    ensures
        match r {
            Some(token) => number_lexeme(text@) == Some(token@),
            None => number_lexeme(text@) is None,
        },
{
    match parse_integer(text.as_slice()) {
        Some(i) => Some(Token::Int(i)),
        None => {
            if is_real_literal(text.as_slice()) {
                Some(Token::Real(text))
            } else {
                None
            }
        },
    }
}

} // verus!
