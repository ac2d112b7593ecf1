//! Byte classes of the PDF syntax and small facts about byte sequences.

use vstd::prelude::*;

verus! {

// The bytes that the syntax names, by their names in ASCII.
pub const NUL: u8 = 0x00;
pub const BACKSPACE: u8 = 0x08;
pub const TAB: u8 = 0x09;
pub const LF: u8 = 0x0a;
pub const FF: u8 = 0x0c;
pub const CR: u8 = 0x0d;
pub const SPACE: u8 = 0x20;
pub const NUMBER_SIGN: u8 = 0x23;
pub const PERCENT: u8 = 0x25;
pub const LEFT_PAREN: u8 = 0x28;
pub const RIGHT_PAREN: u8 = 0x29;
pub const PLUS: u8 = 0x2b;
pub const MINUS: u8 = 0x2d;
pub const PERIOD: u8 = 0x2e;
pub const SOLIDUS: u8 = 0x2f;
pub const DIGIT_0: u8 = 0x30;
pub const DIGIT_7: u8 = 0x37;
pub const DIGIT_9: u8 = 0x39;
pub const LESS_THAN: u8 = 0x3c;
pub const GREATER_THAN: u8 = 0x3e;
pub const UPPER_A: u8 = 0x41;
pub const UPPER_F: u8 = 0x46;
pub const LEFT_BRACKET: u8 = 0x5b;
pub const BACKSLASH: u8 = 0x5c;
pub const RIGHT_BRACKET: u8 = 0x5d;
pub const LOWER_A: u8 = 0x61;
pub const LOWER_B: u8 = 0x62;
pub const LOWER_F: u8 = 0x66;
pub const LOWER_N: u8 = 0x6e;
pub const LOWER_R: u8 = 0x72;
pub const LOWER_T: u8 = 0x74;
pub const LEFT_BRACE: u8 = 0x7b;
pub const RIGHT_BRACE: u8 = 0x7d;

/// The six white-space bytes: NUL, TAB, LF, FF, CR and SPACE.
pub open spec fn is_whitespace(b: u8) -> bool {
    b == NUL || b == TAB || b == LF || b == FF || b == CR || b == SPACE
}

/// The ten delimiter bytes: `( ) < > [ ] { } / %`.
pub open spec fn is_delimiter(b: u8) -> bool {
    b == LEFT_PAREN || b == RIGHT_PAREN || b == LESS_THAN || b == GREATER_THAN
        || b == LEFT_BRACKET || b == RIGHT_BRACKET || b == LEFT_BRACE || b == RIGHT_BRACE
        || b == SOLIDUS || b == PERCENT
}

/// A normal byte is neither white space nor a delimiter.
pub open spec fn is_normal(b: u8) -> bool {
    !is_whitespace(b) && !is_delimiter(b)
}

/// An ASCII decimal digit.
pub open spec fn is_digit(b: u8) -> bool {
    DIGIT_0 <= b <= DIGIT_9
}

/// An ASCII octal digit.
pub open spec fn is_octal_digit(b: u8) -> bool {
    DIGIT_0 <= b <= DIGIT_7
}

/// The value of an ASCII hexadecimal digit, in either case.
pub open spec fn hex_value(b: u8) -> Option<u8> {
    if DIGIT_0 <= b <= DIGIT_9 {
        Some((b - DIGIT_0) as u8)
    } else if LOWER_A <= b <= LOWER_F {
        Some((b - LOWER_A + 10) as u8)
    } else if UPPER_A <= b <= UPPER_F {
        Some((b - UPPER_A + 10) as u8)
    } else {
        None
    }
}

/// A byte that may begin or continue a numeric literal: a digit, `.`, `+` or `-`.
pub open spec fn is_numeric(b: u8) -> bool {
    is_digit(b) || b == PERIOD || b == PLUS || b == MINUS
}

/// The sets of bytes by which the syntax is cut into runs.
#[derive(Clone, Copy, Debug, PartialEq, Eq, Structural)]
pub enum ByteSet {
    Whitespace,
    Delimiter,
    Normal,
    Digit,
    Numeric,
}

impl ByteSet {
    /// Whether `b` belongs to this set.
    pub open spec fn contains(self, b: u8) -> bool {
        match self {
            ByteSet::Whitespace => is_whitespace(b),
            ByteSet::Delimiter => is_delimiter(b),
            ByteSet::Normal => is_normal(b),
            ByteSet::Digit => is_digit(b),
            ByteSet::Numeric => is_numeric(b),
        }
    }

    /// Tests whether `b` belongs to this set.
    pub fn holds(&self, b: u8) -> (r: bool)
        ensures
            r == self.contains(b),
    {
        match self {
            ByteSet::Whitespace => whitespace(b),
            ByteSet::Delimiter => delimiter(b),
            ByteSet::Normal => !whitespace(b) && !delimiter(b),
            ByteSet::Digit => digit(b),
            ByteSet::Numeric => numeric(b),
        }
    }
}

/// Tests whether `b` is white space.
pub fn whitespace(b: u8) -> (r: bool)
    ensures
        r == is_whitespace(b),
{
    b == NUL || b == TAB || b == LF || b == FF || b == CR || b == SPACE
}

/// Tests whether `b` is a delimiter.
pub fn delimiter(b: u8) -> (r: bool)
    ensures
        r == is_delimiter(b),
{
    b == LEFT_PAREN || b == RIGHT_PAREN || b == LESS_THAN || b == GREATER_THAN
        || b == LEFT_BRACKET || b == RIGHT_BRACKET || b == LEFT_BRACE || b == RIGHT_BRACE
        || b == SOLIDUS || b == PERCENT
}

/// Tests whether `b` is a decimal digit.
pub fn digit(b: u8) -> (r: bool)
    ensures
        r == is_digit(b),
{
    DIGIT_0 <= b && b <= DIGIT_9
}

/// Tests whether `b` is an octal digit.
pub fn octal_digit(b: u8) -> (r: bool)
    ensures
        r == is_octal_digit(b),
{
    DIGIT_0 <= b && b <= DIGIT_7
}

/// Tests whether `b` may stand in a numeric literal.
pub fn numeric(b: u8) -> (r: bool)
    ensures
        r == is_numeric(b),
{
    digit(b) || b == PERIOD || b == PLUS || b == MINUS
}

/// The value of a hexadecimal digit, or `None` for any other byte.
pub fn hex_digit(b: u8) -> (r: Option<u8>)
    ensures
        r == hex_value(b),
        r matches Some(v) ==> v < 16,
{
    if DIGIT_0 <= b && b <= DIGIT_9 {
        Some(b - DIGIT_0)
    } else if LOWER_A <= b && b <= LOWER_F {
        Some(b - LOWER_A + 10)
    } else if UPPER_A <= b && b <= UPPER_F {
        Some(b - UPPER_A + 10)
    } else {
        None
    }
}

/// Whether `pattern` stands in `data` at position `pos`.
pub open spec fn matches_at(data: Seq<u8>, pos: int, pattern: Seq<u8>) -> bool {
    &&& 0 <= pos
    &&& pos + pattern.len() <= data.len()
    &&& data.subrange(pos, pos + pattern.len()) == pattern
}

/// Every byte is of exactly one of three classes: white space, delimiter, normal.
/// Digits and the other bytes of numbers are normal bytes.
pub proof fn lemma_classes_partition(b: u8)
    ensures
        is_whitespace(b) || is_delimiter(b) || is_normal(b),
        !(is_whitespace(b) && is_delimiter(b)),
        !(is_whitespace(b) && is_normal(b)),
        !(is_delimiter(b) && is_normal(b)),
        is_digit(b) ==> is_numeric(b),
        is_numeric(b) ==> is_normal(b),
        hex_value(b) is Some ==> is_normal(b),
{
}

/// Tests whether `pattern` stands in `data` at `pos`.
pub fn starts_with_at(data: &[u8], pos: usize, pattern: &[u8]) -> (r: bool)
    ensures
        r == matches_at(data@, pos as int, pattern@),
{
    if pos > data.len() || pattern.len() > data.len() - pos {
        return false;
    }
    let mut i: usize = 0;
    while i < pattern.len()
        invariant
            pos + pattern.len() <= data.len(),
            i <= pattern.len(),
            forall|j: int| 0 <= j < i ==> data@[pos + j] == pattern@[j],
        decreases pattern.len() - i,
    {
        if data[pos + i] != pattern[i] {
            proof {
                let sub = data@.subrange(pos as int, pos + pattern.len());
                assert(sub[i as int] == data@[pos + i]);
            }
            return false;
        }
        i += 1;
    }
    assert(data@.subrange(pos as int, pos + pattern.len()) =~= pattern@);
    true
}

/// Tests whether two byte strings are the same.
pub fn bytes_eq(a: &[u8], b: &[u8]) -> (r: bool)
    ensures
        r == (a@ == b@),
{
    if a.len() != b.len() {
        return false;
    }
    let mut i: usize = 0;
    while i < a.len()
        invariant
            a.len() == b.len(),
            i <= a.len(),
            forall|j: int| 0 <= j < i ==> a@[j] == b@[j],
        decreases a.len() - i,
    {
        if a[i] != b[i] {
            return false;
        }
        i += 1;
    }
    assert(a@ =~= b@);
    true
}

/// The bytes of `data` from `from` up to `to`, or none where that is no range
/// within the data.
pub open spec fn raw(data: Seq<u8>, from: int, to: int) -> Seq<u8> {
    if 0 <= from <= to <= data.len() {
        data.subrange(from, to)
    } else {
        Seq::empty()
    }
}

/// The bytes of `data` from `from` up to `to`.
pub fn raw_slice<'a>(data: &'a [u8], from: usize, to: usize) -> (r: &'a [u8])
    ensures
        r@ == raw(data@, from as int, to as int),
{
    if from <= to && to <= data.len() {
        vstd::slice::slice_subrange(data, from, to)
    } else {
        let r = vstd::slice::slice_subrange(data, 0, 0);
        assert(r@ =~= Seq::<u8>::empty());
        r
    }
}

} // verus!
