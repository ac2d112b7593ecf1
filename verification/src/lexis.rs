//! The token grammar, as functions from the bytes of a file and a position
//! in it to what stands there.

use crate::bytes::{
    hex_value, is_normal, is_numeric, is_octal_digit, is_whitespace, matches_at, ByteSet,
    BACKSLASH, BACKSPACE, CR, DIGIT_0, FF, GREATER_THAN, LEFT_BRACKET, LEFT_PAREN, LESS_THAN, LF,
    LOWER_B, LOWER_F, LOWER_N, LOWER_R, LOWER_T, NUMBER_SIGN, RIGHT_BRACKET, RIGHT_PAREN, SOLIDUS,
    TAB,
};
use crate::error::{failure, ParseError, ParseErrorKind};
use crate::number::number_lexeme;
use crate::token::{Keyword, Lexeme};
use vstd::prelude::*;

verus! {

/// The state of the tokenizer.
#[derive(Clone, Copy, Debug, PartialEq, Eq, Structural)]
pub enum LexMode {
    /// The header has not been read yet.
    Skip,
    /// Tokens are read as the grammar has them.
    Lex,
    /// The `stream` keyword was the last token: the next one is the raw
    /// stream body.
    Stream,
}

/// A token and the position behind it, or the reason why there is none.
pub type Lexed = Result<(Lexeme, int), ParseError>;

/// The character at `pos` and the position behind it. A carriage return, alone
/// or followed by a line feed, reads as one line feed.
pub open spec fn char_at(data: Seq<u8>, pos: int) -> Option<(u8, int)> {
    if 0 <= pos < data.len() {
        if data[pos] == CR {
            if pos + 1 < data.len() && data[pos + 1] == LF {
                Some((LF, pos + 2))
            } else {
                Some((LF, pos + 1))
            }
        } else {
            Some((data[pos], pos + 1))
        }
    } else {
        None
    }
}

/// The character at `pos`, read towards the start of the data, and the
/// position before it. A line feed preceded by a carriage return, or a
/// carriage return alone, reads as one line feed. There is none where no
/// position is left to step back to.
pub open spec fn char_before(data: Seq<u8>, pos: int) -> Option<(u8, int)> {
    if 1 <= pos < data.len() {
        if data[pos] == LF && data[pos - 1] == CR {
            if pos >= 2 {
                Some((LF, pos - 2))
            } else {
                None
            }
        } else if data[pos] == CR {
            Some((LF, pos - 1))
        } else {
            Some((data[pos], pos - 1))
        }
    } else {
        None
    }
}

/// The position reached from `pos` after `n` characters, or the end of the
/// data where fewer are left.
pub open spec fn advance(data: Seq<u8>, pos: int, n: nat) -> int
    decreases n,
{
    if n == 0 {
        pos
    } else {
        match char_at(data, pos) {
            Some((_, next)) => advance(data, next, (n - 1) as nat),
            None => pos,
        }
    }
}

/// The end of the longest run of bytes of `set` that begins at `pos`.
pub open spec fn run_end(data: Seq<u8>, pos: int, set: ByteSet) -> int
    decreases data.len() - pos,
{
    if 0 <= pos < data.len() && set.contains(data[pos]) {
        run_end(data, pos + 1, set)
    } else {
        pos
    }
}

/// The run that ends at `run_end` is made of bytes of the set, and no byte of
/// the set follows it.
pub proof fn lemma_run_end(data: Seq<u8>, pos: int, set: ByteSet)
    requires
        0 <= pos,
    ensures
        pos <= run_end(data, pos, set),
        pos <= data.len() ==> run_end(data, pos, set) <= data.len(),
        forall|i: int| pos <= i < run_end(data, pos, set) ==> set.contains(#[trigger] data[i]),
        run_end(data, pos, set) < data.len() ==> !set.contains(data[run_end(data, pos, set)]),
    decreases data.len() - pos,
{
    if pos < data.len() && set.contains(data[pos]) {
        lemma_run_end(data, pos + 1, set);
    }
}

/// The first position from `from` on at which `pattern` stands.
pub open spec fn first_match(data: Seq<u8>, from: int, pattern: Seq<u8>) -> Option<int>
    decreases data.len() - from + 1,
{
    if from < 0 || from + pattern.len() > data.len() {
        None
    } else if matches_at(data, from, pattern) {
        Some(from)
    } else {
        first_match(data, from + 1, pattern)
    }
}

/// `first_match` finds a place where the pattern stands, and the pattern
/// stands nowhere between `from` and that place; where it finds none, the
/// pattern stands nowhere from `from` on.
pub proof fn lemma_first_match(data: Seq<u8>, from: int, pattern: Seq<u8>)
    requires
        0 <= from,
    ensures
        match first_match(data, from, pattern) {
            Some(at) => {
                &&& from <= at
                &&& matches_at(data, at, pattern)
                &&& forall|i: int| from <= i < at ==> !matches_at(data, i, pattern)
            },
            None => forall|i: int| from <= i ==> !matches_at(data, i, pattern),
        },
    decreases data.len() - from + 1,
{
    if from + pattern.len() <= data.len() && !matches_at(data, from, pattern) {
        lemma_first_match(data, from + 1, pattern);
    }
}

/// The values of the hexadecimal digits between `pos` and the closing `>`,
/// white space left out, and the position behind the `>`.
pub open spec fn hex_digits(data: Seq<u8>, pos: int, acc: Seq<u8>) -> Result<
    (Seq<u8>, int),
    ParseError,
>
    decreases data.len() - pos,
{
    if !(0 <= pos < data.len()) {
        Err(failure(ParseErrorKind::UnexpectedEof, pos))
    } else if data[pos] == GREATER_THAN {
        Ok((acc, pos + 1))
    } else if is_whitespace(data[pos]) {
        hex_digits(data, pos + 1, acc)
    } else {
        match hex_value(data[pos]) {
            Some(v) => hex_digits(data, pos + 1, acc.push(v)),
            None => Err(failure(ParseErrorKind::IllegalHexDigit, pos)),
        }
    }
}

/// The bytes that a row of hexadecimal digits spells, two digits to a byte,
/// the first the higher. A last digit without a partner is followed by a zero.
pub open spec fn paired(digits: Seq<u8>) -> Seq<u8> {
    Seq::new(
        ((digits.len() + 1) / 2) as nat,
        |i: int|
            {
                let high = digits[2 * i];
                let low = if 2 * i + 1 < digits.len() {
                    digits[2 * i + 1]
                } else {
                    0
                };
                (high * 16 + low) as u8
            },
    )
}

/// The hexadecimal string whose first byte behind the `<` is at `pos`.
pub open spec fn hex_string(data: Seq<u8>, pos: int) -> Lexed {
    match hex_digits(data, pos, Seq::empty()) {
        Ok((digits, next)) => Ok((Lexeme::String(paired(digits)), next)),
        Err(e) => Err(e),
    }
}

/// How many octal digits an escape that begins at `pos` has: as many as stand
/// there, up to three.
pub open spec fn octal_len(data: Seq<u8>, pos: int) -> int {
    if pos + 1 < data.len() && is_octal_digit(data[pos + 1]) {
        if pos + 2 < data.len() && is_octal_digit(data[pos + 2]) {
            3
        } else {
            2
        }
    } else {
        1
    }
}

/// The number that the octal digits `digits` denote.
pub open spec fn octal_value(digits: Seq<u8>) -> nat
    decreases digits.len(),
{
    if digits.len() == 0 {
        0
    } else {
        octal_value(digits.drop_last()) * 8 + (digits.last() - DIGIT_0) as nat
    }
}

/// What the escape sequence whose first byte behind the backslash is at `pos`
/// stands for, and the position behind it.
pub open spec fn escape(data: Seq<u8>, pos: int) -> Result<(Seq<u8>, int), ParseError> {
    match char_at(data, pos) {
        None => Err(failure(ParseErrorKind::UnexpectedEof, pos)),
        Some((c, next)) => {
            if c == LOWER_N {
                Ok((seq![LF], next))
            } else if c == LOWER_R {
                Ok((seq![CR], next))
            } else if c == LOWER_T {
                Ok((seq![TAB], next))
            } else if c == LOWER_B {
                Ok((seq![BACKSPACE], next))
            } else if c == LOWER_F {
                Ok((seq![FF], next))
            } else if c == LEFT_PAREN || c == RIGHT_PAREN || c == BACKSLASH {
                Ok((seq![c], next))
            } else if c == LF {
                Ok((Seq::empty(), next))
            } else if is_octal_digit(c) {
                let len = octal_len(data, pos);
                let value = octal_value(data.subrange(pos, pos + len));
                if value <= 255 {
                    Ok((seq![value as u8], pos + len))
                } else {
                    Err(failure(ParseErrorKind::IllegalEscape, pos))
                }
            } else {
                Err(failure(ParseErrorKind::IllegalEscape, pos))
            }
        },
    }
}

/// The literal string of which `acc` has been read, `depth` parentheses are
/// open, and the next byte is at `pos`.
pub open spec fn literal_string(data: Seq<u8>, pos: int, depth: nat, acc: Seq<u8>) -> Lexed
    decreases data.len() - pos,
{
    match char_at(data, pos) {
        None => Err(failure(ParseErrorKind::UnexpectedEof, pos)),
        Some((c, next)) => {
            if c == LEFT_PAREN {
                literal_string(data, next, depth + 1, acc.push(c))
            } else if c == RIGHT_PAREN {
                if depth <= 1 {
                    Ok((Lexeme::String(acc), next))
                } else {
                    literal_string(data, next, (depth - 1) as nat, acc.push(c))
                }
            } else if c == BACKSLASH {
                match escape(data, next) {
                    Ok((bytes, after)) => literal_string(data, after, depth, acc + bytes),
                    Err(e) => Err(e),
                }
            } else {
                literal_string(data, next, depth, acc.push(c))
            }
        },
    }
}

/// The numeric literal that begins at `at`.
pub open spec fn number(data: Seq<u8>, at: int) -> Lexed {
    let end = run_end(data, at, ByteSet::Numeric);
    match number_lexeme(data.subrange(at, end)) {
        Some(lexeme) => Ok((lexeme, end)),
        None => Err(failure(ParseErrorKind::IllegalNumber, at)),
    }
}

/// The keyword that begins at `at`.
pub open spec fn keyword(data: Seq<u8>, at: int) -> Lexed {
    let end = run_end(data, at, ByteSet::Normal);
    match Keyword::lookup(data.subrange(at, end)) {
        Some(k) => Ok((Lexeme::Keyword(k), end)),
        None => Err(failure(ParseErrorKind::UnknownKeyword, at)),
    }
}

/// The first position from `pos` on that holds no white space.
pub open spec fn token_start(data: Seq<u8>, pos: int) -> int {
    run_end(data, pos, ByteSet::Whitespace)
}

/// The token that begins at or after `pos`, white space skipped, and the
/// position behind it.
pub open spec fn lex(data: Seq<u8>, pos: int) -> Lexed {
    let at = token_start(data, pos);
    if !(0 <= at < data.len()) {
        Err(failure(ParseErrorKind::UnexpectedEof, at))
    } else if data[at] == LESS_THAN {
        if at + 1 < data.len() && data[at + 1] == LESS_THAN {
            Ok((Lexeme::DictBegin, at + 2))
        } else {
            hex_string(data, at + 1)
        }
    } else if data[at] == GREATER_THAN {
        if at + 1 < data.len() && data[at + 1] == GREATER_THAN {
            Ok((Lexeme::DictEnd, at + 2))
        } else {
            Err(failure(ParseErrorKind::StrayDelimiter, at))
        }
    } else if data[at] == LEFT_BRACKET {
        Ok((Lexeme::ArrayBegin, at + 1))
    } else if data[at] == RIGHT_BRACKET {
        Ok((Lexeme::ArrayEnd, at + 1))
    } else if data[at] == SOLIDUS {
        Ok((Lexeme::Solidus, at + 1))
    } else if data[at] == LEFT_PAREN {
        literal_string(data, at + 1, 1, Seq::empty())
    } else if is_numeric(data[at]) {
        number(data, at)
    } else {
        keyword(data, at)
    }
}

/// The raw body of a stream, read as one token: it begins behind the line
/// break at `pos` and ends before the first `endstream`.
pub open spec fn stream_token(data: Seq<u8>, pos: int) -> Lexed {
    match char_at(data, pos) {
        Some((c, begin)) => {
            if c == LF {
                match first_match(data, begin, Keyword::EndStream.spelling()) {
                    Some(end) => Ok((Lexeme::String(data.subrange(begin, end)), end)),
                    None => Err(failure(ParseErrorKind::MissingEndStream, data.len() as int)),
                }
            } else {
                Err(failure(ParseErrorKind::MalformedStream, pos))
            }
        },
        None => Err(failure(ParseErrorKind::MalformedStream, pos)),
    }
}

/// The state in which the tokenizer is left by a token read in state `Lex`.
pub open spec fn mode_after(lexeme: Lexeme) -> LexMode {
    if lexeme == Lexeme::Keyword(Keyword::Stream) {
        LexMode::Stream
    } else {
        LexMode::Lex
    }
}

/// The token that a tokenizer in state `mode` reads at `pos`, the position
/// behind it and the state in which the tokenizer is left.
pub open spec fn lex_in(mode: LexMode, data: Seq<u8>, pos: int) -> Result<
    (Lexeme, int, LexMode),
    ParseError,
> {
    match mode {
        LexMode::Skip => Err(failure(ParseErrorKind::HeaderNotRead, pos)),
        LexMode::Lex => match lex(data, pos) {
            Ok((lexeme, next)) => Ok((lexeme, next, mode_after(lexeme))),
            Err(e) => Err(e),
        },
        LexMode::Stream => match stream_token(data, pos) {
            Ok((lexeme, next)) => Ok((lexeme, next, LexMode::Lex)),
            Err(e) => Err(e),
        },
    }
}

/// The bytes of the name of which `acc` has been read and the next byte is
/// at `pos`: the longest run of normal bytes, each `#` and the two hexadecimal
/// digits behind it read as the byte that they spell.
pub open spec fn name(data: Seq<u8>, pos: int, acc: Seq<u8>) -> Result<(Seq<u8>, int), ParseError>
    decreases data.len() - pos,
{
    if 0 <= pos < data.len() && is_normal(data[pos]) {
        if data[pos] == NUMBER_SIGN {
            if pos + 2 < data.len() && hex_value(data[pos + 1]) is Some && hex_value(
                data[pos + 2],
            ) is Some {
                name(
                    data,
                    pos + 3,
                    acc.push(
                        (hex_value(data[pos + 1])->0 * 16 + hex_value(data[pos + 2])->0) as u8,
                    ),
                )
            } else {
                Err(failure(ParseErrorKind::IllegalHexDigit, pos))
            }
        } else {
            name(data, pos + 1, acc.push(data[pos]))
        }
    } else {
        Ok((acc, pos))
    }
}

/// A closed hexadecimal string ends behind its first byte and within the data.
pub proof fn lemma_hex_digits_advance(data: Seq<u8>, pos: int, acc: Seq<u8>)
    ensures
        hex_digits(data, pos, acc) matches Ok((_, next)) ==> pos < next <= data.len(),
    decreases data.len() - pos,
{
    if 0 <= pos < data.len() && data[pos] != GREATER_THAN {
        if is_whitespace(data[pos]) {
            lemma_hex_digits_advance(data, pos + 1, acc);
        } else if let Some(v) = hex_value(data[pos]) {
            lemma_hex_digits_advance(data, pos + 1, acc.push(v));
        }
    }
}

/// A closed literal string ends behind its first byte and within the data.
pub proof fn lemma_literal_string_advances(data: Seq<u8>, pos: int, depth: nat, acc: Seq<u8>)
    ensures
        literal_string(data, pos, depth, acc) matches Ok((_, next)) ==> pos < next <= data.len(),
    decreases data.len() - pos,
{
    if let Some((c, next)) = char_at(data, pos) {
        if c == LEFT_PAREN {
            lemma_literal_string_advances(data, next, depth + 1, acc.push(c));
        } else if c == RIGHT_PAREN {
            if depth > 1 {
                lemma_literal_string_advances(data, next, (depth - 1) as nat, acc.push(c));
            }
        } else if c == BACKSLASH {
            if let Ok((bytes, after)) = escape(data, next) {
                lemma_literal_string_advances(data, after, depth, acc + bytes);
            }
        } else {
            lemma_literal_string_advances(data, next, depth, acc.push(c));
        }
    }
}

/// A name ends at or behind its first byte and within the data.
pub proof fn lemma_name_advances(data: Seq<u8>, pos: int, acc: Seq<u8>)
    requires
        0 <= pos <= data.len(),
    ensures
        name(data, pos, acc) matches Ok((_, next)) ==> pos <= next <= data.len(),
    decreases data.len() - pos,
{
    if pos < data.len() && is_normal(data[pos]) {
        if data[pos] == NUMBER_SIGN {
            if pos + 2 < data.len() && hex_value(data[pos + 1]) is Some && hex_value(
                data[pos + 2],
            ) is Some {
                lemma_name_advances(
                    data,
                    pos + 3,
                    acc.push(
                        (hex_value(data[pos + 1])->0 * 16 + hex_value(data[pos + 2])->0) as u8,
                    ),
                );
            }
        } else {
            lemma_name_advances(data, pos + 1, acc.push(data[pos]));
        }
    }
}

/// Every token has at least one byte and ends within the data.
pub proof fn lemma_lex_advances(data: Seq<u8>, pos: int)
    ensures
        lex(data, pos) matches Ok((_, next)) ==> 0 <= pos < next <= data.len(),
{
    let at = token_start(data, pos);
    if 0 <= pos {
        lemma_run_end(data, pos, ByteSet::Whitespace);
    }
    if 0 <= pos && 0 <= at < data.len() {
        lemma_hex_digits_advance(data, at + 1, Seq::empty());
        lemma_literal_string_advances(data, at + 1, 1, Seq::empty());
        lemma_run_end(data, at + 1, ByteSet::Numeric);
        lemma_run_end(data, at, ByteSet::Normal);
        if let Ok((Lexeme::Keyword(k), end)) = keyword(data, at) {
            k.lemma_length_and_initial();
            let word = data.subrange(at, run_end(data, at, ByteSet::Normal));
            assert(exists|j: Keyword| j.spelling() == word);
            assert(k.spelling() == word);
        }
    }
}

/// The raw body of a stream, read as one token, ends behind the line break
/// that it begins with and within the data.
pub proof fn lemma_stream_token_advances(data: Seq<u8>, pos: int)
    requires
        0 <= pos,
    ensures
        stream_token(data, pos) matches Ok((_, next)) ==> pos < next <= data.len(),
{
    if let Some((c, begin)) = char_at(data, pos) {
        lemma_first_match(data, begin, Keyword::EndStream.spelling());
    }
}

} // verus!
