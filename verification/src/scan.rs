//! The tokenizer, as functions of the data and a position in it.

use crate::bytes::{
    delimiter, hex_digit, numeric, octal_digit, starts_with_at, whitespace, ByteSet, BACKSLASH,
    BACKSPACE, CR, DIGIT_0, FF, GREATER_THAN, LEFT_BRACKET, LEFT_PAREN, LESS_THAN, LF, LOWER_B,
    LOWER_F, LOWER_N, LOWER_R, LOWER_T, NUMBER_SIGN, RIGHT_BRACKET, RIGHT_PAREN, SOLIDUS, TAB,
};
use crate::error::{ParseError, ParseErrorKind};
use crate::lexis::{
    char_at, char_before, escape, first_match, hex_digits, hex_string, keyword, lemma_run_end,
    lex, lex_in, literal_string, name, number, octal_len, octal_value, paired, run_end,
    stream_token, LexMode, Lexed,
};
use crate::number::number_token;
use crate::token::{Keyword, Lexeme, Token};
use vstd::prelude::*;
use vstd::slice::{slice_subrange, slice_to_vec};

verus! {

/// A token was scanned as the grammar has it.
pub open spec fn lexed_as(r: Result<(Token, usize), ParseError>, expected: Lexed) -> bool {
    match r {
        Ok((token, next)) => expected == Ok::<(Lexeme, int), ParseError>((token@, next as int)),
        Err(e) => expected == Err::<(Lexeme, int), ParseError>(e),
    }
}

/// The character at `pos` and the position behind it.
pub fn char_step(data: &[u8], pos: usize) -> (r: Option<(u8, usize)>)
    ensures
        match r {
            Some((c, next)) => char_at(data@, pos as int) == Some((c, next as int)) && pos < next
                <= data.len(),
            None => char_at(data@, pos as int) is None,
        },
{
    if pos < data.len() {
        let b = data[pos];
        if b == CR {
            if pos + 1 < data.len() && data[pos + 1] == LF {
                Some((LF, pos + 2))
            } else {
                Some((LF, pos + 1))
            }
        } else {
            Some((b, pos + 1))
        }
    } else {
        None
    }
}

/// The character at `pos`, read towards the start, and the position before it.
pub fn char_step_back(data: &[u8], pos: usize) -> (r: Option<(u8, usize)>)
    ensures
        match r {
            Some((c, next)) => char_before(data@, pos as int) == Some((c, next as int)) && next
                < pos,
            None => char_before(data@, pos as int) is None,
        },
{
    if 1 <= pos && pos < data.len() {
        let b = data[pos];
        if b == LF && data[pos - 1] == CR {
            if pos >= 2 {
                Some((LF, pos - 2))
            } else {
                None
            }
        } else if b == CR {
            Some((LF, pos - 1))
        } else {
            Some((b, pos - 1))
        }
    } else {
        None
    }
}

/// The end of the longest run of bytes of `set` that begins at `pos`.
pub fn skip_run(data: &[u8], pos: usize, set: ByteSet) -> (end: usize)
    ensures
        end == run_end(data@, pos as int, set),
        pos <= end,
        pos <= data.len() ==> end <= data.len(),
{
    let mut i = pos;
    while i < data.len() && set.holds(data[i])
        invariant
            pos <= i,
            pos <= data.len() ==> i <= data.len(),
            run_end(data@, pos as int, set) == run_end(data@, i as int, set),
        decreases data.len() - i,
    {
        i += 1;
    }
    i
}

/// The first position from `from` on at which `pattern` stands.
pub fn find_first(data: &[u8], from: usize, pattern: &[u8]) -> (r: Option<usize>)
    ensures
        match r {
            Some(at) => first_match(data@, from as int, pattern@) == Some(at as int) && from <= at
                && at + pattern.len() <= data.len(),
            None => first_match(data@, from as int, pattern@) is None,
        },
{
    if from > data.len() || pattern.len() > data.len() - from {
        return None;
    }
    let last = data.len() - pattern.len();
    let mut i = from;
    loop
        invariant
            from <= i <= last,
            last == data.len() - pattern.len(),
            first_match(data@, from as int, pattern@) == first_match(data@, i as int, pattern@),
        decreases last - i,
    {
        if starts_with_at(data, i, pattern) {
            return Some(i);
        }
        if i >= last {
            assert(first_match(data@, i + 1, pattern@) is None);
            return None;
        }
        i += 1;
    }
}

/// The values of the hexadecimal digits from `pos` to the closing `>`.
#[verifier::loop_isolation(false)]
fn scan_hex_digits(data: &[u8], pos: usize) -> (r: Result<(Vec<u8>, usize), ParseError>)
    ensures
        match r {
            Ok((digits, next)) => {
                &&& hex_digits(data@, pos as int, Seq::empty()) == Ok::<_, ParseError>(
                    (digits@, next as int),
                )
                &&& forall|j: int| 0 <= j < digits.len() ==> digits[j] < 16
                &&& pos < next <= data.len()
            },
            Err(e) => hex_digits(data@, pos as int, Seq::empty()) == Err::<(Seq<u8>, int), _>(e),
        },
{
    let mut digits: Vec<u8> = Vec::new();
    let mut i = pos;
    loop
        invariant
            pos <= i,
            hex_digits(data@, pos as int, Seq::empty()) == hex_digits(data@, i as int, digits@),
            forall|j: int| 0 <= j < digits.len() ==> digits[j] < 16,
        decreases data.len() - i,
    {
        if i >= data.len() {
            return Err(ParseError::new(ParseErrorKind::UnexpectedEof, i));
        }
        let b = data[i];
        if b == GREATER_THAN {
            return Ok((digits, i + 1));
        }
        if !whitespace(b) {
            match hex_digit(b) {
                Some(v) => {
                    digits.push(v);
                },
                None => {
                    return Err(ParseError::new(ParseErrorKind::IllegalHexDigit, i));
                },
            }
        }
        i += 1;
    }
}

/// The bytes that a row of hexadecimal digits spells.
fn pair_up(digits: &Vec<u8>) -> (bytes: Vec<u8>)
    requires
        forall|j: int| 0 <= j < digits.len() ==> digits[j] < 16,
    ensures
        bytes@ == paired(digits@),
{
    let mut bytes: Vec<u8> = Vec::new();
    let count = digits.len() / 2 + digits.len() % 2;
    let mut k: usize = 0;
    while k < count
        invariant
            k <= count,
            count == (digits.len() + 1) / 2,
            bytes.len() == k,
            forall|j: int| 0 <= j < digits.len() ==> digits[j] < 16,
            forall|j: int| 0 <= j < bytes.len() ==> bytes[j] == paired(digits@)[j],
        decreases count - k,
    {
        let high = digits[2 * k];
        let low = if digits.len() - 2 * k > 1 {
            digits[2 * k + 1]
        } else {
            0
        };
        bytes.push(high * 16 + low);
        k += 1;
    }
    assert(bytes@ =~= paired(digits@));
    bytes
}

/// The hexadecimal string whose first byte behind the `<` is at `pos`.
fn scan_hex_string(data: &[u8], pos: usize) -> (r: Result<(Token, usize), ParseError>)
    ensures
        lexed_as(r, hex_string(data@, pos as int)),
        r matches Ok((_, next)) ==> pos < next <= data.len(),
{
    match scan_hex_digits(data, pos) {
        Ok((digits, next)) => {
            let bytes = pair_up(&digits);
            Ok((Token::String(bytes), next))
        },
        Err(e) => Err(e),
    }
}

/// What the escape sequence at `pos` stands for: one byte or none.
fn scan_escape(data: &[u8], pos: usize) -> (r: Result<(Option<u8>, usize), ParseError>)
    ensures
        match r {
            Ok((Some(b), next)) => escape(data@, pos as int) == Ok::<_, ParseError>(
                (seq![b], next as int),
            ) && pos < next <= data.len(),
            Ok((None, next)) => escape(data@, pos as int) == Ok::<_, ParseError>(
                (Seq::<u8>::empty(), next as int),
            ) && pos < next <= data.len(),
            Err(e) => escape(data@, pos as int) == Err::<(Seq<u8>, int), _>(e),
        },
{
    match char_step(data, pos) {
        None => Err(ParseError::new(ParseErrorKind::UnexpectedEof, pos)),
        Some((c, next)) => {
            if c == LOWER_N {
                Ok((Some(LF), next))
            } else if c == LOWER_R {
                Ok((Some(CR), next))
            } else if c == LOWER_T {
                Ok((Some(TAB), next))
            } else if c == LOWER_B {
                Ok((Some(BACKSPACE), next))
            } else if c == LOWER_F {
                Ok((Some(FF), next))
            } else if c == LEFT_PAREN || c == RIGHT_PAREN || c == BACKSLASH {
                Ok((Some(c), next))
            } else if c == LF {
                Ok((None, next))
            } else if octal_digit(c) {
                let mut value: u16 = (c - DIGIT_0) as u16;
                let mut len: usize = 1;
                proof {
                    let one = data@.subrange(pos as int, pos + 1);
                    assert(one.drop_last() =~= Seq::<u8>::empty());
                    assert(octal_value(one.drop_last()) == 0);
                    assert(octal_value(one) == value);
                }
                if pos + 1 < data.len() && octal_digit(data[pos + 1]) {
                    value = value * 8 + (data[pos + 1] - DIGIT_0) as u16;
                    len = 2;
                    proof {
                        let two = data@.subrange(pos as int, pos + 2);
                        assert(two.drop_last() =~= data@.subrange(pos as int, pos + 1));
                        assert(octal_value(two) == value);
                    }
                    if pos + 2 < data.len() && octal_digit(data[pos + 2]) {
                        value = value * 8 + (data[pos + 2] - DIGIT_0) as u16;
                        len = 3;
                        proof {
                            let three = data@.subrange(pos as int, pos + 3);
                            assert(three.drop_last() =~= data@.subrange(pos as int, pos + 2));
                            assert(octal_value(three) == value);
                        }
                    }
                }
                assert(len == octal_len(data@, pos as int));
                assert(value == octal_value(data@.subrange(pos as int, pos + len)));
                if value <= 255 {
                    Ok((Some(value as u8), pos + len))
                } else {
                    Err(ParseError::new(ParseErrorKind::IllegalEscape, pos))
                }
            } else {
                Err(ParseError::new(ParseErrorKind::IllegalEscape, pos))
            }
        },
    }
}

/// The literal string whose first byte behind the `(` is at `pos`.
#[verifier::loop_isolation(false)]
fn scan_literal_string(data: &[u8], pos: usize) -> (r: Result<(Token, usize), ParseError>)
    requires
        pos >= 1,
    ensures
        lexed_as(r, literal_string(data@, pos as int, 1, Seq::empty())),
        r matches Ok((_, next)) ==> pos < next <= data.len(),
{
    let mut acc: Vec<u8> = Vec::new();
    let mut depth: usize = 1;
    let mut i = pos;
    loop
        invariant
            pos <= i,
            1 <= depth <= i - pos + 1,
            literal_string(data@, pos as int, 1, Seq::empty()) == literal_string(
                data@,
                i as int,
                depth as nat,
                acc@,
            ),
        decreases data.len() - i,
    {
        match char_step(data, i) {
            None => {
                return Err(ParseError::new(ParseErrorKind::UnexpectedEof, i));
            },
            Some((c, next)) => {
                if c == LEFT_PAREN {
                    depth += 1;
                    acc.push(c);
                    i = next;
                } else if c == RIGHT_PAREN {
                    if depth <= 1 {
                        return Ok((Token::String(acc), next));
                    }
                    depth -= 1;
                    acc.push(c);
                    i = next;
                } else if c == BACKSLASH {
                    match scan_escape(data, next) {
                        Ok((Some(b), after)) => {
                            assert(acc@ + seq![b] =~= acc@.push(b));
                            acc.push(b);
                            i = after;
                        },
                        Ok((None, after)) => {
                            assert(acc@ + Seq::<u8>::empty() =~= acc@);
                            i = after;
                        },
                        Err(e) => {
                            return Err(e);
                        },
                    }
                } else {
                    acc.push(c);
                    i = next;
                }
            },
        }
    }
}

/// The numeric literal that begins at `at`.
fn scan_number(data: &[u8], at: usize) -> (r: Result<(Token, usize), ParseError>)
    requires
        at < data.len(),
    ensures
        lexed_as(r, number(data@, at as int)),
        r matches Ok((_, next)) ==> at <= next <= data.len(),
{
    let end = skip_run(data, at, ByteSet::Numeric);
    let text = slice_to_vec(slice_subrange(data, at, end));
    match number_token(text) {
        Some(token) => Ok((token, end)),
        None => Err(ParseError::new(ParseErrorKind::IllegalNumber, at)),
    }
}

/// The keyword that begins at `at`.
fn scan_keyword(data: &[u8], at: usize) -> (r: Result<(Token, usize), ParseError>)
    requires
        at < data.len(),
    ensures
        lexed_as(r, keyword(data@, at as int)),
        r matches Ok((_, next)) ==> at <= next <= data.len(),
{
    let end = skip_run(data, at, ByteSet::Normal);
    match Keyword::from_bytes(slice_subrange(data, at, end)) {
        Some(k) => Ok((Token::Keyword(k), end)),
        None => Err(ParseError::new(ParseErrorKind::UnknownKeyword, at)),
    }
}

/// The token that begins at or after `pos`, white space skipped.
pub fn scan_token(data: &[u8], pos: usize) -> (r: Result<(Token, usize), ParseError>)
    ensures
        lexed_as(r, lex(data@, pos as int)),
        r matches Ok((_, next)) ==> pos < next <= data.len(),
{
    let at = skip_run(data, pos, ByteSet::Whitespace);
    if at >= data.len() {
        return Err(ParseError::new(ParseErrorKind::UnexpectedEof, at));
    }
    let b = data[at];
    if b == LESS_THAN {
        if at + 1 < data.len() && data[at + 1] == LESS_THAN {
            Ok((Token::DictBegin, at + 2))
        } else {
            scan_hex_string(data, at + 1)
        }
    } else if b == GREATER_THAN {
        if at + 1 < data.len() && data[at + 1] == GREATER_THAN {
            Ok((Token::DictEnd, at + 2))
        } else {
            Err(ParseError::new(ParseErrorKind::StrayDelimiter, at))
        }
    } else if b == LEFT_BRACKET {
        Ok((Token::ArrayBegin, at + 1))
    } else if b == RIGHT_BRACKET {
        Ok((Token::ArrayEnd, at + 1))
    } else if b == SOLIDUS {
        Ok((Token::Solidus, at + 1))
    } else if b == LEFT_PAREN {
        scan_literal_string(data, at + 1)
    } else if numeric(b) {
        let r = scan_number(data, at);
        proof {
            lemma_run_end(data@, at + 1, ByteSet::Numeric);
        }
        r
    } else {
        let r = scan_keyword(data, at);
        proof {
            if r is Ok {
                let end = run_end(data@, at as int, ByteSet::Normal);
                let k = r->Ok_0.0->Keyword_0;
                assert(data@.subrange(at as int, end) == k.spelling());
                k.lemma_length_and_initial();
            }
        }
        r
    }
}

/// The raw body of a stream, read as one token.
pub fn scan_stream_token(data: &[u8], pos: usize) -> (r: Result<(Token, usize), ParseError>)
    ensures
        lexed_as(r, stream_token(data@, pos as int)),
        r matches Ok((_, next)) ==> pos < next <= data.len(),
{
    match char_step(data, pos) {
        Some((c, begin)) => {
            if c == LF {
                let marker = Keyword::EndStream.spelled();
                match find_first(data, begin, marker.as_slice()) {
                    Some(end) => {
                        let body = slice_to_vec(slice_subrange(data, begin, end));
                        Ok((Token::String(body), end))
                    },
                    None => Err(ParseError::new(ParseErrorKind::MissingEndStream, data.len())),
                }
            } else {
                Err(ParseError::new(ParseErrorKind::MalformedStream, pos))
            }
        },
        None => Err(ParseError::new(ParseErrorKind::MalformedStream, pos)),
    }
}

/// The token that a tokenizer in state `mode` reads at `pos`, the position
/// behind it and the state in which the tokenizer is left.
pub fn scan_token_in(mode: LexMode, data: &[u8], pos: usize) -> (r: Result<
    (Token, usize, LexMode),
    ParseError,
>)
    ensures
        match r {
            Ok((token, next, after)) => lex_in(mode, data@, pos as int) == Ok::<_, ParseError>(
                (token@, next as int, after),
            ) && pos < next <= data.len(),
            Err(e) => lex_in(mode, data@, pos as int) == Err::<(Lexeme, int, LexMode), _>(e),
        },
{
    match mode {
        LexMode::Skip => Err(ParseError::new(ParseErrorKind::HeaderNotRead, pos)),
        LexMode::Lex => match scan_token(data, pos) {
            Ok((token, next)) => {
                let after = match token {
                    Token::Keyword(Keyword::Stream) => LexMode::Stream,
                    _ => LexMode::Lex,
                };
                Ok((token, next, after))
            },
            Err(e) => Err(e),
        },
        LexMode::Stream => match scan_stream_token(data, pos) {
            Ok((token, next)) => Ok((token, next, LexMode::Lex)),
            Err(e) => Err(e),
        },
    }
}

/// The name whose first byte behind the `/` is at `pos`.
#[verifier::loop_isolation(false)]
pub fn scan_name(data: &[u8], pos: usize) -> (r: Result<(Vec<u8>, usize), ParseError>)
    ensures
        match r {
            Ok((bytes, next)) => name(data@, pos as int, Seq::empty()) == Ok::<_, ParseError>(
                (bytes@, next as int),
            ) && pos <= next && (pos <= data.len() ==> next <= data.len()),
            Err(e) => name(data@, pos as int, Seq::empty()) == Err::<(Seq<u8>, int), _>(e),
        },
{
    let mut acc: Vec<u8> = Vec::new();
    let mut i = pos;
    loop
        invariant
            pos <= i,
            pos <= data.len() ==> i <= data.len(),
            name(data@, pos as int, Seq::empty()) == name(data@, i as int, acc@),
        decreases data.len() - i,
    {
        if i >= data.len() {
            return Ok((acc, i));
        }
        let b = data[i];
        if whitespace(b) || delimiter(b) {
            return Ok((acc, i));
        }
        if b == NUMBER_SIGN {
            if data.len() - i <= 2 {
                return Err(ParseError::new(ParseErrorKind::IllegalHexDigit, i));
            }
            match (hex_digit(data[i + 1]), hex_digit(data[i + 2])) {
                (Some(high), Some(low)) => {
                    acc.push(high * 16 + low);
                    i += 3;
                },
                _ => {
                    return Err(ParseError::new(ParseErrorKind::IllegalHexDigit, i));
                },
            }
        } else {
            acc.push(b);
            i += 1;
        }
    }
}

} // verus!
