//! The object grammar, as functions from the bytes of a file, a position in
//! it and the objects resolved so far to the object that stands there.

use crate::error::{failure, ParseError, ParseErrorKind};
use crate::bytes::LF;
use crate::lexis::{char_at, lemma_lex_advances, lex, lex_in, name, token_start, LexMode};
use crate::object::{Object, Value};
use crate::token::{Keyword, Lexeme};
use vstd::prelude::*;

verus! {

/// An object and the position behind it, or the reason why there is none.
pub type Parsed = Result<(Value, int), ParseError>;

/// The objects resolved so far, by object number.
pub type Resolved = Map<usize, Value>;

/// The values of the objects of a table.
#[verifier::opaque]
pub open spec fn table_values<'a>(table: Map<usize, Object<'a>>) -> Resolved {
    Map::new(|number: usize| table.contains_key(number), |number: usize| table[number]@)
}

/// The name `Length`.
pub open spec fn length_key() -> Seq<u8> {
    seq![0x4cu8, 0x65, 0x6e, 0x67, 0x74, 0x68]
}

/// A length of a stream, where `value` is one: an integer that is not negative.
pub open spec fn as_length(value: Value) -> Option<usize> {
    match value {
        Value::Int(n) => if 0 <= n <= usize::MAX {
            Some(n as usize)
        } else {
            None
        },
        _ => None,
    }
}

/// The length of the stream with dictionary `dict`: what `Length` is mapped
/// to, where that is an integer, or the object that it refers to, where that
/// has been resolved and is an integer.
pub open spec fn stream_length(dict: Map<Seq<u8>, Value>, resolved: Resolved) -> Result<
    usize,
    ParseErrorKind,
> {
    if !dict.contains_key(length_key()) {
        Err(ParseErrorKind::BadLength)
    } else {
        match dict[length_key()] {
            Value::RawReference(number, _) => {
                if 0 <= number <= usize::MAX && resolved.contains_key(number as usize) {
                    match as_length(resolved[number as usize]) {
                        Some(n) => Ok(n),
                        None => Err(ParseErrorKind::BadLength),
                    }
                } else {
                    Err(ParseErrorKind::UnresolvedLength)
                }
            },
            direct => match as_length(direct) {
                Some(n) => Ok(n),
                None => Err(ParseErrorKind::BadLength),
            },
        }
    }
}

/// The `length` raw bytes of a stream behind the line break at `pos`, and the
/// position behind them.
pub open spec fn stream_data(data: Seq<u8>, pos: int, length: usize) -> Result<
    (Seq<u8>, int),
    ParseError,
> {
    match char_at(data, pos) {
        Some((c, begin)) => {
            if c != LF {
                Err(failure(ParseErrorKind::MalformedStream, pos))
            } else if begin + length > data.len() {
                Err(failure(ParseErrorKind::MalformedStream, begin))
            } else {
                Ok((data.subrange(begin, begin + length), begin + length))
            }
        },
        None => Err(failure(ParseErrorKind::MalformedStream, pos)),
    }
}

/// What follows the `stream` keyword, which ends at `pos`: the line break, as
/// many raw bytes as the dictionary says, and the `endstream` keyword.
pub open spec fn stream_rest(
    data: Seq<u8>,
    pos: int,
    dict: Map<Seq<u8>, Value>,
    resolved: Resolved,
) -> Parsed {
    match stream_length(dict, resolved) {
        Err(kind) => Err(failure(kind, pos)),
        Ok(length) => match stream_data(data, pos, length) {
            Err(e) => Err(e),
            Ok((bytes, end)) => match lex(data, end) {
                Ok((Lexeme::Keyword(Keyword::EndStream), next)) => Ok(
                    (Value::Stream(dict, bytes), next),
                ),
                _ => Err(failure(ParseErrorKind::MissingEndStream, token_start(data, end))),
            },
        },
    }
}

/// `next` lies behind `pos` and within the data. Every object ends at such a
/// place (`lemma_object_advances`); the grammar asks for it where it goes on
/// behind an object, which shows that it ends.
pub open spec fn advances(data: Seq<u8>, pos: int, next: int) -> bool {
    pos < next <= data.len()
}

/// The object that begins at or after `pos`.
///
/// An integer is the object number of a reference where an integer and `R`
/// follow it, and of an indirect object where an integer and `obj` follow it.
pub open spec fn object(data: Seq<u8>, pos: int, resolved: Resolved) -> Parsed
    decreases data.len() - pos, 0nat,
{
    match lex(data, pos) {
        Err(e) => Err(e),
        Ok((lexeme, next)) => {
            proof {
                lemma_lex_advances(data, pos);
            }
            match lexeme {
                Lexeme::ArrayBegin => array_items(data, next, resolved, Seq::empty()),
                Lexeme::DictBegin => match dict_entries(data, next, resolved, Map::empty()) {
                    Ok((dict, end)) => Ok((Value::Dict(dict), end)),
                    Err(e) => Err(e),
                },
                Lexeme::Solidus => match name(data, next, Seq::empty()) {
                    Ok((bytes, end)) => Ok((Value::Name(bytes), end)),
                    Err(e) => Err(e),
                },
                Lexeme::Int(first) => integer_led(data, next, first, resolved),
                Lexeme::Real(text) => Ok((Value::Real(text), next)),
                Lexeme::String(bytes) => Ok((Value::String(bytes), next)),
                _ => Err(failure(ParseErrorKind::Unimplemented, token_start(data, pos))),
            }
        },
    }
}

/// What an integer stands for that ends at `pos`: the object number of a
/// reference, the object number of an indirect object, or itself.
pub open spec fn integer_led(data: Seq<u8>, pos: int, first: i64, resolved: Resolved) -> Parsed
    decreases data.len() - pos, 2nat,
{
    match lex(data, pos) {
        Ok((Lexeme::Int(second), middle)) => match lex(data, middle) {
            Ok((Lexeme::Keyword(Keyword::R), next)) => Ok(
                (Value::RawReference(first, second), next),
            ),
            Ok((Lexeme::Keyword(Keyword::Obj), next)) => {
                proof {
                    lemma_lex_advances(data, pos);
                    lemma_lex_advances(data, middle);
                }
                indirect_object(data, next, resolved)
            },
            _ => Ok((Value::Int(first), pos)),
        },
        _ => Ok((Value::Int(first), pos)),
    }
}

/// The body of the indirect object whose `obj` keyword ends at `pos`, up to
/// its `endobj`.
pub open spec fn indirect_object(data: Seq<u8>, pos: int, resolved: Resolved) -> Parsed
    decreases data.len() - pos, 1nat,
{
    match object(data, pos, resolved) {
        Err(e) => Err(e),
        Ok((body, end)) => match lex(data, end) {
            Ok((Lexeme::Keyword(Keyword::EndObj), next)) => Ok((body, next)),
            Ok((Lexeme::Keyword(Keyword::Stream), after)) => match body {
                Value::Dict(dict) => match stream_rest(data, after, dict, resolved) {
                    Err(e) => Err(e),
                    Ok((stream, last)) => match lex(data, last) {
                        Ok((Lexeme::Keyword(Keyword::EndObj), next)) => Ok((stream, next)),
                        _ => Err(
                            failure(ParseErrorKind::MissingEndObj, token_start(data, last)),
                        ),
                    },
                },
                _ => Err(failure(ParseErrorKind::StreamWithoutDict, token_start(data, end))),
            },
            _ => Err(failure(ParseErrorKind::MissingEndObj, token_start(data, end))),
        },
    }
}

/// The array of which the items `acc` have been read and the next token is
/// at or after `pos`.
pub open spec fn array_items(data: Seq<u8>, pos: int, resolved: Resolved, acc: Seq<Value>) -> Parsed
    decreases data.len() - pos, 1nat,
{
    match lex(data, pos) {
        Ok((Lexeme::ArrayEnd, next)) => Ok((Value::Array(acc), next)),
        _ => match object(data, pos, resolved) {
            Err(e) => Err(e),
            Ok((item, next)) => {
                if advances(data, pos, next) {
                    array_items(data, next, resolved, acc.push(item))
                } else {
                    Err(failure(ParseErrorKind::UnexpectedEof, pos))
                }
            },
        },
    }
}

/// The dictionary of which the entries `acc` have been read and the next
/// token is at or after `pos`.
pub open spec fn dict_entries(
    data: Seq<u8>,
    pos: int,
    resolved: Resolved,
    acc: Map<Seq<u8>, Value>,
) -> Result<(Map<Seq<u8>, Value>, int), ParseError>
    decreases data.len() - pos, 1nat,
{
    match lex(data, pos) {
        Ok((Lexeme::DictEnd, next)) => Ok((acc, next)),
        _ => match object(data, pos, resolved) {
            Err(e) => Err(e),
            Ok((Value::Name(key), middle)) => {
                if advances(data, pos, middle) {
                    match object(data, middle, resolved) {
                        Err(e) => Err(e),
                        Ok((value, next)) => {
                            if advances(data, middle, next) {
                                dict_entries(data, next, resolved, acc.insert(key, value))
                            } else {
                                Err(failure(ParseErrorKind::UnexpectedEof, middle))
                            }
                        },
                    }
                } else {
                    Err(failure(ParseErrorKind::UnexpectedEof, pos))
                }
            },
            Ok(_) => Err(failure(ParseErrorKind::NonNameKey, token_start(data, pos))),
        },
    }
}

/// Where the token begins that a tokenizer in state `mode` reads at `pos`.
pub open spec fn token_start_in(mode: LexMode, data: Seq<u8>, pos: int) -> int {
    if mode == LexMode::Lex {
        token_start(data, pos)
    } else {
        pos
    }
}

/// The object that a parser whose tokenizer is in state `mode` reads at `pos`.
/// In state `Stream` the one token is the raw stream body, which is a string.
pub open spec fn object_in(mode: LexMode, data: Seq<u8>, pos: int, resolved: Resolved) -> Parsed {
    match mode {
        LexMode::Lex => object(data, pos, resolved),
        _ => match lex_in(mode, data, pos) {
            Ok((Lexeme::String(bytes), next, _)) => Ok((Value::String(bytes), next)),
            Ok(_) => Err(failure(ParseErrorKind::Unimplemented, pos)),
            Err(e) => Err(e),
        },
    }
}

/// The array that a parser whose tokenizer is in state `mode` reads at `pos`:
/// `[`, the items, `]`.
pub open spec fn array_in(mode: LexMode, data: Seq<u8>, pos: int, resolved: Resolved) -> Parsed {
    match lex_in(mode, data, pos) {
        Ok((Lexeme::ArrayBegin, next, _)) => array_items(data, next, resolved, Seq::empty()),
        Ok(_) => Err(failure(ParseErrorKind::UnexpectedToken, token_start_in(mode, data, pos))),
        Err(e) => Err(e),
    }
}

/// The dictionary that a parser whose tokenizer is in state `mode` reads at
/// `pos`: `<<`, the keys with their values, `>>`.
pub open spec fn dict_in(mode: LexMode, data: Seq<u8>, pos: int, resolved: Resolved) -> Result<
    (Map<Seq<u8>, Value>, int),
    ParseError,
> {
    match lex_in(mode, data, pos) {
        Ok((Lexeme::DictBegin, next, _)) => dict_entries(data, next, resolved, Map::empty()),
        Ok(_) => Err(failure(ParseErrorKind::UnexpectedToken, token_start_in(mode, data, pos))),
        Err(e) => Err(e),
    }
}

/// The name that a parser whose tokenizer is in state `mode` reads at `pos`:
/// `/`, then the bytes of the name.
pub open spec fn name_in(mode: LexMode, data: Seq<u8>, pos: int) -> Result<
    (Seq<u8>, int),
    ParseError,
> {
    match lex_in(mode, data, pos) {
        Ok((Lexeme::Solidus, next, _)) => name(data, next, Seq::empty()),
        Ok(_) => Err(failure(ParseErrorKind::UnexpectedToken, token_start_in(mode, data, pos))),
        Err(e) => Err(e),
    }
}

/// The stream with dictionary `dict` that a parser whose tokenizer is in state
/// `mode` reads at `pos`: `stream`, the raw bytes, `endstream`.
pub open spec fn stream_in(
    mode: LexMode,
    data: Seq<u8>,
    pos: int,
    dict: Map<Seq<u8>, Value>,
    resolved: Resolved,
) -> Parsed {
    match lex_in(mode, data, pos) {
        Ok((Lexeme::Keyword(Keyword::Stream), next, _)) => stream_rest(data, next, dict, resolved),
        Ok(_) => Err(failure(ParseErrorKind::UnexpectedToken, token_start_in(mode, data, pos))),
        Err(e) => Err(e),
    }
}

/// The values of a table hold what the table holds, each object as its value.
pub proof fn lemma_table_values<'a>(table: Map<usize, Object<'a>>)
    ensures
        forall|number: usize|
            table_values(table).contains_key(number) <==> table.contains_key(number),
        forall|number: usize|
            table.contains_key(number) ==> table_values(table)[number] == table[number]@,
        table == Map::<usize, Object<'a>>::empty() ==> table_values(table) == Map::<
            usize,
            Value,
        >::empty(),
{
    reveal(table_values);
    if table == Map::<usize, Object<'a>>::empty() {
        assert(table_values(table) =~= Map::<usize, Value>::empty());
    }
}

/// An object that joins a table joins the values of the table.
pub proof fn lemma_table_insert<'a>(
    table: Map<usize, Object<'a>>,
    number: usize,
    object: Object<'a>,
)
    ensures
        table_values(table.insert(number, object)) == table_values(table).insert(
            number,
            object@,
        ),
{
    reveal(table_values);
    assert(table_values(table.insert(number, object)) =~= table_values(table).insert(
        number,
        object@,
    ));
}

} // verus!
