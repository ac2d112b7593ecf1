//! The object builder: a recursive descent over tokens, as functions of the
//! data, a position in it and the objects resolved so far.

use crate::bytes::{ByteSet, LF};
use crate::error::{ParseError, ParseErrorKind};
use crate::object::{item_values, Dict, Object, Value};
use crate::scan::{char_step, scan_name, scan_token, skip_run};
use crate::syntax::{
    array_items, as_length, dict_entries, indirect_object, integer_led, lemma_table_values,
    length_key, object, stream_length, stream_rest, table_values, Parsed,
};
use crate::token::{Keyword, Token};
use std::collections::HashMap;
use vstd::prelude::*;
use vstd::slice::slice_subrange;

verus! {

/// An object was built as the grammar has it.
pub open spec fn parsed_as<'a>(
    r: Result<(Object<'a>, usize), ParseError>,
    expected: Parsed,
) -> bool {
    match r {
        Ok((object, next)) => expected == Ok::<(Value, int), ParseError>((object@, next as int)),
        Err(e) => expected == Err::<(Value, int), ParseError>(e),
    }
}

/// The name `Length`.
pub fn length_name() -> (name: Vec<u8>)
    ensures
        name@ == length_key(),
{
    let name: Vec<u8> = vec![0x4cu8, 0x65, 0x6e, 0x67, 0x74, 0x68];
    assert(name@ =~= length_key());
    name
}

/// The length that `object` gives, where it is an integer that is not negative.
fn length_of(object: &Object) -> (r: Option<usize>)
    ensures
        r == as_length(object@),
{
    match object {
        Object::Int(n) => {
            if *n >= 0 && (*n as u64) <= (usize::MAX as u64) {
                Some(*n as usize)
            } else {
                None
            }
        },
        _ => None,
    }
}

/// The length of the stream with dictionary `dict`, given directly or by a
/// reference to an object of `table`.
pub fn resolve_length<'a>(dict: &Dict<'a>, table: &HashMap<usize, Object<'a>>) -> (r: Result<
    usize,
    ParseErrorKind,
>)
    ensures
        r == stream_length(dict@, table_values(table@)),
{
    let key = length_name();
    proof {
        lemma_table_values(table@);
    }
    match dict.get(key.as_slice()) {
        None => Err(ParseErrorKind::BadLength),
        Some(Object::RawReference(number, _)) => {
            if *number < 0 || (*number as u64) > (usize::MAX as u64) {
                return Err(ParseErrorKind::UnresolvedLength);
            }
            match table.get(&(*number as usize)) {
                None => Err(ParseErrorKind::UnresolvedLength),
                Some(target) => match length_of(target) {
                    Some(n) => Ok(n),
                    None => Err(ParseErrorKind::BadLength),
                },
            }
        },
        Some(direct) => match length_of(direct) {
            Some(n) => Ok(n),
            None => Err(ParseErrorKind::BadLength),
        },
    }
}

/// What follows the `stream` keyword, which ends at `pos`.
pub fn build_stream_rest<'a>(
    data: &'a [u8],
    pos: usize,
    dict: Dict<'a>,
    table: &HashMap<usize, Object<'a>>,
) -> (r: Result<(Object<'a>, usize), ParseError>)
    ensures
        parsed_as(r, stream_rest(data@, pos as int, dict@, table_values(table@))),
        r matches Ok((_, next)) ==> pos < next <= data.len(),
{
    let length = match resolve_length(&dict, table) {
        Ok(n) => n,
        Err(kind) => {
            return Err(ParseError::new(kind, pos));
        },
    };
    let begin = match char_step(data, pos) {
        Some((c, begin)) => {
            if c != LF {
                return Err(ParseError::new(ParseErrorKind::MalformedStream, pos));
            }
            begin
        },
        None => {
            return Err(ParseError::new(ParseErrorKind::MalformedStream, pos));
        },
    };
    if length > data.len() - begin {
        return Err(ParseError::new(ParseErrorKind::MalformedStream, begin));
    }
    let end = begin + length;
    let bytes = slice_subrange(data, begin, end);
    match scan_token(data, end) {
        Ok((Token::Keyword(Keyword::EndStream), next)) => Ok((Object::Stream(dict, bytes), next)),
        _ => {
            let at = skip_run(data, end, ByteSet::Whitespace);
            Err(ParseError::new(ParseErrorKind::MissingEndStream, at))
        },
    }
}

/// The object that begins at or after `pos`.
pub fn build_object<'a>(data: &'a [u8], pos: usize, table: &HashMap<usize, Object<'a>>) -> (r:
    Result<(Object<'a>, usize), ParseError>)
    ensures
        parsed_as(r, object(data@, pos as int, table_values(table@))),
        r matches Ok((_, next)) ==> pos < next <= data.len(),
    decreases data.len() - pos, 0nat,
{
    match scan_token(data, pos) {
        Err(e) => Err(e),
        Ok((token, next)) => match token {
            Token::ArrayBegin => build_array_items(data, next, table),
            Token::DictBegin => match build_dict_entries(data, next, table) {
                Ok((dict, end)) => Ok((Object::Dict(dict), end)),
                Err(e) => Err(e),
            },
            Token::Solidus => match scan_name(data, next) {
                Ok((bytes, end)) => Ok((Object::Name(bytes), end)),
                Err(e) => Err(e),
            },
            Token::Int(first) => build_integer_led(data, next, first, table),
            Token::Real(text) => Ok((Object::Real(text), next)),
            Token::String(bytes) => Ok((Object::String(bytes), next)),
            _ => {
                let at = skip_run(data, pos, ByteSet::Whitespace);
                Err(ParseError::new(ParseErrorKind::Unimplemented, at))
            },
        },
    }
}

/// What an integer stands for that ends at `pos`.
fn build_integer_led<'a>(
    data: &'a [u8],
    pos: usize,
    first: i64,
    table: &HashMap<usize, Object<'a>>,
) -> (r: Result<(Object<'a>, usize), ParseError>)
    requires
        pos <= data.len(),
    ensures
        parsed_as(r, integer_led(data@, pos as int, first, table_values(table@))),
        r matches Ok((_, next)) ==> pos <= next <= data.len(),
    decreases data.len() - pos, 2nat,
{
    match scan_token(data, pos) {
        Ok((Token::Int(second), middle)) => match scan_token(data, middle) {
            Ok((Token::Keyword(Keyword::R), next)) => Ok(
                (Object::RawReference(first, second), next),
            ),
            Ok((Token::Keyword(Keyword::Obj), next)) => build_indirect_object(data, next, table),
            _ => Ok((Object::Int(first), pos)),
        },
        _ => Ok((Object::Int(first), pos)),
    }
}

/// The body of the indirect object whose `obj` keyword ends at `pos`, up to
/// its `endobj`.
fn build_indirect_object<'a>(
    data: &'a [u8],
    pos: usize,
    table: &HashMap<usize, Object<'a>>,
) -> (r: Result<(Object<'a>, usize), ParseError>)
    ensures
        parsed_as(r, indirect_object(data@, pos as int, table_values(table@))),
        r matches Ok((_, next)) ==> pos < next <= data.len(),
    decreases data.len() - pos, 1nat,
{
    let (body, end) = match build_object(data, pos, table) {
        Ok(found) => found,
        Err(e) => {
            return Err(e);
        },
    };
    match scan_token(data, end) {
        Ok((Token::Keyword(Keyword::EndObj), next)) => Ok((body, next)),
        Ok((Token::Keyword(Keyword::Stream), after)) => match body {
            Object::Dict(dict) => match build_stream_rest(data, after, dict, table) {
                Err(e) => Err(e),
                Ok((stream, last)) => match scan_token(data, last) {
                    Ok((Token::Keyword(Keyword::EndObj), next)) => Ok((stream, next)),
                    _ => {
                        let at = skip_run(data, last, ByteSet::Whitespace);
                        Err(ParseError::new(ParseErrorKind::MissingEndObj, at))
                    },
                },
            },
            _ => {
                let at = skip_run(data, end, ByteSet::Whitespace);
                Err(ParseError::new(ParseErrorKind::StreamWithoutDict, at))
            },
        },
        _ => {
            let at = skip_run(data, end, ByteSet::Whitespace);
            Err(ParseError::new(ParseErrorKind::MissingEndObj, at))
        },
    }
}

/// The array whose first item, or whose `]`, is the next token at `pos`.
pub fn build_array_items<'a>(data: &'a [u8], pos: usize, table: &HashMap<usize, Object<'a>>) -> (r:
    Result<(Object<'a>, usize), ParseError>)
    ensures
        parsed_as(r, array_items(data@, pos as int, table_values(table@), Seq::empty())),
        r matches Ok((_, next)) ==> pos < next <= data.len(),
    decreases data.len() - pos, 1nat,
{
    let mut items: Vec<Object<'a>> = Vec::new();
    let mut cur = pos;
    loop
        invariant
            pos <= cur,
            cur == pos || cur <= data.len(),
            array_items(data@, pos as int, table_values(table@), Seq::empty()) == array_items(
                data@,
                cur as int,
                table_values(table@),
                item_values(items@),
            ),
        decreases data.len() - cur,
    {
        match scan_token(data, cur) {
            Ok((Token::ArrayEnd, next)) => {
                return Ok((Object::Array(items), next));
            },
            _ => {},
        }
        match build_object(data, cur, table) {
            Err(e) => {
                return Err(e);
            },
            Ok((item, next)) => {
                assert(items@.push(item).drop_last() =~= items@);
                items.push(item);
                cur = next;
            },
        }
    }
}

/// The dictionary whose first key, or whose `>>`, is the next token at `pos`.
pub fn build_dict_entries<'a>(data: &'a [u8], pos: usize, table: &HashMap<usize, Object<'a>>) -> (r:
    Result<(Dict<'a>, usize), ParseError>)
    ensures
        match r {
            Ok((dict, next)) => dict_entries(
                data@,
                pos as int,
                table_values(table@),
                Map::empty(),
            ) == Ok::<_, ParseError>((dict@, next as int)) && pos < next <= data.len(),
            Err(e) => dict_entries(data@, pos as int, table_values(table@), Map::empty()) == Err::<
                (Map<Seq<u8>, Value>, int),
                _,
            >(e),
        },
    decreases data.len() - pos, 1nat,
{
    let mut dict = Dict::new();
    let mut cur = pos;
    loop
        invariant
            pos <= cur,
            cur == pos || cur <= data.len(),
            dict_entries(data@, pos as int, table_values(table@), Map::empty()) == dict_entries(
                data@,
                cur as int,
                table_values(table@),
                dict@,
            ),
        decreases data.len() - cur,
    {
        match scan_token(data, cur) {
            Ok((Token::DictEnd, next)) => {
                return Ok((dict, next));
            },
            _ => {},
        }
        let (key, middle) = match build_object(data, cur, table) {
            Err(e) => {
                return Err(e);
            },
            Ok((Object::Name(key), middle)) => (key, middle),
            Ok(_) => {
                let at = skip_run(data, cur, ByteSet::Whitespace);
                return Err(ParseError::new(ParseErrorKind::NonNameKey, at));
            },
        };
        match build_object(data, middle, table) {
            Err(e) => {
                return Err(e);
            },
            Ok((value, next)) => {
                dict.insert(key, value);
                cur = next;
            },
        }
    }
}

} // verus!
