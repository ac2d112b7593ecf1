//! What holds of the grammar as a whole.

use crate::bytes::{matches_at, LF};
use crate::error::{ParseError, ParseErrorKind};
use crate::layout::{
    document, entries_in_use, eof_marker, footer, header, header_marker, lemma_last_match,
    xref_entries, xref_entry, xref_section,
};
use crate::lexis::{
    char_at, lemma_first_match, lemma_lex_advances, lemma_name_advances, lex, lex_in, paired,
    LexMode,
};
use crate::object::Value;
use crate::syntax::{
    advances, array_items, dict_entries, indirect_object, integer_led, length_key, object,
    stream_length, stream_rest, Resolved,
};
use crate::token::{Keyword, Lexeme};
use vstd::prelude::*;

verus! {

/// A hexadecimal string of `n` digits has half as many bytes, rounded up; each
/// byte but the last of an odd row is made of two digits, and the last of an
/// odd row is its digit followed by a zero.
pub proof fn lemma_paired(digits: Seq<u8>, i: int)
    requires
        0 <= i < (digits.len() + 1) / 2,
        forall|j: int| 0 <= j < digits.len() ==> digits[j] < 16,
    ensures
        paired(digits).len() == (digits.len() + 1) / 2,
        2 * i + 1 < digits.len() ==> paired(digits)[i] == digits[2 * i] * 16 + digits[2 * i + 1],
        2 * i + 1 == digits.len() ==> paired(digits)[i] == digits[2 * i] * 16,
{
}

/// What follows a `stream` keyword, where it is a stream: a line break, then
/// exactly as many bytes as the dictionary gives as the length, whatever
/// these bytes are, then the `endstream` keyword.
pub proof fn lemma_length_is_authoritative(
    data: Seq<u8>,
    pos: int,
    dict: Map<Seq<u8>, Value>,
    resolved: Resolved,
)
    requires
        stream_rest(data, pos, dict, resolved) is Ok,
    ensures
        match (stream_length(dict, resolved), char_at(data, pos)) {
            (Ok(length), Some((c, begin))) => {
                let (stream, next) = stream_rest(data, pos, dict, resolved)->Ok_0;
                &&& c == LF
                &&& begin + length <= data.len()
                &&& stream == Value::Stream(dict, data.subrange(begin, begin + length))
                &&& lex(data, begin + length) == Ok::<_, ParseError>(
                    (Lexeme::Keyword(Keyword::EndStream), next),
                )
            },
            _ => false,
        },
{
}

/// A length given by a reference to an integer of the table is the length
/// that the integer gives directly: the same bytes of the same data make the
/// stream, and the same error is found where there is none.
pub proof fn lemma_length_by_reference(
    data: Seq<u8>,
    pos: int,
    direct: Map<Seq<u8>, Value>,
    indirect: Map<Seq<u8>, Value>,
    resolved: Resolved,
    length: i64,
    number: i64,
    generation: i64,
)
    requires
        direct.contains_key(length_key()),
        direct[length_key()] == Value::Int(length),
        indirect.contains_key(length_key()),
        indirect[length_key()] == Value::RawReference(number, generation),
        0 <= number <= usize::MAX,
        resolved.contains_key(number as usize),
        resolved[number as usize] == Value::Int(length),
    ensures
        stream_length(direct, resolved) == stream_length(indirect, resolved),
        match (
            stream_rest(data, pos, direct, resolved),
            stream_rest(data, pos, indirect, resolved),
        ) {
            (Ok((Value::Stream(one, bytes), next)), Ok((Value::Stream(other, same), end))) => {
                &&& bytes == same
                &&& next == end
                &&& one == direct
                &&& other == indirect
            },
            (Err(e), Err(f)) => e == f,
            _ => false,
        },
{
}

/// An entry in use with a generation other than 0, and a free entry with a
/// generation other than 65535, is rejected as one of a file that was updated.
pub proof fn lemma_generation_gate(
    data: Seq<u8>,
    pos: int,
    resolved: Resolved,
    offset: i64,
    generation: i64,
    second: int,
    third: int,
    next: int,
    mark: Keyword,
)
    requires
        lex(data, pos) == Ok::<_, ParseError>((Lexeme::Int(offset), second)),
        lex(data, second) == Ok::<_, ParseError>((Lexeme::Int(generation), third)),
        lex(data, third) == Ok::<_, ParseError>((Lexeme::Keyword(mark), next)),
        (mark == Keyword::EntryInUse && generation != 0) || (mark == Keyword::EntryFree
            && generation != 65535),
    ensures
        xref_entry(data, pos, resolved) matches Err(e) && e.kind
            == ParseErrorKind::UnsupportedGeneration,
        forall|number: int, remaining: nat|
            remaining > 0 ==> (#[trigger] xref_entries(data, pos, resolved, number, remaining)
                matches Err(e) && e.kind == ParseErrorKind::UnsupportedGeneration),
{
    reveal(xref_entry);
}

/// The entries of a cross-reference section add objects to those resolved
/// before, under the numbers that the section covers, and take none away.
pub proof fn lemma_xref_entries_numbers(
    data: Seq<u8>,
    pos: int,
    resolved: Resolved,
    number: int,
    remaining: nat,
)
    requires
        0 <= number,
        number + remaining <= usize::MAX,
    ensures
        xref_entries(data, pos, resolved, number, remaining) matches Ok((objects, _)) ==> {
            &&& forall|k: usize| resolved.contains_key(k) ==> objects.contains_key(k)
            &&& forall|k: usize|
                objects.contains_key(k) ==> resolved.contains_key(k) || number <= k < number
                    + remaining
        },
    decreases remaining,
{
    if remaining > 0 {
        match xref_entry(data, pos, resolved) {
            Ok((Some(value), next)) => {
                lemma_xref_entries_numbers(
                    data,
                    next,
                    resolved.insert(number as usize, value),
                    number + 1,
                    (remaining - 1) as nat,
                );
            },
            Ok((None, next)) => {
                lemma_xref_entries_numbers(
                    data,
                    next,
                    resolved,
                    number + 1,
                    (remaining - 1) as nat,
                );
            },
            Err(_) => {},
        }
    }
}

/// The entries of a cross-reference section add one object for each entry in
/// use: where the numbers that the section covers are new, the table grows by
/// as many objects as entries are in use, which is the count of the entries
/// where none of them is free.
pub proof fn lemma_xref_entries_count(
    data: Seq<u8>,
    pos: int,
    resolved: Resolved,
    number: int,
    remaining: nat,
)
    requires
        0 <= number,
        number + remaining <= usize::MAX,
        resolved.dom().finite(),
        forall|k: usize| resolved.contains_key(k) ==> k < number,
    ensures
        entries_in_use(data, pos, resolved, number, remaining) <= remaining,
        xref_entries(data, pos, resolved, number, remaining) matches Ok((objects, _)) ==> {
            &&& objects.dom().finite()
            &&& objects.dom().len() == resolved.dom().len() + entries_in_use(
                data,
                pos,
                resolved,
                number,
                remaining,
            )
        },
    decreases remaining,
{
    if remaining > 0 {
        match xref_entry(data, pos, resolved) {
            Ok((Some(value), next)) => {
                let more = resolved.insert(number as usize, value);
                assert(more.dom() =~= resolved.dom().insert(number as usize));
                lemma_xref_entries_count(data, next, more, number + 1, (remaining - 1) as nat);
            },
            Ok((None, next)) => {
                lemma_xref_entries_count(
                    data,
                    next,
                    resolved,
                    number + 1,
                    (remaining - 1) as nat,
                );
            },
            Err(_) => {},
        }
    }
}

/// Of a document that is read, the header is the first `%PDF-` of the data
/// and the end-of-file marker their last `%%EOF`, the version is one that this
/// parser reads, the trailer dictionary has an entry, and the objects are
/// finite in number.
pub proof fn lemma_document_shape(data: Seq<u8>)
    ensures
        document(data) matches Ok(doc) ==> {
            &&& 0 <= doc.start <= data.len()
            &&& 0 <= doc.end <= data.len()
            &&& matches_at(data, doc.start, header_marker())
            &&& forall|i: int| 0 <= i < doc.start ==> !matches_at(data, i, header_marker())
            &&& matches_at(data, doc.end, eof_marker())
            &&& forall|i: int| doc.end < i ==> !matches_at(data, i, eof_marker())
            &&& doc.version.supported()
            &&& doc.trailer != Map::<Seq<u8>, Value>::empty()
            &&& doc.objects.dom().finite()
        },
{
    reveal(header);
    reveal(footer);
    reveal(xref_section);
    lemma_first_match(data, 0, header_marker());
    lemma_last_match(data, data.len() - eof_marker().len(), eof_marker());
    if let Ok(doc) = document(data) {
        let foot = footer(data)->Ok_0;
        let empty = Map::<usize, Value>::empty();
        if let Ok((Lexeme::Keyword(Keyword::Xref), second, _)) = lex_in(
            LexMode::Lex,
            data,
            foot.xref_offset as int,
        ) {
            if let Ok((Lexeme::Int(first), third)) = lex(data, second) {
                if let Ok((Lexeme::Int(count), entries)) = lex(data, third) {
                    lemma_xref_entries_count(data, entries, empty, first as int, count as nat);
                }
            }
        }
    }
}

/// Every object has at least one byte and ends within the data.
pub proof fn lemma_object_advances(data: Seq<u8>, pos: int, resolved: Resolved)
    requires
        0 <= pos,
    ensures
        object(data, pos, resolved) matches Ok((_, next)) ==> advances(data, pos, next),
    decreases data.len() - pos, 0nat,
{
    lemma_lex_advances(data, pos);
    if let Ok((lexeme, next)) = lex(data, pos) {
        match lexeme {
            Lexeme::ArrayBegin => lemma_array_advances(data, next, resolved, Seq::empty()),
            Lexeme::DictBegin => lemma_dict_advances(data, next, resolved, Map::empty()),
            Lexeme::Solidus => lemma_name_advances(data, next, Seq::empty()),
            Lexeme::Int(first) => lemma_integer_led_advances(data, next, first, resolved),
            _ => {},
        }
    }
}

/// What an integer stands for ends at or behind the integer and within the data.
pub proof fn lemma_integer_led_advances(data: Seq<u8>, pos: int, first: i64, resolved: Resolved)
    requires
        0 <= pos <= data.len(),
    ensures
        integer_led(data, pos, first, resolved) matches Ok((_, next)) ==> pos <= next
            <= data.len(),
    decreases data.len() - pos, 2nat,
{
    lemma_lex_advances(data, pos);
    if let Ok((Lexeme::Int(_), middle)) = lex(data, pos) {
        lemma_lex_advances(data, middle);
        if let Ok((Lexeme::Keyword(Keyword::Obj), next)) = lex(data, middle) {
            lemma_indirect_object_advances(data, next, resolved);
        }
    }
}

/// A stream ends behind its `stream` keyword and within the data.
pub proof fn lemma_stream_rest_advances(
    data: Seq<u8>,
    pos: int,
    dict: Map<Seq<u8>, Value>,
    resolved: Resolved,
)
    requires
        0 <= pos,
    ensures
        stream_rest(data, pos, dict, resolved) matches Ok((_, next)) ==> advances(data, pos, next),
{
    if let Ok(length) = stream_length(dict, resolved) {
        if let Some((_, begin)) = char_at(data, pos) {
            lemma_lex_advances(data, begin + length);
        }
    }
}

/// An indirect object ends behind its `obj` keyword and within the data.
pub proof fn lemma_indirect_object_advances(data: Seq<u8>, pos: int, resolved: Resolved)
    requires
        0 <= pos,
    ensures
        indirect_object(data, pos, resolved) matches Ok((_, next)) ==> advances(data, pos, next),
    decreases data.len() - pos, 1nat,
{
    lemma_object_advances(data, pos, resolved);
    if let Ok((body, end)) = object(data, pos, resolved) {
        lemma_lex_advances(data, end);
        if let Ok((Lexeme::Keyword(Keyword::Stream), after)) = lex(data, end) {
            if let Value::Dict(dict) = body {
                lemma_stream_rest_advances(data, after, dict, resolved);
                if let Ok((_, last)) = stream_rest(data, after, dict, resolved) {
                    lemma_lex_advances(data, last);
                }
            }
        }
    }
}

/// An array ends behind the place where its items begin and within the data.
pub proof fn lemma_array_advances(data: Seq<u8>, pos: int, resolved: Resolved, acc: Seq<Value>)
    requires
        0 <= pos,
    ensures
        array_items(data, pos, resolved, acc) matches Ok((_, next)) ==> advances(data, pos, next),
    decreases data.len() - pos, 1nat,
{
    lemma_lex_advances(data, pos);
    if !(lex(data, pos) matches Ok((Lexeme::ArrayEnd, _))) {
        lemma_object_advances(data, pos, resolved);
        if let Ok((item, next)) = object(data, pos, resolved) {
            lemma_array_advances(data, next, resolved, acc.push(item));
        }
    }
}

/// A dictionary ends behind the place where its entries begin and within the data.
pub proof fn lemma_dict_advances(
    data: Seq<u8>,
    pos: int,
    resolved: Resolved,
    acc: Map<Seq<u8>, Value>,
)
    requires
        0 <= pos,
    ensures
        dict_entries(data, pos, resolved, acc) matches Ok((_, next)) ==> advances(data, pos, next),
    decreases data.len() - pos, 1nat,
{
    lemma_lex_advances(data, pos);
    if !(lex(data, pos) matches Ok((Lexeme::DictEnd, _))) {
        lemma_object_advances(data, pos, resolved);
        if let Ok((Value::Name(key), middle)) = object(data, pos, resolved) {
            lemma_object_advances(data, middle, resolved);
            if let Ok((value, next)) = object(data, middle, resolved) {
                lemma_dict_advances(data, next, resolved, acc.insert(key, value));
            }
        }
    }
}

} // verus!
