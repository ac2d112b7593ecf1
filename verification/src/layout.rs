//! The layout of a file: the header at its start, and at its end the
//! trailer, the offset of the cross-reference section and the end-of-file
//! marker.

use crate::bytes::{is_digit, matches_at, raw, ByteSet, LF, PERIOD};
use crate::cursor::find_back;
use crate::error::{failure, ParseError, ParseErrorKind};
use crate::lexis::{char_at, char_before, first_match, lex, lex_in, run_end, token_start, LexMode};
use crate::number::bounded_decimal;
use crate::object::Value;
use crate::syntax::{dict_entries, object, token_start_in, Resolved};
use crate::token::{Keyword, Lexeme};
use crate::version::Version;
use vstd::prelude::*;

verus! {

/// `%PDF-`, which begins the header.
pub open spec fn header_marker() -> Seq<u8> {
    seq![0x25u8, 0x50, 0x44, 0x46, 0x2d]
}

/// `%%EOF`, which ends the file.
pub open spec fn eof_marker() -> Seq<u8> {
    seq![0x25u8, 0x25, 0x45, 0x4f, 0x46]
}

/// The header of a file.
pub struct Header {
    /// Where `%PDF-` begins.
    pub start: int,
    /// The version that it names.
    pub version: Version,
    /// The position behind the minor version number.
    pub next: int,
}

/// The header: the first `%PDF-` of the data, then the major version number,
/// a point and the minor version number, each a decimal number of no more
/// than 255.
#[verifier::opaque]
pub open spec fn header(data: Seq<u8>) -> Result<Header, ParseError> {
    match first_match(data, 0, header_marker()) {
        None => Err(failure(ParseErrorKind::MalformedHeader, data.len() as int)),
        Some(start) => {
            let major_at = start + 5;
            let major_end = run_end(data, major_at, ByteSet::Digit);
            match bounded_decimal(raw(data, major_at, major_end), 255) {
                None => Err(failure(ParseErrorKind::MalformedHeader, major_at)),
                Some(major) => match char_at(data, major_end) {
                    Some((c, minor_at)) => {
                        let minor_end = run_end(data, minor_at, ByteSet::Digit);
                        if c != PERIOD {
                            Err(failure(ParseErrorKind::MalformedHeader, major_end))
                        } else {
                            match bounded_decimal(raw(data, minor_at, minor_end), 255) {
                                None => Err(failure(ParseErrorKind::MalformedHeader, minor_at)),
                                Some(minor) => Ok(
                                    Header {
                                        start,
                                        version: Version(major as u8, minor as u8),
                                        next: minor_end,
                                    },
                                ),
                            }
                        }
                    },
                    None => Err(failure(ParseErrorKind::MalformedHeader, major_end)),
                },
            }
        },
    }
}

/// The header of a file whose version this parser reads: one not above 1.4.
pub open spec fn supported_header(data: Seq<u8>) -> Result<Header, ParseError> {
    match header(data) {
        Ok(found) => if found.version.supported() {
            Ok(found)
        } else {
            Err(failure(ParseErrorKind::UnsupportedVersion, found.start))
        },
        Err(e) => Err(e),
    }
}

/// The last position at or before `from` at which `pattern` stands.
pub open spec fn last_match(data: Seq<u8>, from: int, pattern: Seq<u8>) -> Option<int>
    decreases from + 1,
{
    if from < 0 {
        None
    } else if matches_at(data, from, pattern) {
        Some(from)
    } else {
        last_match(data, from - 1, pattern)
    }
}

/// `last_match` finds a place where the pattern stands, and the pattern
/// stands nowhere between that place and `from`; where it finds none, the
/// pattern stands nowhere up to `from`.
pub proof fn lemma_last_match(data: Seq<u8>, from: int, pattern: Seq<u8>)
    ensures
        match last_match(data, from, pattern) {
            Some(at) => {
                &&& 0 <= at <= from
                &&& matches_at(data, at, pattern)
                &&& forall|i: int| at < i <= from ==> !matches_at(data, i, pattern)
            },
            None => forall|i: int| 0 <= i <= from ==> !matches_at(data, i, pattern),
        },
    decreases from + 1,
{
    if from >= 0 && !matches_at(data, from, pattern) {
        lemma_last_match(data, from - 1, pattern);
    }
}

/// Where the run of decimal digits begins that ends before `end`.
pub open spec fn digits_begin(data: Seq<u8>, end: int) -> int
    decreases end,
{
    if 0 < end <= data.len() && is_digit(data[end - 1]) {
        digits_begin(data, end - 1)
    } else {
        end
    }
}

/// The end of a file.
pub struct Footer {
    /// Where `%%EOF` begins.
    pub end: int,
    /// The position behind the offset of the cross-reference section.
    pub stop: int,
    /// The offset of the cross-reference section.
    pub xref_offset: usize,
}

/// The end of the file: the last `%%EOF` of the data, a line break before it,
/// and before that the decimal digits of the offset of the cross-reference
/// section.
#[verifier::opaque]
pub open spec fn footer(data: Seq<u8>) -> Result<Footer, ParseError> {
    match last_match(data, data.len() - eof_marker().len(), eof_marker()) {
        None => Err(failure(ParseErrorKind::MalformedFooter, data.len() as int)),
        Some(end) => match char_before(data, end - 1) {
            Some((c, last)) => {
                let stop = last + 1;
                if c != LF {
                    Err(failure(ParseErrorKind::MalformedFooter, end))
                } else {
                    match bounded_decimal(
                        raw(data, digits_begin(data, stop), stop),
                        usize::MAX as u64,
                    ) {
                        Some(offset) => Ok(Footer { end, stop, xref_offset: offset as usize }),
                        None => Err(failure(ParseErrorKind::MalformedFooter, stop)),
                    }
                }
            },
            None => Err(failure(ParseErrorKind::MalformedFooter, end)),
        },
    }
}

/// The trailer dictionary: the nearest `trailer` keyword at or before `from`,
/// and the dictionary behind it.
#[verifier::opaque]
pub open spec fn trailer(data: Seq<u8>, from: int, resolved: Resolved) -> Result<
    (Map<Seq<u8>, Value>, int),
    ParseError,
> {
    match find_back(data, from, Keyword::Trailer.spelling()) {
        None => Err(failure(ParseErrorKind::MissingTrailer, from)),
        Some(at) => match lex(data, at) {
            Ok((Lexeme::Keyword(Keyword::Trailer), next)) => match lex(data, next) {
                Ok((Lexeme::DictBegin, inside)) => dict_entries(
                    data,
                    inside,
                    resolved,
                    Map::empty(),
                ),
                _ => Err(failure(ParseErrorKind::NonDictTrailer, token_start(data, next))),
            },
            _ => Err(failure(ParseErrorKind::MissingTrailer, at)),
        },
    }
}

/// One entry of the cross-reference section: an offset, a generation number
/// and a mark. An entry in use has generation 0 and gives the object that
/// stands at the offset; a free entry has generation 65535 and gives none.
#[verifier::opaque]
pub open spec fn xref_entry(data: Seq<u8>, pos: int, resolved: Resolved) -> Result<
    (Option<Value>, int),
    ParseError,
> {
    match lex(data, pos) {
        Ok((Lexeme::Int(offset), second)) => match lex(data, second) {
            Ok((Lexeme::Int(generation), third)) => match lex(data, third) {
                Ok((Lexeme::Keyword(Keyword::EntryInUse), next)) => {
                    if generation != 0 {
                        Err(
                            failure(
                                ParseErrorKind::UnsupportedGeneration,
                                token_start(data, second),
                            ),
                        )
                    } else if !(0 <= offset <= usize::MAX) {
                        Err(failure(ParseErrorKind::MalformedXrefEntry, token_start(data, pos)))
                    } else {
                        match object(data, offset as int, resolved) {
                            Ok((value, _)) => Ok((Some(value), next)),
                            Err(e) => Err(e),
                        }
                    }
                },
                Ok((Lexeme::Keyword(Keyword::EntryFree), next)) => {
                    if generation != 65535 {
                        Err(
                            failure(
                                ParseErrorKind::UnsupportedGeneration,
                                token_start(data, second),
                            ),
                        )
                    } else {
                        Ok((None, next))
                    }
                },
                _ => Err(failure(ParseErrorKind::MalformedXrefEntry, token_start(data, third))),
            },
            _ => Err(failure(ParseErrorKind::MalformedXrefEntry, token_start(data, second))),
        },
        _ => Err(failure(ParseErrorKind::MalformedXrefEntry, token_start(data, pos))),
    }
}

/// The `remaining` entries of a cross-reference section from `pos` on, the
/// first of them for object `number`: each object in use is resolved, with
/// those before it at hand, and joins them.
pub open spec fn xref_entries(
    data: Seq<u8>,
    pos: int,
    resolved: Resolved,
    number: int,
    remaining: nat,
) -> Result<(Resolved, int), ParseError>
    decreases remaining,
{
    if remaining == 0 {
        Ok((resolved, pos))
    } else {
        match xref_entry(data, pos, resolved) {
            Err(e) => Err(e),
            Ok((Some(value), next)) => xref_entries(
                data,
                next,
                resolved.insert(number as usize, value),
                number + 1,
                (remaining - 1) as nat,
            ),
            Ok((None, next)) => xref_entries(
                data,
                next,
                resolved,
                number + 1,
                (remaining - 1) as nat,
            ),
        }
    }
}

/// How many of the `remaining` entries of a cross-reference section from
/// `pos` on are in use.
pub open spec fn entries_in_use(
    data: Seq<u8>,
    pos: int,
    resolved: Resolved,
    number: int,
    remaining: nat,
) -> nat
    decreases remaining,
{
    if remaining == 0 {
        0
    } else {
        match xref_entry(data, pos, resolved) {
            Err(_) => 0,
            Ok((Some(value), next)) => 1 + entries_in_use(
                data,
                next,
                resolved.insert(number as usize, value),
                number + 1,
                (remaining - 1) as nat,
            ),
            Ok((None, next)) => entries_in_use(
                data,
                next,
                resolved,
                number + 1,
                (remaining - 1) as nat,
            ),
        }
    }
}

/// The cross-reference section that a parser whose tokenizer is in state
/// `mode` reads at `pos`: `xref`, the number of the first object, the count
/// of entries, and so many entries.
#[verifier::opaque]
pub open spec fn xref_section(mode: LexMode, data: Seq<u8>, pos: int, resolved: Resolved) -> Result<
    (Resolved, int),
    ParseError,
> {
    match lex_in(mode, data, pos) {
        Ok((Lexeme::Keyword(Keyword::Xref), second, _)) => match lex(data, second) {
            Ok((Lexeme::Int(first), third)) => match lex(data, third) {
                Ok((Lexeme::Int(count), entries)) => {
                    if first < 0 || count < 0 || first + count > usize::MAX {
                        Err(
                            failure(
                                ParseErrorKind::MalformedXrefEntry,
                                token_start(data, second),
                            ),
                        )
                    } else {
                        xref_entries(data, entries, resolved, first as int, count as nat)
                    }
                },
                _ => Err(failure(ParseErrorKind::MalformedXrefEntry, token_start(data, third))),
            },
            _ => Err(failure(ParseErrorKind::MalformedXrefEntry, token_start(data, second))),
        },
        _ => Err(failure(ParseErrorKind::MissingXref, token_start_in(mode, data, pos))),
    }
}

/// The cross-reference section read by a parser that holds the trailer
/// dictionary `trailer`: none is read before the trailer is.
pub open spec fn xref_fill(
    mode: LexMode,
    data: Seq<u8>,
    pos: int,
    trailer: Map<Seq<u8>, Value>,
    resolved: Resolved,
) -> Result<(Resolved, int), ParseError> {
    if trailer == Map::<Seq<u8>, Value>::empty() {
        Err(failure(ParseErrorKind::MissingTrailer, pos))
    } else {
        xref_section(mode, data, pos, resolved)
    }
}

/// A document: what a file holds.
pub struct Document {
    /// Where the header begins.
    pub start: int,
    /// Where the end-of-file marker begins.
    pub end: int,
    /// The version that the header names.
    pub version: Version,
    /// The trailer dictionary.
    pub trailer: Map<Seq<u8>, Value>,
    /// The indirect objects in use, by object number.
    pub objects: Resolved,
    /// The position behind the cross-reference section.
    pub cursor: int,
}

/// The document that the bytes `data` hold: the header and its version, the
/// end-of-file marker and the offset before it, the trailer dictionary before
/// that, and the cross-reference section at the offset with the objects that
/// it lists.
pub open spec fn document(data: Seq<u8>) -> Result<Document, ParseError> {
    match supported_header(data) {
        Err(e) => Err(e),
        Ok(head) => match footer(data) {
            Err(e) => Err(e),
            Ok(foot) => match trailer(data, foot.stop, Map::empty()) {
                Err(e) => Err(e),
                Ok((dict, _)) => match xref_fill(
                    LexMode::Lex,
                    data,
                    foot.xref_offset as int,
                    dict,
                    Map::empty(),
                ) {
                    Err(e) => Err(e),
                    Ok((objects, cursor)) => Ok(
                        Document {
                            start: head.start,
                            end: foot.end,
                            version: head.version,
                            trailer: dict,
                            objects,
                            cursor,
                        },
                    ),
                },
            },
        },
    }
}

} // verus!
