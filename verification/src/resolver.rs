//! The resolver: from the bytes of a file to its trailer dictionary and the
//! table of its indirect objects.

use crate::builder::{build_dict_entries, build_object};
use crate::bytes::{digit, raw_slice, starts_with_at, ByteSet, LF, PERIOD};
use crate::cursor::{search_back, Parser};
use crate::error::{ParseError, ParseErrorKind};
use crate::layout::{
    digits_begin, document, eof_marker, footer, header, header_marker, last_match,
    supported_header, trailer, xref_entries, xref_entry, xref_fill, xref_section, Document,
    Footer, Header,
};
use crate::lexis::LexMode;
use crate::number::parse_decimal;
use crate::object::{Dict, Object, Value};
use crate::scan::{char_step, char_step_back, find_first, scan_token, scan_token_in, skip_run};
use crate::syntax::{lemma_table_insert, lemma_table_values, table_values, Resolved};
use crate::token::{Keyword, Token};
use crate::version::Version;
use std::collections::HashMap;
use vstd::prelude::*;

verus! {

/// `%PDF-`, which begins the header.
pub fn header_mark() -> (mark: Vec<u8>)
    ensures
        mark@ == header_marker(),
{
    let mark: Vec<u8> = vec![0x25u8, 0x50, 0x44, 0x46, 0x2d];
    assert(mark@ =~= header_marker());
    mark
}

/// `%%EOF`, which ends the file.
pub fn eof_mark() -> (mark: Vec<u8>)
    ensures
        mark@ == eof_marker(),
{
    let mark: Vec<u8> = vec![0x25u8, 0x25, 0x45, 0x4f, 0x46];
    assert(mark@ =~= eof_marker());
    mark
}

/// Reads the header and tests its version: where the header begins, the
/// version, and the position behind it.
pub fn read_header(data: &[u8]) -> (r: Result<(usize, Version, usize), ParseError>)
    ensures
        match r {
            Ok((start, version, next)) => supported_header(data@) == Ok::<Header, ParseError>(
                Header { start: start as int, version, next: next as int },
            ),
            Err(e) => supported_header(data@) == Err::<Header, ParseError>(e),
        },
{
    reveal(header);
    let mark = header_mark();
    let start = match find_first(data, 0, mark.as_slice()) {
        Some(start) => start,
        None => {
            return Err(ParseError::new(ParseErrorKind::MalformedHeader, data.len()));
        },
    };
    let major_at = start + 5;
    let major_end = skip_run(data, major_at, ByteSet::Digit);
    let major = match parse_decimal(raw_slice(data, major_at, major_end), 255) {
        Some(major) => major as u8,
        None => {
            return Err(ParseError::new(ParseErrorKind::MalformedHeader, major_at));
        },
    };
    let minor_at = match char_step(data, major_end) {
        Some((c, minor_at)) => {
            if c != PERIOD {
                return Err(ParseError::new(ParseErrorKind::MalformedHeader, major_end));
            }
            minor_at
        },
        None => {
            return Err(ParseError::new(ParseErrorKind::MalformedHeader, major_end));
        },
    };
    let minor_end = skip_run(data, minor_at, ByteSet::Digit);
    let minor = match parse_decimal(raw_slice(data, minor_at, minor_end), 255) {
        Some(minor) => minor as u8,
        None => {
            return Err(ParseError::new(ParseErrorKind::MalformedHeader, minor_at));
        },
    };
    let version = Version(major, minor);
    if version.is_supported() {
        Ok((start, version, minor_end))
    } else {
        Err(ParseError::new(ParseErrorKind::UnsupportedVersion, start))
    }
}

/// The last position at which `pattern` stands.
pub fn find_last(data: &[u8], pattern: &[u8]) -> (r: Option<usize>)
    ensures
        match r {
            Some(at) => last_match(data@, data@.len() - pattern@.len(), pattern@) == Some(
                at as int,
            ) && at + pattern.len() <= data.len(),
            None => last_match(data@, data@.len() - pattern@.len(), pattern@) is None,
        },
{
    if pattern.len() > data.len() {
        return None;
    }
    let mut i = data.len() - pattern.len();
    loop
        invariant
            i + pattern.len() <= data.len(),
            last_match(data@, data@.len() - pattern@.len(), pattern@) == last_match(
                data@,
                i as int,
                pattern@,
            ),
        decreases i,
    {
        if starts_with_at(data, i, pattern) {
            return Some(i);
        }
        if i == 0 {
            assert(last_match(data@, -1, pattern@) is None);
            return None;
        }
        i -= 1;
    }
}

/// Where the run of decimal digits begins that ends before `end`.
pub fn digits_start(data: &[u8], end: usize) -> (begin: usize)
    ensures
        begin == digits_begin(data@, end as int),
        begin <= end,
{
    let mut i = end;
    while 0 < i && i <= data.len() && digit(data[i - 1])
        invariant
            i <= end,
            digits_begin(data@, end as int) == digits_begin(data@, i as int),
        decreases i,
    {
        i -= 1;
    }
    i
}

/// Reads the end of the file: where `%%EOF` begins, the position behind the
/// offset of the cross-reference section, and that offset.
pub fn read_footer(data: &[u8]) -> (r: Result<(usize, usize, usize), ParseError>)
    ensures
        match r {
            Ok((end, stop, xref_offset)) => footer(data@) == Ok::<Footer, ParseError>(
                Footer { end: end as int, stop: stop as int, xref_offset },
            ) && stop < end <= data.len(),
            Err(e) => footer(data@) == Err::<Footer, ParseError>(e),
        },
{
    reveal(footer);
    let mark = eof_mark();
    let end = match find_last(data, mark.as_slice()) {
        Some(end) => end,
        None => {
            return Err(ParseError::new(ParseErrorKind::MalformedFooter, data.len()));
        },
    };
    if end == 0 {
        return Err(ParseError::new(ParseErrorKind::MalformedFooter, end));
    }
    let last = match char_step_back(data, end - 1) {
        Some((c, last)) => {
            if c != LF {
                return Err(ParseError::new(ParseErrorKind::MalformedFooter, end));
            }
            last
        },
        None => {
            return Err(ParseError::new(ParseErrorKind::MalformedFooter, end));
        },
    };
    let stop = last + 1;
    let begin = digits_start(data, stop);
    match parse_decimal(raw_slice(data, begin, stop), usize::MAX as u64) {
        Some(offset) => Ok((end, stop, offset as usize)),
        None => Err(ParseError::new(ParseErrorKind::MalformedFooter, stop)),
    }
}

/// Reads the trailer dictionary that stands nearest before `from`.
pub fn read_trailer<'a>(data: &'a [u8], from: usize, table: &HashMap<usize, Object<'a>>) -> (r:
    Result<(Dict<'a>, usize), ParseError>)
    ensures
        match r {
            Ok((dict, next)) => trailer(data@, from as int, table_values(table@)) == Ok::<
                _,
                ParseError,
            >((dict@, next as int)),
            Err(e) => trailer(data@, from as int, table_values(table@)) == Err::<
                (Map<Seq<u8>, Value>, int),
                _,
            >(e),
        },
{
    reveal(trailer);
    let word = Keyword::Trailer.spelled();
    let at = match search_back(data, from, word.as_slice()) {
        Some(at) => at,
        None => {
            return Err(ParseError::new(ParseErrorKind::MissingTrailer, from));
        },
    };
    let next = match scan_token(data, at) {
        Ok((Token::Keyword(Keyword::Trailer), next)) => next,
        _ => {
            return Err(ParseError::new(ParseErrorKind::MissingTrailer, at));
        },
    };
    match scan_token(data, next) {
        Ok((Token::DictBegin, inside)) => build_dict_entries(data, inside, table),
        _ => {
            let bad = skip_run(data, next, ByteSet::Whitespace);
            Err(ParseError::new(ParseErrorKind::NonDictTrailer, bad))
        },
    }
}

/// Reads one entry of the cross-reference section, and the object that it
/// lists where it is in use.
pub fn read_xref_entry<'a>(data: &'a [u8], pos: usize, table: &HashMap<usize, Object<'a>>) -> (r:
    Result<(Option<Object<'a>>, usize), ParseError>)
    ensures
        match r {
            Ok((Some(object), next)) => xref_entry(data@, pos as int, table_values(table@)) == Ok::<
                _,
                ParseError,
            >((Some(object@), next as int)),
            Ok((None, next)) => xref_entry(data@, pos as int, table_values(table@)) == Ok::<
                _,
                ParseError,
            >((None::<Value>, next as int)),
            Err(e) => xref_entry(data@, pos as int, table_values(table@)) == Err::<
                (Option<Value>, int),
                _,
            >(e),
        },
{
    reveal(xref_entry);
    let (offset, second) = match scan_token(data, pos) {
        Ok((Token::Int(offset), second)) => (offset, second),
        _ => {
            let bad = skip_run(data, pos, ByteSet::Whitespace);
            return Err(ParseError::new(ParseErrorKind::MalformedXrefEntry, bad));
        },
    };
    let (generation, third) = match scan_token(data, second) {
        Ok((Token::Int(generation), third)) => (generation, third),
        _ => {
            let bad = skip_run(data, second, ByteSet::Whitespace);
            return Err(ParseError::new(ParseErrorKind::MalformedXrefEntry, bad));
        },
    };
    match scan_token(data, third) {
        Ok((Token::Keyword(Keyword::EntryInUse), next)) => {
            if generation != 0 {
                let bad = skip_run(data, second, ByteSet::Whitespace);
                return Err(ParseError::new(ParseErrorKind::UnsupportedGeneration, bad));
            }
            if offset < 0 || (offset as u64) > (usize::MAX as u64) {
                let bad = skip_run(data, pos, ByteSet::Whitespace);
                return Err(ParseError::new(ParseErrorKind::MalformedXrefEntry, bad));
            }
            match build_object(data, offset as usize, table) {
                Ok((object, _)) => Ok((Some(object), next)),
                Err(e) => Err(e),
            }
        },
        Ok((Token::Keyword(Keyword::EntryFree), next)) => {
            if generation != 65535 {
                let bad = skip_run(data, second, ByteSet::Whitespace);
                return Err(ParseError::new(ParseErrorKind::UnsupportedGeneration, bad));
            }
            Ok((None, next))
        },
        _ => {
            let bad = skip_run(data, third, ByteSet::Whitespace);
            Err(ParseError::new(ParseErrorKind::MalformedXrefEntry, bad))
        },
    }
}

/// Reads `count` entries of a cross-reference section, the first of them for
/// object `first`, and the objects that they list into `table`.
pub fn read_xref_entries<'a>(
    data: &'a [u8],
    pos: usize,
    table: &mut HashMap<usize, Object<'a>>,
    first: u64,
    count: u64,
) -> (r: Result<usize, ParseError>)
    requires
        first + count <= usize::MAX,
    ensures
        match r {
            Ok(next) => xref_entries(
                data@,
                pos as int,
                table_values(old(table)@),
                first as int,
                count as nat,
            ) == Ok::<_, ParseError>((table_values(final(table)@), next as int)),
            Err(e) => xref_entries(
                data@,
                pos as int,
                table_values(old(table)@),
                first as int,
                count as nat,
            ) == Err::<(Resolved, int), _>(e),
        },
{
    let mut cur = pos;
    let mut done: u64 = 0;
    while done < count
        invariant
            done <= count,
            first + count <= usize::MAX,
            xref_entries(
                data@,
                pos as int,
                table_values(old(table)@),
                first as int,
                count as nat,
            ) == xref_entries(
                data@,
                cur as int,
                table_values(table@),
                first + done,
                (count - done) as nat,
            ),
        decreases count - done,
    {
        match read_xref_entry(data, cur, &*table) {
            Err(e) => {
                return Err(e);
            },
            Ok((Some(object), next)) => {
                proof {
                    lemma_table_insert(table@, (first + done) as usize, object);
                }
                table.insert((first + done) as usize, object);
                cur = next;
            },
            Ok((None, next)) => {
                cur = next;
            },
        }
        done += 1;
    }
    Ok(cur)
}

impl<'a> Parser<'a> {
    /// This parser holds the document `doc`, all of it read.
    pub open spec fn holds(self, doc: Document) -> bool {
        &&& self.start == doc.start
        &&& self.end == doc.end
        &&& self.version == doc.version
        &&& self.trailer_dict@ == doc.trailer
        &&& self.resolved() == doc.objects
        &&& self.cur == doc.cursor
        &&& self.mode == LexMode::Lex
    }

    /// Reads the cross-reference section at the cursor and the objects that
    /// it lists into the table. Where that fails the table is left empty and
    /// nothing else changes.
    pub fn fill_xref_table(&mut self) -> (r: Result<(), ParseError>)
        ensures
            match xref_fill(
                old(self).mode,
                old(self).data@,
                old(self).cur as int,
                old(self).trailer_dict@,
                old(self).resolved(),
            ) {
                Ok((objects, next)) => {
                    &&& r is Ok
                    &&& final(self).resolved() == objects
                    &&& final(self).cur == next
                    &&& final(self).mode == LexMode::Lex
                    &&& *final(self) == (Parser {
                        cur: final(self).cur,
                        mode: final(self).mode,
                        xref_table: final(self).xref_table,
                        ..*old(self)
                    })
                },
                Err(e) => {
                    &&& r == Err::<(), ParseError>(e)
                    &&& final(self).xref_table@ == Map::<usize, Object<'a>>::empty()
                    &&& *final(self) == (Parser {
                        xref_table: final(self).xref_table,
                        ..*old(self)
                    })
                },
            },
    {
        reveal(xref_section);
        let data = self.data;
        if self.trailer_dict.is_empty() {
            self.xref_table = HashMap::new();
            return Err(ParseError::new(ParseErrorKind::MissingTrailer, self.cur));
        }
        let second = match scan_token_in(self.mode, data, self.cur) {
            Ok((Token::Keyword(Keyword::Xref), second, _)) => second,
            _ => {
                let bad = match self.mode {
                    LexMode::Lex => skip_run(data, self.cur, ByteSet::Whitespace),
                    _ => self.cur,
                };
                self.xref_table = HashMap::new();
                return Err(ParseError::new(ParseErrorKind::MissingXref, bad));
            },
        };
        let (first, third) = match scan_token(data, second) {
            Ok((Token::Int(first), third)) => (first, third),
            _ => {
                let bad = skip_run(data, second, ByteSet::Whitespace);
                self.xref_table = HashMap::new();
                return Err(ParseError::new(ParseErrorKind::MalformedXrefEntry, bad));
            },
        };
        let (count, entries) = match scan_token(data, third) {
            Ok((Token::Int(count), entries)) => (count, entries),
            _ => {
                let bad = skip_run(data, third, ByteSet::Whitespace);
                self.xref_table = HashMap::new();
                return Err(ParseError::new(ParseErrorKind::MalformedXrefEntry, bad));
            },
        };
        if first < 0 || count < 0 || (first as u64) + (count as u64) > (usize::MAX as u64) {
            let bad = skip_run(data, second, ByteSet::Whitespace);
            self.xref_table = HashMap::new();
            return Err(ParseError::new(ParseErrorKind::MalformedXrefEntry, bad));
        }
        let first = first as u64;
        let count = count as u64;
        let mut table: HashMap<usize, Object<'a>> = HashMap::new();
        std::mem::swap(&mut table, &mut self.xref_table);
        match read_xref_entries(data, entries, &mut table, first, count) {
            Ok(next) => {
                self.xref_table = table;
                self.cur = next;
                self.mode = LexMode::Lex;
                Ok(())
            },
            Err(e) => Err(e),
        }
    }

    /// Reads the document that `data` holds.
    pub fn new(data: &'a [u8]) -> (r: Result<Parser<'a>, ParseError>)
        ensures
            match r {
                Ok(parser) => parser.data == data && document(data@) is Ok && parser.holds(
                    document(data@)->Ok_0,
                ),
                Err(e) => document(data@) == Err::<Document, ParseError>(e),
            },
    {
        let mut parser = Parser::over(data);
        match parser.init() {
            Ok(()) => Ok(parser),
            Err(e) => Err(e),
        }
    }

    /// Reads the document that the data hold, from their first byte on,
    /// whatever had been read before. Where that fails, all that had been read
    /// is dropped.
    pub fn init(&mut self) -> (r: Result<(), ParseError>)
        ensures
            final(self).data == old(self).data,
            match document(old(self).data@) {
                Ok(doc) => r is Ok && final(self).holds(doc),
                Err(e) => r == Err::<(), ParseError>(e) && final(self).is_blank(old(self).data),
            },
    {
        let data = self.data;
        *self = Parser::over(data);
        let (start, version, next) = match read_header(data) {
            Ok(found) => found,
            Err(e) => {
                return Err(e);
            },
        };
        let (end, stop, xref_offset) = match read_footer(data) {
            Ok(found) => found,
            Err(e) => {
                return Err(e);
            },
        };
        proof {
            lemma_table_values(self.xref_table@);
        }
        let dict = match read_trailer(data, stop, &self.xref_table) {
            Ok((dict, _)) => dict,
            Err(e) => {
                return Err(e);
            },
        };
        self.start = start;
        self.end = end;
        self.version = version;
        self.trailer_dict = dict;
        self.cur = xref_offset;
        self.mode = LexMode::Lex;
        match self.fill_xref_table() {
            Ok(()) => Ok(()),
            Err(e) => {
                *self = Parser::over(data);
                Err(e)
            },
        }
    }
}

} // verus!
