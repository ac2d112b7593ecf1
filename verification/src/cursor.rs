//! The parser: a cursor over the bytes of a file, the state of the tokenizer,
//! and what has been read of the document.

use crate::bytes::{
    delimiter, is_delimiter, is_normal, is_whitespace, matches_at, raw, raw_slice, starts_with_at,
    whitespace, ByteSet,
};
use crate::lexis::{advance, char_at, char_before, lemma_run_end, run_end, LexMode};
use crate::number::{bounded_decimal, parse_decimal};
use crate::object::{Dict, Object, Value};
use crate::scan::{char_step, char_step_back, skip_run};
use crate::syntax::{table_values, Resolved};
use crate::version::Version;
use std::collections::HashMap;
use vstd::prelude::*;
use vstd::slice::slice_subrange;

verus! {

/// A parser over the bytes of one file.
///
/// `cur` is the position of the next byte. Nothing is asked of it: a position
/// behind the end of the data reads as the end of the data.
#[derive(Clone, Debug)]
pub struct Parser<'a> {
    /// The bytes of the file.
    pub data: &'a [u8],
    /// Where the header begins.
    pub start: usize,
    /// Where the end-of-file marker begins.
    pub end: usize,
    /// The position of the next byte.
    pub cur: usize,
    /// The state of the tokenizer.
    pub mode: LexMode,
    /// The version that the header names.
    pub version: Version,
    /// The trailer dictionary.
    pub trailer_dict: Dict<'a>,
    /// The indirect objects in use, by object number.
    pub xref_table: HashMap<usize, Object<'a>>,
}

impl<'a> Parser<'a> {
    /// This parser is `before` with its cursor moved to `cur`.
    pub open spec fn continues(self, before: Parser<'a>, cur: int) -> bool {
        &&& self.cur == cur
        &&& self == (Parser { cur: self.cur, ..before })
    }

    /// This parser is `before` with its cursor moved to `cur` and its
    /// tokenizer in state `mode`.
    pub open spec fn continues_in(self, before: Parser<'a>, cur: int, mode: LexMode) -> bool {
        &&& self.cur == cur
        &&& self.mode == mode
        &&& self == (Parser { cur: self.cur, mode: self.mode, ..before })
    }

    /// The values of the indirect objects read so far, by object number.
    pub open spec fn resolved(self) -> Resolved {
        table_values(self.xref_table@)
    }

    /// A parser over `data` of which nothing has been read: the cursor at the
    /// first byte, the tokenizer in state `mode`, no trailer and no objects.
    pub open spec fn is_fresh(self, data: &'a [u8], mode: LexMode) -> bool {
        &&& self.data == data
        &&& self.start == 0
        &&& self.end == 0
        &&& self.cur == 0
        &&& self.mode == mode
        &&& self.version == Version(0, 0)
        &&& self.trailer_dict@ == Map::<Seq<u8>, Value>::empty()
        &&& self.xref_table@ == Map::<usize, Object<'a>>::empty()
    }

    /// A parser of which nothing has been read, its tokenizer waiting for the
    /// header.
    pub open spec fn is_blank(self, data: &'a [u8]) -> bool {
        self.is_fresh(data, LexMode::Skip)
    }

    /// A parser over `data` of which nothing has been read yet.
    pub fn over(data: &'a [u8]) -> (parser: Parser<'a>)
        ensures
            parser.is_blank(data),
    {
        Parser {
            data,
            start: 0,
            end: 0,
            cur: 0,
            mode: LexMode::Skip,
            version: Version(0, 0),
            trailer_dict: Dict::new(),
            xref_table: HashMap::new(),
        }
    }

    /// A parser over `data` that reads tokens from the first byte on, without
    /// a header.
    pub fn lexer(data: &'a [u8]) -> (parser: Parser<'a>)
        ensures
            parser.is_fresh(data, LexMode::Lex),
    {
        let mut parser = Parser::over(data);
        parser.mode = LexMode::Lex;
        parser
    }

    /// Moves the cursor to `pos`.
    pub fn seek(&mut self, pos: usize)
        ensures
            final(self).continues(*old(self), pos as int),
    {
        self.cur = pos;
    }

    /// Reads one character, a line break in any of its forms as one line feed.
    pub fn chop_char(&mut self) -> (r: Option<u8>)
        ensures
            match char_at(old(self).data@, old(self).cur as int) {
                Some((c, next)) => r == Some(c) && final(self).continues(*old(self), next),
                None => r is None && *final(self) == *old(self),
            },
    {
        match char_step(self.data, self.cur) {
            Some((c, next)) => {
                self.cur = next;
                Some(c)
            },
            None => None,
        }
    }

    /// Reads the character under the cursor and steps towards the start of the
    /// data, a line break in any of its forms as one line feed.
    pub fn chop_char_backwards(&mut self) -> (r: Option<u8>)
        ensures
            match char_before(old(self).data@, old(self).cur as int) {
                Some((c, next)) => r == Some(c) && final(self).continues(*old(self), next),
                None => r is None && *final(self) == *old(self),
            },
    {
        match char_step_back(self.data, self.cur) {
            Some((c, next)) => {
                self.cur = next;
                Some(c)
            },
            None => None,
        }
    }

    /// Reads `n` characters, or as many as are left, and returns the bytes
    /// that they were read from.
    pub fn chop_n_chars(&mut self, n: usize) -> (r: &'a [u8])
        ensures
            final(self).continues(
                *old(self),
                advance(old(self).data@, old(self).cur as int, n as nat),
            ),
            r@ == raw(old(self).data@, old(self).cur as int, final(self).cur as int),
    {
        let begin = self.cur;
        let mut left = n;
        while left > 0
            invariant
                self.data == old(self).data,
                self.continues(*old(self), self.cur as int),
                advance(old(self).data@, old(self).cur as int, n as nat) == advance(
                    self.data@,
                    self.cur as int,
                    left as nat,
                ),
            decreases left,
        {
            match char_step(self.data, self.cur) {
                Some((_, next)) => {
                    self.cur = next;
                    left -= 1;
                },
                None => {
                    left = 0;
                },
            }
        }
        raw_slice(self.data, begin, self.cur)
    }

    /// Takes the next `n` bytes as they are, where so many are left.
    pub fn slurp_n_bytes(&mut self, n: usize) -> (r: Option<&'a [u8]>)
        ensures
            match r {
                Some(bytes) => {
                    &&& old(self).cur + n <= old(self).data@.len()
                    &&& bytes@ == old(self).data@.subrange(
                        old(self).cur as int,
                        old(self).cur + n,
                    )
                    &&& final(self).continues(*old(self), old(self).cur + n)
                },
                None => old(self).cur + n > old(self).data@.len() && *final(self) == *old(self),
            },
    {
        if self.cur <= self.data.len() && n <= self.data.len() - self.cur {
            let begin = self.cur;
            self.cur = begin + n;
            Some(slice_subrange(self.data, begin, begin + n))
        } else {
            None
        }
    }

    /// Reads the longest run of bytes of `set` and returns it.
    pub fn chop_while(&mut self, set: ByteSet) -> (r: &'a [u8])
        ensures
            final(self).continues(
                *old(self),
                run_end(old(self).data@, old(self).cur as int, set),
            ),
            r@ == raw(old(self).data@, old(self).cur as int, final(self).cur as int),
            forall|i: int| 0 <= i < r@.len() ==> set.contains(#[trigger] r@[i]),
            final(self).cur < final(self).data@.len() ==> !set.contains(
                final(self).data@[final(self).cur as int],
            ),
    {
        let begin = self.cur;
        let end = skip_run(self.data, begin, set);
        proof {
            lemma_run_end(self.data@, begin as int, set);
        }
        self.cur = end;
        raw_slice(self.data, begin, end)
    }

    /// Reads the longest run of normal bytes and returns it.
    pub fn chop_word(&mut self) -> (r: &'a [u8])
        ensures
            final(self).continues(
                *old(self),
                run_end(old(self).data@, old(self).cur as int, ByteSet::Normal),
            ),
            r@ == raw(old(self).data@, old(self).cur as int, final(self).cur as int),
    {
        self.chop_while(ByteSet::Normal)
    }

    /// Reads the longest run of decimal digits and returns the number that it
    /// denotes, where there is a digit and the number is no more than `limit`.
    pub fn chop_int(&mut self, limit: u64) -> (r: Option<u64>)
        ensures
            final(self).continues(
                *old(self),
                run_end(old(self).data@, old(self).cur as int, ByteSet::Digit),
            ),
            r == bounded_decimal(
                raw(old(self).data@, old(self).cur as int, final(self).cur as int),
                limit,
            ),
    {
        let digits = self.chop_while(ByteSet::Digit);
        parse_decimal(digits, limit)
    }

    /// Steps towards the start of the data until `target` stands at the
    /// cursor. Where it is not found, the cursor stays and the result is `false`.
    pub fn find_backwards(&mut self, target: &[u8]) -> (found: bool)
        ensures
            match find_back(old(self).data@, old(self).cur as int, target@) {
                Some(at) => found && final(self).continues(*old(self), at),
                None => !found && *final(self) == *old(self),
            },
    {
        match search_back(self.data, self.cur, target) {
            Some(at) => {
                self.cur = at;
                true
            },
            None => false,
        }
    }

    /// Whether `x` is a normal byte: neither white space nor a delimiter.
    pub fn is_ascii_normal(x: u8) -> (r: bool)
        ensures
            r == is_normal(x),
    {
        !Self::is_ascii_whitespace(x) && !Self::is_ascii_delim(x)
    }

    /// Whether `x` is one of the six white-space bytes.
    pub fn is_ascii_whitespace(x: u8) -> (r: bool)
        ensures
            r == is_whitespace(x),
    {
        whitespace(x)
    }

    /// Whether `x` is one of the ten delimiter bytes.
    pub fn is_ascii_delim(x: u8) -> (r: bool)
        ensures
            r == is_delimiter(x),
    {
        delimiter(x)
    }
}

/// The nearest position at or before `pos`, reached by steps of one character
/// towards the start, at which `pattern` stands.
pub open spec fn find_back(data: Seq<u8>, pos: int, pattern: Seq<u8>) -> Option<int>
    decreases pos,
{
    if matches_at(data, pos, pattern) {
        Some(pos)
    } else {
        match char_before(data, pos) {
            Some((_, before)) => find_back(data, before, pattern),
            None => None,
        }
    }
}

/// The nearest position at or before `pos`, reached by steps of one character
/// towards the start, at which `pattern` stands.
pub fn search_back(data: &[u8], pos: usize, pattern: &[u8]) -> (r: Option<usize>)
    ensures
        match r {
            Some(at) => find_back(data@, pos as int, pattern@) == Some(at as int) && at <= pos,
            None => find_back(data@, pos as int, pattern@) is None,
        },
{
    let mut i = pos;
    loop
        invariant
            i <= pos,
            find_back(data@, pos as int, pattern@) == find_back(data@, i as int, pattern@),
        decreases i,
    {
        if starts_with_at(data, i, pattern) {
            return Some(i);
        }
        match char_step_back(data, i) {
            Some((_, before)) => {
                i = before;
            },
            None => {
                return None;
            },
        }
    }
}

} // verus!
