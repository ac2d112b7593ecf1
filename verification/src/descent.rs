//! Tokens and objects read at the parser's cursor.

use crate::builder::{build_array_items, build_dict_entries, build_object, build_stream_rest};
use crate::bytes::ByteSet;
use crate::cursor::Parser;
use crate::error::{ParseError, ParseErrorKind};
use crate::lexis::{lex_in, name, LexMode};
use crate::object::{Dict, Object, Value};
use crate::scan::{scan_name, scan_token_in, skip_run};
use crate::syntax::{array_in, dict_in, name_in, object_in, stream_in, token_start_in};
use crate::token::{Keyword, Token};
use vstd::prelude::*;

verus! {

impl<'a> Parser<'a> {
    /// Where the token begins that the tokenizer would read next.
    fn next_token_start(&self) -> (at: usize)
        ensures
            at == token_start_in(self.mode, self.data@, self.cur as int),
    {
        match self.mode {
            LexMode::Lex => skip_run(self.data, self.cur, ByteSet::Whitespace),
            _ => self.cur,
        }
    }

    /// Reads the next token. Where there is none, nothing changes.
    pub fn chop_token(&mut self) -> (r: Result<Token, ParseError>)
        ensures
            match lex_in(old(self).mode, old(self).data@, old(self).cur as int) {
                Ok((lexeme, next, mode)) => {
                    &&& r matches Ok(token)
                    &&& token@ == lexeme
                    &&& final(self).continues_in(*old(self), next, mode)
                },
                Err(e) => r == Err::<Token, ParseError>(e) && *final(self) == *old(self),
            },
    {
        match scan_token_in(self.mode, self.data, self.cur) {
            Ok((token, next, mode)) => {
                self.cur = next;
                self.mode = mode;
                Ok(token)
            },
            Err(e) => Err(e),
        }
    }

    /// The next token, which stays unread.
    pub fn peek_token(&self) -> (r: Result<Token, ParseError>)
        ensures
            match lex_in(self.mode, self.data@, self.cur as int) {
                Ok((lexeme, _, _)) => r matches Ok(token) && token@ == lexeme,
                Err(e) => r == Err::<Token, ParseError>(e),
            },
    {
        match scan_token_in(self.mode, self.data, self.cur) {
            Ok((token, _, _)) => Ok(token),
            Err(e) => Err(e),
        }
    }

    /// Reads the bytes of a name, whose `/` has been read. Where they end in a
    /// `#` that no two hexadecimal digits follow, nothing changes.
    pub fn chop_name(&mut self) -> (r: Result<Vec<u8>, ParseError>)
        ensures
            match name(old(self).data@, old(self).cur as int, Seq::empty()) {
                Ok((bytes, next)) => {
                    &&& r matches Ok(found)
                    &&& found@ == bytes
                    &&& final(self).continues(*old(self), next)
                },
                Err(e) => r == Err::<Vec<u8>, ParseError>(e) && *final(self) == *old(self),
            },
    {
        match scan_name(self.data, self.cur) {
            Ok((bytes, next)) => {
                self.cur = next;
                Ok(bytes)
            },
            Err(e) => Err(e),
        }
    }

    /// Reads one object. Where there is none, nothing changes.
    pub fn chop_obj(&mut self) -> (r: Result<Object<'a>, ParseError>)
        ensures
            match object_in(
                old(self).mode,
                old(self).data@,
                old(self).cur as int,
                old(self).resolved(),
            ) {
                Ok((value, next)) => {
                    &&& r matches Ok(object)
                    &&& object@ == value
                    &&& final(self).continues_in(*old(self), next, LexMode::Lex)
                },
                Err(e) => r matches Err(found) && found == e && *final(self) == *old(self),
            },
    {
        match self.mode {
            LexMode::Lex => match build_object(self.data, self.cur, &self.xref_table) {
                Ok((object, next)) => {
                    self.cur = next;
                    Ok(object)
                },
                Err(e) => Err(e),
            },
            _ => match scan_token_in(self.mode, self.data, self.cur) {
                Ok((Token::String(bytes), next, _)) => {
                    self.cur = next;
                    self.mode = LexMode::Lex;
                    Ok(Object::String(bytes))
                },
                Ok(_) => Err(ParseError::new(ParseErrorKind::Unimplemented, self.cur)),
                Err(e) => Err(e),
            },
        }
    }

    /// Reads an array. Where there is none, nothing changes.
    pub fn chop_array_obj(&mut self) -> (r: Result<Object<'a>, ParseError>)
        ensures
            match array_in(
                old(self).mode,
                old(self).data@,
                old(self).cur as int,
                old(self).resolved(),
            ) {
                Ok((value, next)) => {
                    &&& r matches Ok(object)
                    &&& object@ == value
                    &&& final(self).continues_in(*old(self), next, LexMode::Lex)
                },
                Err(e) => r matches Err(found) && found == e && *final(self) == *old(self),
            },
    {
        match scan_token_in(self.mode, self.data, self.cur) {
            Ok((Token::ArrayBegin, next, _)) => match build_array_items(
                self.data,
                next,
                &self.xref_table,
            ) {
                Ok((object, end)) => {
                    self.cur = end;
                    self.mode = LexMode::Lex;
                    Ok(object)
                },
                Err(e) => Err(e),
            },
            Ok(_) => {
                let at = self.next_token_start();
                Err(ParseError::new(ParseErrorKind::UnexpectedToken, at))
            },
            Err(e) => Err(e),
        }
    }

    /// Reads a dictionary. Where there is none, nothing changes.
    pub fn chop_dict_obj(&mut self) -> (r: Result<Object<'a>, ParseError>)
        ensures
            match dict_in(
                old(self).mode,
                old(self).data@,
                old(self).cur as int,
                old(self).resolved(),
            ) {
                Ok((dict, next)) => {
                    &&& r matches Ok(object)
                    &&& object@ == Value::Dict(dict)
                    &&& final(self).continues_in(*old(self), next, LexMode::Lex)
                },
                Err(e) => r matches Err(found) && found == e && *final(self) == *old(self),
            },
    {
        match scan_token_in(self.mode, self.data, self.cur) {
            Ok((Token::DictBegin, next, _)) => match build_dict_entries(
                self.data,
                next,
                &self.xref_table,
            ) {
                Ok((dict, end)) => {
                    self.cur = end;
                    self.mode = LexMode::Lex;
                    Ok(Object::Dict(dict))
                },
                Err(e) => Err(e),
            },
            Ok(_) => {
                let at = self.next_token_start();
                Err(ParseError::new(ParseErrorKind::UnexpectedToken, at))
            },
            Err(e) => Err(e),
        }
    }

    /// Reads a name. Where there is none, nothing changes.
    pub fn chop_name_obj(&mut self) -> (r: Result<Object<'a>, ParseError>)
        ensures
            match name_in(old(self).mode, old(self).data@, old(self).cur as int) {
                Ok((bytes, next)) => {
                    &&& r matches Ok(object)
                    &&& object@ == Value::Name(bytes)
                    &&& final(self).continues_in(*old(self), next, LexMode::Lex)
                },
                Err(e) => r matches Err(found) && found == e && *final(self) == *old(self),
            },
    {
        match scan_token_in(self.mode, self.data, self.cur) {
            Ok((Token::Solidus, next, _)) => match scan_name(self.data, next) {
                Ok((bytes, end)) => {
                    self.cur = end;
                    self.mode = LexMode::Lex;
                    Ok(Object::Name(bytes))
                },
                Err(e) => Err(e),
            },
            Ok(_) => {
                let at = self.next_token_start();
                Err(ParseError::new(ParseErrorKind::UnexpectedToken, at))
            },
            Err(e) => Err(e),
        }
    }

    /// Reads the stream that belongs to the dictionary `dict`, from its
    /// `stream` keyword to its `endstream` keyword. Its length is what the
    /// dictionary says, whatever the bytes are. Where there is no such
    /// stream, nothing changes.
    pub fn chop_stream_obj(&mut self, dict: Dict<'a>) -> (r: Result<Object<'a>, ParseError>)
        ensures
            match stream_in(
                old(self).mode,
                old(self).data@,
                old(self).cur as int,
                dict@,
                old(self).resolved(),
            ) {
                Ok((value, next)) => {
                    &&& r matches Ok(object)
                    &&& object@ == value
                    &&& final(self).continues_in(*old(self), next, LexMode::Lex)
                },
                Err(e) => r matches Err(found) && found == e && *final(self) == *old(self),
            },
    {
        match scan_token_in(self.mode, self.data, self.cur) {
            Ok((Token::Keyword(Keyword::Stream), next, _)) => match build_stream_rest(
                self.data,
                next,
                dict,
                &self.xref_table,
            ) {
                Ok((object, end)) => {
                    self.cur = end;
                    self.mode = LexMode::Lex;
                    Ok(object)
                },
                Err(e) => Err(e),
            },
            Ok(_) => {
                let at = self.next_token_start();
                Err(ParseError::new(ParseErrorKind::UnexpectedToken, at))
            },
            Err(e) => Err(e),
        }
    }
}

} // verus!
