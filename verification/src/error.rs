//! The ways in which a parse can fail.

use vstd::prelude::*;

verus! {

/// What was wrong with the input.
#[derive(Clone, Copy, Debug, PartialEq, Eq, Structural)]
pub enum ParseErrorKind {
    /// No `%PDF-` marker, or no `major.minor` version behind it.
    MalformedHeader,
    /// No `%%EOF` marker, no line break before it, or no offset before that.
    MalformedFooter,
    /// The header names a version above 1.4.
    UnsupportedVersion,
    /// No `trailer` keyword before the cross-reference offset, or a trailer
    /// dictionary without an entry.
    MissingTrailer,
    /// The `trailer` keyword is not followed by a dictionary.
    NonDictTrailer,
    /// The cross-reference section does not begin with `xref`.
    MissingXref,
    /// A cross-reference subsection header or entry lacks a field, or a field is out of range.
    MalformedXrefEntry,
    /// An entry in use with a generation other than 0, or a free one with
    /// a generation other than 65535: the file was updated incrementally.
    UnsupportedGeneration,
    /// A run of digits, signs and dots that is neither an integer nor a real.
    IllegalNumber,
    /// A backslash in a literal string followed by a byte that names no escape.
    IllegalEscape,
    /// A byte in a hexadecimal string or after `#` in a name that is no hexadecimal digit.
    IllegalHexDigit,
    /// A `>` that closes nothing.
    StrayDelimiter,
    /// A word that is not in the keyword table.
    UnknownKeyword,
    /// The input ended inside a token or where a token was needed.
    UnexpectedEof,
    /// A token was requested before the header had been read.
    HeaderNotRead,
    /// A token other than the one the construct begins with.
    UnexpectedToken,
    /// A dictionary key that is not a name.
    NonNameKey,
    /// An indirect object whose body is not followed by `endobj`.
    MissingEndObj,
    /// The `stream` keyword follows an object that is not a dictionary.
    StreamWithoutDict,
    /// The stream dictionary has no `Length`, or one that is no non-negative integer.
    BadLength,
    /// `Length` refers to an object that the cross-reference table does not hold.
    UnresolvedLength,
    /// No line break after `stream`, or fewer bytes left than `Length` asks for.
    MalformedStream,
    /// The stream body is not followed by `endstream`.
    MissingEndStream,
    /// A token that cannot begin an object.
    Unimplemented,
}

/// A failed parse: what was wrong, and the byte offset at which it was found.
#[derive(Clone, Copy, Debug, PartialEq, Eq, Structural)]
pub struct ParseError {
    pub kind: ParseErrorKind,
    pub offset: usize,
}

/// The error of kind `kind` found at position `pos`.
pub open spec fn failure(kind: ParseErrorKind, pos: int) -> ParseError {
    ParseError { kind, offset: pos as usize }
}

impl ParseError {
    /// The error of kind `kind` found at `offset`.
    pub fn new(kind: ParseErrorKind, offset: usize) -> (e: ParseError)
        ensures
            e == failure(kind, offset as int),
    {
        ParseError { kind, offset }
    }
}

} // verus!
