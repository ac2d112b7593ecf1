//! Lexical tokens.

use crate::bytes::bytes_eq;
use vstd::prelude::*;
use vstd::string::StringSliceAdditionalSpecFns;

verus! {

/// The words of the language.
#[derive(Clone, Copy, Debug, PartialEq, Eq, Structural)]
pub enum Keyword {
    /// `R`, which ends an indirect reference.
    R,
    /// `xref`, which begins the cross-reference section.
    Xref,
    /// `n`, which marks a cross-reference entry in use.
    EntryInUse,
    /// `f`, which marks a free cross-reference entry.
    EntryFree,
    /// `obj`
    Obj,
    /// `endobj`
    EndObj,
    /// `stream`
    Stream,
    /// `endstream`
    EndStream,
    /// `trailer`
    Trailer,
    /// `startxref`
    StartXref,
    /// `true`
    True,
    /// `false`
    False,
    /// `null`
    Null,
}

impl Keyword {
    /// The bytes a keyword is written with.
    pub open spec fn spelling(self) -> Seq<u8> {
        match self {
            // R
            Keyword::R => seq![0x52u8],
            // xref
            Keyword::Xref => seq![0x78u8, 0x72, 0x65, 0x66],
            // n
            Keyword::EntryInUse => seq![0x6eu8],
            // f
            Keyword::EntryFree => seq![0x66u8],
            // obj
            Keyword::Obj => seq![0x6fu8, 0x62, 0x6a],
            // endobj
            Keyword::EndObj => seq![0x65u8, 0x6e, 0x64, 0x6f, 0x62, 0x6a],
            // stream
            Keyword::Stream => seq![0x73u8, 0x74, 0x72, 0x65, 0x61, 0x6d],
            // endstream
            Keyword::EndStream => seq![0x65u8, 0x6e, 0x64, 0x73, 0x74, 0x72, 0x65, 0x61, 0x6d],
            // trailer
            Keyword::Trailer => seq![0x74u8, 0x72, 0x61, 0x69, 0x6c, 0x65, 0x72],
            // startxref
            Keyword::StartXref => seq![0x73u8, 0x74, 0x61, 0x72, 0x74, 0x78, 0x72, 0x65, 0x66],
            // true
            Keyword::True => seq![0x74u8, 0x72, 0x75, 0x65],
            // false
            Keyword::False => seq![0x66u8, 0x61, 0x6c, 0x73, 0x65],
            // null
            Keyword::Null => seq![0x6eu8, 0x75, 0x6c, 0x6c],
        }
    }

    /// The keyword that `word` spells, if it spells one.
    pub open spec fn lookup(word: Seq<u8>) -> Option<Keyword> {
        if exists|k: Keyword| k.spelling() == word {
            Some(choose|k: Keyword| k.spelling() == word)
        } else {
            None
        }
    }

    /// No two keywords are spelled alike, so a spelling is looked up to its keyword.
    pub proof fn lemma_lookup_spelling(k: Keyword)
        ensures
            Keyword::lookup(k.spelling()) == Some(k),
    {
        let found = choose|j: Keyword| j.spelling() == k.spelling();
        Self::lemma_spelling_injective(found, k);
    }

    /// How many bytes the spelling has, and the first of them.
    pub open spec fn length_and_initial(self) -> (nat, u8) {
        match self {
            Keyword::R => (1, 0x52),
            Keyword::Xref => (4, 0x78),
            Keyword::EntryInUse => (1, 0x6e),
            Keyword::EntryFree => (1, 0x66),
            Keyword::Obj => (3, 0x6f),
            Keyword::EndObj => (6, 0x65),
            Keyword::Stream => (6, 0x73),
            Keyword::EndStream => (9, 0x65),
            Keyword::Trailer => (7, 0x74),
            Keyword::StartXref => (9, 0x73),
            Keyword::True => (4, 0x74),
            Keyword::False => (5, 0x66),
            Keyword::Null => (4, 0x6e),
        }
    }

    /// A keyword is known by the length and the first byte of its spelling.
    pub proof fn lemma_length_and_initial(self)
        ensures
            self.spelling().len() == self.length_and_initial().0,
            self.spelling()[0] == self.length_and_initial().1,
            self.spelling().len() > 0,
    {
    }

    /// No two keywords are spelled alike.
    pub proof fn lemma_spelling_injective(a: Keyword, b: Keyword)
        requires
            a.spelling() == b.spelling(),
        ensures
            a == b,
    {
        a.lemma_length_and_initial();
        b.lemma_length_and_initial();
    }

    /// The bytes a keyword is written with.
    pub fn spelled(&self) -> (word: Vec<u8>)
        ensures
            word@ == self.spelling(),
    {
        let word: Vec<u8> = match self {
            Keyword::R => vec![0x52u8],
            Keyword::Xref => vec![0x78u8, 0x72, 0x65, 0x66],
            Keyword::EntryInUse => vec![0x6eu8],
            Keyword::EntryFree => vec![0x66u8],
            Keyword::Obj => vec![0x6fu8, 0x62, 0x6a],
            Keyword::EndObj => vec![0x65u8, 0x6e, 0x64, 0x6f, 0x62, 0x6a],
            Keyword::Stream => vec![0x73u8, 0x74, 0x72, 0x65, 0x61, 0x6d],
            Keyword::EndStream => vec![0x65u8, 0x6e, 0x64, 0x73, 0x74, 0x72, 0x65, 0x61, 0x6d],
            Keyword::Trailer => vec![0x74u8, 0x72, 0x61, 0x69, 0x6c, 0x65, 0x72],
            Keyword::StartXref => vec![0x73u8, 0x74, 0x61, 0x72, 0x74, 0x78, 0x72, 0x65, 0x66],
            Keyword::True => vec![0x74u8, 0x72, 0x75, 0x65],
            Keyword::False => vec![0x66u8, 0x61, 0x6c, 0x73, 0x65],
            Keyword::Null => vec![0x6eu8, 0x75, 0x6c, 0x6c],
        };
        assert(word@ =~= self.spelling());
        word
    }

    /// Whether `word` spells this keyword.
    pub fn is_spelled(&self, word: &[u8]) -> (r: bool)
        ensures
            r == (word@ == self.spelling()),
    {
        let mine = self.spelled();
        bytes_eq(word, mine.as_slice())
    }

    /// Looks `word` up in the keyword table.
    pub fn from_bytes(word: &[u8]) -> (r: Option<Keyword>)
        ensures
            r == Keyword::lookup(word@),
            r matches Some(k) ==> word@ == k.spelling(),
            r is None ==> forall|k: Keyword| k.spelling() != word@,
    {
        let r = if Keyword::R.is_spelled(word) {
            Some(Keyword::R)
        } else if Keyword::Xref.is_spelled(word) {
            Some(Keyword::Xref)
        } else if Keyword::EntryInUse.is_spelled(word) {
            Some(Keyword::EntryInUse)
        } else if Keyword::EntryFree.is_spelled(word) {
            Some(Keyword::EntryFree)
        } else if Keyword::Obj.is_spelled(word) {
            Some(Keyword::Obj)
        } else if Keyword::EndObj.is_spelled(word) {
            Some(Keyword::EndObj)
        } else if Keyword::Stream.is_spelled(word) {
            Some(Keyword::Stream)
        } else if Keyword::EndStream.is_spelled(word) {
            Some(Keyword::EndStream)
        } else if Keyword::Trailer.is_spelled(word) {
            Some(Keyword::Trailer)
        } else if Keyword::StartXref.is_spelled(word) {
            Some(Keyword::StartXref)
        } else if Keyword::True.is_spelled(word) {
            Some(Keyword::True)
        } else if Keyword::False.is_spelled(word) {
            Some(Keyword::False)
        } else if Keyword::Null.is_spelled(word) {
            Some(Keyword::Null)
        } else {
            None
        };
        proof {
            match r {
                Some(k) => {
                    let found = choose|j: Keyword| j.spelling() == word@;
                    Self::lemma_spelling_injective(found, k);
                },
                None => {
                    assert forall|k: Keyword| k.spelling() != word@ by {
                        match k {
                            Keyword::R => {},
                            Keyword::Xref => {},
                            Keyword::EntryInUse => {},
                            Keyword::EntryFree => {},
                            Keyword::Obj => {},
                            Keyword::EndObj => {},
                            Keyword::Stream => {},
                            Keyword::EndStream => {},
                            Keyword::Trailer => {},
                            Keyword::StartXref => {},
                            Keyword::True => {},
                            Keyword::False => {},
                            Keyword::Null => {},
                        }
                    }
                },
            }
        }
        r
    }
}

impl std::str::FromStr for Keyword {
    type Err = ();

    /// Looks `word` up in the keyword table.
    fn from_str(word: &str) -> (r: Result<Keyword, ()>)
        ensures
            r == match Keyword::lookup(word.spec_bytes()) {
                Some(k) => Ok::<Keyword, ()>(k),
                None => Err::<Keyword, ()>(()),
            },
    {
        match Keyword::from_bytes(word.as_bytes()) {
            Some(k) => Ok(k),
            None => Err(()),
        }
    }
}

/// What a token is, as a mathematical value.
pub enum Lexeme {
    ArrayBegin,
    ArrayEnd,
    DictBegin,
    DictEnd,
    Solidus,
    Real(Seq<u8>),
    Int(i64),
    String(Seq<u8>),
    Keyword(Keyword),
}

/// A lexical token. Tokens carry no position.
#[derive(Clone, Debug, PartialEq, Eq)]
pub enum Token {
    /// `[`
    ArrayBegin,
    /// `]`
    ArrayEnd,
    /// `<<`
    DictBegin,
    /// `>>`
    DictEnd,
    /// `/`, which begins a name.
    Solidus,
    /// A real number, held as the digits, sign and point it was written with.
    Real(Vec<u8>),
    /// An integer.
    Int(i64),
    /// The decoded bytes of a literal or hexadecimal string, or a raw stream body.
    String(Vec<u8>),
    /// A word of the keyword table.
    Keyword(Keyword),
}

impl View for Token {
    type V = Lexeme;

    open spec fn view(&self) -> Lexeme {
        match self {
            Token::ArrayBegin => Lexeme::ArrayBegin,
            Token::ArrayEnd => Lexeme::ArrayEnd,
            Token::DictBegin => Lexeme::DictBegin,
            Token::DictEnd => Lexeme::DictEnd,
            Token::Solidus => Lexeme::Solidus,
            Token::Real(text) => Lexeme::Real(text@),
            Token::Int(i) => Lexeme::Int(*i),
            Token::String(bytes) => Lexeme::String(bytes@),
            Token::Keyword(k) => Lexeme::Keyword(*k),
        }
    }
}

} // verus!
