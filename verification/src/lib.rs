//! A low-level parser for the PDF file format.
//!
//! A raw byte buffer is turned into a trailer dictionary and a table of
//! indirect objects. Page content, fonts and stream filters are not
//! interpreted: stream bodies are handed out still encoded.
//!
//! Every function is stated against a mathematical description of the
//! format: the byte classes in [`bytes`], the numeric literals in
//! [`number`], the token grammar in [`lexis`], the object grammar in
//! [`syntax`] and the file layout in [`layout`]. The functions of [`scan`],
//! [`builder`] and [`resolver`] read tokens, objects and whole files at a
//! given position; the [`cursor::Parser`] holds a position and reads at it.
//! [`laws`] states what holds of the grammar as a whole.

pub mod builder;
pub mod bytes;
pub mod cursor;
pub mod descent;
pub mod error;
pub mod laws;
pub mod layout;
pub mod lexis;
pub mod number;
pub mod object;
pub mod resolver;
pub mod scan;
pub mod syntax;
pub mod token;
pub mod version;
