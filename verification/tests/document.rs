use pdf_parse::cursor::Parser;
use pdf_parse::error::{ParseError, ParseErrorKind};
use pdf_parse::lexis::LexMode;
use pdf_parse::object::Object;
use pdf_parse::resolver::{
    digits_start, eof_mark, find_last, header_mark, read_footer, read_header, read_trailer,
    read_xref_entries, read_xref_entry,
};
use pdf_parse::version::Version;
use std::collections::HashMap;

/// A file with the objects `bodies`, numbered from `first` on, and the
/// trailer dictionary `trailer`. Returns the bytes and the offset of `xref`.
fn file_of(header: &str, first: usize, bodies: &[&[u8]], trailer: &str) -> (Vec<u8>, usize) {
    let mut data = Vec::new();
    data.extend_from_slice(header.as_bytes());
    let mut offsets = Vec::new();
    for (i, body) in bodies.iter().enumerate() {
        offsets.push(data.len());
        data.extend_from_slice(format!("{} 0 obj\n", first + i).as_bytes());
        data.extend_from_slice(body);
        data.extend_from_slice(b"\nendobj\n");
    }
    let xref = data.len();
    data.extend_from_slice(format!("xref\n{} {}\n", first, bodies.len()).as_bytes());
    for offset in offsets {
        data.extend_from_slice(format!("{:010} 00000 n \n", offset).as_bytes());
    }
    data.extend_from_slice(format!("trailer\n{}\nstartxref\n{}\n%%EOF\n", trailer, xref).as_bytes());
    (data, xref)
}

fn one_object_file() -> (Vec<u8>, usize) {
    file_of("%PDF-1.4\n", 1, &[b"<< /Type /Catalog >>"], "<< /Size 2 /Root 1 0 R >>")
}

fn error_of(data: &[u8]) -> ParseError {
    match Parser::new(data) {
        Err(e) => e,
        Ok(parser) => panic!("read {:?}", parser),
    }
}

fn place_of(data: &[u8], pattern: &[u8]) -> usize {
    data.windows(pattern.len()).position(|w| w == pattern).unwrap()
}

#[test]
fn minimal_one_object_document() {
    let (data, _) = one_object_file();
    let parser = Parser::new(&data).unwrap();
    assert_eq!(parser.version, Version(1, 4));
    assert_eq!(parser.start, 0);
    assert_eq!(parser.end, data.len() - 6);
    assert_eq!(parser.mode, LexMode::Lex);
    assert_eq!(parser.cur, place_of(&data, b"trailer") - 2);
    assert_eq!(parser.trailer_dict.len(), 2);
    assert!(matches!(parser.trailer_dict.get(b"Size"), Some(Object::Int(2))));
    assert!(matches!(parser.trailer_dict.get(b"Root"), Some(Object::RawReference(1, 0))));
    assert_eq!(parser.xref_table.len(), 1);
    match parser.xref_table.get(&1) {
        Some(Object::Dict(dict)) => {
            assert_eq!(dict.len(), 1);
            assert!(matches!(dict.get(b"Type"), Some(Object::Name(n)) if n == &b"Catalog".to_vec()));
        }
        other => panic!("{:?}", other),
    }
}

#[test]
fn table_holds_as_many_objects_as_are_declared_in_use() {
    for count in 1..6usize {
        let bodies: Vec<&[u8]> = vec![b"<< /K [1 2 3] >>"; count];
        let (data, _) = file_of("%PDF-1.3\n", 5, &bodies, "<< /Size 11 >>");
        let parser = Parser::new(&data).unwrap();
        assert_eq!(parser.xref_table.len(), count);
        for number in 5..5 + count {
            assert!(matches!(parser.xref_table.get(&number), Some(Object::Dict(_))));
        }
        assert!(parser.xref_table.get(&4).is_none());
        assert!(parser.xref_table.get(&(5 + count)).is_none());
        assert!(matches!(parser.trailer_dict.get(b"Size"), Some(Object::Int(11))));
    }
}

#[test]
fn free_entries_are_left_out() {
    let mut data = b"%PDF-1.4\n".to_vec();
    let offset = data.len();
    data.extend_from_slice(b"1 0 obj (one) endobj\n");
    let xref = data.len();
    data.extend_from_slice(b"xref\n0 3\n0000000000 65535 f \n");
    data.extend_from_slice(format!("{:010} 00000 n \n", offset).as_bytes());
    data.extend_from_slice(b"0000000000 65535 f \n");
    data.extend_from_slice(format!("trailer\n<< /Size 3 >>\nstartxref\n{}\n%%EOF", xref).as_bytes());
    let parser = Parser::new(&data).unwrap();
    assert_eq!(parser.xref_table.len(), 1);
    assert!(matches!(parser.xref_table.get(&1), Some(Object::String(s)) if s == &b"one".to_vec()));
    assert!(parser.xref_table.get(&0).is_none());
    assert!(parser.xref_table.get(&2).is_none());
}

#[test]
fn line_breaks_of_any_form_before_the_marker() {
    for line_break in ["\n", "\r", "\r\n"] {
        let (data, xref) = one_object_file();
        let cut = place_of(&data, b"startxref");
        let mut data = data[..cut].to_vec();
        data.extend_from_slice(format!("startxref{}{}{}%%EOF", line_break, xref, line_break).as_bytes());
        let parser = Parser::new(&data).unwrap();
        assert_eq!(parser.end, data.len() - 5);
        assert_eq!(parser.xref_table.len(), 1);
    }
}

#[test]
fn version_gate() {
    let (data, _) = file_of("%PDF-1.4\n", 1, &[b"1"], "<< /Size 2 >>");
    assert_eq!(Parser::new(&data).unwrap().version, Version(1, 4));
    let (data, _) = file_of("%PDF-1.5\n", 1, &[b"1"], "<< /Size 2 >>");
    assert_eq!(error_of(&data), ParseError { kind: ParseErrorKind::UnsupportedVersion, offset: 0 });
    assert_eq!(
        error_of(b"%PDF-1.5"),
        ParseError { kind: ParseErrorKind::UnsupportedVersion, offset: 0 }
    );
    let (data, _) = file_of("%PDF-0.9\n", 1, &[b"1"], "<< /Size 2 >>");
    assert_eq!(Parser::new(&data).unwrap().version, Version(0, 9));
    let (data, _) = file_of("%PDF-1.0\n", 1, &[b"1"], "<< /Size 2 >>");
    assert_eq!(Parser::new(&data).unwrap().version, Version(1, 0));
}

#[test]
fn header_and_its_version() {
    assert_eq!(read_header(b"%PDF-1.4\n"), Ok((0, Version(1, 4), 8)));
    assert_eq!(read_header(b"junk %PDF-1.3 %PDF-1.7"), Ok((5, Version(1, 3), 13)));
    assert_eq!(read_header(b"%PDF-001.004"), Ok((0, Version(1, 4), 12)));
    assert_eq!(read_header(b"%PDF-0.255"), Ok((0, Version(0, 255), 10)));
    for (text, offset) in [
        (&b"%PDF-1.5"[..], 0),
        (b"  %PDF-2.0", 2),
        (b"%PDF-1.10", 0),
        (b"%PDF-255.0", 0),
    ] {
        assert_eq!(
            read_header(text),
            Err(ParseError { kind: ParseErrorKind::UnsupportedVersion, offset })
        );
    }
    for (text, offset) in [
        (&b""[..], 0),
        (b"%PDF", 4),
        (b"PDF-1.4", 7),
        (b"%PDF-", 5),
        (b"%PDF-x.4", 5),
        (b"%PDF-1", 6),
        (b"%PDF-1x4", 6),
        (b"%PDF-1.", 7),
        (b"%PDF-1.x", 7),
        (b"%PDF-256.0", 5),
        (b"%PDF-1.256", 7),
        (b"%PDF-1\n.4", 6),
    ] {
        assert_eq!(
            read_header(text),
            Err(ParseError { kind: ParseErrorKind::MalformedHeader, offset }),
            "{:?}",
            text
        );
    }
}

#[test]
fn header_may_stand_behind_other_bytes() {
    let (data, _) = file_of("\u{1}\u{2}%PDF-1.2\n", 1, &[b"1"], "<< /Size 2 >>");
    let parser = Parser::new(&data).unwrap();
    assert_eq!(parser.start, 2);
    assert_eq!(parser.version, Version(1, 2));
}

#[test]
fn footer_and_its_offset() {
    assert_eq!(read_footer(b"startxref\n123\n%%EOF\n"), Ok((14, 13, 123)));
    assert_eq!(read_footer(b"x 7\r\n%%EOF"), Ok((5, 3, 7)));
    assert_eq!(read_footer(b"%%EOF 0042\r%%EOF"), Ok((11, 10, 42)));
    for (text, offset) in [
        (&b""[..], 0),
        (b"123\n%%EO", 8),
        (b"%%EOF", 0),
        (b"\n%%EOF", 1),
        (b"123%%EOF", 3),
        (b"123 %%EOF", 4),
        (b"\n\n%%EOF", 1),
        (b"x\n%%EOF", 1),
        (b"12 \n%%EOF", 3),
        (b"99999999999999999999999\n%%EOF", 23),
    ] {
        assert_eq!(
            read_footer(text),
            Err(ParseError { kind: ParseErrorKind::MalformedFooter, offset }),
            "{:?}",
            text
        );
    }
}

#[test]
fn missing_marker_or_offset() {
    let (data, _) = one_object_file();
    let cut = place_of(&data, b"%%EOF");
    assert_eq!(
        error_of(&data[..cut]),
        ParseError { kind: ParseErrorKind::MalformedFooter, offset: cut }
    );
    let mut spaced = data[..cut - 1].to_vec();
    spaced.extend_from_slice(b" %%EOF");
    assert_eq!(
        error_of(&spaced),
        ParseError { kind: ParseErrorKind::MalformedFooter, offset: cut }
    );
    assert_eq!(
        error_of(b"no header"),
        ParseError { kind: ParseErrorKind::MalformedHeader, offset: 9 }
    );
}

#[test]
fn generation_numbers_of_updated_files_are_rejected() {
    let (data, xref) = one_object_file();
    let entry = place_of(&data, b" 00000 n");
    let mut in_use = data.clone();
    in_use[entry + 5] = b'1';
    assert_eq!(
        error_of(&in_use),
        ParseError { kind: ParseErrorKind::UnsupportedGeneration, offset: entry + 1 }
    );
    let mut free = data.clone();
    free[entry + 7] = b'f';
    assert_eq!(
        error_of(&free),
        ParseError { kind: ParseErrorKind::UnsupportedGeneration, offset: entry + 1 }
    );
    let mut free = data.clone();
    free[entry + 1..entry + 8].copy_from_slice(b"65535 f");
    assert_eq!(Parser::new(&free).unwrap().xref_table.len(), 0);
    let mut in_use = data.clone();
    in_use[entry + 1..entry + 8].copy_from_slice(b"65535 n");
    assert_eq!(
        error_of(&in_use),
        ParseError { kind: ParseErrorKind::UnsupportedGeneration, offset: entry + 1 }
    );
    assert!(xref < entry);
}

#[test]
fn xref_entry_by_itself() {
    let data = b"7 0 obj 42 endobj 0000000000 00000 n 5 65535 f 0 1 n 0 0 f 0 0 x 0 n";
    let table = HashMap::new();
    assert!(matches!(read_xref_entry(data, 17, &table), Ok((Some(Object::Int(42)), 36))));
    assert!(matches!(read_xref_entry(data, 36, &table), Ok((None, 46))));
    for (pos, kind, offset) in [
        (46, ParseErrorKind::UnsupportedGeneration, 49),
        (52, ParseErrorKind::UnsupportedGeneration, 55),
        (58, ParseErrorKind::MalformedXrefEntry, 63),
        (64, ParseErrorKind::MalformedXrefEntry, 67),
        (66, ParseErrorKind::MalformedXrefEntry, 67),
        (68, ParseErrorKind::MalformedXrefEntry, 68),
    ] {
        assert_eq!(
            read_xref_entry(data, pos, &table).err(),
            Some(ParseError { kind, offset }),
            "{}",
            pos
        );
    }
    assert_eq!(
        read_xref_entry(b"-1 0 n", 0, &table).err(),
        Some(ParseError { kind: ParseErrorKind::MalformedXrefEntry, offset: 0 })
    );
    assert_eq!(
        read_xref_entry(b"100 0 n", 0, &table).err(),
        Some(ParseError { kind: ParseErrorKind::UnexpectedEof, offset: 100 })
    );
}

#[test]
fn xref_entries_join_the_table_in_order() {
    let data = b"(a) (b) 0 0 n 0 65535 f 4 0 n";
    let mut table = HashMap::new();
    table.insert(9usize, Object::Int(1));
    assert_eq!(read_xref_entries(data, 7, &mut table, 3, 3), Ok(29));
    assert_eq!(table.len(), 3);
    assert!(matches!(table.get(&3), Some(Object::String(s)) if s == &b"a".to_vec()));
    assert!(matches!(table.get(&5), Some(Object::String(s)) if s == &b"b".to_vec()));
    assert!(matches!(table.get(&9), Some(Object::Int(1))));
    assert_eq!(read_xref_entries(data, 7, &mut table, 3, 0), Ok(7));
    assert_eq!(
        read_xref_entries(data, 7, &mut table, 3, 4),
        Err(ParseError { kind: ParseErrorKind::MalformedXrefEntry, offset: 29 })
    );
}

#[test]
fn trailer_must_be_there() {
    let (data, _) = one_object_file();
    let at = place_of(&data, b"trailer");
    let mut missing = data.clone();
    missing[at] = b'T';
    assert_eq!(
        error_of(&missing),
        ParseError { kind: ParseErrorKind::MissingTrailer, offset: data.len() - 7 }
    );
    let mut longer = data.clone();
    longer[at + 7] = b's';
    assert_eq!(
        error_of(&longer),
        ParseError { kind: ParseErrorKind::MissingTrailer, offset: at }
    );
}

#[test]
fn trailer_must_be_a_dictionary() {
    let (data, _) = file_of("%PDF-1.4\n", 1, &[b"1"], "[ /Size 2 ]");
    let at = place_of(&data, b"trailer");
    assert_eq!(
        error_of(&data),
        ParseError { kind: ParseErrorKind::NonDictTrailer, offset: at + 8 }
    );
    let (data, _) = file_of("%PDF-1.4\n", 1, &[b"1"], "<< /Size >>");
    let at = place_of(&data, b"trailer");
    assert_eq!(
        error_of(&data),
        ParseError { kind: ParseErrorKind::Unimplemented, offset: at + 17 }
    );
}

#[test]
fn trailer_must_not_be_empty() {
    let (data, xref) = file_of("%PDF-1.4\n", 1, &[b"1"], "<< >>");
    assert_eq!(
        error_of(&data),
        ParseError { kind: ParseErrorKind::MissingTrailer, offset: xref }
    );
}

#[test]
fn trailer_by_itself() {
    let data = b"trailer << /A 1 >> trailer\n<</Size 5>>\nstartxref";
    let table = HashMap::new();
    match read_trailer(data, 40, &table) {
        Ok((dict, next)) => {
            assert_eq!(next, 38);
            assert!(matches!(dict.get(b"Size"), Some(Object::Int(5))));
        }
        other => panic!("{:?}", other),
    }
    match read_trailer(data, 18, &table) {
        Ok((dict, next)) => {
            assert_eq!(next, 18);
            assert!(matches!(dict.get(b"A"), Some(Object::Int(1))));
        }
        other => panic!("{:?}", other),
    }
    assert_eq!(
        read_trailer(data, data.len(), &table).err(),
        Some(ParseError { kind: ParseErrorKind::MissingTrailer, offset: data.len() })
    );
    assert_eq!(
        read_trailer(b"trailerx <<>>", 5, &table).err(),
        Some(ParseError { kind: ParseErrorKind::MissingTrailer, offset: 0 })
    );
    assert!(read_trailer(b"xtrailer <<>>", 5, &table).is_ok());
}

#[test]
fn xref_section_must_be_there() {
    let (data, xref) = one_object_file();
    let mut wrong = data.clone();
    wrong[xref] = b'X';
    assert_eq!(error_of(&wrong), ParseError { kind: ParseErrorKind::MissingXref, offset: xref });
    let cut = place_of(&data, b"startxref");
    let mut far = data[..cut].to_vec();
    far.extend_from_slice(b"startxref\n99999\n%%EOF");
    assert_eq!(error_of(&far), ParseError { kind: ParseErrorKind::MissingXref, offset: 99999 });
    let mut early = data[..cut].to_vec();
    early.extend_from_slice(b"startxref\n0\n%%EOF");
    assert_eq!(error_of(&early), ParseError { kind: ParseErrorKind::MissingXref, offset: 0 });
}

#[test]
fn xref_section_must_be_whole() {
    let (data, xref) = one_object_file();
    let mut more = data.clone();
    more[xref + 7] = b'2';
    let at = place_of(&data, b"trailer");
    assert_eq!(
        error_of(&more),
        ParseError { kind: ParseErrorKind::MalformedXrefEntry, offset: at }
    );
    for line in ["-1 1", "1 -1", "+0 -0001"] {
        let cut = place_of(&data, b"xref");
        let rest = place_of(&data, b"trailer");
        let mut other = data[..cut].to_vec();
        other.extend_from_slice(format!("xref\n{}\n", line).as_bytes());
        other.extend_from_slice(&data[rest..]);
        assert_eq!(
            error_of(&other),
            ParseError { kind: ParseErrorKind::MalformedXrefEntry, offset: xref + 5 },
            "{}",
            line
        );
    }
    let mut word = data.clone();
    word[xref + 7] = b'n';
    assert_eq!(
        error_of(&word),
        ParseError { kind: ParseErrorKind::MalformedXrefEntry, offset: xref + 7 }
    );
    let mut no_mark = data.clone();
    let mark = place_of(&data, b" n \n");
    no_mark[mark + 1] = b'7';
    assert_eq!(
        error_of(&no_mark),
        ParseError { kind: ParseErrorKind::MalformedXrefEntry, offset: mark + 1 }
    );
}

#[test]
fn object_that_cannot_be_read_fails_the_file() {
    let (data, _) = file_of("%PDF-1.4\n", 1, &[b"<< /A (b >>"], "<< /Size 2 >>");
    assert_eq!(
        error_of(&data),
        ParseError { kind: ParseErrorKind::UnexpectedEof, offset: data.len() }
    );
    let (data, _) = file_of("%PDF-1.4\n", 1, &[b"<< /A true >>"], "<< /Size 2 >>");
    assert_eq!(
        error_of(&data),
        ParseError { kind: ParseErrorKind::Unimplemented, offset: 23 }
    );
}

#[test]
fn stream_length_given_directly_or_by_reference() {
    let (direct, _) = file_of(
        "%PDF-1.4\n",
        1,
        &[b"5", b"<< /Length 5 >>\nstream\nhello\nendstream"],
        "<< /Size 3 >>",
    );
    let (indirect, _) = file_of(
        "%PDF-1.4\n",
        1,
        &[b"5", b"<< /Length 1 0 R >>\nstream\nhello\nendstream"],
        "<< /Size 3 >>",
    );
    let one = Parser::new(&direct).unwrap();
    let two = Parser::new(&indirect).unwrap();
    match (one.xref_table.get(&2), two.xref_table.get(&2)) {
        (Some(Object::Stream(a_dict, a)), Some(Object::Stream(b_dict, b))) => {
            assert_eq!(*a, b"hello");
            assert_eq!(a, b);
            assert!(matches!(a_dict.get(b"Length"), Some(Object::Int(5))));
            assert!(matches!(b_dict.get(b"Length"), Some(Object::RawReference(1, 0))));
        }
        other => panic!("{:?}", other),
    }
}

#[test]
fn stream_length_by_reference_to_a_later_object_is_not_resolved() {
    let (data, _) = file_of(
        "%PDF-1.4\n",
        1,
        &[b"<< /Length 2 0 R >>\nstream\nhello\nendstream", b"5"],
        "<< /Size 3 >>",
    );
    let at = place_of(&data, b"stream") + 6;
    assert_eq!(
        error_of(&data),
        ParseError { kind: ParseErrorKind::UnresolvedLength, offset: at }
    );
}

#[test]
fn stream_with_endstream_in_its_body_in_a_file() {
    let body = b"<< /Length 19 >>\nstream\nendstream endstream\nendstream";
    let (data, _) = file_of("%PDF-1.4\n", 3, &[body], "<< /Size 4 >>");
    let parser = Parser::new(&data).unwrap();
    assert!(matches!(
        parser.xref_table.get(&3),
        Some(Object::Stream(_, bytes)) if *bytes == b"endstream endstream"
    ));
}

#[test]
fn init_reads_again_from_the_first_byte() {
    let (data, _) = one_object_file();
    let mut parser = Parser::lexer(&data);
    parser.seek(20);
    parser.xref_table.insert(77, Object::Int(1));
    assert_eq!(parser.init(), Ok(()));
    assert_eq!(parser.xref_table.len(), 1);
    assert!(parser.xref_table.get(&77).is_none());
    assert_eq!(parser.version, Version(1, 4));
}

#[test]
fn failed_init_leaves_nothing_read() {
    let (data, xref) = one_object_file();
    let mut wrong = data.clone();
    wrong[xref] = b'X';
    let mut parser = Parser::lexer(&wrong);
    parser.seek(20);
    parser.xref_table.insert(77, Object::Int(1));
    assert_eq!(
        parser.init(),
        Err(ParseError { kind: ParseErrorKind::MissingXref, offset: xref })
    );
    assert_eq!(parser.cur, 0);
    assert_eq!(parser.start, 0);
    assert_eq!(parser.end, 0);
    assert_eq!(parser.mode, LexMode::Skip);
    assert_eq!(parser.version, Version(0, 0));
    assert!(parser.trailer_dict.is_empty());
    assert!(parser.xref_table.is_empty());
}

#[test]
fn fill_needs_the_trailer_first() {
    let (data, xref) = one_object_file();
    let mut parser = Parser::lexer(&data);
    parser.seek(xref);
    parser.xref_table.insert(77, Object::Int(1));
    assert_eq!(
        parser.fill_xref_table(),
        Err(ParseError { kind: ParseErrorKind::MissingTrailer, offset: xref })
    );
    assert!(parser.xref_table.is_empty());
    assert_eq!(parser.cur, xref);
    parser.trailer_dict.insert(b"Size".to_vec(), Object::Int(2));
    parser.xref_table.insert(77, Object::Int(1));
    assert_eq!(parser.fill_xref_table(), Ok(()));
    assert_eq!(parser.xref_table.len(), 2);
    assert!(matches!(parser.xref_table.get(&1), Some(Object::Dict(_))));
    assert!(matches!(parser.xref_table.get(&77), Some(Object::Int(1))));
    assert_eq!(parser.cur, place_of(&data, b"trailer") - 2);
}

#[test]
fn failed_fill_empties_the_table() {
    let (data, xref) = one_object_file();
    let entry = place_of(&data, b" 00000 n");
    let mut wrong = data.clone();
    wrong[entry + 5] = b'1';
    let mut parser = Parser::lexer(&wrong);
    parser.trailer_dict.insert(b"Size".to_vec(), Object::Int(2));
    parser.xref_table.insert(77, Object::Int(1));
    parser.seek(xref);
    assert_eq!(
        parser.fill_xref_table(),
        Err(ParseError { kind: ParseErrorKind::UnsupportedGeneration, offset: entry + 1 })
    );
    assert!(parser.xref_table.is_empty());
    assert_eq!(parser.cur, xref);
    assert_eq!(parser.mode, LexMode::Lex);
    assert_eq!(parser.trailer_dict.len(), 1);
}

#[test]
fn markers() {
    assert_eq!(header_mark(), b"%PDF-".to_vec());
    assert_eq!(eof_mark(), b"%%EOF".to_vec());
    assert_eq!(find_last(b"ab ab ab", b"ab"), Some(6));
    assert_eq!(find_last(b"ab ab a", b"ab"), Some(3));
    assert_eq!(find_last(b"ab", b"ab"), Some(0));
    assert_eq!(find_last(b"a", b"ab"), None);
    assert_eq!(find_last(b"xyz", b"ab"), None);
    assert_eq!(digits_start(b"ab123 ", 5), 2);
    assert_eq!(digits_start(b"ab123 ", 6), 6);
    assert_eq!(digits_start(b"123", 3), 0);
    assert_eq!(digits_start(b"123", 9), 9);
    assert_eq!(digits_start(b"123", 0), 0);
}

#[test]
fn marker_may_stand_before_the_header() {
    let data = b"trailer<</A 1>>\n33\n%%EOF %PDF-1.4 xref 5 0 ";
    let parser = Parser::new(data).unwrap();
    assert_eq!(parser.start, 25);
    assert_eq!(parser.end, 19);
    assert_eq!(parser.xref_table.len(), 0);
    assert!(matches!(parser.trailer_dict.get(b"A"), Some(Object::Int(1))));
    assert_eq!(parser.cur, 42);
}
