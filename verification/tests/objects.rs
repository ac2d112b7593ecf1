use pdf_parse::builder::{build_object, length_name, resolve_length};
use pdf_parse::cursor::Parser;
use pdf_parse::error::{ParseError, ParseErrorKind};
use pdf_parse::lexis::LexMode;
use pdf_parse::object::{Dict, Object};
use pdf_parse::token::{Keyword, Token};
use std::collections::HashMap;

fn fails(text: &[u8], kind: ParseErrorKind, offset: usize) {
    let mut parser = Parser::lexer(text);
    match parser.chop_obj() {
        Err(e) => assert_eq!(e, ParseError { kind, offset }),
        Ok(object) => panic!("read {:?}", object),
    }
    assert_eq!(parser.cur, 0);
    assert_eq!(parser.mode, LexMode::Lex);
}

fn int_of(object: &Object) -> i64 {
    match object {
        Object::Int(i) => *i,
        other => panic!("not an integer: {:?}", other),
    }
}

#[test]
fn integers_and_a_reference() {
    let mut parser = Parser::lexer(b"7 0 R ");
    assert!(matches!(parser.chop_obj(), Ok(Object::RawReference(7, 0))));
    assert_eq!(parser.cur, 5);
}

#[test]
fn integers_and_an_indirect_object() {
    let mut parser = Parser::lexer(b"7 0 obj 42 endobj ");
    assert!(matches!(parser.chop_obj(), Ok(Object::Int(42))));
    assert_eq!(parser.cur, 17);
}

#[test]
fn bare_integer_leaves_the_cursor_behind_it() {
    let mut parser = Parser::lexer(b"7 /Name");
    assert!(matches!(parser.chop_obj(), Ok(Object::Int(7))));
    assert_eq!(parser.cur, 1);
    let mut parser = Parser::lexer(b"7");
    assert!(matches!(parser.chop_obj(), Ok(Object::Int(7))));
    assert_eq!(parser.cur, 1);
}

#[test]
fn two_integers_without_a_keyword_are_two_objects() {
    let mut parser = Parser::lexer(b" 7 8 9 R");
    assert!(matches!(parser.chop_obj(), Ok(Object::Int(7))));
    assert_eq!(parser.cur, 2);
    assert!(matches!(parser.chop_obj(), Ok(Object::RawReference(8, 9))));
    assert_eq!(parser.cur, 8);
    let mut parser = Parser::lexer(b"7 8 foo");
    assert!(matches!(parser.chop_obj(), Ok(Object::Int(7))));
    assert_eq!(parser.cur, 1);
    let mut parser = Parser::lexer(b"7 8 endobj");
    assert!(matches!(parser.chop_obj(), Ok(Object::Int(7))));
    assert_eq!(parser.cur, 1);
}

#[test]
fn scalars() {
    let mut parser = Parser::lexer(b"1.5 (text) <4142> /Name#21");
    match parser.chop_obj() {
        Ok(Object::Real(text)) => {
            assert_eq!(text, b"1.5".to_vec());
            assert_eq!(std::str::from_utf8(&text).unwrap().parse::<f64>(), Ok(1.5));
        }
        other => panic!("{:?}", other),
    }
    assert!(matches!(parser.chop_obj(), Ok(Object::String(s)) if s == b"text".to_vec()));
    assert!(matches!(parser.chop_obj(), Ok(Object::String(s)) if s == b"AB".to_vec()));
    assert!(matches!(parser.chop_obj(), Ok(Object::Name(s)) if s == b"Name!".to_vec()));
    assert_eq!(parser.cur, 26);
}

#[test]
fn arrays() {
    let mut parser = Parser::lexer(b"[1 2 3 R [ ] /N (s)] tail");
    match parser.chop_obj() {
        Ok(Object::Array(items)) => {
            assert_eq!(items.len(), 5);
            assert_eq!(int_of(&items[0]), 1);
            assert!(matches!(items[1], Object::RawReference(2, 3)));
            assert!(matches!(&items[2], Object::Array(inner) if inner.is_empty()));
            assert!(matches!(&items[3], Object::Name(n) if n == &b"N".to_vec()));
            assert!(matches!(&items[4], Object::String(s) if s == &b"s".to_vec()));
        }
        other => panic!("{:?}", other),
    }
    assert_eq!(parser.cur, 20);
}

#[test]
fn array_by_its_own_function() {
    let mut parser = Parser::lexer(b" [7]");
    assert!(matches!(parser.chop_array_obj(), Ok(Object::Array(items)) if items.len() == 1));
    assert_eq!(parser.cur, 4);
    let mut parser = Parser::lexer(b"  7 ]");
    assert_eq!(
        parser.chop_array_obj().err(),
        Some(ParseError { kind: ParseErrorKind::UnexpectedToken, offset: 2 })
    );
    assert_eq!(parser.cur, 0);
    let mut parser = Parser::lexer(b"[7 ");
    assert_eq!(
        parser.chop_array_obj().err(),
        Some(ParseError { kind: ParseErrorKind::UnexpectedEof, offset: 3 })
    );
    assert_eq!(parser.cur, 0);
}

#[test]
fn dictionaries() {
    let mut parser = Parser::lexer(b"<< /Type /Catalog /Count 3 /Kids [4 0 R] /In << /X 1 >> >>");
    match parser.chop_obj() {
        Ok(Object::Dict(dict)) => {
            assert_eq!(dict.len(), 4);
            assert!(!dict.is_empty());
            assert!(matches!(dict.get(b"Type"), Some(Object::Name(n)) if n == &b"Catalog".to_vec()));
            assert!(matches!(dict.get(b"Count"), Some(Object::Int(3))));
            assert!(matches!(dict.get(b"Kids"), Some(Object::Array(items)) if items.len() == 1));
            match dict.get(b"In") {
                Some(Object::Dict(inner)) => {
                    assert!(matches!(inner.get(b"X"), Some(Object::Int(1))));
                    assert_eq!(inner.len(), 1);
                }
                other => panic!("{:?}", other),
            }
            assert!(dict.get(b"Missing").is_none());
        }
        other => panic!("{:?}", other),
    }
    assert_eq!(parser.cur, 58);
}

#[test]
fn later_key_replaces_an_earlier_one() {
    let mut parser = Parser::lexer(b"<</A 1/B 2/A 3>>");
    match parser.chop_dict_obj() {
        Ok(Object::Dict(dict)) => {
            assert_eq!(dict.len(), 2);
            assert!(matches!(dict.get(b"A"), Some(Object::Int(3))));
            assert!(matches!(dict.get(b"B"), Some(Object::Int(2))));
        }
        other => panic!("{:?}", other),
    }
}

#[test]
fn dictionary_by_its_own_function() {
    let mut parser = Parser::lexer(b"<< >> ");
    assert!(matches!(parser.chop_dict_obj(), Ok(Object::Dict(dict)) if dict.is_empty()));
    assert_eq!(parser.cur, 5);
    let mut parser = Parser::lexer(b" [ ]");
    assert_eq!(
        parser.chop_dict_obj().err(),
        Some(ParseError { kind: ParseErrorKind::UnexpectedToken, offset: 1 })
    );
    assert_eq!(parser.cur, 0);
}

#[test]
fn dictionary_key_must_be_a_name() {
    fails(b"<< 1 2 >>", ParseErrorKind::NonNameKey, 3);
    fails(b"<< /A 1 (b) 2 >>", ParseErrorKind::NonNameKey, 8);
    fails(b"<< /A >>", ParseErrorKind::Unimplemented, 6);
    fails(b"<< /A > >>", ParseErrorKind::StrayDelimiter, 6);
    fails(b"<< /A 1", ParseErrorKind::UnexpectedEof, 7);
}

#[test]
fn name_by_its_own_function() {
    let mut parser = Parser::lexer(b" /A#20B 1");
    assert!(matches!(parser.chop_name_obj(), Ok(Object::Name(n)) if n == b"A B".to_vec()));
    assert_eq!(parser.cur, 7);
    let mut parser = Parser::lexer(b"A");
    assert_eq!(
        parser.chop_name_obj().err(),
        Some(ParseError { kind: ParseErrorKind::UnknownKeyword, offset: 0 })
    );
    let mut parser = Parser::lexer(b"12");
    assert_eq!(
        parser.chop_name_obj().err(),
        Some(ParseError { kind: ParseErrorKind::UnexpectedToken, offset: 0 })
    );
    let mut parser = Parser::lexer(b"/A#");
    assert_eq!(
        parser.chop_name_obj().err(),
        Some(ParseError { kind: ParseErrorKind::IllegalHexDigit, offset: 2 })
    );
    assert_eq!(parser.cur, 0);
}

#[test]
fn tokens_that_begin_no_object() {
    fails(b"true", ParseErrorKind::Unimplemented, 0);
    fails(b" null", ParseErrorKind::Unimplemented, 1);
    fails(b"]", ParseErrorKind::Unimplemented, 0);
    fails(b">>", ParseErrorKind::Unimplemented, 0);
    fails(b"endobj", ParseErrorKind::Unimplemented, 0);
    fails(b"[ 1 >> ]", ParseErrorKind::Unimplemented, 4);
    fails(b"", ParseErrorKind::UnexpectedEof, 0);
    fails(b"(a", ParseErrorKind::UnexpectedEof, 2);
}

#[test]
fn indirect_object_needs_its_end() {
    fails(b"1 0 obj 5 foo", ParseErrorKind::MissingEndObj, 10);
    fails(b"1 0 obj 5", ParseErrorKind::MissingEndObj, 9);
    fails(b"1 0 obj 5 6", ParseErrorKind::MissingEndObj, 10);
    fails(b"1 0 obj", ParseErrorKind::UnexpectedEof, 7);
}

#[test]
fn stream_takes_exactly_its_length() {
    let text = b"7 0 obj << /Length 21 >> stream\nab endstream endobj x\nendstream\nendobj";
    let mut parser = Parser::lexer(text);
    match parser.chop_obj() {
        Ok(Object::Stream(dict, data)) => {
            assert_eq!(data, b"ab endstream endobj x");
            assert!(matches!(dict.get(b"Length"), Some(Object::Int(21))));
        }
        other => panic!("{:?}", other),
    }
    assert_eq!(parser.cur, text.len());
    assert_eq!(parser.mode, LexMode::Lex);
}

#[test]
fn stream_body_borrows_from_the_data() {
    let text = b"1 0 obj<</Length 3>>stream\r\n\x00\xff\nendstream endobj";
    let mut parser = Parser::lexer(text);
    match parser.chop_obj() {
        Ok(Object::Stream(_, data)) => {
            assert_eq!(data, &text[28..31]);
            assert_eq!(data.as_ptr(), text[28..].as_ptr());
        }
        other => panic!("{:?}", other),
    }
}

#[test]
fn stream_of_no_bytes() {
    let mut parser = Parser::lexer(b"1 0 obj<</Length 0>>stream\nendstream endobj");
    assert!(matches!(parser.chop_obj(), Ok(Object::Stream(_, data)) if data.is_empty()));
}

#[test]
fn stream_must_be_followed_by_endstream() {
    fails(
        b"7 0 obj << /Length 2 >> stream\nabc endstream\nendstream endobj",
        ParseErrorKind::MissingEndStream,
        33,
    );
    fails(b"7 0 obj << /Length 2 >> stream\nabc", ParseErrorKind::MissingEndStream, 33);
    fails(b"7 0 obj << /Length 2 >> stream\nab 12", ParseErrorKind::MissingEndStream, 34);
    fails(b"7 0 obj << /Length 2 >> stream\nab", ParseErrorKind::MissingEndStream, 33);
}

#[test]
fn stream_must_be_followed_by_endobj() {
    fails(
        b"7 0 obj << /Length 2 >> stream\nab endstream 5",
        ParseErrorKind::MissingEndObj,
        44,
    );
    fails(b"7 0 obj << /Length 2 >> stream\nab endstream", ParseErrorKind::MissingEndObj, 43);
}

#[test]
fn stream_needs_a_line_break_and_enough_bytes() {
    fails(b"7 0 obj << /Length 2 >> stream ab endstream endobj", ParseErrorKind::MalformedStream, 30);
    fails(b"7 0 obj << /Length 2 >> stream", ParseErrorKind::MalformedStream, 30);
    fails(b"7 0 obj << /Length 9 >> stream\nab", ParseErrorKind::MalformedStream, 31);
}

#[test]
fn stream_needs_a_dictionary() {
    fails(b"7 0 obj [ ] stream\nab endstream endobj", ParseErrorKind::StreamWithoutDict, 12);
    fails(b"7 0 obj 5 stream", ParseErrorKind::StreamWithoutDict, 10);
}

#[test]
fn stream_needs_a_length() {
    fails(b"7 0 obj << >> stream\nab endstream endobj", ParseErrorKind::BadLength, 20);
    fails(b"7 0 obj << /Length -1 >> stream\nab endstream endobj", ParseErrorKind::BadLength, 31);
    fails(b"7 0 obj << /Length /X >> stream\nab endstream endobj", ParseErrorKind::BadLength, 31);
    fails(b"7 0 obj << /Length 2.0 >> stream\nab endstream endobj", ParseErrorKind::BadLength, 32);
    fails(
        b"7 0 obj << /Length 3 0 R >> stream\nab endstream endobj",
        ParseErrorKind::UnresolvedLength,
        34,
    );
    fails(
        b"7 0 obj << /Length -3 0 R >> stream\nab endstream endobj",
        ParseErrorKind::UnresolvedLength,
        35,
    );
}

#[test]
fn length_by_reference_into_the_table() {
    let text = b"<< /Length 3 0 R >> stream\nabcd endstream";
    let mut parser = Parser::lexer(text);
    parser.xref_table.insert(3, Object::Int(4));
    let dict = match parser.chop_dict_obj() {
        Ok(Object::Dict(dict)) => dict,
        other => panic!("{:?}", other),
    };
    assert_eq!(parser.cur, 19);
    assert_eq!(resolve_length(&dict, &parser.xref_table), Ok(4));
    match parser.chop_stream_obj(dict) {
        Ok(Object::Stream(dict, data)) => {
            assert_eq!(data, b"abcd");
            assert!(matches!(dict.get(b"Length"), Some(Object::RawReference(3, 0))));
        }
        other => panic!("{:?}", other),
    }
    assert_eq!(parser.cur, text.len());
}

#[test]
fn length_by_reference_must_be_an_integer() {
    let mut parser = Parser::lexer(b"7 0 obj << /Length 3 0 R >> stream\nab endstream endobj");
    parser.xref_table.insert(3, Object::Name(b"X".to_vec()));
    assert_eq!(
        parser.chop_obj().err(),
        Some(ParseError { kind: ParseErrorKind::BadLength, offset: 34 })
    );
    parser.xref_table.insert(3, Object::Int(-2));
    assert_eq!(
        parser.chop_obj().err(),
        Some(ParseError { kind: ParseErrorKind::BadLength, offset: 34 })
    );
    parser.xref_table.insert(3, Object::Int(2));
    assert!(matches!(parser.chop_obj(), Ok(Object::Stream(_, data)) if data == b"ab"));
}

#[test]
fn direct_and_indirect_length_give_the_same_bytes() {
    let direct = b"<< /Length 5 >> stream\nhello\nendstream";
    let indirect = b"<< /Length 9 0 R >> stream\nhello\nendstream";
    let mut table = HashMap::new();
    table.insert(9usize, Object::Int(5));
    let one = match build_object(direct, 0, &table) {
        Ok((Object::Dict(dict), next)) => {
            let mut parser = Parser::lexer(direct);
            parser.seek(next);
            parser.chop_stream_obj(dict)
        }
        other => panic!("{:?}", other),
    };
    let two = match build_object(indirect, 0, &table) {
        Ok((Object::Dict(dict), next)) => {
            let mut parser = Parser::lexer(indirect);
            parser.xref_table.insert(9, Object::Int(5));
            parser.seek(next);
            parser.chop_stream_obj(dict)
        }
        other => panic!("{:?}", other),
    };
    match (one, two) {
        (Ok(Object::Stream(_, a)), Ok(Object::Stream(_, b))) => {
            assert_eq!(a, b"hello");
            assert_eq!(a, b);
        }
        other => panic!("{:?}", other),
    }
}

#[test]
fn stream_by_its_own_function_needs_the_keyword() {
    let mut parser = Parser::lexer(b" endstream");
    assert_eq!(
        parser.chop_stream_obj(Dict::new()).err(),
        Some(ParseError { kind: ParseErrorKind::UnexpectedToken, offset: 1 })
    );
    assert_eq!(parser.cur, 0);
    let mut parser = Parser::lexer(b"stream\nab");
    assert_eq!(
        parser.chop_stream_obj(Dict::new()).err(),
        Some(ParseError { kind: ParseErrorKind::BadLength, offset: 6 })
    );
    assert_eq!(parser.cur, 0);
    assert_eq!(parser.mode, LexMode::Lex);
}

#[test]
fn object_in_stream_state_is_the_raw_body() {
    let mut parser = Parser::lexer(b"stream\nraw endstream");
    assert_eq!(parser.chop_token(), Ok(Token::Keyword(Keyword::Stream)));
    assert!(matches!(parser.chop_obj(), Ok(Object::String(s)) if s == b"raw ".to_vec()));
    assert_eq!(parser.mode, LexMode::Lex);
    assert_eq!(parser.cur, 11);
    let mut parser = Parser::lexer(b"stream\n[ ] endstream");
    assert_eq!(parser.chop_token(), Ok(Token::Keyword(Keyword::Stream)));
    assert_eq!(
        parser.chop_array_obj().err(),
        Some(ParseError { kind: ParseErrorKind::UnexpectedToken, offset: 6 })
    );
    assert_eq!(parser.mode, LexMode::Stream);
}

#[test]
fn no_object_before_the_header_is_read() {
    let mut parser = Parser::over(b"12");
    assert_eq!(
        parser.chop_obj().err(),
        Some(ParseError { kind: ParseErrorKind::HeaderNotRead, offset: 0 })
    );
    assert_eq!(
        parser.chop_dict_obj().err(),
        Some(ParseError { kind: ParseErrorKind::HeaderNotRead, offset: 0 })
    );
}

#[test]
fn deeply_nested_arrays() {
    let mut text = Vec::new();
    for _ in 0..200 {
        text.push(b'[');
    }
    for _ in 0..200 {
        text.push(b']');
    }
    let mut parser = Parser::lexer(&text);
    let mut object = parser.chop_obj().unwrap();
    let mut depth = 0;
    loop {
        match object {
            Object::Array(mut items) => {
                depth += 1;
                if items.is_empty() {
                    break;
                }
                assert_eq!(items.len(), 1);
                object = items.pop().unwrap();
            }
            other => panic!("{:?}", other),
        }
    }
    assert_eq!(depth, 200);
}

#[test]
fn dictionary_holds_each_key_once() {
    let mut dict = Dict::new();
    assert!(dict.is_empty());
    assert_eq!(dict.len(), 0);
    assert!(dict.entry(0).is_none());
    dict.insert(b"A".to_vec(), Object::Int(1));
    dict.insert(b"B".to_vec(), Object::Int(2));
    dict.insert(b"A".to_vec(), Object::Int(3));
    dict.insert(Vec::new(), Object::Int(4));
    assert_eq!(dict.len(), 3);
    assert!(!dict.is_empty());
    assert!(matches!(dict.get(b"A"), Some(Object::Int(3))));
    assert!(matches!(dict.get(b"B"), Some(Object::Int(2))));
    assert!(matches!(dict.get(b""), Some(Object::Int(4))));
    assert!(dict.get(b"C").is_none());
    let mut seen = Vec::new();
    let mut i = 0;
    while let Some((key, object)) = dict.entry(i) {
        seen.push((key.to_vec(), int_of(object)));
        i += 1;
    }
    assert_eq!(i, 3);
    seen.sort();
    assert_eq!(seen, vec![(b"".to_vec(), 4), (b"A".to_vec(), 3), (b"B".to_vec(), 2)]);
}

#[test]
fn length_name_is_length() {
    assert_eq!(length_name(), b"Length".to_vec());
    let mut dict = Dict::new();
    let table = HashMap::new();
    assert_eq!(resolve_length(&dict, &table), Err(ParseErrorKind::BadLength));
    dict.insert(length_name(), Object::Int(12));
    assert_eq!(resolve_length(&dict, &table), Ok(12));
    dict.insert(length_name(), Object::RawReference(1, 0));
    assert_eq!(resolve_length(&dict, &table), Err(ParseErrorKind::UnresolvedLength));
}

#[test]
fn copies_hold_the_same_values() {
    let text = b"[1 2.5 (s) /N [3 0 R] << /A << /B [4] >> /C 1 0 obj <</Length 2>> stream\nxy endstream endobj >>]";
    let mut parser = Parser::lexer(text);
    let object = parser.chop_obj().unwrap();
    let copy = object.clone();
    assert_eq!(format!("{:?}", copy), format!("{:?}", object));
    drop(object);
    match &copy {
        Object::Array(items) => {
            assert_eq!(items.len(), 6);
            match &items[5] {
                Object::Dict(dict) => {
                    let again = dict.duplicate();
                    assert_eq!(again.len(), 2);
                    assert!(matches!(again.get(b"C"), Some(Object::Stream(_, data)) if *data == b"xy"));
                }
                other => panic!("{:?}", other),
            }
        }
        other => panic!("{:?}", other),
    }
    let other = parser.clone();
    assert_eq!(other.cur, parser.cur);
    assert_eq!(other.data, parser.data);
}
