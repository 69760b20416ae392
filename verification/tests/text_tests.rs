use nx_syntax::grammar::ParseErrorKind;
use nx_syntax::lexer::{tokenizer, LexError};
use nx_syntax::parser::{parse, ParseError};
use nx_syntax::text::{
    append_decimal, characters, identifier_char, parse_integer, space, str_eq, unquote,
};
use nx_syntax::token::{Token, TokenKind};

#[test]
fn integers_in_decimal_and_hexadecimal() {
    assert_eq!(parse_integer("0"), Some(0));
    assert_eq!(parse_integer("-0"), Some(0));
    assert_eq!(parse_integer("000"), Some(0));
    assert_eq!(parse_integer("007"), Some(7));
    assert_eq!(parse_integer("1000"), Some(1000));
    assert_eq!(parse_integer("-42"), Some(-42));
    assert_eq!(parse_integer("0x1F"), Some(31));
    assert_eq!(parse_integer("0xff"), Some(255));
    assert_eq!(parse_integer("-0x10"), Some(-16));
    assert_eq!(parse_integer("0x0"), Some(0));
}

#[test]
fn integers_at_the_limits() {
    assert_eq!(parse_integer(&isize::MAX.to_string()), Some(isize::MAX));
    assert_eq!(parse_integer(&isize::MIN.to_string()), Some(isize::MIN));
    assert_eq!(parse_integer(&format!("{}", isize::MAX as i128 + 1)), None);
    assert_eq!(parse_integer(&format!("{}", isize::MIN as i128 - 1)), None);
    assert_eq!(parse_integer(&format!("0x{:x}", isize::MAX)), Some(isize::MAX));
    assert_eq!(parse_integer(&format!("0x{:x}", isize::MAX as u128 + 1)), None);
    assert_eq!(parse_integer(&format!("-0x{:x}", isize::MAX as u128 + 1)), Some(isize::MIN));
    assert_eq!(parse_integer("99999999999999999999999999999999999999999999"), None);
    assert_eq!(parse_integer("0xffffffffffffffffffffffffffffffffffffffff"), None);
}

#[test]
fn texts_that_are_no_integers() {
    assert_eq!(parse_integer(""), None);
    assert_eq!(parse_integer("-"), None);
    assert_eq!(parse_integer("+5"), None);
    assert_eq!(parse_integer("0x"), None);
    assert_eq!(parse_integer("-0x"), None);
    assert_eq!(parse_integer("12a"), None);
    assert_eq!(parse_integer("0xg"), None);
    assert_eq!(parse_integer("1 2"), None);
    assert_eq!(parse_integer("--1"), None);
    assert_eq!(parse_integer("٣"), None);
    assert_eq!(parse_integer("1é"), None);
    assert_eq!(parse_integer("0X1f"), None);
}

#[test]
fn strings_compare_by_their_characters() {
    assert!(str_eq("", ""));
    assert!(str_eq("end", "end"));
    assert!(str_eq("é=", "é="));
    assert!(!str_eq("end", "enD"));
    assert!(!str_eq("end", "en"));
    assert!(!str_eq("", "x"));
}

#[test]
fn characters_of_a_string() {
    assert_eq!(characters("aé\n"), vec!['a', 'é', '\n']);
    assert_eq!(characters(""), Vec::<char>::new());
}

#[test]
fn character_classes() {
    for c in [' ', '\t', '\n', '\r', '\u{b}', '\u{c}', '\u{85}', '\u{a0}', '\u{2003}', '\u{3000}'] {
        assert!(space(c), "{:?}", c);
    }
    for c in ['a', '-', '_', '0', '\u{200b}', '\u{8}'] {
        assert!(!space(c), "{:?}", c);
    }
    for c in ['a', 'z', 'A', 'Z', '0', '9', '_'] {
        assert!(identifier_char(c));
    }
    for c in ['-', ' ', 'é', '(', '@'] {
        assert!(!identifier_char(c));
    }
}

#[test]
fn white_space_is_what_the_standard_library_calls_white_space() {
    for code in 0..0x11000u32 {
        if let Some(c) = char::from_u32(code) {
            assert_eq!(space(c), c.is_whitespace(), "{:?}", c);
        }
    }
}

#[test]
fn decimal_numerals() {
    let write = |n: usize| {
        let mut text = String::from("n=");
        append_decimal(&mut text, n);
        text
    };
    assert_eq!(write(0), "n=0");
    assert_eq!(write(7), "n=7");
    assert_eq!(write(10), "n=10");
    assert_eq!(write(1234567890), "n=1234567890");
    assert_eq!(write(usize::MAX), format!("n={}", usize::MAX));
}

#[test]
fn token_written_out() {
    let mut t = Token::new(TokenKind::Keyword, "end".to_string());
    assert_eq!(t.to_text(), "Token: <Keyword,\"end\",0, 0>");
    t.set_line(12);
    t.set_column(3);
    assert_eq!(t.to_text(), "Token: <Keyword,\"end\",12, 3>");
    assert_eq!(TokenKind::MatchDefaultOperator.name(), "MatchDefaultOperator");
}

#[test]
fn every_class_has_its_name() {
    for kind in [
        TokenKind::Identifier,
        TokenKind::Delimiter,
        TokenKind::IntegerLiteral,
        TokenKind::ArithmeticOperator,
        TokenKind::CompareOperator,
        TokenKind::AssignOperator,
        TokenKind::Keyword,
        TokenKind::StringLiteral,
        TokenKind::GuardOperator,
        TokenKind::TimeOperator,
        TokenKind::PipeOperator,
        TokenKind::RightArrow,
        TokenKind::MatchDefaultOperator,
        TokenKind::BooleanLiteral,
        TokenKind::NilLiteral,
    ] {
        assert_eq!(kind.name(), format!("{:?}", kind));
    }
}

#[test]
fn errors_written_out() {
    let e = LexError::Unmatched { line: 3, remainder: "#x".to_string() };
    assert_eq!(e.to_text(), "cannot parse #x at line 3");
    let e = ParseError { kind: ParseErrorKind::NegativeRecordLength, index: 3, line: 1, column: 15 };
    assert_eq!(e.to_text(), "the record length cannot be negative (token 3, line 1, column 15)");
    assert_eq!(ParseErrorKind::MissingEnd.message(), "missing the 'end' keyword");
    let e = parse(tokenizer("task t".to_string()).unwrap()).unwrap_err();
    assert_eq!(
        e.to_text(),
        "the input ends where a task's interval or body should begin (token 2, line 0, column 0)"
    );
}

#[test]
fn text_between_the_quotes() {
    assert_eq!(unquote("\"uart0\""), Some("uart0".to_string()));
    assert_eq!(unquote("'^AT'"), Some("^AT".to_string()));
    assert_eq!(unquote("\"\""), Some(String::new()));
    assert_eq!(unquote("''"), Some(String::new()));
    assert_eq!(unquote("\"é ü\""), Some("é ü".to_string()));
    assert_eq!(unquote("\"a\"b\""), Some("a\"b".to_string()));
    assert_eq!(unquote(""), None);
    assert_eq!(unquote("\""), None);
    assert_eq!(unquote("'"), None);
    assert_eq!(unquote("uart0"), None);
    assert_eq!(unquote("\"uart0"), None);
    assert_eq!(unquote("uart0\""), None);
    assert_eq!(unquote("\"uart0'"), None);
    assert_eq!(unquote("`x`"), None);
}
