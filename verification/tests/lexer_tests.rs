use nx_syntax::lexer::{claim, get_end_pos, get_rules, parse_regex, tokenizer, LexError};
use nx_syntax::token::{Token, TokenKind};

fn lex(source: &str) -> Vec<(TokenKind, String, usize, usize)> {
    tokenizer(source.to_string())
        .expect("the source lexes")
        .iter()
        .map(|t| (*t.kind(), t.value().to_string(), t.line(), t.column()))
        .collect()
}

fn kinds_and_lexemes(source: &str) -> Vec<(TokenKind, String)> {
    lex(source).into_iter().map(|(k, v, _, _)| (k, v)).collect()
}

fn tok(kind: TokenKind, text: &str) -> (TokenKind, String) {
    (kind, text.to_string())
}

#[test]
fn empty_source_has_no_tokens() {
    assert_eq!(lex(""), vec![]);
}

#[test]
fn forward_is_one_identifier() {
    assert_eq!(kinds_and_lexemes("forward"), vec![tok(TokenKind::Identifier, "forward")]);
}

#[test]
fn forever_is_one_identifier() {
    assert_eq!(kinds_and_lexemes("forever x"), vec![
        tok(TokenKind::Identifier, "forever"),
        tok(TokenKind::Identifier, "x"),
    ]);
}

#[test]
fn keyword_before_delimiter_and_at_end_of_line() {
    assert_eq!(kinds_and_lexemes("end;"), vec![
        tok(TokenKind::Keyword, "end"),
        tok(TokenKind::Delimiter, ";"),
    ]);
    assert_eq!(kinds_and_lexemes("end"), vec![tok(TokenKind::Keyword, "end")]);
    assert_eq!(kinds_and_lexemes("for x in xs do"), vec![
        tok(TokenKind::Keyword, "for"),
        tok(TokenKind::Identifier, "x"),
        tok(TokenKind::Keyword, "in"),
        tok(TokenKind::Identifier, "xs"),
        tok(TokenKind::Keyword, "do"),
    ]);
}

#[test]
fn every_keyword_is_a_keyword() {
    for word in [
        "function", "end", "do", "task", "when", "record", "match", "if", "elif", "else", "while",
        "for", "in", "and", "or", "not", "xor", "return", "store", "break", "continue",
    ] {
        assert_eq!(kinds_and_lexemes(word), vec![tok(TokenKind::Keyword, word)]);
        let longer = format!("{}s", word);
        assert_eq!(kinds_and_lexemes(&longer), vec![tok(TokenKind::Identifier, &longer)]);
    }
}

#[test]
fn comment_line_and_blank_line_have_no_tokens() {
    assert_eq!(lex("  -- ignored\n"), vec![]);
    assert_eq!(lex("     "), vec![]);
    assert_eq!(lex("\t \r\n\n   \n"), vec![]);
}

#[test]
fn comment_after_code_ends_the_line() {
    assert_eq!(kinds_and_lexemes("x = 1; -- set x\ny = 2;"), vec![
        tok(TokenKind::Identifier, "x"),
        tok(TokenKind::AssignOperator, "="),
        tok(TokenKind::IntegerLiteral, "1"),
        tok(TokenKind::Delimiter, ";"),
        tok(TokenKind::Identifier, "y"),
        tok(TokenKind::AssignOperator, "="),
        tok(TokenKind::IntegerLiteral, "2"),
        tok(TokenKind::Delimiter, ";"),
    ]);
}

#[test]
fn positions_count_lines_and_columns_from_one() {
    assert_eq!(lex("record sensor[4];\n  task t\r\n\n@"), vec![
        (TokenKind::Keyword, "record".to_string(), 1, 1),
        (TokenKind::Identifier, "sensor".to_string(), 1, 8),
        (TokenKind::Delimiter, "[".to_string(), 1, 14),
        (TokenKind::IntegerLiteral, "4".to_string(), 1, 15),
        (TokenKind::Delimiter, "]".to_string(), 1, 16),
        (TokenKind::Delimiter, ";".to_string(), 1, 17),
        (TokenKind::Keyword, "task".to_string(), 2, 3),
        (TokenKind::Identifier, "t".to_string(), 2, 8),
        (TokenKind::TimeOperator, "@".to_string(), 4, 1),
    ]);
}

#[test]
fn columns_count_characters() {
    assert_eq!(lex("\"é\" x"), vec![
        (TokenKind::StringLiteral, "\"é\"".to_string(), 1, 1),
        (TokenKind::Identifier, "x".to_string(), 1, 5),
    ]);
}

#[test]
fn operators_by_priority() {
    assert_eq!(kinds_and_lexemes("== != <= >= >< => = += -= *= /= %= + - * / % :: @ . _"), vec![
        tok(TokenKind::CompareOperator, "=="),
        tok(TokenKind::CompareOperator, "!="),
        tok(TokenKind::CompareOperator, "<="),
        tok(TokenKind::CompareOperator, ">="),
        tok(TokenKind::CompareOperator, "><"),
        tok(TokenKind::RightArrow, "=>"),
        tok(TokenKind::AssignOperator, "="),
        tok(TokenKind::AssignOperator, "+="),
        tok(TokenKind::AssignOperator, "-="),
        tok(TokenKind::AssignOperator, "*="),
        tok(TokenKind::AssignOperator, "/="),
        tok(TokenKind::AssignOperator, "%="),
        tok(TokenKind::ArithmeticOperator, "+"),
        tok(TokenKind::ArithmeticOperator, "-"),
        tok(TokenKind::ArithmeticOperator, "*"),
        tok(TokenKind::ArithmeticOperator, "/"),
        tok(TokenKind::ArithmeticOperator, "%"),
        tok(TokenKind::GuardOperator, "::"),
        tok(TokenKind::TimeOperator, "@"),
        tok(TokenKind::PipeOperator, "."),
        tok(TokenKind::MatchDefaultOperator, "_"),
    ]);
}

#[test]
fn compare_operator_is_only_taken_at_the_start() {
    assert_eq!(kinds_and_lexemes("a >< b"), vec![
        tok(TokenKind::Identifier, "a"),
        tok(TokenKind::CompareOperator, "><"),
        tok(TokenKind::Identifier, "b"),
    ]);
}

#[test]
fn delimiters() {
    assert_eq!(kinds_and_lexemes("()[],;"), vec![
        tok(TokenKind::Delimiter, "("),
        tok(TokenKind::Delimiter, ")"),
        tok(TokenKind::Delimiter, "["),
        tok(TokenKind::Delimiter, "]"),
        tok(TokenKind::Delimiter, ","),
        tok(TokenKind::Delimiter, ";"),
    ]);
}

#[test]
fn literals() {
    assert_eq!(kinds_and_lexemes("12 -7 0 0x1F true false nil \"a b\" 'c'"), vec![
        tok(TokenKind::IntegerLiteral, "12"),
        tok(TokenKind::IntegerLiteral, "-7"),
        tok(TokenKind::IntegerLiteral, "0"),
        tok(TokenKind::IntegerLiteral, "0x1F"),
        tok(TokenKind::BooleanLiteral, "true"),
        tok(TokenKind::BooleanLiteral, "false"),
        tok(TokenKind::NilLiteral, "nil"),
        tok(TokenKind::StringLiteral, "\"a b\""),
        tok(TokenKind::StringLiteral, "'c'"),
    ]);
}

#[test]
fn string_literal_is_not_greedy() {
    assert_eq!(kinds_and_lexemes("\"a\" \"b\""), vec![
        tok(TokenKind::StringLiteral, "\"a\""),
        tok(TokenKind::StringLiteral, "\"b\""),
    ]);
}

#[test]
fn leading_zero_lexes_as_zeros_then_digits() {
    assert_eq!(kinds_and_lexemes("007"), vec![
        tok(TokenKind::IntegerLiteral, "00"),
        tok(TokenKind::IntegerLiteral, "7"),
    ]);
}

#[test]
fn minus_before_a_digit_belongs_to_the_literal() {
    assert_eq!(kinds_and_lexemes("a -5"), vec![
        tok(TokenKind::Identifier, "a"),
        tok(TokenKind::IntegerLiteral, "-5"),
    ]);
    assert_eq!(kinds_and_lexemes("a - 5"), vec![
        tok(TokenKind::Identifier, "a"),
        tok(TokenKind::ArithmeticOperator, "-"),
        tok(TokenKind::IntegerLiteral, "5"),
    ]);
}

#[test]
fn literal_words_win_over_identifiers() {
    assert_eq!(kinds_and_lexemes("trueish nilpotent _x"), vec![
        tok(TokenKind::BooleanLiteral, "true"),
        tok(TokenKind::Identifier, "ish"),
        tok(TokenKind::NilLiteral, "nil"),
        tok(TokenKind::Identifier, "potent"),
        tok(TokenKind::MatchDefaultOperator, "_"),
        tok(TokenKind::Identifier, "x"),
    ]);
}

#[test]
fn unmatched_text_is_a_lexical_error() {
    assert_eq!(
        tokenizer("x = 1;\n  y = #2;".to_string()),
        Err(LexError::Unmatched { line: 2, remainder: "#2;".to_string() })
    );
    assert_eq!(
        tokenizer("a < b".to_string()),
        Err(LexError::Unmatched { line: 1, remainder: "< b".to_string() })
    );
    assert_eq!(
        tokenizer("\"open".to_string()),
        Err(LexError::Unmatched { line: 1, remainder: "\"open".to_string() })
    );
}

#[test]
fn lone_delimiter_lexes() {
    assert_eq!(kinds_and_lexemes(";"), vec![tok(TokenKind::Delimiter, ";")]);
}

#[test]
fn tokenizing_twice_gives_the_same_tokens() {
    let source = "when \"uart0\" => pkt :: 5\n  x += f(1, 2) . g();\nend\n";
    assert_eq!(lex(source), lex(source));
}

#[test]
fn rules_come_in_their_fixed_order() {
    let kinds: Vec<TokenKind> = get_rules().iter().map(|r| r.0).collect();
    assert_eq!(kinds, vec![
        TokenKind::StringLiteral,
        TokenKind::IntegerLiteral,
        TokenKind::BooleanLiteral,
        TokenKind::NilLiteral,
        TokenKind::Delimiter,
        TokenKind::MatchDefaultOperator,
        TokenKind::RightArrow,
        TokenKind::CompareOperator,
        TokenKind::AssignOperator,
        TokenKind::ArithmeticOperator,
        TokenKind::GuardOperator,
        TokenKind::TimeOperator,
        TokenKind::PipeOperator,
        TokenKind::Keyword,
        TokenKind::Identifier,
    ]);
}

#[test]
fn keyword_pattern_is_spelled_out() {
    let rules = get_rules();
    let words = "(function)|(end)|(do)|(task)|(when)|(record)|(match)|(if)|(elif)|(else)|(while)|(for)|(in)|(and)|(or)|(not)|(xor)|(return)|(store)|(break)|(continue)";
    assert_eq!(rules[13].1, format!("(^({0})[^_a-zA-Z0-9])|(^({0})$)", words));
}

#[test]
fn end_of_a_keyword_leaves_out_the_delimiter() {
    assert_eq!(get_end_pos("end;", 4, &TokenKind::Keyword), 3);
    assert_eq!(get_end_pos("end", 3, &TokenKind::Keyword), 3);
    assert_eq!(get_end_pos("end;", 4, &TokenKind::Identifier), 4);
    assert_eq!(get_end_pos("end", 0, &TokenKind::Keyword), 0);
    assert_eq!(get_end_pos("end", 9, &TokenKind::Keyword), 9);
}

fn found(before: &str, matched: &str) -> Option<(String, String)> {
    Some((before.to_string(), matched.to_string()))
}

#[test]
fn claim_needs_a_match_at_the_start_that_is_not_empty() {
    assert_eq!(claim(TokenKind::Identifier, "abc def", &found("", "abc")), Some(3));
    assert_eq!(claim(TokenKind::Identifier, "abc def", &found("abc ", "def")), None);
    assert_eq!(claim(TokenKind::Identifier, "abc def", &found("", "")), None);
    assert_eq!(claim(TokenKind::Identifier, "abc def", &None), None);
    assert_eq!(claim(TokenKind::Keyword, "if(", &found("", "if(")), Some(2));
    assert_eq!(claim(TokenKind::Keyword, "if", &found("", "if")), Some(2));
    assert_eq!(claim(TokenKind::Keyword, "(", &found("", "(")), None);
    assert_eq!(claim(TokenKind::Identifier, "abc", &found("", "abcd")), None);
    assert_eq!(claim(TokenKind::StringLiteral, "\"é\" x", &found("", "\"é\"")), Some(3));
}

#[test]
fn parse_regex_takes_the_lexeme_from_the_start() {
    let t = parse_regex("^[a-z]+", "abc def", TokenKind::Identifier).unwrap().expect("a token");
    assert_eq!((*t.kind(), t.value(), t.line(), t.column()), (TokenKind::Identifier, "abc", 0, 0));
    assert_eq!(parse_regex("[0-9]+", "abc 12", TokenKind::IntegerLiteral), Ok(None));
    assert_eq!(parse_regex("^[0-9]+", "abc", TokenKind::IntegerLiteral), Ok(None));
    assert_eq!(parse_regex("^x*", "abc", TokenKind::Identifier), Ok(None));
    let t = parse_regex("^((if)[^a-z])|(^(if)$)", "if(", TokenKind::Keyword).unwrap().unwrap();
    assert_eq!(t.value(), "if");
}

#[test]
fn pattern_that_is_no_regular_expression_is_an_error() {
    assert_eq!(
        parse_regex("^(", "(", TokenKind::Delimiter),
        Err(LexError::BadRule { kind: TokenKind::Delimiter })
    );
    assert_eq!(
        parse_regex("[a-", "", TokenKind::Identifier),
        Err(LexError::BadRule { kind: TokenKind::Identifier })
    );
    assert_eq!(
        LexError::BadRule { kind: TokenKind::Keyword }.to_text(),
        "the pattern of the rule for Keyword is no regular expression"
    );
}

#[test]
fn every_rule_of_the_table_is_a_regular_expression() {
    for (kind, pattern) in get_rules() {
        assert_eq!(parse_regex(&pattern, "", kind), Ok(None), "{:?}", kind);
    }
}

#[test]
fn tokens_compare_by_class_and_lexeme() {
    let mut a = Token::new(TokenKind::Delimiter, "(".to_string());
    let b = Token::new(TokenKind::Delimiter, "(".to_string());
    a.set_line(3);
    a.set_column(9);
    assert!(a == b);
    assert_eq!((a.line(), a.column(), b.line(), b.column()), (3, 9, 0, 0));
    assert!(a != Token::new(TokenKind::Delimiter, ")".to_string()));
    assert!(a != Token::new(TokenKind::Identifier, "(".to_string()));
    assert_eq!(Token::new(TokenKind::StringLiteral, "\"é\"".to_string()).value_len(), 4);
}
