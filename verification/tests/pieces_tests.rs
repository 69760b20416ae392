use nx_syntax::ast::{Expression, Literal, Statement, AST};
use nx_syntax::grammar::{ParseErrorKind, Scope};
use nx_syntax::lexer::tokenizer;
use nx_syntax::parser::{
    parse, parse_argument_name_list, parse_assignment, parse_assignment_div, parse_assignment_minus,
    parse_assignment_mod, parse_assignment_mult, parse_assignment_sum, parse_block_statement,
    parse_delay, parse_for, parse_function, parse_if, parse_match, parse_record, parse_record_info,
    parse_return, parse_statement, parse_statement_function_call, parse_statements, parse_store,
    parse_task, parse_task_interval, parse_when, parse_while,
};
use nx_syntax::token::Token;

fn tokens(source: &str) -> Vec<Token> {
    tokenizer(source.to_string()).expect("the source lexes")
}

fn one() -> Expression {
    Expression::Literal(Literal::Integer(1))
}

#[test]
fn declaration_forms_apply_only_to_their_keyword() {
    let record = tokens("record r[1];");
    assert_eq!(parse_function(&record, 0), Ok(None));
    assert_eq!(parse_task(&record, 0), Ok(None));
    assert_eq!(parse_when(&record, 0), Ok(None));
    assert_eq!(
        parse_record(&record, 0),
        Ok(Some((AST::Record { name: "r".to_string(), length: 1, data_size: 1 }, 6)))
    );
    assert_eq!(parse_record(&record, 1), Ok(None));
    assert_eq!(parse_record(&record, 6), Ok(None));
    assert_eq!(parse_record(&record, 99), Ok(None));
    let function = tokens("function f() end");
    assert_eq!(parse_record(&function, 0), Ok(None));
    assert_eq!(
        parse_function(&function, 0),
        Ok(Some((AST::Function { name: "f".to_string(), arguments: vec![], body: vec![] }, 5)))
    );
}

#[test]
fn declaration_is_read_from_where_the_cursor_stands() {
    let list = tokens("task a end task b @7 end");
    assert_eq!(
        parse_task(&list, 3),
        Ok(Some((AST::Task { name: "b".to_string(), interval_ms: 7, body: vec![] }, 8)))
    );
    assert_eq!(
        parse_task(&list, 0),
        Ok(Some((AST::Task { name: "a".to_string(), interval_ms: 0, body: vec![] }, 3)))
    );
}

#[test]
fn pieces_of_declarations() {
    assert_eq!(
        parse_argument_name_list(&tokens("(a, b) end"), 0),
        Ok((vec!["a".to_string(), "b".to_string()], 5))
    );
    assert_eq!(parse_argument_name_list(&tokens("()"), 0), Ok((vec![], 2)));
    assert_eq!(parse_record_info(&tokens("[3];"), 0), Ok(((3, 1), 4)));
    assert_eq!(parse_record_info(&tokens("[3, 8];"), 0), Ok(((3, 8), 6)));
    assert_eq!(parse_task_interval(&tokens("@ 20 end"), 0), Ok((20, 2)));
    assert_eq!(parse_task_interval(&tokens("end"), 0), Ok((0, 0)));
    assert_eq!(
        parse_task_interval(&tokens(""), 0).map_err(|e| e.kind),
        Err(ParseErrorKind::MissingTimeOperator)
    );
    assert_eq!(
        parse_record_info(&tokens("[3, 8];"), 1).map_err(|e| (e.kind, e.index)),
        Err((ParseErrorKind::MissingOpenBracket, 1))
    );
}

#[test]
fn statement_forms_apply_only_to_their_first_tokens() {
    let assign = tokens("x = 1;");
    assert_eq!(
        parse_assignment(&assign, 0),
        Ok(Some((Statement::Assignment { variable: "x".to_string(), expression: one() }, 4)))
    );
    assert_eq!(parse_assignment_sum(&assign, 0), Ok(None));
    assert_eq!(parse_assignment_minus(&assign, 0), Ok(None));
    assert_eq!(parse_assignment_mult(&assign, 0), Ok(None));
    assert_eq!(parse_assignment_div(&assign, 0), Ok(None));
    assert_eq!(parse_assignment_mod(&assign, 0), Ok(None));
    assert_eq!(parse_delay(&assign, 0), Ok(None));
    assert_eq!(parse_store(&assign, 0), Ok(None));
    assert_eq!(parse_if(&assign, 0), Ok(None));
    assert_eq!(parse_for(&assign, 0), Ok(None));
    assert_eq!(parse_while(&assign, 0), Ok(None));
    assert_eq!(parse_match(&assign, 0), Ok(None));
    assert_eq!(parse_return(&assign, 0), Ok(None));
    assert_eq!(
        parse_statement_function_call(&assign, 0).map_err(|e| (e.kind, e.index)),
        Err((ParseErrorKind::MissingOpenParen, 1))
    );
    let sum = tokens("x += 1;");
    assert_eq!(parse_assignment(&sum, 0), Ok(None));
    assert_eq!(
        parse_assignment_sum(&sum, 0),
        Ok(Some((Statement::AssignmentSum { variable: "x".to_string(), expression: one() }, 4)))
    );
    let delay = tokens("@ 5;");
    assert_eq!(parse_assignment(&delay, 0), Ok(None));
    assert_eq!(parse_statement_function_call(&delay, 0), Ok(None));
    assert_eq!(parse_delay(&delay, 0), Ok(Some((Statement::Delay { time: 5 }, 3))));
    assert_eq!(parse_delay(&delay, 3), Ok(None));
}

#[test]
fn statement_and_block() {
    let list = tokens("x = 1; @ 2; end elif");
    assert_eq!(
        parse_statement(&list, 0),
        Ok((Statement::Assignment { variable: "x".to_string(), expression: one() }, 4))
    );
    assert_eq!(parse_statement(&list, 4), Ok((Statement::Delay { time: 2 }, 7)));
    assert_eq!(
        parse_statement(&list, 7).map_err(|e| (e.kind, e.index)),
        Err((ParseErrorKind::InvalidStatement, 7))
    );
    assert_eq!(
        parse_block_statement(&list, 0),
        Ok((
            vec![
                Statement::Assignment { variable: "x".to_string(), expression: one() },
                Statement::Delay { time: 2 },
            ],
            8,
        ))
    );
    assert_eq!(parse_block_statement(&list, 7), Ok((vec![], 8)));
    assert_eq!(parse_statements(&list, 4, Scope::Block), Ok((vec![Statement::Delay { time: 2 }], 7)));
    assert_eq!(parse_statements(&list, 8, Scope::Branch), Ok((vec![], 8)));
    assert_eq!(
        parse_statements(&list, 8, Scope::Block).map_err(|e| (e.kind, e.index)),
        Err((ParseErrorKind::InvalidStatement, 8))
    );
    assert_eq!(
        parse_statements(&tokens("5 => x = 1;"), 0, Scope::Block).map_err(|e| e.kind),
        Err(ParseErrorKind::InvalidStatement)
    );
    assert_eq!(parse_statements(&tokens("5 => x = 1;"), 0, Scope::Case), Ok((vec![], 0)));
    assert_eq!(parse_statements(&tokens(""), 0, Scope::Block), Ok((vec![], 0)));
}

#[test]
fn two_sources_one_after_the_other_parse_to_both_lists_in_order() {
    let first = "record a[1];\nfunction f(x) return g(1) + 1; end\n";
    let second = "task t @5 store v; end\nwhen \"u\" => p :: 3 end";
    let mut both = tokens(first);
    both.extend(tokens(second));
    let mut expected = parse(tokens(first)).unwrap();
    expected.extend(parse(tokens(second)).unwrap());
    assert_eq!(expected.len(), 4);
    assert_eq!(parse(both), Ok(expected));
    assert_eq!(parse(tokens(&format!("{}{}", first, second))).unwrap().len(), 4);
}

#[test]
fn declarations_followed_by_an_error_are_an_error() {
    let mut both = tokens("record a[1]; task t end");
    both.extend(tokens("task end"));
    let e = parse(both).unwrap_err();
    assert_eq!((e.kind, e.index), (ParseErrorKind::MissingTaskName, 10));
}

#[test]
fn every_error_kind_has_a_message() {
    for source in ["x", "record", "task t @", "function f() if 1 do", "when \"a\" => p :: q"] {
        let e = parse(tokens(source)).unwrap_err();
        assert!(!e.kind.message().is_empty());
        assert!(e.to_text().starts_with(e.kind.message()));
    }
}
