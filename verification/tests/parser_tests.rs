use nx_syntax::ast::{Expression, FunctionCall, Guard, Literal, Statement, AST};
use nx_syntax::grammar::ParseErrorKind;
use nx_syntax::lexer::tokenizer;
use nx_syntax::parser::{parse, ParseError};
use nx_syntax::token::{Token, TokenKind};

fn tree(source: &str) -> Vec<AST> {
    parse(tokenizer(source.to_string()).expect("the source lexes")).expect("the source parses")
}

fn error(source: &str) -> ParseError {
    parse(tokenizer(source.to_string()).expect("the source lexes")).expect_err("a syntax error")
}

fn kind_at(source: &str) -> (ParseErrorKind, usize) {
    let e = error(source);
    (e.kind, e.index)
}

fn body(source: &str) -> Vec<Statement> {
    let mut list = tree(&format!("function f() {} end", source));
    match list.remove(0) {
        AST::Function { body, .. } => body,
        other => panic!("no function: {:?}", other),
    }
}

fn body_error(source: &str) -> (ParseErrorKind, usize) {
    let (kind, index) = kind_at(&format!("function f() {} end", source));
    (kind, index - 4)
}

fn expr(source: &str) -> Expression {
    match body(&format!("return {};", source)).remove(0) {
        Statement::Return { expression } => expression,
        other => panic!("no return: {:?}", other),
    }
}

fn num(n: isize) -> Expression {
    Expression::Literal(Literal::Integer(n))
}

fn boxed(e: Expression) -> Box<Expression> {
    Box::new(e)
}

fn call(name: &str, arguments: Vec<Expression>) -> FunctionCall {
    FunctionCall { name: name.to_string(), arguments: arguments.into_iter().map(Box::new).collect() }
}

fn s(text: &str) -> String {
    text.to_string()
}

#[test]
fn empty_input_parses_to_nothing() {
    assert_eq!(parse(vec![]), Ok(vec![]));
    assert_eq!(tree(""), vec![]);
    assert_eq!(tree("\n  -- only a comment\n"), vec![]);
}

#[test]
fn record_without_data_size_defaults_to_one() {
    assert_eq!(tree("record sensor[4];"), vec![
        AST::Record { name: s("sensor"), length: 4, data_size: 1 },
    ]);
}

#[test]
fn record_with_data_size() {
    assert_eq!(tree("record sensor[4,2];"), vec![
        AST::Record { name: s("sensor"), length: 4, data_size: 2 },
    ]);
    assert_eq!(tree("record big[0x10, 0];"), vec![
        AST::Record { name: s("big"), length: 16, data_size: 0 },
    ]);
}

#[test]
fn negative_record_length_is_rejected() {
    assert_eq!(
        error("record sensor[-1];"),
        ParseError { kind: ParseErrorKind::NegativeRecordLength, index: 3, line: 1, column: 15 }
    );
}

#[test]
fn record_errors() {
    assert_eq!(kind_at("record"), (ParseErrorKind::MissingRecordName, 1));
    assert_eq!(kind_at("record 4"), (ParseErrorKind::MissingRecordName, 1));
    assert_eq!(kind_at("record r"), (ParseErrorKind::MissingOpenBracket, 2));
    assert_eq!(kind_at("record r(4);"), (ParseErrorKind::MissingOpenBracket, 2));
    assert_eq!(kind_at("record r["), (ParseErrorKind::MissingRecordLength, 3));
    assert_eq!(kind_at("record r[x];"), (ParseErrorKind::MissingRecordLength, 3));
    assert_eq!(kind_at("record r[4"), (ParseErrorKind::MissingCloseBracket, 4));
    assert_eq!(kind_at("record r[4;"), (ParseErrorKind::MissingCloseBracket, 4));
    assert_eq!(kind_at("record r[4,"), (ParseErrorKind::MissingRecordDataSize, 5));
    assert_eq!(kind_at("record r[4,x];"), (ParseErrorKind::MissingRecordDataSize, 5));
    assert_eq!(kind_at("record r[4,-2];"), (ParseErrorKind::NegativeRecordDataSize, 5));
    assert_eq!(kind_at("record r[4,2;"), (ParseErrorKind::MissingCloseBracket, 6));
    assert_eq!(kind_at("record r[4,2]"), (ParseErrorKind::MissingSemicolon, 7));
    assert_eq!(kind_at("record r[4]"), (ParseErrorKind::MissingSemicolon, 5));
    assert_eq!(kind_at("record r[4] record"), (ParseErrorKind::MissingSemicolon, 5));
}

#[test]
fn integer_that_does_not_fit_is_rejected() {
    assert_eq!(
        kind_at("record r[99999999999999999999999999999999];"),
        (ParseErrorKind::InvalidInteger, 3)
    );
    assert_eq!(kind_at("record r[0; x"), (ParseErrorKind::MissingCloseBracket, 4));
    let tokens = vec![
        Token::new(TokenKind::Keyword, s("record")),
        Token::new(TokenKind::Identifier, s("r")),
        Token::new(TokenKind::Delimiter, s("[")),
        Token::new(TokenKind::IntegerLiteral, s("4x")),
    ];
    assert_eq!(
        parse(tokens),
        Err(ParseError { kind: ParseErrorKind::InvalidInteger, index: 3, line: 0, column: 0 })
    );
}

#[test]
fn when_with_numeric_guard() {
    assert_eq!(tree("when \"uart0\" => pkt :: 5 store pkt; end"), vec![
        AST::When {
            interface: s("uart0"),
            packet: s("pkt"),
            guard: Guard::Numeric(5),
            body: vec![Statement::Store { var_list: vec![s("pkt")] }],
        },
    ]);
}

#[test]
fn when_with_pattern_guard() {
    assert_eq!(tree("when \"uart0\" => pkt :: \"^AT\" end"), vec![
        AST::When {
            interface: s("uart0"),
            packet: s("pkt"),
            guard: Guard::Pattern(s("^AT")),
            body: vec![],
        },
    ]);
    assert_eq!(tree("when 'can' => m :: -0x7f end"), vec![
        AST::When { interface: s("can"), packet: s("m"), guard: Guard::Numeric(-127), body: vec![] },
    ]);
}

#[test]
fn when_errors() {
    assert_eq!(kind_at("when"), (ParseErrorKind::MissingInterface, 1));
    assert_eq!(kind_at("when uart"), (ParseErrorKind::MissingInterface, 1));
    assert_eq!(kind_at("when \"u\""), (ParseErrorKind::MissingRightArrow, 2));
    assert_eq!(kind_at("when \"u\" = p"), (ParseErrorKind::MissingRightArrow, 2));
    assert_eq!(kind_at("when \"u\" =>"), (ParseErrorKind::MissingPacket, 3));
    assert_eq!(kind_at("when \"u\" => 5"), (ParseErrorKind::MissingPacket, 3));
    assert_eq!(kind_at("when \"u\" => p"), (ParseErrorKind::MissingGuardOperator, 4));
    assert_eq!(kind_at("when \"u\" => p @ 5"), (ParseErrorKind::MissingGuardOperator, 4));
    assert_eq!(kind_at("when \"u\" => p ::"), (ParseErrorKind::MissingGuard, 5));
    assert_eq!(kind_at("when \"u\" => p :: q end"), (ParseErrorKind::InvalidGuard, 5));
    assert_eq!(kind_at("when \"u\" => p :: true end"), (ParseErrorKind::InvalidGuard, 5));
    assert_eq!(kind_at("when \"u\" => p :: 5"), (ParseErrorKind::MissingEnd, 6));
}

#[test]
fn task_with_interval() {
    assert_eq!(tree("task heartbeat @1000 @ 5; end"), vec![
        AST::Task {
            name: s("heartbeat"),
            interval_ms: 1000,
            body: vec![Statement::Delay { time: 5 }],
        },
    ]);
}

#[test]
fn task_without_interval_has_interval_zero() {
    assert_eq!(tree("task idle end"), vec![
        AST::Task { name: s("idle"), interval_ms: 0, body: vec![] },
    ]);
}

#[test]
fn task_errors() {
    assert_eq!(kind_at("task"), (ParseErrorKind::MissingTaskName, 1));
    assert_eq!(kind_at("task t"), (ParseErrorKind::MissingTimeOperator, 2));
    assert_eq!(kind_at("task t @"), (ParseErrorKind::MissingInterval, 3));
    assert_eq!(kind_at("task t @ x end"), (ParseErrorKind::MissingInterval, 3));
    assert_eq!(kind_at("task t @-1 end"), (ParseErrorKind::NegativeInterval, 3));
    assert_eq!(kind_at("task t @1"), (ParseErrorKind::MissingEnd, 4));
}

#[test]
fn function_with_empty_body() {
    assert_eq!(tree("function noop() end"), vec![
        AST::Function { name: s("noop"), arguments: vec![], body: vec![] },
    ]);
}

#[test]
fn function_with_arguments() {
    assert_eq!(tree("function add(a, b, c) return f(); end"), vec![
        AST::Function {
            name: s("add"),
            arguments: vec![s("a"), s("b"), s("c")],
            body: vec![Statement::Return { expression: Expression::FunctionCall(call("f", vec![])) }],
        },
    ]);
    assert_eq!(tree("function one(a) end"), vec![
        AST::Function { name: s("one"), arguments: vec![s("a")], body: vec![] },
    ]);
}

#[test]
fn function_errors() {
    assert_eq!(kind_at("function"), (ParseErrorKind::MissingFunctionName, 1));
    assert_eq!(kind_at("function ("), (ParseErrorKind::MissingFunctionName, 1));
    assert_eq!(kind_at("function f"), (ParseErrorKind::MissingOpenParen, 2));
    assert_eq!(kind_at("function f end"), (ParseErrorKind::MissingOpenParen, 2));
    assert_eq!(kind_at("function f("), (ParseErrorKind::MissingFirstArgument, 3));
    assert_eq!(kind_at("function f(5)"), (ParseErrorKind::MissingCloseParen, 3));
    assert_eq!(kind_at("function f(a"), (ParseErrorKind::MissingCloseParen, 4));
    assert_eq!(kind_at("function f(a b)"), (ParseErrorKind::MissingComma, 4));
    assert_eq!(kind_at("function f(a,"), (ParseErrorKind::InvalidArgument, 5));
    assert_eq!(kind_at("function f(a, 5)"), (ParseErrorKind::InvalidArgument, 5));
    assert_eq!(kind_at("function f(a, )"), (ParseErrorKind::InvalidArgument, 5));
    assert_eq!(kind_at("function f()"), (ParseErrorKind::MissingEnd, 4));
    assert_eq!(kind_at("function f() x = 1;"), (ParseErrorKind::MissingEnd, 8));
}

#[test]
fn declarations_keep_their_order() {
    let list = tree(
        "record a[1];\nfunction b() end\ntask c end\nwhen \"d\" => p :: 1 end\nrecord e[2,3];\n",
    );
    assert_eq!(list, vec![
        AST::Record { name: s("a"), length: 1, data_size: 1 },
        AST::Function { name: s("b"), arguments: vec![], body: vec![] },
        AST::Task { name: s("c"), interval_ms: 0, body: vec![] },
        AST::When { interface: s("d"), packet: s("p"), guard: Guard::Numeric(1), body: vec![] },
        AST::Record { name: s("e"), length: 2, data_size: 3 },
    ]);
}

#[test]
fn error_after_a_valid_declaration_fails_the_whole_input() {
    assert_eq!(
        error("record a[1];\n  42"),
        ParseError { kind: ParseErrorKind::InvalidDeclaration, index: 6, line: 2, column: 3 }
    );
    assert_eq!(kind_at("function f() end record"), (ParseErrorKind::MissingRecordName, 6));
    assert_eq!(kind_at("end"), (ParseErrorKind::InvalidDeclaration, 0));
    assert_eq!(kind_at(";"), (ParseErrorKind::InvalidDeclaration, 0));
}

#[test]
fn assignments() {
    assert_eq!(body("a = 1; b += 2; c -= 3; d *= 4; e /= 5; f %= 6;"), vec![
        Statement::Assignment { variable: s("a"), expression: num(1) },
        Statement::AssignmentSum { variable: s("b"), expression: num(2) },
        Statement::AssignmentMinus { variable: s("c"), expression: num(3) },
        Statement::AssignmentMult { variable: s("d"), expression: num(4) },
        Statement::AssignmentDiv { variable: s("e"), expression: num(5) },
        Statement::AssignmentMod { variable: s("f"), expression: num(6) },
    ]);
}

#[test]
fn simple_statements() {
    assert_eq!(body("@ 250; store a, b; store c; return nil; log(\"x\", 1);"), vec![
        Statement::Delay { time: 250 },
        Statement::Store { var_list: vec![s("a"), s("b")] },
        Statement::Store { var_list: vec![s("c")] },
        Statement::Return { expression: Expression::Literal(Literal::Nil) },
        Statement::FunctionCall(call("log", vec![
            Expression::Literal(Literal::String(s("x"))),
            num(1),
        ])),
    ]);
}

#[test]
fn simple_statement_errors() {
    assert_eq!(body_error("a = 1"), (ParseErrorKind::MissingSemicolon, 3));
    assert_eq!(body_error("a = ;"), (ParseErrorKind::InvalidExpression, 2));
    assert_eq!(body_error("@ x;"), (ParseErrorKind::MissingDelayTime, 1));
    assert_eq!(body_error("@ -1;"), (ParseErrorKind::NegativeDelay, 1));
    assert_eq!(body_error("@ 1"), (ParseErrorKind::MissingSemicolon, 2));
    assert_eq!(body_error("store ;"), (ParseErrorKind::MissingStoreVariable, 1));
    assert_eq!(body_error("store a, ;"), (ParseErrorKind::MissingStoreVariable, 3));
    assert_eq!(body_error("store a b;"), (ParseErrorKind::MissingSemicolon, 2));
    assert_eq!(body_error("return;"), (ParseErrorKind::InvalidExpression, 1));
    assert_eq!(body_error("return 1"), (ParseErrorKind::MissingSemicolon, 2));
    assert_eq!(body_error("f()"), (ParseErrorKind::MissingSemicolon, 3));
    assert_eq!(body_error("f;"), (ParseErrorKind::MissingOpenParen, 1));
    assert_eq!(body_error("f(1 2);"), (ParseErrorKind::MissingComma, 3));
    assert_eq!(body_error("break;"), (ParseErrorKind::InvalidStatement, 0));
    assert_eq!(body_error("5;"), (ParseErrorKind::InvalidStatement, 0));
    assert_eq!(body_error("else"), (ParseErrorKind::InvalidStatement, 0));
}

#[test]
fn if_with_all_parts() {
    assert_eq!(
        body("if a() == 1 do x = 1; elif b() do x = 2; elif c() do else x = 3; x = 4; end"),
        vec![
            Statement::If {
                condition: Expression::Equal(
                    boxed(Expression::FunctionCall(call("a", vec![]))),
                    boxed(num(1)),
                ),
                body: vec![Statement::Assignment { variable: s("x"), expression: num(1) }],
                elif: vec![
                    (
                        Expression::FunctionCall(call("b", vec![])),
                        vec![Statement::Assignment { variable: s("x"), expression: num(2) }],
                    ),
                    (Expression::FunctionCall(call("c", vec![])), vec![]),
                ],
                else_body: vec![
                    Statement::Assignment { variable: s("x"), expression: num(3) },
                    Statement::Assignment { variable: s("x"), expression: num(4) },
                ],
            },
        ]
    );
}

#[test]
fn if_alone() {
    assert_eq!(body("if true do end"), vec![
        Statement::If {
            condition: Expression::Literal(Literal::Boolean(true)),
            body: vec![],
            elif: vec![],
            else_body: vec![],
        },
    ]);
}

#[test]
fn loops() {
    assert_eq!(body("for x in xs do use(); end while false do @ 1; end"), vec![
        Statement::For {
            var: s("x"),
            collection: s("xs"),
            body: vec![Statement::FunctionCall(call("use", vec![]))],
        },
        Statement::While {
            condition: Expression::Literal(Literal::Boolean(false)),
            body: vec![Statement::Delay { time: 1 }],
        },
    ]);
}

#[test]
fn match_with_cases_and_default() {
    assert_eq!(
        body("match f() do 1 => a = 1; b = 2; \"two\" => true => nil => c(); _ => d = 4; end"),
        vec![
            Statement::Match {
                target: Expression::FunctionCall(call("f", vec![])),
                cases: vec![
                    (Literal::Integer(1), vec![
                        Statement::Assignment { variable: s("a"), expression: num(1) },
                        Statement::Assignment { variable: s("b"), expression: num(2) },
                    ]),
                    (Literal::String(s("two")), vec![]),
                    (Literal::Boolean(true), vec![]),
                    (Literal::Nil, vec![Statement::FunctionCall(call("c", vec![]))]),
                ],
                default: vec![Statement::Assignment { variable: s("d"), expression: num(4) }],
            },
        ]
    );
    assert_eq!(body("match 1 do end"), vec![
        Statement::Match { target: num(1), cases: vec![], default: vec![] },
    ]);
}

#[test]
fn nested_blocks() {
    assert_eq!(body("while a() do if b() do for i in c do end end end"), vec![
        Statement::While {
            condition: Expression::FunctionCall(call("a", vec![])),
            body: vec![
                Statement::If {
                    condition: Expression::FunctionCall(call("b", vec![])),
                    body: vec![Statement::For { var: s("i"), collection: s("c"), body: vec![] }],
                    elif: vec![],
                    else_body: vec![],
                },
            ],
        },
    ]);
}

#[test]
fn block_statement_errors() {
    assert_eq!(body_error("if do end"), (ParseErrorKind::InvalidExpression, 1));
    assert_eq!(body_error("if 1 x = 1; end"), (ParseErrorKind::MissingDo, 2));
    assert_eq!(body_error("if 1 do else elif 2 do end"), (ParseErrorKind::InvalidStatement, 4));
    assert_eq!(body_error("if 1 do 5 end"), (ParseErrorKind::InvalidStatement, 3));
    assert_eq!(body_error("for 1 in xs do end"), (ParseErrorKind::MissingLoopVariable, 1));
    assert_eq!(body_error("for x xs do end"), (ParseErrorKind::MissingIn, 2));
    assert_eq!(body_error("for x in 5 do end"), (ParseErrorKind::MissingCollection, 3));
    assert_eq!(body_error("for x in xs end"), (ParseErrorKind::MissingDo, 4));
    assert_eq!(body_error("while 1 end"), (ParseErrorKind::MissingDo, 2));
    assert_eq!(body_error("match 1 do 2 x = 1; end"), (ParseErrorKind::MissingRightArrow, 4));
    assert_eq!(body_error("match 1 do _ x = 1; end"), (ParseErrorKind::MissingRightArrow, 4));
    assert_eq!(body_error("match 1 do _ => 2 => end"), (ParseErrorKind::InvalidStatement, 5));
    assert_eq!(body_error("match 1 do x = 1; end"), (ParseErrorKind::MissingEnd, 3));
    assert_eq!(kind_at("function f() while 1 do"), (ParseErrorKind::MissingEnd, 7));
    assert_eq!(kind_at("function f() if 1 do"), (ParseErrorKind::MissingEnd, 7));
    assert_eq!(kind_at("function f() match 1 do"), (ParseErrorKind::MissingEnd, 7));
}

#[test]
fn arithmetic_groups_to_the_left_and_products_first() {
    assert_eq!(
        expr("1 + 2 * 3 - 4"),
        Expression::Minus(
            boxed(Expression::Sum(boxed(num(1)), boxed(Expression::Multiply(boxed(num(2)), boxed(num(3)))))),
            boxed(num(4)),
        )
    );
    assert_eq!(
        expr("8 / 4 % 3 * 2"),
        Expression::Multiply(
            boxed(Expression::Modulus(boxed(Expression::Division(boxed(num(8)), boxed(num(4)))), boxed(num(3)))),
            boxed(num(2)),
        )
    );
}

#[test]
fn parentheses_group() {
    assert_eq!(
        expr("(1 + 2) * 3"),
        Expression::Multiply(boxed(Expression::Sum(boxed(num(1)), boxed(num(2)))), boxed(num(3)))
    );
    assert_eq!(expr("((7))"), num(7));
}

#[test]
fn comparisons() {
    assert_eq!(expr("1 == 2"), Expression::Equal(boxed(num(1)), boxed(num(2))));
    assert_eq!(expr("1 != 2"), Expression::NotEqual(boxed(num(1)), boxed(num(2))));
    assert_eq!(expr("1 <= 2"), Expression::LessOrEqual(boxed(num(1)), boxed(num(2))));
    assert_eq!(expr("1 >= 2"), Expression::GreaterOrEqual(boxed(num(1)), boxed(num(2))));
    assert_eq!(
        expr("1 + 2 == 3 * 4"),
        Expression::Equal(
            boxed(Expression::Sum(boxed(num(1)), boxed(num(2)))),
            boxed(Expression::Multiply(boxed(num(3)), boxed(num(4)))),
        )
    );
}

#[test]
fn less_and_greater_are_told_by_their_lexeme() {
    let tokens = |op: &str| {
        vec![
            Token::new(TokenKind::IntegerLiteral, s("1")),
            Token::new(TokenKind::CompareOperator, s(op)),
            Token::new(TokenKind::IntegerLiteral, s("2")),
        ]
    };
    assert_eq!(
        nx_syntax::parser::parse_expression(&tokens("<"), 0),
        Ok((Expression::Less(boxed(num(1)), boxed(num(2))), 3))
    );
    assert_eq!(
        nx_syntax::parser::parse_expression(&tokens(">"), 0),
        Ok((Expression::Greater(boxed(num(1)), boxed(num(2))), 3))
    );
}

#[test]
fn comparison_does_not_chain_and_unknown_operator_fails() {
    assert_eq!(body_error("return 1 == 2 == 3;"), (ParseErrorKind::MissingSemicolon, 4));
    assert_eq!(body_error("return 1 >< 2;"), (ParseErrorKind::UnknownOperator, 2));
}

#[test]
fn guard_time_and_pipe_bind_tightest() {
    assert_eq!(
        expr("1 + f() :: 5 * 2"),
        Expression::Sum(
            boxed(num(1)),
            boxed(Expression::Multiply(
                boxed(Expression::Guard(
                    boxed(Expression::FunctionCall(call("f", vec![]))),
                    Guard::Numeric(5),
                )),
                boxed(num(2)),
            )),
        )
    );
    assert_eq!(
        expr("a() @ 10 @ 20"),
        Expression::Time(
            boxed(Expression::Time(boxed(Expression::FunctionCall(call("a", vec![]))), boxed(num(10)))),
            boxed(num(20)),
        )
    );
    assert_eq!(
        expr("1 . f(2) . g() :: \"p\""),
        Expression::Guard(
            boxed(Expression::Pipe(
                boxed(Expression::Pipe(boxed(num(1)), call("f", vec![num(2)]))),
                call("g", vec![]),
            )),
            Guard::Pattern(s("p")),
        )
    );
}

#[test]
fn calls_nest() {
    assert_eq!(
        expr("f(g(1, 2), h())"),
        Expression::FunctionCall(call("f", vec![
            Expression::FunctionCall(call("g", vec![num(1), num(2)])),
            Expression::FunctionCall(call("h", vec![])),
        ]))
    );
}

#[test]
fn literals_of_every_kind() {
    assert_eq!(expr("0x1f"), num(31));
    assert_eq!(expr("-12"), num(-12));
    assert_eq!(expr("'q'"), Expression::Literal(Literal::String(s("q"))));
    assert_eq!(expr("\"\""), Expression::Literal(Literal::String(s(""))));
    assert_eq!(expr("\"it's\""), Expression::Literal(Literal::String(s("it's"))));
    assert_eq!(expr("'say \"hi\"'"), Expression::Literal(Literal::String(s("say \"hi\""))));
    assert_eq!(expr("false"), Expression::Literal(Literal::Boolean(false)));
    assert_eq!(expr("nil"), Expression::Literal(Literal::Nil));
}

#[test]
fn expression_errors() {
    assert_eq!(body_error("return 1 + ;"), (ParseErrorKind::InvalidExpression, 3));
    assert_eq!(body_error("return 1 * end"), (ParseErrorKind::InvalidExpression, 3));
    assert_eq!(body_error("return (1;"), (ParseErrorKind::MissingCloseParen, 3));
    assert_eq!(body_error("return x;"), (ParseErrorKind::MissingOpenParen, 2));
    assert_eq!(body_error("return f(1;"), (ParseErrorKind::MissingComma, 4));
    assert_eq!(body_error("return f(,);"), (ParseErrorKind::InvalidExpression, 3));
    assert_eq!(body_error("return 1 :: x;"), (ParseErrorKind::InvalidGuard, 3));
    assert_eq!(body_error("return 1 . 2;"), (ParseErrorKind::MissingCallName, 3));
    assert_eq!(body_error("return 1 @ ;"), (ParseErrorKind::InvalidExpression, 3));
    assert_eq!(kind_at("function f() return f("), (ParseErrorKind::InvalidExpression, 7));
    assert_eq!(kind_at("function f() return f(1"), (ParseErrorKind::MissingCloseParen, 8));
    let tokens = vec![Token::new(TokenKind::BooleanLiteral, s("maybe"))];
    assert_eq!(
        nx_syntax::parser::parse_expression(&tokens, 0),
        Err(ParseError { kind: ParseErrorKind::InvalidBoolean, index: 0, line: 0, column: 0 })
    );
}

#[test]
fn tokens_are_matched_without_regard_to_position() {
    let mut tokens = tokenizer(s("record sensor[4];")).unwrap();
    for t in tokens.iter_mut() {
        t.set_line(77);
        t.set_column(0);
    }
    assert_eq!(parse(tokens), Ok(vec![AST::Record { name: s("sensor"), length: 4, data_size: 1 }]));
}

#[test]
fn string_literals_stand_for_the_text_between_their_quotes() {
    assert_eq!(tree("when 'uart0' => pkt :: '^AT' end"), vec![
        AST::When {
            interface: s("uart0"),
            packet: s("pkt"),
            guard: Guard::Pattern(s("^AT")),
            body: vec![],
        },
    ]);
    assert_eq!(tree("when \"\" => pkt :: \"a b\" end"), vec![
        AST::When {
            interface: s(""),
            packet: s("pkt"),
            guard: Guard::Pattern(s("a b")),
            body: vec![],
        },
    ]);
}

#[test]
fn string_literal_without_its_quotes_is_rejected() {
    let when = |interface: &str, guard: &str| {
        vec![
            Token::new(TokenKind::Keyword, s("when")),
            Token::new(TokenKind::StringLiteral, s(interface)),
            Token::new(TokenKind::RightArrow, s("=>")),
            Token::new(TokenKind::Identifier, s("pkt")),
            Token::new(TokenKind::GuardOperator, s("::")),
            Token::new(TokenKind::StringLiteral, s(guard)),
            Token::new(TokenKind::Keyword, s("end")),
        ]
    };
    let failure = |index: usize| {
        Err(ParseError { kind: ParseErrorKind::InvalidString, index, line: 0, column: 0 })
    };
    assert_eq!(
        parse(when("\"uart0\"", "\"^AT\"")),
        Ok(vec![
            AST::When {
                interface: s("uart0"),
                packet: s("pkt"),
                guard: Guard::Pattern(s("^AT")),
                body: vec![],
            },
        ])
    );
    assert_eq!(parse(when("uart0", "\"^AT\"")), failure(1));
    assert_eq!(parse(when("\"uart0", "\"^AT\"")), failure(1));
    assert_eq!(parse(when("\"uart0'", "\"^AT\"")), failure(1));
    assert_eq!(parse(when("\"", "\"^AT\"")), failure(1));
    assert_eq!(parse(when("", "\"^AT\"")), failure(1));
    assert_eq!(parse(when("\"uart0\"", "^AT")), failure(5));
    assert_eq!(parse(when("\"uart0\"", "^AT\"")), failure(5));
    assert_eq!(parse(when("uart0", "^AT")), failure(1));
    let literal = vec![Token::new(TokenKind::StringLiteral, s("bare"))];
    assert_eq!(
        nx_syntax::parser::parse_expression(&literal, 0),
        Err(ParseError { kind: ParseErrorKind::InvalidString, index: 0, line: 0, column: 0 })
    );
}

#[test]
fn after_the_name_of_a_task_an_at_sign_begins_the_interval() {
    assert_eq!(kind_at("task t @ 5; end"), (ParseErrorKind::InvalidStatement, 4));
    assert_eq!(tree("task t @ 0 @ 5; end"), vec![
        AST::Task { name: s("t"), interval_ms: 0, body: vec![Statement::Delay { time: 5 }] },
    ]);
    assert_eq!(tree("task t x(); @ 5; end"), vec![
        AST::Task {
            name: s("t"),
            interval_ms: 0,
            body: vec![
                Statement::FunctionCall(call("x", vec![])),
                Statement::Delay { time: 5 },
            ],
        },
    ]);
}
