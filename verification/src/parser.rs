//! The parser: a cursor that walks a token buffer and builds the tree that the
//! grammar assigns to it. Nothing is read twice and no token is changed.

use crate::ast::{
    binary_view, lemma_arguments_push, lemma_branches_push, lemma_cases_push,
    lemma_declarations_push, lemma_names_push, lemma_statements_push, AST, AssignOp, AstView,
    BinaryOp, Expression, ExpressionView, FunctionCall, Guard, Literal, Model, Statement,
};
use crate::grammar::{
    any_assignment_at, argument_list, argument_names, assign_op, assignment, assignment_at, block,
    call, call_arguments, call_statement, closes, comparison_op, condition, declaration,
    declarations, default_case, delay, elif_branches, else_branch, expression, for_statement,
    function_declaration, guard, if_statement, integer, keyword_at, kind_at, literal, literal_at,
    match_cases, match_statement, message_of, more_argument_names, name_list, natural, operand,
    operand_tail, primary, product, product_op, product_tail, program, record_declaration,
    record_info, remaining, return_statement, statement, statements, store, string, sum, sum_op,
    sum_tail, task_declaration, task_interval, terminated_expression, token_at, when_declaration,
    while_statement, ParseErrorKind, Parsed, Scope,
};
use crate::text::{append_decimal, decimal, parse_integer, str_eq, unquote};
use crate::token::{views, Token, TokenKind, TokenView};
use vstd::prelude::*;
use vstd::string::*;

verus! {

/// A syntax error: what was wrong, and the index, line and column of the token
/// at which it was found. Where the input ended too early the index is the
/// number of tokens, and line and column are 0.
#[derive(Debug, Clone, Copy, PartialEq, Eq, Structural)]
pub struct ParseError {
    pub kind: ParseErrorKind,
    pub index: usize,
    pub line: usize,
    pub column: usize,
}

/// The model of a syntax error.
pub struct ParseErrorView {
    pub kind: ParseErrorKind,
    pub index: int,
    pub line: nat,
    pub column: nat,
}

impl View for ParseError {
    type V = ParseErrorView;

    open spec fn view(&self) -> ParseErrorView {
        ParseErrorView {
            kind: self.kind,
            index: self.index as int,
            line: self.line as nat,
            column: self.column as nat,
        }
    }
}

impl ParseErrorView {
    /// The error written out for a reader.
    pub open spec fn text(self) -> Seq<char> {
        message_of(self.kind) + " (token "@ + decimal(self.index as nat) + ", line "@ + decimal(
            self.line,
        ) + ", column "@ + decimal(self.column) + ")"@
    }
}

impl ParseError {
    /// The error written out for a reader: what is wrong, and where.
    pub fn to_text(&self) -> (text: String)
        ensures
            text@ == self@.text(),
    {
        let mut text = String::from_str(self.kind.message());
        text.append(" (token ");
        append_decimal(&mut text, self.index);
        text.append(", line ");
        append_decimal(&mut text, self.line);
        text.append(", column ");
        append_decimal(&mut text, self.column);
        text.append(")");
        text
    }
}

/// The error of kind `kind` found at the token with index `at`.
pub open spec fn error_at(tokens: Seq<TokenView>, kind: ParseErrorKind, at: int) -> ParseErrorView {
    if 0 <= at < tokens.len() {
        ParseErrorView { kind, index: at, line: tokens[at].line, column: tokens[at].column }
    } else {
        ParseErrorView { kind, index: at, line: 0, column: 0 }
    }
}

/// Whether `result`, obtained at `pos`, is what the grammar gives as `expected`:
/// the same tree and the position behind it, or the same error at the same token.
pub open spec fn parsed_as<T: Model>(
    result: Result<(T, usize), ParseError>,
    tokens: Seq<TokenView>,
    pos: usize,
    expected: Parsed<T::M>,
) -> bool {
    match expected {
        Parsed::Done { value, len } => result matches Ok((tree, next)) && tree.model() == value
            && next == pos + len,
        Parsed::Failed { kind, at } => result matches Err(e) && e@ == error_at(tokens, kind, at),
    }
}

/// The error of kind `kind` at position `at`.
fn fail<T>(tokens: &Vec<Token>, at: usize, kind: ParseErrorKind) -> (result: Result<T, ParseError>)
    ensures
        result matches Err(e) && e@ == error_at(views(tokens@), kind, at as int),
{
    if at < tokens.len() {
        Err(ParseError { kind, index: at, line: tokens[at].line(), column: tokens[at].column() })
    } else {
        Err(ParseError { kind, index: at, line: 0, column: 0 })
    }
}

/// Whether a token of class `kind` stands at `pos`.
fn has_kind(tokens: &Vec<Token>, pos: usize, kind: TokenKind) -> (found: bool)
    ensures
        found == kind_at(views(tokens@), pos as int, kind),
        found ==> pos < tokens.len(),
{
    pos < tokens.len() && *tokens[pos].kind() == kind
}

/// Whether the token of class `kind` that spells `text` stands at `pos`.
fn has_token(tokens: &Vec<Token>, pos: usize, kind: TokenKind, text: &str) -> (found: bool)
    ensures
        found == token_at(views(tokens@), pos as int, kind, text@),
        found ==> pos < tokens.len(),
{
    pos < tokens.len() && *tokens[pos].kind() == kind && str_eq(tokens[pos].value(), text)
}

/// Whether a literal stands at `pos`.
fn has_literal(tokens: &Vec<Token>, pos: usize) -> (found: bool)
    ensures
        found == literal_at(views(tokens@), pos as int),
        found ==> pos < tokens.len(),
{
    has_kind(tokens, pos, TokenKind::IntegerLiteral)
        || has_kind(tokens, pos, TokenKind::StringLiteral)
        || has_kind(tokens, pos, TokenKind::BooleanLiteral)
        || has_kind(tokens, pos, TokenKind::NilLiteral)
}

/// The lexeme of the token at `pos`.
fn lexeme(tokens: &Vec<Token>, pos: usize) -> (text: String)
    requires
        pos < tokens.len(),
    ensures
        text@ == views(tokens@)[pos as int].value,
{
    String::from_str(tokens[pos].value())
}

/// Reads the integer literal at `pos`.
fn parse_integer_literal(tokens: &Vec<Token>, pos: usize) -> (result: Result<
    (isize, usize),
    ParseError,
>)
    requires
        kind_at(views(tokens@), pos as int, TokenKind::IntegerLiteral),
    ensures
        parsed_as(result, views(tokens@), pos, integer(views(tokens@), pos as int)),
{
    assert(views(tokens@).len() == tokens.len());
    match parse_integer(tokens[pos].value()) {
        Some(v) => Ok((v, pos + 1)),
        None => fail(tokens, pos, ParseErrorKind::InvalidInteger),
    }
}

/// Reads the string literal at `pos`: its text without the quotes.
fn parse_string_literal(tokens: &Vec<Token>, pos: usize) -> (result: Result<
    (String, usize),
    ParseError,
>)
    requires
        kind_at(views(tokens@), pos as int, TokenKind::StringLiteral),
    ensures
        parsed_as(result, views(tokens@), pos, string(views(tokens@), pos as int)),
{
    assert(views(tokens@).len() == tokens.len());
    match unquote(tokens[pos].value()) {
        Some(text) => Ok((text, pos + 1)),
        None => fail(tokens, pos, ParseErrorKind::InvalidString),
    }
}

/// Reads the literal at `pos`.
fn parse_literal(tokens: &Vec<Token>, pos: usize) -> (result: Result<(Literal, usize), ParseError>)
    requires
        literal_at(views(tokens@), pos as int),
    ensures
        parsed_as(result, views(tokens@), pos, literal(views(tokens@), pos as int)),
{
    assert(views(tokens@).len() == tokens.len());
    if has_kind(tokens, pos, TokenKind::IntegerLiteral) {
        match parse_integer_literal(tokens, pos) {
            Ok((v, next)) => Ok((Literal::Integer(v), next)),
            Err(e) => Err(e),
        }
    } else if has_kind(tokens, pos, TokenKind::StringLiteral) {
        match parse_string_literal(tokens, pos) {
            Ok((text, next)) => Ok((Literal::String(text), next)),
            Err(e) => Err(e),
        }
    } else if has_kind(tokens, pos, TokenKind::BooleanLiteral) {
        if str_eq(tokens[pos].value(), "true") {
            Ok((Literal::Boolean(true), pos + 1))
        } else if str_eq(tokens[pos].value(), "false") {
            Ok((Literal::Boolean(false), pos + 1))
        } else {
            fail(tokens, pos, ParseErrorKind::InvalidBoolean)
        }
    } else {
        Ok((Literal::Nil, pos + 1))
    }
}

/// Reads the guard at `pos`.
fn parse_guard(tokens: &Vec<Token>, pos: usize) -> (result: Result<(Guard, usize), ParseError>)
    ensures
        parsed_as(result, views(tokens@), pos, guard(views(tokens@), pos as int)),
{
    if pos >= tokens.len() {
        fail(tokens, pos, ParseErrorKind::MissingGuard)
    } else if has_kind(tokens, pos, TokenKind::IntegerLiteral) {
        match parse_integer_literal(tokens, pos) {
            Ok((v, next)) => Ok((Guard::Numeric(v), next)),
            Err(e) => Err(e),
        }
    } else if has_kind(tokens, pos, TokenKind::StringLiteral) {
        match parse_string_literal(tokens, pos) {
            Ok((text, next)) => Ok((Guard::Pattern(text), next)),
            Err(e) => Err(e),
        }
    } else {
        fail(tokens, pos, ParseErrorKind::InvalidGuard)
    }
}

/// The node that joins `left` and `right` by `op`.
fn make_binary(op: BinaryOp, left: Expression, right: Expression) -> (node: Expression)
    ensures
        node.model() == binary_view(op, left.model(), right.model()),
{
    let a = Box::new(left);
    let b = Box::new(right);
    match op {
        BinaryOp::Equal => Expression::Equal(a, b),
        BinaryOp::NotEqual => Expression::NotEqual(a, b),
        BinaryOp::Less => Expression::Less(a, b),
        BinaryOp::Greater => Expression::Greater(a, b),
        BinaryOp::LessOrEqual => Expression::LessOrEqual(a, b),
        BinaryOp::GreaterOrEqual => Expression::GreaterOrEqual(a, b),
        BinaryOp::Sum => Expression::Sum(a, b),
        BinaryOp::Minus => Expression::Minus(a, b),
        BinaryOp::Multiply => Expression::Multiply(a, b),
        BinaryOp::Division => Expression::Division(a, b),
        BinaryOp::Modulus => Expression::Modulus(a, b),
    }
}

/// The comparison that the lexeme `text` stands for.
fn comparison_operator(text: &str) -> (op: Option<BinaryOp>)
    ensures
        op == comparison_op(text@),
{
    if str_eq(text, "==") {
        Some(BinaryOp::Equal)
    } else if str_eq(text, "!=") {
        Some(BinaryOp::NotEqual)
    } else if str_eq(text, "<") {
        Some(BinaryOp::Less)
    } else if str_eq(text, ">") {
        Some(BinaryOp::Greater)
    } else if str_eq(text, "<=") {
        Some(BinaryOp::LessOrEqual)
    } else if str_eq(text, ">=") {
        Some(BinaryOp::GreaterOrEqual)
    } else {
        None
    }
}

/// The operator of a sum at `pos`, if one stands there.
fn sum_operator(tokens: &Vec<Token>, pos: usize) -> (op: Option<BinaryOp>)
    ensures
        op == sum_op(views(tokens@), pos as int),
        op is Some ==> pos < tokens.len(),
{
    if has_token(tokens, pos, TokenKind::ArithmeticOperator, "+") {
        Some(BinaryOp::Sum)
    } else if has_token(tokens, pos, TokenKind::ArithmeticOperator, "-") {
        Some(BinaryOp::Minus)
    } else {
        None
    }
}

/// The operator of a product at `pos`, if one stands there.
fn product_operator(tokens: &Vec<Token>, pos: usize) -> (op: Option<BinaryOp>)
    ensures
        op == product_op(views(tokens@), pos as int),
        op is Some ==> pos < tokens.len(),
{
    if has_token(tokens, pos, TokenKind::ArithmeticOperator, "*") {
        Some(BinaryOp::Multiply)
    } else if has_token(tokens, pos, TokenKind::ArithmeticOperator, "/") {
        Some(BinaryOp::Division)
    } else if has_token(tokens, pos, TokenKind::ArithmeticOperator, "%") {
        Some(BinaryOp::Modulus)
    } else {
        None
    }
}

/// Reads the expression at `pos`.
pub fn parse_expression(tokens: &Vec<Token>, pos: usize) -> (result: Result<
    (Expression, usize),
    ParseError,
>)
    ensures
        parsed_as(result, views(tokens@), pos, expression(views(tokens@), pos as int)),
    decreases remaining(views(tokens@), pos as int), 7nat,
{
    reveal(expression);
    reveal(sum);
    let (left, op_pos) = match parse_sum(tokens, pos) {
        Ok(done) => done,
        Err(e) => { return Err(e); },
    };
    if !has_kind(tokens, op_pos, TokenKind::CompareOperator) {
        return Ok((left, op_pos));
    }
    let op = match comparison_operator(tokens[op_pos].value()) {
        Some(op) => op,
        None => { return fail(tokens, op_pos, ParseErrorKind::UnknownOperator); },
    };
    match parse_sum(tokens, op_pos + 1) {
        Ok((right, next)) => Ok((make_binary(op, left, right), next)),
        Err(e) => Err(e),
    }
}

/// Reads the sum at `pos`.
fn parse_sum(tokens: &Vec<Token>, pos: usize) -> (result: Result<(Expression, usize), ParseError>)
    ensures
        parsed_as(result, views(tokens@), pos, sum(views(tokens@), pos as int)),
    decreases remaining(views(tokens@), pos as int), 6nat,
{
    reveal(sum);
    reveal(sum_tail);
    reveal(product);
    let ghost all = views(tokens@);
    let (mut left, mut next) = match parse_product(tokens, pos) {
        Ok(done) => done,
        Err(e) => { return Err(e); },
    };
    loop
        invariant
            all == views(tokens@),
            pos <= next,
            sum(all, pos as int) == sum_tail(all, next as int, left.model()).after(
                (next - pos) as nat,
            ),
        decreases remaining(all, next as int),
    {
        reveal(sum_tail);
        reveal(product);
        let op = match sum_operator(tokens, next) {
            Some(op) => op,
            None => { return Ok((left, next)); },
        };
        let (right, after) = match parse_product(tokens, next + 1) {
            Ok(done) => done,
            Err(e) => { return Err(e); },
        };
        left = make_binary(op, left, right);
        next = after;
    }
}

/// Reads the product at `pos`.
fn parse_product(tokens: &Vec<Token>, pos: usize) -> (result: Result<
    (Expression, usize),
    ParseError,
>)
    ensures
        parsed_as(result, views(tokens@), pos, product(views(tokens@), pos as int)),
    decreases remaining(views(tokens@), pos as int), 4nat,
{
    reveal(product);
    reveal(product_tail);
    reveal(operand);
    let ghost all = views(tokens@);
    let (mut left, mut next) = match parse_operand(tokens, pos) {
        Ok(done) => done,
        Err(e) => { return Err(e); },
    };
    loop
        invariant
            all == views(tokens@),
            pos <= next,
            product(all, pos as int) == product_tail(all, next as int, left.model()).after(
                (next - pos) as nat,
            ),
        decreases remaining(all, next as int),
    {
        reveal(product_tail);
        reveal(operand);
        let op = match product_operator(tokens, next) {
            Some(op) => op,
            None => { return Ok((left, next)); },
        };
        let (right, after) = match parse_operand(tokens, next + 1) {
            Ok(done) => done,
            Err(e) => { return Err(e); },
        };
        left = make_binary(op, left, right);
        next = after;
    }
}

/// Whether `step`, taken at `next` with `left` read so far, is the step that
/// the rest of an operand takes there: the longer operand and the position
/// behind it, or the error that the rest of the operand ends in.
pub open spec fn operand_step(
    step: Result<(Expression, usize), ParseError>,
    tokens: Seq<TokenView>,
    next: usize,
    left: ExpressionView,
) -> bool {
    match step {
        Ok((longer, after)) => after > next && operand_tail(tokens, next as int, left)
            == operand_tail(tokens, after as int, longer.model()).after((after - next) as nat),
        Err(e) => operand_tail(tokens, next as int, left) matches Parsed::Failed { kind, at }
            && e@ == error_at(tokens, kind, at),
    }
}

/// Reads the operand at `pos`.
fn parse_operand(tokens: &Vec<Token>, pos: usize) -> (result: Result<
    (Expression, usize),
    ParseError,
>)
    ensures
        parsed_as(result, views(tokens@), pos, operand(views(tokens@), pos as int)),
    decreases remaining(views(tokens@), pos as int), 2nat,
{
    reveal(operand);
    reveal(operand_tail);
    reveal(primary);
    let ghost all = views(tokens@);
    let (mut left, mut next) = match parse_primary(tokens, pos) {
        Ok(done) => done,
        Err(e) => { return Err(e); },
    };
    loop
        invariant
            all == views(tokens@),
            pos <= next,
            operand(all, pos as int) == operand_tail(all, next as int, left.model()).after(
                (next - pos) as nat,
            ),
        decreases remaining(all, next as int),
    {
        reveal(operand_tail);
        reveal(primary);
        reveal(call);
        let step = if has_kind(tokens, next, TokenKind::GuardOperator) {
            parse_guard_suffix(tokens, next, left)
        } else if has_kind(tokens, next, TokenKind::TimeOperator) {
            parse_time_suffix(tokens, next, left)
        } else if has_kind(tokens, next, TokenKind::PipeOperator) {
            parse_pipe_suffix(tokens, next, left)
        } else {
            return Ok((left, next));
        };
        match step {
            Ok((longer, after)) => {
                left = longer;
                next = after;
            },
            Err(e) => { return Err(e); },
        }
    }
}

/// Reads the guard behind the `::` at `next` and attaches it to `left`.
fn parse_guard_suffix(tokens: &Vec<Token>, next: usize, left: Expression) -> (step: Result<
    (Expression, usize),
    ParseError,
>)
    requires
        kind_at(views(tokens@), next as int, TokenKind::GuardOperator),
    ensures
        operand_step(step, views(tokens@), next, left.model()),
{
    reveal(operand_tail);
    assert(views(tokens@).len() == tokens.len());
    match parse_guard(tokens, next + 1) {
        Ok((condition, after)) => Ok((Expression::Guard(Box::new(left), condition), after)),
        Err(e) => Err(e),
    }
}

/// Reads the primary behind the `@` at `next` and joins it to `left`.
fn parse_time_suffix(tokens: &Vec<Token>, next: usize, left: Expression) -> (step: Result<
    (Expression, usize),
    ParseError,
>)
    requires
        kind_at(views(tokens@), next as int, TokenKind::TimeOperator),
    ensures
        operand_step(step, views(tokens@), next, left.model()),
    decreases remaining(views(tokens@), next as int), 0nat,
{
    reveal(operand_tail);
    reveal(primary);
    assert(views(tokens@).len() == tokens.len());
    match parse_primary(tokens, next + 1) {
        Ok((right, after)) => Ok((Expression::Time(Box::new(left), Box::new(right)), after)),
        Err(e) => Err(e),
    }
}

/// Reads the call behind the `.` at `next` and pipes `left` into it.
fn parse_pipe_suffix(tokens: &Vec<Token>, next: usize, left: Expression) -> (step: Result<
    (Expression, usize),
    ParseError,
>)
    requires
        kind_at(views(tokens@), next as int, TokenKind::PipeOperator),
    ensures
        operand_step(step, views(tokens@), next, left.model()),
    decreases remaining(views(tokens@), next as int), 0nat,
{
    reveal(operand_tail);
    reveal(call);
    assert(views(tokens@).len() == tokens.len());
    if !has_kind(tokens, next + 1, TokenKind::Identifier) {
        return fail(tokens, next + 1, ParseErrorKind::MissingCallName);
    }
    match parse_call(tokens, next + 1) {
        Ok((target, after)) => Ok((Expression::Pipe(Box::new(left), target), after)),
        Err(e) => Err(e),
    }
}

/// Reads the primary at `pos`.
fn parse_primary(tokens: &Vec<Token>, pos: usize) -> (result: Result<
    (Expression, usize),
    ParseError,
>)
    ensures
        parsed_as(result, views(tokens@), pos, primary(views(tokens@), pos as int)),
    decreases remaining(views(tokens@), pos as int), 1nat,
{
    reveal(primary);
    reveal(call);
    reveal(expression);
    if has_literal(tokens, pos) {
        match parse_literal(tokens, pos) {
            Ok((value, next)) => Ok((Expression::Literal(value), next)),
            Err(e) => Err(e),
        }
    } else if has_kind(tokens, pos, TokenKind::Identifier) {
        match parse_call(tokens, pos) {
            Ok((value, next)) => Ok((Expression::FunctionCall(value), next)),
            Err(e) => Err(e),
        }
    } else if has_token(tokens, pos, TokenKind::Delimiter, "(") {
        let (inner, close) = match parse_expression(tokens, pos + 1) {
            Ok(done) => done,
            Err(e) => { return Err(e); },
        };
        if has_token(tokens, close, TokenKind::Delimiter, ")") {
            Ok((inner, close + 1))
        } else {
            fail(tokens, close, ParseErrorKind::MissingCloseParen)
        }
    } else {
        fail(tokens, pos, ParseErrorKind::InvalidExpression)
    }
}

/// Reads the call whose name stands at `pos`.
fn parse_call(tokens: &Vec<Token>, pos: usize) -> (result: Result<
    (FunctionCall, usize),
    ParseError,
>)
    requires
        kind_at(views(tokens@), pos as int, TokenKind::Identifier),
    ensures
        parsed_as(result, views(tokens@), pos, call(views(tokens@), pos as int)),
    decreases remaining(views(tokens@), pos as int), 0nat,
{
    reveal(call);
    reveal(call_arguments);
    assert(views(tokens@).len() == tokens.len());
    if !has_token(tokens, pos + 1, TokenKind::Delimiter, "(") {
        return fail(tokens, pos + 1, ParseErrorKind::MissingOpenParen);
    }
    match parse_call_arguments(tokens, pos + 2) {
        Ok((arguments, next)) => Ok((FunctionCall { name: lexeme(tokens, pos), arguments }, next)),
        Err(e) => Err(e),
    }
}

/// Reads the arguments of a call and its `)`, from behind its `(`.
fn parse_call_arguments(tokens: &Vec<Token>, pos: usize) -> (result: Result<
    (Vec<Box<Expression>>, usize),
    ParseError,
>)
    ensures
        parsed_as(result, views(tokens@), pos, call_arguments(views(tokens@), pos as int)),
    decreases remaining(views(tokens@), pos as int), 9nat,
{
    reveal(call_arguments);
    reveal(argument_list);
    let ghost all = views(tokens@);
    let mut arguments: Vec<Box<Expression>> = Vec::new();
    if has_token(tokens, pos, TokenKind::Delimiter, ")") {
        assert(arguments.model() =~= Seq::empty());
        return Ok((arguments, pos + 1));
    }
    let mut next = pos;
    loop
        invariant
            all == views(tokens@),
            pos <= next,
            call_arguments(all, pos as int) == argument_list(all, next as int).prepend(
                arguments.model(),
                (next - pos) as nat,
            ),
        decreases remaining(all, next as int),
    {
        reveal(argument_list);
        reveal(expression);
        let (argument, after) = match parse_expression(tokens, next) {
            Ok(done) => done,
            Err(e) => { return Err(e); },
        };
        let ghost before = arguments.model();
        let ghost rest = argument_list(all, after + 1);
        proof {
            let boxed = Box::new(argument);
            lemma_arguments_push(arguments@, boxed);
            assert(before.push(argument.model()) =~= before + seq![argument.model()]);
            rest.lemma_prepend_twice(
                before,
                (next - pos) as nat,
                seq![argument.model()],
                (after + 1 - next) as nat,
            );
            assert(seq![argument.model()] + Seq::empty() =~= seq![argument.model()]);
        }
        arguments.push(Box::new(argument));
        if after >= tokens.len() {
            return fail(tokens, after, ParseErrorKind::MissingCloseParen);
        } else if has_token(tokens, after, TokenKind::Delimiter, ")") {
            return Ok((arguments, after + 1));
        } else if has_token(tokens, after, TokenKind::Delimiter, ",") {
            next = after + 1;
        } else {
            return fail(tokens, after, ParseErrorKind::MissingComma);
        }
    }
}

/// Whether `result`, obtained at `pos`, is what a form that is tried there
/// gives: nothing where the form does not apply, else what the grammar gives
/// as `expected`.
pub open spec fn tried_as<T: Model>(
    result: Result<Option<(T, usize)>, ParseError>,
    tokens: Seq<TokenView>,
    pos: usize,
    applies: bool,
    expected: Parsed<T::M>,
) -> bool {
    if !applies {
        result matches Ok(None)
    } else {
        match expected {
            Parsed::Done { value, len } => result matches Ok(Some((tree, next))) && tree.model()
                == value && next == pos + len,
            Parsed::Failed { kind, at } => result matches Err(e) && e@ == error_at(
                tokens,
                kind,
                at,
            ),
        }
    }
}

/// Reads the integer literal at `pos`, which must not be negative.
fn parse_natural(
    tokens: &Vec<Token>,
    pos: usize,
    missing: ParseErrorKind,
    negative: ParseErrorKind,
) -> (result: Result<(usize, usize), ParseError>)
    ensures
        parsed_as(
            result,
            views(tokens@),
            pos,
            natural(views(tokens@), pos as int, missing, negative),
        ),
{
    if !has_kind(tokens, pos, TokenKind::IntegerLiteral) {
        return fail(tokens, pos, missing);
    }
    let (value, next) = parse_integer_literal(tokens, pos)?;
    if value < 0 {
        fail(tokens, pos, negative)
    } else {
        Ok((value as usize, next))
    }
}

/// Reads the expression at `pos` and the `;` behind it.
fn parse_terminated_expression(tokens: &Vec<Token>, pos: usize) -> (result: Result<
    (Expression, usize),
    ParseError,
>)
    ensures
        parsed_as(result, views(tokens@), pos, terminated_expression(views(tokens@), pos as int)),
{
    let (value, next) = parse_expression(tokens, pos)?;
    if has_token(tokens, next, TokenKind::Delimiter, ";") {
        Ok((value, next + 1))
    } else {
        fail(tokens, next, ParseErrorKind::MissingSemicolon)
    }
}

/// Reads the expression at `pos` and the `do` behind it.
fn parse_condition(tokens: &Vec<Token>, pos: usize) -> (result: Result<
    (Expression, usize),
    ParseError,
>)
    ensures
        parsed_as(result, views(tokens@), pos, condition(views(tokens@), pos as int)),
{
    let (value, next) = parse_expression(tokens, pos)?;
    if has_token(tokens, next, TokenKind::Keyword, "do") {
        Ok((value, next + 1))
    } else {
        fail(tokens, next, ParseErrorKind::MissingDo)
    }
}

/// The assignment that the lexeme `text` stands for.
fn assignment_operator(text: &str) -> (op: Option<AssignOp>)
    ensures
        op == assign_op(text@),
{
    if str_eq(text, "=") {
        Some(AssignOp::Plain)
    } else if str_eq(text, "+=") {
        Some(AssignOp::Sum)
    } else if str_eq(text, "-=") {
        Some(AssignOp::Minus)
    } else if str_eq(text, "*=") {
        Some(AssignOp::Mult)
    } else if str_eq(text, "/=") {
        Some(AssignOp::Div)
    } else if str_eq(text, "%=") {
        Some(AssignOp::Mod)
    } else {
        None
    }
}

/// Tries the assignment with operator `op` at `pos`.
fn parse_assignment_with(tokens: &Vec<Token>, pos: usize, op: AssignOp) -> (result: Result<
    Option<(Statement, usize)>,
    ParseError,
>)
    ensures
        tried_as(
            result,
            views(tokens@),
            pos,
            assignment_at(views(tokens@), pos as int, op),
            assignment(views(tokens@), pos as int),
        ),
        result matches Ok(Some((_, next))) ==> next > pos,
{
    if !has_kind(tokens, pos, TokenKind::Identifier) || !has_kind(
        tokens,
        pos + 1,
        TokenKind::AssignOperator,
    ) {
        return Ok(None);
    }
    match assignment_operator(tokens[pos + 1].value()) {
        Some(found) if found == op => {},
        _ => { return Ok(None); },
    }
    let (expression, next) = parse_terminated_expression(tokens, pos + 2)?;
    let variable = lexeme(tokens, pos);
    let node = match op {
        AssignOp::Plain => Statement::Assignment { variable, expression },
        AssignOp::Sum => Statement::AssignmentSum { variable, expression },
        AssignOp::Minus => Statement::AssignmentMinus { variable, expression },
        AssignOp::Mult => Statement::AssignmentMult { variable, expression },
        AssignOp::Div => Statement::AssignmentDiv { variable, expression },
        AssignOp::Mod => Statement::AssignmentMod { variable, expression },
    };
    Ok(Some((node, next)))
}

/// Tries the plain assignment `name = expression ;` at `pos`.
pub fn parse_assignment(tokens: &Vec<Token>, pos: usize) -> (result: Result<
    Option<(Statement, usize)>,
    ParseError,
>)
    ensures
        tried_as(
            result,
            views(tokens@),
            pos,
            assignment_at(views(tokens@), pos as int, AssignOp::Plain),
            assignment(views(tokens@), pos as int),
        ),
        result matches Ok(Some((_, next))) ==> next > pos,
{
    parse_assignment_with(tokens, pos, AssignOp::Plain)
}

/// Tries the assignment `name += expression ;` at `pos`.
pub fn parse_assignment_sum(tokens: &Vec<Token>, pos: usize) -> (result: Result<
    Option<(Statement, usize)>,
    ParseError,
>)
    ensures
        tried_as(
            result,
            views(tokens@),
            pos,
            assignment_at(views(tokens@), pos as int, AssignOp::Sum),
            assignment(views(tokens@), pos as int),
        ),
        result matches Ok(Some((_, next))) ==> next > pos,
{
    parse_assignment_with(tokens, pos, AssignOp::Sum)
}

/// Tries the assignment `name -= expression ;` at `pos`.
pub fn parse_assignment_minus(tokens: &Vec<Token>, pos: usize) -> (result: Result<
    Option<(Statement, usize)>,
    ParseError,
>)
    ensures
        tried_as(
            result,
            views(tokens@),
            pos,
            assignment_at(views(tokens@), pos as int, AssignOp::Minus),
            assignment(views(tokens@), pos as int),
        ),
        result matches Ok(Some((_, next))) ==> next > pos,
{
    parse_assignment_with(tokens, pos, AssignOp::Minus)
}

/// Tries the assignment `name *= expression ;` at `pos`.
pub fn parse_assignment_mult(tokens: &Vec<Token>, pos: usize) -> (result: Result<
    Option<(Statement, usize)>,
    ParseError,
>)
    ensures
        tried_as(
            result,
            views(tokens@),
            pos,
            assignment_at(views(tokens@), pos as int, AssignOp::Mult),
            assignment(views(tokens@), pos as int),
        ),
        result matches Ok(Some((_, next))) ==> next > pos,
{
    parse_assignment_with(tokens, pos, AssignOp::Mult)
}

/// Tries the assignment `name /= expression ;` at `pos`.
pub fn parse_assignment_div(tokens: &Vec<Token>, pos: usize) -> (result: Result<
    Option<(Statement, usize)>,
    ParseError,
>)
    ensures
        tried_as(
            result,
            views(tokens@),
            pos,
            assignment_at(views(tokens@), pos as int, AssignOp::Div),
            assignment(views(tokens@), pos as int),
        ),
        result matches Ok(Some((_, next))) ==> next > pos,
{
    parse_assignment_with(tokens, pos, AssignOp::Div)
}

/// Tries the assignment `name %= expression ;` at `pos`.
pub fn parse_assignment_mod(tokens: &Vec<Token>, pos: usize) -> (result: Result<
    Option<(Statement, usize)>,
    ParseError,
>)
    ensures
        tried_as(
            result,
            views(tokens@),
            pos,
            assignment_at(views(tokens@), pos as int, AssignOp::Mod),
            assignment(views(tokens@), pos as int),
        ),
        result matches Ok(Some((_, next))) ==> next > pos,
{
    parse_assignment_with(tokens, pos, AssignOp::Mod)
}

/// Tries the delay `@ time ;` at `pos`.
pub fn parse_delay(tokens: &Vec<Token>, pos: usize) -> (result: Result<
    Option<(Statement, usize)>,
    ParseError,
>)
    ensures
        tried_as(
            result,
            views(tokens@),
            pos,
            kind_at(views(tokens@), pos as int, TokenKind::TimeOperator),
            delay(views(tokens@), pos as int),
        ),
        result matches Ok(Some((_, next))) ==> next > pos,
{
    if !has_kind(tokens, pos, TokenKind::TimeOperator) {
        return Ok(None);
    }
    let (time, next) = parse_natural(
        tokens,
        pos + 1,
        ParseErrorKind::MissingDelayTime,
        ParseErrorKind::NegativeDelay,
    )?;
    if has_token(tokens, next, TokenKind::Delimiter, ";") {
        Ok(Some((Statement::Delay { time }, next + 1)))
    } else {
        fail(tokens, next, ParseErrorKind::MissingSemicolon)
    }
}

/// Reads one or more names separated by `,`, from `pos`.
fn parse_name_list(tokens: &Vec<Token>, pos: usize) -> (result: Result<
    (Vec<String>, usize),
    ParseError,
>)
    ensures
        parsed_as(result, views(tokens@), pos, name_list(views(tokens@), pos as int)),
{
    reveal(name_list);
    let ghost all = views(tokens@);
    let mut names: Vec<String> = Vec::new();
    let mut next = pos;
    assert(names.model() =~= Seq::empty());
    proof {
        name_list(all, pos as int).lemma_prepend_nothing();
    }
    loop
        invariant
            all == views(tokens@),
            pos <= next,
            name_list(all, pos as int) == name_list(all, next as int).prepend(
                names.model(),
                (next - pos) as nat,
            ),
        decreases remaining(all, next as int),
    {
        reveal(name_list);
        if !has_kind(tokens, next, TokenKind::Identifier) {
            return fail(tokens, next, ParseErrorKind::MissingStoreVariable);
        }
        let name = lexeme(tokens, next);
        proof {
            lemma_names_push(names@, name);
            assert(names.model().push(name@) =~= names.model() + seq![name@]);
            name_list(all, next + 2).lemma_prepend_twice(
                names.model(),
                (next - pos) as nat,
                seq![name@],
                2,
            );
            Parsed::lemma_prepend_last(names.model() + seq![name@], (next - pos) as nat, 1);
        }
        names.push(name);
        if has_token(tokens, next + 1, TokenKind::Delimiter, ",") {
            next = next + 2;
        } else {
            return Ok((names, next + 1));
        }
    }
}

/// Tries the statement `store name, ... ;` at `pos`.
pub fn parse_store(tokens: &Vec<Token>, pos: usize) -> (result: Result<
    Option<(Statement, usize)>,
    ParseError,
>)
    ensures
        tried_as(
            result,
            views(tokens@),
            pos,
            keyword_at(views(tokens@), pos as int, "store"@),
            store(views(tokens@), pos as int),
        ),
        result matches Ok(Some((_, next))) ==> next > pos,
{
    if !has_token(tokens, pos, TokenKind::Keyword, "store") {
        return Ok(None);
    }
    let (var_list, next) = parse_name_list(tokens, pos + 1)?;
    if has_token(tokens, next, TokenKind::Delimiter, ";") {
        Ok(Some((Statement::Store { var_list }, next + 1)))
    } else {
        fail(tokens, next, ParseErrorKind::MissingSemicolon)
    }
}

/// Tries the statement `return expression ;` at `pos`.
pub fn parse_return(tokens: &Vec<Token>, pos: usize) -> (result: Result<
    Option<(Statement, usize)>,
    ParseError,
>)
    ensures
        tried_as(
            result,
            views(tokens@),
            pos,
            keyword_at(views(tokens@), pos as int, "return"@),
            return_statement(views(tokens@), pos as int),
        ),
        result matches Ok(Some((_, next))) ==> next > pos,
{
    if !has_token(tokens, pos, TokenKind::Keyword, "return") {
        return Ok(None);
    }
    let (expression, next) = parse_terminated_expression(tokens, pos + 1)?;
    Ok(Some((Statement::Return { expression }, next)))
}

/// Tries the call statement `name(arguments) ;` at `pos`.
pub fn parse_statement_function_call(tokens: &Vec<Token>, pos: usize) -> (result: Result<
    Option<(Statement, usize)>,
    ParseError,
>)
    ensures
        tried_as(
            result,
            views(tokens@),
            pos,
            kind_at(views(tokens@), pos as int, TokenKind::Identifier),
            call_statement(views(tokens@), pos as int),
        ),
        result matches Ok(Some((_, next))) ==> next > pos,
{
    if !has_kind(tokens, pos, TokenKind::Identifier) {
        return Ok(None);
    }
    let (target, next) = parse_call(tokens, pos)?;
    if has_token(tokens, next, TokenKind::Delimiter, ";") {
        Ok(Some((Statement::FunctionCall(target), next + 1)))
    } else {
        fail(tokens, next, ParseErrorKind::MissingSemicolon)
    }
}

/// Whether the list of statements of the given scope ends at `pos`.
fn at_close(tokens: &Vec<Token>, pos: usize, scope: Scope) -> (closed: bool)
    ensures
        closed == closes(views(tokens@), pos as int, scope),
{
    assert(views(tokens@).len() == tokens.len());
    if pos >= tokens.len() || has_token(tokens, pos, TokenKind::Keyword, "end") {
        return true;
    }
    match scope {
        Scope::Block => false,
        Scope::Branch => has_token(tokens, pos, TokenKind::Keyword, "elif") || has_token(
            tokens,
            pos,
            TokenKind::Keyword,
            "else",
        ),
        Scope::Case => has_literal(tokens, pos) || has_kind(
            tokens,
            pos,
            TokenKind::MatchDefaultOperator,
        ),
    }
}

/// Reads the statements from `pos` up to the token that closes the scope.
pub fn parse_statements(tokens: &Vec<Token>, pos: usize, scope: Scope) -> (result: Result<
    (Vec<Statement>, usize),
    ParseError,
>)
    ensures
        parsed_as(result, views(tokens@), pos, statements(views(tokens@), pos as int, scope)),
    decreases remaining(views(tokens@), pos as int), 5nat,
{
    reveal(statements);
    let ghost all = views(tokens@);
    let mut list: Vec<Statement> = Vec::new();
    let mut next = pos;
    assert(list.model() =~= Seq::empty());
    proof {
        statements(all, pos as int, scope).lemma_prepend_nothing();
    }
    loop
        invariant
            all == views(tokens@),
            pos <= next,
            statements(all, pos as int, scope) == statements(all, next as int, scope).prepend(
                list.model(),
                (next - pos) as nat,
            ),
        decreases remaining(all, next as int),
    {
        reveal(statements);
        reveal(statement);
        if at_close(tokens, next, scope) {
            proof {
                Parsed::lemma_prepend_last(list.model(), (next - pos) as nat, 0);
            }
            return Ok((list, next));
        }
        let (one, after) = parse_statement(tokens, next)?;
        proof {
            lemma_statements_push(list@, one);
            assert(list.model().push(one.model()) =~= list.model() + seq![one.model()]);
            statements(all, after as int, scope).lemma_prepend_twice(
                list.model(),
                (next - pos) as nat,
                seq![one.model()],
                (after - next) as nat,
            );
        }
        list.push(one);
        next = after;
    }
}

/// Reads the statements from `pos` and the `end` that closes them.
pub fn parse_block_statement(tokens: &Vec<Token>, pos: usize) -> (result: Result<
    (Vec<Statement>, usize),
    ParseError,
>)
    ensures
        parsed_as(result, views(tokens@), pos, block(views(tokens@), pos as int)),
    decreases remaining(views(tokens@), pos as int), 6nat,
{
    reveal(block);
    reveal(statements);
    let (body, next) = parse_statements(tokens, pos, Scope::Block)?;
    if has_token(tokens, next, TokenKind::Keyword, "end") {
        Ok((body, next + 1))
    } else {
        fail(tokens, next, ParseErrorKind::MissingEnd)
    }
}

/// Reads the statement at `pos`, trying each form in turn.
pub fn parse_statement(tokens: &Vec<Token>, pos: usize) -> (result: Result<
    (Statement, usize),
    ParseError,
>)
    ensures
        parsed_as(result, views(tokens@), pos, statement(views(tokens@), pos as int)),
        result matches Ok((_, next)) ==> next > pos,
    decreases remaining(views(tokens@), pos as int), 4nat,
{
    reveal(statement);
    reveal(if_statement);
    reveal(for_statement);
    reveal(while_statement);
    reveal(match_statement);
    if let Some(done) = parse_assignment(tokens, pos)? {
        return Ok(done);
    }
    if let Some(done) = parse_assignment_sum(tokens, pos)? {
        return Ok(done);
    }
    if let Some(done) = parse_assignment_minus(tokens, pos)? {
        return Ok(done);
    }
    if let Some(done) = parse_assignment_mult(tokens, pos)? {
        return Ok(done);
    }
    if let Some(done) = parse_assignment_div(tokens, pos)? {
        return Ok(done);
    }
    if let Some(done) = parse_assignment_mod(tokens, pos)? {
        return Ok(done);
    }
    assert(!any_assignment_at(views(tokens@), pos as int));
    if let Some(done) = parse_delay(tokens, pos)? {
        return Ok(done);
    }
    if let Some(done) = parse_store(tokens, pos)? {
        return Ok(done);
    }
    if let Some(done) = parse_if(tokens, pos)? {
        return Ok(done);
    }
    if let Some(done) = parse_for(tokens, pos)? {
        return Ok(done);
    }
    if let Some(done) = parse_while(tokens, pos)? {
        return Ok(done);
    }
    if let Some(done) = parse_match(tokens, pos)? {
        return Ok(done);
    }
    if let Some(done) = parse_return(tokens, pos)? {
        return Ok(done);
    }
    if let Some(done) = parse_statement_function_call(tokens, pos)? {
        return Ok(done);
    }
    fail(tokens, pos, ParseErrorKind::InvalidStatement)
}

/// Tries the statement `if ... end` at `pos`.
pub fn parse_if(tokens: &Vec<Token>, pos: usize) -> (result: Result<
    Option<(Statement, usize)>,
    ParseError,
>)
    ensures
        tried_as(
            result,
            views(tokens@),
            pos,
            keyword_at(views(tokens@), pos as int, "if"@),
            if_statement(views(tokens@), pos as int),
        ),
        result matches Ok(Some((_, next))) ==> next > pos,
    decreases remaining(views(tokens@), pos as int), 3nat,
{
    reveal(if_statement);
    reveal(statements);
    reveal(elif_branches);
    reveal(else_branch);
    if !has_token(tokens, pos, TokenKind::Keyword, "if") {
        return Ok(None);
    }
    let (condition, at_body) = parse_condition(tokens, pos + 1)?;
    let (body, at_elif) = parse_statements(tokens, at_body, Scope::Branch)?;
    let (elif, at_else) = parse_elif_branches(tokens, at_elif)?;
    let (else_body, next) = parse_else_branch(tokens, at_else)?;
    Ok(Some((Statement::If { condition, body, elif, else_body }, next)))
}

/// Reads the `elif` branches from `pos`.
fn parse_elif_branches(tokens: &Vec<Token>, pos: usize) -> (result: Result<
    (Vec<(Expression, Vec<Statement>)>, usize),
    ParseError,
>)
    ensures
        parsed_as(result, views(tokens@), pos, elif_branches(views(tokens@), pos as int)),
    decreases remaining(views(tokens@), pos as int), 2nat,
{
    reveal(elif_branches);
    let ghost all = views(tokens@);
    let mut branches: Vec<(Expression, Vec<Statement>)> = Vec::new();
    let mut next = pos;
    assert(branches.model() =~= Seq::empty());
    proof {
        elif_branches(all, pos as int).lemma_prepend_nothing();
    }
    loop
        invariant
            all == views(tokens@),
            pos <= next,
            elif_branches(all, pos as int) == elif_branches(all, next as int).prepend(
                branches.model(),
                (next - pos) as nat,
            ),
        decreases remaining(all, next as int),
    {
        reveal(elif_branches);
        reveal(statements);
        if !has_token(tokens, next, TokenKind::Keyword, "elif") {
            proof {
                Parsed::lemma_prepend_last(branches.model(), (next - pos) as nat, 0);
            }
            return Ok((branches, next));
        }
        let (test, at_body) = parse_condition(tokens, next + 1)?;
        let (body, after) = parse_statements(tokens, at_body, Scope::Branch)?;
        let branch = (test, body);
        proof {
            lemma_branches_push(branches@, branch);
            let item = (test.model(), body.model());
            assert(branches.model().push(item) =~= branches.model() + seq![item]);
            elif_branches(all, after as int).lemma_prepend_twice(
                branches.model(),
                (next - pos) as nat,
                seq![item],
                (after - next) as nat,
            );
        }
        branches.push(branch);
        next = after;
    }
}

/// Reads the end of an `if` from `pos`: `else` with its statements, if there
/// is one, and `end`.
fn parse_else_branch(tokens: &Vec<Token>, pos: usize) -> (result: Result<
    (Vec<Statement>, usize),
    ParseError,
>)
    ensures
        parsed_as(result, views(tokens@), pos, else_branch(views(tokens@), pos as int)),
    decreases remaining(views(tokens@), pos as int), 7nat,
{
    reveal(else_branch);
    reveal(block);
    if has_token(tokens, pos, TokenKind::Keyword, "else") {
        parse_block_statement(tokens, pos + 1)
    } else if has_token(tokens, pos, TokenKind::Keyword, "end") {
        let nothing: Vec<Statement> = Vec::new();
        assert(nothing.model() =~= Seq::empty());
        Ok((nothing, pos + 1))
    } else {
        fail(tokens, pos, ParseErrorKind::MissingEnd)
    }
}

/// Tries the statement `for name in name do ... end` at `pos`.
pub fn parse_for(tokens: &Vec<Token>, pos: usize) -> (result: Result<
    Option<(Statement, usize)>,
    ParseError,
>)
    ensures
        tried_as(
            result,
            views(tokens@),
            pos,
            keyword_at(views(tokens@), pos as int, "for"@),
            for_statement(views(tokens@), pos as int),
        ),
        result matches Ok(Some((_, next))) ==> next > pos,
    decreases remaining(views(tokens@), pos as int), 3nat,
{
    reveal(for_statement);
    reveal(block);
    if !has_token(tokens, pos, TokenKind::Keyword, "for") {
        return Ok(None);
    }
    if !has_kind(tokens, pos + 1, TokenKind::Identifier) {
        return fail(tokens, pos + 1, ParseErrorKind::MissingLoopVariable);
    }
    if !has_token(tokens, pos + 2, TokenKind::Keyword, "in") {
        return fail(tokens, pos + 2, ParseErrorKind::MissingIn);
    }
    if !has_kind(tokens, pos + 3, TokenKind::Identifier) {
        return fail(tokens, pos + 3, ParseErrorKind::MissingCollection);
    }
    if !has_token(tokens, pos + 4, TokenKind::Keyword, "do") {
        return fail(tokens, pos + 4, ParseErrorKind::MissingDo);
    }
    let (body, next) = parse_block_statement(tokens, pos + 5)?;
    let var = lexeme(tokens, pos + 1);
    let collection = lexeme(tokens, pos + 3);
    Ok(Some((Statement::For { var, collection, body }, next)))
}

/// Tries the statement `while ... do ... end` at `pos`.
pub fn parse_while(tokens: &Vec<Token>, pos: usize) -> (result: Result<
    Option<(Statement, usize)>,
    ParseError,
>)
    ensures
        tried_as(
            result,
            views(tokens@),
            pos,
            keyword_at(views(tokens@), pos as int, "while"@),
            while_statement(views(tokens@), pos as int),
        ),
        result matches Ok(Some((_, next))) ==> next > pos,
    decreases remaining(views(tokens@), pos as int), 3nat,
{
    reveal(while_statement);
    reveal(block);
    if !has_token(tokens, pos, TokenKind::Keyword, "while") {
        return Ok(None);
    }
    let (condition, at_body) = parse_condition(tokens, pos + 1)?;
    let (body, next) = parse_block_statement(tokens, at_body)?;
    Ok(Some((Statement::While { condition, body }, next)))
}

/// Tries the statement `match ... do ... end` at `pos`.
pub fn parse_match(tokens: &Vec<Token>, pos: usize) -> (result: Result<
    Option<(Statement, usize)>,
    ParseError,
>)
    ensures
        tried_as(
            result,
            views(tokens@),
            pos,
            keyword_at(views(tokens@), pos as int, "match"@),
            match_statement(views(tokens@), pos as int),
        ),
        result matches Ok(Some((_, next))) ==> next > pos,
    decreases remaining(views(tokens@), pos as int), 3nat,
{
    reveal(match_statement);
    reveal(match_cases);
    reveal(default_case);
    if !has_token(tokens, pos, TokenKind::Keyword, "match") {
        return Ok(None);
    }
    let (target, at_cases) = parse_condition(tokens, pos + 1)?;
    let (cases, at_default) = parse_match_cases(tokens, at_cases)?;
    let (default, next) = parse_default_case(tokens, at_default)?;
    Ok(Some((Statement::Match { target, cases, default }, next)))
}

/// Reads the cases of a `match` from `pos`.
fn parse_match_cases(tokens: &Vec<Token>, pos: usize) -> (result: Result<
    (Vec<(Literal, Vec<Statement>)>, usize),
    ParseError,
>)
    ensures
        parsed_as(result, views(tokens@), pos, match_cases(views(tokens@), pos as int)),
    decreases remaining(views(tokens@), pos as int), 2nat,
{
    reveal(match_cases);
    let ghost all = views(tokens@);
    let mut cases: Vec<(Literal, Vec<Statement>)> = Vec::new();
    let mut next = pos;
    assert(cases.model() =~= Seq::empty());
    proof {
        match_cases(all, pos as int).lemma_prepend_nothing();
    }
    loop
        invariant
            all == views(tokens@),
            pos <= next,
            match_cases(all, pos as int) == match_cases(all, next as int).prepend(
                cases.model(),
                (next - pos) as nat,
            ),
        decreases remaining(all, next as int),
    {
        reveal(match_cases);
        reveal(statements);
        if !has_literal(tokens, next) {
            proof {
                Parsed::lemma_prepend_last(cases.model(), (next - pos) as nat, 0);
            }
            return Ok((cases, next));
        }
        let (label, at_arrow) = parse_literal(tokens, next)?;
        if !has_kind(tokens, at_arrow, TokenKind::RightArrow) {
            return fail(tokens, at_arrow, ParseErrorKind::MissingRightArrow);
        }
        let (body, after) = parse_statements(tokens, at_arrow + 1, Scope::Case)?;
        let case = (label, body);
        proof {
            lemma_cases_push(cases@, case);
            let item = (label.model(), body.model());
            assert(cases.model().push(item) =~= cases.model() + seq![item]);
            match_cases(all, after as int).lemma_prepend_twice(
                cases.model(),
                (next - pos) as nat,
                seq![item],
                (after - next) as nat,
            );
        }
        cases.push(case);
        next = after;
    }
}

/// Reads the end of a `match` from `pos`: `_ =>` with its statements, if there
/// is one, and `end`.
fn parse_default_case(tokens: &Vec<Token>, pos: usize) -> (result: Result<
    (Vec<Statement>, usize),
    ParseError,
>)
    ensures
        parsed_as(result, views(tokens@), pos, default_case(views(tokens@), pos as int)),
    decreases remaining(views(tokens@), pos as int), 7nat,
{
    reveal(default_case);
    reveal(block);
    if has_kind(tokens, pos, TokenKind::MatchDefaultOperator) {
        if !has_kind(tokens, pos + 1, TokenKind::RightArrow) {
            return fail(tokens, pos + 1, ParseErrorKind::MissingRightArrow);
        }
        parse_block_statement(tokens, pos + 2)
    } else if has_token(tokens, pos, TokenKind::Keyword, "end") {
        let nothing: Vec<Statement> = Vec::new();
        assert(nothing.model() =~= Seq::empty());
        Ok((nothing, pos + 1))
    } else {
        fail(tokens, pos, ParseErrorKind::MissingEnd)
    }
}

/// Reads the argument names of a function definition, from its `(` at `pos`
/// to its `)`.
pub fn parse_argument_name_list(tokens: &Vec<Token>, pos: usize) -> (result: Result<
    (Vec<String>, usize),
    ParseError,
>)
    ensures
        parsed_as(result, views(tokens@), pos, argument_names(views(tokens@), pos as int)),
{
    reveal(more_argument_names);
    let ghost all = views(tokens@);
    assert(all.len() == tokens.len());
    let mut names: Vec<String> = Vec::new();
    assert(names.model() =~= Seq::empty());
    if !has_token(tokens, pos, TokenKind::Delimiter, "(") {
        return fail(tokens, pos, ParseErrorKind::MissingOpenParen);
    }
    if pos + 1 >= tokens.len() {
        return fail(tokens, pos + 1, ParseErrorKind::MissingFirstArgument);
    }
    if !has_kind(tokens, pos + 1, TokenKind::Identifier) {
        if has_token(tokens, pos + 1, TokenKind::Delimiter, ")") {
            return Ok((names, pos + 2));
        }
        return fail(tokens, pos + 1, ParseErrorKind::MissingCloseParen);
    }
    let first = lexeme(tokens, pos + 1);
    proof {
        lemma_names_push(names@, first);
        assert(names.model().push(first@) =~= seq![first@]);
    }
    names.push(first);
    let mut next = pos + 2;
    loop
        invariant
            all == views(tokens@),
            all.len() == tokens.len(),
            pos + 2 <= next,
            argument_names(all, pos as int) == more_argument_names(all, next as int).prepend(
                names.model(),
                (next - pos) as nat,
            ),
        decreases remaining(all, next as int),
    {
        reveal(more_argument_names);
        if next >= tokens.len() {
            return fail(tokens, next, ParseErrorKind::MissingCloseParen);
        }
        if has_token(tokens, next, TokenKind::Delimiter, ")") {
            proof {
                Parsed::lemma_prepend_last(names.model(), (next - pos) as nat, 1);
            }
            return Ok((names, next + 1));
        }
        if !has_token(tokens, next, TokenKind::Delimiter, ",") {
            return fail(tokens, next, ParseErrorKind::MissingComma);
        }
        if !has_kind(tokens, next + 1, TokenKind::Identifier) {
            return fail(tokens, next + 1, ParseErrorKind::InvalidArgument);
        }
        let name = lexeme(tokens, next + 1);
        proof {
            lemma_names_push(names@, name);
            assert(names.model().push(name@) =~= names.model() + seq![name@]);
            more_argument_names(all, next + 2).lemma_prepend_twice(
                names.model(),
                (next - pos) as nat,
                seq![name@],
                2,
            );
        }
        names.push(name);
        next = next + 2;
    }
}

/// Tries the function definition at `pos`.
pub fn parse_function(tokens: &Vec<Token>, pos: usize) -> (result: Result<
    Option<(AST, usize)>,
    ParseError,
>)
    ensures
        tried_as(
            result,
            views(tokens@),
            pos,
            keyword_at(views(tokens@), pos as int, "function"@),
            function_declaration(views(tokens@), pos as int),
        ),
        result matches Ok(Some((_, next))) ==> next > pos,
{
    if !has_token(tokens, pos, TokenKind::Keyword, "function") {
        return Ok(None);
    }
    if !has_kind(tokens, pos + 1, TokenKind::Identifier) {
        return fail(tokens, pos + 1, ParseErrorKind::MissingFunctionName);
    }
    let name = lexeme(tokens, pos + 1);
    let (arguments, at_body) = parse_argument_name_list(tokens, pos + 2)?;
    let (body, next) = parse_block_statement(tokens, at_body)?;
    Ok(Some((AST::Function { name, arguments, body }, next)))
}

/// Reads the length and data size of a record, from its `[` at `pos` to its `;`.
pub fn parse_record_info(tokens: &Vec<Token>, pos: usize) -> (result: Result<
    ((usize, usize), usize),
    ParseError,
>)
    ensures
        parsed_as(result, views(tokens@), pos, record_info(views(tokens@), pos as int)),
{
    if !has_token(tokens, pos, TokenKind::Delimiter, "[") {
        return fail(tokens, pos, ParseErrorKind::MissingOpenBracket);
    }
    let (length, at_close) = parse_natural(
        tokens,
        pos + 1,
        ParseErrorKind::MissingRecordLength,
        ParseErrorKind::NegativeRecordLength,
    )?;
    let (data_size, at_bracket) = if has_token(tokens, at_close, TokenKind::Delimiter, ",") {
        parse_natural(
            tokens,
            at_close + 1,
            ParseErrorKind::MissingRecordDataSize,
            ParseErrorKind::NegativeRecordDataSize,
        )?
    } else {
        (1, at_close)
    };
    if !has_token(tokens, at_bracket, TokenKind::Delimiter, "]") {
        return fail(tokens, at_bracket, ParseErrorKind::MissingCloseBracket);
    }
    if !has_token(tokens, at_bracket + 1, TokenKind::Delimiter, ";") {
        return fail(tokens, at_bracket + 1, ParseErrorKind::MissingSemicolon);
    }
    Ok(((length, data_size), at_bracket + 2))
}

/// Tries the record declaration at `pos`.
pub fn parse_record(tokens: &Vec<Token>, pos: usize) -> (result: Result<
    Option<(AST, usize)>,
    ParseError,
>)
    ensures
        tried_as(
            result,
            views(tokens@),
            pos,
            keyword_at(views(tokens@), pos as int, "record"@),
            record_declaration(views(tokens@), pos as int),
        ),
        result matches Ok(Some((_, next))) ==> next > pos,
{
    if !has_token(tokens, pos, TokenKind::Keyword, "record") {
        return Ok(None);
    }
    if !has_kind(tokens, pos + 1, TokenKind::Identifier) {
        return fail(tokens, pos + 1, ParseErrorKind::MissingRecordName);
    }
    let name = lexeme(tokens, pos + 1);
    let ((length, data_size), next) = parse_record_info(tokens, pos + 2)?;
    Ok(Some((AST::Record { name, length, data_size }, next)))
}

/// Reads the interval of a task at `pos`.
pub fn parse_task_interval(tokens: &Vec<Token>, pos: usize) -> (result: Result<
    (usize, usize),
    ParseError,
>)
    ensures
        parsed_as(result, views(tokens@), pos, task_interval(views(tokens@), pos as int)),
{
    assert(views(tokens@).len() == tokens.len());
    if pos >= tokens.len() {
        fail(tokens, pos, ParseErrorKind::MissingTimeOperator)
    } else if has_kind(tokens, pos, TokenKind::TimeOperator) {
        parse_natural(
            tokens,
            pos + 1,
            ParseErrorKind::MissingInterval,
            ParseErrorKind::NegativeInterval,
        )
    } else {
        Ok((0, pos))
    }
}

/// Tries the task declaration at `pos`.
pub fn parse_task(tokens: &Vec<Token>, pos: usize) -> (result: Result<
    Option<(AST, usize)>,
    ParseError,
>)
    ensures
        tried_as(
            result,
            views(tokens@),
            pos,
            keyword_at(views(tokens@), pos as int, "task"@),
            task_declaration(views(tokens@), pos as int),
        ),
        result matches Ok(Some((_, next))) ==> next > pos,
{
    if !has_token(tokens, pos, TokenKind::Keyword, "task") {
        return Ok(None);
    }
    if !has_kind(tokens, pos + 1, TokenKind::Identifier) {
        return fail(tokens, pos + 1, ParseErrorKind::MissingTaskName);
    }
    let name = lexeme(tokens, pos + 1);
    let (interval_ms, at_body) = parse_task_interval(tokens, pos + 2)?;
    let (body, next) = parse_block_statement(tokens, at_body)?;
    Ok(Some((AST::Task { name, interval_ms, body }, next)))
}

/// Tries the handler declaration at `pos`.
pub fn parse_when(tokens: &Vec<Token>, pos: usize) -> (result: Result<
    Option<(AST, usize)>,
    ParseError,
>)
    ensures
        tried_as(
            result,
            views(tokens@),
            pos,
            keyword_at(views(tokens@), pos as int, "when"@),
            when_declaration(views(tokens@), pos as int),
        ),
        result matches Ok(Some((_, next))) ==> next > pos,
{
    if !has_token(tokens, pos, TokenKind::Keyword, "when") {
        return Ok(None);
    }
    if !has_kind(tokens, pos + 1, TokenKind::StringLiteral) {
        return fail(tokens, pos + 1, ParseErrorKind::MissingInterface);
    }
    let (interface, _) = parse_string_literal(tokens, pos + 1)?;
    if !has_kind(tokens, pos + 2, TokenKind::RightArrow) {
        return fail(tokens, pos + 2, ParseErrorKind::MissingRightArrow);
    }
    if !has_kind(tokens, pos + 3, TokenKind::Identifier) {
        return fail(tokens, pos + 3, ParseErrorKind::MissingPacket);
    }
    if !has_kind(tokens, pos + 4, TokenKind::GuardOperator) {
        return fail(tokens, pos + 4, ParseErrorKind::MissingGuardOperator);
    }
    let packet = lexeme(tokens, pos + 3);
    let (guard, at_body) = parse_guard(tokens, pos + 5)?;
    let (body, next) = parse_block_statement(tokens, at_body)?;
    Ok(Some((AST::When { interface, packet, guard, body }, next)))
}

/// What `parse` returns on tokens that the grammar reads as `expected`.
pub open spec fn parses_to(
    result: Result<Vec<AST>, ParseError>,
    tokens: Seq<TokenView>,
    expected: Parsed<Seq<AstView>>,
) -> bool {
    match expected {
        Parsed::Done { value, len } => result matches Ok(list) && list.model() == value,
        Parsed::Failed { kind, at } => result matches Err(e) && e@ == error_at(tokens, kind, at),
    }
}

/// Parses a whole token sequence: the declarations in source order, or the
/// first syntax error and nothing else.
pub fn parse(tokens: Vec<Token>) -> (result: Result<Vec<AST>, ParseError>)
    ensures
        parses_to(result, views(tokens@), program(views(tokens@))),
{
    reveal(declarations);
    let ghost all = views(tokens@);
    assert(all.len() == tokens.len());
    let mut list: Vec<AST> = Vec::new();
    let mut next: usize = 0;
    assert(list.model() =~= Seq::empty());
    proof {
        declarations(all, 0).lemma_prepend_nothing();
    }
    while next < tokens.len()
        invariant
            all == views(tokens@),
            all.len() == tokens.len(),
            declarations(all, 0) == declarations(all, next as int).prepend(
                list.model(),
                next as nat,
            ),
        decreases remaining(all, next as int),
    {
        reveal(declarations);
        let (one, after) = if let Some(done) = parse_function(&tokens, next)? {
            done
        } else if let Some(done) = parse_record(&tokens, next)? {
            done
        } else if let Some(done) = parse_task(&tokens, next)? {
            done
        } else if let Some(done) = parse_when(&tokens, next)? {
            done
        } else {
            return fail(&tokens, next, ParseErrorKind::InvalidDeclaration);
        };
        proof {
            lemma_declarations_push(list@, one);
            assert(list.model().push(one.model()) =~= list.model() + seq![one.model()]);
            declarations(all, after as int).lemma_prepend_twice(
                list.model(),
                next as nat,
                seq![one.model()],
                (after - next) as nat,
            );
        }
        list.push(one);
        next = after;
    }
    proof {
        Parsed::lemma_prepend_last(list.model(), next as nat, 0);
    }
    Ok(list)
}

} // verus!
