//! The grammar of NX, as functions from a token sequence and a position to the
//! tree that stands there.
//!
//! ```text
//! program     := declaration*
//! declaration := function | record | task | when
//! function    := 'function' IDENT '(' [ IDENT { ',' IDENT } ] ')' block
//! record      := 'record' IDENT '[' INT [ ',' INT ] ']' ';'
//! task        := 'task' IDENT [ '@' INT ] block
//! when        := 'when' STRING '=>' IDENT '::' guard block
//! guard       := INT | STRING
//! block       := statement* 'end'
//!
//! statement   := IDENT assign-op expression ';'
//!              | '@' INT ';'
//!              | 'store' IDENT { ',' IDENT } ';'
//!              | 'if' expression 'do' statement*
//!                    { 'elif' expression 'do' statement* } [ 'else' statement* ] 'end'
//!              | 'for' IDENT 'in' IDENT 'do' block
//!              | 'while' expression 'do' block
//!              | 'match' expression 'do' { literal '=>' statement* } [ '_' '=>' statement* ] 'end'
//!              | 'return' expression ';'
//!              | call ';'
//!
//! expression  := sum [ compare-op sum ]
//! sum         := product { ('+' | '-') product }
//! product     := operand { ('*' | '/' | '%') operand }
//! operand     := primary { '::' guard | '@' primary | '.' call }
//! primary     := literal | call | '(' expression ')'
//! call        := IDENT '(' [ expression { ',' expression } ] ')'
//! literal     := INT | STRING | BOOLEAN | NIL
//! ```
//!
//! `::`, `@` and `.` bind tightest and chain to the left; `* / %` bind tighter
//! than `+ -`, both chain to the left; a comparison binds loosest and does not
//! chain. A token is recognised by its class and lexeme alone, never by its
//! position.
//!
//! A string literal stands for the text between its quotes: the interface of
//! `when "uart0" => ...` is `uart0`. After the name of a task an `@` always
//! begins the interval, so a task without an interval cannot begin its body
//! with a delay.
//!
//! Each function gives the tree and the number of tokens it takes, or the
//! first error. The recursive functions are opaque: `reveal` the ones whose
//! bodies a proof needs.

use crate::ast::{
    binary_view, AssignOp, AstView, BinaryOp, ExpressionView, FunctionCallView, GuardView,
    LiteralView, StatementView,
};
use crate::text::{machine_integer, unquoted};
use crate::token::{TokenKind, TokenView};
use vstd::prelude::*;

verus! {

/// What a syntax error found to be missing or wrong.
#[derive(Debug, Clone, Copy, PartialEq, Eq, Structural)]
pub enum ParseErrorKind {
    /// No declaration begins with this token.
    InvalidDeclaration,
    /// `function` is not followed by an identifier.
    MissingFunctionName,
    /// `record` is not followed by an identifier.
    MissingRecordName,
    /// `task` is not followed by an identifier.
    MissingTaskName,
    /// `(` is missing.
    MissingOpenParen,
    /// The input ends after the `(` of a function's arguments.
    MissingFirstArgument,
    /// `)` is missing.
    MissingCloseParen,
    /// `,` is missing between two arguments.
    MissingComma,
    /// An argument of a function definition is no identifier.
    InvalidArgument,
    /// `[` is missing.
    MissingOpenBracket,
    /// The record's length is missing.
    MissingRecordLength,
    /// The record's length is negative.
    NegativeRecordLength,
    /// The record's data size is missing.
    MissingRecordDataSize,
    /// The record's data size is negative.
    NegativeRecordDataSize,
    /// `]` is missing.
    MissingCloseBracket,
    /// `;` is missing.
    MissingSemicolon,
    /// The input ends where a task's interval or body should begin.
    MissingTimeOperator,
    /// `@` is not followed by an integer literal.
    MissingInterval,
    /// The task's interval is negative.
    NegativeInterval,
    /// `when` is not followed by a string literal.
    MissingInterface,
    /// `=>` is missing.
    MissingRightArrow,
    /// The packet variable of a `when` is missing.
    MissingPacket,
    /// `::` is missing.
    MissingGuardOperator,
    /// The input ends where a guard should stand.
    MissingGuard,
    /// A guard is neither an integer literal nor a string literal.
    InvalidGuard,
    /// `end` is missing.
    MissingEnd,
    /// No statement begins with this token.
    InvalidStatement,
    /// An integer literal is malformed or too large.
    InvalidInteger,
    /// A boolean literal is neither `true` nor `false`.
    InvalidBoolean,
    /// A string literal is not enclosed in a pair of equal quotes.
    InvalidString,
    /// No expression begins with this token.
    InvalidExpression,
    /// A comparison operator that has no tree.
    UnknownOperator,
    /// `.` is not followed by the name of a function.
    MissingCallName,
    /// `do` is missing.
    MissingDo,
    /// `in` is missing.
    MissingIn,
    /// The variable of a `for` is missing.
    MissingLoopVariable,
    /// The collection of a `for` is missing.
    MissingCollection,
    /// The time of a delay is missing.
    MissingDelayTime,
    /// The time of a delay is negative.
    NegativeDelay,
    /// A variable of a `store` is missing.
    MissingStoreVariable,
}

/// What an error of each kind tells the reader.
pub open spec fn message_of(kind: ParseErrorKind) -> Seq<char> {
    match kind {
        ParseErrorKind::InvalidDeclaration =>
            "expected a declaration: function, record, task or when"@,
        ParseErrorKind::MissingFunctionName => "the 'function' keyword requires an identifier"@,
        ParseErrorKind::MissingRecordName => "the 'record' keyword requires an identifier"@,
        ParseErrorKind::MissingTaskName => "the 'task' keyword requires an identifier"@,
        ParseErrorKind::MissingOpenParen => "missing an opening parenthesis"@,
        ParseErrorKind::MissingFirstArgument =>
            "missing the first argument or a closing parenthesis"@,
        ParseErrorKind::MissingCloseParen => "missing a closing parenthesis"@,
        ParseErrorKind::MissingComma => "missing a comma between arguments"@,
        ParseErrorKind::InvalidArgument =>
            "an argument of a function definition must be an identifier"@,
        ParseErrorKind::MissingOpenBracket => "missing an opening bracket"@,
        ParseErrorKind::MissingRecordLength => "missing the record length"@,
        ParseErrorKind::NegativeRecordLength => "the record length cannot be negative"@,
        ParseErrorKind::MissingRecordDataSize => "missing the record data size"@,
        ParseErrorKind::NegativeRecordDataSize => "the record data size cannot be negative"@,
        ParseErrorKind::MissingCloseBracket => "missing a closing bracket"@,
        ParseErrorKind::MissingSemicolon => "missing ; at the end of the statement"@,
        ParseErrorKind::MissingTimeOperator =>
            "the input ends where a task's interval or body should begin"@,
        ParseErrorKind::MissingInterval => "missing the task interval after @"@,
        ParseErrorKind::NegativeInterval => "the task interval cannot be negative"@,
        ParseErrorKind::MissingInterface => "the 'when' keyword requires a string literal"@,
        ParseErrorKind::MissingRightArrow => "missing the right arrow (=>)"@,
        ParseErrorKind::MissingPacket => "missing the packet variable after the right arrow (=>)"@,
        ParseErrorKind::MissingGuardOperator => "missing :: after the packet variable"@,
        ParseErrorKind::MissingGuard => "missing the guard after ::"@,
        ParseErrorKind::InvalidGuard => "a guard must be an integer literal or a string literal"@,
        ParseErrorKind::MissingEnd => "missing the 'end' keyword"@,
        ParseErrorKind::InvalidStatement => "expected a statement"@,
        ParseErrorKind::InvalidInteger => "the integer literal is malformed or too large"@,
        ParseErrorKind::InvalidBoolean => "a boolean literal must be true or false"@,
        ParseErrorKind::InvalidString => "a string literal must stand in a pair of quotes"@,
        ParseErrorKind::InvalidExpression => "expected an expression"@,
        ParseErrorKind::UnknownOperator => "the comparison operator is not supported"@,
        ParseErrorKind::MissingCallName => "missing the name of a function after ."@,
        ParseErrorKind::MissingDo => "missing the 'do' keyword"@,
        ParseErrorKind::MissingIn => "missing the 'in' keyword"@,
        ParseErrorKind::MissingLoopVariable => "missing the loop variable"@,
        ParseErrorKind::MissingCollection => "missing the collection of the loop"@,
        ParseErrorKind::MissingDelayTime => "missing the time of the delay after @"@,
        ParseErrorKind::NegativeDelay => "the time of a delay cannot be negative"@,
        ParseErrorKind::MissingStoreVariable => "missing a variable to store"@,
    }
}

impl ParseErrorKind {
    /// What an error of this kind tells the reader.
    pub fn message(&self) -> (text: &'static str)
        ensures
            text@ == message_of(*self),
    {
        match self {
            ParseErrorKind::InvalidDeclaration =>
                "expected a declaration: function, record, task or when",
            ParseErrorKind::MissingFunctionName => "the 'function' keyword requires an identifier",
            ParseErrorKind::MissingRecordName => "the 'record' keyword requires an identifier",
            ParseErrorKind::MissingTaskName => "the 'task' keyword requires an identifier",
            ParseErrorKind::MissingOpenParen => "missing an opening parenthesis",
            ParseErrorKind::MissingFirstArgument =>
                "missing the first argument or a closing parenthesis",
            ParseErrorKind::MissingCloseParen => "missing a closing parenthesis",
            ParseErrorKind::MissingComma => "missing a comma between arguments",
            ParseErrorKind::InvalidArgument =>
                "an argument of a function definition must be an identifier",
            ParseErrorKind::MissingOpenBracket => "missing an opening bracket",
            ParseErrorKind::MissingRecordLength => "missing the record length",
            ParseErrorKind::NegativeRecordLength => "the record length cannot be negative",
            ParseErrorKind::MissingRecordDataSize => "missing the record data size",
            ParseErrorKind::NegativeRecordDataSize => "the record data size cannot be negative",
            ParseErrorKind::MissingCloseBracket => "missing a closing bracket",
            ParseErrorKind::MissingSemicolon => "missing ; at the end of the statement",
            ParseErrorKind::MissingTimeOperator =>
                "the input ends where a task's interval or body should begin",
            ParseErrorKind::MissingInterval => "missing the task interval after @",
            ParseErrorKind::NegativeInterval => "the task interval cannot be negative",
            ParseErrorKind::MissingInterface => "the 'when' keyword requires a string literal",
            ParseErrorKind::MissingRightArrow => "missing the right arrow (=>)",
            ParseErrorKind::MissingPacket =>
                "missing the packet variable after the right arrow (=>)",
            ParseErrorKind::MissingGuardOperator => "missing :: after the packet variable",
            ParseErrorKind::MissingGuard => "missing the guard after ::",
            ParseErrorKind::InvalidGuard =>
                "a guard must be an integer literal or a string literal",
            ParseErrorKind::MissingEnd => "missing the 'end' keyword",
            ParseErrorKind::InvalidStatement => "expected a statement",
            ParseErrorKind::InvalidInteger => "the integer literal is malformed or too large",
            ParseErrorKind::InvalidBoolean => "a boolean literal must be true or false",
            ParseErrorKind::InvalidString => "a string literal must stand in a pair of quotes",
            ParseErrorKind::InvalidExpression => "expected an expression",
            ParseErrorKind::UnknownOperator => "the comparison operator is not supported",
            ParseErrorKind::MissingCallName => "missing the name of a function after .",
            ParseErrorKind::MissingDo => "missing the 'do' keyword",
            ParseErrorKind::MissingIn => "missing the 'in' keyword",
            ParseErrorKind::MissingLoopVariable => "missing the loop variable",
            ParseErrorKind::MissingCollection => "missing the collection of the loop",
            ParseErrorKind::MissingDelayTime => "missing the time of the delay after @",
            ParseErrorKind::NegativeDelay => "the time of a delay cannot be negative",
            ParseErrorKind::MissingStoreVariable => "missing a variable to store",
        }
    }
}

/// The outcome of reading one construct at a position: its tree and the number
/// of tokens it takes, or the error and the index of the token it was found at
/// (the length of the input where the input ended too early).
pub enum Parsed<T> {
    Done { value: T, len: nat },
    Failed { kind: ParseErrorKind, at: int },
}

/// How many tokens are left at `pos`.
pub open spec fn remaining(tokens: Seq<TokenView>, pos: int) -> nat {
    if pos < tokens.len() {
        (tokens.len() - pos) as nat
    } else {
        0
    }
}

/// Whether a token of class `kind` stands at `pos`.
pub open spec fn kind_at(tokens: Seq<TokenView>, pos: int, kind: TokenKind) -> bool {
    0 <= pos < tokens.len() && tokens[pos].kind == kind
}

/// Whether the token of class `kind` that spells `text` stands at `pos`.
pub open spec fn token_at(
    tokens: Seq<TokenView>,
    pos: int,
    kind: TokenKind,
    text: Seq<char>,
) -> bool {
    0 <= pos < tokens.len() && tokens[pos].is(kind, text)
}

pub open spec fn keyword_at(tokens: Seq<TokenView>, pos: int, text: Seq<char>) -> bool {
    token_at(tokens, pos, TokenKind::Keyword, text)
}

pub open spec fn delimiter_at(tokens: Seq<TokenView>, pos: int, text: Seq<char>) -> bool {
    token_at(tokens, pos, TokenKind::Delimiter, text)
}

/// Whether a literal stands at `pos`.
pub open spec fn literal_at(tokens: Seq<TokenView>, pos: int) -> bool {
    ||| kind_at(tokens, pos, TokenKind::IntegerLiteral)
    ||| kind_at(tokens, pos, TokenKind::StringLiteral)
    ||| kind_at(tokens, pos, TokenKind::BooleanLiteral)
    ||| kind_at(tokens, pos, TokenKind::NilLiteral)
}

// ---------------------------------------------------------------------------
// Literals and guards
// ---------------------------------------------------------------------------
/// The integer literal at `pos`.
pub open spec fn integer(tokens: Seq<TokenView>, pos: int) -> Parsed<int>
    recommends
        kind_at(tokens, pos, TokenKind::IntegerLiteral),
{
    match machine_integer(tokens[pos].value) {
        Some(v) => Parsed::Done { value: v, len: 1 },
        None => Parsed::Failed { kind: ParseErrorKind::InvalidInteger, at: pos },
    }
}

/// The integer literal at `pos`, which must not be negative: `missing` where no
/// integer literal stands there, `negative` where its value is below zero.
pub open spec fn natural(
    tokens: Seq<TokenView>,
    pos: int,
    missing: ParseErrorKind,
    negative: ParseErrorKind,
) -> Parsed<nat> {
    if !kind_at(tokens, pos, TokenKind::IntegerLiteral) {
        Parsed::Failed { kind: missing, at: pos }
    } else {
        match integer(tokens, pos) {
            Parsed::Failed { kind, at } => Parsed::Failed { kind, at },
            Parsed::Done { value, len } => if value < 0 {
                Parsed::Failed { kind: negative, at: pos }
            } else {
                Parsed::Done { value: value as nat, len: 1 }
            },
        }
    }
}

/// The text of the string literal at `pos`, without its quotes.
pub open spec fn string(tokens: Seq<TokenView>, pos: int) -> Parsed<Seq<char>>
    recommends
        kind_at(tokens, pos, TokenKind::StringLiteral),
{
    match unquoted(tokens[pos].value) {
        Some(text) => Parsed::Done { value: text, len: 1 },
        None => Parsed::Failed { kind: ParseErrorKind::InvalidString, at: pos },
    }
}

/// The literal at `pos`.
pub open spec fn literal(tokens: Seq<TokenView>, pos: int) -> Parsed<LiteralView>
    recommends
        literal_at(tokens, pos),
{
    let text = tokens[pos].value;
    if kind_at(tokens, pos, TokenKind::IntegerLiteral) {
        match integer(tokens, pos) {
            Parsed::Done { value, len } => Parsed::Done {
                value: LiteralView::Integer(value),
                len: 1,
            },
            Parsed::Failed { kind, at } => Parsed::Failed { kind, at },
        }
    } else if kind_at(tokens, pos, TokenKind::StringLiteral) {
        match string(tokens, pos) {
            Parsed::Done { value, len } => Parsed::Done {
                value: LiteralView::String(value),
                len: 1,
            },
            Parsed::Failed { kind, at } => Parsed::Failed { kind, at },
        }
    } else if kind_at(tokens, pos, TokenKind::BooleanLiteral) {
        if text == "true"@ {
            Parsed::Done { value: LiteralView::Boolean(true), len: 1 }
        } else if text == "false"@ {
            Parsed::Done { value: LiteralView::Boolean(false), len: 1 }
        } else {
            Parsed::Failed { kind: ParseErrorKind::InvalidBoolean, at: pos }
        }
    } else {
        Parsed::Done { value: LiteralView::Nil, len: 1 }
    }
}

/// The guard at `pos`: an exact value, or a pattern, which is the text of a
/// string literal.
pub open spec fn guard(tokens: Seq<TokenView>, pos: int) -> Parsed<GuardView> {
    if pos >= tokens.len() {
        Parsed::Failed { kind: ParseErrorKind::MissingGuard, at: pos }
    } else if kind_at(tokens, pos, TokenKind::IntegerLiteral) {
        match integer(tokens, pos) {
            Parsed::Done { value, len } => Parsed::Done {
                value: GuardView::Numeric(value),
                len: 1,
            },
            Parsed::Failed { kind, at } => Parsed::Failed { kind, at },
        }
    } else if kind_at(tokens, pos, TokenKind::StringLiteral) {
        match string(tokens, pos) {
            Parsed::Done { value, len } => Parsed::Done {
                value: GuardView::Pattern(value),
                len: 1,
            },
            Parsed::Failed { kind, at } => Parsed::Failed { kind, at },
        }
    } else {
        Parsed::Failed { kind: ParseErrorKind::InvalidGuard, at: pos }
    }
}

// ---------------------------------------------------------------------------
// Expressions
// ---------------------------------------------------------------------------
/// The comparison that an operator's lexeme stands for.
pub open spec fn comparison_op(text: Seq<char>) -> Option<BinaryOp> {
    if text == "=="@ {
        Some(BinaryOp::Equal)
    } else if text == "!="@ {
        Some(BinaryOp::NotEqual)
    } else if text == "<"@ {
        Some(BinaryOp::Less)
    } else if text == ">"@ {
        Some(BinaryOp::Greater)
    } else if text == "<="@ {
        Some(BinaryOp::LessOrEqual)
    } else if text == ">="@ {
        Some(BinaryOp::GreaterOrEqual)
    } else {
        None
    }
}

/// The operator of a sum at `pos`, if one stands there.
pub open spec fn sum_op(tokens: Seq<TokenView>, pos: int) -> Option<BinaryOp> {
    if token_at(tokens, pos, TokenKind::ArithmeticOperator, "+"@) {
        Some(BinaryOp::Sum)
    } else if token_at(tokens, pos, TokenKind::ArithmeticOperator, "-"@) {
        Some(BinaryOp::Minus)
    } else {
        None
    }
}

/// The operator of a product at `pos`, if one stands there.
pub open spec fn product_op(tokens: Seq<TokenView>, pos: int) -> Option<BinaryOp> {
    if token_at(tokens, pos, TokenKind::ArithmeticOperator, "*"@) {
        Some(BinaryOp::Multiply)
    } else if token_at(tokens, pos, TokenKind::ArithmeticOperator, "/"@) {
        Some(BinaryOp::Division)
    } else if token_at(tokens, pos, TokenKind::ArithmeticOperator, "%"@) {
        Some(BinaryOp::Modulus)
    } else {
        None
    }
}

/// The expression at `pos`: a sum, or two sums joined by one comparison.
#[verifier::opaque]
pub open spec fn expression(tokens: Seq<TokenView>, pos: int) -> Parsed<ExpressionView>
    decreases remaining(tokens, pos), 7nat,
{
    match sum(tokens, pos) {
        Parsed::Failed { kind, at } => Parsed::Failed { kind, at },
        Parsed::Done { value: left, len } => {
            let op_pos = pos + len;
            if !kind_at(tokens, op_pos, TokenKind::CompareOperator) {
                Parsed::Done { value: left, len }
            } else {
                match comparison_op(tokens[op_pos].value) {
                    None => Parsed::Failed { kind: ParseErrorKind::UnknownOperator, at: op_pos },
                    Some(op) => match sum(tokens, op_pos + 1) {
                        Parsed::Failed { kind, at } => Parsed::Failed { kind, at },
                        Parsed::Done { value: right, len: right_len } => Parsed::Done {
                            value: binary_view(op, left, right),
                            len: len + 1 + right_len,
                        },
                    },
                }
            }
        },
    }
}

/// The sum at `pos`: products joined by `+` and `-`, grouped to the left.
#[verifier::opaque]
pub open spec fn sum(tokens: Seq<TokenView>, pos: int) -> Parsed<ExpressionView>
    decreases remaining(tokens, pos), 6nat,
{
    match product(tokens, pos) {
        Parsed::Failed { kind, at } => Parsed::Failed { kind, at },
        Parsed::Done { value, len } => sum_tail(tokens, pos + len, value).after(len),
    }
}

/// The rest of a sum whose operands so far make up `left`.
#[verifier::opaque]
pub open spec fn sum_tail(tokens: Seq<TokenView>, pos: int, left: ExpressionView) -> Parsed<
    ExpressionView,
>
    decreases remaining(tokens, pos), 5nat,
{
    match sum_op(tokens, pos) {
        None => Parsed::Done { value: left, len: 0 },
        Some(op) => match product(tokens, pos + 1) {
            Parsed::Failed { kind, at } => Parsed::Failed { kind, at },
            Parsed::Done { value: right, len } => sum_tail(
                tokens,
                pos + 1 + len,
                binary_view(op, left, right),
            ).after(1 + len),
        },
    }
}

/// The product at `pos`: operands joined by `*`, `/` and `%`, grouped to the left.
#[verifier::opaque]
pub open spec fn product(tokens: Seq<TokenView>, pos: int) -> Parsed<ExpressionView>
    decreases remaining(tokens, pos), 4nat,
{
    match operand(tokens, pos) {
        Parsed::Failed { kind, at } => Parsed::Failed { kind, at },
        Parsed::Done { value, len } => product_tail(tokens, pos + len, value).after(len),
    }
}

/// The rest of a product whose operands so far make up `left`.
#[verifier::opaque]
pub open spec fn product_tail(tokens: Seq<TokenView>, pos: int, left: ExpressionView) -> Parsed<
    ExpressionView,
>
    decreases remaining(tokens, pos), 3nat,
{
    match product_op(tokens, pos) {
        None => Parsed::Done { value: left, len: 0 },
        Some(op) => match operand(tokens, pos + 1) {
            Parsed::Failed { kind, at } => Parsed::Failed { kind, at },
            Parsed::Done { value: right, len } => product_tail(
                tokens,
                pos + 1 + len,
                binary_view(op, left, right),
            ).after(1 + len),
        },
    }
}

/// The operand at `pos`: a primary with its guards, times and pipes.
#[verifier::opaque]
pub open spec fn operand(tokens: Seq<TokenView>, pos: int) -> Parsed<ExpressionView>
    decreases remaining(tokens, pos), 2nat,
{
    match primary(tokens, pos) {
        Parsed::Failed { kind, at } => Parsed::Failed { kind, at },
        Parsed::Done { value, len } => operand_tail(tokens, pos + len, value).after(len),
    }
}

/// The rest of an operand of which `left` has been read.
#[verifier::opaque]
pub open spec fn operand_tail(tokens: Seq<TokenView>, pos: int, left: ExpressionView) -> Parsed<
    ExpressionView,
>
    decreases remaining(tokens, pos), 1nat,
{
    if kind_at(tokens, pos, TokenKind::GuardOperator) {
        match guard(tokens, pos + 1) {
            Parsed::Failed { kind, at } => Parsed::Failed { kind, at },
            Parsed::Done { value, len } => operand_tail(
                tokens,
                pos + 2,
                ExpressionView::Guard(Box::new(left), value),
            ).after(2),
        }
    } else if kind_at(tokens, pos, TokenKind::TimeOperator) {
        match primary(tokens, pos + 1) {
            Parsed::Failed { kind, at } => Parsed::Failed { kind, at },
            Parsed::Done { value: right, len } => operand_tail(
                tokens,
                pos + 1 + len,
                ExpressionView::Time(Box::new(left), Box::new(right)),
            ).after(1 + len),
        }
    } else if kind_at(tokens, pos, TokenKind::PipeOperator) {
        if !kind_at(tokens, pos + 1, TokenKind::Identifier) {
            Parsed::Failed { kind: ParseErrorKind::MissingCallName, at: pos + 1 }
        } else {
            match call(tokens, pos + 1) {
                Parsed::Failed { kind, at } => Parsed::Failed { kind, at },
                Parsed::Done { value: target, len } => operand_tail(
                    tokens,
                    pos + 1 + len,
                    ExpressionView::Pipe(Box::new(left), target),
                ).after(1 + len),
            }
        }
    } else {
        Parsed::Done { value: left, len: 0 }
    }
}

/// The primary at `pos`: a literal, a call, or an expression in parentheses.
#[verifier::opaque]
pub open spec fn primary(tokens: Seq<TokenView>, pos: int) -> Parsed<ExpressionView>
    decreases remaining(tokens, pos), 1nat,
{
    if literal_at(tokens, pos) {
        match literal(tokens, pos) {
            Parsed::Failed { kind, at } => Parsed::Failed { kind, at },
            Parsed::Done { value, len } => Parsed::Done {
                value: ExpressionView::Literal(value),
                len: 1,
            },
        }
    } else if kind_at(tokens, pos, TokenKind::Identifier) {
        match call(tokens, pos) {
            Parsed::Failed { kind, at } => Parsed::Failed { kind, at },
            Parsed::Done { value, len } => Parsed::Done { value: ExpressionView::Call(value), len },
        }
    } else if delimiter_at(tokens, pos, "("@) {
        match expression(tokens, pos + 1) {
            Parsed::Failed { kind, at } => Parsed::Failed { kind, at },
            Parsed::Done { value, len } => if delimiter_at(tokens, pos + 1 + len, ")"@) {
                Parsed::Done { value, len: len + 2 }
            } else {
                Parsed::Failed { kind: ParseErrorKind::MissingCloseParen, at: pos + 1 + len }
            },
        }
    } else {
        Parsed::Failed { kind: ParseErrorKind::InvalidExpression, at: pos }
    }
}

/// The call whose name stands at `pos`.
#[verifier::opaque]
pub open spec fn call(tokens: Seq<TokenView>, pos: int) -> Parsed<FunctionCallView>
    recommends
        kind_at(tokens, pos, TokenKind::Identifier),
    decreases remaining(tokens, pos), 0nat,
{
    if !delimiter_at(tokens, pos + 1, "("@) {
        Parsed::Failed { kind: ParseErrorKind::MissingOpenParen, at: pos + 1 }
    } else {
        match call_arguments(tokens, pos + 2) {
            Parsed::Failed { kind, at } => Parsed::Failed { kind, at },
            Parsed::Done { value, len } => Parsed::Done {
                value: FunctionCallView { name: tokens[pos].value, arguments: value },
                len: len + 2,
            },
        }
    }
}

/// The arguments of a call and its `)`, from behind its `(`.
#[verifier::opaque]
pub open spec fn call_arguments(tokens: Seq<TokenView>, pos: int) -> Parsed<Seq<ExpressionView>>
    decreases remaining(tokens, pos), 9nat,
{
    if delimiter_at(tokens, pos, ")"@) {
        Parsed::Done { value: Seq::empty(), len: 1 }
    } else {
        argument_list(tokens, pos)
    }
}

/// One or more arguments, separated by `,` and closed by `)`.
#[verifier::opaque]
pub open spec fn argument_list(tokens: Seq<TokenView>, pos: int) -> Parsed<Seq<ExpressionView>>
    decreases remaining(tokens, pos), 8nat,
{
    match expression(tokens, pos) {
        Parsed::Failed { kind, at } => Parsed::Failed { kind, at },
        Parsed::Done { value, len } => {
            let next = pos + len;
            if next >= tokens.len() {
                Parsed::Failed { kind: ParseErrorKind::MissingCloseParen, at: next }
            } else if delimiter_at(tokens, next, ")"@) {
                Parsed::Done { value: seq![value], len: len + 1 }
            } else if delimiter_at(tokens, next, ","@) {
                argument_list(tokens, next + 1).prepend(seq![value], len + 1)
            } else {
                Parsed::Failed { kind: ParseErrorKind::MissingComma, at: next }
            }
        },
    }
}

// ---------------------------------------------------------------------------
// Statements
// ---------------------------------------------------------------------------
/// Where a list of statements stands, which decides what ends it.
#[derive(Debug, Clone, Copy, PartialEq, Eq, Structural)]
pub enum Scope {
    /// A body that runs to its `end`.
    Block,
    /// A branch of an `if`, which `elif`, `else` or `end` ends.
    Branch,
    /// A case of a `match`, which the next case, `_` or `end` ends.
    Case,
}

/// Whether the list of statements of the given scope ends at `pos`: at the end
/// of the input, or before a token that closes the scope.
pub open spec fn closes(tokens: Seq<TokenView>, pos: int, scope: Scope) -> bool {
    ||| pos >= tokens.len()
    ||| keyword_at(tokens, pos, "end"@)
    ||| scope == Scope::Branch && (keyword_at(tokens, pos, "elif"@) || keyword_at(
        tokens,
        pos,
        "else"@,
    ))
    ||| scope == Scope::Case && (literal_at(tokens, pos) || kind_at(
        tokens,
        pos,
        TokenKind::MatchDefaultOperator,
    ))
}

/// The assignment that an operator's lexeme stands for.
pub open spec fn assign_op(text: Seq<char>) -> Option<AssignOp> {
    if text == "="@ {
        Some(AssignOp::Plain)
    } else if text == "+="@ {
        Some(AssignOp::Sum)
    } else if text == "-="@ {
        Some(AssignOp::Minus)
    } else if text == "*="@ {
        Some(AssignOp::Mult)
    } else if text == "/="@ {
        Some(AssignOp::Div)
    } else if text == "%="@ {
        Some(AssignOp::Mod)
    } else {
        None
    }
}

/// Whether the assignment with operator `op` begins at `pos`: an identifier,
/// then that operator.
pub open spec fn assignment_at(tokens: Seq<TokenView>, pos: int, op: AssignOp) -> bool {
    &&& kind_at(tokens, pos, TokenKind::Identifier)
    &&& kind_at(tokens, pos + 1, TokenKind::AssignOperator)
    &&& assign_op(tokens[pos + 1].value) == Some(op)
}

/// Whether any assignment begins at `pos`.
pub open spec fn any_assignment_at(tokens: Seq<TokenView>, pos: int) -> bool {
    &&& kind_at(tokens, pos, TokenKind::Identifier)
    &&& kind_at(tokens, pos + 1, TokenKind::AssignOperator)
    &&& assign_op(tokens[pos + 1].value) is Some
}

/// The expression at `pos` and the `;` behind it.
pub open spec fn terminated_expression(tokens: Seq<TokenView>, pos: int) -> Parsed<ExpressionView> {
    match expression(tokens, pos) {
        Parsed::Failed { kind, at } => Parsed::Failed { kind, at },
        Parsed::Done { value, len } => if delimiter_at(tokens, pos + len, ";"@) {
            Parsed::Done { value, len: len + 1 }
        } else {
            Parsed::Failed { kind: ParseErrorKind::MissingSemicolon, at: pos + len }
        },
    }
}

/// The assignment that begins at `pos`.
pub open spec fn assignment(tokens: Seq<TokenView>, pos: int) -> Parsed<StatementView>
    recommends
        any_assignment_at(tokens, pos),
{
    match terminated_expression(tokens, pos + 2) {
        Parsed::Failed { kind, at } => Parsed::Failed { kind, at },
        Parsed::Done { value, len } => Parsed::Done {
            value: StatementView::Assign {
                op: assign_op(tokens[pos + 1].value)->0,
                variable: tokens[pos].value,
                expression: value,
            },
            len: len + 2,
        },
    }
}

/// The delay whose `@` stands at `pos`.
pub open spec fn delay(tokens: Seq<TokenView>, pos: int) -> Parsed<StatementView>
    recommends
        kind_at(tokens, pos, TokenKind::TimeOperator),
{
    match natural(
        tokens,
        pos + 1,
        ParseErrorKind::MissingDelayTime,
        ParseErrorKind::NegativeDelay,
    ) {
        Parsed::Failed { kind, at } => Parsed::Failed { kind, at },
        Parsed::Done { value, len } => if delimiter_at(tokens, pos + 2, ";"@) {
            Parsed::Done { value: StatementView::Delay { time: value }, len: 3 }
        } else {
            Parsed::Failed { kind: ParseErrorKind::MissingSemicolon, at: pos + 2 }
        },
    }
}

/// One or more names separated by `,`, from `pos`.
#[verifier::opaque]
pub open spec fn name_list(tokens: Seq<TokenView>, pos: int) -> Parsed<Seq<Seq<char>>>
    decreases remaining(tokens, pos),
{
    if !kind_at(tokens, pos, TokenKind::Identifier) {
        Parsed::Failed { kind: ParseErrorKind::MissingStoreVariable, at: pos }
    } else if delimiter_at(tokens, pos + 1, ","@) {
        name_list(tokens, pos + 2).prepend(seq![tokens[pos].value], 2)
    } else {
        Parsed::Done { value: seq![tokens[pos].value], len: 1 }
    }
}

/// The `store` whose keyword stands at `pos`.
pub open spec fn store(tokens: Seq<TokenView>, pos: int) -> Parsed<StatementView>
    recommends
        keyword_at(tokens, pos, "store"@),
{
    match name_list(tokens, pos + 1) {
        Parsed::Failed { kind, at } => Parsed::Failed { kind, at },
        Parsed::Done { value, len } => if delimiter_at(tokens, pos + 1 + len, ";"@) {
            Parsed::Done { value: StatementView::Store { var_list: value }, len: len + 2 }
        } else {
            Parsed::Failed { kind: ParseErrorKind::MissingSemicolon, at: pos + 1 + len }
        },
    }
}

/// The `return` whose keyword stands at `pos`.
pub open spec fn return_statement(tokens: Seq<TokenView>, pos: int) -> Parsed<StatementView>
    recommends
        keyword_at(tokens, pos, "return"@),
{
    match terminated_expression(tokens, pos + 1) {
        Parsed::Failed { kind, at } => Parsed::Failed { kind, at },
        Parsed::Done { value, len } => Parsed::Done {
            value: StatementView::Return { expression: value },
            len: len + 1,
        },
    }
}

/// The call statement whose name stands at `pos`.
pub open spec fn call_statement(tokens: Seq<TokenView>, pos: int) -> Parsed<StatementView>
    recommends
        kind_at(tokens, pos, TokenKind::Identifier),
{
    match call(tokens, pos) {
        Parsed::Failed { kind, at } => Parsed::Failed { kind, at },
        Parsed::Done { value, len } => if delimiter_at(tokens, pos + len, ";"@) {
            Parsed::Done { value: StatementView::Call(value), len: len + 1 }
        } else {
            Parsed::Failed { kind: ParseErrorKind::MissingSemicolon, at: pos + len }
        },
    }
}

/// The expression at `pos` and the `do` behind it.
pub open spec fn condition(tokens: Seq<TokenView>, pos: int) -> Parsed<ExpressionView> {
    match expression(tokens, pos) {
        Parsed::Failed { kind, at } => Parsed::Failed { kind, at },
        Parsed::Done { value, len } => if keyword_at(tokens, pos + len, "do"@) {
            Parsed::Done { value, len: len + 1 }
        } else {
            Parsed::Failed { kind: ParseErrorKind::MissingDo, at: pos + len }
        },
    }
}

/// The statements from `pos` up to the token that closes the scope.
#[verifier::opaque]
pub open spec fn statements(tokens: Seq<TokenView>, pos: int, scope: Scope) -> Parsed<
    Seq<StatementView>,
>
    decreases remaining(tokens, pos), 5nat,
{
    if closes(tokens, pos, scope) {
        Parsed::Done { value: Seq::empty(), len: 0 }
    } else {
        match statement(tokens, pos) {
            Parsed::Failed { kind, at } => Parsed::Failed { kind, at },
            Parsed::Done { value, len } => if len == 0 {
                // A statement takes at least one token.
                Parsed::Failed { kind: ParseErrorKind::InvalidStatement, at: pos }
            } else {
                statements(tokens, pos + len, scope).prepend(seq![value], len)
            },
        }
    }
}

/// The statements from `pos` and the `end` that closes them.
#[verifier::opaque]
pub open spec fn block(tokens: Seq<TokenView>, pos: int) -> Parsed<Seq<StatementView>>
    decreases remaining(tokens, pos), 6nat,
{
    match statements(tokens, pos, Scope::Block) {
        Parsed::Failed { kind, at } => Parsed::Failed { kind, at },
        Parsed::Done { value, len } => if keyword_at(tokens, pos + len, "end"@) {
            Parsed::Done { value, len: len + 1 }
        } else {
            Parsed::Failed { kind: ParseErrorKind::MissingEnd, at: pos + len }
        },
    }
}

/// The statement at `pos`. The forms are tried in a fixed order, each told by
/// its first tokens: the six assignments, delay, `store`, `if`, `for`, `while`,
/// `match`, `return`, and the call.
#[verifier::opaque]
pub open spec fn statement(tokens: Seq<TokenView>, pos: int) -> Parsed<StatementView>
    decreases remaining(tokens, pos), 4nat,
{
    if any_assignment_at(tokens, pos) {
        assignment(tokens, pos)
    } else if kind_at(tokens, pos, TokenKind::TimeOperator) {
        delay(tokens, pos)
    } else if keyword_at(tokens, pos, "store"@) {
        store(tokens, pos)
    } else if keyword_at(tokens, pos, "if"@) {
        if_statement(tokens, pos)
    } else if keyword_at(tokens, pos, "for"@) {
        for_statement(tokens, pos)
    } else if keyword_at(tokens, pos, "while"@) {
        while_statement(tokens, pos)
    } else if keyword_at(tokens, pos, "match"@) {
        match_statement(tokens, pos)
    } else if keyword_at(tokens, pos, "return"@) {
        return_statement(tokens, pos)
    } else if kind_at(tokens, pos, TokenKind::Identifier) {
        call_statement(tokens, pos)
    } else {
        Parsed::Failed { kind: ParseErrorKind::InvalidStatement, at: pos }
    }
}

/// The `if` whose keyword stands at `pos`.
#[verifier::opaque]
pub open spec fn if_statement(tokens: Seq<TokenView>, pos: int) -> Parsed<StatementView>
    decreases remaining(tokens, pos), 3nat,
{
    if !keyword_at(tokens, pos, "if"@) {
        Parsed::Failed { kind: ParseErrorKind::InvalidStatement, at: pos }
    } else {
        match condition(tokens, pos + 1) {
            Parsed::Failed { kind, at } => Parsed::Failed { kind, at },
            Parsed::Done { value: test, len: a } => match statements(
                tokens,
                pos + 1 + a,
                Scope::Branch,
            ) {
                Parsed::Failed { kind, at } => Parsed::Failed { kind, at },
                Parsed::Done { value: body, len: b } => match elif_branches(
                    tokens,
                    pos + 1 + a + b,
                ) {
                    Parsed::Failed { kind, at } => Parsed::Failed { kind, at },
                    Parsed::Done { value: elif, len: c } => match else_branch(
                        tokens,
                        pos + 1 + a + b + c,
                    ) {
                        Parsed::Failed { kind, at } => Parsed::Failed { kind, at },
                        Parsed::Done { value: else_body, len: d } => Parsed::Done {
                            value: StatementView::If { condition: test, body, elif, else_body },
                            len: 1 + a + b + c + d,
                        },
                    },
                },
            },
        }
    }
}

/// The `elif` branches from `pos`, none where no `elif` stands there.
#[verifier::opaque]
pub open spec fn elif_branches(tokens: Seq<TokenView>, pos: int) -> Parsed<
    Seq<(ExpressionView, Seq<StatementView>)>,
>
    decreases remaining(tokens, pos), 2nat,
{
    if !keyword_at(tokens, pos, "elif"@) {
        Parsed::Done { value: Seq::empty(), len: 0 }
    } else {
        match condition(tokens, pos + 1) {
            Parsed::Failed { kind, at } => Parsed::Failed { kind, at },
            Parsed::Done { value: test, len: a } => match statements(
                tokens,
                pos + 1 + a,
                Scope::Branch,
            ) {
                Parsed::Failed { kind, at } => Parsed::Failed { kind, at },
                Parsed::Done { value: body, len: b } => elif_branches(
                    tokens,
                    pos + 1 + a + b,
                ).prepend(seq![(test, body)], 1 + a + b),
            },
        }
    }
}

/// The end of an `if` from `pos`: `else` with its statements, if there is one,
/// and `end`.
#[verifier::opaque]
pub open spec fn else_branch(tokens: Seq<TokenView>, pos: int) -> Parsed<Seq<StatementView>>
    decreases remaining(tokens, pos), 7nat,
{
    if keyword_at(tokens, pos, "else"@) {
        block(tokens, pos + 1).after(1)
    } else if keyword_at(tokens, pos, "end"@) {
        Parsed::Done { value: Seq::empty(), len: 1 }
    } else {
        Parsed::Failed { kind: ParseErrorKind::MissingEnd, at: pos }
    }
}

/// The `for` whose keyword stands at `pos`.
#[verifier::opaque]
pub open spec fn for_statement(tokens: Seq<TokenView>, pos: int) -> Parsed<StatementView>
    decreases remaining(tokens, pos), 3nat,
{
    if !keyword_at(tokens, pos, "for"@) {
        Parsed::Failed { kind: ParseErrorKind::InvalidStatement, at: pos }
    } else if !kind_at(tokens, pos + 1, TokenKind::Identifier) {
        Parsed::Failed { kind: ParseErrorKind::MissingLoopVariable, at: pos + 1 }
    } else if !keyword_at(tokens, pos + 2, "in"@) {
        Parsed::Failed { kind: ParseErrorKind::MissingIn, at: pos + 2 }
    } else if !kind_at(tokens, pos + 3, TokenKind::Identifier) {
        Parsed::Failed { kind: ParseErrorKind::MissingCollection, at: pos + 3 }
    } else if !keyword_at(tokens, pos + 4, "do"@) {
        Parsed::Failed { kind: ParseErrorKind::MissingDo, at: pos + 4 }
    } else {
        match block(tokens, pos + 5) {
            Parsed::Failed { kind, at } => Parsed::Failed { kind, at },
            Parsed::Done { value, len } => Parsed::Done {
                value: StatementView::For {
                    var: tokens[pos + 1].value,
                    collection: tokens[pos + 3].value,
                    body: value,
                },
                len: len + 5,
            },
        }
    }
}

/// The `while` whose keyword stands at `pos`.
#[verifier::opaque]
pub open spec fn while_statement(tokens: Seq<TokenView>, pos: int) -> Parsed<StatementView>
    decreases remaining(tokens, pos), 3nat,
{
    if !keyword_at(tokens, pos, "while"@) {
        Parsed::Failed { kind: ParseErrorKind::InvalidStatement, at: pos }
    } else {
        match condition(tokens, pos + 1) {
            Parsed::Failed { kind, at } => Parsed::Failed { kind, at },
            Parsed::Done { value: test, len: a } => match block(tokens, pos + 1 + a) {
                Parsed::Failed { kind, at } => Parsed::Failed { kind, at },
                Parsed::Done { value: body, len: b } => Parsed::Done {
                    value: StatementView::While { condition: test, body },
                    len: 1 + a + b,
                },
            },
        }
    }
}

/// The `match` whose keyword stands at `pos`.
#[verifier::opaque]
pub open spec fn match_statement(tokens: Seq<TokenView>, pos: int) -> Parsed<StatementView>
    decreases remaining(tokens, pos), 3nat,
{
    if !keyword_at(tokens, pos, "match"@) {
        Parsed::Failed { kind: ParseErrorKind::InvalidStatement, at: pos }
    } else {
        match condition(tokens, pos + 1) {
            Parsed::Failed { kind, at } => Parsed::Failed { kind, at },
            Parsed::Done { value: target, len: a } => match match_cases(tokens, pos + 1 + a) {
                Parsed::Failed { kind, at } => Parsed::Failed { kind, at },
                Parsed::Done { value: cases, len: b } => match default_case(
                    tokens,
                    pos + 1 + a + b,
                ) {
                    Parsed::Failed { kind, at } => Parsed::Failed { kind, at },
                    Parsed::Done { value: default, len: c } => Parsed::Done {
                        value: StatementView::Match { target, cases, default },
                        len: 1 + a + b + c,
                    },
                },
            },
        }
    }
}

/// The cases of a `match` from `pos`, none where no literal stands there.
#[verifier::opaque]
pub open spec fn match_cases(tokens: Seq<TokenView>, pos: int) -> Parsed<
    Seq<(LiteralView, Seq<StatementView>)>,
>
    decreases remaining(tokens, pos), 2nat,
{
    if !literal_at(tokens, pos) {
        Parsed::Done { value: Seq::empty(), len: 0 }
    } else {
        match literal(tokens, pos) {
            Parsed::Failed { kind, at } => Parsed::Failed { kind, at },
            Parsed::Done { value: label, len } => if !kind_at(
                tokens,
                pos + 1,
                TokenKind::RightArrow,
            ) {
                Parsed::Failed { kind: ParseErrorKind::MissingRightArrow, at: pos + 1 }
            } else {
                match statements(tokens, pos + 2, Scope::Case) {
                    Parsed::Failed { kind, at } => Parsed::Failed { kind, at },
                    Parsed::Done { value: body, len: b } => match_cases(
                        tokens,
                        pos + 2 + b,
                    ).prepend(seq![(label, body)], 2 + b),
                }
            },
        }
    }
}

/// The end of a `match` from `pos`: `_ =>` with its statements, if there is
/// one, and `end`.
#[verifier::opaque]
pub open spec fn default_case(tokens: Seq<TokenView>, pos: int) -> Parsed<Seq<StatementView>>
    decreases remaining(tokens, pos), 7nat,
{
    if kind_at(tokens, pos, TokenKind::MatchDefaultOperator) {
        if !kind_at(tokens, pos + 1, TokenKind::RightArrow) {
            Parsed::Failed { kind: ParseErrorKind::MissingRightArrow, at: pos + 1 }
        } else {
            block(tokens, pos + 2).after(2)
        }
    } else if keyword_at(tokens, pos, "end"@) {
        Parsed::Done { value: Seq::empty(), len: 1 }
    } else {
        Parsed::Failed { kind: ParseErrorKind::MissingEnd, at: pos }
    }
}

// ---------------------------------------------------------------------------
// Declarations
// ---------------------------------------------------------------------------
/// The argument names of a function definition, from its `(` at `pos` to its `)`.
pub open spec fn argument_names(tokens: Seq<TokenView>, pos: int) -> Parsed<Seq<Seq<char>>> {
    if !delimiter_at(tokens, pos, "("@) {
        Parsed::Failed { kind: ParseErrorKind::MissingOpenParen, at: pos }
    } else if pos + 1 >= tokens.len() {
        Parsed::Failed { kind: ParseErrorKind::MissingFirstArgument, at: pos + 1 }
    } else if kind_at(tokens, pos + 1, TokenKind::Identifier) {
        more_argument_names(tokens, pos + 2).prepend(seq![tokens[pos + 1].value], 2)
    } else if delimiter_at(tokens, pos + 1, ")"@) {
        Parsed::Done { value: Seq::empty(), len: 2 }
    } else {
        Parsed::Failed { kind: ParseErrorKind::MissingCloseParen, at: pos + 1 }
    }
}

/// What follows an argument name at `pos`: `)`, or `,` and one more name.
#[verifier::opaque]
pub open spec fn more_argument_names(tokens: Seq<TokenView>, pos: int) -> Parsed<Seq<Seq<char>>>
    decreases remaining(tokens, pos),
{
    if pos >= tokens.len() {
        Parsed::Failed { kind: ParseErrorKind::MissingCloseParen, at: pos }
    } else if delimiter_at(tokens, pos, ")"@) {
        Parsed::Done { value: Seq::empty(), len: 1 }
    } else if !delimiter_at(tokens, pos, ","@) {
        Parsed::Failed { kind: ParseErrorKind::MissingComma, at: pos }
    } else if !kind_at(tokens, pos + 1, TokenKind::Identifier) {
        Parsed::Failed { kind: ParseErrorKind::InvalidArgument, at: pos + 1 }
    } else {
        more_argument_names(tokens, pos + 2).prepend(seq![tokens[pos + 1].value], 2)
    }
}

/// The function whose keyword stands at `pos`.
pub open spec fn function_declaration(tokens: Seq<TokenView>, pos: int) -> Parsed<AstView>
    recommends
        keyword_at(tokens, pos, "function"@),
{
    if !kind_at(tokens, pos + 1, TokenKind::Identifier) {
        Parsed::Failed { kind: ParseErrorKind::MissingFunctionName, at: pos + 1 }
    } else {
        match argument_names(tokens, pos + 2) {
            Parsed::Failed { kind, at } => Parsed::Failed { kind, at },
            Parsed::Done { value: arguments, len: a } => match block(tokens, pos + 2 + a) {
                Parsed::Failed { kind, at } => Parsed::Failed { kind, at },
                Parsed::Done { value: body, len: b } => Parsed::Done {
                    value: AstView::Function { name: tokens[pos + 1].value, arguments, body },
                    len: 2 + a + b,
                },
            },
        }
    }
}

/// The length and data size of a record, from its `[` at `pos` to its `;`.
/// The data size is 1 where none is given.
pub open spec fn record_info(tokens: Seq<TokenView>, pos: int) -> Parsed<(nat, nat)> {
    if !delimiter_at(tokens, pos, "["@) {
        Parsed::Failed { kind: ParseErrorKind::MissingOpenBracket, at: pos }
    } else {
        match natural(
            tokens,
            pos + 1,
            ParseErrorKind::MissingRecordLength,
            ParseErrorKind::NegativeRecordLength,
        ) {
            Parsed::Failed { kind, at } => Parsed::Failed { kind, at },
            Parsed::Done { value: length, len } => if delimiter_at(tokens, pos + 2, ","@) {
                match natural(
                    tokens,
                    pos + 3,
                    ParseErrorKind::MissingRecordDataSize,
                    ParseErrorKind::NegativeRecordDataSize,
                ) {
                    Parsed::Failed { kind, at } => Parsed::Failed { kind, at },
                    Parsed::Done { value: data_size, len } => if !delimiter_at(
                        tokens,
                        pos + 4,
                        "]"@,
                    ) {
                        Parsed::Failed { kind: ParseErrorKind::MissingCloseBracket, at: pos + 4 }
                    } else if !delimiter_at(tokens, pos + 5, ";"@) {
                        Parsed::Failed { kind: ParseErrorKind::MissingSemicolon, at: pos + 5 }
                    } else {
                        Parsed::Done { value: (length, data_size), len: 6 }
                    },
                }
            } else if !delimiter_at(tokens, pos + 2, "]"@) {
                Parsed::Failed { kind: ParseErrorKind::MissingCloseBracket, at: pos + 2 }
            } else if !delimiter_at(tokens, pos + 3, ";"@) {
                Parsed::Failed { kind: ParseErrorKind::MissingSemicolon, at: pos + 3 }
            } else {
                Parsed::Done { value: (length, 1), len: 4 }
            },
        }
    }
}

/// The record whose keyword stands at `pos`.
pub open spec fn record_declaration(tokens: Seq<TokenView>, pos: int) -> Parsed<AstView>
    recommends
        keyword_at(tokens, pos, "record"@),
{
    if !kind_at(tokens, pos + 1, TokenKind::Identifier) {
        Parsed::Failed { kind: ParseErrorKind::MissingRecordName, at: pos + 1 }
    } else {
        match record_info(tokens, pos + 2) {
            Parsed::Failed { kind, at } => Parsed::Failed { kind, at },
            Parsed::Done { value, len } => Parsed::Done {
                value: AstView::Record {
                    name: tokens[pos + 1].value,
                    length: value.0,
                    data_size: value.1,
                },
                len: len + 2,
            },
        }
    }
}

/// The interval of a task at `pos`: `@` and its milliseconds, or 0 where no
/// `@` stands there.
pub open spec fn task_interval(tokens: Seq<TokenView>, pos: int) -> Parsed<nat> {
    if pos >= tokens.len() {
        Parsed::Failed { kind: ParseErrorKind::MissingTimeOperator, at: pos }
    } else if kind_at(tokens, pos, TokenKind::TimeOperator) {
        natural(
            tokens,
            pos + 1,
            ParseErrorKind::MissingInterval,
            ParseErrorKind::NegativeInterval,
        ).after(1)
    } else {
        Parsed::Done { value: 0, len: 0 }
    }
}

/// The task whose keyword stands at `pos`.
pub open spec fn task_declaration(tokens: Seq<TokenView>, pos: int) -> Parsed<AstView>
    recommends
        keyword_at(tokens, pos, "task"@),
{
    if !kind_at(tokens, pos + 1, TokenKind::Identifier) {
        Parsed::Failed { kind: ParseErrorKind::MissingTaskName, at: pos + 1 }
    } else {
        match task_interval(tokens, pos + 2) {
            Parsed::Failed { kind, at } => Parsed::Failed { kind, at },
            Parsed::Done { value: interval_ms, len: a } => match block(tokens, pos + 2 + a) {
                Parsed::Failed { kind, at } => Parsed::Failed { kind, at },
                Parsed::Done { value: body, len: b } => Parsed::Done {
                    value: AstView::Task { name: tokens[pos + 1].value, interval_ms, body },
                    len: 2 + a + b,
                },
            },
        }
    }
}

/// The handler whose keyword `when` stands at `pos`. Its interface is the
/// text of a string literal.
pub open spec fn when_declaration(tokens: Seq<TokenView>, pos: int) -> Parsed<AstView>
    recommends
        keyword_at(tokens, pos, "when"@),
{
    if !kind_at(tokens, pos + 1, TokenKind::StringLiteral) {
        Parsed::Failed { kind: ParseErrorKind::MissingInterface, at: pos + 1 }
    } else if string(tokens, pos + 1) is Failed {
        Parsed::Failed { kind: ParseErrorKind::InvalidString, at: pos + 1 }
    } else if !kind_at(tokens, pos + 2, TokenKind::RightArrow) {
        Parsed::Failed { kind: ParseErrorKind::MissingRightArrow, at: pos + 2 }
    } else if !kind_at(tokens, pos + 3, TokenKind::Identifier) {
        Parsed::Failed { kind: ParseErrorKind::MissingPacket, at: pos + 3 }
    } else if !kind_at(tokens, pos + 4, TokenKind::GuardOperator) {
        Parsed::Failed { kind: ParseErrorKind::MissingGuardOperator, at: pos + 4 }
    } else {
        match guard(tokens, pos + 5) {
            Parsed::Failed { kind, at } => Parsed::Failed { kind, at },
            Parsed::Done { value: condition, len } => match block(tokens, pos + 6) {
                Parsed::Failed { kind, at } => Parsed::Failed { kind, at },
                Parsed::Done { value: body, len: b } => Parsed::Done {
                    value: AstView::When {
                        interface: string(tokens, pos + 1)->value,
                        packet: tokens[pos + 3].value,
                        guard: condition,
                        body,
                    },
                    len: 6 + b,
                },
            },
        }
    }
}

/// The declaration at `pos`, told by its keyword.
pub open spec fn declaration(tokens: Seq<TokenView>, pos: int) -> Parsed<AstView> {
    if keyword_at(tokens, pos, "function"@) {
        function_declaration(tokens, pos)
    } else if keyword_at(tokens, pos, "record"@) {
        record_declaration(tokens, pos)
    } else if keyword_at(tokens, pos, "task"@) {
        task_declaration(tokens, pos)
    } else if keyword_at(tokens, pos, "when"@) {
        when_declaration(tokens, pos)
    } else {
        Parsed::Failed { kind: ParseErrorKind::InvalidDeclaration, at: pos }
    }
}

/// The declarations from `pos` to the end of the input, in source order, or
/// the first error.
#[verifier::opaque]
pub open spec fn declarations(tokens: Seq<TokenView>, pos: int) -> Parsed<Seq<AstView>>
    decreases remaining(tokens, pos),
{
    if pos >= tokens.len() {
        Parsed::Done { value: Seq::empty(), len: 0 }
    } else {
        match declaration(tokens, pos) {
            Parsed::Failed { kind, at } => Parsed::Failed { kind, at },
            Parsed::Done { value, len } => if len == 0 {
                // A declaration takes at least one token.
                Parsed::Failed { kind: ParseErrorKind::InvalidDeclaration, at: pos }
            } else {
                declarations(tokens, pos + len).prepend(seq![value], len)
            },
        }
    }
}

/// What a whole token sequence parses to.
pub open spec fn program(tokens: Seq<TokenView>) -> Parsed<Seq<AstView>> {
    declarations(tokens, 0)
}

impl<T> Parsed<T> {
    /// The same outcome for a construct that began `skipped` tokens earlier.
    pub open spec fn after(self, skipped: nat) -> Parsed<T> {
        match self {
            Parsed::Done { value, len } => Parsed::Done { value, len: skipped + len },
            Parsed::Failed { kind, at } => Parsed::Failed { kind, at },
        }
    }
}

impl<T> Parsed<Seq<T>> {
    /// The outcome for a list that has `items` in `skipped` tokens and then goes
    /// on as `self`.
    pub open spec fn prepend(self, items: Seq<T>, skipped: nat) -> Parsed<Seq<T>> {
        match self {
            Parsed::Done { value, len } => Parsed::Done {
                value: items + value,
                len: skipped + len,
            },
            Parsed::Failed { kind, at } => Parsed::Failed { kind, at },
        }
    }

    /// Prepending `second` and then `first` prepends `first + second`.
    pub proof fn lemma_prepend_twice(self, first: Seq<T>, a: nat, second: Seq<T>, b: nat)
        ensures
            self.prepend(second, b).prepend(first, a) == self.prepend(first + second, a + b),
    {
        if let Parsed::Done { value, len } = self {
            assert(first + (second + value) =~= (first + second) + value);
        }
    }

    /// Prepending nothing changes nothing.
    pub proof fn lemma_prepend_nothing(self)
        ensures
            self.prepend(Seq::empty(), 0) == self,
    {
        if let Parsed::Done { value, len } = self {
            assert(Seq::<T>::empty() + value =~= value);
        }
    }

    /// A list that ends after `items` is `items`.
    pub proof fn lemma_prepend_last(items: Seq<T>, skipped: nat, len: nat)
        ensures
            (Parsed::Done { value: Seq::<T>::empty(), len }).prepend(items, skipped) == (
            Parsed::Done { value: items, len: skipped + len }),
    {
        assert(items + Seq::<T>::empty() =~= items);
    }
}

} // verus!
