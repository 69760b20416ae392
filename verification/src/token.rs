//! Tokens: a lexical class, the lexeme, and where the lexeme stood.

use crate::text::{append_decimal, decimal};
use vstd::prelude::*;
use vstd::string::*;

verus! {

/// The lexical classes of NX.
#[derive(Debug, Clone, Copy, PartialEq, Eq, Structural)]
pub enum TokenKind {
    Identifier,
    Delimiter,
    IntegerLiteral,
    ArithmeticOperator,
    CompareOperator,
    AssignOperator,
    Keyword,
    StringLiteral,
    GuardOperator,
    TimeOperator,
    PipeOperator,
    RightArrow,
    MatchDefaultOperator,
    BooleanLiteral,
    NilLiteral,
}

/// What a token is: class, lexeme and 1-based position (0 while unset).
pub struct TokenView {
    pub kind: TokenKind,
    pub value: Seq<char>,
    pub line: nat,
    pub column: nat,
}

/// A classified lexeme with the line and column where it starts. Two tokens
/// are equal when they agree in class and lexeme, wherever they stand.
#[derive(Debug)]
pub struct Token {
    kind: TokenKind,
    value: String,
    line: usize,
    column: usize,
}

impl View for Token {
    type V = TokenView;

    closed spec fn view(&self) -> TokenView {
        TokenView {
            kind: self.kind,
            value: self.value@,
            line: self.line as nat,
            column: self.column as nat,
        }
    }
}

/// What the tokens of a buffer are.
pub open spec fn views(tokens: Seq<Token>) -> Seq<TokenView> {
    Seq::new(tokens.len(), |i: int| tokens[i]@)
}

/// The name of a token class.
pub open spec fn kind_name(kind: TokenKind) -> Seq<char> {
    match kind {
        TokenKind::Identifier => "Identifier"@,
        TokenKind::Delimiter => "Delimiter"@,
        TokenKind::IntegerLiteral => "IntegerLiteral"@,
        TokenKind::ArithmeticOperator => "ArithmeticOperator"@,
        TokenKind::CompareOperator => "CompareOperator"@,
        TokenKind::AssignOperator => "AssignOperator"@,
        TokenKind::Keyword => "Keyword"@,
        TokenKind::StringLiteral => "StringLiteral"@,
        TokenKind::GuardOperator => "GuardOperator"@,
        TokenKind::TimeOperator => "TimeOperator"@,
        TokenKind::PipeOperator => "PipeOperator"@,
        TokenKind::RightArrow => "RightArrow"@,
        TokenKind::MatchDefaultOperator => "MatchDefaultOperator"@,
        TokenKind::BooleanLiteral => "BooleanLiteral"@,
        TokenKind::NilLiteral => "NilLiteral"@,
    }
}

impl TokenKind {
    /// The name of the class.
    pub fn name(&self) -> (name: &'static str)
        ensures
            name@ == kind_name(*self),
    {
        match self {
            TokenKind::Identifier => "Identifier",
            TokenKind::Delimiter => "Delimiter",
            TokenKind::IntegerLiteral => "IntegerLiteral",
            TokenKind::ArithmeticOperator => "ArithmeticOperator",
            TokenKind::CompareOperator => "CompareOperator",
            TokenKind::AssignOperator => "AssignOperator",
            TokenKind::Keyword => "Keyword",
            TokenKind::StringLiteral => "StringLiteral",
            TokenKind::GuardOperator => "GuardOperator",
            TokenKind::TimeOperator => "TimeOperator",
            TokenKind::PipeOperator => "PipeOperator",
            TokenKind::RightArrow => "RightArrow",
            TokenKind::MatchDefaultOperator => "MatchDefaultOperator",
            TokenKind::BooleanLiteral => "BooleanLiteral",
            TokenKind::NilLiteral => "NilLiteral",
        }
    }
}

impl TokenView {
    /// The token written out for a reader: class, lexeme in quotes, line and
    /// column.
    pub open spec fn text(self) -> Seq<char> {
        "Token: <"@ + kind_name(self.kind) + ",\""@ + self.value + "\","@ + decimal(self.line)
            + ", "@ + decimal(self.column) + ">"@
    }

    /// Two tokens match when class and lexeme agree; position is not compared.
    pub open spec fn same_lexeme(self, other: TokenView) -> bool {
        self.kind == other.kind && self.value == other.value
    }

    /// The token is of class `kind` and spells `text`.
    pub open spec fn is(self, kind: TokenKind, text: Seq<char>) -> bool {
        self.kind == kind && self.value == text
    }
}

impl Token {
    /// A token without a position yet.
    pub fn new(kind: TokenKind, value: String) -> (tok: Token)
        ensures
            tok@ == (TokenView { kind, value: value@, line: 0, column: 0 }),
    {
        Token { kind, value, line: 0, column: 0 }
    }

    /// The lexical class.
    pub fn kind(&self) -> (kind: &TokenKind)
        ensures
            *kind == self@.kind,
    {
        &self.kind
    }

    /// The lexeme, exactly as it stood in the source.
    pub fn value(&self) -> (value: &str)
        ensures
            value@ == self@.value,
    {
        self.value.as_str()
    }

    /// Length of the lexeme in bytes of its UTF-8 encoding.
    pub fn value_len(&self) -> (len: usize)
        ensures
            len == vstd::utf8::encode_utf8(self@.value).len() as usize,
    {
        self.value.as_str().len()
    }

    /// The 1-based line of the lexeme, 0 while unset.
    pub fn line(&self) -> (line: usize)
        ensures
            line == self@.line,
    {
        self.line
    }

    /// The 1-based column of the first character of the lexeme, 0 while unset.
    pub fn column(&self) -> (column: usize)
        ensures
            column == self@.column,
    {
        self.column
    }

    /// The token written out for a reader, as in `Token: <Keyword,"end",3, 1>`.
    pub fn to_text(&self) -> (text: String)
        ensures
            text@ == self@.text(),
    {
        let mut text = String::from_str("Token: <");
        text.append(self.kind.name());
        text.append(",\"");
        text.append(self.value.as_str());
        text.append("\",");
        append_decimal(&mut text, self.line);
        text.append(", ");
        append_decimal(&mut text, self.column);
        text.append(">");
        text
    }

    /// Sets the line and leaves the rest as it is.
    pub fn set_line(&mut self, line: usize)
        ensures
            final(self)@ == (TokenView { line: line as nat, ..old(self)@ }),
    {
        self.line = line;
    }

    /// Sets the column and leaves the rest as it is.
    pub fn set_column(&mut self, column: usize)
        ensures
            final(self)@ == (TokenView { column: column as nat, ..old(self)@ }),
    {
        self.column = column;
    }
}

impl PartialEq for Token {
    /// Whether class and lexeme agree; the positions are not compared.
    fn eq(&self, other: &Token) -> (equal: bool) {
        self.kind == other.kind && self.value == other.value
    }
}

impl vstd::std_specs::cmp::PartialEqSpecImpl for Token {
    open spec fn obeys_eq_spec() -> bool {
        true
    }

    open spec fn eq_spec(&self, other: &Token) -> bool {
        self@.same_lexeme(other@)
    }
}

} // verus!
