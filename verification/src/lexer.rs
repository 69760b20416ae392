//! The lexer: source text to positioned tokens.
//!
//! The text is read line by line. In a line, white space is skipped; a rest
//! that begins with `--` is a comment and ends the line; otherwise the rules
//! are tried in their fixed order on the rest of the line, and the first rule
//! that claims a lexeme at the very start of the rest yields the next token.
//! Where no rule claims anything, lexing fails.
//!
//! Each rule is a regular expression. The expressions are matched by the
//! `regex` crate; everything around the match is proved here. A rule whose
//! pattern the crate does not take is an error as soon as the rule is tried.

use crate::text::{
    append_decimal, characters, decimal, identifier_char, is_identifier_char, is_space, space,
};
use crate::token::{kind_name, views, Token, TokenKind, TokenView};
use regex::Regex;
use vstd::prelude::*;
use vstd::string::*;

verus! {

/// A lexical error.
#[derive(Debug, Clone, PartialEq, Eq)]
pub enum LexError {
    /// No rule matches the rest of a line.
    Unmatched {
        /// The 1-based number of the line.
        line: usize,
        /// The rest of the line, from the first character that no rule takes.
        remainder: String,
    },
    /// The pattern of a rule is no regular expression. The rules of this
    /// library all are; the error can come from a rule handed to
    /// `parse_regex`.
    BadRule {
        /// The class of the rule.
        kind: TokenKind,
    },
}

/// The model of a lexical error.
pub enum LexErrorView {
    Unmatched { line: nat, remainder: Seq<char> },
    BadRule { kind: TokenKind },
}

impl View for LexError {
    type V = LexErrorView;

    open spec fn view(&self) -> LexErrorView {
        match self {
            LexError::Unmatched { line, remainder } => LexErrorView::Unmatched {
                line: *line as nat,
                remainder: remainder@,
            },
            LexError::BadRule { kind } => LexErrorView::BadRule { kind: *kind },
        }
    }
}

impl LexErrorView {
    /// The error written out for a reader.
    pub open spec fn text(self) -> Seq<char> {
        match self {
            LexErrorView::Unmatched { line, remainder } => "cannot parse "@ + remainder
                + " at line "@ + decimal(line),
            LexErrorView::BadRule { kind } => "the pattern of the rule for "@ + kind_name(kind)
                + " is no regular expression"@,
        }
    }
}

impl LexError {
    /// The error written out for a reader: the text that no rule takes and
    /// its line, or the rule that is at fault.
    pub fn to_text(&self) -> (text: String)
        ensures
            text@ == self@.text(),
    {
        match self {
            LexError::Unmatched { line, remainder } => {
                let mut text = String::from_str("cannot parse ");
                text.append(remainder.as_str());
                text.append(" at line ");
                append_decimal(&mut text, *line);
                text
            },
            LexError::BadRule { kind } => {
                let mut text = String::from_str("the pattern of the rule for ");
                text.append(kind.name());
                text.append(" is no regular expression");
                text
            },
        }
    }
}

/// The error that `regex::Regex::new` returns for a pattern that it does not
/// take. Nothing is read from it.
#[verifier::external_type_specification]
#[verifier::external_body]
pub struct ExRegexError(regex::Error);

/// Whether `regex::Regex::new` takes the pattern.
pub uninterp spec fn regex_compiles(pattern: Seq<char>) -> bool;

/// The first match of the pattern in the haystack, as the text that stands
/// before the match and the text of the match; `None` where the pattern
/// matches nowhere.
pub uninterp spec fn regex_find(pattern: Seq<char>, haystack: Seq<char>) -> Option<
    (Seq<char>, Seq<char>),
>;

/// What a search found, as sequences of characters.
pub open spec fn found_view(found: Option<(String, String)>) -> Option<(Seq<char>, Seq<char>)> {
    match found {
        Some((before, matched)) => Some((before@, matched@)),
        None => None,
    }
}

/// Compiles `pattern` with `regex::Regex::new` and, where that succeeds,
/// searches `haystack` with `Regex::find`. The contract names both results:
/// whether the pattern compiles, which depends on the pattern alone, and what
/// the search finds, which depends on the two texts alone. It says nothing
/// else of them. Each call compiles its pattern anew.
#[verifier::external_body]
fn find_match(pattern: &str, haystack: &str) -> (found: Result<
    Option<(String, String)>,
    regex::Error,
>)
    ensures
        found is Ok == regex_compiles(pattern@),
        found matches Ok(place) ==> found_view(place) == regex_find(pattern@, haystack@),
{
    match Regex::new(pattern)?.find(haystack) {
        Some(m) => Ok(Some((haystack[..m.start()].to_string(), m.as_str().to_string()))),
        None => Ok(None),
    }
}

// ---------------------------------------------------------------------------
// The rules
// ---------------------------------------------------------------------------
/// The keywords of NX.
pub open spec fn keywords() -> Seq<Seq<char>> {
    seq![
        "function"@,
        "end"@,
        "do"@,
        "task"@,
        "when"@,
        "record"@,
        "match"@,
        "if"@,
        "elif"@,
        "else"@,
        "while"@,
        "for"@,
        "in"@,
        "and"@,
        "or"@,
        "not"@,
        "xor"@,
        "return"@,
        "store"@,
        "break"@,
        "continue"@,
    ]
}

/// The words, each in parentheses, joined by `|`.
pub open spec fn alternation(words: Seq<Seq<char>>) -> Seq<char>
    decreases words.len(),
{
    if words.len() == 0 {
        Seq::empty()
    } else if words.len() == 1 {
        "("@ + words[0] + ")"@
    } else {
        alternation(words.drop_last()) + "|("@ + words.last() + ")"@
    }
}

/// The pattern of the keyword rule: one of the words, followed by a character
/// that cannot stand inside an identifier, or by the end of the line.
pub open spec fn keyword_pattern(words: Seq<Seq<char>>) -> Seq<char> {
    "(^("@ + alternation(words) + ")[^_a-zA-Z0-9])|(^("@ + alternation(words) + ")$)"@
}

/// The lexical rules in their order of priority: the class of the token and
/// the regular expression of its lexeme.
pub open spec fn rules() -> Seq<(TokenKind, Seq<char>)> {
    seq![
        (TokenKind::StringLiteral, "^((\".*?\")|('.*?'))"@),
        (TokenKind::IntegerLiteral, "^-?(([1-9][0-9]*)|(0x[0-9a-fA-F]+)|(0x0+)|(0+))"@),
        (TokenKind::BooleanLiteral, "^((true)|(false))"@),
        (TokenKind::NilLiteral, "^nil"@),
        (TokenKind::Delimiter, "^[()\\[\\],;]"@),
        (TokenKind::MatchDefaultOperator, "^_"@),
        (TokenKind::RightArrow, "^=>"@),
        (TokenKind::CompareOperator, "^(([=><!]=)|(><))"@),
        (TokenKind::AssignOperator, "^[\\+\\-\\*/%]?="@),
        (TokenKind::ArithmeticOperator, "^[\\+\\-\\*/%]"@),
        (TokenKind::GuardOperator, "^::"@),
        (TokenKind::TimeOperator, "^@"@),
        (TokenKind::PipeOperator, "^\\."@),
        (TokenKind::Keyword, keyword_pattern(keywords())),
        (TokenKind::Identifier, "^[_a-zA-Z][_a-zA-Z0-9]*"@),
    ]
}

/// What a rule table holds.
pub open spec fn rules_view(table: Seq<(TokenKind, String)>) -> Seq<(TokenKind, Seq<char>)> {
    Seq::new(table.len(), |i: int| (table[i].0, table[i].1@))
}

/// What a list of words holds.
pub open spec fn words_view(words: Seq<&str>) -> Seq<Seq<char>> {
    Seq::new(words.len(), |i: int| words[i]@)
}

/// The keywords of NX.
fn keyword_list() -> (words: Vec<&'static str>)
    ensures
        words_view(words@) == keywords(),
{
    let words = vec![
        "function",
        "end",
        "do",
        "task",
        "when",
        "record",
        "match",
        "if",
        "elif",
        "else",
        "while",
        "for",
        "in",
        "and",
        "or",
        "not",
        "xor",
        "return",
        "store",
        "break",
        "continue",
    ];
    assert(words_view(words@) =~= keywords());
    words
}

/// The words, each in parentheses, joined by `|`.
fn join_alternatives(words: &Vec<&str>) -> (pattern: String)
    ensures
        pattern@ == alternation(words_view(words@)),
{
    let ghost all = words_view(words@);
    let mut pattern = String::new();
    let mut i: usize = 0;
    while i < words.len()
        invariant
            i <= words.len(),
            all == words_view(words@),
            pattern@ == alternation(all.take(i as int)),
        decreases words.len() - i,
    {
        proof {
            assert(all.take(i + 1).drop_last() =~= all.take(i as int));
            assert(all.take(i + 1).last() == words@[i as int]@);
            if i == 0 {
                assert(all.take(1)[0] == words@[0]@);
                assert(Seq::<char>::empty() + "("@ =~= "("@);
            }
        }
        if i == 0 {
            pattern.append("(");
        } else {
            pattern.append("|(");
        }
        pattern.append(words[i]);
        pattern.append(")");
        i += 1;
    }
    assert(all.take(words.len() as int) =~= all);
    pattern
}

/// The lexical rules in their order of priority.
pub fn get_rules() -> (table: Vec<(TokenKind, String)>)
    ensures
        rules_view(table@) == rules(),
{
    let words = keyword_list();
    let alternatives = join_alternatives(&words);
    let mut keyword = String::from_str("(^(");
    keyword.append(alternatives.as_str());
    keyword.append(")[^_a-zA-Z0-9])|(^(");
    keyword.append(alternatives.as_str());
    keyword.append(")$)");
    let table = vec![
        (TokenKind::StringLiteral, String::from_str("^((\".*?\")|('.*?'))")),
        (
            TokenKind::IntegerLiteral,
            String::from_str("^-?(([1-9][0-9]*)|(0x[0-9a-fA-F]+)|(0x0+)|(0+))"),
        ),
        (TokenKind::BooleanLiteral, String::from_str("^((true)|(false))")),
        (TokenKind::NilLiteral, String::from_str("^nil")),
        (TokenKind::Delimiter, String::from_str("^[()\\[\\],;]")),
        (TokenKind::MatchDefaultOperator, String::from_str("^_")),
        (TokenKind::RightArrow, String::from_str("^=>")),
        (TokenKind::CompareOperator, String::from_str("^(([=><!]=)|(><))")),
        (TokenKind::AssignOperator, String::from_str("^[\\+\\-\\*/%]?=")),
        (TokenKind::ArithmeticOperator, String::from_str("^[\\+\\-\\*/%]")),
        (TokenKind::GuardOperator, String::from_str("^::")),
        (TokenKind::TimeOperator, String::from_str("^@")),
        (TokenKind::PipeOperator, String::from_str("^\\.")),
        (TokenKind::Keyword, keyword),
        (TokenKind::Identifier, String::from_str("^[_a-zA-Z][_a-zA-Z0-9]*")),
    ];
    assert(rules_view(table@) =~= rules());
    table
}

// ---------------------------------------------------------------------------
// What the rules claim
// ---------------------------------------------------------------------------
/// Where the lexeme of a rule of class `kind` ends when its match ends at
/// `end`: the match of the keyword rule holds one character more than the
/// keyword, unless the keyword ends the line.
pub open spec fn lexeme_end(kind: TokenKind, text: Seq<char>, end: int) -> int {
    if kind == TokenKind::Keyword && 0 < end <= text.len() && !is_identifier_char(
        text[end - 1],
    ) {
        end - 1
    } else {
        end
    }
}

/// The length of the lexeme that a rule of class `kind` claims at the start
/// of `text`, given what its pattern found: nothing may stand before the match
/// and the lexeme must not be empty.
pub open spec fn claimed(
    kind: TokenKind,
    text: Seq<char>,
    found: Option<(Seq<char>, Seq<char>)>,
) -> Option<nat> {
    match found {
        Some((before, matched)) => if before.len() == 0 && 0 < lexeme_end(
            kind,
            text,
            matched.len() as int,
        ) <= text.len() {
            Some(lexeme_end(kind, text, matched.len() as int) as nat)
        } else {
            None
        },
        None => None,
    }
}

/// The length of the lexeme that `rule`, whose pattern compiles, claims at
/// the start of `text`.
pub open spec fn rule_claim(rule: (TokenKind, Seq<char>), text: Seq<char>) -> Option<nat> {
    claimed(rule.0, text, regex_find(rule.1, text))
}

/// The first rule from index `from` on that claims a lexeme at the start of
/// `text`: its class and the length of the lexeme, or `None` where no rule
/// claims one. Where a rule is met whose pattern does not compile before any
/// rule has claimed a lexeme, the outcome is the class of that rule.
#[verifier::opaque]
pub open spec fn first_claim(
    table: Seq<(TokenKind, Seq<char>)>,
    text: Seq<char>,
    from: int,
) -> Result<Option<(TokenKind, nat)>, TokenKind>
    decreases table.len() - from,
{
    if from < 0 || from >= table.len() {
        Ok(None)
    } else if !regex_compiles(table[from].1) {
        Err(table[from].0)
    } else {
        match rule_claim(table[from], text) {
            Some(len) => Ok(Some((table[from].0, len))),
            None => first_claim(table, text, from + 1),
        }
    }
}

/// A claimed lexeme is not empty and lies inside the text.
pub proof fn lemma_first_claim_bounds(
    table: Seq<(TokenKind, Seq<char>)>,
    text: Seq<char>,
    from: int,
)
    ensures
        first_claim(table, text, from) matches Ok(Some((_, len))) ==> 0 < len <= text.len(),
    decreases table.len() - from,
{
    reveal(first_claim);
    if 0 <= from < table.len() {
        lemma_first_claim_bounds(table, text, from + 1);
    }
}

// ---------------------------------------------------------------------------
// Lines
// ---------------------------------------------------------------------------
/// What lexing gives: the tokens, or the error.
pub type Lexed = Result<Seq<TokenView>, LexErrorView>;

/// The tokens `done`, followed by what `rest` gives.
pub open spec fn followed(done: Seq<TokenView>, rest: Lexed) -> Lexed {
    match rest {
        Ok(more) => Ok(done + more),
        Err(e) => Err(e),
    }
}

/// The number of white-space characters of `text` from `pos` on, up to the
/// first character that is none.
pub open spec fn spaces(text: Seq<char>, pos: int) -> nat
    decreases text.len() - pos,
{
    if 0 <= pos < text.len() && is_space(text[pos]) {
        1 + spaces(text, pos + 1)
    } else {
        0
    }
}

/// Whether `rest` begins with the comment marker `--`.
pub open spec fn is_comment(rest: Seq<char>) -> bool {
    rest.len() >= 2 && rest[0] == '-' && rest[1] == '-'
}

/// The tokens of the line `text` from `pos` on. Columns count characters
/// from 1.
pub open spec fn scan(text: Seq<char>, pos: int, line: nat) -> Lexed
    decreases text.len() - pos,
{
    let start = pos + spaces(text, pos);
    let rest = text.skip(start);
    if pos < 0 || start >= text.len() || is_comment(rest) {
        Ok(Seq::empty())
    } else {
        match first_claim(rules(), rest, 0) {
            Err(kind) => Err(LexErrorView::BadRule { kind }),
            Ok(None) => Err(LexErrorView::Unmatched { line, remainder: rest }),
            Ok(Some((kind, len))) => {
                proof {
                    lemma_first_claim_bounds(rules(), rest, 0);
                }
                followed(
                    seq![
                        TokenView {
                            kind,
                            value: rest.take(len as int),
                            line,
                            column: (start + 1) as nat,
                        },
                    ],
                    scan(text, start + len, line),
                )
            },
        }
    }
}

/// The number of characters of `content` from `from` up to the next line feed
/// or the end.
pub open spec fn line_length(content: Seq<char>, from: int) -> nat
    decreases content.len() - from,
{
    if 0 <= from < content.len() && content[from] != '\n' {
        1 + line_length(content, from + 1)
    } else {
        0
    }
}

/// The tokens of the lines of `content` from index `from` on, the first of
/// which has the number `line`. A line ends at a line feed; a carriage return
/// before it is white space.
pub open spec fn scan_lines(content: Seq<char>, from: int, line: nat) -> Lexed
    decreases content.len() - from,
{
    if from < 0 || from >= content.len() {
        Ok(Seq::empty())
    } else {
        let end = from + line_length(content, from);
        match scan(content.subrange(from, end), 0, line) {
            Err(e) => Err(e),
            Ok(tokens) => if end >= content.len() {
                Ok(tokens)
            } else {
                followed(tokens, scan_lines(content, end + 1, line + 1))
            },
        }
    }
}

/// The tokens of a source text.
pub open spec fn lex(content: Seq<char>) -> Lexed {
    scan_lines(content, 0, 1)
}

/// Where the lexeme of a rule of class `kind` ends in `line` when the rule's
/// match ends at `end`.
pub fn get_end_pos(line: &str, end: usize, kind: &TokenKind) -> (lexeme: usize)
    ensures
        lexeme == lexeme_end(*kind, line@, end as int),
{
    match kind {
        TokenKind::Keyword => {
            if 0 < end && end <= line.unicode_len() && !identifier_char(line.get_char(end - 1)) {
                end - 1
            } else {
                end
            }
        },
        _ => end,
    }
}

/// The length of the lexeme that a rule of class `kind` claims at the start
/// of `line`, given what its pattern found there: the text before the match
/// and the match.
pub fn claim(kind: TokenKind, line: &str, found: &Option<(String, String)>) -> (len: Option<usize>)
    ensures
        len matches Some(n) ==> claimed(kind, line@, found_view(*found)) == Some(n as nat),
        len is None ==> claimed(kind, line@, found_view(*found)) is None,
{
    match found {
        Some((before, matched)) => {
            let end = matched.as_str().unicode_len();
            let lexeme = get_end_pos(line, end, &kind);
            if before.as_str().is_empty() && 0 < lexeme && lexeme <= line.unicode_len() {
                Some(lexeme)
            } else {
                None
            }
        },
        None => None,
    }
}

/// Whether `token` is the token of class `kind` that takes the first `len`
/// characters of `line`, without a position.
pub open spec fn takes(token: Token, kind: TokenKind, line: Seq<char>, len: nat) -> bool {
    token@ == (TokenView { kind, value: line.take(len as int), line: 0, column: 0 })
}

/// Tries one rule at the start of `line`: the token of class `kind` that the
/// rule claims, without a position, or `None` where it claims nothing. A
/// pattern that is no regular expression is an error.
pub fn parse_regex(pattern: &str, line: &str, kind: TokenKind) -> (token: Result<
    Option<Token>,
    LexError,
>)
    ensures
        if regex_compiles(pattern@) {
            match rule_claim((kind, pattern@), line@) {
                Some(len) => token matches Ok(Some(t)) && takes(t, kind, line@, len),
                None => token matches Ok(None),
            }
        } else {
            token matches Err(e) && e@ == (LexErrorView::BadRule { kind })
        },
{
    let found = match find_match(pattern, line) {
        Ok(found) => found,
        Err(_) => { return Err(LexError::BadRule { kind }); },
    };
    match claim(kind, line, &found) {
        Some(len) => {
            let lexeme = line.substring_char(0, len);
            Ok(Some(Token::new(kind, String::from_str(lexeme))))
        },
        None => Ok(None),
    }
}

/// Tries the rules of `table` in order at the start of `line`.
fn first_token(table: &Vec<(TokenKind, String)>, line: &str) -> (token: Result<
    Option<Token>,
    LexError,
>)
    ensures
        match first_claim(rules_view(table@), line@, 0) {
            Ok(Some((kind, len))) => token matches Ok(Some(t)) && takes(t, kind, line@, len),
            Ok(None) => token matches Ok(None),
            Err(kind) => token matches Err(e) && e@ == (LexErrorView::BadRule { kind }),
        },
{
    let ghost all = rules_view(table@);
    let mut i: usize = 0;
    while i < table.len()
        invariant
            i <= table.len(),
            all == rules_view(table@),
            first_claim(all, line@, 0) == first_claim(all, line@, i as int),
        decreases table.len() - i,
    {
        reveal(first_claim);
        if let Some(token) = parse_regex(table[i].1.as_str(), line, table[i].0)? {
            return Ok(Some(token));
        }
        i += 1;
    }
    reveal(first_claim);
    Ok(None)
}

/// Lexes one line and appends its tokens to `tokens`.
fn scan_line(
    table: &Vec<(TokenKind, String)>,
    line: &str,
    number: usize,
    tokens: &mut Vec<Token>,
) -> (result: Result<(), LexError>)
    requires
        rules_view(table@) == rules(),
    ensures
        match scan(line@, 0, number as nat) {
            Ok(found) => result is Ok && views(final(tokens)@) == views(old(tokens)@) + found,
            Err(e) => result matches Err(error) && error@ == e,
        },
{
    let marks = characters(line);
    let length = marks.len();
    let ghost before = views(tokens@);
    let mut pos: usize = 0;
    assert(before + Seq::<TokenView>::empty() =~= before);
    loop
        invariant
            rules_view(table@) == rules(),
            marks@ == line@,
            length == marks.len(),
            pos <= length,
            before == views(old(tokens)@),
            match scan(line@, pos as int, number as nat) {
                Ok(found) => scan(line@, 0, number as nat) matches Ok(all) && views(tokens@)
                    + found == before + all,
                Err(e) => scan(line@, 0, number as nat) == Err::<Seq<TokenView>, LexErrorView>(e),
            },
        decreases length - pos,
    {
        let mut start = pos;
        while start < length && space(marks[start])
            invariant
                marks@ == line@,
                length == marks.len(),
                pos <= start <= length,
                pos + spaces(line@, pos as int) == start + spaces(line@, start as int),
            decreases length - start,
        {
            start += 1;
        }
        if start >= length {
            return Ok(());
        }
        let rest = line.substring_char(start, length);
        assert(rest@ == line@.skip(start as int));
        if marks[start] == '-' && start + 1 < length && marks[start + 1] == '-' {
            return Ok(());
        }
        let mut token = match first_token(table, rest)? {
            Some(token) => token,
            None => {
                return Err(
                    LexError::Unmatched { line: number, remainder: String::from_str(rest) },
                );
            },
        };
        proof {
            lemma_first_claim_bounds(rules(), rest@, 0);
        }
        let taken = token.value().unicode_len();
        token.set_line(number);
        token.set_column(start + 1);
        proof {
            let ghost one = token@;
            assert(views(tokens@.push(token)) =~= views(tokens@).push(one));
            let rest_tokens = scan(line@, start + taken, number as nat);
            if let Ok(more) = rest_tokens {
                assert((views(tokens@).push(one)) + more =~= views(tokens@) + (seq![one] + more));
            }
        }
        tokens.push(token);
        pos = start + taken;
    }
}

/// Whether `result` is what lexing gives as `expected`: the same tokens with
/// the same positions, or the same error.
pub open spec fn lexes_to(result: Result<Vec<Token>, LexError>, expected: Lexed) -> bool {
    match expected {
        Ok(found) => result matches Ok(tokens) && views(tokens@) == found,
        Err(e) => result matches Err(error) && error@ == e,
    }
}

/// Turns a source text into its tokens, each with the line and column where
/// it starts, or fails on the first line of which some part matches no rule.
/// No token is returned beside an error.
pub fn tokenizer(content: String) -> (result: Result<Vec<Token>, LexError>)
    ensures
        lexes_to(result, lex(content@)),
{
    let table = get_rules();
    let text = content.as_str();
    let marks = characters(text);
    let total = marks.len();
    let mut tokens: Vec<Token> = Vec::new();
    let mut from: usize = 0;
    let mut number: usize = 1;
    assert(views(tokens@) =~= Seq::empty());
    while from < total
        invariant
            rules_view(table@) == rules(),
            marks@ == content@,
            text@ == content@,
            total == marks.len(),
            from <= total,
            1 <= number <= from + 1,
            match scan_lines(content@, from as int, number as nat) {
                Ok(found) => lex(content@) matches Ok(all) && views(tokens@) + found == all,
                Err(e) => lex(content@) == Err::<Seq<TokenView>, LexErrorView>(e),
            },
        decreases total - from,
    {
        let mut end = from;
        while end < total && marks[end] != '\n'
            invariant
                marks@ == content@,
                total == marks.len(),
                from <= end <= total,
                from + line_length(content@, from as int) == end + line_length(
                    content@,
                    end as int,
                ),
            decreases total - end,
        {
            end += 1;
        }
        let line = text.substring_char(from, end);
        let ghost before = views(tokens@);
        match scan_line(&table, line, number, &mut tokens) {
            Ok(()) => {},
            Err(error) => { return Err(error); },
        }
        proof {
            let here = scan(content@.subrange(from as int, end as int), 0, number as nat);
            if end < total {
                if let Ok(more) = scan_lines(content@, end + 1, (number + 1) as nat) {
                    assert((before + here->Ok_0) + more =~= before + (here->Ok_0 + more));
                }
            }
        }
        if end >= total || end + 1 >= total {
            assert(views(tokens@) + Seq::<TokenView>::empty() =~= views(tokens@));
            return Ok(tokens);
        }
        from = end + 1;
        number += 1;
    }
    Ok(tokens)
}

// ---------------------------------------------------------------------------
// Laws
// ---------------------------------------------------------------------------
/// Lexing is deterministic: two results of `tokenizer` for the same source
/// text hold the same tokens, class by class, lexeme by lexeme, line by line
/// and column by column, or the same error.
pub proof fn lemma_tokenizer_deterministic(
    content: Seq<char>,
    first: Result<Vec<Token>, LexError>,
    second: Result<Vec<Token>, LexError>,
)
    requires
        lexes_to(first, lex(content)),
        lexes_to(second, lex(content)),
    ensures
        first matches Ok(a) ==> second matches Ok(b) && views(a@) == views(b@),
        first matches Err(e) ==> second matches Err(f) && e@ == f@,
{
}

/// Whether `token` is the part of the line `text` that its column points at:
/// it lies on line `line`, it is not empty, and from its column on the line
/// spells its lexeme.
pub open spec fn lies_in(token: TokenView, text: Seq<char>, line: nat) -> bool {
    &&& token.line == line
    &&& 1 <= token.column
    &&& 0 < token.value.len()
    &&& token.column - 1 + token.value.len() <= text.len()
    &&& text.subrange(token.column - 1, token.column - 1 + token.value.len()) == token.value
}

/// Every token of a line is the part of the line that its column points at,
/// behind the position from which the line was read, and the tokens follow
/// each other from left to right without overlap.
pub proof fn lemma_tokens_lie_in_their_line(text: Seq<char>, pos: int, line: nat)
    requires
        0 <= pos,
    ensures
        scan(text, pos, line) matches Ok(tokens) ==> {
            &&& forall|i: int|
                0 <= i < tokens.len() ==> lies_in(#[trigger] tokens[i], text, line) && pos
                    < tokens[i].column
            &&& forall|i: int, j: int|
                0 <= i < j < tokens.len() ==> (#[trigger] tokens[i]).column
                    + tokens[i].value.len() <= (#[trigger] tokens[j]).column
        },
    decreases text.len() - pos,
{
    let start = pos + spaces(text, pos);
    let rest = text.skip(start);
    if start < text.len() && !is_comment(rest) {
        if let Ok(Some((kind, len))) = first_claim(rules(), rest, 0) {
            lemma_first_claim_bounds(rules(), rest, 0);
            lemma_tokens_lie_in_their_line(text, start + len, line);
            if let Ok(more) = scan(text, start + len, line) {
                let one = TokenView {
                    kind,
                    value: rest.take(len as int),
                    line,
                    column: (start + 1) as nat,
                };
                let tokens = seq![one] + more;
                assert(scan(text, pos, line) == Ok::<Seq<TokenView>, LexErrorView>(tokens));
                assert(text.subrange(start, start + len) =~= rest.take(len as int));
                assert(lies_in(one, text, line));
                assert forall|i: int| 0 <= i < tokens.len() implies lies_in(
                    #[trigger] tokens[i],
                    text,
                    line,
                ) && pos < tokens[i].column by {
                    if i > 0 {
                        assert(tokens[i] == more[i - 1]);
                    }
                }
                assert forall|i: int, j: int| 0 <= i < j < tokens.len() implies (
                #[trigger] tokens[i]).column + tokens[i].value.len() <= (
                #[trigger] tokens[j]).column by {
                    assert(tokens[j] == more[j - 1]);
                    if i > 0 {
                        assert(tokens[i] == more[i - 1]);
                    }
                }
            }
        }
    }
}

/// Whether every character of `text` is white space.
pub open spec fn all_spaces(text: Seq<char>) -> bool {
    forall|i: int| 0 <= i < text.len() ==> is_space(#[trigger] text[i])
}

/// White space in front of other text is counted up to that text.
pub proof fn lemma_spaces_of_margin(margin: Seq<char>, rest: Seq<char>, pos: int)
    requires
        all_spaces(margin),
        0 <= pos <= margin.len(),
    ensures
        spaces(margin + rest, pos) == (margin.len() - pos) + spaces(rest, 0),
    decreases margin.len() - pos,
{
    let text = margin + rest;
    if pos < margin.len() {
        assert(text[pos] == margin[pos]);
        lemma_spaces_of_margin(margin, rest, pos + 1);
    } else {
        lemma_spaces_shift(margin, rest, 0);
    }
}

/// Counting white space does not depend on what stands before it.
proof fn lemma_spaces_shift(before: Seq<char>, rest: Seq<char>, pos: int)
    requires
        0 <= pos,
    ensures
        spaces(before + rest, before.len() + pos) == spaces(rest, pos),
    decreases rest.len() - pos,
{
    if pos < rest.len() {
        assert((before + rest)[before.len() + pos] == rest[pos]);
        lemma_spaces_shift(before, rest, pos + 1);
    }
}

/// A line of white space alone has no tokens.
pub proof fn lemma_blank_line_has_no_tokens(text: Seq<char>, line: nat)
    requires
        all_spaces(text),
    ensures
        scan(text, 0, line) == Ok::<Seq<TokenView>, LexErrorView>(Seq::empty()),
{
    lemma_spaces_of_margin(text, Seq::empty(), 0);
    assert(text + Seq::<char>::empty() =~= text);
}

/// A line that holds, behind any white space, `--` and anything else has no
/// tokens.
pub proof fn lemma_comment_line_has_no_tokens(margin: Seq<char>, comment: Seq<char>, line: nat)
    requires
        all_spaces(margin),
    ensures
        scan(margin + seq!['-', '-'] + comment, 0, line) == Ok::<Seq<TokenView>, LexErrorView>(
            Seq::empty(),
        ),
{
    let rest = seq!['-', '-'] + comment;
    let text = margin + rest;
    assert(margin + seq!['-', '-'] + comment =~= text);
    lemma_spaces_of_margin(margin, rest, 0);
    assert(rest[0] == '-' && rest[1] == '-');
    assert(!is_space('-'));
    assert(spaces(rest, 0) == 0);
    assert(text.skip(margin.len() as int) =~= rest);
}

} // verus!
