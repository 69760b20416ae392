//! What holds of lexing and parsing as a whole: the empty input, the order of
//! the declarations, and failing fast.

use crate::ast::{AST, AstView, Model};
use crate::grammar::{declaration, declarations, program, Parsed};
use crate::lexer::{lex, LexErrorView};
use crate::parser::{parses_to, ParseError};
use crate::token::TokenView;
use crate::window::{
    lemma_declaration, lemma_declaration_inside, lemma_declarations, same_tokens, token_from,
};
use vstd::prelude::*;

verus! {

/// The empty source text has no tokens, and no tokens parse to no
/// declarations.
pub proof fn lemma_empty_input()
    ensures
        lex(Seq::empty()) == Ok::<Seq<TokenView>, LexErrorView>(Seq::empty()),
        program(Seq::empty()) == (Parsed::Done { value: Seq::<AstView>::empty(), len: 0 }),
{
    reveal(declarations);
}

/// What parses takes the whole input.
pub proof fn lemma_declarations_take_all(tokens: Seq<TokenView>, pos: int)
    requires
        0 <= pos <= tokens.len(),
    ensures
        declarations(tokens, pos) matches Parsed::Done { len, .. } ==> pos + len == tokens.len(),
    decreases tokens.len() - pos,
{
    reveal(declarations);
    if pos < tokens.len() {
        if let Parsed::Done { value, len } = declaration(tokens, pos) {
            lemma_declaration_inside(tokens, pos);
            lemma_declarations_take_all(tokens, pos + len);
        }
    }
}

/// The declarations of `first` from `pos` on, followed by those of `second`,
/// are the declarations of `first + second` from `pos` on.
proof fn lemma_declarations_join(first: Seq<TokenView>, second: Seq<TokenView>, pos: int)
    requires
        0 <= pos <= first.len(),
        declarations(first, pos) is Done,
        program(second) is Done,
    ensures
        declarations(first + second, pos) == (Parsed::Done {
            value: declarations(first, pos)->value + program(second)->value,
            len: declarations(first, pos)->len + program(second)->len,
        }),
    decreases first.len() - pos,
{
    let both = first + second;
    if pos == first.len() {
        assert(same_tokens(second, 0, both, pos, second.len() as int)) by {
            assert forall|i: int| 0 <= i < second.len() implies (#[trigger] token_from(
                second,
                0,
                i,
            )).same_lexeme(token_from(both, pos, i)) by {
                assert(both[pos + i] == second[i]);
            }
        }
        lemma_declarations(second, 0, both, pos);
        assert(declarations(first, pos) == (Parsed::Done {
            value: Seq::<AstView>::empty(),
            len: 0,
        })) by {
            reveal(declarations);
        }
        assert(Seq::<AstView>::empty() + program(second)->value =~= program(second)->value);
    } else {
        let one = declaration(first, pos);
        let len = one->len as int;
        let rest = declarations(first, pos + len);
        assert(one is Done && rest is Done && declarations(first, pos) == rest.prepend(
            seq![one->value],
            one->len,
        )) by {
            reveal(declarations);
        }
        lemma_declaration_inside(first, pos);
        assert(same_tokens(first, pos, both, pos, len)) by {
            assert forall|i: int| 0 <= i < len implies (#[trigger] token_from(
                first,
                pos,
                i,
            )).same_lexeme(token_from(both, pos, i)) by {
                assert(both[pos + i] == first[pos + i]);
            }
        }
        lemma_declaration(first, pos, both, pos);
        lemma_declarations_join(first, second, pos + len);
        assert(declarations(both, pos) == declarations(both, pos + len).prepend(
            seq![one->value],
            one->len,
        )) by {
            reveal(declarations);
        }
        assert(seq![one->value] + (rest->value + program(second)->value) =~= (seq![one->value]
            + rest->value) + program(second)->value);
    }
}

/// Parsing keeps the order of the source across inputs: where two token
/// sequences parse, the first followed by the second parses to the
/// declarations of the first followed by those of the second. Only classes
/// and lexemes matter; the lines and columns of the tokens do not.
pub proof fn lemma_concatenation(first: Seq<TokenView>, second: Seq<TokenView>)
    requires
        program(first) is Done,
        program(second) is Done,
    ensures
        program(first + second) == (Parsed::Done {
            value: program(first)->value + program(second)->value,
            len: (first + second).len(),
        }),
{
    lemma_declarations_join(first, second, 0);
    lemma_declarations_take_all(first, 0);
    lemma_declarations_take_all(second, 0);
}

/// A token sequence that is exactly one declaration parses to that
/// declaration alone.
pub proof fn lemma_single_declaration(tokens: Seq<TokenView>)
    requires
        declaration(tokens, 0) matches Parsed::Done { len, .. } && len == tokens.len(),
    ensures
        program(tokens) == (Parsed::Done {
            value: seq![declaration(tokens, 0)->value],
            len: tokens.len(),
        }),
{
    reveal_with_fuel(declarations, 2);
    lemma_declaration_inside(tokens, 0);
    assert(seq![declaration(tokens, 0)->value] + Seq::<AstView>::empty() =~= seq![
        declaration(tokens, 0)->value,
    ]);
}

/// Whether each of `parts` is exactly one declaration, with the tree of the
/// same index in `nodes`.
pub open spec fn one_declaration_each(parts: Seq<Seq<TokenView>>, nodes: Seq<AstView>) -> bool {
    &&& parts.len() == nodes.len()
    &&& forall|i: int|
        0 <= i < parts.len() ==> #[trigger] declaration(parts[i], 0) == (Parsed::Done {
            value: nodes[i],
            len: parts[i].len(),
        })
}

/// Parsing N declarations written one after the other yields exactly their N
/// trees, in the order in which they are written.
pub proof fn lemma_declarations_in_sequence(parts: Seq<Seq<TokenView>>, nodes: Seq<AstView>)
    requires
        one_declaration_each(parts, nodes),
    ensures
        program(parts.flatten()) == (Parsed::Done { value: nodes, len: parts.flatten().len() }),
        program(parts.flatten())->value.len() == parts.len(),
    decreases parts.len(),
{
    if parts.len() == 0 {
        assert(parts.flatten() =~= Seq::<TokenView>::empty());
        assert(nodes =~= Seq::<AstView>::empty());
        reveal(declarations);
    } else {
        let head = parts.first();
        let tail = parts.drop_first();
        assert(declaration(parts[0], 0) == (Parsed::Done { value: nodes[0], len: head.len() }));
        assert(one_declaration_each(tail, nodes.drop_first())) by {
            assert forall|i: int| 0 <= i < tail.len() implies #[trigger] declaration(tail[i], 0)
                == (Parsed::Done { value: nodes.drop_first()[i], len: tail[i].len() }) by {
                assert(tail[i] == parts[i + 1]);
                assert(declaration(parts[i + 1], 0) == (Parsed::Done {
                    value: nodes[i + 1],
                    len: parts[i + 1].len(),
                }));
            }
        }
        lemma_declarations_in_sequence(tail, nodes.drop_first());
        lemma_single_declaration(head);
        lemma_concatenation(head, tail.flatten());
        assert(parts.flatten() =~= head + tail.flatten());
        assert(seq![nodes[0]] + nodes.drop_first() =~= nodes);
    }
}

/// Parsing goes by class and lexeme alone: two token sequences that agree in
/// both, token by token, parse to the same declarations, whatever lines and
/// columns their tokens carry.
pub proof fn lemma_positions_do_not_matter(first: Seq<TokenView>, second: Seq<TokenView>)
    requires
        first.len() == second.len(),
        forall|i: int| 0 <= i < first.len() ==> (#[trigger] first[i]).same_lexeme(second[i]),
        program(first) is Done,
    ensures
        program(second) == program(first),
{
    assert(same_tokens(first, 0, second, 0, first.len() as int)) by {
        assert forall|i: int| 0 <= i < first.len() implies (#[trigger] token_from(
            first,
            0,
            i,
        )).same_lexeme(token_from(second, 0, i)) by {
            assert(first[i].same_lexeme(second[i]));
        }
    }
    lemma_declarations(first, 0, second, 0);
}

/// Where the declarations of `first` from `pos` on parse, and those of
/// `first + second` do too, the rest of `first + second` behind `first` parses.
proof fn lemma_declarations_behind(first: Seq<TokenView>, second: Seq<TokenView>, pos: int)
    requires
        0 <= pos <= first.len(),
        declarations(first, pos) is Done,
        declarations(first + second, pos) is Done,
    ensures
        declarations(first + second, first.len() as int) is Done,
    decreases first.len() - pos,
{
    let both = first + second;
    if pos < first.len() {
        let one = declaration(first, pos);
        let len = one->len as int;
        assert(one is Done && declarations(first, pos + len) is Done) by {
            reveal(declarations);
        }
        lemma_declaration_inside(first, pos);
        assert(same_tokens(first, pos, both, pos, len)) by {
            assert forall|i: int| 0 <= i < len implies (#[trigger] token_from(
                first,
                pos,
                i,
            )).same_lexeme(token_from(both, pos, i)) by {
                assert(both[pos + i] == first[pos + i]);
            }
        }
        lemma_declaration(first, pos, both, pos);
        assert(declarations(both, pos + len) is Done) by {
            reveal(declarations);
        }
        lemma_declarations_behind(first, second, pos + len);
    }
}

/// Parsing fails fast across inputs: declarations that parse, followed by
/// tokens that do not, fail as a whole. Nothing of the declarations that came
/// before the error is returned.
pub proof fn lemma_error_after_declarations(first: Seq<TokenView>, second: Seq<TokenView>)
    requires
        program(first) is Done,
        program(second) is Failed,
    ensures
        program(first + second) is Failed,
{
    let both = first + second;
    if program(both) is Done {
        lemma_declarations_behind(first, second, 0);
        assert(same_tokens(both, first.len() as int, second, 0, second.len() as int)) by {
            assert forall|i: int| 0 <= i < second.len() implies (#[trigger] token_from(
                both,
                first.len() as int,
                i,
            )).same_lexeme(token_from(second, 0, i)) by {
                assert(both[first.len() + i] == second[i]);
            }
        }
        lemma_declarations(both, first.len() as int, second, 0);
    }
}

/// Parsing fails fast: where a declaration is followed by input that does not
/// parse, the input from that declaration on does not parse either, and fails
/// with the same error. No list of the declarations before the error remains.
pub proof fn lemma_fail_fast(tokens: Seq<TokenView>, pos: int)
    requires
        0 <= pos < tokens.len(),
        declaration(tokens, pos) is Done,
        declarations(tokens, pos + declaration(tokens, pos)->len) is Failed,
    ensures
        declarations(tokens, pos) == declarations(tokens, pos + declaration(tokens, pos)->len),
{
    reveal(declarations);
    lemma_declaration_inside(tokens, pos);
}

/// What `parse` returns for two inputs and for the one followed by the other:
/// where both parse, the whole parses to the declarations of the first and
/// then those of the second, as many as the two have together; where the
/// first parses and the second does not, the whole is an error.
pub proof fn lemma_parse_in_sequence(
    first: Seq<TokenView>,
    second: Seq<TokenView>,
    of_first: Result<Vec<AST>, ParseError>,
    of_second: Result<Vec<AST>, ParseError>,
    of_both: Result<Vec<AST>, ParseError>,
)
    requires
        parses_to(of_first, first, program(first)),
        parses_to(of_second, second, program(second)),
        parses_to(of_both, first + second, program(first + second)),
    ensures
        of_first is Ok && of_second is Ok ==> of_both is Ok && of_both->Ok_0.model()
            == of_first->Ok_0.model() + of_second->Ok_0.model() && of_both->Ok_0@.len()
            == of_first->Ok_0@.len() + of_second->Ok_0@.len(),
        of_first is Ok && of_second is Err ==> of_both is Err,
{
    if of_first is Ok && of_second is Ok {
        lemma_concatenation(first, second);
    }
    if of_first is Ok && of_second is Err {
        lemma_error_after_declarations(first, second);
    }
}

} // verus!
