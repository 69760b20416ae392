//! The grammar reads nothing but the tokens of the construct it parses and,
//! where a construct ends only before a token that does not belong to it,
//! that one token. Two inputs that agree there, in class and lexeme, give the
//! same tree. Positions in the source (line and column) play no part.
//!
//! A construct that is closed by its own last token (a call by `)`, a block by
//! `end`) needs agreement on its own tokens. An open one (an expression, a
//! list of statements) needs agreement on one token more.

use crate::ast::{binary_view, ExpressionView};
use crate::grammar::{
    any_assignment_at, argument_list, argument_names, assignment, block, call, call_arguments,
    call_statement, closes, condition, declaration, declarations, default_case, delay, delimiter_at,
    elif_branches, else_branch, expression, for_statement, function_declaration, guard,
    if_statement, integer, keyword_at, kind_at, literal, literal_at, match_cases, match_statement,
    more_argument_names, name_list, natural, operand, operand_tail, primary, product, product_op,
    product_tail, record_declaration, remaining, return_statement, statement, statements, store,
    sum, sum_op, sum_tail, task_declaration, task_interval, terminated_expression, when_declaration,
    while_statement, ParseErrorKind, Parsed, Scope,
};
use crate::token::{TokenKind, TokenView};
use vstd::prelude::*;

verus! {

/// The token of `tokens` that stands `offset` tokens behind `pos`.
pub open spec fn token_from(tokens: Seq<TokenView>, pos: int, offset: int) -> TokenView {
    tokens[pos + offset]
}

/// Whether the `n` tokens of `a` from `p` and the `n` tokens of `b` from `q`
/// agree in class and lexeme.
pub open spec fn same_tokens(a: Seq<TokenView>, p: int, b: Seq<TokenView>, q: int, n: int) -> bool {
    &&& 0 <= p
    &&& 0 <= q
    &&& 0 <= n
    &&& p + n <= a.len()
    &&& q + n <= b.len()
    &&& forall|i: int|
        0 <= i < n ==> (#[trigger] token_from(a, p, i)).same_lexeme(token_from(b, q, i))
}

/// Whether the outcome `there` repeats the outcome `here` where `here` is a tree.
pub open spec fn repeats<T>(here: Parsed<T>, there: Parsed<T>) -> bool {
    here is Done ==> there == here
}

/// Whether `a` from `p` and `b` from `q` agree on the tokens of the construct
/// with the outcome `here` and on `more` tokens behind it.
pub open spec fn agree<T>(
    here: Parsed<T>,
    a: Seq<TokenView>,
    p: int,
    b: Seq<TokenView>,
    q: int,
    more: int,
) -> bool {
    here matches Parsed::Done { len, .. } ==> same_tokens(a, p, b, q, len + more)
}

/// Tokens that agree have the same class and lexeme, one by one.
pub proof fn lemma_same_token(a: Seq<TokenView>, p: int, b: Seq<TokenView>, q: int, n: int, k: int)
    requires
        same_tokens(a, p, b, q, n),
        0 <= k < n,
    ensures
        0 <= p + k < a.len(),
        0 <= q + k < b.len(),
        a[p + k].kind == b[q + k].kind,
        a[p + k].value == b[q + k].value,
{
    assert(token_from(a, p, k).same_lexeme(token_from(b, q, k)));
}

/// Tokens that agree do so on every part.
pub proof fn lemma_same_tokens_within(
    a: Seq<TokenView>,
    p: int,
    b: Seq<TokenView>,
    q: int,
    n: int,
    k: int,
    m: int,
)
    requires
        same_tokens(a, p, b, q, n),
        0 <= k,
        0 <= m,
        k + m <= n,
    ensures
        same_tokens(a, p + k, b, q + k, m),
{
    assert forall|i: int| 0 <= i < m implies (#[trigger] token_from(a, p + k, i)).same_lexeme(
        token_from(b, q + k, i),
    ) by {
        assert(token_from(a, p, k + i).same_lexeme(token_from(b, q, k + i)));
    }
}

/// What is read from one token alone is the same for two tokens of the same
/// class and lexeme.
pub proof fn lemma_one_token(a: Seq<TokenView>, p: int, b: Seq<TokenView>, q: int)
    requires
        0 <= p < a.len(),
        0 <= q < b.len(),
        a[p].same_lexeme(b[q]),
    ensures
        literal_at(b, q) == literal_at(a, p),
        integer(b, q) is Done == integer(a, p) is Done,
        integer(a, p) is Done ==> integer(b, q) == integer(a, p),
        literal_at(a, p) ==> repeats(literal(a, p), literal(b, q)),
        repeats(guard(a, p), guard(b, q)),
        forall|missing: ParseErrorKind, negative: ParseErrorKind|
            repeats(
                #[trigger] natural(a, p, missing, negative),
                natural(b, q, missing, negative),
            ),
{
}

// ---------------------------------------------------------------------------
// Expressions
// ---------------------------------------------------------------------------
/// An expression is read from its own tokens and the one behind it.
#[verifier::spinoff_prover]
pub proof fn lemma_expression(a: Seq<TokenView>, p: int, b: Seq<TokenView>, q: int)
    requires
        agree(expression(a, p), a, p, b, q, 1),
    ensures
        repeats(expression(a, p), expression(b, q)),
    decreases remaining(a, p), 7nat,
{
    if let Parsed::Done { value, len } = expression(a, p) {
        let len = len as int;
        let first = sum(a, p)->len as int;
        let left = sum(a, p)->value;
        let compared = kind_at(a, p + first, TokenKind::CompareOperator);
        let second = sum(a, p + first + 1)->len as int;
        assert(sum(a, p) is Done && first <= len && (compared ==> sum(a, p + first + 1) is Done
            && len == first + 1 + second)) by {
            reveal(expression);
            reveal(sum);
        }
        lemma_same_tokens_within(a, p, b, q, len + 1, 0, first + 1);
        lemma_sum(a, p, b, q);
        lemma_same_token(a, p, b, q, len + 1, first);
        if compared {
            lemma_same_tokens_within(a, p, b, q, len + 1, first + 1, second + 1);
            lemma_sum(a, p + first + 1, b, q + first + 1);
        }
        assert(expression(b, q) == expression(a, p)) by {
            reveal(expression);
            reveal(sum);
        }
    }
}

/// A sum is read from its own tokens and the one behind it.
#[verifier::spinoff_prover]
pub proof fn lemma_sum(a: Seq<TokenView>, p: int, b: Seq<TokenView>, q: int)
    requires
        agree(sum(a, p), a, p, b, q, 1),
    ensures
        repeats(sum(a, p), sum(b, q)),
    decreases remaining(a, p), 6nat,
{
    if let Parsed::Done { value, len } = sum(a, p) {
        let len = len as int;
        let first = product(a, p)->len as int;
        let left = product(a, p)->value;
        assert(product(a, p) is Done && sum(a, p) == sum_tail(a, p + first, left).after(
            first as nat,
        )) by {
            reveal(sum);
            reveal(product);
            reveal(sum_tail);
        }
        lemma_same_tokens_within(a, p, b, q, len + 1, 0, first + 1);
        lemma_product(a, p, b, q);
        lemma_same_tokens_within(a, p, b, q, len + 1, first, len - first + 1);
        lemma_sum_tail(a, p + first, b, q + first, left);
        assert(sum(b, q) == sum_tail(b, q + first, left).after(first as nat)) by {
            reveal(sum);
            reveal(product);
            reveal(sum_tail);
        }
    }
}

/// The rest of a sum is read from its own tokens and the one behind it.
#[verifier::spinoff_prover]
pub proof fn lemma_sum_tail(
    a: Seq<TokenView>,
    p: int,
    b: Seq<TokenView>,
    q: int,
    left: ExpressionView,
)
    requires
        agree(sum_tail(a, p, left), a, p, b, q, 1),
    ensures
        repeats(sum_tail(a, p, left), sum_tail(b, q, left)),
    decreases remaining(a, p), 5nat,
{
    if let Parsed::Done { value, len } = sum_tail(a, p, left) {
        let len = len as int;
        lemma_same_token(a, p, b, q, len + 1, 0);
        assert(sum_op(b, q) == sum_op(a, p));
        match sum_op(a, p) {
            None => {
                assert(sum_tail(b, q, left) == sum_tail(a, p, left)) by {
                    reveal(sum_tail);
                }
            },
            Some(op) => {
                let first = product(a, p + 1)->len as int;
                let right = product(a, p + 1)->value;
                let longer = binary_view(op, left, right);
                assert(product(a, p + 1) is Done && sum_tail(a, p, left) == sum_tail(
                    a,
                    p + 1 + first,
                    longer,
                ).after((1 + first) as nat)) by {
                    reveal(sum_tail);
                    reveal(product);
                }
                lemma_same_tokens_within(a, p, b, q, len + 1, 1, first + 1);
                lemma_product(a, p + 1, b, q + 1);
                lemma_same_tokens_within(a, p, b, q, len + 1, 1 + first, len - first);
                lemma_sum_tail(a, p + 1 + first, b, q + 1 + first, longer);
                assert(sum_tail(b, q, left) == sum_tail(b, q + 1 + first, longer).after(
                    (1 + first) as nat,
                )) by {
                    reveal(sum_tail);
                    reveal(product);
                }
            },
        }
    }
}

/// A product is read from its own tokens and the one behind it.
#[verifier::spinoff_prover]
pub proof fn lemma_product(a: Seq<TokenView>, p: int, b: Seq<TokenView>, q: int)
    requires
        agree(product(a, p), a, p, b, q, 1),
    ensures
        repeats(product(a, p), product(b, q)),
    decreases remaining(a, p), 4nat,
{
    if let Parsed::Done { value, len } = product(a, p) {
        let len = len as int;
        let first = operand(a, p)->len as int;
        let left = operand(a, p)->value;
        assert(operand(a, p) is Done && product(a, p) == product_tail(a, p + first, left).after(
            first as nat,
        )) by {
            reveal(product);
            reveal(operand);
            reveal(product_tail);
        }
        lemma_same_tokens_within(a, p, b, q, len + 1, 0, first + 1);
        lemma_operand(a, p, b, q);
        lemma_same_tokens_within(a, p, b, q, len + 1, first, len - first + 1);
        lemma_product_tail(a, p + first, b, q + first, left);
        assert(product(b, q) == product_tail(b, q + first, left).after(first as nat)) by {
            reveal(product);
            reveal(operand);
            reveal(product_tail);
        }
    }
}

/// The rest of a product is read from its own tokens and the one behind it.
#[verifier::spinoff_prover]
pub proof fn lemma_product_tail(
    a: Seq<TokenView>,
    p: int,
    b: Seq<TokenView>,
    q: int,
    left: ExpressionView,
)
    requires
        agree(product_tail(a, p, left), a, p, b, q, 1),
    ensures
        repeats(product_tail(a, p, left), product_tail(b, q, left)),
    decreases remaining(a, p), 3nat,
{
    if let Parsed::Done { value, len } = product_tail(a, p, left) {
        let len = len as int;
        lemma_same_token(a, p, b, q, len + 1, 0);
        assert(product_op(b, q) == product_op(a, p));
        match product_op(a, p) {
            None => {
                assert(product_tail(b, q, left) == product_tail(a, p, left)) by {
                    reveal(product_tail);
                }
            },
            Some(op) => {
                let first = operand(a, p + 1)->len as int;
                let right = operand(a, p + 1)->value;
                let longer = binary_view(op, left, right);
                assert(operand(a, p + 1) is Done && product_tail(a, p, left) == product_tail(
                    a,
                    p + 1 + first,
                    longer,
                ).after((1 + first) as nat)) by {
                    reveal(product_tail);
                    reveal(operand);
                }
                lemma_same_tokens_within(a, p, b, q, len + 1, 1, first + 1);
                lemma_operand(a, p + 1, b, q + 1);
                lemma_same_tokens_within(a, p, b, q, len + 1, 1 + first, len - first);
                lemma_product_tail(a, p + 1 + first, b, q + 1 + first, longer);
                assert(product_tail(b, q, left) == product_tail(b, q + 1 + first, longer).after(
                    (1 + first) as nat,
                )) by {
                    reveal(product_tail);
                    reveal(operand);
                }
            },
        }
    }
}

/// An operand is read from its own tokens and the one behind it.
#[verifier::spinoff_prover]
pub proof fn lemma_operand(a: Seq<TokenView>, p: int, b: Seq<TokenView>, q: int)
    requires
        agree(operand(a, p), a, p, b, q, 1),
    ensures
        repeats(operand(a, p), operand(b, q)),
    decreases remaining(a, p), 2nat,
{
    if let Parsed::Done { value, len } = operand(a, p) {
        let len = len as int;
        let first = primary(a, p)->len as int;
        let left = primary(a, p)->value;
        assert(primary(a, p) is Done && operand(a, p) == operand_tail(a, p + first, left).after(
            first as nat,
        )) by {
            reveal(operand);
            reveal(primary);
            reveal(operand_tail);
        }
        lemma_same_tokens_within(a, p, b, q, len + 1, 0, first);
        lemma_primary(a, p, b, q);
        lemma_same_tokens_within(a, p, b, q, len + 1, first, len - first + 1);
        lemma_operand_tail(a, p + first, b, q + first, left);
        assert(operand(b, q) == operand_tail(b, q + first, left).after(first as nat)) by {
            reveal(operand);
            reveal(primary);
            reveal(operand_tail);
        }
    }
}

/// The rest of an operand is read from its own tokens and the one behind it.
#[verifier::spinoff_prover]
pub proof fn lemma_operand_tail(
    a: Seq<TokenView>,
    p: int,
    b: Seq<TokenView>,
    q: int,
    left: ExpressionView,
)
    requires
        agree(operand_tail(a, p, left), a, p, b, q, 1),
    ensures
        repeats(operand_tail(a, p, left), operand_tail(b, q, left)),
    decreases remaining(a, p), 1nat,
{
    if let Parsed::Done { value, len } = operand_tail(a, p, left) {
        let len = len as int;
        lemma_same_token(a, p, b, q, len + 1, 0);
        if kind_at(a, p, TokenKind::GuardOperator) {
            let condition = guard(a, p + 1)->value;
            let longer = ExpressionView::Guard(Box::new(left), condition);
            assert(guard(a, p + 1) is Done && operand_tail(a, p, left) == operand_tail(
                a,
                p + 2,
                longer,
            ).after(2)) by {
                reveal(operand_tail);
            }
            assert(p + 1 < a.len());
            lemma_same_token(a, p, b, q, len + 1, 1);
            lemma_one_token(a, p + 1, b, q + 1);
            lemma_same_tokens_within(a, p, b, q, len + 1, 2, len - 1);
            lemma_operand_tail(a, p + 2, b, q + 2, longer);
            assert(operand_tail(b, q, left) == operand_tail(b, q + 2, longer).after(2)) by {
                reveal(operand_tail);
            }
        } else if kind_at(a, p, TokenKind::TimeOperator) {
            let first = primary(a, p + 1)->len as int;
            let right = primary(a, p + 1)->value;
            let longer = ExpressionView::Time(Box::new(left), Box::new(right));
            assert(primary(a, p + 1) is Done && operand_tail(a, p, left) == operand_tail(
                a,
                p + 1 + first,
                longer,
            ).after((1 + first) as nat)) by {
                reveal(operand_tail);
                reveal(primary);
            }
            lemma_same_tokens_within(a, p, b, q, len + 1, 1, first);
            lemma_primary(a, p + 1, b, q + 1);
            lemma_same_tokens_within(a, p, b, q, len + 1, 1 + first, len - first);
            lemma_operand_tail(a, p + 1 + first, b, q + 1 + first, longer);
            assert(operand_tail(b, q, left) == operand_tail(b, q + 1 + first, longer).after(
                (1 + first) as nat,
            )) by {
                reveal(operand_tail);
                reveal(primary);
            }
        } else if kind_at(a, p, TokenKind::PipeOperator) {
            let first = call(a, p + 1)->len as int;
            let target = call(a, p + 1)->value;
            let longer = ExpressionView::Pipe(Box::new(left), target);
            assert(kind_at(a, p + 1, TokenKind::Identifier) && call(a, p + 1) is Done
                && operand_tail(a, p, left) == operand_tail(a, p + 1 + first, longer).after(
                (1 + first) as nat,
            )) by {
                reveal(operand_tail);
                reveal(call);
            }
            lemma_same_token(a, p, b, q, len + 1, 1);
            lemma_same_tokens_within(a, p, b, q, len + 1, 1, first);
            lemma_call(a, p + 1, b, q + 1);
            lemma_same_tokens_within(a, p, b, q, len + 1, 1 + first, len - first);
            lemma_operand_tail(a, p + 1 + first, b, q + 1 + first, longer);
            assert(operand_tail(b, q, left) == operand_tail(b, q + 1 + first, longer).after(
                (1 + first) as nat,
            )) by {
                reveal(operand_tail);
                reveal(call);
            }
        } else {
            assert(operand_tail(b, q, left) == operand_tail(a, p, left)) by {
                reveal(operand_tail);
            }
        }
    }
}

/// A primary is read from its own tokens.
#[verifier::spinoff_prover]
pub proof fn lemma_primary(a: Seq<TokenView>, p: int, b: Seq<TokenView>, q: int)
    requires
        agree(primary(a, p), a, p, b, q, 0),
    ensures
        repeats(primary(a, p), primary(b, q)),
    decreases remaining(a, p), 1nat,
{
    if let Parsed::Done { value, len } = primary(a, p) {
        let len = len as int;
        assert(len >= 1) by {
            reveal(primary);
            reveal(call);
        }
        lemma_same_token(a, p, b, q, len, 0);
        lemma_one_token(a, p, b, q);
        if literal_at(a, p) {
            assert(literal(a, p) is Done) by {
                reveal(primary);
            }
            assert(primary(b, q) == primary(a, p)) by {
                reveal(primary);
            }
        } else if kind_at(a, p, TokenKind::Identifier) {
            assert(call(a, p) is Done && call(a, p)->len == len) by {
                reveal(primary);
                reveal(call);
            }
            lemma_call(a, p, b, q);
            assert(primary(b, q) == primary(a, p)) by {
                reveal(primary);
                reveal(call);
            }
        } else {
            let inner = expression(a, p + 1)->len as int;
            assert(delimiter_at(a, p, "("@) && expression(a, p + 1) is Done && len == inner + 2
                && delimiter_at(a, p + 1 + inner, ")"@)) by {
                reveal(primary);
                reveal(expression);
            }
            lemma_same_tokens_within(a, p, b, q, len, 1, inner + 1);
            lemma_expression(a, p + 1, b, q + 1);
            lemma_same_token(a, p, b, q, len, inner + 1);
            assert(primary(b, q) == primary(a, p)) by {
                reveal(primary);
                reveal(expression);
            }
        }
    }
}

/// A call is read from its own tokens.
#[verifier::spinoff_prover]
pub proof fn lemma_call(a: Seq<TokenView>, p: int, b: Seq<TokenView>, q: int)
    requires
        agree(call(a, p), a, p, b, q, 0),
    ensures
        repeats(call(a, p), call(b, q)),
    decreases remaining(a, p), 0nat,
{
    if let Parsed::Done { value, len } = call(a, p) {
        let len = len as int;
        let inner = call_arguments(a, p + 2)->len as int;
        assert(delimiter_at(a, p + 1, "("@) && call_arguments(a, p + 2) is Done && len == inner
            + 2) by {
            reveal(call);
            reveal(call_arguments);
        }
        lemma_same_token(a, p, b, q, len, 0);
        lemma_same_token(a, p, b, q, len, 1);
        lemma_same_tokens_within(a, p, b, q, len, 2, inner);
        lemma_call_arguments(a, p + 2, b, q + 2);
        assert(call(b, q) == call(a, p)) by {
            reveal(call);
            reveal(call_arguments);
        }
    }
}

/// The arguments of a call are read from their own tokens.
#[verifier::spinoff_prover]
pub proof fn lemma_call_arguments(a: Seq<TokenView>, p: int, b: Seq<TokenView>, q: int)
    requires
        agree(call_arguments(a, p), a, p, b, q, 0),
    ensures
        repeats(call_arguments(a, p), call_arguments(b, q)),
    decreases remaining(a, p), 9nat,
{
    if let Parsed::Done { value, len } = call_arguments(a, p) {
        let len = len as int;
        assert(len >= 1 && (!delimiter_at(a, p, ")"@) ==> call_arguments(a, p) == argument_list(
            a,
            p,
        ))) by {
            reveal(call_arguments);
            reveal(argument_list);
        }
        lemma_same_token(a, p, b, q, len, 0);
        if !delimiter_at(a, p, ")"@) {
            lemma_argument_list(a, p, b, q);
        }
        assert(call_arguments(b, q) == call_arguments(a, p)) by {
            reveal(call_arguments);
            reveal(argument_list);
        }
    }
}

/// A list of arguments is read from its own tokens.
#[verifier::spinoff_prover]
pub proof fn lemma_argument_list(a: Seq<TokenView>, p: int, b: Seq<TokenView>, q: int)
    requires
        agree(argument_list(a, p), a, p, b, q, 0),
    ensures
        repeats(argument_list(a, p), argument_list(b, q)),
    decreases remaining(a, p), 8nat,
{
    if let Parsed::Done { value, len } = argument_list(a, p) {
        let len = len as int;
        let first = expression(a, p)->len as int;
        let closed = delimiter_at(a, p + first, ")"@);
        let rest = argument_list(a, p + first + 1);
        assert(expression(a, p) is Done && p + first < a.len() && len >= first + 1 && (!closed
            ==> delimiter_at(a, p + first, ","@) && rest is Done && len == first + 1
            + rest->len)) by {
            reveal(argument_list);
            reveal(expression);
        }
        lemma_same_tokens_within(a, p, b, q, len, 0, first + 1);
        lemma_expression(a, p, b, q);
        lemma_same_token(a, p, b, q, len, first);
        if !closed {
            lemma_same_tokens_within(a, p, b, q, len, first + 1, len - first - 1);
            lemma_argument_list(a, p + first + 1, b, q + first + 1);
        }
        assert(argument_list(b, q) == argument_list(a, p)) by {
            reveal(argument_list);
            reveal(expression);
        }
    }
}

// ---------------------------------------------------------------------------
// Statements
// ---------------------------------------------------------------------------
/// An expression with its `;` is read from its own tokens.
pub proof fn lemma_terminated_expression(a: Seq<TokenView>, p: int, b: Seq<TokenView>, q: int)
    requires
        agree(terminated_expression(a, p), a, p, b, q, 0),
    ensures
        repeats(terminated_expression(a, p), terminated_expression(b, q)),
{
    if let Parsed::Done { value, len } = terminated_expression(a, p) {
        let len = len as int;
        let inner = expression(a, p)->len as int;
        lemma_expression(a, p, b, q);
        lemma_same_token(a, p, b, q, len, inner);
    }
}

/// An expression with its `do` is read from its own tokens.
pub proof fn lemma_condition(a: Seq<TokenView>, p: int, b: Seq<TokenView>, q: int)
    requires
        agree(condition(a, p), a, p, b, q, 0),
    ensures
        repeats(condition(a, p), condition(b, q)),
{
    if let Parsed::Done { value, len } = condition(a, p) {
        let len = len as int;
        let inner = expression(a, p)->len as int;
        lemma_expression(a, p, b, q);
        lemma_same_token(a, p, b, q, len, inner);
    }
}

/// A list of names is read from its own tokens and the one behind it.
pub proof fn lemma_name_list(a: Seq<TokenView>, p: int, b: Seq<TokenView>, q: int)
    requires
        agree(name_list(a, p), a, p, b, q, 1),
    ensures
        repeats(name_list(a, p), name_list(b, q)),
    decreases remaining(a, p),
{
    if let Parsed::Done { value, len } = name_list(a, p) {
        let len = len as int;
        let more = delimiter_at(a, p + 1, ","@);
        let rest = name_list(a, p + 2);
        assert(kind_at(a, p, TokenKind::Identifier) && len >= 1 && (more ==> rest is Done && len
            == 2 + rest->len)) by {
            reveal(name_list);
        }
        lemma_same_token(a, p, b, q, len + 1, 0);
        lemma_same_token(a, p, b, q, len + 1, 1);
        if more {
            lemma_same_tokens_within(a, p, b, q, len + 1, 2, len - 1);
            lemma_name_list(a, p + 2, b, q + 2);
        }
        assert(name_list(b, q) == name_list(a, p)) by {
            reveal(name_list);
        }
    }
}

/// A simple statement is read from its own tokens: an assignment, a delay, a
/// `store`, a `return` or a call.
pub proof fn lemma_simple_statements(a: Seq<TokenView>, p: int, b: Seq<TokenView>, q: int)
    ensures
        any_assignment_at(a, p) && agree(assignment(a, p), a, p, b, q, 0) ==> repeats(
            assignment(a, p),
            assignment(b, q),
        ),
        agree(delay(a, p), a, p, b, q, 0) ==> repeats(delay(a, p), delay(b, q)),
        agree(store(a, p), a, p, b, q, 0) ==> repeats(store(a, p), store(b, q)),
        agree(return_statement(a, p), a, p, b, q, 0) ==> repeats(
            return_statement(a, p),
            return_statement(b, q),
        ),
        kind_at(a, p, TokenKind::Identifier) && agree(call_statement(a, p), a, p, b, q, 0)
            ==> repeats(call_statement(a, p), call_statement(b, q)),
{
    if any_assignment_at(a, p) && agree(assignment(a, p), a, p, b, q, 0) {
        if let Parsed::Done { value, len } = assignment(a, p) {
            let len = len as int;
            lemma_same_token(a, p, b, q, len, 0);
            lemma_same_token(a, p, b, q, len, 1);
            lemma_same_tokens_within(a, p, b, q, len, 2, len - 2);
            lemma_terminated_expression(a, p + 2, b, q + 2);
        }
    }
    if agree(delay(a, p), a, p, b, q, 0) {
        if let Parsed::Done { value, len } = delay(a, p) {
            lemma_same_token(a, p, b, q, 3, 1);
            lemma_same_token(a, p, b, q, 3, 2);
            lemma_one_token(a, p + 1, b, q + 1);
        }
    }
    if agree(store(a, p), a, p, b, q, 0) {
        if let Parsed::Done { value, len } = store(a, p) {
            let len = len as int;
            let inner = name_list(a, p + 1)->len as int;
            lemma_same_tokens_within(a, p, b, q, len, 1, inner + 1);
            lemma_name_list(a, p + 1, b, q + 1);
            lemma_same_token(a, p, b, q, len, 1 + inner);
        }
    }
    if agree(return_statement(a, p), a, p, b, q, 0) {
        if let Parsed::Done { value, len } = return_statement(a, p) {
            let len = len as int;
            lemma_same_tokens_within(a, p, b, q, len, 1, len - 1);
            lemma_terminated_expression(a, p + 1, b, q + 1);
        }
    }
    if kind_at(a, p, TokenKind::Identifier) && agree(call_statement(a, p), a, p, b, q, 0) {
        if let Parsed::Done { value, len } = call_statement(a, p) {
            let len = len as int;
            let inner = call(a, p)->len as int;
            lemma_same_tokens_within(a, p, b, q, len, 0, inner);
            lemma_call(a, p, b, q);
            lemma_same_token(a, p, b, q, len, inner);
        }
    }
}

/// A list of statements is read from its own tokens and the one behind it.
pub proof fn lemma_statements(a: Seq<TokenView>, p: int, b: Seq<TokenView>, q: int, scope: Scope)
    requires
        agree(statements(a, p, scope), a, p, b, q, 1),
    ensures
        repeats(statements(a, p, scope), statements(b, q, scope)),
    decreases remaining(a, p), 5nat,
{
    if let Parsed::Done { value, len } = statements(a, p, scope) {
        let len = len as int;
        lemma_same_token(a, p, b, q, len + 1, 0);
        lemma_one_token(a, p, b, q);
        assert(closes(b, q, scope) == closes(a, p, scope));
        if closes(a, p, scope) {
            assert(statements(b, q, scope) == statements(a, p, scope)) by {
                reveal(statements);
            }
        } else {
            let first = statement(a, p)->len as int;
            let rest = statements(a, p + first, scope);
            assert(statement(a, p) is Done && first >= 1 && rest is Done && len == first
                + rest->len) by {
                reveal(statements);
                reveal(statement);
            }
            lemma_same_tokens_within(a, p, b, q, len + 1, 0, first);
            lemma_statement(a, p, b, q);
            lemma_same_tokens_within(a, p, b, q, len + 1, first, len - first + 1);
            lemma_statements(a, p + first, b, q + first, scope);
            assert(statements(b, q, scope) == statements(a, p, scope)) by {
                reveal(statements);
                reveal(statement);
            }
        }
    }
}

/// A block is read from its own tokens.
pub proof fn lemma_block(a: Seq<TokenView>, p: int, b: Seq<TokenView>, q: int)
    requires
        agree(block(a, p), a, p, b, q, 0),
    ensures
        repeats(block(a, p), block(b, q)),
    decreases remaining(a, p), 6nat,
{
    if let Parsed::Done { value, len } = block(a, p) {
        let len = len as int;
        let inner = statements(a, p, Scope::Block)->len as int;
        assert(statements(a, p, Scope::Block) is Done && len == inner + 1 && keyword_at(
            a,
            p + inner,
            "end"@,
        )) by {
            reveal(block);
            reveal(statements);
        }
        lemma_statements(a, p, b, q, Scope::Block);
        lemma_same_token(a, p, b, q, len, inner);
        assert(block(b, q) == block(a, p)) by {
            reveal(block);
            reveal(statements);
        }
    }
}

/// A statement takes at least two tokens.
pub proof fn lemma_statement_takes_tokens(a: Seq<TokenView>, p: int)
    ensures
        statement(a, p) matches Parsed::Done { len, .. } ==> 0 <= p < a.len() && 2 <= len,
{
    reveal(statement);
    reveal(if_statement);
    reveal(for_statement);
    reveal(while_statement);
    reveal(match_statement);
    reveal(call);
    reveal(name_list);
}

/// A statement is read from its own tokens.
pub proof fn lemma_statement(a: Seq<TokenView>, p: int, b: Seq<TokenView>, q: int)
    requires
        agree(statement(a, p), a, p, b, q, 0),
    ensures
        repeats(statement(a, p), statement(b, q)),
    decreases remaining(a, p), 4nat,
{
    if let Parsed::Done { value, len } = statement(a, p) {
        let len = len as int;
        lemma_statement_takes_tokens(a, p);
        lemma_same_token(a, p, b, q, len, 0);
        lemma_same_token(a, p, b, q, len, 1);
        assert(any_assignment_at(b, q) == any_assignment_at(a, p));
        assert(statement(a, p) == if any_assignment_at(a, p) {
            assignment(a, p)
        } else if kind_at(a, p, TokenKind::TimeOperator) {
            delay(a, p)
        } else if keyword_at(a, p, "store"@) {
            store(a, p)
        } else if keyword_at(a, p, "if"@) {
            if_statement(a, p)
        } else if keyword_at(a, p, "for"@) {
            for_statement(a, p)
        } else if keyword_at(a, p, "while"@) {
            while_statement(a, p)
        } else if keyword_at(a, p, "match"@) {
            match_statement(a, p)
        } else if keyword_at(a, p, "return"@) {
            return_statement(a, p)
        } else {
            call_statement(a, p)
        }) by {
            reveal(statement);
            reveal(if_statement);
            reveal(for_statement);
            reveal(while_statement);
            reveal(match_statement);
        }
        lemma_simple_statements(a, p, b, q);
        if any_assignment_at(a, p) {
        } else if kind_at(a, p, TokenKind::TimeOperator) {
        } else if keyword_at(a, p, "store"@) {
        } else if keyword_at(a, p, "if"@) {
            lemma_if_statement(a, p, b, q);
        } else if keyword_at(a, p, "for"@) {
            lemma_for_statement(a, p, b, q);
        } else if keyword_at(a, p, "while"@) {
            lemma_while_statement(a, p, b, q);
        } else if keyword_at(a, p, "match"@) {
            lemma_match_statement(a, p, b, q);
        } else if keyword_at(a, p, "return"@) {
        } else {
            assert(kind_at(a, p, TokenKind::Identifier)) by {
                reveal(statement);
            }
        }
        assert(statement(b, q) == statement(a, p)) by {
            reveal(statement);
            reveal(if_statement);
            reveal(for_statement);
            reveal(while_statement);
            reveal(match_statement);
        }
    }
}

/// An `if` is read from its own tokens.
pub proof fn lemma_if_statement(a: Seq<TokenView>, p: int, b: Seq<TokenView>, q: int)
    requires
        agree(if_statement(a, p), a, p, b, q, 0),
    ensures
        repeats(if_statement(a, p), if_statement(b, q)),
    decreases remaining(a, p), 3nat,
{
    if let Parsed::Done { value, len } = if_statement(a, p) {
        let len = len as int;
        let test = condition(a, p + 1);
        let la = test->len as int;
        let body = statements(a, p + 1 + la, Scope::Branch);
        let lb = body->len as int;
        let elif = elif_branches(a, p + 1 + la + lb);
        let lc = elif->len as int;
        let last = else_branch(a, p + 1 + la + lb + lc);
        let ld = last->len as int;
        assert(keyword_at(a, p, "if"@) && test is Done && body is Done && elif is Done
            && last is Done && ld >= 1 && len == 1 + la + lb + lc + ld) by {
            reveal(if_statement);
            reveal(statements);
            reveal(elif_branches);
            reveal(else_branch);
        }
        lemma_same_token(a, p, b, q, len, 0);
        lemma_same_tokens_within(a, p, b, q, len, 1, la);
        lemma_condition(a, p + 1, b, q + 1);
        lemma_same_tokens_within(a, p, b, q, len, 1 + la, lb + 1);
        lemma_statements(a, p + 1 + la, b, q + 1 + la, Scope::Branch);
        lemma_same_tokens_within(a, p, b, q, len, 1 + la + lb, lc + 1);
        lemma_elif_branches(a, p + 1 + la + lb, b, q + 1 + la + lb);
        lemma_same_tokens_within(a, p, b, q, len, 1 + la + lb + lc, ld);
        lemma_else_branch(a, p + 1 + la + lb + lc, b, q + 1 + la + lb + lc);
        assert(if_statement(b, q) == if_statement(a, p)) by {
            reveal(if_statement);
            reveal(statements);
            reveal(elif_branches);
            reveal(else_branch);
        }
    }
}

/// The `elif` branches are read from their own tokens and the one behind them.
pub proof fn lemma_elif_branches(a: Seq<TokenView>, p: int, b: Seq<TokenView>, q: int)
    requires
        agree(elif_branches(a, p), a, p, b, q, 1),
    ensures
        repeats(elif_branches(a, p), elif_branches(b, q)),
    decreases remaining(a, p), 2nat,
{
    if let Parsed::Done { value, len } = elif_branches(a, p) {
        let len = len as int;
        lemma_same_token(a, p, b, q, len + 1, 0);
        if !keyword_at(a, p, "elif"@) {
            assert(elif_branches(b, q) == elif_branches(a, p)) by {
                reveal(elif_branches);
            }
        } else {
            let test = condition(a, p + 1);
            let la = test->len as int;
            let body = statements(a, p + 1 + la, Scope::Branch);
            let lb = body->len as int;
            let rest = elif_branches(a, p + 1 + la + lb);
            assert(test is Done && body is Done && rest is Done && len == 1 + la + lb
                + rest->len) by {
                reveal(elif_branches);
                reveal(statements);
            }
            lemma_same_tokens_within(a, p, b, q, len + 1, 1, la);
            lemma_condition(a, p + 1, b, q + 1);
            lemma_same_tokens_within(a, p, b, q, len + 1, 1 + la, lb + 1);
            lemma_statements(a, p + 1 + la, b, q + 1 + la, Scope::Branch);
            lemma_same_tokens_within(a, p, b, q, len + 1, 1 + la + lb, len - la - lb);
            lemma_elif_branches(a, p + 1 + la + lb, b, q + 1 + la + lb);
            assert(elif_branches(b, q) == elif_branches(a, p)) by {
                reveal(elif_branches);
                reveal(statements);
            }
        }
    }
}

/// The end of an `if` is read from its own tokens.
pub proof fn lemma_else_branch(a: Seq<TokenView>, p: int, b: Seq<TokenView>, q: int)
    requires
        agree(else_branch(a, p), a, p, b, q, 0),
    ensures
        repeats(else_branch(a, p), else_branch(b, q)),
    decreases remaining(a, p), 7nat,
{
    if let Parsed::Done { value, len } = else_branch(a, p) {
        let len = len as int;
        let other = keyword_at(a, p, "else"@);
        assert(len >= 1 && 0 <= p < a.len() && (other ==> block(a, p + 1) is Done && len == 1
            + block(a, p + 1)->len)) by {
            reveal(else_branch);
            reveal(block);
        }
        lemma_same_token(a, p, b, q, len, 0);
        if other {
            lemma_same_tokens_within(a, p, b, q, len, 1, len - 1);
            lemma_block(a, p + 1, b, q + 1);
        }
        assert(else_branch(b, q) == else_branch(a, p)) by {
            reveal(else_branch);
            reveal(block);
        }
    }
}

/// A `for` is read from its own tokens.
pub proof fn lemma_for_statement(a: Seq<TokenView>, p: int, b: Seq<TokenView>, q: int)
    requires
        agree(for_statement(a, p), a, p, b, q, 0),
    ensures
        repeats(for_statement(a, p), for_statement(b, q)),
    decreases remaining(a, p), 3nat,
{
    if let Parsed::Done { value, len } = for_statement(a, p) {
        let len = len as int;
        let body = block(a, p + 5);
        assert(keyword_at(a, p, "for"@) && kind_at(a, p + 1, TokenKind::Identifier) && keyword_at(
            a,
            p + 2,
            "in"@,
        ) && kind_at(a, p + 3, TokenKind::Identifier) && keyword_at(a, p + 4, "do"@)
            && body is Done && len == 5 + body->len) by {
            reveal(for_statement);
            reveal(block);
        }
        lemma_same_token(a, p, b, q, len, 0);
        lemma_same_token(a, p, b, q, len, 1);
        lemma_same_token(a, p, b, q, len, 2);
        lemma_same_token(a, p, b, q, len, 3);
        lemma_same_token(a, p, b, q, len, 4);
        lemma_same_tokens_within(a, p, b, q, len, 5, len - 5);
        lemma_block(a, p + 5, b, q + 5);
        assert(for_statement(b, q) == for_statement(a, p)) by {
            reveal(for_statement);
            reveal(block);
        }
    }
}

/// A `while` is read from its own tokens.
pub proof fn lemma_while_statement(a: Seq<TokenView>, p: int, b: Seq<TokenView>, q: int)
    requires
        agree(while_statement(a, p), a, p, b, q, 0),
    ensures
        repeats(while_statement(a, p), while_statement(b, q)),
    decreases remaining(a, p), 3nat,
{
    if let Parsed::Done { value, len } = while_statement(a, p) {
        let len = len as int;
        let test = condition(a, p + 1);
        let la = test->len as int;
        let body = block(a, p + 1 + la);
        assert(keyword_at(a, p, "while"@) && test is Done && body is Done && len == 1 + la
            + body->len) by {
            reveal(while_statement);
            reveal(block);
        }
        lemma_same_token(a, p, b, q, len, 0);
        lemma_same_tokens_within(a, p, b, q, len, 1, la);
        lemma_condition(a, p + 1, b, q + 1);
        lemma_same_tokens_within(a, p, b, q, len, 1 + la, len - 1 - la);
        lemma_block(a, p + 1 + la, b, q + 1 + la);
        assert(while_statement(b, q) == while_statement(a, p)) by {
            reveal(while_statement);
            reveal(block);
        }
    }
}

/// A `match` is read from its own tokens.
pub proof fn lemma_match_statement(a: Seq<TokenView>, p: int, b: Seq<TokenView>, q: int)
    requires
        agree(match_statement(a, p), a, p, b, q, 0),
    ensures
        repeats(match_statement(a, p), match_statement(b, q)),
    decreases remaining(a, p), 3nat,
{
    if let Parsed::Done { value, len } = match_statement(a, p) {
        let len = len as int;
        let target = condition(a, p + 1);
        let la = target->len as int;
        let cases = match_cases(a, p + 1 + la);
        let lb = cases->len as int;
        let last = default_case(a, p + 1 + la + lb);
        let lc = last->len as int;
        assert(keyword_at(a, p, "match"@) && target is Done && cases is Done && last is Done && lc
            >= 1 && len == 1 + la + lb + lc) by {
            reveal(match_statement);
            reveal(match_cases);
            reveal(default_case);
        }
        lemma_same_token(a, p, b, q, len, 0);
        lemma_same_tokens_within(a, p, b, q, len, 1, la);
        lemma_condition(a, p + 1, b, q + 1);
        lemma_same_tokens_within(a, p, b, q, len, 1 + la, lb + 1);
        lemma_match_cases(a, p + 1 + la, b, q + 1 + la);
        lemma_same_tokens_within(a, p, b, q, len, 1 + la + lb, lc);
        lemma_default_case(a, p + 1 + la + lb, b, q + 1 + la + lb);
        assert(match_statement(b, q) == match_statement(a, p)) by {
            reveal(match_statement);
            reveal(match_cases);
            reveal(default_case);
        }
    }
}

/// The cases of a `match` are read from their own tokens and the one behind
/// them.
pub proof fn lemma_match_cases(a: Seq<TokenView>, p: int, b: Seq<TokenView>, q: int)
    requires
        agree(match_cases(a, p), a, p, b, q, 1),
    ensures
        repeats(match_cases(a, p), match_cases(b, q)),
    decreases remaining(a, p), 2nat,
{
    if let Parsed::Done { value, len } = match_cases(a, p) {
        let len = len as int;
        lemma_same_token(a, p, b, q, len + 1, 0);
        lemma_one_token(a, p, b, q);
        if !literal_at(a, p) {
            assert(match_cases(b, q) == match_cases(a, p)) by {
                reveal(match_cases);
            }
        } else {
            let body = statements(a, p + 2, Scope::Case);
            let lb = body->len as int;
            let rest = match_cases(a, p + 2 + lb);
            assert(literal(a, p) is Done && kind_at(a, p + 1, TokenKind::RightArrow)
                && body is Done && rest is Done && len == 2 + lb + rest->len) by {
                reveal(match_cases);
                reveal(statements);
            }
            lemma_same_token(a, p, b, q, len + 1, 1);
            lemma_same_tokens_within(a, p, b, q, len + 1, 2, lb + 1);
            lemma_statements(a, p + 2, b, q + 2, Scope::Case);
            lemma_same_tokens_within(a, p, b, q, len + 1, 2 + lb, len - 1 - lb);
            lemma_match_cases(a, p + 2 + lb, b, q + 2 + lb);
            assert(match_cases(b, q) == match_cases(a, p)) by {
                reveal(match_cases);
                reveal(statements);
            }
        }
    }
}

/// The end of a `match` is read from its own tokens.
pub proof fn lemma_default_case(a: Seq<TokenView>, p: int, b: Seq<TokenView>, q: int)
    requires
        agree(default_case(a, p), a, p, b, q, 0),
    ensures
        repeats(default_case(a, p), default_case(b, q)),
    decreases remaining(a, p), 7nat,
{
    if let Parsed::Done { value, len } = default_case(a, p) {
        let len = len as int;
        let other = kind_at(a, p, TokenKind::MatchDefaultOperator);
        assert(len >= 1 && 0 <= p < a.len() && (other ==> kind_at(
            a,
            p + 1,
            TokenKind::RightArrow,
        ) && block(a, p + 2) is Done && len == 2 + block(a, p + 2)->len)) by {
            reveal(default_case);
            reveal(block);
        }
        lemma_same_token(a, p, b, q, len, 0);
        if other {
            lemma_same_token(a, p, b, q, len, 1);
            lemma_same_tokens_within(a, p, b, q, len, 2, len - 2);
            lemma_block(a, p + 2, b, q + 2);
        }
        assert(default_case(b, q) == default_case(a, p)) by {
            reveal(default_case);
            reveal(block);
        }
    }
}

// ---------------------------------------------------------------------------
// Declarations
// ---------------------------------------------------------------------------
/// What follows an argument name is read from its own tokens.
pub proof fn lemma_more_argument_names(a: Seq<TokenView>, p: int, b: Seq<TokenView>, q: int)
    requires
        agree(more_argument_names(a, p), a, p, b, q, 0),
    ensures
        repeats(more_argument_names(a, p), more_argument_names(b, q)),
    decreases remaining(a, p),
{
    if let Parsed::Done { value, len } = more_argument_names(a, p) {
        let len = len as int;
        let closed = delimiter_at(a, p, ")"@);
        let rest = more_argument_names(a, p + 2);
        assert(len >= 1 && 0 <= p < a.len() && (!closed ==> len >= 2 && rest is Done && len == 2
            + rest->len)) by {
            reveal(more_argument_names);
        }
        lemma_same_token(a, p, b, q, len, 0);
        if !closed {
            lemma_same_token(a, p, b, q, len, 1);
            lemma_same_tokens_within(a, p, b, q, len, 2, len - 2);
            lemma_more_argument_names(a, p + 2, b, q + 2);
        }
        assert(more_argument_names(b, q) == more_argument_names(a, p)) by {
            reveal(more_argument_names);
        }
    }
}

/// The argument names of a function definition are read from their own tokens.
pub proof fn lemma_argument_names(a: Seq<TokenView>, p: int, b: Seq<TokenView>, q: int)
    requires
        agree(argument_names(a, p), a, p, b, q, 0),
    ensures
        repeats(argument_names(a, p), argument_names(b, q)),
{
    if let Parsed::Done { value, len } = argument_names(a, p) {
        let len = len as int;
        lemma_same_token(a, p, b, q, len, 0);
        lemma_same_token(a, p, b, q, len, 1);
        if kind_at(a, p + 1, TokenKind::Identifier) {
            lemma_same_tokens_within(a, p, b, q, len, 2, len - 2);
            lemma_more_argument_names(a, p + 2, b, q + 2);
        }
    }
}

/// A function definition is read from its own tokens.
pub proof fn lemma_function_declaration(a: Seq<TokenView>, p: int, b: Seq<TokenView>, q: int)
    requires
        agree(function_declaration(a, p), a, p, b, q, 0),
    ensures
        repeats(function_declaration(a, p), function_declaration(b, q)),
{
    if let Parsed::Done { value, len } = function_declaration(a, p) {
        let len = len as int;
        let la = argument_names(a, p + 2)->len as int;
        lemma_same_token(a, p, b, q, len, 1);
        lemma_same_tokens_within(a, p, b, q, len, 2, la);
        lemma_argument_names(a, p + 2, b, q + 2);
        lemma_same_tokens_within(a, p, b, q, len, 2 + la, len - 2 - la);
        lemma_block(a, p + 2 + la, b, q + 2 + la);
    }
}

/// A record declaration is read from its own tokens.
pub proof fn lemma_record_declaration(a: Seq<TokenView>, p: int, b: Seq<TokenView>, q: int)
    requires
        agree(record_declaration(a, p), a, p, b, q, 0),
    ensures
        repeats(record_declaration(a, p), record_declaration(b, q)),
{
    if let Parsed::Done { value, len } = record_declaration(a, p) {
        let len = len as int;
        lemma_same_token(a, p, b, q, len, 1);
        lemma_same_token(a, p, b, q, len, 2);
        lemma_same_token(a, p, b, q, len, 3);
        lemma_one_token(a, p + 3, b, q + 3);
        lemma_same_token(a, p, b, q, len, 4);
        lemma_same_token(a, p, b, q, len, 5);
        if delimiter_at(a, p + 4, ","@) {
            lemma_one_token(a, p + 5, b, q + 5);
            lemma_same_token(a, p, b, q, len, 6);
            lemma_same_token(a, p, b, q, len, 7);
        }
    }
}

/// A task declaration is read from its own tokens.
pub proof fn lemma_task_declaration(a: Seq<TokenView>, p: int, b: Seq<TokenView>, q: int)
    requires
        agree(task_declaration(a, p), a, p, b, q, 0),
    ensures
        repeats(task_declaration(a, p), task_declaration(b, q)),
{
    if let Parsed::Done { value, len } = task_declaration(a, p) {
        let len = len as int;
        let la = task_interval(a, p + 2)->len as int;
        assert(block(a, p + 2 + la) is Done && block(a, p + 2 + la)->len >= 1 && len == 2 + la
            + block(a, p + 2 + la)->len) by {
            reveal(block);
        }
        lemma_same_token(a, p, b, q, len, 1);
        lemma_same_token(a, p, b, q, len, 2);
        if kind_at(a, p + 2, TokenKind::TimeOperator) {
            lemma_same_token(a, p, b, q, len, 3);
            lemma_one_token(a, p + 3, b, q + 3);
        }
        lemma_same_tokens_within(a, p, b, q, len, 2 + la, len - 2 - la);
        lemma_block(a, p + 2 + la, b, q + 2 + la);
    }
}

/// A handler declaration is read from its own tokens.
pub proof fn lemma_when_declaration(a: Seq<TokenView>, p: int, b: Seq<TokenView>, q: int)
    requires
        agree(when_declaration(a, p), a, p, b, q, 0),
    ensures
        repeats(when_declaration(a, p), when_declaration(b, q)),
{
    if let Parsed::Done { value, len } = when_declaration(a, p) {
        let len = len as int;
        lemma_same_token(a, p, b, q, len, 1);
        lemma_same_token(a, p, b, q, len, 2);
        lemma_same_token(a, p, b, q, len, 3);
        lemma_same_token(a, p, b, q, len, 4);
        lemma_same_token(a, p, b, q, len, 5);
        lemma_one_token(a, p + 5, b, q + 5);
        lemma_same_tokens_within(a, p, b, q, len, 6, len - 6);
        lemma_block(a, p + 6, b, q + 6);
    }
}

/// A declaration is read from its own tokens: what it parses to does not
/// depend on what stands before or behind it.
pub proof fn lemma_declaration(a: Seq<TokenView>, p: int, b: Seq<TokenView>, q: int)
    requires
        agree(declaration(a, p), a, p, b, q, 0),
    ensures
        repeats(declaration(a, p), declaration(b, q)),
{
    if let Parsed::Done { value, len } = declaration(a, p) {
        let len = len as int;
        lemma_same_token(a, p, b, q, len, 0);
        if keyword_at(a, p, "function"@) {
            lemma_function_declaration(a, p, b, q);
        } else if keyword_at(a, p, "record"@) {
            lemma_record_declaration(a, p, b, q);
        } else if keyword_at(a, p, "task"@) {
            lemma_task_declaration(a, p, b, q);
        } else {
            lemma_when_declaration(a, p, b, q);
        }
    }
}

/// A declaration lies inside the input.
pub proof fn lemma_declaration_inside(a: Seq<TokenView>, p: int)
    ensures
        declaration(a, p) matches Parsed::Done { len, .. } ==> 0 <= p && 2 <= len && p + len
            <= a.len(),
{
    reveal(block);
}

/// The declarations up to the end of the input are read from their own
/// tokens.
pub proof fn lemma_declarations(a: Seq<TokenView>, p: int, b: Seq<TokenView>, q: int)
    requires
        0 <= p <= a.len(),
        same_tokens(a, p, b, q, a.len() - p),
        q + (a.len() - p) == b.len(),
    ensures
        repeats(declarations(a, p), declarations(b, q)),
    decreases a.len() - p,
{
    if let Parsed::Done { value, len } = declarations(a, p) {
        if p >= a.len() {
            assert(declarations(b, q) == declarations(a, p)) by {
                reveal(declarations);
            }
        } else {
            let first = declaration(a, p)->len as int;
            let rest = declarations(a, p + first);
            assert(declaration(a, p) is Done && rest is Done) by {
                reveal(declarations);
            }
            lemma_declaration_inside(a, p);
            lemma_same_tokens_within(a, p, b, q, a.len() - p, 0, first);
            lemma_declaration(a, p, b, q);
            lemma_same_tokens_within(a, p, b, q, a.len() - p, first, a.len() - p - first);
            lemma_declarations(a, p + first, b, q + first);
            assert(declarations(b, q) == declarations(a, p)) by {
                reveal(declarations);
            }
        }
    }
}

} // verus!
