//! Token-sequence validation: one pass over the tokens checking the
//! grammar's adjacency rule, with a virtual `BeginParenthesis`
//! standing before the first token.

use vstd::prelude::*;

use crate::render::spec_token_seq;
use crate::token::CalculatorError;
use crate::token::EvaluationNode;
use crate::token::Token;
use crate::token::spec_category;
use crate::token::token_allowed_after;

verus! {

/// The walk from position `i` onward, with `prev` the token before
/// position `i` (or the virtual `BeginParenthesis` at the start). It
/// stops at the first adjacent pair that breaks the allowed-successor
/// table.
pub open spec fn spec_validate_from(
    tokens: Seq<Token>,
    prev: Token,
    i: int,
) -> Result<(), CalculatorError>
    decreases tokens.len() - i,
{
    if i < 0 || i >= tokens.len() {
        Ok(())
    } else if !token_allowed_after(prev, tokens[i]) {
        Err(CalculatorError::InvalidTokenSequence(prev, tokens[i]))
    } else {
        spec_validate_from(tokens, tokens[i], i + 1)
    }
}

/// What validating a token sequence yields: `EmptyStatement` on zero
/// tokens, otherwise the first adjacency violation, if any.
pub open spec fn spec_validate(tokens: Seq<Token>) -> Result<(), CalculatorError> {
    if tokens.len() == 0 {
        Err(CalculatorError::EmptyStatement)
    } else {
        spec_validate_from(tokens, Token::BeginParenthesis, 0)
    }
}

/// Checks that the token sequence is structurally well-formed: fails
/// with `EmptyStatement` on zero tokens, and with
/// `InvalidTokenSequence` carrying the exact pair at the first
/// adjacency violation.
pub fn validate_token_sequence(tokens: &Vec<Token>) -> (result: Result<(), CalculatorError>)
    ensures
        result == spec_validate(tokens@),
        tokens@.len() == 0 ==> result == Err::<(), CalculatorError>(
            CalculatorError::EmptyStatement,
        ),
{
    if tokens.len() == 0 {
        return Err(CalculatorError::EmptyStatement);
    }
    let mut prev_token = Token::BeginParenthesis;
    let mut i: usize = 0;
    while i < tokens.len()
        invariant
            i <= tokens@.len(),
            spec_validate(tokens@) == spec_validate_from(tokens@, prev_token, i as int),
        decreases tokens@.len() - i,
    {
        let current_token = tokens[i];
        if !crate::token::successor_allowed(&prev_token, &current_token) {
            return Err(CalculatorError::InvalidTokenSequence(prev_token, current_token));
        }
        prev_token = current_token;
        i = i + 1;
    }
    Ok(())
}

proof fn lemma_validate_from_ok(tokens: Seq<Token>, prev: Token, i: int)
    requires
        0 <= i <= tokens.len(),
        i < tokens.len() ==> token_allowed_after(prev, tokens[i]),
        forall|j: int|
            i <= j < tokens.len() - 1 ==> token_allowed_after(#[trigger] tokens[j], tokens[j + 1]),
    ensures
        spec_validate_from(tokens, prev, i) == Ok::<(), CalculatorError>(()),
    decreases tokens.len() - i,
{
    if i < tokens.len() {
        lemma_validate_from_ok(tokens, tokens[i], i + 1);
    }
}

proof fn lemma_validate_from_pairs(tokens: Seq<Token>, prev: Token, i: int)
    requires
        0 <= i <= tokens.len(),
        spec_validate_from(tokens, prev, i) == Ok::<(), CalculatorError>(()),
    ensures
        i < tokens.len() ==> token_allowed_after(prev, tokens[i]),
        forall|j: int|
            i <= j < tokens.len() - 1 ==> token_allowed_after(#[trigger] tokens[j], tokens[j + 1]),
    decreases tokens.len() - i,
{
    if i < tokens.len() {
        lemma_validate_from_pairs(tokens, tokens[i], i + 1);
    }
}

/// A token sequence passes validation exactly when it is non-empty,
/// begins with a token that may legally open an expression, and holds
/// no adjacent pair that breaks the allowed-successor table.
pub proof fn lemma_validate_ok_characterization(tokens: Seq<Token>)
    ensures
        spec_validate(tokens) == Ok::<(), CalculatorError>(()) <==> {
            &&& tokens.len() > 0
            &&& token_allowed_after(Token::BeginParenthesis, tokens[0])
            &&& forall|j: int|
                0 <= j < tokens.len() - 1 ==> token_allowed_after(
                    #[trigger] tokens[j],
                    tokens[j + 1],
                )
        },
{
    if tokens.len() > 0 {
        if spec_validate(tokens) == Ok::<(), CalculatorError>(()) {
            lemma_validate_from_pairs(tokens, Token::BeginParenthesis, 0);
        } else {
            if token_allowed_after(Token::BeginParenthesis, tokens[0]) && (forall|j: int|
                0 <= j < tokens.len() - 1 ==> token_allowed_after(
                    #[trigger] tokens[j],
                    tokens[j + 1],
                )) {
                lemma_validate_from_ok(tokens, Token::BeginParenthesis, 0);
            }
        }
    }
}

proof fn lemma_token_seq_shape(node: EvaluationNode)
    ensures
        spec_token_seq(node).len() >= 1,
        spec_category(spec_token_seq(node).first()) is NumberLike || spec_category(
            spec_token_seq(node).first(),
        ) is GroupOpen,
        spec_category(spec_token_seq(node).last()) is NumberLike || spec_category(
            spec_token_seq(node).last(),
        ) is GroupClose,
        forall|j: int|
            0 <= j < spec_token_seq(node).len() - 1 ==> token_allowed_after(
                #[trigger] spec_token_seq(node)[j],
                spec_token_seq(node)[j + 1],
            ),
    decreases node,
{
    match node {
        EvaluationNode::Number(_) => {},
        EvaluationNode::Complex(left, op, right) => {
            lemma_token_seq_shape(*left);
            lemma_token_seq_shape(*right);
            let ts = spec_token_seq(node);
            let l = spec_token_seq(*left);
            let r = spec_token_seq(*right);
            assert(ts.len() == l.len() + r.len() + 3);
            assert forall|j: int| 0 <= j < ts.len() - 1 implies token_allowed_after(
                #[trigger] ts[j],
                ts[j + 1],
            ) by {
                if j == 0 {
                    assert(ts[0] == Token::BeginParenthesis);
                    assert(ts[1] == l.first());
                } else if j < l.len() {
                    assert(ts[j] == l[j - 1]);
                    assert(ts[j + 1] == l[j]);
                } else if j == l.len() {
                    assert(ts[j] == l.last());
                    assert(ts[j + 1] == Token::Operator(op));
                } else if j == l.len() + 1 {
                    assert(ts[j] == Token::Operator(op));
                    assert(ts[j + 1] == r.first());
                } else if j < l.len() + 1 + r.len() {
                    assert(ts[j] == r[j - l.len() - 2]);
                    assert(ts[j + 1] == r[j - l.len() - 1]);
                } else {
                    assert(ts[j] == r.last());
                    assert(ts[j + 1] == Token::EndParenthesis);
                }
            }
            assert(ts.first() == Token::BeginParenthesis);
            assert(ts.last() == Token::EndParenthesis);
        },
    }
}

/// The token sequence of every tree passes sequence validation: what
/// the renderer writes, the pipeline accepts.
pub proof fn lemma_token_seq_validates(node: EvaluationNode)
    ensures
        spec_validate(spec_token_seq(node)) == Ok::<(), CalculatorError>(()),
{
    lemma_token_seq_shape(node);
    let ts = spec_token_seq(node);
    assert(token_allowed_after(Token::BeginParenthesis, ts[0]));
    lemma_validate_from_ok(ts, Token::BeginParenthesis, 0);
}

} // verus!
