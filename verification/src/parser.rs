//! Tree construction: recursive descent over the flat token sequence,
//! honoring operator precedence (`* /` bind tighter than `+ -`),
//! left-associativity, and parenthesized grouping, and detecting
//! parenthesis mismatch.

use vstd::prelude::*;

use crate::render::spec_token_seq;
use crate::token::CalculatorError;
use crate::token::EvaluationNode;
use crate::token::Operator;
use crate::token::Token;

verus! {

/// `pos`, raised to `floor` if it fell short. The parse functions
/// always advance past at least one token; this floor makes that
/// visible to the termination checker inside the spec definitions.
pub open spec fn at_least(pos: int, floor: int) -> int {
    if pos < floor {
        floor
    } else {
        pos
    }
}

/// The position where parsing resumes after a sub-parse that ended at
/// `after`: raised to `floor` and capped at `len`. The parse functions
/// only ever return positions inside those bounds, so on their results
/// this is `after` itself; the bounds keep the recursive spec
/// definitions well-founded.
pub open spec fn next_position(after: int, floor: int, len: int) -> int {
    if at_least(after, floor) > len {
        len
    } else {
        at_least(after, floor)
    }
}

/// The token standing before position `pos`, with the virtual
/// `BeginParenthesis` standing before the first token.
pub open spec fn token_before(tokens: Seq<Token>, pos: int) -> Token {
    if 0 < pos <= tokens.len() {
        tokens[pos - 1]
    } else {
        Token::BeginParenthesis
    }
}

/// Parsing one factor at `pos`: a number becomes a leaf; a
/// `BeginParenthesis` opens a nested expression that must be closed by
/// a matching `EndParenthesis`. On success the new position stands
/// just past what was consumed.
pub open spec fn spec_parse_factor(
    tokens: Seq<Token>,
    pos: int,
) -> Result<(EvaluationNode, int), CalculatorError>
    decreases tokens.len() - pos, 0int,
{
    if pos < 0 || pos >= tokens.len() {
        Err(CalculatorError::UnexpectedEndOfInput)
    } else {
        match tokens[pos] {
            Token::Number(value) => Ok((EvaluationNode::Number(value), pos + 1)),
            Token::BeginParenthesis => match spec_parse_expression(tokens, pos + 1) {
                Err(e) => Err(e),
                Ok((inner, after)) => {
                    let stop = at_least(after, pos + 2);
                    if stop >= tokens.len() {
                        Err(CalculatorError::UnbalancedParenthesis)
                    } else if tokens[stop] is EndParenthesis {
                        Ok((inner, stop + 1))
                    } else {
                        Err(
                            CalculatorError::InvalidTokenSequence(
                                token_before(tokens, stop),
                                tokens[stop],
                            ),
                        )
                    }
                },
            },
            Token::EndParenthesis => Err(CalculatorError::UnbalancedParenthesis),
            Token::Operator(_) => Err(
                CalculatorError::InvalidTokenSequence(token_before(tokens, pos), tokens[pos]),
            ),
        }
    }
}

/// Parsing one term at `pos`: a factor, extended left-associatively by
/// every directly following `*` or `/` factor.
pub open spec fn spec_parse_term(
    tokens: Seq<Token>,
    pos: int,
) -> Result<(EvaluationNode, int), CalculatorError>
    decreases tokens.len() - pos, 1int,
{
    if pos < 0 || pos >= tokens.len() {
        Err(CalculatorError::UnexpectedEndOfInput)
    } else {
        match spec_parse_factor(tokens, pos) {
            Err(e) => Err(e),
            Ok((first, after)) => spec_append_factors(
                tokens,
                next_position(after, pos + 1, tokens.len() as int),
                first,
            ),
        }
    }
}

/// The left-associative fold at term level: while the token at `pos`
/// is `*` or `/`, the next factor is appended as the right child of a
/// new root.
pub open spec fn spec_append_factors(
    tokens: Seq<Token>,
    pos: int,
    left: EvaluationNode,
) -> Result<(EvaluationNode, int), CalculatorError>
    decreases tokens.len() - pos, 3int,
{
    if pos < 0 || pos >= tokens.len() {
        Ok((left, pos))
    } else {
        match tokens[pos] {
            Token::Operator(op) => {
                if op is Multiply || op is Divide {
                    match spec_parse_factor(tokens, pos + 1) {
                        Err(e) => Err(e),
                        Ok((right, after)) => spec_append_factors(
                            tokens,
                            next_position(after, pos + 2, tokens.len() as int),
                            EvaluationNode::Complex(Box::new(left), op, Box::new(right)),
                        ),
                    }
                } else {
                    Ok((left, pos))
                }
            },
            _ => Ok((left, pos)),
        }
    }
}

/// Parsing one expression at `pos`: a term, extended left-associatively
/// by every directly following `+` or `-` term.
pub open spec fn spec_parse_expression(
    tokens: Seq<Token>,
    pos: int,
) -> Result<(EvaluationNode, int), CalculatorError>
    decreases tokens.len() - pos, 2int,
{
    if pos < 0 || pos >= tokens.len() {
        Err(CalculatorError::UnexpectedEndOfInput)
    } else {
        match spec_parse_term(tokens, pos) {
            Err(e) => Err(e),
            Ok((first, after)) => spec_append_to_tree(
                tokens,
                next_position(after, pos + 1, tokens.len() as int),
                first,
            ),
        }
    }
}

/// The left-associative fold at expression level: while the token at
/// `pos` is `+` or `-`, the next term is appended as the right child
/// of a new root.
pub open spec fn spec_append_to_tree(
    tokens: Seq<Token>,
    pos: int,
    left: EvaluationNode,
) -> Result<(EvaluationNode, int), CalculatorError>
    decreases tokens.len() - pos, 3int,
{
    if pos < 0 || pos >= tokens.len() {
        Ok((left, pos))
    } else {
        match tokens[pos] {
            Token::Operator(op) => {
                if op is Add || op is Subtract {
                    match spec_parse_term(tokens, pos + 1) {
                        Err(e) => Err(e),
                        Ok((right, after)) => spec_append_to_tree(
                            tokens,
                            next_position(after, pos + 2, tokens.len() as int),
                            EvaluationNode::Complex(Box::new(left), op, Box::new(right)),
                        ),
                    }
                } else {
                    Ok((left, pos))
                }
            },
            _ => Ok((left, pos)),
        }
    }
}

/// What building the tree from a whole token sequence yields: the
/// top-level expression parse, which must consume every token. A
/// leftover `EndParenthesis` is a close without an open; any other
/// leftover token is an adjacency violation, reported with the exact
/// pair.
pub open spec fn spec_build_tree(tokens: Seq<Token>) -> Result<
    EvaluationNode,
    CalculatorError,
> {
    match spec_parse_expression(tokens, 0) {
        Err(e) => Err(e),
        Ok((tree, after)) => {
            let stop = at_least(after, 1);
            if stop >= tokens.len() {
                Ok(tree)
            } else if tokens[stop] is EndParenthesis {
                Err(CalculatorError::UnbalancedParenthesis)
            } else {
                Err(
                    CalculatorError::InvalidTokenSequence(
                        token_before(tokens, stop),
                        tokens[stop],
                    ),
                )
            }
        },
    }
}

/// The view of an executable parse result.
pub open spec fn parse_result_view(
    r: Result<(EvaluationNode, usize), CalculatorError>,
) -> Result<(EvaluationNode, int), CalculatorError> {
    match r {
        Ok((tree, after)) => Ok((tree, after as int)),
        Err(e) => Err(e),
    }
}

/// Parses one factor: a `Number` leaf, or a parenthesized expression.
pub fn parse_factor(tokens: &Vec<Token>, pos: usize) -> (result: Result<
    (EvaluationNode, usize),
    CalculatorError,
>)
    ensures
        parse_result_view(result) == spec_parse_factor(tokens@, pos as int),
        result matches Ok((_, after)) ==> pos < after <= tokens@.len(),
    decreases tokens@.len() - pos, 0int,
{
    if pos >= tokens.len() {
        return Err(CalculatorError::UnexpectedEndOfInput);
    }
    match tokens[pos] {
        Token::Number(value) => Ok((EvaluationNode::Number(value), pos + 1)),
        Token::BeginParenthesis => {
            match parse_expression(tokens, pos + 1) {
                Err(e) => Err(e),
                Ok((inner, stop)) => {
                    if stop == tokens.len() {
                        Err(CalculatorError::UnbalancedParenthesis)
                    } else {
                        match tokens[stop] {
                            Token::EndParenthesis => Ok((inner, stop + 1)),
                            _ => Err(
                                CalculatorError::InvalidTokenSequence(
                                    tokens[stop - 1],
                                    tokens[stop],
                                ),
                            ),
                        }
                    }
                },
            }
        },
        Token::EndParenthesis => Err(CalculatorError::UnbalancedParenthesis),
        Token::Operator(_) => {
            let prev = if pos == 0 {
                Token::BeginParenthesis
            } else {
                tokens[pos - 1]
            };
            Err(CalculatorError::InvalidTokenSequence(prev, tokens[pos]))
        },
    }
}

/// Parses one term: a factor and every directly following `*` or `/`
/// factor, folded left-associatively.
pub fn parse_term(tokens: &Vec<Token>, pos: usize) -> (result: Result<
    (EvaluationNode, usize),
    CalculatorError,
>)
    ensures
        parse_result_view(result) == spec_parse_term(tokens@, pos as int),
        result matches Ok((_, after)) ==> pos < after <= tokens@.len(),
    decreases tokens@.len() - pos, 1int,
{
    match parse_factor(tokens, pos) {
        Err(e) => Err(e),
        Ok((first, after)) => append_factors(tokens, after, first),
    }
}

/// Folds every directly following `*` or `/` factor onto `left`.
pub fn append_factors(tokens: &Vec<Token>, pos: usize, left: EvaluationNode) -> (result: Result<
    (EvaluationNode, usize),
    CalculatorError,
>)
    ensures
        parse_result_view(result) == spec_append_factors(tokens@, pos as int, left),
        result matches Ok((_, after)) ==> pos <= after && (pos <= tokens@.len() ==> after
            <= tokens@.len()),
    decreases tokens@.len() - pos, 3int,
{
    if pos >= tokens.len() {
        return Ok((left, pos));
    }
    match tokens[pos] {
        Token::Operator(op) => {
            if matches!(op, Operator::Multiply | Operator::Divide) {
                match parse_factor(tokens, pos + 1) {
                    Err(e) => Err(e),
                    Ok((right, after)) => append_factors(
                        tokens,
                        after,
                        EvaluationNode::Complex(Box::new(left), op, Box::new(right)),
                    ),
                }
            } else {
                Ok((left, pos))
            }
        },
        _ => Ok((left, pos)),
    }
}

/// Parses one expression: a term and every directly following `+` or
/// `-` term, folded left-associatively.
pub fn parse_expression(tokens: &Vec<Token>, pos: usize) -> (result: Result<
    (EvaluationNode, usize),
    CalculatorError,
>)
    ensures
        parse_result_view(result) == spec_parse_expression(tokens@, pos as int),
        result matches Ok((_, after)) ==> pos < after <= tokens@.len(),
    decreases tokens@.len() - pos, 2int,
{
    match parse_term(tokens, pos) {
        Err(e) => Err(e),
        Ok((first, after)) => append_to_tree(tokens, after, first),
    }
}

/// Folds every directly following `+` or `-` term onto `left`: the
/// tree built so far becomes the left child of a new root, which keeps
/// same-precedence chains left-associative.
pub fn append_to_tree(tokens: &Vec<Token>, pos: usize, left: EvaluationNode) -> (result: Result<
    (EvaluationNode, usize),
    CalculatorError,
>)
    ensures
        parse_result_view(result) == spec_append_to_tree(tokens@, pos as int, left),
        result matches Ok((_, after)) ==> pos <= after && (pos <= tokens@.len() ==> after
            <= tokens@.len()),
    decreases tokens@.len() - pos, 3int,
{
    if pos >= tokens.len() {
        return Ok((left, pos));
    }
    match tokens[pos] {
        Token::Operator(op) => {
            if matches!(op, Operator::Add | Operator::Subtract) {
                match parse_term(tokens, pos + 1) {
                    Err(e) => Err(e),
                    Ok((right, after)) => append_to_tree(
                        tokens,
                        after,
                        EvaluationNode::Complex(Box::new(left), op, Box::new(right)),
                    ),
                }
            } else {
                Ok((left, pos))
            }
        },
        _ => Ok((left, pos)),
    }
}

/// Builds the binary expression tree for the whole token sequence,
/// honoring precedence and grouping, and detecting parenthesis
/// mismatch: an open without a close, or a close without an open,
/// fails with `UnbalancedParenthesis`.
pub fn build_tree(tokens: Vec<Token>) -> (result: Result<EvaluationNode, CalculatorError>)
    ensures
        result == spec_build_tree(tokens@),
{
    match parse_expression(&tokens, 0) {
        Err(e) => Err(e),
        Ok((tree, stop)) => {
            if stop == tokens.len() {
                Ok(tree)
            } else {
                match tokens[stop] {
                    Token::EndParenthesis => Err(CalculatorError::UnbalancedParenthesis),
                    _ => Err(
                        CalculatorError::InvalidTokenSequence(tokens[stop - 1], tokens[stop]),
                    ),
                }
            }
        },
    }
}

proof fn lemma_token_seq_len(node: EvaluationNode)
    ensures
        spec_token_seq(node).len() >= 1,
{
    match node {
        EvaluationNode::Number(_) => {},
        EvaluationNode::Complex(_, _, _) => {},
    }
}

proof fn lemma_parse_embedded_token_seq(tokens: Seq<Token>, pos: int, node: EvaluationNode)
    requires
        0 <= pos,
        pos + spec_token_seq(node).len() <= tokens.len(),
        tokens.subrange(pos, pos + spec_token_seq(node).len() as int) == spec_token_seq(node),
    ensures
        spec_parse_factor(tokens, pos) == Ok::<_, CalculatorError>(
            (node, pos + spec_token_seq(node).len()),
        ),
    decreases node,
{
    let ts = spec_token_seq(node);
    assert(forall|k: int| 0 <= k < ts.len() ==> tokens[pos + k] == #[trigger] ts[k]);
    match node {
        EvaluationNode::Number(value) => {
            assert(tokens[pos] == Token::Number(value));
        },
        EvaluationNode::Complex(left, op, right) => {
            let l = spec_token_seq(*left);
            let r = spec_token_seq(*right);
            lemma_token_seq_len(*left);
            lemma_token_seq_len(*right);
            let nl = l.len() as int;
            let nr = r.len() as int;
            assert(ts.len() == nl + nr + 3);
            assert(ts[0] == Token::BeginParenthesis);
            assert(forall|k: int| 0 <= k < nl ==> #[trigger] ts[1 + k] == l[k]);
            assert(ts[1 + nl] == Token::Operator(op));
            assert(forall|k: int| 0 <= k < nr ==> #[trigger] ts[2 + nl + k] == r[k]);
            assert(ts[2 + nl + nr] == Token::EndParenthesis);
            assert forall|k: int| 0 <= k < nl implies tokens.subrange(pos + 1, pos + 1 + nl)[k]
                == l[k] by {
                assert(tokens[pos + (1 + k)] == ts[1 + k]);
            }
            assert(tokens.subrange(pos + 1, pos + 1 + nl) =~= l);
            lemma_parse_embedded_token_seq(tokens, pos + 1, *left);
            let p1 = pos + 1 + nl;
            assert(tokens[p1] == Token::Operator(op)) by {
                assert(tokens[pos + (1 + nl)] == ts[1 + nl]);
            }
            assert forall|k: int| 0 <= k < nr implies tokens.subrange(p1 + 1, p1 + 1 + nr)[k]
                == r[k] by {
                assert(tokens[pos + (2 + nl + k)] == ts[2 + nl + k]);
            }
            assert(tokens.subrange(p1 + 1, p1 + 1 + nr) =~= r);
            lemma_parse_embedded_token_seq(tokens, p1 + 1, *right);
            let p2 = p1 + 1 + nr;
            assert(tokens[p2] == Token::EndParenthesis) by {
                assert(tokens[pos + (2 + nl + nr)] == ts[2 + nl + nr]);
            }
            let rebuilt = EvaluationNode::Complex(Box::new(*left), op, Box::new(*right));
            assert(rebuilt == node);
            if op is Multiply || op is Divide {
                assert(spec_append_factors(tokens, p2, rebuilt) == Ok::<_, CalculatorError>(
                    (rebuilt, p2),
                ));
                assert(spec_append_factors(tokens, p1, *left) == Ok::<_, CalculatorError>(
                    (rebuilt, p2),
                ));
                assert(spec_parse_term(tokens, pos + 1) == Ok::<_, CalculatorError>(
                    (rebuilt, p2),
                ));
                assert(spec_append_to_tree(tokens, p2, rebuilt) == Ok::<_, CalculatorError>(
                    (rebuilt, p2),
                ));
                assert(spec_parse_expression(tokens, pos + 1) == Ok::<_, CalculatorError>(
                    (rebuilt, p2),
                ));
            } else {
                assert(spec_append_factors(tokens, p1, *left) == Ok::<_, CalculatorError>(
                    (*left, p1),
                ));
                assert(spec_parse_term(tokens, pos + 1) == Ok::<_, CalculatorError>(
                    (*left, p1),
                ));
                assert(spec_append_factors(tokens, p2, *right) == Ok::<_, CalculatorError>(
                    (*right, p2),
                ));
                assert(spec_parse_term(tokens, p1 + 1) == Ok::<_, CalculatorError>(
                    (*right, p2),
                ));
                assert(spec_append_to_tree(tokens, p2, rebuilt) == Ok::<_, CalculatorError>(
                    (rebuilt, p2),
                ));
                assert(spec_append_to_tree(tokens, p1, *left) == Ok::<_, CalculatorError>(
                    (rebuilt, p2),
                ));
                assert(spec_parse_expression(tokens, pos + 1) == Ok::<_, CalculatorError>(
                    (rebuilt, p2),
                ));
            }
            assert(spec_parse_factor(tokens, pos) == Ok::<_, CalculatorError>(
                (node, p2 + 1),
            ));
        },
    }
}

/// Re-building from the token sequence of a tree reproduces exactly
/// that tree: the tree builder inverts serialization.
pub proof fn lemma_build_token_seq(node: EvaluationNode)
    ensures
        spec_build_tree(spec_token_seq(node)) == Ok::<_, CalculatorError>(node),
{
    let ts = spec_token_seq(node);
    lemma_token_seq_len(node);
    assert(ts.subrange(0, ts.len() as int) =~= ts);
    lemma_parse_embedded_token_seq(ts, 0, node);
    let total = ts.len() as int;
    assert(spec_parse_factor(ts, 0) == Ok::<_, CalculatorError>((node, total)));
    assert(spec_append_factors(ts, total, node) == Ok::<_, CalculatorError>((node, total)));
    assert(spec_parse_term(ts, 0) == Ok::<_, CalculatorError>((node, total)));
    assert(spec_append_to_tree(ts, total, node) == Ok::<_, CalculatorError>((node, total)));
    assert(spec_parse_expression(ts, 0) == Ok::<_, CalculatorError>((node, total)));
}

} // verus!
