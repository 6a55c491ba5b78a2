//! A verified calculator for arithmetic expressions given as text.

use vstd::prelude::*;

pub mod evaluator;
pub mod lexer;
pub mod parser;
pub mod render;
pub mod token;
pub mod validator;

pub use token::CalculatorError;
pub use token::EvaluationNode;
pub use token::Operator;
pub use token::Token;
pub use token::TokenCategory;

verus! {

/// The meaning of the whole pipeline: tokenize, validate, build the
/// expression tree, evaluate it, stopping at the first error.
pub open spec fn spec_calculate(input: Seq<char>) -> Result<i32, CalculatorError> {
    match lexer::spec_tokenize(input) {
        Err(e) => Err(e),
        Ok(tokens) => match validator::spec_validate(tokens) {
            Err(e) => Err(e),
            Ok(()) => match parser::spec_build_tree(tokens) {
                Err(e) => Err(e),
                Ok(tree) => evaluator::spec_eval(tree),
            },
        },
    }
}

/// Evaluates an arithmetic expression given as text: the single entry
/// point, composing lexer, validator, tree builder and evaluator in
/// that fixed order and surfacing the first error verbatim.
pub fn calculate(input: &str) -> (result: Result<i32, CalculatorError>)
    ensures
        result == spec_calculate(input@),
{
    let tokens = match lexer::tokenize(input) {
        Ok(tokens) => tokens,
        Err(e) => {
            return Err(e);
        },
    };
    match validator::validate_token_sequence(&tokens) {
        Ok(()) => {},
        Err(e) => {
            return Err(e);
        },
    }
    let root_node = match parser::build_tree(tokens) {
        Ok(tree) => tree,
        Err(e) => {
            return Err(e);
        },
    };
    evaluator::eval(root_node)
}

/// The whole pipeline inverts serialization: calculating the rendered
/// text of a tree with non-negative leaves is exactly evaluating that
/// tree.
pub proof fn lemma_calculate_render(node: EvaluationNode)
    requires
        render::nonnegative_leaves(node),
    ensures
        spec_calculate(render::spec_render(node)) == evaluator::spec_eval(node),
{
    render::lemma_round_trip(node);
}

} // verus!
