//! The data model: tokens, operators, token categories, expression
//! trees and the error taxonomy shared by every pipeline stage.

use vstd::prelude::*;

verus! {

/// A binary arithmetic operator.
#[derive(Debug, Eq, Hash, PartialEq, Clone, Copy)]
pub enum Operator {
    Add,
    Subtract,
    Multiply,
    Divide,
}

/// An atomic lexical unit produced by scanning the input text.
#[derive(Debug, PartialEq, Clone, Copy)]
pub enum Token {
    Number(i32),
    Operator(Operator),
    BeginParenthesis,
    EndParenthesis,
}

/// The coarse grammatical class of a token, used by the sequence
/// validator's adjacency rule.
#[derive(Debug, PartialEq, Clone, Copy)]
pub enum TokenCategory {
    NumberLike,
    OperatorLike,
    GroupOpen,
    GroupClose,
}

/// A failure of any pipeline stage. The payload pins the failure down:
/// the offending character, or the adjacent token pair that broke the
/// grammar. Arithmetic that leaves the `i32` range fails with
/// `Overflow` rather than wrapping.
#[derive(Debug, PartialEq, Clone, Copy)]
pub enum CalculatorError {
    /// The input holds a character outside digits, `+ - * /`,
    /// parentheses and space.
    InvalidCharacter(char),
    /// The right operand of a division is zero.
    DivideByZero,
    /// The token sequence is empty.
    EmptyStatement,
    /// Two adjacent tokens violate the grammar; the pair is carried as
    /// (preceding token, offending token), with a virtual
    /// `BeginParenthesis` standing before the first token.
    InvalidTokenSequence(Token, Token),
    /// A parenthesis without its counterpart: opened and never closed,
    /// or closed without having been opened.
    UnbalancedParenthesis,
    /// The token sequence ends where an operand was still required.
    UnexpectedEndOfInput,
    /// A number literal or an arithmetic result does not fit in `i32`.
    Overflow,
}

/// A binary expression tree: a number leaf, or an operator applied to
/// two exclusively owned subtrees.
#[derive(Debug, PartialEq)]
pub enum EvaluationNode {
    Number(i32),
    Complex(Box<EvaluationNode>, Operator, Box<EvaluationNode>),
}

/// The category of each token, as the validator classifies it.
pub open spec fn spec_category(token: Token) -> TokenCategory {
    match token {
        Token::Number(_) => TokenCategory::NumberLike,
        Token::Operator(_) => TokenCategory::OperatorLike,
        Token::BeginParenthesis => TokenCategory::GroupOpen,
        Token::EndParenthesis => TokenCategory::GroupClose,
    }
}

impl Token {
    /// Classifies this token for the adjacency rule.
    pub fn category(&self) -> (category: TokenCategory)
        ensures
            category == spec_category(*self),
    {
        match self {
            Token::Number(_) => TokenCategory::NumberLike,
            Token::Operator(_) => TokenCategory::OperatorLike,
            Token::BeginParenthesis => TokenCategory::GroupOpen,
            Token::EndParenthesis => TokenCategory::GroupClose,
        }
    }
}

/// The allowed-successor table of the grammar: which category may
/// directly follow which.
pub open spec fn category_allows(prev: TokenCategory, next: TokenCategory) -> bool {
    match prev {
        TokenCategory::NumberLike => next is OperatorLike || next is GroupClose,
        TokenCategory::OperatorLike => next is NumberLike || next is GroupOpen,
        TokenCategory::GroupOpen => next is NumberLike || next is GroupOpen,
        TokenCategory::GroupClose => next is GroupClose || next is OperatorLike,
    }
}

/// Whether `next` may directly follow `prev` in a well-formed token
/// sequence.
pub open spec fn token_allowed_after(prev: Token, next: Token) -> bool {
    category_allows(spec_category(prev), spec_category(next))
}

/// The executable form of the allowed-successor table.
pub fn successor_allowed(prev: &Token, next: &Token) -> (allowed: bool)
    ensures
        allowed == token_allowed_after(*prev, *next),
{
    match prev.category() {
        TokenCategory::NumberLike => matches!(
            next.category(),
            TokenCategory::OperatorLike | TokenCategory::GroupClose
        ),
        TokenCategory::OperatorLike => matches!(
            next.category(),
            TokenCategory::NumberLike | TokenCategory::GroupOpen
        ),
        TokenCategory::GroupOpen => matches!(
            next.category(),
            TokenCategory::NumberLike | TokenCategory::GroupOpen
        ),
        TokenCategory::GroupClose => matches!(
            next.category(),
            TokenCategory::GroupClose | TokenCategory::OperatorLike
        ),
    }
}

} // verus!
