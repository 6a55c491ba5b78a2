//! Tree evaluation: post-order reduction of the expression tree to a
//! single `i32`, with division truncating toward zero. Division by
//! zero fails with `DivideByZero`; a result outside the `i32` range
//! fails with `Overflow`.

use vstd::prelude::*;

use crate::token::CalculatorError;
use crate::token::EvaluationNode;
use crate::token::Operator;

verus! {

/// Applying one operator to two already-evaluated operands. The
/// checked operations' specifications pin the arithmetic down exactly:
/// in particular division truncates toward zero, and `i32::MIN / -1`
/// is an overflow.
pub open spec fn spec_apply(op: Operator, left: i32, right: i32) -> Result<
    i32,
    CalculatorError,
> {
    match op {
        Operator::Add => match left.checked_add(right) {
            Some(value) => Ok(value),
            None => Err(CalculatorError::Overflow),
        },
        Operator::Subtract => match left.checked_sub(right) {
            Some(value) => Ok(value),
            None => Err(CalculatorError::Overflow),
        },
        Operator::Multiply => match left.checked_mul(right) {
            Some(value) => Ok(value),
            None => Err(CalculatorError::Overflow),
        },
        Operator::Divide => {
            if right == 0 {
                Err(CalculatorError::DivideByZero)
            } else {
                match left.checked_div(right) {
                    Some(value) => Ok(value),
                    None => Err(CalculatorError::Overflow),
                }
            }
        },
    }
}

/// What evaluating a tree yields: leaves evaluate to their value,
/// inner nodes combine both children, the left one first — so the left
/// child's error wins when both fail.
pub open spec fn spec_eval(node: EvaluationNode) -> Result<i32, CalculatorError>
    decreases node,
{
    match node {
        EvaluationNode::Number(value) => Ok(value),
        EvaluationNode::Complex(left, operator, right) => match spec_eval(*left) {
            Err(e) => Err(e),
            Ok(left_value) => match spec_eval(*right) {
                Err(e) => Err(e),
                Ok(right_value) => spec_apply(operator, left_value, right_value),
            },
        },
    }
}

/// Reduces the expression tree to a single integer.
pub fn eval(node: EvaluationNode) -> (result: Result<i32, CalculatorError>)
    ensures
        result == spec_eval(node),
    decreases node,
{
    match node {
        EvaluationNode::Number(value) => Ok(value),
        EvaluationNode::Complex(left, operator, right) => {
            let left_value = match eval(*left) {
                Ok(value) => value,
                Err(e) => {
                    return Err(e);
                },
            };
            let right_value = match eval(*right) {
                Ok(value) => value,
                Err(e) => {
                    return Err(e);
                },
            };
            match operator {
                Operator::Add => match left_value.checked_add(right_value) {
                    Some(value) => Ok(value),
                    None => Err(CalculatorError::Overflow),
                },
                Operator::Subtract => match left_value.checked_sub(right_value) {
                    Some(value) => Ok(value),
                    None => Err(CalculatorError::Overflow),
                },
                Operator::Multiply => match left_value.checked_mul(right_value) {
                    Some(value) => Ok(value),
                    None => Err(CalculatorError::Overflow),
                },
                Operator::Divide => {
                    if right_value == 0 {
                        Err(CalculatorError::DivideByZero)
                    } else {
                        match left_value.checked_div(right_value) {
                            Some(value) => Ok(value),
                            None => Err(CalculatorError::Overflow),
                        }
                    }
                },
            }
        },
    }
}

} // verus!
