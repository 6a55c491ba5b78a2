use calculator::calculate;
use calculator::evaluator::eval;
use calculator::lexer::tokenize;
use calculator::parser::build_tree;
use calculator::render::render;
use calculator::token::CalculatorError;
use calculator::token::EvaluationNode;
use calculator::token::Operator;
use calculator::token::Token;
use calculator::validator::validate_token_sequence;

#[test]
fn tokenize_numbers_in_beginning_and_end_test() {
    let tokens = tokenize("1 + 232*32-5/2 + 21").unwrap();

    println!("{:?}", tokens);
    assert_eq!(11, tokens.len());
    assert_eq!(Token::Number(1), tokens[0]);
    assert_eq!(Token::Operator(Operator::Add), tokens[1]);
    assert_eq!(Token::Number(232), tokens[2]);
    assert_eq!(Token::Operator(Operator::Multiply), tokens[3]);
    assert_eq!(Token::Number(32), tokens[4]);
    assert_eq!(Token::Operator(Operator::Subtract), tokens[5]);
    assert_eq!(Token::Number(5), tokens[6]);
    assert_eq!(Token::Operator(Operator::Divide), tokens[7]);
    assert_eq!(Token::Number(2), tokens[8]);
    assert_eq!(Token::Operator(Operator::Add), tokens[9]);
    assert_eq!(Token::Number(21), tokens[10]);
}

#[test]
fn tokenize_non_numbers_in_beginning_and_end_test() {
    let tokens = tokenize("(1 + 232*(32)-").unwrap();

    println!("{:?}", tokens);
    assert_eq!(9, tokens.len());
    assert_eq!(Token::BeginParenthesis, tokens[0]);
    assert_eq!(Token::Number(1), tokens[1]);
    assert_eq!(Token::Operator(Operator::Add), tokens[2]);
    assert_eq!(Token::Number(232), tokens[3]);
    assert_eq!(Token::Operator(Operator::Multiply), tokens[4]);
    assert_eq!(Token::BeginParenthesis, tokens[5]);
    assert_eq!(Token::Number(32), tokens[6]);
    assert_eq!(Token::EndParenthesis, tokens[7]);
    assert_eq!(Token::Operator(Operator::Subtract), tokens[8]);
}

#[test]
fn tokenize_multiple_consecutive_numbers_test() {
    let tokens = tokenize("123 45 789 0 +").unwrap();

    assert_eq!(5, tokens.len());
    assert_eq!(Token::Number(123), tokens[0]);
    assert_eq!(Token::Number(45), tokens[1]);
    assert_eq!(Token::Number(789), tokens[2]);
    assert_eq!(Token::Number(0), tokens[3]);
    assert_eq!(Token::Operator(Operator::Add), tokens[4]);
}

#[test]
fn tokenize_all_digits_test() {
    let tokens = tokenize("1234567890").unwrap();

    assert_eq!(1, tokens.len());
    assert_eq!(Token::Number(1234567890), tokens[0]);
}

#[test]
fn tokenize_invalid_char_expect_error_test() {
    let result = tokenize("1 +M 232*32-  21");
    assert_eq!(Result::Err(CalculatorError::InvalidCharacter('M')), result);
}

#[test]
fn eval_single_number_test() {
    let root = EvaluationNode::Number(28);
    let result = eval(root);
    assert_eq!(28, result.unwrap());
}

#[test]
fn eval_simple_add_test() {
    let root = EvaluationNode::Complex(
        Box::from(EvaluationNode::Number(12)),
        Operator::Add,
        Box::from(EvaluationNode::Number(32)),
    );
    let result = eval(root);
    assert_eq!(12 + 32, result.unwrap());
}

#[test]
fn eval_simple_subtract_test() {
    let root = EvaluationNode::Complex(
        Box::from(EvaluationNode::Number(12)),
        Operator::Subtract,
        Box::from(EvaluationNode::Number(32)),
    );
    let result = eval(root);
    assert_eq!(12 - 32, result.unwrap());
}

#[test]
fn eval_simple_multiply_test() {
    let root = EvaluationNode::Complex(
        Box::from(EvaluationNode::Number(12)),
        Operator::Multiply,
        Box::from(EvaluationNode::Number(32)),
    );
    let result = eval(root);
    assert_eq!(12 * 32, result.unwrap());
}

#[test]
fn eval_simple_divide_test() {
    let root = EvaluationNode::Complex(
        Box::from(EvaluationNode::Number(12)),
        Operator::Divide,
        Box::from(EvaluationNode::Number(32)),
    );
    let result = eval(root);
    assert_eq!(12 / 32, result.unwrap());
}

#[test]
fn eval_complex_case_test() {
    let root = EvaluationNode::Complex(
        Box::from(EvaluationNode::Complex(
            Box::from(EvaluationNode::Number(21)),
            Operator::Multiply,
            Box::from(EvaluationNode::Number(-12)),
        )),
        Operator::Divide,
        Box::from(EvaluationNode::Number(4)),
    );
    let result = eval(root);
    assert_eq!((21 * -12) / 4, result.unwrap());
}

#[test]
fn validate_token_sequence_beginning_of_phrases_test() {
    run_and_expect_error(
        ")",
        CalculatorError::InvalidTokenSequence(Token::BeginParenthesis, Token::EndParenthesis),
    );
    run_and_expect_error(
        "*",
        CalculatorError::InvalidTokenSequence(
            Token::BeginParenthesis,
            Token::Operator(Operator::Multiply),
        ),
    );
    run_and_expect_error(
        "/",
        CalculatorError::InvalidTokenSequence(
            Token::BeginParenthesis,
            Token::Operator(Operator::Divide),
        ),
    );
    run_and_expect_error(
        "+",
        CalculatorError::InvalidTokenSequence(
            Token::BeginParenthesis,
            Token::Operator(Operator::Add),
        ),
    );
    run_and_expect_error(
        "-",
        CalculatorError::InvalidTokenSequence(
            Token::BeginParenthesis,
            Token::Operator(Operator::Subtract),
        ),
    );
    run_and_expect_error(
        "  ) + 12342",
        CalculatorError::InvalidTokenSequence(Token::BeginParenthesis, Token::EndParenthesis),
    );
    run_and_expect_error(
        "  * + 12342",
        CalculatorError::InvalidTokenSequence(
            Token::BeginParenthesis,
            Token::Operator(Operator::Multiply),
        ),
    );
    run_and_expect_error(
        "  / + 12342",
        CalculatorError::InvalidTokenSequence(
            Token::BeginParenthesis,
            Token::Operator(Operator::Divide),
        ),
    );
    run_and_expect_error(
        "  + + 12342",
        CalculatorError::InvalidTokenSequence(
            Token::BeginParenthesis,
            Token::Operator(Operator::Add),
        ),
    );
    run_and_expect_error(
        "  - + 12342",
        CalculatorError::InvalidTokenSequence(
            Token::BeginParenthesis,
            Token::Operator(Operator::Subtract),
        ),
    );
}

fn run_and_expect_error(phrase: &str, expected_error: CalculatorError) {
    let tokens = tokenize(phrase).unwrap();
    let result = validate_token_sequence(&tokens);
    assert_eq!(expected_error, result.err().unwrap());
}

#[test]
fn calculate_single_numbers_test() {
    assert_eq!(1, calculate("1").unwrap());
    assert_eq!(123, calculate("123").unwrap());
    assert_eq!(123, calculate(" 123  ").unwrap());
}

#[test]
fn build_tree_simple_test() {
    assert_eq!("265", run_build_tree_test("265"));
    assert_eq!("(1 + 2)", run_build_tree_test("1 + 2"));
    assert_eq!(
        "(((1 + 2) - 684) + 84648)",
        run_build_tree_test("1 + 2 - 684 + 84648")
    );
}

#[test]
fn build_tree_parantheses_test() {
    assert_eq!(
        "((1 - 2) - (684 + 84648))",
        run_build_tree_test("1 - 2 - (684 + 84648)")
    );
}

fn run_build_tree_test(phrase: &str) -> String {
    render(&build_tree(tokenize(phrase).unwrap()).unwrap())
}

#[test]
fn calculate_simple_test() {
    assert_eq!(265, calculate("265").unwrap());
    assert_eq!(1 + 2, calculate("1 + 2").unwrap());
    assert_eq!(1 + 2 - 684 + 84648, calculate("1 + 2 - 684 + 84648").unwrap());
}

#[test]
fn calculate_parantheses_test() {
    assert_eq!(1 - 2 - (684 + 84648), calculate("1 - 2 - (684 + 84648)").unwrap());
}

#[test]
fn calculate_precedence_test() {
    assert_eq!(4, calculate("1 + 3 * (3 - 1) / 2").unwrap());
    assert_eq!(1 + 3 * 2, calculate("1 + 3 * 2").unwrap());
    assert_eq!((1 + 3) * 2, calculate("(1 + 3) * 2").unwrap());
}

#[test]
fn calculate_divide_by_zero_test() {
    assert_eq!(Err(CalculatorError::DivideByZero), calculate("5/0"));
}

#[test]
fn calculate_integer_division_truncates_test() {
    assert_eq!(3, calculate("3 * 2 / 2 + 1 / 2").unwrap());
    assert_eq!(0, calculate("7/8").unwrap());
}

#[test]
fn validate_empty_sequence_test() {
    assert_eq!(
        Err(CalculatorError::EmptyStatement),
        validate_token_sequence(&vec![])
    );
    assert_eq!(Err(CalculatorError::EmptyStatement), calculate(""));
    assert_eq!(Err(CalculatorError::EmptyStatement), calculate("   "));
}

#[test]
fn tokenize_overflow_test() {
    assert_eq!(
        Ok(vec![Token::Number(2147483647)]),
        tokenize("2147483647")
    );
    assert_eq!(Err(CalculatorError::Overflow), tokenize("2147483648"));
    assert_eq!(Err(CalculatorError::Overflow), tokenize("1 + 99999999999"));
}

#[test]
fn calculate_overflow_test() {
    assert_eq!(Err(CalculatorError::Overflow), calculate("2147483647 + 1"));
    assert_eq!(Err(CalculatorError::Overflow), calculate("65536 * 65536"));
    assert_eq!(2147483647, calculate("2147483647 + 0").unwrap());
}

#[test]
fn eval_divide_overflow_test() {
    let root = EvaluationNode::Complex(
        Box::from(EvaluationNode::Number(i32::MIN)),
        Operator::Divide,
        Box::from(EvaluationNode::Number(-1)),
    );
    assert_eq!(Err(CalculatorError::Overflow), eval(root));
}

#[test]
fn eval_divide_truncates_toward_zero_test() {
    let root = EvaluationNode::Complex(
        Box::from(EvaluationNode::Number(-7)),
        Operator::Divide,
        Box::from(EvaluationNode::Number(2)),
    );
    assert_eq!(-3, eval(root).unwrap());
}

#[test]
fn calculate_unbalanced_parenthesis_test() {
    assert_eq!(Err(CalculatorError::UnbalancedParenthesis), calculate("(1"));
    assert_eq!(Err(CalculatorError::UnbalancedParenthesis), calculate("1)"));
    assert_eq!(
        Err(CalculatorError::UnbalancedParenthesis),
        calculate("(1 + 2)) * 3")
    );
}

#[test]
fn calculate_dangling_operator_test() {
    assert_eq!(Err(CalculatorError::UnexpectedEndOfInput), calculate("1 +"));
    assert_eq!(Err(CalculatorError::UnexpectedEndOfInput), calculate("2 * (3 -"));
}

#[test]
fn render_round_trip_test() {
    let first = build_tree(tokenize("1 + 3 * (3 - 1) / 2").unwrap()).unwrap();
    let text = render(&first);
    assert_eq!("(1 + ((3 * (3 - 1)) / 2))", text);
    let second = build_tree(tokenize(&text).unwrap()).unwrap();
    assert_eq!(first, second);
}

#[test]
fn render_negative_leaf_test() {
    assert_eq!("-5", render(&EvaluationNode::Number(-5)));
    assert_eq!("-2147483648", render(&EvaluationNode::Number(i32::MIN)));
    assert_eq!("0", render(&EvaluationNode::Number(0)));
}
