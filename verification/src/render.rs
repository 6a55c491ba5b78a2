//! Serialization of an expression tree back to fully parenthesized
//! infix text, and the token sequence that text scans to. Together
//! with the lexer and the tree builder this closes the round trip:
//! rendering a tree and re-tokenizing and re-building the text
//! reproduces the tree.

use vstd::prelude::*;

use crate::lexer::all_digits;
use crate::lexer::digit_value;
use crate::lexer::digits_value;
use crate::lexer::is_digit_char;
use crate::lexer::lemma_tokenize_all_digits;
use crate::lexer::lemma_tokenize_concat;
use crate::lexer::spec_tokenize;
use crate::token::CalculatorError;
use crate::token::EvaluationNode;
use crate::token::Operator;
use crate::token::Token;

verus! {

/// The digit character for a value in `0 ..= 9`.
pub open spec fn digit_char(d: int) -> char {
    (('0' as u8) + d) as char
}

/// The decimal digits of a non-negative value, most significant
/// first.
pub open spec fn spec_digit_seq(n: int) -> Seq<char>
    decreases n,
{
    if n < 10 {
        seq![digit_char(if n < 0 { 0 } else { n })]
    } else {
        spec_digit_seq(n / 10).push(digit_char(n % 10))
    }
}

/// The text of one number: its digits, after a minus sign if it is
/// negative.
pub open spec fn spec_render_number(value: int) -> Seq<char> {
    if value < 0 {
        seq!['-'] + spec_digit_seq(-value)
    } else {
        spec_digit_seq(value)
    }
}

/// The character of one operator.
pub open spec fn operator_char(op: Operator) -> char {
    match op {
        Operator::Add => '+',
        Operator::Subtract => '-',
        Operator::Multiply => '*',
        Operator::Divide => '/',
    }
}

/// The fully parenthesized infix text of a tree: a leaf is its
/// number, an inner node is `(left op right)`.
pub open spec fn spec_render(node: EvaluationNode) -> Seq<char>
    decreases node,
{
    match node {
        EvaluationNode::Number(value) => spec_render_number(value as int),
        EvaluationNode::Complex(left, op, right) => seq!['('] + spec_render(*left) + seq![' ']
            + seq![operator_char(op)] + seq![' '] + spec_render(*right) + seq![')'],
    }
}

/// The token sequence that the rendered text of a tree scans to: the
/// tree's own tokens, with every inner node wrapped in parentheses.
pub open spec fn spec_token_seq(node: EvaluationNode) -> Seq<Token>
    decreases node,
{
    match node {
        EvaluationNode::Number(value) => seq![Token::Number(value)],
        EvaluationNode::Complex(left, op, right) => seq![Token::BeginParenthesis]
            + spec_token_seq(*left) + seq![Token::Operator(op)] + spec_token_seq(*right)
            + seq![Token::EndParenthesis],
    }
}

/// Whether every leaf of the tree is non-negative; true of every tree
/// the builder makes, since the lexer reads no sign.
pub open spec fn nonnegative_leaves(node: EvaluationNode) -> bool
    decreases node,
{
    match node {
        EvaluationNode::Number(value) => value >= 0,
        EvaluationNode::Complex(left, _, right) => nonnegative_leaves(*left)
            && nonnegative_leaves(*right),
    }
}

/// The text of one digit value.
fn digit_str(d: u32) -> (text: &'static str)
    requires
        d < 10,
    ensures
        text@ == seq![digit_char(d as int)],
{
    proof {
        reveal_strlit("0");
        reveal_strlit("1");
        reveal_strlit("2");
        reveal_strlit("3");
        reveal_strlit("4");
        reveal_strlit("5");
        reveal_strlit("6");
        reveal_strlit("7");
        reveal_strlit("8");
        reveal_strlit("9");
    }
    match d {
        0 => "0",
        1 => "1",
        2 => "2",
        3 => "3",
        4 => "4",
        5 => "5",
        6 => "6",
        7 => "7",
        8 => "8",
        _ => "9",
    }
}

/// The decimal digits of `n`, most significant first.
fn render_digits(n: u32) -> (text: String)
    ensures
        text@ == spec_digit_seq(n as int),
    decreases n,
{
    if n < 10 {
        String::from_str(digit_str(n))
    } else {
        let mut text = render_digits(n / 10);
        text.append(digit_str(n % 10));
        text
    }
}

/// The text of one `i32` number.
fn render_number(value: i32) -> (text: String)
    ensures
        text@ == spec_render_number(value as int),
{
    if value < 0 {
        proof {
            reveal_strlit("-");
        }
        let magnitude: u32 = (-(value as i64)) as u32;
        let mut text = String::from_str("-");
        text.append(render_digits(magnitude).as_str());
        text
    } else {
        render_digits(value as u32)
    }
}

/// The text of one operator.
fn operator_str(op: Operator) -> (text: &'static str)
    ensures
        text@ == seq![operator_char(op)],
{
    proof {
        reveal_strlit("+");
        reveal_strlit("-");
        reveal_strlit("*");
        reveal_strlit("/");
    }
    match op {
        Operator::Add => "+",
        Operator::Subtract => "-",
        Operator::Multiply => "*",
        Operator::Divide => "/",
    }
}

/// Serializes a tree to fully parenthesized infix text.
pub fn render(node: &EvaluationNode) -> (text: String)
    ensures
        text@ == spec_render(*node),
    decreases *node,
{
    match node {
        EvaluationNode::Number(value) => render_number(*value),
        EvaluationNode::Complex(left, op, right) => {
            proof {
                reveal_strlit("(");
                reveal_strlit(" ");
                reveal_strlit(")");
            }
            let mut text = String::from_str("(");
            text.append(render(left).as_str());
            text.append(" ");
            text.append(operator_str(*op));
            text.append(" ");
            text.append(render(right).as_str());
            text.append(")");
            text
        },
    }
}

proof fn lemma_tokenize_open()
    ensures
        spec_tokenize(seq!['(']) == Ok::<_, CalculatorError>(seq![Token::BeginParenthesis]),
{
    let s = seq!['('];
    assert(crate::lexer::spec_lex(s, 1, None, seq![Token::BeginParenthesis])
        == Ok::<_, CalculatorError>(seq![Token::BeginParenthesis]));
    assert(Seq::<Token>::empty().push(Token::BeginParenthesis) =~= seq![
        Token::BeginParenthesis,
    ]);
}

proof fn lemma_tokenize_close()
    ensures
        spec_tokenize(seq![')']) == Ok::<_, CalculatorError>(seq![Token::EndParenthesis]),
{
    let s = seq![')'];
    assert(crate::lexer::spec_lex(s, 1, None, seq![Token::EndParenthesis])
        == Ok::<_, CalculatorError>(seq![Token::EndParenthesis]));
    assert(Seq::<Token>::empty().push(Token::EndParenthesis) =~= seq![Token::EndParenthesis]);
}

proof fn lemma_tokenize_space()
    ensures
        spec_tokenize(seq![' ']) == Ok::<_, CalculatorError>(Seq::<Token>::empty()),
{
    let s = seq![' '];
    assert(crate::lexer::spec_lex(s, 1, None, Seq::<Token>::empty()) == Ok::<
        _,
        CalculatorError,
    >(Seq::<Token>::empty()));
}

proof fn lemma_tokenize_operator(op: Operator)
    ensures
        spec_tokenize(seq![operator_char(op)]) == Ok::<_, CalculatorError>(
            seq![Token::Operator(op)],
        ),
        !is_digit_char(operator_char(op)),
{
    let s = seq![operator_char(op)];
    assert(crate::lexer::spec_lex(s, 1, None, seq![Token::Operator(op)]) == Ok::<
        _,
        CalculatorError,
    >(seq![Token::Operator(op)]));
    assert(Seq::<Token>::empty().push(Token::Operator(op)) =~= seq![Token::Operator(op)]);
}

proof fn lemma_digit_seq(n: int)
    requires
        n >= 0,
    ensures
        all_digits(spec_digit_seq(n)),
        spec_digit_seq(n).len() >= 1,
        digits_value(spec_digit_seq(n)) == n,
    decreases n,
{
    if n < 10 {
        let s = spec_digit_seq(n);
        assert(s =~= seq![digit_char(n)]);
        assert(s.drop_last() =~= Seq::<char>::empty());
        assert(s.len() == 1);
        assert(s.last() == digit_char(n));
        assert(digits_value(s.drop_last()) == 0);
        assert(digits_value(s) == digits_value(s.drop_last()) * 10 + digit_value(s.last()));
        assert(digit_value(digit_char(n)) == n);
    } else {
        lemma_digit_seq(n / 10);
        let s = spec_digit_seq(n);
        let prefix = spec_digit_seq(n / 10);
        assert(s == prefix.push(digit_char(n % 10)));
        assert(s.drop_last() =~= prefix);
        assert(s.last() == digit_char(n % 10));
        assert(digits_value(s) == digits_value(prefix) * 10 + digit_value(digit_char(n % 10)));
        assert(digits_value(s) == n);
        assert forall|j: int| 0 <= j < s.len() implies is_digit_char(#[trigger] s[j]) by {
            if j < s.len() - 1 {
                assert(s[j] == prefix[j]);
            }
        }
    }
}

proof fn lemma_tokenize_number(value: int)
    requires
        0 <= value <= i32::MAX as int,
    ensures
        spec_tokenize(spec_render_number(value)) == Ok::<_, CalculatorError>(
            seq![Token::Number(value as i32)],
        ),
        spec_render_number(value).len() >= 1,
        all_digits(spec_render_number(value)),
{
    lemma_digit_seq(value);
    lemma_tokenize_all_digits(spec_digit_seq(value));
}

/// Rendering a tree whose leaves are non-negative and re-tokenizing
/// the text yields exactly the tree's token sequence.
pub proof fn lemma_render_tokenizes(node: EvaluationNode)
    requires
        nonnegative_leaves(node),
    ensures
        spec_tokenize(spec_render(node)) == Ok::<_, CalculatorError>(spec_token_seq(node)),
    decreases node,
{
    match node {
        EvaluationNode::Number(value) => {
            lemma_tokenize_number(value as int);
        },
        EvaluationNode::Complex(left, op, right) => {
            lemma_render_tokenizes(*left);
            lemma_render_tokenizes(*right);
            let a = seq!['('];
            let sl = spec_render(*left);
            let sp = seq![' '];
            let oc = seq![operator_char(op)];
            let sr = spec_render(*right);
            let b = seq![')'];
            let tl = spec_token_seq(*left);
            let tr = spec_token_seq(*right);
            lemma_tokenize_open();
            lemma_tokenize_close();
            lemma_tokenize_space();
            lemma_tokenize_operator(op);

            let acc2 = a + sl;
            lemma_tokenize_concat(a, sl);
            assert(spec_tokenize(acc2) == Ok::<_, CalculatorError>(seq![
                Token::BeginParenthesis,
            ] + tl));

            let acc3 = acc2 + sp;
            lemma_tokenize_concat(acc2, sp);
            assert(spec_tokenize(acc3) == Ok::<_, CalculatorError>(
                (seq![Token::BeginParenthesis] + tl) + Seq::<Token>::empty(),
            ));

            let acc4 = acc3 + oc;
            lemma_tokenize_concat(acc3, oc);

            let acc5 = acc4 + sp;
            lemma_tokenize_concat(acc4, sp);

            let acc6 = acc5 + sr;
            assert(acc5.last() == ' ');
            lemma_tokenize_concat(acc5, sr);

            let acc7 = acc6 + b;
            lemma_tokenize_concat(acc6, b);

            assert(spec_render(node) == acc7);
            let assembled = ((((seq![Token::BeginParenthesis] + tl) + Seq::<Token>::empty())
                + seq![Token::Operator(op)]) + Seq::<Token>::empty() + tr) + seq![
                Token::EndParenthesis,
            ];
            assert(spec_tokenize(acc7) == Ok::<_, CalculatorError>(assembled));
            assert(assembled =~= spec_token_seq(node));
        },
    }
}

/// The round trip: rendering a tree with non-negative leaves to text,
/// re-tokenizing, re-validating and re-building reproduces exactly the
/// tree that was rendered.
pub proof fn lemma_round_trip(node: EvaluationNode)
    requires
        nonnegative_leaves(node),
    ensures
        spec_tokenize(spec_render(node)) == Ok::<_, CalculatorError>(spec_token_seq(node)),
        crate::validator::spec_validate(spec_token_seq(node)) == Ok::<(), CalculatorError>(()),
        crate::parser::spec_build_tree(spec_token_seq(node)) == Ok::<_, CalculatorError>(node),
{
    lemma_render_tokenizes(node);
    crate::validator::lemma_token_seq_validates(node);
    crate::parser::lemma_build_token_seq(node);
}

} // verus!
