//! Lexical scanning: turns the input text into a flat token sequence,
//! reading multi-digit numbers greedily and rejecting any character
//! outside the legal set.

use vstd::prelude::*;

use crate::token::CalculatorError;
use crate::token::Operator;
use crate::token::Token;

verus! {

/// Whether `c` is a decimal digit.
pub open spec fn is_digit_char(c: char) -> bool {
    '0' as u32 <= c as u32 && c as u32 <= '9' as u32
}

/// The numeric value of a digit character.
pub open spec fn digit_value(c: char) -> int {
    c as u32 - '0' as u32
}

/// Whether `c` may appear at all in an expression: a digit, an
/// operator, a parenthesis or a space.
pub open spec fn is_legal_char(c: char) -> bool {
    ||| is_digit_char(c)
    ||| c == '+'
    ||| c == '-'
    ||| c == '*'
    ||| c == '/'
    ||| c == '('
    ||| c == ')'
    ||| c == ' '
}

/// Appends the pending number, if one is being read, to the tokens.
pub open spec fn flush_accumulator(acc: Option<int>, tokens: Seq<Token>) -> Seq<Token> {
    match acc {
        None => tokens,
        Some(value) => tokens.push(Token::Number(value as i32)),
    }
}

/// One left-to-right scan of `s` from position `i`, carrying the value
/// of the number currently being read (`acc`) and the tokens produced
/// so far. A digit folds into the accumulator as `acc * 10 + digit`;
/// any other character first flushes the accumulator, then is
/// classified; an illegal character fails at once, discarding
/// everything; a number that leaves the `i32` range fails with
/// `Overflow`.
pub open spec fn spec_lex(
    s: Seq<char>,
    i: int,
    acc: Option<int>,
    tokens: Seq<Token>,
) -> Result<Seq<Token>, CalculatorError>
    decreases s.len() - i,
{
    if i < 0 || i >= s.len() {
        Ok(flush_accumulator(acc, tokens))
    } else {
        let c = s[i];
        if is_digit_char(c) {
            let base = match acc {
                None => 0int,
                Some(value) => value,
            };
            let value = base * 10 + digit_value(c);
            if value > i32::MAX as int {
                Err(CalculatorError::Overflow)
            } else {
                spec_lex(s, i + 1, Some(value), tokens)
            }
        } else {
            let flushed = flush_accumulator(acc, tokens);
            if c == '+' {
                spec_lex(s, i + 1, None, flushed.push(Token::Operator(Operator::Add)))
            } else if c == '-' {
                spec_lex(s, i + 1, None, flushed.push(Token::Operator(Operator::Subtract)))
            } else if c == '*' {
                spec_lex(s, i + 1, None, flushed.push(Token::Operator(Operator::Multiply)))
            } else if c == '/' {
                spec_lex(s, i + 1, None, flushed.push(Token::Operator(Operator::Divide)))
            } else if c == '(' {
                spec_lex(s, i + 1, None, flushed.push(Token::BeginParenthesis))
            } else if c == ')' {
                spec_lex(s, i + 1, None, flushed.push(Token::EndParenthesis))
            } else if c == ' ' {
                spec_lex(s, i + 1, None, flushed)
            } else {
                Err(CalculatorError::InvalidCharacter(c))
            }
        }
    }
}

/// What tokenizing a whole character sequence yields.
pub open spec fn spec_tokenize(s: Seq<char>) -> Result<Seq<Token>, CalculatorError> {
    spec_lex(s, 0, None, Seq::empty())
}

/// The view of an executable tokenizer result.
pub open spec fn tokenize_result_view(
    r: Result<Vec<Token>, CalculatorError>,
) -> Result<Seq<Token>, CalculatorError> {
    match r {
        Ok(tokens) => Ok(tokens@),
        Err(e) => Err(e),
    }
}

/// The accumulator's mathematical value.
pub open spec fn accumulator_view(acc: Option<i32>) -> Option<int> {
    match acc {
        None => None,
        Some(value) => Some(value as int),
    }
}

/// Converts the input text into a flat sequence of tokens; fails with
/// `InvalidCharacter` on the first character outside the legal set and
/// with `Overflow` on a number literal beyond `i32::MAX`.
pub fn tokenize(input: &str) -> (result: Result<Vec<Token>, CalculatorError>)
    ensures
        tokenize_result_view(result) == spec_tokenize(input@),
{
    let ghost s = input@;
    let mut tokens: Vec<Token> = Vec::new();
    let mut current_number: Option<i32> = None;
    let length = input.unicode_len();
    let mut i: usize = 0;
    while i < length
        invariant
            length == s.len(),
            s == input@,
            i <= length,
            current_number matches Some(value) ==> value >= 0,
            spec_tokenize(s) == spec_lex(s, i as int, accumulator_view(current_number), tokens@),
        decreases length - i,
    {
        let c = input.get_char(i);
        let code = c as u32;
        if '0' as u32 <= code && code <= '9' as u32 {
            let base: i32 = match current_number {
                None => 0,
                Some(value) => value,
            };
            let digit: i32 = (code - '0' as u32) as i32;
            let folded = match base.checked_mul(10) {
                Some(tens) => tens.checked_add(digit),
                None => None,
            };
            match folded {
                Some(value) => {
                    current_number = Some(value);
                },
                None => {
                    return Err(CalculatorError::Overflow);
                },
            }
        } else {
            if let Some(value) = current_number {
                tokens.push(Token::Number(value));
            }
            current_number = None;
            match c {
                '+' => tokens.push(Token::Operator(Operator::Add)),
                '-' => tokens.push(Token::Operator(Operator::Subtract)),
                '*' => tokens.push(Token::Operator(Operator::Multiply)),
                '/' => tokens.push(Token::Operator(Operator::Divide)),
                '(' => tokens.push(Token::BeginParenthesis),
                ')' => tokens.push(Token::EndParenthesis),
                ' ' => {},
                _ => {
                    return Err(CalculatorError::InvalidCharacter(c));
                },
            }
        }
        i = i + 1;
    }
    if let Some(value) = current_number {
        tokens.push(Token::Number(value));
    }
    Ok(tokens)
}

/// Whether `s` consists of digits alone.
pub open spec fn all_digits(s: Seq<char>) -> bool {
    forall|j: int| 0 <= j < s.len() ==> is_digit_char(#[trigger] s[j])
}

/// The numeric value of a digit string, read most significant digit
/// first.
pub open spec fn digits_value(s: Seq<char>) -> int
    decreases s.len(),
{
    if s.len() == 0 {
        0
    } else {
        digits_value(s.drop_last()) * 10 + digit_value(s.last())
    }
}

proof fn lemma_digits_value_nonneg(s: Seq<char>)
    requires
        all_digits(s),
    ensures
        digits_value(s) >= 0,
    decreases s.len(),
{
    if s.len() > 0 {
        assert(forall|j: int|
            0 <= j < s.drop_last().len() ==> is_digit_char(#[trigger] s.drop_last()[j]));
        lemma_digits_value_nonneg(s.drop_last());
    }
}

proof fn lemma_digits_value_take_le(s: Seq<char>, i: int)
    requires
        all_digits(s),
        0 <= i <= s.len(),
    ensures
        digits_value(s.take(i)) <= digits_value(s),
    decreases s.len() - i,
{
    if i == s.len() {
        assert(s.take(i) =~= s);
    } else {
        assert(s.take(i + 1).drop_last() =~= s.take(i));
        assert(s.take(i + 1).last() == s[i]);
        assert(forall|j: int|
            0 <= j < s.take(i).len() ==> is_digit_char(#[trigger] s.take(i)[j]));
        lemma_digits_value_nonneg(s.take(i));
        lemma_digits_value_take_le(s, i + 1);
    }
}

proof fn lemma_lex_all_digits(s: Seq<char>, i: int, acc: Option<int>, tokens: Seq<Token>)
    requires
        all_digits(s),
        s.len() > 0,
        digits_value(s) <= i32::MAX as int,
        0 <= i <= s.len(),
        acc == (if i == 0 {
            Option::<int>::None
        } else {
            Option::<int>::Some(digits_value(s.take(i)))
        }),
    ensures
        spec_lex(s, i, acc, tokens) == Ok::<_, CalculatorError>(
            tokens.push(Token::Number(digits_value(s) as i32)),
        ),
    decreases s.len() - i,
{
    lemma_digits_value_nonneg(s);
    if i == s.len() {
        assert(s.take(i) =~= s);
    } else {
        let c = s[i];
        assert(is_digit_char(c));
        assert(s.take(i + 1).drop_last() =~= s.take(i));
        assert(s.take(i + 1).last() == s[i]);
        assert(s.take(0) =~= Seq::<char>::empty());
        let base = match acc {
            None => 0int,
            Some(value) => value,
        };
        let value = base * 10 + digit_value(c);
        assert(s.take(i + 1).len() == i + 1);
        assert(digits_value(s.take(i + 1)) == digits_value(s.take(i + 1).drop_last()) * 10
            + digit_value(s.take(i + 1).last()));
        assert(digits_value(s.take(i + 1).drop_last()) == digits_value(s.take(i)));
        if i == 0 {
            assert(digits_value(s.take(0)) == 0);
        }
        assert(base == digits_value(s.take(i)));
        assert(value == digits_value(s.take(i + 1)));
        assert(forall|j: int|
            0 <= j < s.take(i + 1).len() ==> is_digit_char(#[trigger] s.take(i + 1)[j]));
        lemma_digits_value_nonneg(s.take(i + 1));
        lemma_digits_value_take_le(s, i + 1);
        assert(value <= i32::MAX as int);
        lemma_lex_all_digits(s, i + 1, Some(value), tokens);
        assert(spec_lex(s, i, acc, tokens) == spec_lex(s, i + 1, Some(value), tokens));
    }
}

/// An input of digits alone scans to exactly one `Number` token,
/// carrying the numeric value of the digit string — provided that
/// value fits in `i32`; past `i32::MAX` the scan fails with
/// `Overflow` instead.
pub proof fn lemma_tokenize_all_digits(s: Seq<char>)
    requires
        s.len() > 0,
        all_digits(s),
        digits_value(s) <= i32::MAX as int,
    ensures
        spec_tokenize(s) == Ok::<_, CalculatorError>(
            seq![Token::Number(digits_value(s) as i32)],
        ),
{
    lemma_lex_all_digits(s, 0, None, Seq::empty());
    assert(Seq::<Token>::empty().push(Token::Number(digits_value(s) as i32)) =~= seq![
        Token::Number(digits_value(s) as i32),
    ]);
}

proof fn lemma_lex_hits_invalid(s: Seq<char>, k: int, i: int, acc: Option<int>, tokens: Seq<Token>)
    requires
        0 <= i <= k < s.len(),
        !is_legal_char(s[k]),
        spec_lex(s.take(k), i, acc, tokens) is Ok,
    ensures
        spec_lex(s, i, acc, tokens) == Err::<Seq<Token>, _>(
            CalculatorError::InvalidCharacter(s[k]),
        ),
    decreases k - i,
{
    if i < k {
        assert(s.take(k)[i] == s[i]);
        let c = s[i];
        if is_digit_char(c) {
            let base = match acc {
                None => 0int,
                Some(value) => value,
            };
            let value = base * 10 + digit_value(c);
            assert(value <= i32::MAX as int);
            lemma_lex_hits_invalid(s, k, i + 1, Some(value), tokens);
        } else {
            let flushed = flush_accumulator(acc, tokens);
            if c == '+' {
                lemma_lex_hits_invalid(
                    s,
                    k,
                    i + 1,
                    None,
                    flushed.push(Token::Operator(Operator::Add)),
                );
            } else if c == '-' {
                lemma_lex_hits_invalid(
                    s,
                    k,
                    i + 1,
                    None,
                    flushed.push(Token::Operator(Operator::Subtract)),
                );
            } else if c == '*' {
                lemma_lex_hits_invalid(
                    s,
                    k,
                    i + 1,
                    None,
                    flushed.push(Token::Operator(Operator::Multiply)),
                );
            } else if c == '/' {
                lemma_lex_hits_invalid(
                    s,
                    k,
                    i + 1,
                    None,
                    flushed.push(Token::Operator(Operator::Divide)),
                );
            } else if c == '(' {
                lemma_lex_hits_invalid(s, k, i + 1, None, flushed.push(Token::BeginParenthesis));
            } else if c == ')' {
                lemma_lex_hits_invalid(s, k, i + 1, None, flushed.push(Token::EndParenthesis));
            } else if c == ' ' {
                lemma_lex_hits_invalid(s, k, i + 1, None, flushed);
            } else {
                assert(spec_lex(s.take(k), i, acc, tokens) is Err);
            }
        }
    }
}

proof fn lemma_lex_prefix_tokens(s: Seq<char>, i: int, acc: Option<int>, tokens: Seq<Token>)
    ensures
        match spec_lex(s, i, acc, Seq::empty()) {
            Ok(rest) => spec_lex(s, i, acc, tokens) == Ok::<_, CalculatorError>(tokens + rest),
            Err(e) => spec_lex(s, i, acc, tokens) == Err::<Seq<Token>, _>(e),
        },
    decreases s.len() - i,
{
    if i < 0 || i >= s.len() {
        assert(flush_accumulator(acc, tokens) =~= tokens + flush_accumulator(acc, Seq::empty()));
    } else {
        let c = s[i];
        if is_digit_char(c) {
            let base = match acc {
                None => 0int,
                Some(value) => value,
            };
            let value = base * 10 + digit_value(c);
            if value <= i32::MAX as int {
                lemma_lex_prefix_tokens(s, i + 1, Some(value), tokens);
            }
        } else if is_legal_char(c) {
            let flushed_t = flush_accumulator(acc, tokens);
            let flushed_e = flush_accumulator(acc, Seq::empty());
            assert(flushed_t =~= tokens + flushed_e);
            if c == ' ' {
                lemma_lex_prefix_tokens(s, i + 1, None, flushed_t);
                lemma_lex_prefix_tokens(s, i + 1, None, flushed_e);
                match spec_lex(s, i + 1, None, Seq::<Token>::empty()) {
                    Ok(rest) => {
                        assert(flushed_t + rest =~= tokens + (flushed_e + rest));
                    },
                    Err(_) => {},
                }
            } else {
                let op_token = if c == '+' {
                    Token::Operator(Operator::Add)
                } else if c == '-' {
                    Token::Operator(Operator::Subtract)
                } else if c == '*' {
                    Token::Operator(Operator::Multiply)
                } else if c == '/' {
                    Token::Operator(Operator::Divide)
                } else if c == '(' {
                    Token::BeginParenthesis
                } else {
                    Token::EndParenthesis
                };
                lemma_lex_prefix_tokens(s, i + 1, None, flushed_t.push(op_token));
                lemma_lex_prefix_tokens(s, i + 1, None, flushed_e.push(op_token));
                assert(flushed_t.push(op_token) =~= tokens + flushed_e.push(op_token));
                match spec_lex(s, i + 1, None, Seq::<Token>::empty()) {
                    Ok(rest) => {
                        assert(flushed_t.push(op_token) + rest =~= tokens + (flushed_e.push(
                            op_token,
                        ) + rest));
                    },
                    Err(_) => {},
                }
            }
        }
    }
}

proof fn lemma_lex_shift(s1: Seq<char>, s2: Seq<char>, j: int, acc: Option<int>, tokens: Seq<
    Token,
>)
    requires
        j >= 0,
    ensures
        spec_lex(s1 + s2, s1.len() + j, acc, tokens) == spec_lex(s2, j, acc, tokens),
    decreases s2.len() - j,
{
    if j < s2.len() {
        let c = s2[j];
        assert((s1 + s2)[s1.len() + j] == c);
        if is_digit_char(c) {
            let base = match acc {
                None => 0int,
                Some(value) => value,
            };
            let value = base * 10 + digit_value(c);
            if value <= i32::MAX as int {
                lemma_lex_shift(s1, s2, j + 1, Some(value), tokens);
            }
        } else if is_legal_char(c) {
            let flushed = flush_accumulator(acc, tokens);
            if c == '+' {
                lemma_lex_shift(s1, s2, j + 1, None, flushed.push(Token::Operator(Operator::Add)));
            } else if c == '-' {
                lemma_lex_shift(
                    s1,
                    s2,
                    j + 1,
                    None,
                    flushed.push(Token::Operator(Operator::Subtract)),
                );
            } else if c == '*' {
                lemma_lex_shift(
                    s1,
                    s2,
                    j + 1,
                    None,
                    flushed.push(Token::Operator(Operator::Multiply)),
                );
            } else if c == '/' {
                lemma_lex_shift(
                    s1,
                    s2,
                    j + 1,
                    None,
                    flushed.push(Token::Operator(Operator::Divide)),
                );
            } else if c == '(' {
                lemma_lex_shift(s1, s2, j + 1, None, flushed.push(Token::BeginParenthesis));
            } else if c == ')' {
                lemma_lex_shift(s1, s2, j + 1, None, flushed.push(Token::EndParenthesis));
            } else {
                lemma_lex_shift(s1, s2, j + 1, None, flushed);
            }
        }
    }
}

proof fn lemma_lex_flush_pending(s: Seq<char>, value: int, tokens: Seq<Token>)
    requires
        0 <= value <= i32::MAX as int,
        s.len() > 0 ==> !is_digit_char(s[0]),
    ensures
        spec_lex(s, 0, Some(value), tokens) == spec_lex(
            s,
            0,
            None,
            tokens.push(Token::Number(value as i32)),
        ),
{
}

/// Scanning a concatenation whose left part scans without error, and
/// where no number runs across the boundary, yields the left part's
/// tokens followed by whatever the right part yields.
pub proof fn lemma_tokenize_concat(s1: Seq<char>, s2: Seq<char>)
    requires
        spec_tokenize(s1) is Ok,
        s1.len() == 0 || s2.len() == 0 || !(is_digit_char(s1.last()) && is_digit_char(
            s2.first(),
        )),
    ensures
        spec_tokenize(s1 + s2) == match spec_tokenize(s2) {
            Ok(t2) => Ok::<_, CalculatorError>(spec_tokenize(s1)->Ok_0 + t2),
            Err(e) => Err::<Seq<Token>, _>(e),
        },
{
    lemma_lex_concat_from(s1, s2, 0, None, Seq::empty());
}

proof fn lemma_lex_concat_from(
    s1: Seq<char>,
    s2: Seq<char>,
    i: int,
    acc: Option<int>,
    tokens: Seq<Token>,
)
    requires
        0 <= i <= s1.len(),
        spec_lex(s1, i, acc, tokens) is Ok,
        acc matches Some(value) ==> 0 <= value <= i32::MAX as int && i > 0 && is_digit_char(
            s1[i - 1],
        ),
        s1.len() == 0 || s2.len() == 0 || !(is_digit_char(s1.last()) && is_digit_char(
            s2.first(),
        )),
    ensures
        spec_lex(s1 + s2, i, acc, tokens) == match spec_tokenize(s2) {
            Ok(t2) => Ok::<_, CalculatorError>(spec_lex(s1, i, acc, tokens)->Ok_0 + t2),
            Err(e) => Err::<Seq<Token>, _>(e),
        },
    decreases s1.len() - i,
{
    if i == s1.len() {
        match acc {
            None => {
                lemma_lex_shift(s1, s2, 0, None, tokens);
                lemma_lex_prefix_tokens(s2, 0, None, tokens);
            },
            Some(value) => {
                if s2.len() == 0 {
                    assert(s1 + s2 =~= s1);
                    assert(spec_tokenize(s2) == Ok::<_, CalculatorError>(Seq::<Token>::empty()));
                    assert(flush_accumulator(acc, tokens) + Seq::<Token>::empty()
                        =~= flush_accumulator(acc, tokens));
                } else {
                    assert(is_digit_char(s1.last()));
                    assert(!is_digit_char(s2.first()));
                    lemma_lex_shift(s1, s2, 0, Some(value), tokens);
                    lemma_lex_flush_pending(s2, value, tokens);
                    lemma_lex_prefix_tokens(s2, 0, None, tokens.push(Token::Number(value as i32)));
                }
            },
        }
    } else {
        let c = s1[i];
        assert((s1 + s2)[i] == c);
        if is_digit_char(c) {
            let base = match acc {
                None => 0int,
                Some(value) => value,
            };
            let value = base * 10 + digit_value(c);
            assert(value <= i32::MAX as int);
            lemma_lex_concat_from(s1, s2, i + 1, Some(value), tokens);
        } else if is_legal_char(c) {
            let flushed = flush_accumulator(acc, tokens);
            if c == '+' {
                lemma_lex_concat_from(
                    s1,
                    s2,
                    i + 1,
                    None,
                    flushed.push(Token::Operator(Operator::Add)),
                );
            } else if c == '-' {
                lemma_lex_concat_from(
                    s1,
                    s2,
                    i + 1,
                    None,
                    flushed.push(Token::Operator(Operator::Subtract)),
                );
            } else if c == '*' {
                lemma_lex_concat_from(
                    s1,
                    s2,
                    i + 1,
                    None,
                    flushed.push(Token::Operator(Operator::Multiply)),
                );
            } else if c == '/' {
                lemma_lex_concat_from(
                    s1,
                    s2,
                    i + 1,
                    None,
                    flushed.push(Token::Operator(Operator::Divide)),
                );
            } else if c == '(' {
                lemma_lex_concat_from(s1, s2, i + 1, None, flushed.push(Token::BeginParenthesis));
            } else if c == ')' {
                lemma_lex_concat_from(s1, s2, i + 1, None, flushed.push(Token::EndParenthesis));
            } else {
                lemma_lex_concat_from(s1, s2, i + 1, None, flushed);
            }
        } else {
            assert(spec_lex(s1, i, acc, tokens) is Err);
        }
    }
}

/// An input whose first character outside the legal set stands at
/// position `k` fails with `InvalidCharacter` carrying exactly that
/// character — provided the scan reaches it, that is, the input up to
/// `k` scans without error.
pub proof fn lemma_tokenize_first_invalid(s: Seq<char>, k: int)
    requires
        0 <= k < s.len(),
        !is_legal_char(s[k]),
        spec_tokenize(s.take(k)) is Ok,
    ensures
        spec_tokenize(s) == Err::<Seq<Token>, _>(CalculatorError::InvalidCharacter(s[k])),
{
    lemma_lex_hits_invalid(s, k, 0, None, Seq::empty());
}

} // verus!
