//! The decisions of postfix evaluation.
//!
//! Postfix tokens are evaluated from left to right with a stack of operands.
//! The arithmetic on the operands is the caller's; what to do with each token
//! is decided here, from the token, the number of operands on the stack and
//! whether the operand on top is zero.

use vstd::prelude::*;
use crate::lexis::{digit, is_digit, is_number_char, sign_len};

verus! {

/// The four binary operators.
#[derive(Clone, Copy, Debug, PartialEq, Eq, Structural)]
pub enum Operator {
    Add,
    Subtract,
    Multiply,
    Divide,
}

/// What a postfix token stands for.
#[derive(Clone, Copy, Debug, PartialEq, Eq, Structural)]
pub enum TokenKind {
    /// A decimal literal.
    Number,
    /// One of the four operator symbols.
    Operator(Operator),
    /// Anything else.
    Other,
}

/// What to do with the operand stack for one token.
#[derive(Clone, Copy, Debug, PartialEq, Eq, Structural)]
pub enum Action {
    /// Push the value of the token, which is a decimal literal.
    Push,
    /// Pop the right operand, then the left operand, and push the result of
    /// the operator on them.
    Apply(Operator),
    /// Leave the stack as it is.
    Skip,
}

/// Why an evaluation fails.
#[derive(Clone, Copy, Debug, PartialEq, Eq, Structural)]
pub enum EvalError {
    /// An operator finds fewer than two operands, or no operand is left at
    /// the end.
    WrongExpression,
    /// A division finds zero as its right operand.
    DivideByZero,
}

/// A decimal literal: an optional sign, then digits with at most one decimal
/// point among them, before them or after them, and at least one digit.
pub open spec fn is_decimal_literal(text: Seq<char>) -> bool {
    let start = sign_len(text);
    &&& forall|i: int| start <= i < text.len() ==> is_number_char(#[trigger] text[i])
    &&& exists|i: int| start <= i < text.len() && is_digit(#[trigger] text[i])
    &&& forall|i: int, j: int|
        start <= i < j < text.len() ==> !(#[trigger] text[i] == '.' && #[trigger] text[j] == '.')
}

/// Whether the token is the single character `symbol`.
pub open spec fn is_symbol(token: Seq<char>, symbol: char) -> bool {
    token.len() == 1 && token[0] == symbol
}

/// What a token stands for. A lone `+` or `-` is an operator, not a number.
pub open spec fn token_kind(token: Seq<char>) -> TokenKind {
    if is_decimal_literal(token) {
        TokenKind::Number
    } else if is_symbol(token, '+') {
        TokenKind::Operator(Operator::Add)
    } else if is_symbol(token, '-') {
        TokenKind::Operator(Operator::Subtract)
    } else if is_symbol(token, '*') {
        TokenKind::Operator(Operator::Multiply)
    } else if is_symbol(token, '/') {
        TokenKind::Operator(Operator::Divide)
    } else {
        TokenKind::Other
    }
}

/// What to do for a token of the given kind when the stack holds `depth`
/// operands and `divisor_is_zero` tells whether the operand on top is zero.
///
/// A number is pushed. An operator needs two operands, and a division a
/// divisor other than zero. Any other token is passed over: it is no error
/// and leaves the stack as it is, whatever the stack holds. An open
/// parenthesis that a conversion left over is such a token.
pub open spec fn decision(kind: TokenKind, depth: nat, divisor_is_zero: bool) -> Result<
    Action,
    EvalError,
> {
    match kind {
        TokenKind::Number => Ok(Action::Push),
        TokenKind::Operator(operator) => if depth < 2 {
            Err(EvalError::WrongExpression)
        } else if operator == Operator::Divide && divisor_is_zero {
            Err(EvalError::DivideByZero)
        } else {
            Ok(Action::Apply(operator))
        },
        TokenKind::Other => Ok(Action::Skip),
    }
}

/// The number of operands on the stack after an action.
pub open spec fn depth_after(action: Action, depth: int) -> int {
    match action {
        Action::Push => depth + 1,
        Action::Apply(_) => depth - 1,
        Action::Skip => depth,
    }
}

/// How the evaluation of the tokens goes from an empty stack, where
/// `zero_on_top(i)` tells whether the operand on top of the stack is zero
/// when token `i` is met: the number of operands on the stack after the last
/// token, or the error of the first token that fails.
pub open spec fn run(tokens: Seq<Seq<char>>, zero_on_top: spec_fn(int) -> bool) -> Result<
    nat,
    EvalError,
>
    decreases tokens.len(),
{
    if tokens.len() == 0 {
        Ok(0)
    } else {
        match run(tokens.drop_last(), zero_on_top) {
            Ok(depth) => match decision(
                token_kind(tokens.last()),
                depth,
                zero_on_top(tokens.len() - 1),
            ) {
                Ok(action) => Ok(depth_after(action, depth as int) as nat),
                Err(error) => Err(error),
            },
            Err(error) => Err(error),
        }
    }
}

/// How an evaluation ends that leaves `depth` operands on the stack.
pub open spec fn conclusion(depth: nat) -> Result<(), EvalError> {
    if depth > 0 {
        Ok(())
    } else {
        Err(EvalError::WrongExpression)
    }
}

/// The number of operands on the stack after the tokens are worked off from
/// a stack of `depth` operands, where no division finds zero on top, or
/// `None` where an operator finds fewer than two operands.
pub open spec fn operands_after(tokens: Seq<Seq<char>>, depth: nat) -> Option<nat>
    decreases tokens.len(),
{
    if tokens.len() == 0 {
        Some(depth)
    } else {
        match operands_after(tokens.drop_last(), depth) {
            Some(before) => match decision(token_kind(tokens.last()), before, false) {
                Ok(action) => Some(depth_after(action, before as int) as nat),
                Err(_) => None,
            },
            None => None,
        }
    }
}

/// Working off tokens in two parts is working off the second part from the
/// stack that the first part leaves.
pub proof fn lemma_operands_after_concat(first: Seq<Seq<char>>, second: Seq<Seq<char>>, depth: nat)
    ensures
        operands_after(first + second, depth) == match operands_after(first, depth) {
            Some(middle) => operands_after(second, middle),
            None => None,
        },
    decreases second.len(),
{
    if second.len() == 0 {
        assert(first + second == first);
    } else {
        assert((first + second).drop_last() == first + second.drop_last());
        lemma_operands_after_concat(first, second.drop_last(), depth);
    }
}

/// Zero divisors are the only difference between evaluations of the same
/// tokens: where the tokens leave a number of operands if no division finds
/// zero on top, they leave as many whatever the stack holds, unless a
/// division by zero ends the evaluation before.
pub proof fn lemma_run_fails_only_by_zero(
    tokens: Seq<Seq<char>>,
    zero_on_top: spec_fn(int) -> bool,
)
    requires
        operands_after(tokens, 0) is Some,
    ensures
        run(tokens, zero_on_top) == Ok::<nat, EvalError>(operands_after(tokens, 0)->Some_0) || run(
            tokens,
            zero_on_top,
        ) == Err::<nat, EvalError>(EvalError::DivideByZero),
    decreases tokens.len(),
{
    if tokens.len() > 0 {
        lemma_run_fails_only_by_zero(tokens.drop_last(), zero_on_top);
    }
}

impl EvalError {
    /// The text of the error.
    pub open spec fn message_text(self) -> Seq<char> {
        match self {
            EvalError::WrongExpression => "Wrong expression"@,
            EvalError::DivideByZero => "Cannot divide by zero"@,
        }
    }

    /// Writes the text of the error.
    pub fn message(&self) -> (text: String)
        ensures
            text@ == self.message_text(),
    {
        match self {
            EvalError::WrongExpression => String::from_str("Wrong expression"),
            EvalError::DivideByZero => String::from_str("Cannot divide by zero"),
        }
    }
}

/// Tells whether the token is a decimal literal.
pub fn decimal_literal(token: &str) -> (r: bool)
    ensures
        r == is_decimal_literal(token@),
{
    let ghost text = token@;
    let ghost start = sign_len(text);
    let mut first = true;
    let mut digits = false;
    let mut point = false;
    for c in chars: token.chars()
        invariant
            chars.seq() == text,
            text == token@,
            start == sign_len(text),
            first <==> chars.index() == 0,
            forall|i: int| start <= i < chars.index() ==> is_number_char(#[trigger] text[i]),
            digits <==> exists|i: int| start <= i < chars.index() && is_digit(#[trigger] text[i]),
            point <==> exists|i: int| start <= i < chars.index() && #[trigger] text[i] == '.',
            forall|i: int, j: int|
                start <= i < j < chars.index() ==> !(#[trigger] text[i] == '.' && #[trigger] text[j]
                    == '.'),
    {
        let ghost at = chars.index() as int;
        if first && (c == '+' || c == '-') {
        } else if digit(c) {
            digits = true;
        } else if c == '.' && !point {
            point = true;
        } else {
            proof {
                if c == '.' {
                    let earlier = choose|i: int| start <= i < at && #[trigger] text[i] == '.';
                    assert(text[earlier] == '.' && text[at] == '.');
                } else {
                    assert(!is_number_char(text[at]));
                }
            }
            return false;
        }
        first = false;
    }
    digits
}

/// Tells what a token stands for.
pub fn classify(token: &str) -> (kind: TokenKind)
    ensures
        kind == token_kind(token@),
{
    if decimal_literal(token) {
        return TokenKind::Number;
    }
    if token.unicode_len() != 1 {
        return TokenKind::Other;
    }
    let symbol = token.get_char(0);
    if symbol == '+' {
        TokenKind::Operator(Operator::Add)
    } else if symbol == '-' {
        TokenKind::Operator(Operator::Subtract)
    } else if symbol == '*' {
        TokenKind::Operator(Operator::Multiply)
    } else if symbol == '/' {
        TokenKind::Operator(Operator::Divide)
    } else {
        TokenKind::Other
    }
}

/// Decides what to do for the next token: one step of [`run`].
///
/// `depth` is the number of operands on the stack. `divisor_is_zero` tells
/// whether the operand on top of the stack is zero; it is read only for a
/// division that finds two operands.
pub fn decide(token: &str, depth: usize, divisor_is_zero: bool) -> (r: Result<Action, EvalError>)
    ensures
        r == decision(token_kind(token@), depth as nat, divisor_is_zero),
        r matches Ok(action) ==> 0 <= depth_after(action, depth as int),
{
    match classify(token) {
        TokenKind::Number => Ok(Action::Push),
        TokenKind::Operator(operator) => {
            if depth < 2 {
                Err(EvalError::WrongExpression)
            } else {
                match operator {
                    Operator::Divide => if divisor_is_zero {
                        Err(EvalError::DivideByZero)
                    } else {
                        Ok(Action::Apply(operator))
                    },
                    _ => Ok(Action::Apply(operator)),
                }
            }
        },
        TokenKind::Other => Ok(Action::Skip),
    }
}

/// Decides how an evaluation ends when the stack holds `depth` operands
/// after the last token: the operand on top is the result, and an empty
/// stack is an error. Operands below the top are left over without notice.
pub fn conclude(depth: usize) -> (r: Result<(), EvalError>)
    ensures
        r == conclusion(depth as nat),
{
    if depth > 0 {
        Ok(())
    } else {
        Err(EvalError::WrongExpression)
    }
}

} // verus!
