//! Character classes of the expression language.
//!
//! An expression is written with the decimal digits, the decimal point, the
//! four operator symbols, the two parentheses and the space. Every other
//! character is foreign to the language.

use vstd::prelude::*;

verus! {

/// The decimal digits `0` to `9`.
pub open spec fn is_digit(c: char) -> bool {
    '0' <= c && c <= '9'
}

/// The characters a number is written with: the digits and the decimal point.
pub open spec fn is_number_char(c: char) -> bool {
    is_digit(c) || c == '.'
}

/// The additive symbols, which double as the sign of a number.
pub open spec fn is_sign(c: char) -> bool {
    c == '+' || c == '-'
}

/// The multiplicative symbols.
pub open spec fn is_factor(c: char) -> bool {
    c == '*' || c == '/'
}

/// The characters an expression may contain.
pub open spec fn is_known(c: char) -> bool {
    is_number_char(c) || is_sign(c) || is_factor(c) || c == '(' || c == ')' || c == ' '
}

/// How tightly a symbol on the operator stack binds: an open parenthesis does
/// not bind at all, the additive symbols bind loosely, everything else binds
/// tightly.
pub open spec fn binding(symbol: char) -> nat {
    if symbol == '(' {
        0
    } else if is_sign(symbol) {
        1
    } else {
        2
    }
}

/// The symbols that the operator stack holds: the four operators and the
/// open parenthesis.
pub open spec fn is_stack_symbol(c: char) -> bool {
    is_sign(c) || is_factor(c) || c == '('
}

/// The length of the sign that a text starts with: one for a leading `+` or
/// `-`, zero otherwise.
pub open spec fn sign_len(text: Seq<char>) -> int {
    if text.len() > 0 && is_sign(text[0]) {
        1
    } else {
        0
    }
}

/// The text of a number as the conversion reads it: an optional sign, then
/// digits and decimal points in any number.
pub open spec fn is_number_text(text: Seq<char>) -> bool {
    forall|i: int| sign_len(text) <= i < text.len() ==> is_number_char(#[trigger] text[i])
}

/// The text of an operand: an optional sign, then at least one digit or
/// decimal point.
pub open spec fn is_operand_text(text: Seq<char>) -> bool {
    sign_len(text) < text.len() && is_number_text(text)
}

/// The token of an operator: one of the four operator symbols by itself.
pub open spec fn is_operator_token(token: Seq<char>) -> bool {
    token.len() == 1 && (is_sign(token[0]) || is_factor(token[0]))
}

/// A postfix token: the text of a number, or one symbol of the operator
/// stack.
pub open spec fn is_rpn_token(token: Seq<char>) -> bool {
    token.len() > 0 && (is_number_text(token) || (token.len() == 1 && is_stack_symbol(token[0])))
}

/// Tells whether `c` is a decimal digit.
pub fn digit(c: char) -> (r: bool)
    ensures
        r == is_digit(c),
{
    '0' <= c && c <= '9'
}

/// Tells whether `c` is a digit or the decimal point.
pub fn number_char(c: char) -> (r: bool)
    ensures
        r == is_number_char(c),
{
    digit(c) || c == '.'
}

/// Computes the binding strength of a symbol on the operator stack.
pub fn binding_of(symbol: char) -> (r: u8)
    ensures
        r == binding(symbol),
{
    if symbol == '(' {
        0
    } else if symbol == '+' || symbol == '-' {
        1
    } else {
        2
    }
}

} // verus!
