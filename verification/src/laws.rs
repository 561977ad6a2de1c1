//! What holds of every conversion: the shape of the postfix tokens, the
//! postfix form of numbers and of sums, and the way back from a line of
//! postfix text to its tokens.

use vstd::prelude::*;
use crate::calculator::rpn_text;
use crate::evaluator::{
    decision, is_decimal_literal, operands_after, token_kind, Action, EvalError, TokenKind,
};
use crate::lexis::{
    binding, is_factor, is_number_char, is_number_text, is_operand_text, is_rpn_token,
    is_stack_symbol, sign_len,
};
use crate::scan::{lemma_kept_boundary, rpn_tokens, scan, symbol_token, Scan};
use crate::syntax::{conversion_is_postfix, postfix_adds_one_operand, Expr};
use crate::text::{join_spaced, split_spaced};

verus! {

/// Draining keeps a state well formed and does not change its size.
proof fn lemma_drain_shape(state: Scan, level: nat)
    requires
        state.well_formed(),
    ensures
        state.drain(level).well_formed(),
        state.drain(level).size() == state.size(),
        state.drain(level).operators.len() <= state.operators.len(),
{
    lemma_kept_boundary(state.operators, level);
    let after = state.drain(level);
    assert forall|i: int| 0 <= i < after.output.len() implies is_rpn_token(
        #[trigger] after.output[i],
    ) by {
        if i >= state.output.len() {
            let k = i - state.output.len();
            let symbol = state.operators[state.operators.len() - 1 - k];
            assert(is_stack_symbol(symbol));
            assert(after.output[i] == symbol_token(symbol));
        } else {
            assert(after.output[i] == state.output[i]);
        }
    }
    assert forall|i: int| 0 <= i < after.operators.len() implies is_stack_symbol(
        #[trigger] after.operators[i],
    ) by {
        assert(after.operators[i] == state.operators[i]);
    }
}

/// Reading a character keeps a state well formed and adds at most one token.
proof fn lemma_step_shape(state: Scan, c: char)
    requires
        state.well_formed(),
    ensures
        state.step(c) matches Ok(next) ==> next.well_formed() && next.size() <= state.size() + 1,
{
    if is_number_char(c) {
        let next = state.extend(c);
        assert forall|i: int| sign_len(next.number) <= i < next.number.len() implies is_number_char(
            #[trigger] next.number[i],
        ) by {
            if i < state.number.len() {
                assert(next.number[i] == state.number[i]);
            }
        }
    } else {
        let ready = state.flush();
        assert(ready.well_formed() && ready.size() == state.size() && ready.number.len() == 0) by {
            if state.number.len() > 0 {
                assert forall|i: int| 0 <= i < ready.output.len() implies is_rpn_token(
                    #[trigger] ready.output[i],
                ) by {
                    if i < state.output.len() {
                        assert(ready.output[i] == state.output[i]);
                    }
                }
            }
        }
        lemma_drain_shape(ready, 1);
        lemma_drain_shape(ready, binding(c));
        match state.step(c) {
            Ok(next) => {
                assert forall|i: int| 0 <= i < next.operators.len() implies is_stack_symbol(
                    #[trigger] next.operators[i],
                ) by {
                    if c == ')' {
                        assert(next.operators[i] == ready.drain(1).operators[i]);
                    } else if c == '(' {
                        if i < ready.operators.len() {
                            assert(next.operators[i] == ready.operators[i]);
                        }
                    } else if c != ' ' && !ready.expect_operand || is_factor(c) {
                        let drained = ready.drain(binding(c));
                        if i < drained.operators.len() {
                            assert(next.operators[i] == drained.operators[i]);
                        }
                    }
                }
            },
            Err(_) => {},
        }
    }
}

/// Every state of a conversion is well formed and accounts for no more
/// tokens than characters were read.
pub proof fn lemma_scan_shape(input: Seq<char>)
    ensures
        scan(input) matches Ok(state) ==> state.well_formed() && state.size() <= input.len(),
    decreases input.len(),
{
    if input.len() > 0 {
        lemma_scan_shape(input.drop_last());
        match scan(input.drop_last()) {
            Ok(before) => {
                lemma_step_shape(before, input.last());
            },
            Err(_) => {},
        }
    }
}

/// The postfix form of an expression holds postfix tokens only: each is the
/// text of a number or a single stack symbol, so none is empty and none
/// holds a space. There are no more tokens than the expression has
/// characters.
pub proof fn rpn_tokens_shape(equation: Seq<char>)
    ensures
        rpn_tokens(equation) matches Ok(tokens) ==> {
            &&& tokens.len() <= equation.len()
            &&& forall|i: int| 0 <= i < tokens.len() ==> is_rpn_token(#[trigger] tokens[i])
        },
{
    lemma_scan_shape(equation);
    match scan(equation) {
        Ok(state) => {
            let ready = state.flush();
            lemma_step_shape(state, ' ');
            assert(ready.well_formed() && ready.size() == state.size()) by {
                if state.number.len() > 0 {
                    assert forall|i: int| 0 <= i < ready.output.len() implies is_rpn_token(
                        #[trigger] ready.output[i],
                    ) by {
                        if i < state.output.len() {
                            assert(ready.output[i] == state.output[i]);
                        }
                    }
                }
            }
            let tokens = state.finish();
            assert forall|i: int| 0 <= i < tokens.len() implies is_rpn_token(#[trigger] tokens[i]) by {
                if i >= ready.output.len() {
                    let k = i - ready.output.len();
                    let symbol = ready.operators[ready.operators.len() - 1 - k];
                    assert(is_stack_symbol(symbol));
                    assert(tokens[i] == symbol_token(symbol));
                } else {
                    assert(tokens[i] == ready.output[i]);
                }
            }
        },
        Err(_) => {},
    }
}

/// A number converts to itself: the postfix form of the text of an operand
/// is that text as the only token.
pub proof fn operand_converts_to_itself(operand: Seq<char>)
    requires
        is_operand_text(operand),
    ensures
        rpn_tokens(operand) == Ok::<Seq<Seq<char>>, char>(seq![operand]),
{
    conversion_is_postfix(Expr::Operand(operand));
}

/// A decimal literal, such as the text of an earlier result, is an
/// expression of its own: its postfix form is the literal as the only token,
/// that token stands for a number, and working it off leaves that number as
/// the result.
pub proof fn literal_converts_to_itself(literal: Seq<char>)
    requires
        is_decimal_literal(literal),
    ensures
        rpn_tokens(literal) == Ok::<Seq<Seq<char>>, char>(seq![literal]),
        token_kind(literal) == TokenKind::Number,
        decision(token_kind(literal), 0, false) == Ok::<Action, EvalError>(Action::Push),
        operands_after(seq![literal], 0) == Some(1nat),
{
    operand_converts_to_itself(literal);
    postfix_adds_one_operand(Expr::Operand(literal), 0);
}

/// The operands written as a sum: each joined to the next by a `+`.
pub open spec fn sum_text(operands: Seq<Seq<char>>) -> Seq<char>
    decreases operands.len(),
{
    if operands.len() == 0 {
        Seq::empty()
    } else if operands.len() == 1 {
        operands[0]
    } else {
        sum_text(operands.drop_last()) + seq!['+'] + operands.last()
    }
}

/// The operands summed from left to right in postfix notation: the first
/// operand, then each further operand followed by a `+`.
pub open spec fn sum_rpn(operands: Seq<Seq<char>>) -> Seq<Seq<char>>
    decreases operands.len(),
{
    if operands.len() == 0 {
        Seq::empty()
    } else if operands.len() == 1 {
        seq![operands[0]]
    } else {
        sum_rpn(operands.drop_last()).push(operands.last()).push(seq!['+'])
    }
}

/// The sum as a tree: each `+` joins all that stands before it to the
/// operand after it.
spec fn sum_expr(operands: Seq<Seq<char>>) -> Expr
    decreases operands.len(),
{
    if operands.len() <= 1 {
        Expr::Operand(operands[0])
    } else {
        Expr::Binary(
            '+',
            Box::new(sum_expr(operands.drop_last())),
            Box::new(Expr::Operand(operands.last())),
        )
    }
}

proof fn lemma_sum_expr(operands: Seq<Seq<char>>)
    requires
        operands.len() > 0,
        forall|i: int| 0 <= i < operands.len() ==> is_operand_text(#[trigger] operands[i]),
    ensures
        sum_expr(operands).well_formed(),
        sum_expr(operands).text() == sum_text(operands),
        sum_expr(operands).postfix() == sum_rpn(operands),
    decreases operands.len(),
{
    if operands.len() > 1 {
        let front = operands.drop_last();
        assert forall|i: int| 0 <= i < front.len() implies is_operand_text(#[trigger] front[i]) by {
            assert(front[i] == operands[i]);
        }
        lemma_sum_expr(front);
        let left = sum_expr(front);
        let right = Expr::Operand(operands.last());
        left.lemma_level();
        assert(right.well_formed() && right.level() == 3);
        assert(right.text() == operands.last());
        assert(right.postfix() == seq![operands.last()]);
    }
}

/// A sum needs no reordering: the postfix form of operands joined by `+` is
/// the first operand, then each further operand followed by its `+`, in the
/// order of the expression. This covers every expression written with
/// digits, decimal points and `+` alone in which a `+` joins each operand to
/// the next; an operand may carry a sign of its own.
pub proof fn sum_converts_left_to_right(operands: Seq<Seq<char>>)
    requires
        operands.len() > 0,
        forall|i: int| 0 <= i < operands.len() ==> is_operand_text(#[trigger] operands[i]),
    ensures
        rpn_tokens(sum_text(operands)) == Ok::<Seq<Seq<char>>, char>(sum_rpn(operands)),
{
    lemma_sum_expr(operands);
    conversion_is_postfix(sum_expr(operands));
}

/// Appending a word without spaces to a line extends the last piece of the
/// line by that word.
pub proof fn lemma_split_word(line: Seq<char>, word: Seq<char>)
    requires
        forall|i: int| 0 <= i < word.len() ==> #[trigger] word[i] != ' ',
    ensures
        split_spaced(line).len() > 0,
        split_spaced(line + word) == split_spaced(line).drop_last().push(
            split_spaced(line).last() + word,
        ),
    decreases word.len(),
{
    lemma_split_nonempty(line);
    let pieces = split_spaced(line);
    if word.len() == 0 {
        assert(line + word == line);
    } else {
        let front = word.drop_last();
        assert forall|i: int| 0 <= i < front.len() implies #[trigger] front[i] != ' ' by {
            assert(front[i] == word[i]);
        }
        lemma_split_word(line, front);
        assert((line + word).drop_last() == line + front);
        assert((pieces.last() + front).push(word.last()) == pieces.last() + word);
    }
}

/// Every line has at least one piece.
pub proof fn lemma_split_nonempty(line: Seq<char>)
    ensures
        split_spaced(line).len() > 0,
    decreases line.len(),
{
    if line.len() > 0 {
        lemma_split_nonempty(line.drop_last());
    }
}

/// Splitting undoes joining: the pieces of a line of tokens joined by
/// single spaces are the tokens, where there is at least one token and no
/// token holds a space.
pub proof fn split_undoes_join(tokens: Seq<Seq<char>>)
    requires
        tokens.len() > 0,
        forall|i: int, j: int|
            0 <= i < tokens.len() && 0 <= j < tokens[i].len() ==> #[trigger] tokens[i][j] != ' ',
    ensures
        split_spaced(join_spaced(tokens)) == tokens,
    decreases tokens.len(),
{
    let last = tokens.last();
    assert forall|j: int| 0 <= j < last.len() implies #[trigger] last[j] != ' ' by {
        assert(tokens[tokens.len() - 1][j] != ' ');
    }
    if tokens.len() == 1 {
        lemma_split_word(Seq::empty(), last);
    } else {
        let front = tokens.drop_last();
        assert forall|i: int, j: int| 0 <= i < front.len() && 0 <= j < front[i].len() implies
            #[trigger] front[i][j] != ' ' by {
            assert(front[i] == tokens[i]);
        }
        split_undoes_join(front);
        let line = join_spaced(front) + seq![' '];
        assert(line.drop_last() == join_spaced(front));
        lemma_split_word(line, last);
    }
}

/// The postfix text of an expression leads back to its tokens: where the
/// postfix form of an expression has at least one token, as that of every
/// expression with a value has, the pieces between the spaces of its postfix
/// text are its postfix tokens. So evaluating the text piece by piece is
/// evaluating the expression.
pub proof fn rpn_text_round_trip(equation: Seq<char>)
    ensures
        rpn_tokens(equation) matches Ok(tokens) ==> tokens.len() > 0 ==> (rpn_text(equation)
            matches Ok(line) && split_spaced(line) == tokens),
{
    rpn_tokens_shape(equation);
    match rpn_tokens(equation) {
        Ok(tokens) => {
            if tokens.len() > 0 {
                assert forall|i: int, j: int|
                    0 <= i < tokens.len() && 0 <= j < tokens[i].len() implies #[trigger] tokens[i][j]
                    != ' ' by {
                    if j >= sign_len(tokens[i]) && is_number_text(tokens[i]) {
                        assert(is_number_char(tokens[i][j]));
                    }
                }
                split_undoes_join(tokens);
            }
        },
        Err(_) => {},
    }
}

} // verus!
