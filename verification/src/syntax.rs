//! Well-formed expressions as syntax trees.
//!
//! A tree says how an expression is meant: which operands each operator
//! joins. Its text is the expression as it is written, its postfix form is
//! what the conversion owes for that text.

use vstd::prelude::*;
use crate::evaluator::{
    conclusion, is_decimal_literal, lemma_operands_after_concat, lemma_run_fails_only_by_zero,
    operands_after, run, EvalError,
};
use crate::lexis::{binding, is_factor, is_operand_text, is_operator_token, is_sign};
use crate::scan::{
    kept, lemma_read_operand, lemma_resume_concat, lemma_resume_one, popped, resume, rpn_tokens,
    symbol_token, Scan,
};

verus! {

/// An expression.
pub enum Expr {
    /// A number, written with or without a sign.
    Operand(Seq<char>),
    /// Two expressions joined by an operator symbol.
    Binary(char, Box<Expr>, Box<Expr>),
    /// An expression in parentheses.
    Group(Box<Expr>),
    /// An expression with spaces before it and after it.
    Spaced(nat, Box<Expr>, nat),
}

/// A run of spaces.
pub open spec fn spaces(count: nat) -> Seq<char> {
    Seq::new(count, |i: int| ' ')
}

impl Expr {
    /// How tightly the expression holds together: as its operator binds,
    /// and tighter than any operator for an operand or a group.
    pub open spec fn level(self) -> nat
        decreases self,
    {
        match self {
            Expr::Operand(_) => 3,
            Expr::Binary(symbol, _, _) => binding(symbol),
            Expr::Group(_) => 3,
            Expr::Spaced(_, inner, _) => inner.level(),
        }
    }

    /// Whether the tree is the reading of its own text. An operator joins a
    /// left side that holds together at least as tightly as the operator
    /// binds, and a right side that holds together more tightly: operators
    /// of equal precedence associate to the left, and a product is never
    /// split by a sum. An operand is the text of an operand.
    pub open spec fn well_formed(self) -> bool
        decreases self,
    {
        match self {
            Expr::Operand(text) => is_operand_text(text),
            Expr::Binary(symbol, left, right) => {
                &&& is_sign(symbol) || is_factor(symbol)
                &&& left.well_formed()
                &&& right.well_formed()
                &&& left.level() >= binding(symbol)
                &&& right.level() > binding(symbol)
            },
            Expr::Group(inner) => inner.well_formed(),
            Expr::Spaced(_, inner, _) => inner.well_formed(),
        }
    }

    /// The expression as it is written.
    pub open spec fn text(self) -> Seq<char>
        decreases self,
    {
        match self {
            Expr::Operand(text) => text,
            Expr::Binary(symbol, left, right) => left.text() + seq![symbol] + right.text(),
            Expr::Group(inner) => seq!['('] + inner.text() + seq![')'],
            Expr::Spaced(before, inner, after) => spaces(before) + inner.text() + spaces(after),
        }
    }

    /// The expression in postfix notation: the operands in the order of the
    /// text, each operator after the two expressions it joins, and neither
    /// parentheses nor spaces.
    pub open spec fn postfix(self) -> Seq<Seq<char>>
        decreases self,
    {
        match self {
            Expr::Operand(text) => seq![text],
            Expr::Binary(symbol, left, right) => (left.postfix() + right.postfix()).push(
                symbol_token(symbol),
            ),
            Expr::Group(inner) => inner.postfix(),
            Expr::Spaced(_, inner, _) => inner.postfix(),
        }
    }
}

impl Expr {
    /// Whether every operand of the expression is a decimal literal.
    pub open spec fn has_literal_operands(self) -> bool
        decreases self,
    {
        match self {
            Expr::Operand(text) => is_decimal_literal(text),
            Expr::Binary(_, left, right) => left.has_literal_operands()
                && right.has_literal_operands(),
            Expr::Group(inner) => inner.has_literal_operands(),
            Expr::Spaced(_, inner, _) => inner.has_literal_operands(),
        }
    }

    /// A well-formed expression holds together as tightly as some operator
    /// binds, or tighter.
    pub proof fn lemma_level(self)
        requires
            self.well_formed(),
        ensures
            1 <= self.level() <= 3,
        decreases self,
    {
        match self {
            Expr::Spaced(_, inner, _) => inner.lemma_level(),
            _ => {},
        }
    }
}

/// Whether the stack is empty or its topmost symbol binds less tightly than
/// `level`, so that an operator of that level pops nothing from it.
pub open spec fn holds_below(operators: Seq<char>, level: nat) -> bool {
    operators.len() == 0 || binding(operators.last()) < level
}

/// What holds after an expression was read from `before` on: the stack of
/// `before` is untouched, what lies above it binds at least as tightly as
/// the expression holds together, and once the number being read and the
/// symbols above the old stack are emitted, the output has grown by the
/// postfix form of the expression.
pub open spec fn reads(before: Scan, expr: Expr, after: Scan) -> bool {
    let base = before.operators.len() as int;
    &&& !after.expect_operand
    &&& after.operators.len() >= base
    &&& after.operators.take(base) == before.operators
    &&& forall|i: int|
        base <= i < after.operators.len() ==> binding(#[trigger] after.operators[i])
            >= expr.level()
    &&& after.flush().output + popped(after.operators, base as nat) == before.output
        + expr.postfix()
}

/// An operator pops exactly the symbols above `base` where all of them bind
/// at least as tightly as the operator and the stack below does not.
pub proof fn lemma_kept_above(operators: Seq<char>, base: int, level: nat)
    requires
        0 <= base <= operators.len(),
        forall|i: int| base <= i < operators.len() ==> binding(#[trigger] operators[i]) >= level,
        holds_below(operators.take(base), level),
    ensures
        kept(operators, level) == base,
    decreases operators.len() - base,
{
    if base == operators.len() {
        assert(operators.take(base) == operators);
    } else {
        let front = operators.drop_last();
        assert forall|i: int| base <= i < front.len() implies binding(#[trigger] front[i])
            >= level by {
            assert(front[i] == operators[i]);
        }
        lemma_kept_above(front, base, level);
    }
}

/// Reading spaces completes the number being read and changes nothing else.
pub proof fn lemma_read_spaces(state: Scan, count: nat)
    ensures
        resume(state, spaces(count)) == Ok::<Scan, char>(
            if count == 0 {
                state
            } else {
                state.flush()
            },
        ),
    decreases count,
{
    if count > 0 {
        let shorter = (count - 1) as nat;
        assert(spaces(count).drop_last() == spaces(shorter));
        lemma_read_spaces(state, shorter);
    }
}

/// From a state that expects an operand, reading the text of a well-formed
/// expression leaves the state that [`reads`] describes.
pub proof fn lemma_read_expr(before: Scan, expr: Expr)
    requires
        expr.well_formed(),
        before.number.len() == 0,
        before.expect_operand,
        holds_below(before.operators, expr.level()),
    ensures
        resume(before, expr.text()) matches Ok(after) && reads(before, expr, after),
    decreases expr,
{
    let base = before.operators.len() as int;
    match expr {
        Expr::Operand(text) => {
            lemma_read_operand(before, text);
            let after = Scan { number: text, expect_operand: false, ..before };
            assert(after.operators.take(base) == before.operators);
            assert(after.flush().output + popped(after.operators, base as nat) == before.output
                + expr.postfix());
        },
        Expr::Binary(symbol, left, right) => {
            let level = binding(symbol);
            // The left side.
            lemma_read_expr(before, *left);
            let middle = resume(before, left.text())->Ok_0;
            // The operator: it pops what the left side left on the stack.
            let ready = middle.flush();
            lemma_kept_above(middle.operators, base, level);
            let joined = Scan {
                output: before.output + left.postfix(),
                operators: before.operators.push(symbol),
                number: Seq::empty(),
                expect_operand: true,
            };
            assert(middle.step(symbol) == Ok::<Scan, char>(joined)) by {
                let drained = ready.drain(level);
                assert(drained.number == Seq::<char>::empty());
            }
            lemma_resume_one(middle, symbol);
            lemma_resume_concat(before, left.text(), seq![symbol]);
            // The right side.
            lemma_read_expr(joined, *right);
            lemma_resume_concat(before, left.text() + seq![symbol], right.text());
            let after = resume(joined, right.text())->Ok_0;
            assert(after.operators.take(base) == before.operators) by {
                assert(after.operators.take(base + 1).take(base) == after.operators.take(base));
            }
            assert(after.operators[base] == symbol) by {
                assert(after.operators.take(base + 1)[base] == symbol);
            }
            assert(popped(after.operators, base as nat) == popped(
                after.operators,
                (base + 1) as nat,
            ).push(symbol_token(symbol)));
            assert(after.flush().output + popped(after.operators, base as nat) == before.output
                + expr.postfix()) by {
                let done = after.flush().output + popped(after.operators, (base + 1) as nat);
                assert(after.flush().output + popped(after.operators, base as nat) == done.push(
                    symbol_token(symbol),
                ));
                assert(before.output + expr.postfix() == (before.output + left.postfix()
                    + right.postfix()).push(symbol_token(symbol)));
            }
        },
        Expr::Group(inner) => {
            let opened = Scan { operators: before.operators.push('('), ..before };
            lemma_resume_one(before, '(');
            inner.lemma_level();
            lemma_read_expr(opened, *inner);
            let filled = resume(opened, inner.text())->Ok_0;
            lemma_resume_concat(before, seq!['('], inner.text());
            // The closing parenthesis pops down to the open one and drops it.
            lemma_kept_above(filled.operators, base + 1, 1);
            let after = Scan {
                output: before.output + inner.postfix(),
                operators: before.operators,
                number: Seq::empty(),
                expect_operand: false,
            };
            assert(filled.step(')') == Ok::<Scan, char>(after)) by {
                let ready = filled.flush();
                let drained = ready.drain(1);
                assert(drained.operators.drop_last() == before.operators);
                assert(drained.number == Seq::<char>::empty());
            }
            lemma_resume_one(filled, ')');
            lemma_resume_concat(before, seq!['('] + inner.text(), seq![')']);
            assert(after.operators.take(base) == before.operators);
            assert(after.flush().output + popped(after.operators, base as nat) == before.output
                + expr.postfix());
        },
        Expr::Spaced(leading, inner, trailing) => {
            lemma_read_spaces(before, leading);
            lemma_read_expr(before, *inner);
            let read = resume(before, inner.text())->Ok_0;
            lemma_read_spaces(read, trailing);
            lemma_resume_concat(before, spaces(leading), inner.text());
            lemma_resume_concat(before, spaces(leading) + inner.text(), spaces(trailing));
        },
    }
}

/// The conversion is correct: the postfix form of the text of a well-formed
/// expression is the postfix form of the expression. Precedence, left
/// associativity, parentheses and signs are all read as the tree says.
pub proof fn conversion_is_postfix(expr: Expr)
    requires
        expr.well_formed(),
    ensures
        rpn_tokens(expr.text()) == Ok::<Seq<Seq<char>>, char>(expr.postfix()),
{
    lemma_read_expr(Scan::start(), expr);
}

/// The postfix form of a well-formed expression holds operands and operator
/// symbols only: no parenthesis is left in it.
pub proof fn postfix_has_no_parenthesis(expr: Expr)
    requires
        expr.well_formed(),
    ensures
        forall|i: int|
            0 <= i < expr.postfix().len() ==> is_operand_text(#[trigger] expr.postfix()[i])
                || is_operator_token(expr.postfix()[i]),
    decreases expr,
{
    let tokens = expr.postfix();
    match expr {
        Expr::Operand(text) => {
            assert forall|i: int| 0 <= i < tokens.len() implies is_operand_text(
                #[trigger] tokens[i],
            ) by {
                assert(tokens[i] == text);
            }
        },
        Expr::Binary(symbol, left, right) => {
            postfix_has_no_parenthesis(*left);
            postfix_has_no_parenthesis(*right);
            assert forall|i: int| 0 <= i < tokens.len() implies is_operand_text(
                #[trigger] tokens[i],
            ) || is_operator_token(tokens[i]) by {
                if i < left.postfix().len() {
                    assert(tokens[i] == left.postfix()[i]);
                } else if i < left.postfix().len() + right.postfix().len() {
                    assert(tokens[i] == right.postfix()[i - left.postfix().len()]);
                } else {
                    assert(tokens[i] == symbol_token(symbol));
                }
            }
        },
        Expr::Group(inner) => {
            postfix_has_no_parenthesis(*inner);
            assert(tokens == inner.postfix());
        },
        Expr::Spaced(_, inner, _) => {
            postfix_has_no_parenthesis(*inner);
            assert(tokens == inner.postfix());
        },
    }
}

/// The postfix form of a well-formed expression is worked off without a
/// shortage of operands, and adds exactly one operand to the stack.
pub proof fn postfix_adds_one_operand(expr: Expr, depth: nat)
    requires
        expr.well_formed(),
        expr.has_literal_operands(),
    ensures
        operands_after(expr.postfix(), depth) == Some(depth + 1),
    decreases expr,
{
    match expr {
        Expr::Operand(text) => {
            let tokens = seq![text];
            assert(operands_after(tokens.drop_last(), depth) == Some(depth));
        },
        Expr::Binary(symbol, left, right) => {
            postfix_adds_one_operand(*left, depth);
            postfix_adds_one_operand(*right, depth + 1);
            lemma_operands_after_concat(left.postfix(), right.postfix(), depth);
            let operands = left.postfix() + right.postfix();
            assert(expr.postfix().drop_last() == operands);
            let token = symbol_token(symbol);
            assert(!is_decimal_literal(token)) by {
                assert(token[0] == symbol);
            }
        },
        Expr::Group(inner) => {
            postfix_adds_one_operand(*inner, depth);
        },
        Expr::Spaced(_, inner, _) => {
            postfix_adds_one_operand(*inner, depth);
        },
    }
}

/// A well-formed expression over decimal literals has a value unless it
/// divides by zero. Its text converts to postfix tokens; whatever the
/// operands are, the evaluation of these tokens either leaves exactly one
/// operand, the result, or ends at a division by zero. It never runs short
/// of operands.
pub proof fn well_formed_expression_fails_only_by_zero(
    expr: Expr,
    zero_on_top: spec_fn(int) -> bool,
)
    requires
        expr.well_formed(),
        expr.has_literal_operands(),
    ensures
        rpn_tokens(expr.text()) matches Ok(tokens) && {
            ||| run(tokens, zero_on_top) == Ok::<nat, EvalError>(1) && conclusion(1) is Ok
            ||| run(tokens, zero_on_top) == Err::<nat, EvalError>(EvalError::DivideByZero)
        },
{
    conversion_is_postfix(expr);
    postfix_adds_one_operand(expr, 0);
    lemma_run_fails_only_by_zero(expr.postfix(), zero_on_top);
}

} // verus!
