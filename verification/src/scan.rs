//! The conversion from infix to postfix notation, as a machine that reads an
//! expression one character at a time.
//!
//! The machine keeps the postfix tokens emitted so far, a stack of pending
//! operators and open parentheses, the characters of the number being read,
//! and whether an operand is expected next. Operators leave the stack in the
//! order that precedence and left associativity prescribe.

use vstd::prelude::*;
use crate::lexis::{
    binding, is_factor, is_known, is_number_char, is_number_text, is_operand_text, is_rpn_token,
    is_sign, is_stack_symbol, sign_len,
};

verus! {

/// The state of the conversion after some prefix of the expression.
pub struct Scan {
    /// The postfix tokens emitted so far.
    pub output: Seq<Seq<char>>,
    /// The pending operators and open parentheses, the most recent last.
    pub operators: Seq<char>,
    /// The characters read of a number that is not yet complete.
    pub number: Seq<char>,
    /// Whether an operand is expected next. A `+` or `-` met in this state is
    /// the sign of the number that follows, not an operator.
    pub expect_operand: bool,
}

/// The token that stands for one symbol of the operator stack.
pub open spec fn symbol_token(symbol: char) -> Seq<char> {
    seq![symbol]
}

/// How many symbols, counted from the bottom of the stack, stay when every
/// symbol on top that binds at least as tightly as `level` is popped.
pub open spec fn kept(operators: Seq<char>, level: nat) -> nat
    decreases operators.len(),
{
    if operators.len() == 0 || binding(operators.last()) < level {
        operators.len()
    } else {
        kept(operators.drop_last(), level)
    }
}

/// The tokens of the symbols above the lowest `count`, topmost first.
pub open spec fn popped(operators: Seq<char>, count: nat) -> Seq<Seq<char>> {
    Seq::new(
        (operators.len() - count) as nat,
        |i: int| symbol_token(operators[operators.len() - 1 - i]),
    )
}

impl Scan {
    /// The state before the first character: nothing read, an operand expected.
    pub open spec fn start() -> Scan {
        Scan { output: Seq::empty(), operators: Seq::empty(), number: Seq::empty(), expect_operand: true }
    }

    /// Completes the number being read, if any, and emits it as a token.
    pub open spec fn flush(self) -> Scan {
        if self.number.len() == 0 {
            self
        } else {
            Scan { output: self.output.push(self.number), number: Seq::empty(), ..self }
        }
    }

    /// Pops every symbol on top of the stack that binds at least as tightly
    /// as `level`, and emits each as a token.
    pub open spec fn drain(self, level: nat) -> Scan {
        let count = kept(self.operators, level);
        Scan {
            output: self.output + popped(self.operators, count),
            operators: self.operators.take(count as int),
            ..self
        }
    }

    /// Reads an open parenthesis: it is stacked, and an operand is expected.
    pub open spec fn open(self) -> Scan {
        Scan { operators: self.operators.push('('), expect_operand: true, ..self }
    }

    /// Reads a closing parenthesis: the operators above the nearest open
    /// parenthesis are emitted and that parenthesis is dropped. Without an
    /// open parenthesis the whole stack is emitted.
    pub open spec fn close(self) -> Scan {
        let drained = self.drain(1);
        let below = if drained.operators.len() == 0 {
            drained.operators
        } else {
            drained.operators.drop_last()
        };
        Scan { operators: below, expect_operand: false, ..drained }
    }

    /// Reads a binary operator: the stacked operators that bind at least as
    /// tightly are emitted first, then the operator is stacked.
    pub open spec fn operator(self, symbol: char) -> Scan {
        let drained = self.drain(binding(symbol));
        Scan { operators: drained.operators.push(symbol), expect_operand: true, ..drained }
    }

    /// Reads one more character of a number.
    pub open spec fn extend(self, c: char) -> Scan {
        Scan { number: self.number.push(c), expect_operand: false, ..self }
    }

    /// Reads a `+` or `-` where an operand is expected: it starts the number
    /// that follows.
    pub open spec fn sign(self, c: char) -> Scan {
        Scan { number: self.number.push(c), ..self }
    }

    /// Reads one character. A digit or a decimal point extends the number
    /// being read. Any other character first completes that number. A
    /// character foreign to the language is handed back as the error.
    pub open spec fn step(self, c: char) -> Result<Scan, char> {
        if is_number_char(c) {
            Ok(self.extend(c))
        } else {
            let ready = self.flush();
            if c == '(' {
                Ok(ready.open())
            } else if c == ')' {
                Ok(ready.close())
            } else if is_sign(c) {
                if ready.expect_operand {
                    Ok(ready.sign(c))
                } else {
                    Ok(ready.operator(c))
                }
            } else if is_factor(c) {
                Ok(ready.operator(c))
            } else if c == ' ' {
                Ok(ready)
            } else {
                Err(c)
            }
        }
    }

    /// The postfix tokens at the end of the expression: the number being
    /// read is completed, then the whole stack is emitted, topmost first.
    pub open spec fn finish(self) -> Seq<Seq<char>> {
        let ready = self.flush();
        ready.output + popped(ready.operators, 0)
    }
}

impl Scan {
    /// Every emitted token is a postfix token, the stack holds stack
    /// symbols only, and the number being read is the text of a number.
    pub open spec fn well_formed(self) -> bool {
        &&& forall|i: int| 0 <= i < self.output.len() ==> is_rpn_token(#[trigger] self.output[i])
        &&& forall|i: int|
            0 <= i < self.operators.len() ==> is_stack_symbol(#[trigger] self.operators[i])
        &&& is_number_text(self.number)
    }

    /// The number of tokens that the state accounts for: those emitted,
    /// those stacked and the number being read.
    pub open spec fn size(self) -> nat {
        self.output.len() + self.operators.len() + if self.number.len() > 0 {
            1nat
        } else {
            0nat
        }
    }
}

/// The state after reading `input` from `state` on, or the first character
/// of `input` that is foreign to the language.
pub open spec fn resume(state: Scan, input: Seq<char>) -> Result<Scan, char>
    decreases input.len(),
{
    if input.len() == 0 {
        Ok(state)
    } else {
        match resume(state, input.drop_last()) {
            Ok(before) => before.step(input.last()),
            Err(c) => Err(c),
        }
    }
}

/// The state after reading all of `input`, or the first character of
/// `input` that is foreign to the language.
pub open spec fn scan(input: Seq<char>) -> Result<Scan, char> {
    resume(Scan::start(), input)
}

/// The postfix form of an infix expression, or the first character of the
/// expression that is foreign to the language.
pub open spec fn rpn_tokens(equation: Seq<char>) -> Result<Seq<Seq<char>>, char> {
    match scan(equation) {
        Ok(state) => Ok(state.finish()),
        Err(c) => Err(c),
    }
}

/// What stays on the stack is the part below the topmost symbol that binds
/// less tightly than `level`: every symbol above binds at least as tightly,
/// and the symbol on top of what stays, if any, does not.
pub proof fn lemma_kept_boundary(operators: Seq<char>, level: nat)
    ensures
        kept(operators, level) <= operators.len(),
        forall|i: int|
            kept(operators, level) <= i < operators.len() ==> binding(#[trigger] operators[i])
                >= level,
        kept(operators, level) > 0 ==> binding(operators[kept(operators, level) - 1]) < level,
    decreases operators.len(),
{
    if operators.len() > 0 && binding(operators.last()) >= level {
        let below = operators.drop_last();
        lemma_kept_boundary(below, level);
        assert forall|i: int| kept(operators, level) <= i < operators.len() implies binding(
            #[trigger] operators[i],
        ) >= level by {
            if i < below.len() {
                assert(operators[i] == below[i]);
            }
        }
    }
}

/// Reading a single character is one step.
pub proof fn lemma_resume_one(state: Scan, c: char)
    ensures
        resume(state, seq![c]) == state.step(c),
{
    assert(resume(state, seq![c].drop_last()) == Ok::<Scan, char>(state));
}

/// Reading a text in two parts is reading the second part from the state
/// after the first.
pub proof fn lemma_resume_concat(state: Scan, first: Seq<char>, second: Seq<char>)
    ensures
        resume(state, first + second) == match resume(state, first) {
            Ok(middle) => resume(middle, second),
            Err(c) => Err(c),
        },
    decreases second.len(),
{
    if second.len() == 0 {
        assert(first + second == first);
    } else {
        assert((first + second).drop_last() == first + second.drop_last());
        lemma_resume_concat(state, first, second.drop_last());
    }
}

/// Reading digits and decimal points appends them to the number being read.
pub proof fn lemma_read_number(state: Scan, text: Seq<char>)
    requires
        forall|i: int| 0 <= i < text.len() ==> is_number_char(#[trigger] text[i]),
    ensures
        resume(state, text) == Ok::<Scan, char>(
            Scan {
                number: state.number + text,
                expect_operand: state.expect_operand && text.len() == 0,
                ..state
            },
        ),
    decreases text.len(),
{
    if text.len() == 0 {
        assert(state.number + text == state.number);
    } else {
        let front = text.drop_last();
        assert forall|i: int| 0 <= i < front.len() implies is_number_char(#[trigger] front[i]) by {
            assert(front[i] == text[i]);
        }
        lemma_read_number(state, front);
        assert((state.number + front).push(text.last()) == state.number + text);
    }
}

/// Where an operand is expected and no number is being read, reading the
/// text of an operand makes it the number being read.
pub proof fn lemma_read_operand(state: Scan, operand: Seq<char>)
    requires
        is_operand_text(operand),
        state.number.len() == 0,
        state.expect_operand,
    ensures
        resume(state, operand) == Ok::<Scan, char>(
            Scan { number: operand, expect_operand: false, ..state },
        ),
{
    if sign_len(operand) == 1 {
        let sign = seq![operand[0]];
        let digits = operand.skip(1);
        assert(operand == sign + digits);
        let signed = Scan { number: sign, ..state };
        assert(resume(state, sign) == Ok::<Scan, char>(signed)) by {
            assert(resume(state, sign.drop_last()) == Ok::<Scan, char>(state));
            assert(state.number.push(operand[0]) == sign);
        }
        assert forall|i: int| 0 <= i < digits.len() implies is_number_char(#[trigger] digits[i]) by {
            assert(digits[i] == operand[i + 1]);
        }
        lemma_read_number(signed, digits);
        lemma_resume_concat(state, sign, digits);
    } else {
        lemma_read_number(state, operand);
    }
}

/// Reading one more character continues from the state after the prefix.
pub proof fn lemma_scan_next(input: Seq<char>, n: int)
    requires
        0 <= n < input.len(),
    ensures
        scan(input.take(n + 1)) == match scan(input.take(n)) {
            Ok(state) => state.step(input[n]),
            Err(c) => Err(c),
        },
{
    assert(input.take(n + 1).drop_last() == input.take(n));
}

/// A failure on a prefix is the failure on the whole expression.
pub proof fn lemma_scan_failure_stays(input: Seq<char>, n: int)
    requires
        0 <= n <= input.len(),
        scan(input.take(n)) is Err,
    ensures
        scan(input) == scan(input.take(n)),
    decreases input.len() - n,
{
    if n < input.len() {
        lemma_scan_next(input, n);
        lemma_scan_failure_stays(input, n + 1);
    } else {
        assert(input.take(n) == input);
    }
}

/// The scan fails exactly when the expression holds a foreign character, and
/// then it hands back the first of them.
pub proof fn lemma_scan_failure(input: Seq<char>)
    ensures
        scan(input) is Err <==> exists|i: int| 0 <= i < input.len() && !is_known(#[trigger] input[i]),
        scan(input) matches Err(c) ==> exists|i: int|
            0 <= i < input.len() && #[trigger] input[i] == c && !is_known(c) && forall|j: int|
                0 <= j < i ==> is_known(#[trigger] input[j]),
    decreases input.len(),
{
    if input.len() > 0 {
        let front = input.drop_last();
        lemma_scan_failure(front);
        match scan(front) {
            Ok(state) => {
                assert forall|j: int| 0 <= j < front.len() implies is_known(#[trigger] input[j]) by {
                    assert(input[j] == front[j]);
                }
                if !is_known(input.last()) {
                    assert(input[input.len() - 1] == input.last());
                }
            },
            Err(c) => {
                let i = choose|i: int|
                    0 <= i < front.len() && #[trigger] front[i] == c && !is_known(c) && forall|j: int|
                        0 <= j < i ==> is_known(#[trigger] front[j]);
                assert forall|j: int| 0 <= j < i implies is_known(#[trigger] input[j]) by {
                    assert(input[j] == front[j]);
                }
            },
        }
    }
}

} // verus!
