//! The entry points on expressions: the postfix tokens of an expression and
//! its postfix form as a line of text.

use vstd::prelude::*;
use crate::laws::rpn_tokens_shape;
use crate::lexis::{binding_of, is_known, is_rpn_token, number_char};
use crate::scan::{
    kept, lemma_kept_boundary, lemma_scan_failure, lemma_scan_failure_stays, lemma_scan_next,
    popped, rpn_tokens, scan, Scan,
};
use crate::text::{char_string, join_spaced, join_with_spaces};

verus! {

/// The message for an expression that holds the foreign character `c`.
pub open spec fn unknown_character_message(c: char) -> Seq<char> {
    "Neznámý znak v rovnici: "@.push(c)
}

/// The postfix form of an expression as a line of text, the tokens separated
/// by single spaces, or the message that names the first foreign character
/// of the expression.
pub open spec fn rpn_text(equation: Seq<char>) -> Result<Seq<char>, Seq<char>> {
    match rpn_tokens(equation) {
        Ok(tokens) => Ok(join_spaced(tokens)),
        Err(c) => Err(unknown_character_message(c)),
    }
}

/// A result that holds text, as the characters it holds.
pub open spec fn text_of(result: Result<String, String>) -> Result<Seq<char>, Seq<char>> {
    match result {
        Ok(text) => Ok(text@),
        Err(message) => Err(message@),
    }
}

/// Writes the message for an expression that holds the foreign character `c`.
pub fn unknown_character(c: char) -> (message: String)
    ensures
        message@ == unknown_character_message(c),
{
    let mut message = String::from_str("Neznámý znak v rovnici: ");
    message.push(c);
    message
}

/// The working state of one conversion.
struct Converter {
    output: Vec<String>,
    operators: Vec<char>,
    number: String,
    expect_operand: bool,
}

impl View for Converter {
    type V = Scan;

    closed spec fn view(&self) -> Scan {
        Scan {
            output: self.output.deep_view(),
            operators: self.operators@,
            number: self.number@,
            expect_operand: self.expect_operand,
        }
    }
}

impl Converter {
    fn new() -> (converter: Converter)
        ensures
            converter@ == Scan::start(),
    {
        let converter = Converter {
            output: Vec::new(),
            operators: Vec::new(),
            number: String::new(),
            expect_operand: true,
        };
        assert(converter.output.deep_view() == Seq::<Seq<char>>::empty());
        converter
    }

    fn emit(&mut self, token: String)
        ensures
            final(self)@ == (Scan { output: old(self)@.output.push(token@), ..old(self)@ }),
    {
        self.output.push(token);
        assert(self.output.deep_view() == old(self).output.deep_view().push(token@));
    }

    fn flush(&mut self)
        ensures
            final(self)@ == old(self)@.flush(),
    {
        if !self.number.as_str().is_empty() {
            let token = self.number.clone();
            self.number = String::new();
            self.emit(token);
        }
    }

    fn drain(&mut self, level: u8)
        ensures
            final(self)@ == old(self)@.drain(level as nat),
    {
        let ghost stack = self.operators@;
        let ghost emitted = self.output.deep_view();
        loop
            invariant
                stack == old(self).operators@,
                emitted == old(self).output.deep_view(),
                self.operators@ == stack.take(self.operators.len() as int),
                self.operators.len() <= stack.len(),
                self.output.deep_view() == emitted + popped(stack, self.operators.len() as nat),
                kept(self.operators@, level as nat) == kept(stack, level as nat),
                self.number@ == old(self).number@,
                self.expect_operand == old(self).expect_operand,
            ensures
                self@ == old(self)@.drain(level as nat),
            decreases self.operators.len(),
        {
            let height = self.operators.len();
            if height == 0 {
                break;
            }
            let top = self.operators[height - 1];
            if binding_of(top) < level {
                break;
            }
            self.operators.pop();
            self.emit(char_string(top));
            proof {
                assert(popped(stack, (height - 1) as nat) == popped(stack, height as nat).push(
                    seq![top],
                ));
            }
        }
    }

    fn operator(&mut self, symbol: char)
        ensures
            final(self)@ == old(self)@.operator(symbol),
    {
        self.drain(binding_of(symbol));
        self.operators.push(symbol);
        self.expect_operand = true;
    }

    fn close(&mut self)
        ensures
            final(self)@ == old(self)@.close(),
    {
        self.drain(1);
        self.operators.pop();
        self.expect_operand = false;
    }

    fn step(&mut self, c: char) -> (known: bool)
        ensures
            known == is_known(c),
            old(self)@.step(c) == if known {
                Ok::<Scan, char>(final(self)@)
            } else {
                Err::<Scan, char>(c)
            },
    {
        if number_char(c) {
            self.number.push(c);
            self.expect_operand = false;
            return true;
        }
        self.flush();
        if c == '(' {
            self.operators.push(c);
            self.expect_operand = true;
        } else if c == ')' {
            self.close();
        } else if c == '+' || c == '-' {
            if self.expect_operand {
                self.number.push(c);
            } else {
                self.operator(c);
            }
        } else if c == '*' || c == '/' {
            self.operator(c);
        } else if c != ' ' {
            return false;
        }
        true
    }

    fn finish(self) -> (tokens: Vec<String>)
        ensures
            tokens.deep_view() == self@.finish(),
    {
        let mut converter = self;
        converter.flush();
        let ghost ready = converter@;
        converter.drain(0);
        proof {
            // Every symbol binds at least as tightly as level zero.
            lemma_kept_boundary(ready.operators, 0);
        }
        converter.output
    }
}

/// Converts an infix expression to its postfix tokens.
///
/// The conversion succeeds exactly when every character of the expression
/// belongs to the language; the tokens are then those of [`rpn_tokens`].
/// Each is the text of a number or a single stack symbol, and there are no
/// more of them than the expression has characters. Otherwise the error is
/// the message that names the first foreign character.
///
/// Nothing else is rejected here. Parentheses need not match: a closing
/// parenthesis without an open one empties the operator stack into the
/// output, and an open parenthesis that is never closed comes out at the
/// end as a token of its own. Operators need not stand between operands.
pub fn equation_to_rpn(equation: &str) -> (r: Result<Vec<String>, String>)
    ensures
        match rpn_tokens(equation@) {
            Ok(tokens) => r matches Ok(found) && found.deep_view() == tokens,
            Err(c) => r matches Err(message) && message@ == unknown_character_message(c),
        },
        r is Ok <==> forall|i: int| 0 <= i < equation@.len() ==> is_known(#[trigger] equation@[i]),
        r matches Ok(found) ==> {
            &&& found.len() <= equation@.len()
            &&& forall|i: int|
                0 <= i < found.len() ==> is_rpn_token(#[trigger] found.deep_view()[i])
        },
        r matches Err(message) ==> exists|i: int|
            0 <= i < equation@.len() && !is_known(#[trigger] equation@[i]) && message@
                == unknown_character_message(equation@[i]) && forall|j: int|
                0 <= j < i ==> is_known(#[trigger] equation@[j]),
{
    let mut converter = Converter::new();
    for c in chars: equation.chars()
        invariant
            chars.seq() == equation@,
            scan(equation@.take(chars.index() as int)) == Ok::<Scan, char>(converter@),
    {
        proof {
            lemma_scan_next(equation@, chars.index() as int);
        }
        if !converter.step(c) {
            let message = unknown_character(c);
            proof {
                lemma_scan_failure_stays(equation@, chars.index() + 1);
                lemma_scan_failure(equation@);
                let first = choose|i: int|
                    0 <= i < equation@.len() && #[trigger] equation@[i] == c && !is_known(c)
                        && forall|j: int| 0 <= j < i ==> is_known(#[trigger] equation@[j]);
                assert(message@ == unknown_character_message(equation@[first]));
            }
            return Err(message);
        }
    }
    proof {
        assert(equation@.take(equation@.len() as int) == equation@);
        lemma_scan_failure(equation@);
        rpn_tokens_shape(equation@);
    }
    Ok(converter.finish())
}

/// Writes the postfix form of an infix expression on one line, the tokens
/// separated by single spaces.
///
/// Fails as [`equation_to_rpn`] does, with the same message.
pub fn get_rpn(equation: &str) -> (r: Result<String, String>)
    ensures
        text_of(r) == rpn_text(equation@),
        r is Ok <==> forall|i: int| 0 <= i < equation@.len() ==> is_known(#[trigger] equation@[i]),
{
    match equation_to_rpn(equation) {
        Ok(tokens) => Ok(join_with_spaces(&tokens)),
        Err(message) => Err(message),
    }
}

} // verus!
