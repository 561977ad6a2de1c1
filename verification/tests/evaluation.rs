use rpn_calc::calculator::{equation_to_rpn, get_rpn};
use rpn_calc::evaluator::{
    classify, conclude, decide, decimal_literal, Action, EvalError, Operator, TokenKind,
};

/// Evaluates postfix tokens with single-precision arithmetic, taking every
/// decision from the library.
fn evaluate<T: AsRef<str>>(tokens: &[T]) -> Result<f32, String> {
    let mut stack: Vec<f32> = Vec::new();
    for token in tokens {
        let token = token.as_ref();
        let divisor_is_zero = stack.last().map_or(false, |top| *top == 0.0);
        match decide(token, stack.len(), divisor_is_zero) {
            Ok(Action::Push) => stack.push(token.parse::<f32>().unwrap()),
            Ok(Action::Apply(operator)) => {
                let b = stack.pop().unwrap();
                let a = stack.pop().unwrap();
                stack.push(match operator {
                    Operator::Add => a + b,
                    Operator::Subtract => a - b,
                    Operator::Multiply => a * b,
                    Operator::Divide => a / b,
                });
            }
            Ok(Action::Skip) => {}
            Err(error) => return Err(error.message()),
        }
    }
    match conclude(stack.len()) {
        Ok(()) => Ok(stack.pop().unwrap()),
        Err(error) => Err(error.message()),
    }
}

fn calculate(equation: &str) -> Result<f32, String> {
    evaluate(&equation_to_rpn(equation)?)
}

#[test]
fn test_evaluate_rpn() {
    assert_eq!(calculate("1+2").unwrap(), 3.0);
    assert_eq!(calculate("1+2*3").unwrap(), 7.0);
    assert_eq!(calculate("1+2*3-4").unwrap(), 3.0);
    assert_eq!(calculate("1+2*3-4/5").unwrap(), 6.2);
    assert_eq!(calculate("1+2*3-4/5+6").unwrap(), 12.2);
    assert_eq!(calculate("1+2*3-4/5+6*7").unwrap(), 48.2);
    assert_eq!(calculate("1+2*3-4/5+6*7-8").unwrap(), 40.2);
    assert_eq!(calculate("1+2*3-4/5+6*7-8/9").unwrap().round(), 47.0);
}

#[test]
fn test_invalid_inputs() {
    assert!(calculate("1+2*3-4/5+6*7-8/").is_err());
    assert!(calculate("1+2*3-4/5+6*7-8/9+").is_err());
    assert!(calculate("1+2*3-4/5+6*7-8/9+*").is_err());
    assert!(calculate("1+2*3-4/5+6*7-8/9+*(").is_err());
    assert!(calculate("1+2*3-4/5+6*7-8/9+*)").is_err());
    assert!(calculate("1+2*3-4/5+6*7-8/9+*a").is_err());
}

#[test]
fn test_negative_numbers() {
    assert_eq!(equation_to_rpn("-1+2").unwrap(), vec!["-1", "2", "+"]);
    assert_eq!(equation_to_rpn("1+-2").unwrap(), vec!["1", "-2", "+"]);
    assert_eq!(equation_to_rpn("1+(-2)").unwrap(), vec!["1", "-2", "+"]);
    assert_eq!(calculate("-1+2").unwrap(), 1.0);
    assert_eq!(calculate("1+-2").unwrap(), -1.0);
    assert_eq!(calculate("1+(-2)").unwrap(), -1.0);
}

#[test]
fn division_by_zero_is_an_error() {
    assert_eq!(calculate("1/0").unwrap_err(), "Cannot divide by zero");
    assert_eq!(calculate("1/-0").unwrap_err(), "Cannot divide by zero");
    assert_eq!(calculate("1/(2-2)").unwrap_err(), "Cannot divide by zero");
    assert_eq!(calculate("1/0.0").unwrap_err(), "Cannot divide by zero");
    assert_eq!(calculate("0/5").unwrap(), 0.0);
    assert_eq!(calculate("0*5").unwrap(), 0.0);
    assert_eq!(calculate("5-0").unwrap(), 5.0);
}

#[test]
fn a_zero_divisor_is_reported_before_a_later_shortage() {
    assert_eq!(evaluate(&["1", "0", "/", "+"]).unwrap_err(), "Cannot divide by zero");
    assert_eq!(evaluate(&["+", "1", "0", "/"]).unwrap_err(), "Wrong expression");
}

#[test]
fn a_missing_operand_is_an_error() {
    assert_eq!(calculate("1+2*3-4/5+6*7-8/").unwrap_err(), "Wrong expression");
    assert_eq!(calculate("1+").unwrap_err(), "Wrong expression");
    assert_eq!(calculate("*").unwrap_err(), "Wrong expression");
    assert_eq!(calculate("").unwrap_err(), "Wrong expression");
    assert_eq!(calculate("()").unwrap_err(), "Wrong expression");
    assert_eq!(calculate("-").unwrap_err(), "Wrong expression");
    assert_eq!(calculate("--1").unwrap_err(), "Wrong expression");
}

#[test]
fn an_unknown_character_ends_the_calculation() {
    assert_eq!(calculate("1+2*3-4/5+6*7-8/9+*a").unwrap_err(), "Neznámý znak v rovnici: a");
    assert_eq!(calculate("1/0a").unwrap_err(), "Neznámý znak v rovnici: a");
}

#[test]
fn a_result_is_an_expression_of_its_own() {
    for equation in ["1+2*3-4/5", "1-3", "10/4", "2*0.5", "0-0.125", "1/3", "100000*100000"] {
        let value = calculate(equation).unwrap();
        let shown = value.to_string();
        assert_eq!(classify(&shown), TokenKind::Number);
        assert_eq!(equation_to_rpn(&shown).unwrap(), vec![shown.clone()]);
        assert_eq!(calculate(&shown).unwrap(), value);
    }
}

#[test]
fn evaluating_the_rpn_text_gives_the_value_of_the_expression() {
    for equation in ["1+2", "1+2*3-4/5+6*7-8/9", "(1+2)*(3-4)", "-1+2", "1+(-2)", "2*(3+4*(5-6))", "7"] {
        let text = get_rpn(equation).unwrap();
        let pieces: Vec<&str> = text.split(' ').collect();
        assert_eq!(evaluate(&pieces).unwrap(), calculate(equation).unwrap());
    }
}

#[test]
fn parentheses_change_the_value() {
    assert_eq!(calculate("(1+2)*3").unwrap(), 9.0);
    assert_eq!(calculate("1+2*3").unwrap(), 7.0);
    assert_eq!(calculate("8-3-2").unwrap(), 3.0);
    assert_eq!(calculate("8-(3-2)").unwrap(), 7.0);
    assert_eq!(calculate("8/4/2").unwrap(), 1.0);
    assert_eq!(calculate("2*-3").unwrap(), -6.0);
    assert_eq!(calculate(" 1.5 + 2.25 ").unwrap(), 3.75);
}

#[test]
fn only_the_top_of_the_stack_is_the_result() {
    assert_eq!(calculate("1 2").unwrap(), 2.0);
    assert_eq!(evaluate(&["1", "2", "3", "+"]).unwrap(), 5.0);
}

#[test]
fn a_token_that_is_neither_number_nor_operator_is_passed_over() {
    assert_eq!(calculate("(1+2").unwrap(), 3.0);
    assert_eq!(evaluate(&["1", "(", "2", "+"]).unwrap(), 3.0);
    assert_eq!(evaluate(&["(", "7"]).unwrap(), 7.0);
    assert_eq!(evaluate(&["7", "1.2.3", "."]).unwrap(), 7.0);
    assert_eq!(evaluate(&["("]).unwrap_err(), "Wrong expression");
}

#[test]
fn decimal_literals_are_told_from_other_tokens() {
    for literal in ["0", "1", "47", "6.2", "1.", ".5", "-1", "+1", "-.5", "+12.75", "007", "-0"] {
        assert!(decimal_literal(literal), "{literal}");
        assert_eq!(classify(literal), TokenKind::Number);
        assert!(literal.parse::<f32>().is_ok());
    }
    for other in ["", ".", "+", "-", "+.", "-.", "1.2.3", "..", "--1", "+-1", "1-", "1+2", "(", ")", "1e5", "inf", "NaN", " 1", "1 ", "a", "١"] {
        assert!(!decimal_literal(other), "{other}");
        assert_ne!(classify(other), TokenKind::Number);
    }
}

#[test]
fn operator_symbols_are_classified() {
    assert_eq!(classify("+"), TokenKind::Operator(Operator::Add));
    assert_eq!(classify("-"), TokenKind::Operator(Operator::Subtract));
    assert_eq!(classify("*"), TokenKind::Operator(Operator::Multiply));
    assert_eq!(classify("/"), TokenKind::Operator(Operator::Divide));
    assert_eq!(classify("("), TokenKind::Other);
    assert_eq!(classify(")"), TokenKind::Other);
    assert_eq!(classify("**"), TokenKind::Other);
    assert_eq!(classify("^"), TokenKind::Other);
    assert_eq!(classify(""), TokenKind::Other);
    assert_eq!(classify("+ "), TokenKind::Other);
}

#[test]
fn a_number_is_pushed_whatever_the_stack_holds() {
    assert_eq!(decide("1", 0, false), Ok(Action::Push));
    assert_eq!(decide("-2.5", 7, true), Ok(Action::Push));
    assert_eq!(decide("0", usize::MAX, true), Ok(Action::Push));
}

#[test]
fn an_operator_needs_two_operands() {
    for symbol in ["+", "-", "*", "/"] {
        assert_eq!(decide(symbol, 0, false), Err(EvalError::WrongExpression));
        assert_eq!(decide(symbol, 1, false), Err(EvalError::WrongExpression));
        assert_eq!(decide(symbol, 1, true), Err(EvalError::WrongExpression));
    }
    assert_eq!(decide("+", 2, false), Ok(Action::Apply(Operator::Add)));
    assert_eq!(decide("-", 2, true), Ok(Action::Apply(Operator::Subtract)));
    assert_eq!(decide("*", 3, true), Ok(Action::Apply(Operator::Multiply)));
    assert_eq!(decide("/", 2, false), Ok(Action::Apply(Operator::Divide)));
    assert_eq!(decide("/", usize::MAX, false), Ok(Action::Apply(Operator::Divide)));
}

#[test]
fn only_a_division_minds_a_zero_on_top() {
    assert_eq!(decide("/", 2, true), Err(EvalError::DivideByZero));
    assert_eq!(decide("/", 9, true), Err(EvalError::DivideByZero));
    assert_eq!(decide("+", 2, true), Ok(Action::Apply(Operator::Add)));
    assert_eq!(decide("*", 2, true), Ok(Action::Apply(Operator::Multiply)));
}

#[test]
fn other_tokens_are_skipped_at_any_depth() {
    assert_eq!(decide("(", 0, false), Ok(Action::Skip));
    assert_eq!(decide("(", 5, true), Ok(Action::Skip));
    assert_eq!(decide("", 1, false), Ok(Action::Skip));
    assert_eq!(decide("1.2.3", 2, false), Ok(Action::Skip));
}

#[test]
fn an_evaluation_ends_well_with_an_operand_left() {
    assert_eq!(conclude(0), Err(EvalError::WrongExpression));
    assert_eq!(conclude(1), Ok(()));
    assert_eq!(conclude(2), Ok(()));
    assert_eq!(conclude(usize::MAX), Ok(()));
}

#[test]
fn errors_have_their_texts() {
    assert_eq!(EvalError::WrongExpression.message(), "Wrong expression");
    assert_eq!(EvalError::DivideByZero.message(), "Cannot divide by zero");
}
