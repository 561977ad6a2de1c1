use rpn_calc::calculator::{equation_to_rpn, get_rpn};
use rpn_calc::evaluator::{classify, conclude, decide, decimal_literal, Action, TokenKind};

/// Calls `visit` with every text of at most `length` characters over the
/// alphabet.
fn each_text(alphabet: &[char], length: usize, visit: &mut dyn FnMut(&str)) {
    let mut text = String::new();
    extend(alphabet, length, &mut text, visit);
}

fn extend(alphabet: &[char], length: usize, text: &mut String, visit: &mut dyn FnMut(&str)) {
    visit(text);
    if length > 0 {
        for c in alphabet {
            text.push(*c);
            extend(alphabet, length - 1, text, visit);
            text.pop();
        }
    }
}

#[test]
fn literals_are_the_tokens_that_parse_as_numbers() {
    let alphabet = ['0', '7', '.', '+', '-', '*', '/', '('];
    let mut seen = 0;
    each_text(&alphabet, 6, &mut |token| {
        seen += 1;
        let parses = token.parse::<f32>().is_ok();
        assert_eq!(decimal_literal(token), parses, "{token:?}");
        assert_eq!(classify(token) == TokenKind::Number, parses, "{token:?}");
    });
    assert_eq!(seen, 299593);
}

#[test]
fn every_token_of_a_conversion_is_a_number_or_a_symbol() {
    let alphabet = ['1', '.', '+', '-', '*', '/', '(', ')', ' '];
    each_text(&alphabet, 5, &mut |equation| {
        let tokens = equation_to_rpn(equation).unwrap();
        assert!(tokens.len() <= equation.len(), "{equation:?}");
        for token in &tokens {
            let symbol = ["+", "-", "*", "/", "("].contains(&token.as_str());
            let digits = token.trim_start_matches(['+', '-']);
            let number = !token.is_empty()
                && token.len() - digits.len() <= 1
                && digits.chars().all(|c| c == '1' || c == '.');
            assert!(symbol || number, "{equation:?} {token:?}");
        }
    });
}

#[test]
fn the_tokens_keep_the_characters_of_the_expression() {
    let alphabet = ['1', '.', '+', '-', '*', '/', '(', ')', ' '];
    each_text(&alphabet, 5, &mut |equation| {
        let tokens = equation_to_rpn(equation).unwrap();
        let mut written: Vec<char> = tokens.concat().chars().filter(|c| *c != '(').collect();
        let mut read: Vec<char> =
            equation.chars().filter(|c| !['(', ')', ' '].contains(c)).collect();
        written.sort();
        read.sort();
        assert_eq!(written, read, "{equation:?}");
    });
}

#[test]
fn the_rpn_text_is_the_tokens_joined() {
    let alphabet = ['1', '.', '+', '-', '*', '/', '(', ')', ' '];
    each_text(&alphabet, 5, &mut |equation| {
        let tokens = equation_to_rpn(equation).unwrap();
        let text = get_rpn(equation).unwrap();
        assert_eq!(text, tokens.join(" "), "{equation:?}");
        if !tokens.is_empty() {
            let pieces: Vec<&str> = text.split(' ').collect();
            assert_eq!(pieces, tokens, "{equation:?}");
        }
    });
}

#[test]
fn a_foreign_character_fails_every_conversion() {
    let alphabet = ['1', '+', '(', ')', ' ', 'x', '^'];
    each_text(&alphabet, 5, &mut |equation| {
        let foreign = equation.chars().find(|c| *c == 'x' || *c == '^');
        match (equation_to_rpn(equation), foreign) {
            (Ok(_), None) => {}
            (Err(message), Some(c)) => {
                assert_eq!(message, format!("Neznámý znak v rovnici: {c}"));
                assert_eq!(get_rpn(equation), Err(message));
            }
            (found, _) => panic!("{equation:?} {found:?}"),
        }
    });
}

#[test]
fn the_decisions_never_ask_for_a_missing_operand() {
    let alphabet = ['1', '0', '.', '+', '-', '*', '/', '(', ')', ' '];
    each_text(&alphabet, 5, &mut |equation| {
        let tokens = equation_to_rpn(equation).unwrap();
        for first_is_zero in [false, true] {
            let mut depth: usize = 0;
            let mut failed = false;
            for token in &tokens {
                match decide(token, depth, first_is_zero) {
                    Ok(Action::Push) => {
                        assert!(token.parse::<f32>().is_ok(), "{equation:?}");
                        depth += 1;
                    }
                    Ok(Action::Apply(_)) => {
                        assert!(depth >= 2, "{equation:?}");
                        depth -= 1;
                    }
                    Ok(Action::Skip) => {}
                    Err(_) => {
                        failed = true;
                        break;
                    }
                }
            }
            if !failed {
                assert_eq!(conclude(depth).is_ok(), depth > 0, "{equation:?}");
            }
        }
    });
}
