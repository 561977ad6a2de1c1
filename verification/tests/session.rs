use rpn_calc::session::CalculatorApp;

fn typed(text: &str) -> CalculatorApp {
    let mut app = CalculatorApp::default();
    app.display_text = text.to_string();
    app
}

#[test]
fn a_new_calculator_is_blank() {
    let app = CalculatorApp::default();
    assert_eq!(app.display_text, "");
    assert_eq!(app.error_msg, None);
    assert!(app.history.is_empty());
}

#[test]
fn a_result_replaces_the_display_and_joins_the_history() {
    let mut app = typed("1+2");
    app.error_msg = Some("old".to_string());
    app.show_result(Ok("3".to_string()));
    assert_eq!(app.display_text, "3");
    assert_eq!(app.error_msg, None);
    assert_eq!(app.history.len(), 1);
    assert_eq!(app.history[0].expression, "1+2");
    assert_eq!(app.history[0].result, "3");
}

#[test]
fn the_history_grows_at_its_end() {
    let mut app = typed("1+2");
    app.show_result(Ok("3".to_string()));
    app.show_result(Ok("3 again".to_string()));
    assert_eq!(app.history.len(), 2);
    assert_eq!(app.history[0].expression, "1+2");
    assert_eq!(app.history[0].result, "3");
    assert_eq!(app.history[1].expression, "3");
    assert_eq!(app.history[1].result, "3 again");
    assert_eq!(app.display_text, "3 again");
}

#[test]
fn an_error_is_marked_and_changes_nothing_else() {
    let mut app = typed("1/0");
    app.show_result(Ok("kept".to_string()));
    app.display_text = "1/0".to_string();
    app.show_result(Err("Cannot divide by zero".to_string()));
    assert_eq!(app.display_text, "1/0");
    assert_eq!(app.error_msg, Some("🚫 Cannot divide by zero".to_string()));
    assert_eq!(app.history.len(), 1);
    app.show_result(Err("".to_string()));
    assert_eq!(app.error_msg, Some("🚫 ".to_string()));
}

#[test]
fn digits_and_symbols_are_typed_at_the_end() {
    let mut app = CalculatorApp::default();
    for label in ["1", "+", "2", ".", "5", "(", ")", "*", "/", "-", "0"] {
        assert!(!app.press(label));
    }
    assert_eq!(app.display_text, "1+2.5()*/-0");
    assert!(!app.press("RP"));
    assert!(!app.press(""));
    assert!(!app.press("c"));
    assert_eq!(app.display_text, "1+2.5()*/-0RPc");
    assert_eq!(app.error_msg, None);
    assert!(app.history.is_empty());
}

#[test]
fn the_clear_key_empties_the_display_only() {
    let mut app = typed("1+2");
    app.show_result(Ok("3".to_string()));
    app.show_result(Err("bad".to_string()));
    assert!(!app.press("C"));
    assert_eq!(app.display_text, "");
    assert_eq!(app.error_msg, Some("🚫 bad".to_string()));
    assert_eq!(app.history.len(), 1);
}

#[test]
fn the_equals_key_asks_for_the_value() {
    let mut app = typed("1+2");
    assert!(app.press("="));
    assert_eq!(app.display_text, "1+2");
    assert_eq!(app.error_msg, None);
    assert!(app.history.is_empty());
}

#[test]
fn the_rpn_key_shows_the_postfix_text() {
    let mut app = typed("1+2*3");
    assert!(!app.press("RPN"));
    assert_eq!(app.display_text, "1 2 3 * +");
    assert_eq!(app.error_msg, None);
    assert_eq!(app.history.len(), 1);
    assert_eq!(app.history[0].expression, "1+2*3");
    assert_eq!(app.history[0].result, "1 2 3 * +");
}

#[test]
fn the_rpn_key_reports_an_unknown_character() {
    let mut app = typed("1+a");
    assert!(!app.press("RPN"));
    assert_eq!(app.display_text, "1+a");
    assert_eq!(app.error_msg, Some("🚫 Neznámý znak v rovnici: a".to_string()));
    assert!(app.history.is_empty());
}
