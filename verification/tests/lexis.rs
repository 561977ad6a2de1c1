use rpn_calc::lexis::{binding_of, digit, number_char};

#[test]
fn the_digits_are_the_ten_decimal_digits() {
    for c in '0'..='9' {
        assert!(digit(c));
        assert!(number_char(c));
    }
    for c in ['/', ':', 'a', ' ', '.', '-', '٣', '²'] {
        assert!(!digit(c));
    }
}

#[test]
fn a_number_is_written_with_digits_and_points() {
    assert!(number_char('.'));
    for c in ['+', '-', '*', '/', '(', ')', ' ', ',', 'e', 'E', '_'] {
        assert!(!number_char(c));
    }
}

#[test]
fn products_bind_tighter_than_sums_and_parentheses_not_at_all() {
    assert_eq!(binding_of('('), 0);
    assert_eq!(binding_of('+'), 1);
    assert_eq!(binding_of('-'), 1);
    assert_eq!(binding_of('*'), 2);
    assert_eq!(binding_of('/'), 2);
    assert!(binding_of('(') < binding_of('+'));
    assert!(binding_of('-') < binding_of('*'));
}
