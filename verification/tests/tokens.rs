use expr_eval::arith::{add_wrapping, div_truncating, mul_wrapping, pow_wrapping, sub_wrapping};
use expr_eval::expression::is_allowed_char;
use expr_eval::text::chars_of;
use expr_eval::valid_types::{
    classify_char, is_digit_char, raw_tokens, BracketType, OperatorType, ValidTypes,
};

#[test]
fn raw_token_from_character() {
    assert_eq!(ValidTypes::from('7'), ValidTypes::Character('7'));
    assert_eq!(ValidTypes::from('+'), ValidTypes::Character('+'));
}

#[test]
fn raw_tokens_of_characters() {
    assert_eq!(
        raw_tokens(&vec!['1', '*', 'x']),
        vec![ValidTypes::Character('1'), ValidTypes::Character('*'), ValidTypes::Character('x')]
    );
    assert_eq!(raw_tokens(&vec![]), vec![]);
}

#[test]
fn characters_of_text() {
    assert_eq!(chars_of("a+1"), vec!['a', '+', '1']);
    assert_eq!(chars_of("\u{e9}\u{4e2d}"), vec!['\u{e9}', '\u{4e2d}']);
    assert_eq!(chars_of(""), Vec::<char>::new());
}

#[test]
fn digits_are_the_ten_decimal_digits() {
    for c in "0123456789".chars() {
        assert!(is_digit_char(c));
    }
    assert!(!is_digit_char('/'));
    assert!(!is_digit_char(':'));
    assert!(!is_digit_char('a'));
    assert!(!is_digit_char('\u{663}'));
}

#[test]
fn allowed_characters_are_digits_and_seven_symbols() {
    for c in "0123456789+-*/^()".chars() {
        assert!(is_allowed_char(c));
    }
    for c in " \t\nabcXYZ.,=%[]{}_\u{663}".chars() {
        assert!(!is_allowed_char(c));
    }
}

#[test]
fn symbols_are_classified() {
    assert_eq!(classify_char('+'), ValidTypes::Operator(OperatorType::Add));
    assert_eq!(classify_char('-'), ValidTypes::Operator(OperatorType::Sub));
    assert_eq!(classify_char('*'), ValidTypes::Operator(OperatorType::Mul));
    assert_eq!(classify_char('/'), ValidTypes::Operator(OperatorType::Div));
    assert_eq!(classify_char('^'), ValidTypes::Operator(OperatorType::Pow));
    assert_eq!(classify_char('('), ValidTypes::Bracket(BracketType::Open));
    assert_eq!(classify_char(')'), ValidTypes::Bracket(BracketType::Closed));
    assert_eq!(classify_char('a'), ValidTypes::Character('a'));
}

#[test]
fn wrapping_sum_difference_product() {
    assert_eq!(add_wrapping(1, 2), 3);
    assert_eq!(add_wrapping(i32::MAX, 1), i32::MIN);
    assert_eq!(add_wrapping(i32::MIN, -1), i32::MAX);
    assert_eq!(sub_wrapping(1, 2), -1);
    assert_eq!(sub_wrapping(i32::MIN, 1), i32::MAX);
    assert_eq!(sub_wrapping(i32::MAX, -1), i32::MIN);
    assert_eq!(mul_wrapping(-3, 4), -12);
    assert_eq!(mul_wrapping(65536, 65537), 65536);
    assert_eq!(mul_wrapping(i32::MAX, i32::MAX), 1);
}

#[test]
fn truncating_division() {
    assert_eq!(div_truncating(7, 2), 3);
    assert_eq!(div_truncating(-7, 2), -3);
    assert_eq!(div_truncating(7, -2), -3);
    assert_eq!(div_truncating(-7, -2), 3);
    assert_eq!(div_truncating(1, 2), 0);
    assert_eq!(div_truncating(-1, 2), 0);
    assert_eq!(div_truncating(i32::MIN, 1), i32::MIN);
    assert_eq!(div_truncating(i32::MIN, -1), i32::MIN);
    assert_eq!(div_truncating(i32::MIN, i32::MIN), 1);
    assert_eq!(div_truncating(i32::MAX, i32::MIN), 0);
    assert_eq!(div_truncating(i32::MIN, i32::MAX), -1);
}

#[test]
fn wrapping_power() {
    assert_eq!(pow_wrapping(2, 0), 1);
    assert_eq!(pow_wrapping(0, 0), 1);
    assert_eq!(pow_wrapping(0, 5), 0);
    assert_eq!(pow_wrapping(2, 10), 1024);
    assert_eq!(pow_wrapping(-2, 3), -8);
    assert_eq!(pow_wrapping(-2, 31), i32::MIN);
    assert_eq!(pow_wrapping(2, 31), i32::MIN);
    assert_eq!(pow_wrapping(2, 32), 0);
    assert_eq!(pow_wrapping(3, 20), 3i32.wrapping_pow(20));
    assert_eq!(pow_wrapping(3, 21), 3i32.wrapping_pow(21));
    assert_eq!(pow_wrapping(7, 2147483647), 7i32.wrapping_pow(2147483647));
    assert_eq!(pow_wrapping(-1, 2147483647), -1);
    assert_eq!(pow_wrapping(10, 9), 1000000000);
}
