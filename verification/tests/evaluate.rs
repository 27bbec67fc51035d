use expr_eval::expression::Expression;
use expr_eval::valid_types::{BracketType, EvalError, OperatorType, ValidTypes, ValidTypesMapper};

fn eval(text: &str) -> Result<i32, EvalError> {
    Expression::new(text.to_string()).evaluate()
}

#[test]
fn multiplication_before_addition() {
    assert_eq!(eval("2+3*4"), Ok(14));
    assert_eq!(eval("2*3+4"), Ok(10));
    assert_eq!(eval("8/2-3"), Ok(1));
}

#[test]
fn equal_precedence_goes_left_to_right() {
    assert_eq!(eval("10-2-3"), Ok(5));
    assert_eq!(eval("100/10/5"), Ok(2));
    assert_eq!(eval("7-2+1"), Ok(6));
    assert_eq!(eval("8/4*2"), Ok(4));
}

#[test]
fn brackets_evaluate_as_a_unit() {
    assert_eq!(eval("(2+3)*4"), Ok(20));
    assert_eq!(eval("4*(2+3)"), Ok(20));
}

#[test]
fn nested_brackets_go_first() {
    assert_eq!(eval("2*(3+(4-1))"), Ok(12));
    assert_eq!(eval("((1+2)*(3+4))"), Ok(21));
    assert_eq!(eval("((2+3))"), Err(EvalError::MalformedExpression));
    assert_eq!(eval("(1+2)*(3+4)"), Ok(21));
}

#[test]
fn exponent_before_multiplication() {
    assert_eq!(eval("2*3^2"), Ok(18));
    assert_eq!(eval("2^10"), Ok(1024));
    assert_eq!(eval("2^3^2"), Ok(64));
    assert_eq!(eval("0^0"), Ok(1));
    assert_eq!(eval("7^1"), Ok(7));
    assert_eq!(eval("(0-3)^3"), Ok(-27));
}

#[test]
fn whitespace_is_ignored() {
    assert_eq!(eval(" 2 + 3 "), Ok(5));
    assert_eq!(eval("\t1 2 +\n3"), Ok(15));
}

#[test]
fn disallowed_characters_are_ignored() {
    assert_eq!(eval("2+3abc"), Ok(5));
    assert_eq!(eval("x2y+z3"), Ok(5));
    assert_eq!(eval("2+3\u{e9}\u{663}"), Ok(5));
}

#[test]
fn division_truncates_toward_zero() {
    assert_eq!(eval("7/2"), Ok(3));
    assert_eq!(eval("(0-7)/2"), Ok(-3));
    assert_eq!(eval("7/(0-2)"), Ok(-3));
    assert_eq!(eval("(0-7)/(0-2)"), Ok(3));
    assert_eq!(eval("0/5"), Ok(0));
}

#[test]
fn division_by_zero_is_reported() {
    assert_eq!(eval("5/0"), Err(EvalError::DivisionByZero));
    assert_eq!(eval("1+5/(2-2)"), Err(EvalError::DivisionByZero));
    assert_eq!(eval("0/0"), Err(EvalError::DivisionByZero));
}

#[test]
fn negative_exponent_is_reported() {
    assert_eq!(eval("2^(0-1)"), Err(EvalError::NegativeExponent));
}

#[test]
fn same_text_same_value() {
    let e = Expression::new("2*(3+(4-1))-5/0".to_string());
    assert_eq!(e.evaluate(), e.evaluate());
    let f = Expression::new("3+4*5".to_string());
    assert_eq!(f.evaluate(), Ok(23));
    assert_eq!(f.evaluate(), Ok(23));
    assert_eq!(f.raw_expression, "3+4*5");
}

#[test]
fn literal_too_large_is_reported() {
    assert_eq!(eval("2147483647"), Ok(2147483647));
    assert_eq!(eval("2147483648"), Err(EvalError::MalformedNumber));
    assert_eq!(eval("1+99999999999999999999999"), Err(EvalError::MalformedNumber));
    assert_eq!(eval("0000000000000000000012"), Ok(12));
}

#[test]
fn arithmetic_wraps() {
    assert_eq!(eval("2147483647+1"), Ok(-2147483648));
    assert_eq!(eval("0-2147483647-2"), Ok(2147483647));
    assert_eq!(eval("65536*65536"), Ok(0));
    assert_eq!(eval("46341*46341"), Ok(-2147479015));
    assert_eq!(eval("2^31"), Ok(-2147483648));
    assert_eq!(eval("2^32"), Ok(0));
    assert_eq!(eval("3^21"), Ok(1870418611));
    assert_eq!(eval("(0-2147483647-1)/(0-1)"), Ok(-2147483648));
}

#[test]
fn malformed_expressions_are_reported() {
    assert_eq!(eval("2+"), Err(EvalError::MalformedExpression));
    assert_eq!(eval("+2"), Err(EvalError::MalformedExpression));
    assert_eq!(eval("2++3"), Err(EvalError::MalformedExpression));
    assert_eq!(eval("(2+3"), Err(EvalError::MalformedExpression));
    assert_eq!(eval("2 3"), Ok(23));
    assert_eq!(eval("(5)"), Err(EvalError::MalformedExpression));
    assert_eq!(eval("2)+(3"), Err(EvalError::MalformedExpression));
}

#[test]
fn at_most_one_token_needs_no_reduction() {
    assert_eq!(eval(""), Ok(0));
    assert_eq!(eval("abc"), Ok(0));
    assert_eq!(eval("5"), Ok(5));
    assert_eq!(eval("+"), Ok(0));
    assert_eq!(eval("("), Ok(0));
}

#[test]
fn process_chars_keeps_allowed_characters() {
    assert_eq!(Expression::process_chars(" 2 + 3 "), "2+3");
    assert_eq!(Expression::process_chars("0123456789+-*/^()"), "0123456789+-*/^()");
    assert_eq!(Expression::process_chars("a=b%c.d,e"), "");
    assert_eq!(Expression::process_chars(""), "");
}

#[test]
fn translate_takes_filtered_text() {
    assert_eq!(Expression::translate(&"2+3*4".to_string()), Ok(14));
    assert_eq!(Expression::translate(&"2+a".to_string()), Err(EvalError::MalformedExpression));
}

#[test]
fn expression_as_text() {
    let e = Expression::new("1+1".to_string());
    assert_eq!(e.to_text(), "raw_expression: 1+1");
}

#[test]
fn importance_of_each_operator() {
    assert_eq!(OperatorType::Add.get_importance(), 1);
    assert_eq!(OperatorType::Sub.get_importance(), 1);
    assert_eq!(OperatorType::Mul.get_importance(), 2);
    assert_eq!(OperatorType::Div.get_importance(), 2);
    assert_eq!(OperatorType::Pow.get_importance(), 3);
}

#[test]
fn operation_of_each_operator() {
    assert_eq!(OperatorType::Add.get_operation(2, 3), Ok(5));
    assert_eq!(OperatorType::Sub.get_operation(2, 3), Ok(-1));
    assert_eq!(OperatorType::Mul.get_operation(-2, 3), Ok(-6));
    assert_eq!(OperatorType::Div.get_operation(-7, 2), Ok(-3));
    assert_eq!(OperatorType::Div.get_operation(7, 0), Err(EvalError::DivisionByZero));
    assert_eq!(OperatorType::Div.get_operation(i32::MIN, -1), Ok(i32::MIN));
    assert_eq!(OperatorType::Pow.get_operation(-2, 3), Ok(-8));
    assert_eq!(OperatorType::Pow.get_operation(-1, 2147483647), Ok(-1));
    assert_eq!(OperatorType::Pow.get_operation(2, -1), Err(EvalError::NegativeExponent));
    assert_eq!(OperatorType::Add.get_operation(i32::MAX, i32::MAX), Ok(-2));
    assert_eq!(OperatorType::Sub.get_operation(i32::MIN, 1), Ok(i32::MAX));
    assert_eq!(OperatorType::Mul.get_operation(i32::MIN, -1), Ok(i32::MIN));
}

fn num(v: i32) -> ValidTypes {
    ValidTypes::Number(v)
}

fn op(o: OperatorType) -> ValidTypes {
    ValidTypes::Operator(o)
}

fn open() -> ValidTypes {
    ValidTypes::Bracket(BracketType::Open)
}

fn closed() -> ValidTypes {
    ValidTypes::Bracket(BracketType::Closed)
}

#[test]
fn new_holds_raw_characters() {
    let m = ValidTypesMapper::new(&"1+".to_string());
    assert_eq!(m.tokens(), vec![ValidTypes::Character('1'), ValidTypes::Character('+')]);
}

#[test]
fn parse_classifies_characters() {
    let mut m = ValidTypesMapper::new(&"12+3-(4*5)/6^007".to_string());
    assert_eq!(m.parse(), Ok(()));
    assert_eq!(
        m.tokens(),
        vec![
            num(12),
            op(OperatorType::Add),
            num(3),
            op(OperatorType::Sub),
            open(),
            num(4),
            op(OperatorType::Mul),
            num(5),
            closed(),
            op(OperatorType::Div),
            num(6),
            op(OperatorType::Pow),
            num(7),
        ]
    );
}

#[test]
fn parse_keeps_stray_characters_and_tokens() {
    let mut m = ValidTypesMapper::from_tokens(vec![
        ValidTypes::Character('1'),
        num(9),
        ValidTypes::Character('2'),
        ValidTypes::Character('a'),
        ValidTypes::Character('3'),
    ]);
    assert_eq!(m.parse(), Ok(()));
    assert_eq!(m.tokens(), vec![num(9), num(12), ValidTypes::Character('a'), num(3)]);
}

#[test]
fn parse_failure_leaves_tokens() {
    let mut m = ValidTypesMapper::new(&"1+4294967296".to_string());
    let before = m.tokens();
    assert_eq!(m.parse(), Err(EvalError::MalformedNumber));
    assert_eq!(m.tokens(), before);
}

#[test]
fn parse_of_nothing() {
    let mut m = ValidTypesMapper::new(&String::new());
    assert_eq!(m.parse(), Ok(()));
    assert_eq!(m.tokens(), vec![]);
}

#[test]
fn most_important_operation_trace() {
    let mut m = ValidTypesMapper::from_tokens(vec![
        num(2),
        op(OperatorType::Add),
        num(3),
        op(OperatorType::Mul),
        num(4),
    ]);
    assert_eq!(m.get_most_important_operation(), Some(3));
    assert_eq!(m.reduce(), Ok(()));
    assert_eq!(m.tokens(), vec![num(2), op(OperatorType::Add), num(12)]);
    assert_eq!(m.get_most_important_operation(), Some(1));
    assert_eq!(m.reduce(), Ok(()));
    assert_eq!(m.tokens(), vec![num(14)]);
    assert_eq!(m.evaluate(), Ok(14));
}

#[test]
fn most_important_operation_prefers_depth_then_rank_then_left() {
    let m = ValidTypesMapper::from_tokens(vec![
        num(1),
        op(OperatorType::Pow),
        open(),
        num(2),
        op(OperatorType::Add),
        num(3),
        op(OperatorType::Add),
        num(4),
        closed(),
    ]);
    assert_eq!(m.get_most_important_operation(), Some(4));
    let flat = ValidTypesMapper::from_tokens(vec![
        num(1),
        op(OperatorType::Sub),
        num(2),
        op(OperatorType::Add),
        num(3),
    ]);
    assert_eq!(flat.get_most_important_operation(), Some(1));
}

#[test]
fn most_important_operation_of_no_operator() {
    assert_eq!(ValidTypesMapper::from_tokens(vec![]).get_most_important_operation(), None);
    assert_eq!(ValidTypesMapper::from_tokens(vec![num(1)]).get_most_important_operation(), None);
    assert_eq!(
        ValidTypesMapper::from_tokens(vec![open(), num(1), closed()])
            .get_most_important_operation(),
        None
    );
    let below = ValidTypesMapper::from_tokens(vec![closed(), op(OperatorType::Pow), num(1)]);
    assert_eq!(below.get_most_important_operation(), None);
}

#[test]
fn bracket_test_needs_both_sides() {
    let both = ValidTypesMapper::from_tokens(vec![
        open(),
        num(1),
        op(OperatorType::Add),
        num(2),
        closed(),
    ]);
    assert!(both.is_in_bracket(2));
    assert!(!both.is_in_bracket(1));
    assert!(!both.is_in_bracket(3));
    assert!(!both.is_in_bracket(100));
    let left = ValidTypesMapper::from_tokens(vec![
        open(),
        num(1),
        op(OperatorType::Add),
        num(2),
        op(OperatorType::Add),
    ]);
    assert!(!left.is_in_bracket(2));
    let right = ValidTypesMapper::from_tokens(vec![
        num(0),
        num(1),
        op(OperatorType::Add),
        num(2),
        closed(),
    ]);
    assert!(!right.is_in_bracket(2));
    let short = ValidTypesMapper::from_tokens(vec![open(), num(1), op(OperatorType::Add), num(2)]);
    assert!(!short.is_in_bracket(2));
}

#[test]
fn splice_without_brackets() {
    let mut m = ValidTypesMapper::from_tokens(vec![
        num(1),
        op(OperatorType::Add),
        num(2),
        op(OperatorType::Mul),
        num(3),
        op(OperatorType::Sub),
        num(4),
    ]);
    m.splice(3, 6);
    assert_eq!(
        m.tokens(),
        vec![num(1), op(OperatorType::Add), num(6), op(OperatorType::Sub), num(4)]
    );
}

#[test]
fn splice_with_brackets() {
    let mut m = ValidTypesMapper::from_tokens(vec![
        num(1),
        op(OperatorType::Mul),
        open(),
        num(2),
        op(OperatorType::Add),
        num(3),
        closed(),
        op(OperatorType::Sub),
        num(4),
    ]);
    m.splice(4, 5);
    assert_eq!(
        m.tokens(),
        vec![num(1), op(OperatorType::Mul), num(5), op(OperatorType::Sub), num(4)]
    );
}

#[test]
fn splice_with_one_bracket_keeps_it() {
    let mut m = ValidTypesMapper::from_tokens(vec![
        open(),
        num(2),
        op(OperatorType::Add),
        num(3),
        op(OperatorType::Add),
        num(4),
        closed(),
    ]);
    m.splice(2, 5);
    assert_eq!(m.tokens(), vec![open(), num(5), op(OperatorType::Add), num(4), closed()]);
    m.splice(2, 9);
    assert_eq!(m.tokens(), vec![num(9)]);
}

#[test]
fn reduce_reports_and_leaves_tokens() {
    let mut m = ValidTypesMapper::from_tokens(vec![num(1), op(OperatorType::Div), num(0)]);
    assert_eq!(m.reduce(), Err(EvalError::DivisionByZero));
    assert_eq!(m.tokens(), vec![num(1), op(OperatorType::Div), num(0)]);
    let mut n = ValidTypesMapper::from_tokens(vec![num(1), op(OperatorType::Add), open()]);
    assert_eq!(n.reduce(), Err(EvalError::MalformedExpression));
    let mut o = ValidTypesMapper::from_tokens(vec![op(OperatorType::Add), num(1)]);
    assert_eq!(o.reduce(), Err(EvalError::MalformedExpression));
    let mut p = ValidTypesMapper::from_tokens(vec![num(1), num(2)]);
    assert_eq!(p.reduce(), Err(EvalError::MalformedExpression));
}

#[test]
fn evaluate_stops_where_reduction_fails() {
    let mut m = ValidTypesMapper::from_tokens(vec![
        num(6),
        op(OperatorType::Div),
        open(),
        num(2),
        op(OperatorType::Sub),
        num(2),
        closed(),
    ]);
    assert_eq!(m.evaluate(), Err(EvalError::DivisionByZero));
    assert_eq!(m.tokens(), vec![num(6), op(OperatorType::Div), num(0)]);
}

#[test]
fn evaluate_of_unparsed_characters() {
    let mut m = ValidTypesMapper::new(&"1+2".to_string());
    assert_eq!(m.evaluate(), Err(EvalError::MalformedExpression));
    let mut single = ValidTypesMapper::new(&"7".to_string());
    assert_eq!(single.evaluate(), Ok(0));
}

#[test]
fn evaluate_leaves_the_value_as_only_token() {
    let mut m = ValidTypesMapper::new(&"2*(3+(4-1))".to_string());
    assert_eq!(m.parse(), Ok(()));
    assert_eq!(m.tokens().len(), 11);
    assert_eq!(m.evaluate(), Ok(12));
    assert_eq!(m.tokens(), vec![num(12)]);
    assert_eq!(m.evaluate(), Ok(12));
}

#[test]
fn reduction_takes_two_or_four_tokens() {
    let mut m = ValidTypesMapper::new(&"(1+2)*3-4".to_string());
    assert_eq!(m.parse(), Ok(()));
    assert_eq!(m.tokens().len(), 9);
    assert_eq!(m.reduce(), Ok(()));
    assert_eq!(m.tokens().len(), 5);
    assert_eq!(m.reduce(), Ok(()));
    assert_eq!(m.tokens().len(), 3);
    assert_eq!(m.reduce(), Ok(()));
    assert_eq!(m.tokens(), vec![num(5)]);
    assert_eq!(m.reduce(), Err(EvalError::MalformedExpression));
}
