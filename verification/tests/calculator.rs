use coderbyte_rust::calculator::calculator;
use coderbyte_rust::calculator::preprocess_input;
use coderbyte_rust::calculator::tokenize;
use coderbyte_rust::calculator::CalcError;
use coderbyte_rust::calculator::Token;

#[test]
fn test_preprocessing() {
    let input = "3+4(2+1)";
    assert_eq!(preprocess_input(input), "3+4*(2+1)");
}

#[test]
fn test_calculator() {
    assert_eq!(calculator("3+4*2"), Ok(11));
    assert_eq!(calculator("(1+3)*2"), Ok(8));
    assert_eq!(calculator("10+(2*3)-(4/2)"), Ok(14));
    assert_eq!(calculator("7+((3+2)*(8-5))"), Ok(22));
    assert_eq!(calculator("12/(2+4)*3"), Ok(6));
    assert_eq!(calculator("5+((1+2)*4)-3"), Ok(14));
    assert_eq!(calculator("100"), Ok(100));
    assert_eq!(calculator("2*(3+5)/4"), Ok(4));
    assert_eq!(calculator("2*3+4"), Ok(10));
    assert_eq!(calculator("3+4(2+1)"), Ok(15));
}

#[test]
fn preprocessing_is_idempotent() {
    let once = preprocess_input("3+4(2+1)(5)8(1)");
    let twice = preprocess_input(&once);
    assert_eq!(once, twice);
}

#[test]
fn preprocessing_without_implied_multiplication_is_identity() {
    assert_eq!(preprocess_input("3+4*2"), "3+4*2");
    assert_eq!(preprocess_input("(1+3)*2"), "(1+3)*2");
    assert_eq!(preprocess_input(""), "");
}

#[test]
fn preprocessing_inserts_in_every_implied_position() {
    assert_eq!(preprocess_input("2(3)"), "2*(3)");
    assert_eq!(preprocess_input("(1)(2)"), "(1)*(2)");
    assert_eq!(preprocess_input("(2)3"), "(2)*3");
}

#[test]
fn tokenize_splits_numbers_and_operators() {
    assert_eq!(
        tokenize("12+345"),
        Ok(vec![Token::Number(12), Token::Plus, Token::Number(345)])
    );
    assert_eq!(
        tokenize("(7)/*-"),
        Ok(vec![
            Token::LeftParen,
            Token::Number(7),
            Token::RightParen,
            Token::Divide,
            Token::Multiply,
            Token::Minus,
        ])
    );
    assert_eq!(tokenize(""), Ok(vec![]));
}

#[test]
fn unary_signs_chain() {
    assert_eq!(calculator("-(-5)"), Ok(5));
    assert_eq!(calculator("--5"), Ok(5));
    assert_eq!(calculator("+-+5"), Ok(-5));
    assert_eq!(calculator("-5+8"), Ok(3));
}

#[test]
fn division_truncates_toward_zero() {
    assert_eq!(calculator("7/2"), Ok(3));
    assert_eq!(calculator("(0-7)/2"), Ok(-3));
    assert_eq!(calculator("(0-8)/(0-3)"), Ok(2));
    assert_eq!(calculator("8/(0-3)"), Ok(-2));
}

#[test]
fn division_by_zero_fails_fast() {
    assert_eq!(calculator("1/0"), Err(CalcError::DivisionByZero));
    assert_eq!(calculator("5/(3-3)"), Err(CalcError::DivisionByZero));
}

#[test]
fn malformed_input_fails_fast() {
    assert_eq!(calculator("(1+2"), Err(CalcError::UnexpectedToken));
    assert_eq!(calculator(""), Err(CalcError::UnexpectedToken));
    assert_eq!(calculator("1+"), Err(CalcError::UnexpectedToken));
    assert_eq!(calculator("*3"), Err(CalcError::UnexpectedToken));
    assert_eq!(calculator("2 + 3"), Err(CalcError::InvalidCharacter));
    assert_eq!(calculator("1+a"), Err(CalcError::InvalidCharacter));
}

#[test]
fn values_outside_i32_fail_fast() {
    assert_eq!(calculator("2147483647"), Ok(2147483647));
    assert_eq!(calculator("2147483648"), Err(CalcError::Overflow));
    assert_eq!(calculator("2147483647+1"), Err(CalcError::Overflow));
    assert_eq!(calculator("0-2147483647-2"), Err(CalcError::Overflow));
    assert_eq!(calculator("-(0-2147483647-1)"), Err(CalcError::Overflow));
    assert_eq!(calculator("65536*65536"), Err(CalcError::Overflow));
    assert_eq!(calculator("0000000000042"), Ok(42));
}
