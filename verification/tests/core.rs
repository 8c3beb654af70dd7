//! Tests of the lexer, the reorderer and the token types.

use pemdrs::context::Context;
use pemdrs::lexer::tokenize;
use pemdrs::num::Number;
use pemdrs::reorder::shunting_yard;
use pemdrs::token::Keyword;
use pemdrs::token::Operator;
use pemdrs::token::Paren;
use pemdrs::token::Token;

fn num(x: f64) -> Number {
    Number::from_bits(x.to_bits())
}

#[test]
fn test_operator_from_char() {
    assert_eq!(Some(Paren::Left), Paren::from_char('('));
    assert_eq!(Some(Paren::Right), Paren::from_char(')'));
}

#[test]
fn test_tokenize() {
    // Basic
    let tokens = vec![
        Token::new("("),
        Token::new("10"),
        Token::new("+"),
        Token::new("5"),
        Token::new(")"),
    ];
    assert!(tokens == tokenize("(10+5)", &mut Context::new()).unwrap());

    // Complex
    let tokens = vec![
        Token::new("("),
        Token::new("("),
        Token::new("10.0"),
        Token::new("*"),
        Token::new("2"),
        Token::new(")"),
        Token::new("/"),
        Token::new("4"),
        Token::new("+"),
        Token::new("("),
        Token::new("2.5"),
        Token::new("*"),
        Token::new("4"),
        Token::new(")"),
        Token::new("*"),
        Token::new("2"),
        Token::new(")"),
    ];
    assert!(tokens == tokenize("((10.0 * 2) / 4 + (2.5 * 4) * 2)", &mut Context::new()).unwrap());

    // No parens
    let tokens = vec![Token::new("10"), Token::new("+"), Token::new("5")];
    assert!(tokens == tokenize("10.0 + 5", &mut Context::new()).unwrap());

    // Unary minus
    let tokens = vec![
        Token::new("#"),
        Token::new("10"),
        Token::new("+"),
        Token::new("#"),
        Token::new("5"),
    ];
    assert!(tokens == tokenize("-10 + -5", &mut Context::new()).unwrap());
}

#[test]
fn token_test_tokenize() {
    // Basic
    let tokens = vec![
        Token::new("("),
        Token::new("10"),
        Token::new("+"),
        Token::new("5"),
        Token::new(")"),
    ];
    assert!(tokens == tokenize("(10+5)", &mut Context::new()).unwrap());

    // Complex
    let tokens = vec![
        Token::new("("),
        Token::new("("),
        Token::new("10.0"),
        Token::new("*"),
        Token::new("2"),
        Token::new(")"),
        Token::new("/"),
        Token::new("4"),
        Token::new("+"),
        Token::new("("),
        Token::new("2.5"),
        Token::new("*"),
        Token::new("4"),
        Token::new(")"),
        Token::new("*"),
        Token::new("2"),
        Token::new(")"),
    ];
    assert!(tokens == tokenize("((10.0 * 2) / 4 + (2.5 * 4) * 2)", &mut Context::new()).unwrap());

    // No parens
    let tokens = vec![Token::new("10"), Token::new("+"), Token::new("5")];
    assert!(tokens == tokenize("10.0 + 5", &mut Context::new()).unwrap());
}

#[test]
fn test_shunting_yard() {
    let tokens = tokenize("3 + 4 * 2 / ( 1 - 5 ) ^ 2 ^ 3", &mut Context::new()).unwrap();
    let expected = vec![
        Token::new("3"),
        Token::new("4"),
        Token::new("2"),
        Token::new("*"),
        Token::new("1"),
        Token::new("5"),
        Token::new("-"),
        Token::new("2"),
        Token::new("3"),
        Token::new("^"),
        Token::new("^"),
        Token::new("/"),
        Token::new("+"),
    ];
    assert_eq!(shunting_yard(tokens).unwrap(), expected);

    let tokens = tokenize("((15 / (7 -(1 + 1))) * 3) - (2 + (1 + 1))", &mut Context::new())
        .unwrap();
    let expected = vec![
        Token::new("15"),
        Token::new("7"),
        Token::new("1"),
        Token::new("1"),
        Token::new("+"),
        Token::new("-"),
        Token::new("/"),
        Token::new("3"),
        Token::new("*"),
        Token::new("2"),
        Token::new("1"),
        Token::new("1"),
        Token::new("+"),
        Token::new("+"),
        Token::new("-"),
    ];
    assert_eq!(shunting_yard(tokens).unwrap(), expected);

    // unary minus
    let tokens = tokenize("-10 + 5", &mut Context::new()).unwrap();
    let expected = vec![Token::new("10"), Token::new("#"), Token::new("5"), Token::new("+")];
    assert_eq!(shunting_yard(tokens).unwrap(), expected);
}

#[test]
fn token_test_shunting_yard() {
    let tokens = tokenize("3 + 4 * 2 / ( 1 - 5 ) ^ 2 ^ 3", &mut Context::new()).unwrap();
    let expected = vec![
        Token::new("3"),
        Token::new("4"),
        Token::new("2"),
        Token::new("*"),
        Token::new("1"),
        Token::new("5"),
        Token::new("-"),
        Token::new("2"),
        Token::new("3"),
        Token::new("^"),
        Token::new("^"),
        Token::new("/"),
        Token::new("+"),
    ];
    assert_eq!(shunting_yard(tokens).unwrap(), expected);
}

#[test]
fn test_operator_evaluate() {
    assert_eq!(Operator::Add.evaluate(num(1.0), num(10.0)), num(1.0 + 10.0));
    assert_eq!(Operator::Add.evaluate(num(15.0), num(15.0)), num(15.0 + 15.0));
    assert_eq!(Operator::Add.evaluate(num(10.0), num(20.0)), num(10.0 + 20.0));

    assert_eq!(Operator::Sub.evaluate(num(1.0), num(10.0)), num(1.0 - 10.0));
    assert_eq!(Operator::Sub.evaluate(num(15.0), num(15.0)), num(15.0 - 15.0));
    assert_eq!(Operator::Sub.evaluate(num(10.0), num(20.0)), num(10.0 - 20.0));

    assert_eq!(Operator::Mul.evaluate(num(1.0), num(10.0)), num(1.0 * 10.0));
    assert_eq!(Operator::Mul.evaluate(num(15.0), num(15.0)), num(15.0 * 15.0));
    assert_eq!(Operator::Mul.evaluate(num(10.0), num(20.0)), num(10.0 * 20.0));

    assert_eq!(Operator::Div.evaluate(num(1.0), num(10.0)), num(1.0 / 10.0));
    assert_eq!(Operator::Div.evaluate(num(15.0), num(15.0)), num(15.0 / 15.0));
    assert_eq!(Operator::Div.evaluate(num(10.0), num(20.0)), num(10.0 / 20.0));

    assert_eq!(Operator::Pow.evaluate(num(1.0), num(10.0)), num((1.0 as f64).powf(10.0)));
    assert_eq!(Operator::Pow.evaluate(num(15.0), num(15.0)), num((15.0 as f64).powf(15.0)));
    assert_eq!(Operator::Pow.evaluate(num(10.0), num(20.0)), num((10.0 as f64).powf(20.0)));

    assert_eq!(Operator::USub.evaluate(num(0.0), num(10.0)), num(-10.0));
    assert_eq!(Operator::USub.evaluate(num(0.0), num(15.0)), num(-15.0));
    assert_eq!(Operator::USub.evaluate(num(0.0), num(10.0)), num(-10.0));
}

#[test]
fn operator_char_round_trip() {
    for c in ['+', '-', '*', '/', '^', '#', '='] {
        let op = Operator::from_char(c).unwrap();
        assert_eq!(op.to_char(), c);
    }
    assert_eq!(Operator::from_char('x'), None);
    assert_eq!(Paren::from_char('x'), None);
    assert_eq!(Paren::Left.to_char(), '(');
    assert_eq!(Paren::Right.to_char(), ')');
    assert!(Paren::Left.is_left());
    assert!(Paren::Right.is_right());
    assert!(!Paren::Left.is_right());
}

#[test]
fn keyword_aliases() {
    assert_eq!(Keyword::from_str("var"), Some(Keyword::Var));
    assert_eq!(Keyword::from_str("let"), Some(Keyword::Var));
    assert_eq!(Keyword::from_str("fn"), Some(Keyword::Function));
    assert_eq!(Keyword::from_str("func"), Some(Keyword::Function));
    assert_eq!(Keyword::from_str("function"), Some(Keyword::Function));
    // Matching ignores ASCII case.
    assert_eq!(Keyword::from_str("VAR"), Some(Keyword::Var));
    assert_eq!(Keyword::from_str("Let"), Some(Keyword::Var));
    assert_eq!(Keyword::from_str("Fn"), Some(Keyword::Function));
    assert_eq!(Keyword::from_str("FUNCTION"), Some(Keyword::Function));
    assert_eq!(Keyword::from_str("vAr"), Some(Keyword::Var));
    assert_eq!(Keyword::from_str("banana"), None);
    assert_eq!(Keyword::from_str("vars"), None);
}
