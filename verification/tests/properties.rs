//! End-to-end tests of evaluation: precedence, associativity, unary minus,
//! parenthesis balance, division by zero, variable persistence, the builtin
//! functions and the error taxonomy.

use pemdrs::EvalOutcome;
use pemdrs::context::Context;
use pemdrs::errors::BuildError;
use pemdrs::errors::CoreError;
use pemdrs::errors::EvalError;
use pemdrs::errors::LexError;
use pemdrs::errors::ReorderError;
use pemdrs::evaluate_source;
use pemdrs::num::Number;
use pemdrs::lexer::tokenize;
use pemdrs::reorder::shunting_yard;
use pemdrs::tree::Tree;
use pemdrs::function::Function;
use pemdrs::token::Token;
use pemdrs::eval_string;

fn eval_in(s: &str, ctx: &mut Context) -> f64 {
    match evaluate_source(s, ctx).unwrap() {
        EvalOutcome::Value(n) => f64::from_bits(n.to_bits()),
        EvalOutcome::NoValue => panic!("expected a value for {}", s),
    }
}

fn eval(s: &str) -> f64 {
    eval_in(s, &mut Context::new())
}

fn eval_err(s: &str) -> CoreError {
    evaluate_source(s, &mut Context::new()).unwrap_err()
}

#[test]
fn round_trip_arithmetic() {
    assert_eq!(eval("1+2"), 1.0 + 2.0);
    assert_eq!(eval("5-3"), 5.0 - 3.0);
    assert_eq!(eval("6*7"), 6.0 * 7.0);
    assert_eq!(eval("10/4"), 10.0 / 4.0);
    assert_eq!(eval("2^10"), (2.0 as f64).powf(10.0));
    assert_eq!(eval("1+2*3-4/8"), 1.0 + 2.0 * 3.0 - 4.0 / 8.0);
    assert_eq!(eval("(1+2)*3"), (1.0 + 2.0) * 3.0);
    assert_eq!(eval("0.1+0.2"), 0.1 + 0.2);
    assert_eq!(eval("1/3"), 1.0 / 3.0);
}

#[test]
fn associativity_of_power() {
    // Right-associative: 2^(3^2), not (2^3)^2.
    assert_eq!(eval("2^3^2"), 512.0);
    assert!(eval("2^3^2") != 64.0);
}

#[test]
fn precedence_of_operators() {
    assert_eq!(eval("3+4*2/(1-5)^2^3"), 3.0 + ((4.0 * 2.0) / ((1.0f64 - 5.0).powf((2.0f64).powf(3.0)))));
    assert_eq!(eval("3+4*2/(1-5)^2^3"), eval("3+((4*2)/((1-5)^(2^3)))"));
}

#[test]
fn unary_minus_chains() {
    assert_eq!(eval("-10+-5"), -15.0);
    assert_eq!(eval("--5"), 5.0);
    assert_eq!(eval("-(2+3)"), -5.0);
    assert_eq!(eval("-2^2"), 4.0);  // the unary minus binds tighter than the power
}

#[test]
fn parenthesis_balance() {
    assert!(matches!(eval_err("(1+2"), CoreError::Reorder(ReorderError::MismatchedParens)));
    assert!(matches!(eval_err("1+2)"), CoreError::Reorder(ReorderError::MismatchedParens)));
    assert!(matches!(eval_err("((((1"), CoreError::Reorder(ReorderError::MismatchedParens)));
    assert!(matches!(eval_err(")("), CoreError::Reorder(ReorderError::MismatchedParens)));
    assert_eq!(eval("((1+2))"), 3.0);
}

#[test]
fn division_by_zero() {
    assert!(matches!(eval_err("10/0"), CoreError::Eval(EvalError::DivisionByZero)));
    assert!(matches!(eval_err("10/(5-5)"), CoreError::Eval(EvalError::DivisionByZero)));
    assert!(matches!(eval_err("1/0.0"), CoreError::Eval(EvalError::DivisionByZero)));
    // A non-zero divisor divides fine.
    assert_eq!(eval("10/4"), 2.5);
}

#[test]
fn variable_persistence() {
    let mut ctx = Context::new();
    assert_eq!(eval_in("var x = 5", &mut ctx), 5.0);
    assert_eq!(eval_in("x + 1", &mut ctx), 6.0);
    assert_eq!(eval_in("var y = x * 2", &mut ctx), 10.0);
    assert_eq!(eval_in("x + y", &mut ctx), 15.0);
    // Re-declaring shadows the old binding.
    assert_eq!(eval_in("var x = 7", &mut ctx), 7.0);
    assert_eq!(eval_in("x + 1", &mut ctx), 8.0);
}

#[test]
fn tree_text_round_trip() {
    // Rebuilding the tree from the reordered stream, rendering it as fully
    // parenthesized text and evaluating that text reproduces the value —
    // including values the renderer writes in scientific notation.
    for src in [
        "3+4*2",
        "2^3^2",
        "-10+-5",
        "(5-(9/3)^2)*6+6",
        "48/4+7-6+6",
        "2^200",
        "2^-120",
        "2^100*3+1",
        "0.5/2^80",
    ] {
        let direct = eval(src);
        let tokens = tokenize(src, &mut Context::new()).unwrap();
        let post = shunting_yard(tokens).unwrap();
        let tree = Tree::from_vec(post).unwrap();
        let text = tree.to_text();
        assert_eq!(eval(text.as_str()), direct, "round trip of {} via {}", src, text);
    }
}

#[test]
fn order_of_operations_problems() {
    let problems: Vec<(&str, f64)> = vec![
        ("-2--4--8+-2+-11", -3.0),
        ("-2*-11+-3*-7+-4", 39.0),
        ("48/4+7-6+6", 19.0),
        ("-12--10+-4+-6*-4", 18.0),
        ("5+-12-42/7*-10", 53.0),
        ("(-2^3+-3)*-2--4+-3", 23.0),
        ("(54/9)^2-4*7+7", 15.0),
        ("(-3^2+-4)*-3--9+-4", -10.0),
        ("4-(8/4)^3*9+9", -59.0),
        ("6-(10/5)^2*-5+-5", 21.0),
        ("(5-(9/3)^2)*6+6", -18.0),
        ("(10+(16/8))*3^3-8", 316.0),
        ("((4^2+-6)*4)-3+6", 43.0),
        ("(4-(-2^2-4))*(-2-8)", -40.0),
        ("((-78/-13)^3-8)*-4+4", -828.0),
    ];
    for (problem, answer) in problems {
        assert_eq!(eval(problem), answer, "problem {}", problem);
    }
}

#[test]
fn function_declaration_and_call() {
    let mut ctx = Context::new();
    match evaluate_source("function foo a b = 2 * a + b", &mut ctx).unwrap() {
        EvalOutcome::NoValue => {},
        EvalOutcome::Value(_) => panic!("a function declaration produces no value"),
    }
    assert_eq!(eval_in("var bar = foo 10 12", &mut ctx), 32.0);
    assert_eq!(eval_in("bar + 1", &mut ctx), 33.0);
    assert_eq!(eval_in("foo 1 2 + 10", &mut ctx), 14.0);
    assert_eq!(eval_in("foo (1+2) 4", &mut ctx), 10.0);
}

#[test]
fn builtin_functions() {
    assert_eq!(eval("sin 0"), 0.0);
    assert_eq!(eval("cos 0"), 1.0);
    assert_eq!(eval("tan 0"), 0.0);
    assert_eq!(eval("atan 0"), 0.0);
    assert_eq!(eval("min 3 4"), 3.0);
    assert_eq!(eval("max 3 4"), 4.0);
    assert_eq!(eval("sum 1 2"), 3.0);
    assert_eq!(eval("min 3 4 + 10"), 13.0);
    // The trigonometric builtins compute their native operations, not the
    // identity: checked against the platform's own results with slack for
    // the final unit of precision.
    let cases: Vec<(&str, f64)> = vec![
        ("sin 1", (1.0f64).sin()),
        ("cos 1", (1.0f64).cos()),
        ("tan 1", (1.0f64).tan()),
        ("asin 0.5", (0.5f64).asin()),
        ("acos 0.5", (0.5f64).acos()),
        ("atan 1", (1.0f64).atan()),
    ];
    for (src, expect) in cases {
        let got = eval(src);
        assert!((got - expect).abs() <= 1e-12 * expect.abs().max(1.0), "{}: {} vs {}", src, got, expect);
    }
    // The arcsine outside [-1, 1] is not a number.
    assert!(eval("asin 2").is_nan());
}

#[test]
fn case_insensitive_keywords() {
    let mut ctx = Context::new();
    assert_eq!(eval_in("VAR x = 5", &mut ctx), 5.0);
    assert_eq!(eval_in("x + 1", &mut ctx), 6.0);
    assert_eq!(eval_in("Let y = 2", &mut ctx), 2.0);
    assert!(matches!(
        evaluate_source("FN double a = a * 2", &mut ctx).unwrap(),
        EvalOutcome::NoValue
    ));
    assert_eq!(eval_in("double 21", &mut ctx), 42.0);
    assert!(matches!(
        evaluate_source("FUNCTION triple b = b * 3", &mut ctx).unwrap(),
        EvalOutcome::NoValue
    ));
    assert_eq!(eval_in("triple 2", &mut ctx), 6.0);
}

#[test]
fn exponent_notation() {
    assert_eq!(eval("1.5E3"), 1500.0);
    assert_eq!(eval("2e3"), 2000.0);
    assert_eq!(eval("1e-2"), 0.01);
    assert_eq!(eval("2e+2"), 200.0);
    assert_eq!(eval("1e2+1"), 101.0);
    // The number parser reads a bare or unsigned-empty exponent as zero.
    assert_eq!(eval("1e"), 1.0);
    assert_eq!(eval("1e+"), 1.0);
    // A dot may not follow the exponent marker, and a second marker starts
    // an identifier.
    assert!(matches!(eval_err("1.2e3.4"), CoreError::Lex(LexError::MalformedNumber)));
    match eval_err("1ee2") {
        CoreError::Lex(LexError::UndefinedSymbol(s)) => assert_eq!(s.as_str(), "e"),
        other => panic!("expected an undefined symbol, got {:?}", other),
    }
}

#[test]
fn comparison_ordering() {
    let one = Number::from_bits((1.0f64).to_bits());
    let two = Number::from_bits((2.0f64).to_bits());
    let neg = Number::from_bits((-1.0f64).to_bits());
    let pz = Number::from_bits((0.0f64).to_bits());
    let nz = Number::from_bits((-0.0f64).to_bits());
    let nan = Number::from_bits(f64::NAN.to_bits());
    assert_eq!(one.compare(&two), Some(-1));
    assert_eq!(two.compare(&one), Some(1));
    assert_eq!(one.compare(&one), Some(0));
    assert_eq!(neg.compare(&one), Some(-1));
    assert_eq!(neg.compare(&nz), Some(-1));
    assert_eq!(pz.compare(&nz), Some(0));
    assert_eq!(nan.compare(&one), None);
    assert_eq!(one.compare(&nan), None);
}

#[test]
fn power_edge_cases() {
    assert_eq!(eval("4^0.5"), 2.0);
    assert_eq!(eval("2^-1"), 0.5);
    assert_eq!(eval("2^0"), 1.0);
    assert_eq!(eval("0^0"), 1.0);
    assert_eq!(eval("-2^3"), -8.0);  // (-2)^3: the unary minus binds tighter
    assert!(eval("(0-2)^0.5").is_nan());
}

#[test]
fn error_taxonomy() {
    assert!(matches!(eval_err("1.2.3"), CoreError::Lex(LexError::MalformedNumber)));
    match eval_err("nope + 1") {
        CoreError::Lex(LexError::UndefinedSymbol(s)) => assert_eq!(s.as_str(), "nope"),
        other => panic!("expected an undefined symbol, got {:?}", other),
    }
    assert!(matches!(eval_err("var"), CoreError::Lex(LexError::MissingIdentifierAfterKeyword)));
    assert!(matches!(
        eval_err("function"),
        CoreError::Lex(LexError::MissingIdentifierAfterKeyword)
    ));
    assert!(matches!(eval_err("3 = 4"), CoreError::Lex(LexError::UnexpectedAssign)));
    assert!(matches!(eval_err("3 + + 4"), CoreError::Build(BuildError::StackUnderflow)));
    assert!(matches!(eval_err("3 4"), CoreError::Build(BuildError::MalformedExpression)));
    assert!(matches!(eval_err("min 3"), CoreError::Eval(EvalError::ArityMismatch(2, 1))));
}

#[test]
fn unknown_builtin_tag() {
    let f = Function::new(
        String::from("mystery"),
        vec![String::from("_")],
        vec![Token::Data(String::from("##mystery"))],
    );
    assert_eq!(f.argc(), 1);
    let ctx = Context::new();
    match f.call(vec![Number::from_bits(0)], &ctx, 0).unwrap_err() {
        CoreError::Eval(EvalError::UnknownBuiltin(tag)) => assert_eq!(tag.as_str(), "##mystery"),
        other => panic!("expected an unknown builtin, got {:?}", other),
    }
}

#[test]
fn builtin_arity_errors() {
    assert!(matches!(eval_err("max 1"), CoreError::Eval(EvalError::ArityMismatch(2, 1))));
    assert!(matches!(eval_err("sin"), CoreError::Eval(EvalError::ArityMismatch(1, 0))));
}

#[test]
fn eval_string_one_shot() {
    let v = eval_string(&String::from("3+4*2")).unwrap();
    assert_eq!(f64::from_bits(v.to_bits()), 11.0);
    assert!(eval_string(&String::from("(1+2")).is_err());
}

#[test]
fn number_bits_and_negation() {
    let n = Number::from_bits((2.5f64).to_bits());
    assert_eq!(f64::from_bits(n.to_bits()), 2.5);
    assert_eq!(f64::from_bits(n.neg().to_bits()), -2.5);
    assert!(Number::from_bits((0.0f64).to_bits()).is_zero());
    assert!(Number::from_bits((-0.0f64).to_bits()).is_zero());
    assert!(!Number::from_bits((1.0f64).to_bits()).is_zero());
    assert!(Number::from_bits(f64::NAN.to_bits()).is_nan());
    assert!(!Number::from_bits((1.0f64).to_bits()).is_nan());
    // Parsing and rendering survive a round trip.
    let p = Number::parse("2.5").unwrap();
    assert_eq!(f64::from_bits(p.to_bits()), 2.5);
    let back = Number::parse(p.to_text().as_str()).unwrap();
    assert_eq!(back.to_bits(), p.to_bits());
    assert!(Number::parse("banana").is_none());
}

#[test]
fn min_max_with_nan() {
    let nan = Number::from_bits(f64::NAN.to_bits());
    let one = Number::from_bits((1.0f64).to_bits());
    assert_eq!(nan.min(&one).to_bits(), one.to_bits());
    assert_eq!(one.min(&nan).to_bits(), one.to_bits());
    assert_eq!(nan.max(&one).to_bits(), one.to_bits());
    assert_eq!(one.max(&nan).to_bits(), one.to_bits());
    let two = Number::from_bits((2.0f64).to_bits());
    assert_eq!(one.min(&two).to_bits(), one.to_bits());
    assert_eq!(one.max(&two).to_bits(), two.to_bits());
}

#[test]
fn no_value_outcomes() {
    let mut ctx = Context::new();
    assert!(matches!(evaluate_source("", &mut ctx).unwrap(), EvalOutcome::NoValue));
    assert!(matches!(
        evaluate_source("function f a = a + 1", &mut ctx).unwrap(),
        EvalOutcome::NoValue
    ));
    assert_eq!(eval_in("f 41", &mut ctx), 42.0);
}

#[test]
fn failed_declaration_leaves_context_unchanged() {
    let mut ctx = Context::new();
    assert!(evaluate_source("var x = nope", &mut ctx).is_err());
    assert!(evaluate_source("x + 1", &mut ctx).is_err());
    assert!(evaluate_source("var x = 1/0", &mut ctx).is_err());
    assert!(evaluate_source("x + 1", &mut ctx).is_err());
}
