use exprcalc::compiler::{compile, Compiler};
use exprcalc::error::{CompileError, EvalError, LexError};
use exprcalc::lexer::tokenize;
use exprcalc::bignat::BigNat;
use exprcalc::number::{BigInt, Number};
use exprcalc::operators::{Operator, OperatorKind};
use exprcalc::pipeline::{calculate, evaluate, render, Error, RenderMode};
use exprcalc::solver::{Expression, Value};
use exprcalc::token::{Token, TokenKind};


fn nat_text(n: &BigNat) -> String {
    let text: String = n.digits().iter().rev().map(|d| char::from(b'0' + d)).collect();
    let trimmed = text.trim_start_matches('0');
    if trimmed.is_empty() {
        "0".to_string()
    } else {
        trimmed.to_string()
    }
}

fn int_text(n: &BigInt) -> String {
    let magnitude = nat_text(&n.magnitude());
    if n.is_negative() {
        format!("-{magnitude}")
    } else {
        magnitude
    }
}

fn parts(n: &Number) -> (i128, i128) {
    (int_text(&n.numerator()).parse().unwrap(), nat_text(&n.denominator()).parse().unwrap())
}

fn to_integer(n: &Number) -> Option<i128> {
    let (a, b) = parts(n);
    if a % b == 0 {
        Some(a / b)
    } else {
        None
    }
}

fn integer_result(text: &str) -> i128 {
    match calculate(text).unwrap() {
        Value::Number(n) => to_integer(&n).unwrap(),
        Value::Boolean(_) => panic!("expected a number"),
    }
}

fn truth_result(text: &str) -> bool {
    match calculate(text).unwrap() {
        Value::Boolean(b) => b,
        Value::Number(_) => panic!("expected a truth value"),
    }
}

fn postfix_of(text: &str) -> String {
    compile(&tokenize(text).unwrap()).unwrap().render_postfix()
}

fn infix_of(text: &str) -> String {
    compile(&tokenize(text).unwrap()).unwrap().render_infix().unwrap()
}

fn operator_kinds(text: &str) -> Vec<OperatorKind> {
    let expr = compile(&tokenize(text).unwrap()).unwrap();
    expr.tokens()
        .iter()
        .filter_map(|t| match t.kind() {
            TokenKind::Operator(o) => Some(o.kind()),
            _ => None,
        })
        .collect()
}

#[test]
fn end_to_end_results() {
    assert_eq!(integer_result("3 + 4 * 2"), 11);
    assert_eq!(integer_result("(3 + 4) * 2"), 14);
    assert_eq!(integer_result("-3 + 5"), 2);
    assert_eq!(integer_result("2 ** 3"), 8);
    assert!(truth_result("1 == 1"));
    assert!(truth_result("!(1 == 2)"));
}

#[test]
fn multiplication_binds_tighter_than_addition() {
    assert_eq!(integer_result("2+3*4"), 14);
    assert_eq!(postfix_of("2+3*4"), "2 3 4 * +");
}

#[test]
fn exponent_associates_left() {
    assert_eq!(integer_result("2^3^2"), 64);
    assert_eq!(postfix_of("2^3^2"), "2 3 ^ 2 ^");
}

#[test]
fn subtraction_associates_left() {
    assert_eq!(integer_result("10 - 4 - 3"), 3);
}

#[test]
fn arity_resolution() {
    assert_eq!(operator_kinds("-5"), vec![OperatorKind::Negate]);
    assert_eq!(operator_kinds("3-5"), vec![OperatorKind::Difference]);
    assert_eq!(operator_kinds("(-5)"), vec![OperatorKind::Negate]);
    assert_eq!(operator_kinds("3-(-5)"), vec![OperatorKind::Negate, OperatorKind::Difference]);
    assert_eq!(operator_kinds("+5"), vec![OperatorKind::Positive]);
    assert_eq!(integer_result("3-(-5)"), 8);
}

#[test]
fn correct_arity_from_the_previous_token() {
    let minus = Operator::from(&"-".to_string()).unwrap();
    assert_eq!(minus.correct_arity(&None).kind(), OperatorKind::Negate);
    let literal = tokenize("7").unwrap().pop();
    assert_eq!(minus.correct_arity(&literal).kind(), OperatorKind::Difference);
    let open = tokenize("(1)").unwrap().into_iter().next();
    assert_eq!(minus.correct_arity(&open).kind(), OperatorKind::Negate);
    let close = tokenize("(1)").unwrap().pop();
    let negate = minus.correct_arity(&None);
    assert_eq!(negate.correct_arity(&close).kind(), OperatorKind::Difference);
    let times = Operator::from(&"*".to_string()).unwrap();
    assert_eq!(times.correct_arity(&None).kind(), OperatorKind::Product);
}

#[test]
fn operator_catalog() {
    let exp = Operator::from(&"**".to_string()).unwrap();
    assert_eq!(exp.kind(), OperatorKind::Exp);
    assert_eq!(exp.precedence(), 4);
    assert_eq!(exp.arity(), 2);
    let not = Operator::from(&"!".to_string()).unwrap();
    assert_eq!(not.arity(), 1);
    assert!(not.is_logical());
    let eq = Operator::from(&"==".to_string()).unwrap();
    assert_eq!(eq.precedence(), 1);
    assert!(eq.is_logical());
    let plus = Operator::from(&"+".to_string()).unwrap();
    assert!(!plus.is_logical());
    assert_eq!(plus.precedence(), 2);
    assert_eq!(plus.correct_arity(&None).precedence(), 5);
    assert_eq!(Operator::from(&"=".to_string()).unwrap_err(), LexError::UnknownOperator);
    assert_eq!(Operator::from(&"+-".to_string()).unwrap_err(), LexError::UnknownOperator);
}

#[test]
fn neutral_values_for_the_wrong_compute_path() {
    let and = Operator::from(&"&&".to_string()).unwrap();
    let sum = Operator::from(&"+".to_string()).unwrap();
    let one = Number::integer(1);
    assert_eq!(to_integer(&and.compute_2(&one, &one).unwrap()), Some(0));
    assert!(sum.logical_compute_2(false, false));
    assert_eq!(to_integer(&and.compute_1(&one).unwrap()), Some(0));
    assert!(sum.logical_compute_1(false));
    assert!(!and.logical_compute_2(true, false));
    let not = Operator::from(&"!".to_string()).unwrap();
    assert!(not.logical_compute_1(false));
}

#[test]
fn malformed_input() {
    assert_eq!(calculate("3 + ").unwrap_err(), Error::Lex(LexError::DanglingOperator));
    let expr = compile(&tokenize("3 4").unwrap()).unwrap();
    assert_eq!(expr.render_postfix(), "3 4");
    assert_eq!(expr.solve().unwrap_err(), EvalError::MalformedExpression);
}

#[test]
fn too_few_operands() {
    assert_eq!(calculate("--5").unwrap_err(), Error::Eval(EvalError::MalformedExpression));
    assert_eq!(calculate("()").unwrap_err(), Error::Eval(EvalError::MalformedExpression));
}

#[test]
fn dangling_closing_parenthesis_is_unmatched() {
    assert_eq!(calculate(")(1").unwrap_err(), Error::Compile(CompileError::UnmatchedParenthesis));
    assert_eq!(calculate("1)+(2").unwrap_err(), Error::Compile(CompileError::UnmatchedParenthesis));
}

#[test]
fn unsupported_tokens() {
    assert_eq!(calculate("a + 1").unwrap_err(), Error::Compile(CompileError::UnsupportedToken));
    assert_eq!(calculate("1; 2").unwrap_err(), Error::Compile(CompileError::UnsupportedToken));
    assert_eq!(calculate("{1}").unwrap_err(), Error::Compile(CompileError::UnsupportedToken));
}

#[test]
fn exact_fractions() {
    assert!(truth_result("0.1 + 0.2 == 0.3"));
    assert_eq!(integer_result("1.5 * 2"), 3);
    match calculate("1 / 4").unwrap() {
        Value::Number(n) => {
            assert_eq!(parts(&n), (1, 4));
            assert_eq!(to_integer(&n), None);
        },
        _ => panic!("expected a number"),
    }
    match calculate("2 ^ -1").unwrap() {
        Value::Number(n) => assert_eq!(parts(&n), (1, 2)),
        _ => panic!("expected a number"),
    }
    match calculate("1 / -2").unwrap() {
        Value::Number(n) => assert_eq!(parts(&n), (-1, 2)),
        _ => panic!("expected a number"),
    }
}

#[test]
fn comparisons_and_logic() {
    assert!(truth_result("2 > 1"));
    assert!(!truth_result("2 < 1"));
    assert!(truth_result("2 >= 2"));
    assert!(truth_result("1.5 <= 2"));
    assert!(truth_result("1 != 2"));
    assert!(truth_result("(1 < 2) && (2 < 3)"));
    assert!(truth_result("(1 > 2) || (2 < 3)"));
    assert!(truth_result("(1 == 1) == (2 == 2)"));
}

#[test]
fn evaluation_errors() {
    assert_eq!(calculate("1 / 0").unwrap_err(), Error::Eval(EvalError::DivisionByZero));
    assert_eq!(calculate("0.0 ^ -1").unwrap_err(), Error::Eval(EvalError::DivisionByZero));
    assert_eq!(calculate("2 ^ 0.5").unwrap_err(), Error::Eval(EvalError::NonIntegerExponent));
    assert_eq!(calculate("(1 == 1) + 2").unwrap_err(), Error::Eval(EvalError::TypeMismatch));
    assert_eq!(calculate("1 < 2 && 2 < 3").unwrap_err(), Error::Eval(EvalError::TypeMismatch));
    assert_eq!(calculate("!1").unwrap_err(), Error::Eval(EvalError::TypeMismatch));
}

#[test]
fn powers() {
    assert_eq!(integer_result("2 ^ 10"), 1024);
    assert_eq!(integer_result("7 ^ 0"), 1);
    assert_eq!(integer_result("1 ^ 1000"), 1);
    assert_eq!(integer_result("-1 ^ 3"), -1);
    assert_eq!(integer_result("0.0 ^ 5"), 0);
    assert_eq!(integer_result("2 ^ 2.0"), 4);
}

#[test]
fn number_arithmetic() {
    let a = Number::fraction(1, 2);
    let b = Number::fraction(1, 3);
    let s = a.add(&b);
    assert_eq!(parts(&s), (5, 6));
    let d = a.sub(&b);
    assert_eq!(parts(&d), (1, 6));
    let p = a.mul(&b);
    assert_eq!(parts(&p), (1, 6));
    let q = a.div(&b).unwrap();
    assert_eq!(parts(&q), (3, 2));
    let big_neg = Number::integer(i64::MIN).neg();
    assert_eq!(int_text(&big_neg.numerator()), "9223372036854775808");
    let r = Number::integer(-4).recip().unwrap();
    assert_eq!(parts(&r), (-1, 4));
}

#[test]
fn postfix_rendering() {
    assert_eq!(postfix_of("(3 + 4) * 2"), "3 4 + 2 *");
    assert_eq!(postfix_of("-5"), "5 -");
    assert_eq!(postfix_of("2 ** 3"), "2 3 ^");
    assert_eq!(postfix_of("0x1F + 0b1"), "0x1F 0b1 +");
}

#[test]
fn postfix_text_is_stable_when_re_read() {
    for text in ["42", "(1 + 2) 3", "0x1F", "(7) (8)"] {
        let first = postfix_of(text);
        let again = Expression::new(tokenize(&first).unwrap()).render_postfix();
        assert_eq!(again, first);
    }
    assert_eq!(postfix_of("(1 + 2) 3"), "1 2 + 3");
}

#[test]
fn postfix_text_ending_in_an_operator_dangles_when_re_read() {
    let first = postfix_of("2 + 3");
    assert_eq!(first, "2 3 +");
    assert_eq!(tokenize(&first).unwrap_err(), LexError::DanglingOperator);
}

#[test]
fn infix_rendering() {
    assert_eq!(infix_of("1 + 2 * 3"), "1 + (2 * 3)");
    assert_eq!(infix_of("(1 + 2) * 3"), "(1 + 2) * 3");
    assert_eq!(infix_of("-5"), "-5");
    assert_eq!(infix_of("!(1 == 2)"), "!(1 == 2)");
    assert_eq!(infix_of("42"), "42");
    let expr = compile(&tokenize("3 4").unwrap()).unwrap();
    assert_eq!(expr.render_infix().unwrap_err(), EvalError::MalformedExpression);
}

#[test]
fn boundary_functions() {
    let expr = Compiler::new().to_expression(&tokenize("6 / 3").unwrap()).unwrap();
    match evaluate(&expr).unwrap() {
        Value::Number(n) => assert_eq!(to_integer(&n), Some(2)),
        _ => panic!("expected a number"),
    }
    assert_eq!(render(&expr, RenderMode::Postfix).unwrap(), "6 3 /");
    assert_eq!(render(&expr, RenderMode::Infix).unwrap(), "6 / 3");
}

#[test]
fn leftover_values_are_malformed() {
    let expr = Expression::new(tokenize("1 2 + 3").unwrap());
    assert_eq!(expr.solve().unwrap_err(), EvalError::MalformedExpression);
    assert_eq!(expr.render_infix().unwrap_err(), EvalError::MalformedExpression);
}

#[test]
fn postfix_built_by_hand_evaluates() {
    let expr = Expression::new(tokenize("2 3 4 * - 5").unwrap().into_iter().take(5).collect());
    match expr.solve().unwrap() {
        Value::Number(n) => assert_eq!(to_integer(&n), Some(-10)),
        _ => panic!("expected a number"),
    }
    assert_eq!(expr.render_infix().unwrap(), "2 - (3 * 4)");
}

#[test]
fn retagging_keeps_the_spelling() {
    let minus = Operator::from(&"-".to_string()).unwrap();
    let mut token = Token::from_operator(minus);
    let negate = minus.correct_arity(&None);
    token.update_kind(TokenKind::Operator(negate));
    match token.kind() {
        TokenKind::Operator(o) => assert_eq!(o.kind(), OperatorKind::Negate),
        _ => panic!("expected an operator"),
    }
    assert_eq!(token.as_string(), "-");
    assert!(token.value().is_none());
    let literal = Token::numeric("2.5".to_string(), Number::fraction(25, 10));
    assert_eq!(parts(&literal.value().unwrap()), (25, 10));
    let comma = Token::plain(TokenKind::Separator, ",".to_string());
    assert_eq!(comma.as_string(), ",");
}

#[test]
fn large_values_stay_exact() {
    let product = |text: &str| match calculate(text).unwrap() {
        Value::Number(n) => (int_text(&n.numerator()), nat_text(&n.denominator())),
        _ => panic!("expected a number"),
    };
    assert_eq!(
        product("100000000000000000000 * 100000000000000000000"),
        ("10000000000000000000000000000000000000000".to_string(), "1".to_string())
    );
    assert_eq!(
        product("2 ^ 200").0,
        "1606938044258990275541962092341162602522202993782792835301376"
    );
    let big = "0xFFFFFFFFFFFFFFFF * 0xFFFFFFFFFFFFFFFF * 0xFFFFFFFFFFFFFFFF";
    assert_eq!(product(big).0, "6277101735386680762814942322444851025767571854389858533375");
    match calculate("1.0 ^ 40").unwrap() {
        Value::Number(n) => assert!(n.same_value(&Number::integer(1))),
        _ => panic!("expected a number"),
    }
    assert_eq!(integer_result("99999999999999999999 - 99999999999999999998"), 1);
    assert!(truth_result("100000000000000000000 > 99999999999999999999"));
    assert_eq!(integer_result("-100000000000000000000 / 50000000000000000000"), -2);
}
