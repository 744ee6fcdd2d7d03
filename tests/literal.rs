use std::cmp::Ordering;
use js_compiler::literal::Literal;
use js_compiler::operator::{BinaryOperator, Operator};
use js_compiler::token::EvalError;

fn s(v: &str) -> Literal {
    Literal::StringLiteral(String::from(v))
}

fn n(v: i64) -> Literal {
    Literal::NumericLiteral(v)
}

fn solve(op: BinaryOperator, a: Literal, b: Literal) -> Result<Literal, EvalError> {
    Operator::BinOp(op).solve(a, b)
}

#[test]
fn should_add_numeric() {}

#[test]
fn should_add() {
    //Num + num
    let a = Literal::NumericLiteral(1);
    let b = Literal::NumericLiteral(1);
    assert_eq!(a.add(b), Literal::NumericLiteral(2));

    // String + String
    let a = Literal::StringLiteral(String::from("fizz"));
    let b = Literal::StringLiteral(String::from("buzz"));
    let result = a.add(b);
    assert_eq!(result.to_string(), "fizzbuzz");

    // Num + String
    let a = Literal::NumericLiteral(2);
    let b = Literal::StringLiteral(String::from("fizz"));
    let result = a.add(b);
    assert_eq!(result.to_string(), "2fizz");

    // String + Num
    let a = Literal::StringLiteral(String::from("fizz"));
    let b = Literal::NumericLiteral(2);
    let result = a.add(b);
    assert_eq!(result.to_string(), "fizz2");

    // Infinity + Any
    let a = Literal::Infinity;
    let b = Literal::StringLiteral(String::from("fizz"));
    let result = a.add(b);
    assert_eq!(result.to_string(), "Infinity");

    // Any + Infinity
    let a = Literal::NumericLiteral(3);
    let b = Literal::Infinity;
    let result = a.add(b);
    assert_eq!(result.to_string(), "Infinity");
}

#[test]
fn add_table() {
    assert_eq!(n(-4).add(n(10)).to_string(), "6");
    assert_eq!(s("a").add(Literal::NullLiteral).to_string(), "a");
    assert_eq!(Literal::NullLiteral.add(s("b")).to_string(), "b");
    assert!(matches!(Literal::NullLiteral.add(Literal::NullLiteral), Literal::NullLiteral));
    assert!(matches!(s("x").add(Literal::Infinity), Literal::Infinity));
    assert!(matches!(Literal::BooleanLiteral(true).add(n(1)), Literal::NullLiteral));
    assert!(matches!(n(1).add(Literal::NullLiteral), Literal::NullLiteral));
    assert_eq!(n(-12).add(s("px")).to_string(), "-12px");
}

#[test]
fn sub_table() {
    assert_eq!(s("abc").sub(s("b")).to_string(), "ac");
    assert_eq!(s("banana").sub(s("an")).to_string(), "ba");
    assert_eq!(s("aaa").sub(s("aa")).to_string(), "a");
    assert_eq!(s("abc").sub(s("")).to_string(), "abc");
    assert_eq!(s("abc").sub(n(1)).to_string(), "ac");
    assert_eq!(n(3).sub(n(5)).to_string(), "-2");
    assert_eq!(s("abc").sub(Literal::NullLiteral).to_string(), "abc");
    assert_eq!(Literal::NullLiteral.sub(s("q")).to_string(), "q");
    assert!(matches!(Literal::Infinity.sub(n(1)), Literal::Infinity));
    assert!(matches!(Literal::NullLiteral.sub(Literal::NullLiteral), Literal::NullLiteral));
}

#[test]
fn number_minus_string_is_undefined() {
    assert_eq!(solve(BinaryOperator::Sub, n(1), s("a")), Err(EvalError::UndefinedOperation));
    assert_eq!(solve(BinaryOperator::Sub, s("ab"), n(2)), Err(EvalError::UndefinedOperation));
    assert_eq!(solve(BinaryOperator::Sub, s("ab"), n(-1)), Err(EvalError::UndefinedOperation));
}

#[test]
fn mul_table() {
    assert_eq!(n(6).mul(n(7)).to_string(), "42");
    assert_eq!(s("ab").mul(s("xy")).to_string(), "axybxy");
    assert_eq!(n(3).mul(s("ab")).to_string(), "ababab");
    assert_eq!(s("ab").mul(n(2)).to_string(), "abab");
    assert_eq!(s("ab").mul(n(-2)).to_string(), "");
    assert!(matches!(s("ab").mul(Literal::NullLiteral), Literal::NullLiteral));
    assert!(matches!(Literal::NullLiteral.mul(s("ab")), Literal::NullLiteral));
    assert!(matches!(Literal::Infinity.mul(s("ab")), Literal::Infinity));
    assert!(matches!(n(2).mul(Literal::Infinity), Literal::Infinity));
}

#[test]
fn div_table() {
    assert!(matches!(n(5).div(n(0)), Literal::Infinity));
    assert_eq!(n(7).div(n(2)).to_string(), "3");
    assert_eq!(n(-7).div(n(2)).to_string(), "-3");
    assert_eq!(s("ab").div(s("xy")).to_string(), "axybxy");
    assert_eq!(n(2).div(s("ab")).to_string(), "abab");
    assert!(matches!(Literal::NullLiteral.div(Literal::NullLiteral), Literal::NullLiteral));
    assert!(matches!(Literal::Infinity.div(n(3)), Literal::Infinity));
}

#[test]
fn rem_rules() {
    assert_eq!(n(-7).rem(n(2)).to_string(), "-1");
    assert_eq!(n(7).rem(n(-2)).to_string(), "1");
    assert_eq!(solve(BinaryOperator::Mod, n(1), n(0)), Err(EvalError::UndefinedOperation));
    assert_eq!(solve(BinaryOperator::Mod, s("a"), n(2)), Err(EvalError::UndefinedOperation));
    assert_eq!(solve(BinaryOperator::Div, n(i64::MIN), n(-1)), Err(EvalError::UndefinedOperation));
    assert_eq!(solve(BinaryOperator::Add, n(i64::MAX), n(1)), Err(EvalError::UndefinedOperation));
}

#[test]
fn loose_equality() {
    assert!(n(12).loosely_equals(&s("12")));
    assert!(s("12") == n(12));
    assert!(s("x") != n(12));
    assert!(Literal::NullLiteral == Literal::NullLiteral);
    assert!(Literal::NullLiteral == s("Null"));
    assert!(Literal::Infinity == s("Infinity"));
    assert!(Literal::Infinity != n(1));
    assert!(Literal::BooleanLiteral(true) != Literal::BooleanLiteral(true));
}

#[test]
fn ordering() {
    assert_eq!(Literal::NullLiteral.compare(&n(-100)), Some(Ordering::Less));
    assert_eq!(Literal::NullLiteral.compare(&s("a")), Some(Ordering::Less));
    assert_eq!(Literal::Infinity.compare(&n(100)), Some(Ordering::Greater));
    assert_eq!(n(1).compare(&Literal::Infinity), Some(Ordering::Less));
    assert_eq!(s("abc").compare(&s("abd")), Some(Ordering::Less));
    assert_eq!(s("b").compare(&s("abc")), Some(Ordering::Greater));
    assert_eq!(n(2).compare(&n(10)), Some(Ordering::Less));
    assert_eq!(n(2).compare(&s("10")), Some(Ordering::Greater));
    assert_eq!(Literal::BooleanLiteral(true).compare(&n(1)), None);
    assert_eq!(solve(BinaryOperator::LessThan, n(1), n(2)).map(|l| l.as_bool()), Ok(true));
    assert_eq!(solve(BinaryOperator::GreaterThanOrEq, n(2), n(2)).map(|l| l.as_bool()), Ok(true));
    assert_eq!(solve(BinaryOperator::StrictEqual, n(2), s("2")).map(|l| l.as_bool()), Ok(true));
    assert_eq!(solve(BinaryOperator::NotEqual, n(2), s("2")).map(|l| l.as_bool()), Ok(false));
}

#[test]
fn truthiness_and_text() {
    assert!(!n(0).as_bool());
    assert!(n(-3).as_bool());
    assert!(s("").as_bool());
    assert!(!Literal::NullLiteral.as_bool());
    assert!(Literal::Infinity.as_bool());
    assert!(!Literal::BooleanLiteral(false).as_bool());
    assert_eq!(Literal::BooleanLiteral(true).to_string(), "true");
    assert_eq!(Literal::NullLiteral.to_string(), "Null");
    assert_eq!(n(i64::MIN).to_string(), "-9223372036854775808");
    assert_eq!(n(0).to_string(), "0");
}
