use js_compiler::interpreter::solve_postfix;
use js_compiler::literal::Literal::NumericLiteral;
use js_compiler::literal::Literal;
use js_compiler::operator::BinaryOperator::{Add, Div, Mul, Sub};
use js_compiler::operator::LogicalOperator;
use js_compiler::operator::Operator;
use js_compiler::operator::Operator::{LeftParenthesis, RightParenthesis};
use js_compiler::postfix::{postfix, PostfixError};
use js_compiler::token::EvalError;
use js_compiler::token::Token;
use js_compiler::token::Token::{LiteralToken, OperatorToken};

fn num(v: i64) -> Token {
    LiteralToken(NumericLiteral(v))
}

fn op(o: js_compiler::operator::BinaryOperator) -> Token {
    OperatorToken(Operator::BinOp(o))
}

/// Tokens written first to last, stored the way `postfix` takes them.
fn stream(mut ts: Vec<Token>) -> Vec<Token> {
    ts.reverse();
    ts
}

#[test]
fn should_postfix_expression() {
    let token_in: &mut Vec<Token> = &mut Vec::new();
    token_in.push(LiteralToken(NumericLiteral(1)));
    token_in.push(OperatorToken(Operator::BinOp(Add)));
    token_in.push(LiteralToken(NumericLiteral(1)));

    let mut expected = vec![];
    expected.push(LiteralToken(NumericLiteral(1)));
    expected.push(LiteralToken(NumericLiteral(1)));
    expected.push(OperatorToken(Operator::BinOp(Add)));
    let token_postfix = postfix(token_in);

    assert_eq!(token_postfix, Ok(expected));
}

#[test]
fn should_postfix_parenthesized_expression() {
    let token_in: &mut Vec<Token> = &mut Vec::new();
    // 2 * ( 1 + 1 )
    token_in.push(OperatorToken(RightParenthesis));
    token_in.push(LiteralToken(NumericLiteral(1)));
    token_in.push(OperatorToken(Operator::BinOp(Add)));
    token_in.push(LiteralToken(NumericLiteral(1)));
    token_in.push(OperatorToken(LeftParenthesis));
    token_in.push(OperatorToken(Operator::BinOp(Mul)));
    token_in.push(LiteralToken(NumericLiteral(2)));

    let mut expected = vec![];
    expected.push(LiteralToken(NumericLiteral(2)));
    expected.push(LiteralToken(NumericLiteral(1)));
    expected.push(LiteralToken(NumericLiteral(1)));
    expected.push(OperatorToken(Operator::BinOp(Add)));
    expected.push(OperatorToken(Operator::BinOp(Mul)));
    let token_postfix = postfix(token_in);

    assert_eq!(token_postfix, Ok(expected));
}

#[test]
fn one_plus_one_evaluates_to_two() {
    let mut t = stream(vec![num(1), op(Add), num(1)]);
    let p = postfix(&mut t).unwrap();
    assert!(t.is_empty());
    assert_eq!(p, vec![num(1), num(1), op(Add)]);
    assert!(matches!(solve_postfix(&p), Ok(Literal::NumericLiteral(2))));
}

#[test]
fn two_times_parenthesized_sum_is_four() {
    let mut t = stream(vec![
        num(2),
        op(Mul),
        OperatorToken(LeftParenthesis),
        num(1),
        op(Add),
        num(1),
        OperatorToken(RightParenthesis),
    ]);
    let p = postfix(&mut t).unwrap();
    assert!(matches!(solve_postfix(&p), Ok(Literal::NumericLiteral(4))));
}

#[test]
fn increasing_precedence_round_trip() {
    // 7 - 2 * 3 is 1 under standard precedence
    let mut t = stream(vec![num(7), op(Sub), num(2), op(Mul), num(3)]);
    let p = postfix(&mut t).unwrap();
    assert_eq!(p, vec![num(7), num(2), num(3), op(Mul), op(Sub)]);
    assert!(matches!(solve_postfix(&p), Ok(Literal::NumericLiteral(1))));
    // 20 - 8 / 2 is 16
    let mut t = stream(vec![num(20), op(Sub), num(8), op(Div), num(2)]);
    let p = postfix(&mut t).unwrap();
    assert!(matches!(solve_postfix(&p), Ok(Literal::NumericLiteral(16))));
}

#[test]
fn non_commutative_operand_order() {
    let p = vec![num(10), num(4), op(Sub)];
    assert!(matches!(solve_postfix(&p), Ok(Literal::NumericLiteral(6))));
    let p = vec![num(10), num(4), op(Div)];
    assert!(matches!(solve_postfix(&p), Ok(Literal::NumericLiteral(2))));
}

#[test]
fn balanced_parentheses_leave_none() {
    let mut t = stream(vec![
        OperatorToken(LeftParenthesis),
        OperatorToken(LeftParenthesis),
        num(1),
        op(Add),
        num(2),
        OperatorToken(RightParenthesis),
        op(Mul),
        num(3),
        OperatorToken(RightParenthesis),
    ]);
    let p = postfix(&mut t).unwrap();
    assert!(p.iter().all(|t| !matches!(t, OperatorToken(LeftParenthesis) | OperatorToken(RightParenthesis))));
    assert!(matches!(solve_postfix(&p), Ok(Literal::NumericLiteral(9))));
}

#[test]
fn unmatched_parentheses_are_fatal() {
    let mut t = stream(vec![num(1), op(Add), num(2), OperatorToken(RightParenthesis)]);
    assert_eq!(postfix(&mut t), Err(PostfixError::MismatchedParenthesis));
    let mut t = stream(vec![OperatorToken(RightParenthesis), num(1), OperatorToken(LeftParenthesis)]);
    assert_eq!(postfix(&mut t), Err(PostfixError::MismatchedParenthesis));
    let mut t = stream(vec![OperatorToken(LeftParenthesis), num(1), op(Add), num(2)]);
    assert_eq!(postfix(&mut t), Err(PostfixError::MismatchedParenthesis));
}

#[test]
fn identifiers_are_not_converted() {
    let mut t = stream(vec![Token::IdentifierToken(String::from("x")), op(Add), num(1)]);
    assert_eq!(postfix(&mut t), Err(PostfixError::UnsupportedToken));
}

#[test]
fn evaluation_errors() {
    assert!(matches!(solve_postfix(&vec![op(Add)]), Err(EvalError::EmptyStack)));
    assert!(matches!(solve_postfix(&vec![]), Err(EvalError::EmptyStack)));
    assert!(matches!(solve_postfix(&vec![num(1), num(2)]), Err(EvalError::LeftoverOperands)));
    let p = vec![num(1), LiteralToken(Literal::StringLiteral(String::from("a"))), op(Sub)];
    assert!(matches!(solve_postfix(&p), Err(EvalError::UndefinedOperation)));
    let p = vec![num(1), num(2), OperatorToken(Operator::LogOp(LogicalOperator::Or))];
    assert!(matches!(solve_postfix(&p), Err(EvalError::UnsupportedOperator)));
    let p = vec![Token::Undefined];
    assert!(matches!(solve_postfix(&p), Err(EvalError::UnsupportedToken)));
}
