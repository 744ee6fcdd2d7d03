//! Flat tokens produced by the linearizer, and the application of a binary
//! operator to two literal operands.

use std::cmp::Ordering;
use vstd::prelude::*;
use crate::literal::{
    add_defined, div_defined, lit_add, lit_cmp, lit_div, lit_mul, lit_rem, lit_sub, loose_eq,
    mul_defined, rem_defined, sub_defined, LitValue, Literal, lemma_trunc_div_range,
};
use crate::operator::{BinaryOperator, Operator};

verus! {

#[derive(Clone, Copy, Debug, PartialEq, Eq, Structural)]
pub enum ControlFlow {
    Break,
    Continue,
    Return,
}

/// A call collapsed into one token: the callee's name and the linearized
/// tokens of its arguments, one after another.
#[derive(Debug, PartialEq)]
pub struct Call {
    pub args: Vec<Token>,
    pub callee: String,
}

#[derive(Debug, PartialEq)]
pub enum Token {
    LiteralToken(Literal),
    OperatorToken(Operator),
    IdentifierToken(String),
    FunctionToken(Call),
    ControlFlow(ControlFlow),
    Undefined,
}

/// Why a postfix stream could not be evaluated.
#[derive(Clone, Copy, Debug, PartialEq, Eq, Structural)]
pub enum EvalError {
    /// An operator found fewer than two operands, or no value was left.
    EmptyStack,
    /// More than one value was left at the end.
    LeftoverOperands,
    /// The operator has no rule for these operands (a number minus a
    /// string, a remainder of non-numbers, an overflow, an index outside
    /// the string).
    UndefinedOperation,
    /// An operator that is not binary.
    UnsupportedOperator,
    /// A token that is neither a literal nor an operator.
    UnsupportedToken,
}

/// Whether `op` has a result on these operands.
pub open spec fn binary_defined(op: BinaryOperator, a: LitValue, b: LitValue) -> bool {
    match op {
        BinaryOperator::Add => add_defined(a, b),
        BinaryOperator::Sub => sub_defined(a, b),
        BinaryOperator::Mul => mul_defined(a, b),
        BinaryOperator::Div => div_defined(a, b),
        BinaryOperator::Mod => rem_defined(a, b),
        _ => true,
    }
}

/// The value of `a op b`; comparisons yield booleans.
pub open spec fn apply_binary(op: BinaryOperator, a: LitValue, b: LitValue) -> LitValue {
    match op {
        BinaryOperator::Add => lit_add(a, b),
        BinaryOperator::Sub => lit_sub(a, b),
        BinaryOperator::Mul => lit_mul(a, b),
        BinaryOperator::Div => lit_div(a, b),
        BinaryOperator::Mod => lit_rem(a, b),
        BinaryOperator::LessThan => LitValue::Bool(lit_cmp(a, b) == Some(Ordering::Less)),
        BinaryOperator::LessThanOrEq => LitValue::Bool(
            lit_cmp(a, b) == Some(Ordering::Less) || lit_cmp(a, b) == Some(Ordering::Equal),
        ),
        BinaryOperator::GreaterThan => LitValue::Bool(lit_cmp(a, b) == Some(Ordering::Greater)),
        BinaryOperator::GreaterThanOrEq => LitValue::Bool(
            lit_cmp(a, b) == Some(Ordering::Greater) || lit_cmp(a, b) == Some(Ordering::Equal),
        ),
        BinaryOperator::StrictEqual => LitValue::Bool(loose_eq(a, b)),
        BinaryOperator::NotEqual => LitValue::Bool(!loose_eq(a, b)),
    }
}

/// What applying `op` to `a` and `b` gives, as the interpreter sees it.
pub open spec fn solve_spec(op: Operator, a: LitValue, b: LitValue) -> Result<LitValue, EvalError> {
    match op {
        Operator::BinOp(bop) => if binary_defined(bop, a, b) {
            Ok(apply_binary(bop, a, b))
        } else {
            Err(EvalError::UndefinedOperation)
        },
        _ => Err(EvalError::UnsupportedOperator),
    }
}

fn is_less(c: Option<Ordering>) -> (r: bool)
    ensures
        r == (c == Some(Ordering::Less)),
{
    match c {
        Some(Ordering::Less) => true,
        _ => false,
    }
}

fn is_greater(c: Option<Ordering>) -> (r: bool)
    ensures
        r == (c == Some(Ordering::Greater)),
{
    match c {
        Some(Ordering::Greater) => true,
        _ => false,
    }
}

fn is_equal(c: Option<Ordering>) -> (r: bool)
    ensures
        r == (c == Some(Ordering::Equal)),
{
    match c {
        Some(Ordering::Equal) => true,
        _ => false,
    }
}

fn check_defined(op: BinaryOperator, a: &Literal, b: &Literal) -> (r: bool)
    ensures
        r == binary_defined(op, a@, b@),
{
    match (op, a, b) {
        (BinaryOperator::Add, Literal::NumericLiteral(x), Literal::NumericLiteral(y)) => x.checked_add(
            *y,
        ).is_some(),
        (BinaryOperator::Sub, Literal::NumericLiteral(_), Literal::StringLiteral(_)) => false,
        (BinaryOperator::Sub, Literal::StringLiteral(s), Literal::NumericLiteral(y)) => {
            0 <= *y && (*y as u128) < (crate::text::chars_of(s.as_str()).len() as u128)
        },
        (BinaryOperator::Sub, Literal::NumericLiteral(x), Literal::NumericLiteral(y)) => x.checked_sub(
            *y,
        ).is_some(),
        (BinaryOperator::Mul, Literal::NumericLiteral(x), Literal::NumericLiteral(y)) => x.checked_mul(
            *y,
        ).is_some(),
        (BinaryOperator::Div, Literal::NumericLiteral(x), Literal::NumericLiteral(y)) => {
            if *y != 0 {
                proof { lemma_trunc_div_range(*x as int, *y as int); }
            }
            *y == 0 || !(*x == i64::MIN && *y == -1)
        },
        (BinaryOperator::Mod, Literal::NumericLiteral(x), Literal::NumericLiteral(y)) => {
            if *y != 0 {
                proof { lemma_trunc_div_range(*x as int, *y as int); }
            }
            *y != 0 && !(*x == i64::MIN && *y == -1)
        },
        (BinaryOperator::Mod, _, _) => false,
        _ => true,
    }
}

impl Operator {
    /// Applies this operator to a left operand `a` and a right operand `b`.
    pub fn solve(&self, a: Literal, b: Literal) -> (r: Result<Literal, EvalError>)
        ensures
            match solve_spec(*self, a@, b@) {
                Ok(v) => r is Ok && r->Ok_0@ == v,
                Err(e) => r == Err::<Literal, EvalError>(e),
            },
    {
        match self {
            Operator::BinOp(op) => {
                if !check_defined(*op, &a, &b) {
                    return Err(EvalError::UndefinedOperation);
                }
                match op {
                    BinaryOperator::Add => Ok(a.add(b)),
                    BinaryOperator::Sub => Ok(a.sub(b)),
                    BinaryOperator::Mul => Ok(a.mul(b)),
                    BinaryOperator::Div => Ok(a.div(b)),
                    BinaryOperator::Mod => Ok(a.rem(b)),
                    BinaryOperator::LessThan => Ok(Literal::BooleanLiteral(is_less(a.compare(&b)))),
                    BinaryOperator::LessThanOrEq => {
                        let c = a.compare(&b);
                        Ok(Literal::BooleanLiteral(is_less(c) || is_equal(c)))
                    },
                    BinaryOperator::GreaterThan => Ok(
                        Literal::BooleanLiteral(is_greater(a.compare(&b))),
                    ),
                    BinaryOperator::GreaterThanOrEq => {
                        let c = a.compare(&b);
                        Ok(Literal::BooleanLiteral(is_greater(c) || is_equal(c)))
                    },
                    BinaryOperator::StrictEqual => Ok(
                        Literal::BooleanLiteral(a.loosely_equals(&b)),
                    ),
                    BinaryOperator::NotEqual => Ok(
                        Literal::BooleanLiteral(!a.loosely_equals(&b)),
                    ),
                }
            },
            _ => Err(EvalError::UnsupportedOperator),
        }
    }
}

impl Token {
    pub fn is_literal(&self) -> (r: bool)
        ensures
            r == (*self is LiteralToken),
    {
        match self {
            Token::LiteralToken(_) => true,
            _ => false,
        }
    }

    pub fn as_literal(&self) -> (r: Option<&Literal>)
        ensures
            match *self {
                Token::LiteralToken(l) => r == Some(&l),
                _ => r is None,
            },
    {
        match self {
            Token::LiteralToken(l) => Some(l),
            _ => None,
        }
    }

    pub fn as_operator(&self) -> (r: Option<Operator>)
        ensures
            match *self {
                Token::OperatorToken(op) => r == Some(op),
                _ => r is None,
            },
    {
        match self {
            Token::OperatorToken(op) => Some(*op),
            _ => None,
        }
    }
}

} // verus!
