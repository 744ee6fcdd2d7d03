//! The shunting-yard conversion of a linearized expression into postfix
//! order.

use vstd::prelude::*;
use crate::operator::{Operator, Precedence};
use crate::token::Token;

verus! {

#[derive(Clone, Copy, Debug, PartialEq, Eq, Structural)]
pub enum PostfixError {
    /// A `)` with no `(` before it, or a `(` never closed.
    MismatchedParenthesis,
    /// An identifier, call, control-flow or undefined token.
    UnsupportedToken,
}

/// Moves to the output every operator on top of the stack that takes
/// precedence over the incoming `op`, stopping at a `(`.
pub open spec fn pop_while(stack: Seq<Operator>, out: Seq<Token>, op: Operator) -> (Seq<Operator>, Seq<Token>)
    decreases stack.len(),
{
    if stack.len() > 0 && Operator::has_precedence(&stack.last(), &op)
        && !(stack.last() is LeftParenthesis) {
        pop_while(stack.drop_last(), out.push(Token::OperatorToken(stack.last())), op)
    } else {
        (stack, out)
    }
}

/// Moves operators to the output down to the nearest `(`, which is dropped;
/// `None` when there is no `(`.
pub open spec fn unwind(stack: Seq<Operator>, out: Seq<Token>) -> Option<(Seq<Operator>, Seq<Token>)>
    decreases stack.len(),
{
    if stack.len() == 0 {
        None
    } else if stack.last() is LeftParenthesis {
        Some((stack.drop_last(), out))
    } else {
        unwind(stack.drop_last(), out.push(Token::OperatorToken(stack.last())))
    }
}

/// Moves every remaining operator to the output; a `(` left open is a
/// mismatch.
pub open spec fn drain(stack: Seq<Operator>, out: Seq<Token>) -> Result<Seq<Token>, PostfixError>
    decreases stack.len(),
{
    if stack.len() == 0 {
        Ok(out)
    } else if stack.last() is LeftParenthesis {
        Err(PostfixError::MismatchedParenthesis)
    } else {
        drain(stack.drop_last(), out.push(Token::OperatorToken(stack.last())))
    }
}

/// The shunting-yard algorithm on `input`, read from its first token, with
/// an operator stack and an output so far.
pub open spec fn shunt(input: Seq<Token>, stack: Seq<Operator>, out: Seq<Token>) -> Result<
    Seq<Token>,
    PostfixError,
>
    decreases input.len(),
{
    if input.len() == 0 {
        drain(stack, out)
    } else {
        let t = input[0];
        let rest = input.drop_first();
        match t {
            Token::LiteralToken(_) => shunt(rest, stack, out.push(t)),
            Token::OperatorToken(Operator::LeftParenthesis) => shunt(
                rest,
                stack.push(Operator::LeftParenthesis),
                out,
            ),
            Token::OperatorToken(Operator::RightParenthesis) => match unwind(stack, out) {
                None => Err(PostfixError::MismatchedParenthesis),
                Some(p) => shunt(rest, p.0, p.1),
            },
            Token::OperatorToken(op) => {
                let p = pop_while(stack, out, op);
                shunt(rest, p.0.push(op), p.1)
            },
            _ => Err(PostfixError::UnsupportedToken),
        }
    }
}

/// The postfix form of the expression whose tokens are `input`, first token
/// first.
pub open spec fn postfix_spec(input: Seq<Token>) -> Result<Seq<Token>, PostfixError> {
    shunt(input, Seq::empty(), Seq::empty())
}

pub(crate) proof fn lemma_reverse_pop<A>(s: Seq<A>)
    requires
        s.len() > 0,
    ensures
        s.reverse()[0] == s.last(),
        s.drop_last().reverse() =~= s.reverse().drop_first(),
{
}

/// Converts to postfix the expression whose tokens stand in `tokens` last
/// token first: tokens are taken off the end of the vector, so the end holds
/// the expression's first token.
pub fn postfix(tokens: &mut Vec<Token>) -> (r: Result<Vec<Token>, PostfixError>)
    ensures
        match postfix_spec(old(tokens)@.reverse()) {
            Ok(s) => r is Ok && r->Ok_0@ == s,
            Err(e) => r == Err::<Vec<Token>, PostfixError>(e),
        },
        r is Ok ==> final(tokens)@.len() == 0,
{
    let mut out: Vec<Token> = Vec::new();
    let mut stack: Vec<Operator> = Vec::new();
    while tokens.len() > 0
        invariant
            postfix_spec(old(tokens)@.reverse()) == shunt(tokens@.reverse(), stack@, out@),
        decreases tokens.len(),
    {
        let ghost prev = tokens@.reverse();
        proof {
            lemma_reverse_pop(tokens@);
        }
        let token = tokens.pop().unwrap();
        let ghost rest = tokens@.reverse();
        assert(prev[0] == token && prev.drop_first() == rest);
        match token {
            Token::LiteralToken(_) => {
                out.push(token);
            },
            Token::OperatorToken(Operator::LeftParenthesis) => {
                stack.push(Operator::LeftParenthesis);
            },
            Token::OperatorToken(Operator::RightParenthesis) => {
                let ghost s0 = stack@;
                let ghost o0 = out@;
                loop
                    invariant_except_break
                        unwind(stack@, out@) == unwind(s0, o0),
                    invariant
                        tokens@.reverse() == rest,
                        postfix_spec(old(tokens)@.reverse()) == match unwind(s0, o0) {
                            None => Err(PostfixError::MismatchedParenthesis),
                            Some(p) => shunt(rest, p.0, p.1),
                        },
                    ensures
                        unwind(s0, o0) == Some((stack@, out@)),
                    decreases stack.len(),
                {
                    match stack.pop() {
                        None => {
                            return Err(PostfixError::MismatchedParenthesis);
                        },
                        Some(Operator::LeftParenthesis) => {
                            break;
                        },
                        Some(op) => {
                            out.push(Token::OperatorToken(op));
                        },
                    }
                }
            },
            Token::OperatorToken(op) => {
                let ghost s0 = stack@;
                let ghost o0 = out@;
                while stack.len() > 0 && Operator::get_precedence(&stack[stack.len() - 1], &op)
                    && !is_left_parenthesis(&stack[stack.len() - 1])
                    invariant
                        tokens@.reverse() == rest,
                        pop_while(stack@, out@, op) == pop_while(s0, o0, op),
                        postfix_spec(old(tokens)@.reverse()) == shunt(
                            rest,
                            pop_while(s0, o0, op).0.push(op),
                            pop_while(s0, o0, op).1,
                        ),
                    decreases stack.len(),
                {
                    let top = stack.pop().unwrap();
                    out.push(Token::OperatorToken(top));
                }
                stack.push(op);
            },
            _ => {
                return Err(PostfixError::UnsupportedToken);
            },
        }
    }
    while stack.len() > 0
        invariant
            postfix_spec(old(tokens)@.reverse()) == drain(stack@, out@),
        decreases stack.len(),
    {
        let top = stack.pop().unwrap();
        if is_left_parenthesis(&top) {
            return Err(PostfixError::MismatchedParenthesis);
        }
        out.push(Token::OperatorToken(top));
    }
    Ok(out)
}

pub fn is_left_parenthesis(operator: &Operator) -> (r: bool)
    ensures
        r == (*operator is LeftParenthesis),
{
    match operator {
        Operator::LeftParenthesis => true,
        _ => false,
    }
}

/// The tokens in the opposite order.
pub fn reverse_tokens(mut v: Vec<Token>) -> (r: Vec<Token>)
    ensures
        r@ == v@.reverse(),
{
    let ghost orig = v@;
    let n = v.len();
    let mut r: Vec<Token> = Vec::new();
    while v.len() > 0
        invariant
            v@.len() + r@.len() == n,
            n == orig.len(),
            v@ == orig.subrange(0, v@.len() as int),
            r@ == orig.reverse().subrange(0, r@.len() as int),
        decreases v.len(),
    {
        let ghost k = r@.len();
        let t = v.pop().unwrap();
        assert(orig.reverse()[k as int] == orig[n - 1 - k]);
        r.push(t);
        assert(r@ =~= orig.reverse().subrange(0, r@.len() as int));
        assert(v@ =~= orig.subrange(0, v@.len() as int));
    }
    assert(r@ =~= orig.reverse());
    r
}

} // verus!
