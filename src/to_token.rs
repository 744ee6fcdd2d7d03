//! The linearizer: an expression tree flattened into a token sequence.

use vstd::prelude::*;
use crate::ast::{Expression, Property};
use crate::literal::LitValue;
use crate::operator::Operator;
use crate::token::{Call, ControlFlow, Token};
use crate::literal::Literal;

verus! {

/// What a token holds, with the arguments of a call as a sequence.
pub enum TokenShape {
    Lit(LitValue),
    Op(Operator),
    Ident(Seq<char>),
    Call(Seq<char>, Seq<TokenShape>),
    Ctrl(ControlFlow),
    Undefined,
}

pub open spec fn shape(t: Token) -> TokenShape
    decreases t,
{
    match t {
        Token::LiteralToken(l) => TokenShape::Lit(l@),
        Token::OperatorToken(op) => TokenShape::Op(op),
        Token::IdentifierToken(s) => TokenShape::Ident(s@),
        Token::FunctionToken(c) => TokenShape::Call(c.callee@, shapes(c.args@)),
        Token::ControlFlow(f) => TokenShape::Ctrl(f),
        Token::Undefined => TokenShape::Undefined,
    }
}

pub open spec fn shapes(s: Seq<Token>) -> Seq<TokenShape>
    decreases s,
{
    if s.len() == 0 {
        Seq::empty()
    } else {
        shapes(s.subrange(0, s.len() - 1)).push(shape(s[s.len() - 1]))
    }
}

/// The name a call goes to: the callee's identifier, or nothing.
pub open spec fn callee_name(e: Expression) -> Seq<char> {
    match e {
        Expression::Identifier(id) => id.name@,
        _ => Seq::empty(),
    }
}

/// In-order tokens of an expression: for a binary expression its left
/// operand, the operator, its right operand, inside `(` `)` when the source
/// had them; a call is one token holding the callee and the arguments'
/// tokens; an update puts its operator after the operand; an assignment
/// gives the tokens of both sides and no operator; a logical expression
/// puts its operator between the sides; a member gives its property; an
/// object gives each property's value then key.
pub open spec fn linearize(e: Expression) -> Seq<TokenShape>
    decreases e,
{
    match e {
        Expression::BinaryExpression(b) => {
            let inner = linearize(*b.left) + seq![TokenShape::Op(Operator::BinOp(b.operator))]
                + linearize(*b.right);
            if b.parenthesized() {
                seq![TokenShape::Op(Operator::LeftParenthesis)] + inner + seq![
                    TokenShape::Op(Operator::RightParenthesis),
                ]
            } else {
                inner
            }
        },
        Expression::UnaryExpression(u) => linearize(*u.argument),
        Expression::NumericLiteral(n) => seq![TokenShape::Lit(LitValue::Num(n.value as int))],
        Expression::StringLiteral(s) => seq![TokenShape::Lit(LitValue::Str(s.value@))],
        Expression::Identifier(id) => seq![TokenShape::Ident(id.name@)],
        Expression::UpdateExpression(u) => linearize(*u.argument).push(
            TokenShape::Op(Operator::UpdateOp(u.operator)),
        ),
        Expression::CallExpression(c) => seq![
            TokenShape::Call(callee_name(*c.callee), linearize_list(c.arguments@)),
        ],
        Expression::AssignmentExpression(a) => linearize(*a.left) + linearize(*a.right),
        Expression::LogicalExpression(l) => linearize(*l.left) + seq![
            TokenShape::Op(Operator::LogOp(l.operator)),
        ] + linearize(*l.right),
        Expression::MemberExpression(m) => linearize(*m.property),
        Expression::ObjectExpression(o) => linearize_properties(o.properties@),
    }
}

/// The tokens of each expression, one after another.
pub open spec fn linearize_list(es: Seq<Box<Expression>>) -> Seq<TokenShape>
    decreases es,
{
    if es.len() == 0 {
        Seq::empty()
    } else {
        linearize_list(es.subrange(0, es.len() - 1)) + linearize(*es[es.len() - 1])
    }
}

/// For each property, the tokens of its value then of its key.
pub open spec fn linearize_properties(ps: Seq<Box<Property>>) -> Seq<TokenShape>
    decreases ps,
{
    if ps.len() == 0 {
        Seq::empty()
    } else {
        linearize_properties(ps.subrange(0, ps.len() - 1)) + linearize(*ps[ps.len() - 1].value)
            + linearize(*ps[ps.len() - 1].key)
    }
}

pub proof fn lemma_shapes_push(s: Seq<Token>, t: Token)
    ensures
        shapes(s.push(t)) == shapes(s).push(shape(t)),
{
    assert(s.push(t).subrange(0, s.len() as int) =~= s);
}

pub proof fn lemma_shapes_concat(a: Seq<Token>, b: Seq<Token>)
    ensures
        shapes(a + b) == shapes(a) + shapes(b),
    decreases b.len(),
{
    if b.len() == 0 {
        assert(a + b =~= a);
        assert(shapes(a) + shapes(b) =~= shapes(a));
    } else {
        let b0 = b.subrange(0, b.len() - 1);
        let t = b[b.len() - 1];
        assert(b0.push(t) =~= b);
        assert(a + b =~= (a + b0).push(t));
        lemma_shapes_push(a + b0, t);
        lemma_shapes_push(b0, t);
        lemma_shapes_concat(a, b0);
        assert(shapes(a) + shapes(b0).push(shape(t)) =~= (shapes(a) + shapes(b0)).push(shape(t)));
    }
}

pub(crate) fn push_token(v: &mut Vec<Token>, t: Token)
    ensures
        shapes(final(v)@) == shapes(old(v)@).push(shape(t)),
{
    proof {
        lemma_shapes_push(v@, t);
    }
    v.push(t);
}

pub(crate) fn append_tokens(v: &mut Vec<Token>, mut w: Vec<Token>)
    ensures
        shapes(final(v)@) == shapes(old(v)@) + shapes(w@),
{
    proof {
        lemma_shapes_concat(v@, w@);
    }
    v.append(&mut w);
}

/// The tokens of `e` in order (see `linearize`).
pub fn linearize_expression(e: &Expression) -> (r: Vec<Token>)
    ensures
        shapes(r@) == linearize(*e),
    decreases e,
{
    let mut out: Vec<Token> = Vec::new();
    match e {
        Expression::BinaryExpression(b) => {
            let paren = b.has_parenthesis();
            if paren {
                push_token(&mut out, Token::OperatorToken(Operator::LeftParenthesis));
            }
            append_tokens(&mut out, linearize_expression(&b.left));
            push_token(&mut out, Token::OperatorToken(Operator::BinOp(b.operator)));
            append_tokens(&mut out, linearize_expression(&b.right));
            if paren {
                push_token(&mut out, Token::OperatorToken(Operator::RightParenthesis));
            }
        },
        Expression::UnaryExpression(u) => {
            append_tokens(&mut out, linearize_expression(&u.argument));
        },
        Expression::NumericLiteral(n) => {
            push_token(&mut out, Token::LiteralToken(Literal::NumericLiteral(n.value)));
        },
        Expression::StringLiteral(s) => {
            push_token(&mut out, Token::LiteralToken(Literal::StringLiteral(s.value.clone())));
        },
        Expression::Identifier(id) => {
            push_token(&mut out, Token::IdentifierToken(id.name.clone()));
        },
        Expression::UpdateExpression(u) => {
            append_tokens(&mut out, linearize_expression(&u.argument));
            push_token(&mut out, Token::OperatorToken(Operator::UpdateOp(u.operator)));
        },
        Expression::CallExpression(c) => {
            let callee = match &*c.callee {
                Expression::Identifier(id) => id.name.clone(),
                _ => String::new(),
            };
            let mut args: Vec<Token> = Vec::new();
            let mut i: usize = 0;
            while i < c.arguments.len()
                invariant
                    *e == Expression::CallExpression(*c),
                    i <= c.arguments.len(),
                    shapes(args@) == linearize_list(c.arguments@.subrange(0, i as int)),
                decreases c.arguments.len() - i,
            {
                assert(c.arguments@.subrange(0, i + 1).subrange(0, i as int) =~= c.arguments@.subrange(0, i as int));
                proof {
                    let ee = *e;
                    assert(decreases_to!(ee => ee->CallExpression_0));
                    assert(decreases_to!(ee->CallExpression_0 => ee->CallExpression_0.arguments));
                    assert(decreases_to!(c.arguments => c.arguments[i as int]));
                }
                append_tokens(&mut args, linearize_expression(&c.arguments[i]));
                i = i + 1;
            }
            assert(c.arguments@.subrange(0, i as int) =~= c.arguments@);
            push_token(&mut out, Token::FunctionToken(Call { args, callee }));
        },
        Expression::AssignmentExpression(a) => {
            append_tokens(&mut out, linearize_expression(&a.left));
            append_tokens(&mut out, linearize_expression(&a.right));
        },
        Expression::LogicalExpression(l) => {
            append_tokens(&mut out, linearize_expression(&l.left));
            push_token(&mut out, Token::OperatorToken(Operator::LogOp(l.operator)));
            append_tokens(&mut out, linearize_expression(&l.right));
        },
        Expression::MemberExpression(m) => {
            append_tokens(&mut out, linearize_expression(&m.property));
        },
        Expression::ObjectExpression(o) => {
            let mut i: usize = 0;
            while i < o.properties.len()
                invariant
                    *e == Expression::ObjectExpression(*o),
                    i <= o.properties.len(),
                    shapes(out@) == linearize_properties(o.properties@.subrange(0, i as int)),
                decreases o.properties.len() - i,
            {
                assert(o.properties@.subrange(0, i + 1).subrange(0, i as int) =~= o.properties@.subrange(0, i as int));
                proof {
                    let ee = *e;
                    assert(decreases_to!(ee => ee->ObjectExpression_0));
                    assert(decreases_to!(ee->ObjectExpression_0 => ee->ObjectExpression_0.properties));
                    assert(decreases_to!(o.properties => o.properties[i as int]));
                    let pr = *o.properties[i as int];
                    assert(decreases_to!(pr => pr.value));
                    assert(decreases_to!(pr => pr.key));
                }
                append_tokens(&mut out, linearize_expression(&o.properties[i].value));
                append_tokens(&mut out, linearize_expression(&o.properties[i].key));
                i = i + 1;
            }
            assert(o.properties@.subrange(0, i as int) =~= o.properties@);
        },
    }
    proof {
        assert(shapes(Seq::<Token>::empty()) =~= Seq::<TokenShape>::empty());
    }
    out
}

/// Flattening into tokens.
pub trait ToToken {
    spec fn token_shapes(&self) -> Seq<TokenShape>;

    fn to_token(&self) -> (r: Vec<Token>)
        ensures
            shapes(r@) == self.token_shapes();
}

impl ToToken for Expression {
    open spec fn token_shapes(&self) -> Seq<TokenShape> {
        linearize(*self)
    }

    fn to_token(&self) -> (r: Vec<Token>) {
        linearize_expression(self)
    }
}

} // verus!
