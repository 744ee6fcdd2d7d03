//! Conversion and evaluation depend on what the tokens hold only: two
//! streams of equal shapes convert and evaluate alike.

use vstd::prelude::*;
use crate::asm_writer::{asm_text, asm_token};
use crate::interpreter::{eval, pipeline};
use crate::literal::LitValue;
use crate::operator::Operator;
use crate::postfix::{drain, pop_while, postfix_spec, shunt, unwind, PostfixError};
use crate::to_token::{shape, shapes};
use crate::token::Token;

verus! {

/// Two token streams of equal length whose tokens have equal shapes.
pub open spec fn sim(a: Seq<Token>, b: Seq<Token>) -> bool {
    &&& a.len() == b.len()
    &&& forall|i: int| 0 <= i < a.len() ==> shape(#[trigger] a[i]) == shape(b[i])
}

pub proof fn lemma_shapes_index(s: Seq<Token>)
    ensures
        shapes(s).len() == s.len(),
        forall|i: int| 0 <= i < s.len() ==> #[trigger] shapes(s)[i] == shape(s[i]),
    decreases s.len(),
{
    if s.len() > 0 {
        let init = s.subrange(0, s.len() - 1);
        lemma_shapes_index(init);
        assert forall|i: int| 0 <= i < s.len() implies #[trigger] shapes(s)[i] == shape(s[i]) by {
            if i < s.len() - 1 {
                assert(init[i] == s[i]);
            }
        }
    }
}

pub proof fn lemma_sim_of_shapes(a: Seq<Token>, b: Seq<Token>)
    requires
        shapes(a) == shapes(b),
    ensures
        sim(a, b),
{
    lemma_shapes_index(a);
    lemma_shapes_index(b);
    assert forall|i: int| 0 <= i < a.len() implies shape(#[trigger] a[i]) == shape(b[i]) by {
        assert(shapes(a)[i] == shape(a[i]));
        assert(shapes(b)[i] == shape(b[i]));
    }
}

proof fn lemma_sim_push(a: Seq<Token>, b: Seq<Token>, x: Token, y: Token)
    requires
        sim(a, b),
        shape(x) == shape(y),
    ensures
        sim(a.push(x), b.push(y)),
{
    assert forall|i: int| 0 <= i < a.len() + 1 implies shape(#[trigger] a.push(x)[i]) == shape(
        b.push(y)[i],
    ) by {
        if i < a.len() {
            assert(a.push(x)[i] == a[i]);
            assert(b.push(y)[i] == b[i]);
        }
    }
}

proof fn lemma_sim_drop_first(a: Seq<Token>, b: Seq<Token>)
    requires
        sim(a, b),
        a.len() > 0,
    ensures
        sim(a.drop_first(), b.drop_first()),
{
    assert forall|i: int| 0 <= i < a.len() - 1 implies shape(#[trigger] a.drop_first()[i]) == shape(
        b.drop_first()[i],
    ) by {
        assert(a.drop_first()[i] == a[i + 1]);
        assert(b.drop_first()[i] == b[i + 1]);
    }
}

proof fn lemma_sim_drop_last(a: Seq<Token>, b: Seq<Token>)
    requires
        sim(a, b),
        a.len() > 0,
    ensures
        sim(a.drop_last(), b.drop_last()),
{
    assert forall|i: int| 0 <= i < a.len() - 1 implies shape(#[trigger] a.drop_last()[i]) == shape(
        b.drop_last()[i],
    ) by {
        assert(a.drop_last()[i] == a[i]);
        assert(b.drop_last()[i] == b[i]);
    }
}

proof fn lemma_pop_while_sim(st: Seq<Operator>, o1: Seq<Token>, o2: Seq<Token>, op: Operator)
    requires
        sim(o1, o2),
    ensures
        pop_while(st, o1, op).0 == pop_while(st, o2, op).0,
        sim(pop_while(st, o1, op).1, pop_while(st, o2, op).1),
    decreases st.len(),
{
    if st.len() > 0 && crate::operator::Precedence::has_precedence(&st.last(), &op)
        && !(st.last() is LeftParenthesis) {
        let t = Token::OperatorToken(st.last());
        lemma_sim_push(o1, o2, t, t);
        lemma_pop_while_sim(st.drop_last(), o1.push(t), o2.push(t), op);
    }
}

proof fn lemma_unwind_sim(st: Seq<Operator>, o1: Seq<Token>, o2: Seq<Token>)
    requires
        sim(o1, o2),
    ensures
        unwind(st, o1) is None <==> unwind(st, o2) is None,
        unwind(st, o1) matches Some(p) ==> p.0 == unwind(st, o2)->Some_0.0 && sim(
            p.1,
            unwind(st, o2)->Some_0.1,
        ),
    decreases st.len(),
{
    if st.len() > 0 && !(st.last() is LeftParenthesis) {
        let t = Token::OperatorToken(st.last());
        lemma_sim_push(o1, o2, t, t);
        lemma_unwind_sim(st.drop_last(), o1.push(t), o2.push(t));
    }
}

proof fn lemma_drain_sim(st: Seq<Operator>, o1: Seq<Token>, o2: Seq<Token>)
    requires
        sim(o1, o2),
    ensures
        match (drain(st, o1), drain(st, o2)) {
            (Ok(a), Ok(b)) => sim(a, b),
            (Err(x), Err(y)) => x == y,
            _ => false,
        },
    decreases st.len(),
{
    if st.len() > 0 && !(st.last() is LeftParenthesis) {
        let t = Token::OperatorToken(st.last());
        lemma_sim_push(o1, o2, t, t);
        lemma_drain_sim(st.drop_last(), o1.push(t), o2.push(t));
    }
}

pub proof fn lemma_shunt_sim(i1: Seq<Token>, i2: Seq<Token>, st: Seq<Operator>, o1: Seq<Token>, o2: Seq<Token>)
    requires
        sim(i1, i2),
        sim(o1, o2),
    ensures
        match (shunt(i1, st, o1), shunt(i2, st, o2)) {
            (Ok(a), Ok(b)) => sim(a, b),
            (Err(x), Err(y)) => x == y,
            _ => false,
        },
    decreases i1.len(),
{
    if i1.len() == 0 {
        lemma_drain_sim(st, o1, o2);
    } else {
        let t1 = i1[0];
        let t2 = i2[0];
        assert(shape(t1) == shape(t2));
        lemma_sim_drop_first(i1, i2);
        let r1 = i1.drop_first();
        let r2 = i2.drop_first();
        match t1 {
            Token::LiteralToken(_) => {
                assert(t2 is LiteralToken);
                lemma_sim_push(o1, o2, t1, t2);
                lemma_shunt_sim(r1, r2, st, o1.push(t1), o2.push(t2));
            },
            Token::OperatorToken(op) => {
                assert(t2 == t1);
                match op {
                    Operator::LeftParenthesis => {
                        lemma_shunt_sim(r1, r2, st.push(Operator::LeftParenthesis), o1, o2);
                    },
                    Operator::RightParenthesis => {
                        lemma_unwind_sim(st, o1, o2);
                        match unwind(st, o1) {
                            None => {},
                            Some(p) => {
                                let q = unwind(st, o2)->Some_0;
                                lemma_shunt_sim(r1, r2, p.0, p.1, q.1);
                            },
                        }
                    },
                    _ => {
                        lemma_pop_while_sim(st, o1, o2, op);
                        let p = pop_while(st, o1, op);
                        let q = pop_while(st, o2, op);
                        lemma_shunt_sim(r1, r2, p.0.push(op), p.1, q.1);
                    },
                }
            },
            _ => {
                assert(!(t2 is LiteralToken) && !(t2 is OperatorToken));
            },
        }
    }
}

pub proof fn lemma_eval_sim(p1: Seq<Token>, p2: Seq<Token>, stack: Seq<LitValue>)
    requires
        sim(p1, p2),
    ensures
        eval(p1, stack) == eval(p2, stack),
    decreases p1.len(),
{
    if p1.len() > 0 {
        let t1 = p1[0];
        let t2 = p2[0];
        assert(shape(t1) == shape(t2));
        lemma_sim_drop_first(p1, p2);
        match t1 {
            Token::LiteralToken(l1) => {
                let l2 = t2->LiteralToken_0;
                assert(l1@ == l2@);
                lemma_eval_sim(p1.drop_first(), p2.drop_first(), stack.push(l1@));
            },
            Token::OperatorToken(op) => {
                assert(t2 == t1);
                if stack.len() >= 2 {
                    let right = stack.last();
                    let left = stack.drop_last().last();
                    match crate::token::solve_spec(op, left, right) {
                        Ok(v) => lemma_eval_sim(
                            p1.drop_first(),
                            p2.drop_first(),
                            stack.drop_last().drop_last().push(v),
                        ),
                        Err(_) => {},
                    }
                }
            },
            _ => {
                assert(!(t2 is LiteralToken) && !(t2 is OperatorToken));
            },
        }
    }
}

/// Token streams of equal shapes convert and evaluate to the same result.
pub proof fn lemma_pipeline_shapes(t1: Seq<Token>, t2: Seq<Token>)
    requires
        shapes(t1) == shapes(t2),
    ensures
        pipeline(t1) == pipeline(t2),
        match (postfix_spec(t1), postfix_spec(t2)) {
            (Ok(a), Ok(b)) => sim(a, b),
            (Err(x), Err(y)) => x == y,
            _ => false,
        },
{
    lemma_sim_of_shapes(t1, t2);
    let e = Seq::<Token>::empty();
    lemma_shunt_sim(t1, t2, Seq::empty(), e, e);
    match (postfix_spec(t1), postfix_spec(t2)) {
        (Ok(a), Ok(b)) => lemma_eval_sim(a, b, Seq::empty()),
        _ => {},
    }
}

pub proof fn lemma_asm_text_sim(p1: Seq<Token>, p2: Seq<Token>)
    requires
        sim(p1, p2),
    ensures
        asm_text(p1) == asm_text(p2),
    decreases p1.len(),
{
    if p1.len() > 0 {
        lemma_sim_drop_last(p1, p2);
        lemma_asm_text_sim(p1.drop_last(), p2.drop_last());
        let t1 = p1.last();
        let t2 = p2.last();
        assert(shape(t1) == shape(t2));
        match t1 {
            Token::LiteralToken(l1) => {
                let l2 = t2->LiteralToken_0;
                assert(l1@ == l2@);
                assert(asm_token(t1) == asm_token(t2));
            },
            Token::OperatorToken(_) => {
                assert(t1 == t2);
            },
            _ => {
                assert(!(t2 is LiteralToken) && !(t2 is OperatorToken));
            },
        }
    }
}

} // verus!
