//! Properties that relate the postfix converter and the evaluator.

use vstd::prelude::*;
use crate::interpreter::{eval, evaluate};
use crate::literal::Literal;
use crate::operator::{BinaryOperator, Operator};
use crate::postfix::{drain, pop_while, postfix_spec, shunt, unwind, PostfixError};
use crate::token::{solve_spec, EvalError, Token};

verus! {

pub open spec fn lit(l: Literal) -> Token {
    Token::LiteralToken(l)
}

pub open spec fn bin(op: BinaryOperator) -> Token {
    Token::OperatorToken(Operator::BinOp(op))
}

/// `a op b` converts to `a b op`, which evaluates to `a op b`.
pub proof fn lemma_single_operator_round_trip(a: Literal, op: BinaryOperator, b: Literal)
    ensures
        postfix_spec(seq![lit(a), bin(op), lit(b)]) == Ok::<Seq<Token>, PostfixError>(
            seq![lit(a), lit(b), bin(op)],
        ),
        evaluate(seq![lit(a), lit(b), bin(op)]) == solve_spec(Operator::BinOp(op), a@, b@),
{
    let e = Seq::<Token>::empty();
    let s = Seq::<Operator>::empty();
    let input = seq![lit(a), bin(op), lit(b)];
    assert(input.drop_first() =~= seq![bin(op), lit(b)]);
    assert(input.drop_first().drop_first() =~= seq![lit(b)]);
    assert(input.drop_first().drop_first().drop_first() =~= e);
    let o = Operator::BinOp(op);
    assert(pop_while(s, e.push(lit(a)), o) == (s, e.push(lit(a))));
    let st = s.push(o);
    assert(st.drop_last() =~= s);
    assert(drain(s, seq![lit(a), lit(b), bin(op)]) == Ok::<Seq<Token>, PostfixError>(
        seq![lit(a), lit(b), bin(op)],
    ));
    assert(e.push(lit(a)).push(lit(b)).push(bin(op)) =~= seq![lit(a), lit(b), bin(op)]);
    assert(drain(st, e.push(lit(a)).push(lit(b))) == drain(
        s,
        e.push(lit(a)).push(lit(b)).push(bin(op)),
    ));
    assert(shunt(input.drop_first().drop_first(), st, e.push(lit(a))) == shunt(
        input.drop_first().drop_first().drop_first(),
        st,
        e.push(lit(a)).push(lit(b)),
    ));
    assert(shunt(input.drop_first(), s, e.push(lit(a))) == shunt(
        input.drop_first().drop_first(),
        st,
        e.push(lit(a)),
    ));
    assert(shunt(input, s, e) == shunt(input.drop_first(), s, e.push(lit(a))));

    let post = seq![lit(a), lit(b), bin(op)];
    let vs = Seq::<crate::literal::LitValue>::empty();
    assert(post.drop_first() =~= seq![lit(b), bin(op)]);
    assert(post.drop_first().drop_first() =~= seq![bin(op)]);
    assert(post.drop_first().drop_first().drop_first() =~= e);
    let st2 = vs.push(a@).push(b@);
    assert(st2.last() == b@);
    assert(st2.drop_last().last() == a@);
    assert(st2.drop_last().drop_last() =~= vs);
    assert(eval(post, vs) == eval(post.drop_first(), vs.push(a@)));
    assert(eval(post.drop_first(), vs.push(a@)) == eval(post.drop_first().drop_first(), st2));
    match solve_spec(o, a@, b@) {
        Ok(v) => {
            assert(vs.push(v)[0] == v);
            assert(vs.push(v).len() == 1);
            assert(eval(post.drop_first().drop_first(), st2) == eval(e, vs.push(v)));
        },
        Err(_) => {},
    }
}

/// With strictly increasing precedence, `a op1 b op2 c` (`op2` one of
/// `*`, `/`, `%`, `op1` none of them) converts to `a b c op2 op1`, which
/// evaluates as `a op1 (b op2 c)`, the value under standard precedence.
pub proof fn lemma_increasing_precedence_round_trip(
    a: Literal,
    op1: BinaryOperator,
    b: Literal,
    op2: BinaryOperator,
    c: Literal,
)
    requires
        !op1.is_high(),
        op2.is_high(),
    ensures
        postfix_spec(seq![lit(a), bin(op1), lit(b), bin(op2), lit(c)]) == Ok::<
            Seq<Token>,
            PostfixError,
        >(seq![lit(a), lit(b), lit(c), bin(op2), bin(op1)]),
        evaluate(seq![lit(a), lit(b), lit(c), bin(op2), bin(op1)]) == match solve_spec(
            Operator::BinOp(op2),
            b@,
            c@,
        ) {
            Ok(v) => solve_spec(Operator::BinOp(op1), a@, v),
            Err(e) => Err(e),
        },
{
    let e = Seq::<Token>::empty();
    let s = Seq::<Operator>::empty();
    let o1 = Operator::BinOp(op1);
    let o2 = Operator::BinOp(op2);
    let input = seq![lit(a), bin(op1), lit(b), bin(op2), lit(c)];
    let i1 = input.drop_first();
    let i2 = i1.drop_first();
    let i3 = i2.drop_first();
    let i4 = i3.drop_first();
    let i5 = i4.drop_first();
    assert(i1 =~= seq![bin(op1), lit(b), bin(op2), lit(c)]);
    assert(i2 =~= seq![lit(b), bin(op2), lit(c)]);
    assert(i3 =~= seq![bin(op2), lit(c)]);
    assert(i4 =~= seq![lit(c)]);
    assert(i5 =~= e);
    let out1 = e.push(lit(a));
    assert(pop_while(s, out1, o1) == (s, out1));
    let st1 = s.push(o1);
    let out2 = out1.push(lit(b));
    assert(st1.last() == o1);
    assert(pop_while(st1, out2, o2) == (st1, out2));
    let st2 = st1.push(o2);
    let out3 = out2.push(lit(c));
    assert(st2.drop_last() =~= st1);
    assert(st1.drop_last() =~= s);
    let result = seq![lit(a), lit(b), lit(c), bin(op2), bin(op1)];
    assert(out3.push(bin(op2)).push(bin(op1)) =~= result);
    assert(drain(s, out3.push(bin(op2)).push(bin(op1))) == Ok::<Seq<Token>, PostfixError>(result));
    assert(drain(st1, out3.push(bin(op2))) == drain(s, out3.push(bin(op2)).push(bin(op1))));
    assert(drain(st2, out3) == drain(st1, out3.push(bin(op2))));
    assert(shunt(i4, st2, out2) == shunt(i5, st2, out3));
    assert(shunt(i3, st1, out2) == shunt(i4, st2, out2));
    assert(shunt(i2, st1, out1) == shunt(i3, st1, out2));
    assert(shunt(i1, s, out1) == shunt(i2, st1, out1));
    assert(shunt(input, s, e) == shunt(i1, s, out1));

    let vs = Seq::<crate::literal::LitValue>::empty();
    let step1 = result.drop_first();
    let step2 = step1.drop_first();
    let step3 = step2.drop_first();
    let step4 = step3.drop_first();
    let step5 = step4.drop_first();
    assert(step1 =~= seq![lit(b), lit(c), bin(op2), bin(op1)]);
    assert(step2 =~= seq![lit(c), bin(op2), bin(op1)]);
    assert(step3 =~= seq![bin(op2), bin(op1)]);
    assert(step4 =~= seq![bin(op1)]);
    assert(step5 =~= e);
    let v3 = vs.push(a@).push(b@).push(c@);
    assert(v3.last() == c@);
    assert(v3.drop_last().last() == b@);
    assert(v3.drop_last().drop_last() =~= vs.push(a@));
    assert(eval(result, vs) == eval(step1, vs.push(a@)));
    assert(eval(step1, vs.push(a@)) == eval(step2, vs.push(a@).push(b@)));
    assert(eval(step2, vs.push(a@).push(b@)) == eval(step3, v3));
    match solve_spec(o2, b@, c@) {
        Ok(v) => {
            let w = vs.push(a@).push(v);
            assert(eval(step3, v3) == eval(step4, w));
            assert(w.last() == v);
            assert(w.drop_last().last() == a@);
            assert(w.drop_last().drop_last() =~= vs);
            match solve_spec(o1, a@, v) {
                Ok(x) => {
                    assert(vs.push(x)[0] == x);
                    assert(vs.push(x).len() == 1);
                    assert(eval(step4, w) == eval(step5, vs.push(x)));
                },
                Err(_) => {},
            }
        },
        Err(_) => {},
    }
}

pub open spec fn is_paren_token(t: Token) -> bool {
    t == Token::OperatorToken(Operator::LeftParenthesis) || t == Token::OperatorToken(
        Operator::RightParenthesis,
    )
}

/// No parenthesis token in `s`.
pub open spec fn paren_free(s: Seq<Token>) -> bool {
    forall|i: int| 0 <= i < s.len() ==> !is_paren_token(#[trigger] s[i])
}

/// Every token of `s` is a literal or an operator.
pub open spec fn plain_tokens(s: Seq<Token>) -> bool {
    forall|i: int| 0 <= i < s.len() ==> (#[trigger] s[i] is LiteralToken || s[i] is OperatorToken)
}

/// The change in nesting depth a token brings.
pub open spec fn depth_step(t: Token) -> int {
    if t == Token::OperatorToken(Operator::LeftParenthesis) {
        1
    } else if t == Token::OperatorToken(Operator::RightParenthesis) {
        -1
    } else {
        0
    }
}

/// Opened minus closed parentheses in `s`.
pub open spec fn depth(s: Seq<Token>) -> int
    decreases s.len(),
{
    if s.len() == 0 {
        0
    } else {
        depth_step(s[0]) + depth(s.drop_first())
    }
}

/// Some prefix of `s` closes more parentheses than it opens.
pub open spec fn has_unmatched_close(s: Seq<Token>) -> bool {
    exists|k: int| 0 < k <= s.len() && #[trigger] depth(s.take(k)) < 0
}

/// Every parenthesis of `s` is matched.
pub open spec fn balanced(s: Seq<Token>) -> bool {
    &&& forall|k: int| 0 <= k <= s.len() ==> #[trigger] depth(s.take(k)) >= 0
    &&& depth(s) == 0
}

spec fn open_count(st: Seq<Operator>) -> int
    decreases st.len(),
{
    if st.len() == 0 {
        0
    } else {
        open_count(st.drop_last()) + if st.last() is LeftParenthesis {
            1int
        } else {
            0int
        }
    }
}

spec fn no_close(st: Seq<Operator>) -> bool {
    forall|i: int| 0 <= i < st.len() ==> !(#[trigger] st[i] is RightParenthesis)
}

proof fn lemma_pop_while(stack: Seq<Operator>, out: Seq<Token>, op: Operator)
    requires
        no_close(stack),
        paren_free(out),
    ensures
        no_close(pop_while(stack, out, op).0),
        open_count(pop_while(stack, out, op).0) == open_count(stack),
        paren_free(pop_while(stack, out, op).1),
    decreases stack.len(),
{
    if stack.len() > 0 && crate::operator::Precedence::has_precedence(&stack.last(), &op)
        && !(stack.last() is LeftParenthesis) {
        let t = Token::OperatorToken(stack.last());
        assert(!(stack[stack.len() - 1] is RightParenthesis));
        assert(paren_free(out.push(t))) by {
            assert forall|i: int| 0 <= i < out.push(t).len() implies !is_paren_token(
                #[trigger] out.push(t)[i],
            ) by {
                if i < out.len() {
                    assert(out.push(t)[i] == out[i]);
                }
            }
        }
        lemma_pop_while(stack.drop_last(), out.push(t), op);
    }
}

proof fn lemma_unwind(stack: Seq<Operator>, out: Seq<Token>)
    requires
        no_close(stack),
        paren_free(out),
    ensures
        unwind(stack, out) is None <==> open_count(stack) == 0,
        unwind(stack, out) matches Some(p) ==> no_close(p.0) && paren_free(p.1) && open_count(p.0)
            == open_count(stack) - 1,
    decreases stack.len(),
{
    if stack.len() > 0 {
        assert(open_count(stack.drop_last()) >= 0) by {
            lemma_open_count_nonneg(stack.drop_last());
        }
        if !(stack.last() is LeftParenthesis) {
            let t = Token::OperatorToken(stack.last());
            assert(!(stack[stack.len() - 1] is RightParenthesis));
            assert(paren_free(out.push(t))) by {
                assert forall|i: int| 0 <= i < out.push(t).len() implies !is_paren_token(
                    #[trigger] out.push(t)[i],
                ) by {
                    if i < out.len() {
                        assert(out.push(t)[i] == out[i]);
                    }
                }
            }
            lemma_unwind(stack.drop_last(), out.push(t));
        }
    }
}

proof fn lemma_open_count_nonneg(st: Seq<Operator>)
    ensures
        open_count(st) >= 0,
    decreases st.len(),
{
    if st.len() > 0 {
        lemma_open_count_nonneg(st.drop_last());
    }
}

proof fn lemma_drain(stack: Seq<Operator>, out: Seq<Token>)
    requires
        no_close(stack),
        paren_free(out),
    ensures
        drain(stack, out) is Ok <==> open_count(stack) == 0,
        drain(stack, out) is Err ==> drain(stack, out) == Err::<Seq<Token>, PostfixError>(
            PostfixError::MismatchedParenthesis,
        ),
        drain(stack, out) matches Ok(o) ==> paren_free(o),
    decreases stack.len(),
{
    if stack.len() > 0 {
        lemma_open_count_nonneg(stack.drop_last());
        if !(stack.last() is LeftParenthesis) {
            let t = Token::OperatorToken(stack.last());
            assert(!(stack[stack.len() - 1] is RightParenthesis));
            assert(paren_free(out.push(t))) by {
                assert forall|i: int| 0 <= i < out.push(t).len() implies !is_paren_token(
                    #[trigger] out.push(t)[i],
                ) by {
                    if i < out.len() {
                        assert(out.push(t)[i] == out[i]);
                    }
                }
            }
            lemma_drain(stack.drop_last(), out.push(t));
        }
    }
}

proof fn lemma_shunt_parens(input: Seq<Token>, stack: Seq<Operator>, out: Seq<Token>)
    requires
        plain_tokens(input),
        no_close(stack),
        paren_free(out),
    ensures
        shunt(input, stack, out) matches Ok(o) ==> paren_free(o),
        shunt(input, stack, out) is Err ==> shunt(input, stack, out) == Err::<
            Seq<Token>,
            PostfixError,
        >(PostfixError::MismatchedParenthesis),
        (exists|k: int| 0 < k <= input.len() && #[trigger] depth(input.take(k)) + open_count(stack) < 0)
            ==> shunt(input, stack, out) is Err,
        (forall|k: int| 0 <= k <= input.len() ==> #[trigger] depth(input.take(k)) + open_count(stack) >= 0)
            && depth(input) + open_count(stack) == 0 ==> shunt(input, stack, out) is Ok,
    decreases input.len(),
{
    if input.len() == 0 {
        lemma_drain(stack, out);
        assert(input.take(0) =~= input);
    } else {
        let t = input[0];
        let rest = input.drop_first();
        assert(plain_tokens(rest)) by {
            assert forall|i: int| 0 <= i < rest.len() implies (#[trigger] rest[i] is LiteralToken
                || rest[i] is OperatorToken) by {
                assert(rest[i] == input[i + 1]);
            }
        }
        assert forall|k: int| 0 <= k <= rest.len() implies depth(#[trigger] input.take(k + 1))
            == depth_step(t) + depth(rest.take(k)) by {
            assert(input.take(k + 1).drop_first() =~= rest.take(k));
        }
        assert(input.take(1).drop_first() =~= Seq::<Token>::empty());
        assert(input.take(1)[0] == t);
        assert(depth(Seq::<Token>::empty()) == 0);
        assert(depth(input.take(1)) == depth_step(t));
        lemma_open_count_nonneg(stack);
        assert(input.take(input.len() as int) =~= input);
        match t {
            Token::LiteralToken(_) => {
                assert(paren_free(out.push(t))) by {
                    assert forall|i: int| 0 <= i < out.push(t).len() implies !is_paren_token(
                        #[trigger] out.push(t)[i],
                    ) by {
                        if i < out.len() {
                            assert(out.push(t)[i] == out[i]);
                        }
                    }
                }
                lemma_shunt_parens(rest, stack, out.push(t));
                lemma_shift_conditions(input, rest, open_count(stack), open_count(stack), 0);
            },
            Token::OperatorToken(Operator::LeftParenthesis) => {
                let st = stack.push(Operator::LeftParenthesis);
                assert(st.drop_last() =~= stack);
                assert(no_close(st)) by {
                    assert forall|i: int| 0 <= i < st.len() implies !(#[trigger] st[i] is RightParenthesis) by {
                        if i < stack.len() {
                            assert(st[i] == stack[i]);
                        }
                    }
                }
                lemma_shunt_parens(rest, st, out);
                lemma_shift_conditions(input, rest, open_count(stack), open_count(st), 1);
            },
            Token::OperatorToken(Operator::RightParenthesis) => {
                lemma_unwind(stack, out);
                lemma_open_count_nonneg(stack);
                match unwind(stack, out) {
                    None => {},
                    Some(p) => {
                        lemma_shunt_parens(rest, p.0, p.1);
                        lemma_shift_conditions(input, rest, open_count(stack), open_count(p.0), -1);
                    },
                }
            },
            Token::OperatorToken(op) => {
                lemma_pop_while(stack, out, op);
                let p = pop_while(stack, out, op);
                let st = p.0.push(op);
                assert(st.drop_last() =~= p.0);
                assert(no_close(st)) by {
                    assert forall|i: int| 0 <= i < st.len() implies !(#[trigger] st[i] is RightParenthesis) by {
                        if i < p.0.len() {
                            assert(st[i] == p.0[i]);
                        }
                    }
                }
                lemma_shunt_parens(rest, st, p.1);
                lemma_shift_conditions(input, rest, open_count(stack), open_count(st), 0);
            },
            _ => {
                assert(input[0] is LiteralToken || input[0] is OperatorToken);
            },
        }
    }
}

/// Moves the depth conditions on `input` with `before` open parentheses to
/// conditions on its tail with `after == before + step` open parentheses.
proof fn lemma_shift_conditions(input: Seq<Token>, rest: Seq<Token>, before: int, after: int, step: int)
    requires
        input.len() > 0,
        rest == input.drop_first(),
        depth_step(input[0]) == step,
        after == before + step,
        before >= 0,
        forall|k: int| 0 <= k <= rest.len() ==> depth(#[trigger] input.take(k + 1)) == step + depth(rest.take(k)),
        depth(input.take(1)) == step,
        input.take(input.len() as int) == input,
    ensures
        (exists|k: int| 0 < k <= input.len() && #[trigger] depth(input.take(k)) + before < 0) && after >= 0
            ==> (exists|k: int| 0 < k <= rest.len() && #[trigger] depth(rest.take(k)) + after < 0),
        (forall|k: int| 0 <= k <= input.len() ==> #[trigger] depth(input.take(k)) + before >= 0) ==> (
        forall|k: int| 0 <= k <= rest.len() ==> #[trigger] depth(rest.take(k)) + after >= 0),
        depth(input) + before == depth(rest) + after,
{
    assert(rest.take(rest.len() as int) =~= rest);
    assert(depth(input.take(rest.len() + 1 as int)) == step + depth(rest.take(rest.len() as int)));
    if exists|k: int| 0 < k <= input.len() && #[trigger] depth(input.take(k)) + before < 0 {
        let k = choose|k: int| 0 < k <= input.len() && #[trigger] depth(input.take(k)) + before < 0;
        if after >= 0 {
            assert(k != 1);
            assert(depth(input.take((k - 1) + 1)) == step + depth(rest.take(k - 1)));
            assert(0 < k - 1 <= rest.len() && depth(rest.take(k - 1)) + after < 0);
        }
    }
    if forall|k: int| 0 <= k <= input.len() ==> #[trigger] depth(input.take(k)) + before >= 0 {
        assert forall|k: int| 0 <= k <= rest.len() implies #[trigger] depth(rest.take(k)) + after >= 0 by {
            assert(depth(input.take(k + 1)) == step + depth(rest.take(k)));
        }
    }
}

/// A successful conversion leaves no parenthesis token in its output; an
/// input of literals and operators in which some `)` has no `(` before it
/// fails with the mismatch error, and one whose parentheses all match
/// succeeds.
pub proof fn lemma_parenthesis_balance(input: Seq<Token>)
    requires
        plain_tokens(input),
    ensures
        postfix_spec(input) matches Ok(o) ==> paren_free(o),
        has_unmatched_close(input) ==> postfix_spec(input) == Err::<Seq<Token>, PostfixError>(
            PostfixError::MismatchedParenthesis,
        ),
        balanced(input) ==> postfix_spec(input) is Ok,
{
    let e = Seq::<Token>::empty();
    let s = Seq::<Operator>::empty();
    assert(open_count(s) == 0);
    lemma_shunt_parens(input, s, e);
    if has_unmatched_close(input) {
        let k = choose|k: int| 0 < k <= input.len() && #[trigger] depth(input.take(k)) < 0;
        assert(depth(input.take(k)) + open_count(s) < 0);
    }
}

/// `b` binds strictly tighter than `a`.
pub open spec fn binds_tighter(a: BinaryOperator, b: BinaryOperator) -> bool {
    crate::operator::Precedence::has_precedence(&b, &a) && !crate::operator::Precedence::has_precedence(&a, &b)
}

/// A chain of binary operators each binding strictly tighter than the one
/// before holds at most two operators, so the round trips for one and for
/// two operators cover every expression of strictly increasing precedence.
pub proof fn lemma_increasing_chains_are_short(ops: Seq<BinaryOperator>)
    requires
        forall|i: int| 0 <= i < ops.len() - 1 ==> binds_tighter(#[trigger] ops[i], ops[i + 1]),
    ensures
        ops.len() <= 2,
        ops.len() == 2 ==> !ops[0].is_high() && ops[1].is_high(),
{
    if ops.len() >= 2 {
        assert(binds_tighter(ops[0], ops[1]));
    }
    if ops.len() > 2 {
        assert(binds_tighter(ops[1], ops[2]));
    }
}

/// The literal tokens of `s`, in order.
pub open spec fn literals(s: Seq<Token>) -> Seq<Token>
    decreases s.len(),
{
    if s.len() == 0 {
        Seq::empty()
    } else if s.last() is LiteralToken {
        literals(s.drop_last()).push(s.last())
    } else {
        literals(s.drop_last())
    }
}

proof fn lemma_literals_push_op(s: Seq<Token>, op: Operator)
    ensures
        literals(s.push(Token::OperatorToken(op))) == literals(s),
{
    assert(s.push(Token::OperatorToken(op)).drop_last() =~= s);
}

proof fn lemma_literals_concat(a: Seq<Token>, b: Seq<Token>)
    ensures
        literals(a + b) == literals(a) + literals(b),
    decreases b.len(),
{
    if b.len() == 0 {
        assert(a + b =~= a);
        assert(literals(a) + literals(b) =~= literals(a));
    } else {
        assert((a + b).drop_last() =~= a + b.drop_last());
        assert((a + b).last() == b.last());
        lemma_literals_concat(a, b.drop_last());
        if b.last() is LiteralToken {
            assert(literals(a) + literals(b.drop_last()).push(b.last()) =~= (literals(a) + literals(
                b.drop_last(),
            )).push(b.last()));
        }
    }
}

proof fn lemma_pop_while_literals(stack: Seq<Operator>, out: Seq<Token>, op: Operator)
    ensures
        literals(pop_while(stack, out, op).1) == literals(out),
    decreases stack.len(),
{
    if stack.len() > 0 && crate::operator::Precedence::has_precedence(&stack.last(), &op)
        && !(stack.last() is LeftParenthesis) {
        lemma_literals_push_op(out, stack.last());
        lemma_pop_while_literals(stack.drop_last(), out.push(Token::OperatorToken(stack.last())), op);
    }
}

proof fn lemma_unwind_literals(stack: Seq<Operator>, out: Seq<Token>)
    ensures
        unwind(stack, out) matches Some(p) ==> literals(p.1) == literals(out),
    decreases stack.len(),
{
    if stack.len() > 0 && !(stack.last() is LeftParenthesis) {
        lemma_literals_push_op(out, stack.last());
        lemma_unwind_literals(stack.drop_last(), out.push(Token::OperatorToken(stack.last())));
    }
}

proof fn lemma_drain_literals(stack: Seq<Operator>, out: Seq<Token>)
    ensures
        drain(stack, out) matches Ok(o) ==> literals(o) == literals(out),
    decreases stack.len(),
{
    if stack.len() > 0 && !(stack.last() is LeftParenthesis) {
        lemma_literals_push_op(out, stack.last());
        lemma_drain_literals(stack.drop_last(), out.push(Token::OperatorToken(stack.last())));
    }
}

proof fn lemma_shunt_literals(input: Seq<Token>, stack: Seq<Operator>, out: Seq<Token>)
    ensures
        shunt(input, stack, out) matches Ok(o) ==> literals(o) == literals(out) + literals(input),
    decreases input.len(),
{
    if input.len() == 0 {
        lemma_drain_literals(stack, out);
        assert(literals(out) + literals(input) =~= literals(out));
    } else {
        let t = input[0];
        let rest = input.drop_first();
        assert(input =~= seq![t] + rest);
        lemma_literals_concat(seq![t], rest);
        assert(seq![t].drop_last() =~= Seq::<Token>::empty());
        assert(seq![t].last() == t);
        assert(seq![t].len() == 1);
        assert(literals(Seq::<Token>::empty()) == Seq::<Token>::empty());
        match t {
            Token::LiteralToken(_) => {
                lemma_shunt_literals(rest, stack, out.push(t));
                assert(out.push(t).drop_last() =~= out);
                assert(literals(seq![t]) =~= seq![t]);
                assert(literals(out).push(t) + literals(rest) =~= literals(out) + (seq![t] + literals(rest)));
            },
            Token::OperatorToken(Operator::LeftParenthesis) => {
                lemma_shunt_literals(rest, stack.push(Operator::LeftParenthesis), out);
                assert(literals(seq![t]) =~= Seq::<Token>::empty());
                assert(Seq::<Token>::empty() + literals(rest) =~= literals(rest));
            },
            Token::OperatorToken(Operator::RightParenthesis) => {
                lemma_unwind_literals(stack, out);
                assert(literals(seq![t]) =~= Seq::<Token>::empty());
                assert(Seq::<Token>::empty() + literals(rest) =~= literals(rest));
                match unwind(stack, out) {
                    None => {},
                    Some(p) => lemma_shunt_literals(rest, p.0, p.1),
                }
            },
            Token::OperatorToken(op) => {
                lemma_pop_while_literals(stack, out, op);
                let p = pop_while(stack, out, op);
                lemma_shunt_literals(rest, p.0.push(op), p.1);
                assert(literals(seq![t]) =~= Seq::<Token>::empty());
                assert(Seq::<Token>::empty() + literals(rest) =~= literals(rest));
            },
            _ => {},
        }
    }
}

/// A successful conversion keeps the literals of the input, in their order.
pub proof fn lemma_postfix_keeps_literals(input: Seq<Token>)
    ensures
        postfix_spec(input) matches Ok(o) ==> literals(o) == literals(input),
{
    lemma_shunt_literals(input, Seq::empty(), Seq::empty());
    assert(literals(Seq::<Token>::empty()) + literals(input) =~= literals(input));
}

} // verus!
