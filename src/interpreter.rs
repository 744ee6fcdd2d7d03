//! Evaluation of a postfix token stream against the literal rules.

use vstd::prelude::*;
use crate::literal::{LitValue, Literal};
use crate::ast::{Expression, Statement, VariableDec};
use crate::operator::{AssignmentOperator, BinaryOperator, Operator, UpdateOperator};
use crate::to_token::TokenShape;
use crate::token::binary_defined;
use crate::token::apply_binary;
use crate::postfix::{postfix, postfix_spec, reverse_tokens, PostfixError};
use crate::to_token::{linearize, linearize_expression, shape, shapes};
use crate::token::{solve_spec, EvalError, Token};

verus! {

/// The values of a stack of literals.
pub open spec fn values(s: Seq<Literal>) -> Seq<LitValue> {
    s.map_values(|l: Literal| l@)
}

/// Single-pass stack evaluation of `postfix` from its first token, on top of
/// the operand stack `stack` (its last element on top).  An operator takes
/// its right operand from the top and its left operand from below it.
pub open spec fn eval(postfix: Seq<Token>, stack: Seq<LitValue>) -> Result<LitValue, EvalError>
    decreases postfix.len(),
{
    if postfix.len() == 0 {
        if stack.len() == 1 {
            Ok(stack[0])
        } else if stack.len() == 0 {
            Err(EvalError::EmptyStack)
        } else {
            Err(EvalError::LeftoverOperands)
        }
    } else {
        let rest = postfix.drop_first();
        match postfix[0] {
            Token::LiteralToken(l) => eval(rest, stack.push(l@)),
            Token::OperatorToken(op) => if stack.len() < 2 {
                Err(EvalError::EmptyStack)
            } else {
                let right = stack.last();
                let left = stack.drop_last().last();
                match solve_spec(op, left, right) {
                    Ok(v) => eval(rest, stack.drop_last().drop_last().push(v)),
                    Err(e) => Err(e),
                }
            },
            _ => Err(EvalError::UnsupportedToken),
        }
    }
}

/// The value of a postfix stream.
pub open spec fn evaluate(postfix: Seq<Token>) -> Result<LitValue, EvalError> {
    eval(postfix, Seq::empty())
}

/// Evaluates a postfix token stream; exactly one value must remain.
pub fn solve_postfix(postfix_expression: &Vec<Token>) -> (r: Result<Literal, EvalError>)
    ensures
        match evaluate(postfix_expression@) {
            Ok(v) => r is Ok && r->Ok_0@ == v,
            Err(e) => r == Err::<Literal, EvalError>(e),
        },
{
    let mut stack: Vec<Literal> = Vec::new();
    let mut i: usize = 0;
    assert(postfix_expression@.subrange(0, postfix_expression@.len() as int) =~= postfix_expression@);
    assert(values(stack@) =~= Seq::<LitValue>::empty());
    while i < postfix_expression.len()
        invariant
            i <= postfix_expression.len(),
            evaluate(postfix_expression@) == eval(
                postfix_expression@.subrange(i as int, postfix_expression@.len() as int),
                values(stack@),
            ),
        decreases postfix_expression.len() - i,
    {
        let ghost rest = postfix_expression@.subrange(i as int, postfix_expression@.len() as int);
        let ghost before = values(stack@);
        assert(rest[0] == postfix_expression@[i as int]);
        assert(rest.drop_first() =~= postfix_expression@.subrange(
            i + 1,
            postfix_expression@.len() as int,
        ));
        match &postfix_expression[i] {
            Token::LiteralToken(l) => {
                stack.push(l.duplicate());
                assert(values(stack@) =~= before.push(l@));
            },
            Token::OperatorToken(op) => {
                if stack.len() < 2 {
                    return Err(EvalError::EmptyStack);
                }
                let right = stack.pop().unwrap();
                let left = stack.pop().unwrap();
                assert(before.last() == right@);
                assert(before.drop_last().last() == left@);
                assert(values(stack@) =~= before.drop_last().drop_last());
                match op.solve(left, right) {
                    Ok(v) => {
                        stack.push(v);
                        assert(values(stack@) =~= before.drop_last().drop_last().push(v@));
                    },
                    Err(e) => {
                        return Err(e);
                    },
                }
            },
            _ => {
                return Err(EvalError::UnsupportedToken);
            },
        }
        i = i + 1;
    }
    assert(postfix_expression@.subrange(i as int, postfix_expression@.len() as int).len() == 0);
    if stack.len() == 1 {
        let v = stack.pop().unwrap();
        Ok(v)
    } else if stack.len() == 0 {
        Err(EvalError::EmptyStack)
    } else {
        Err(EvalError::LeftoverOperands)
    }
}

/// Why an expression could not be interpreted.
#[derive(Clone, Copy, Debug, PartialEq, Eq, Structural)]
pub enum InterpretError {
    Postfix(PostfixError),
    Eval(EvalError),
    /// A name with no binding.
    UndefinedVariable,
    /// A statement other than a declaration, an expression or an empty one.
    UnsupportedStatement,
}

/// The value of an expression through the whole pipeline: linearized,
/// put in postfix order, evaluated.
pub open spec fn interpreted(e: Expression, r: Result<LitValue, InterpretError>) -> bool {
    exists|toks: Seq<Token>|
        shapes(toks) == linearize(e) && r == match postfix_spec(toks) {
            Err(err) => Err(InterpretError::Postfix(err)),
            Ok(p) => match evaluate(p) {
                Ok(v) => Ok(v),
                Err(err) => Err(InterpretError::Eval(err)),
            },
        }
}

/// Interprets one expression.
pub fn interpret_expression(e: &Expression) -> (r: Result<Literal, InterpretError>)
    ensures
        interpreted(
            *e,
            match r {
                Ok(l) => Ok(l@),
                Err(err) => Err(err),
            },
        ),
{
    let toks = linearize_expression(e);
    let ghost tv = toks@;
    let mut rev = reverse_tokens(toks);
    assert(rev@.reverse() =~= tv);
    match postfix(&mut rev) {
        Ok(p) => match solve_postfix(&p) {
            Ok(v) => Ok(v),
            Err(err) => Err(InterpretError::Eval(err)),
        },
        Err(err) => Err(InterpretError::Postfix(err)),
    }
}

/// Name bindings, the latest last.
pub type Env = Seq<(Seq<char>, LitValue)>;

/// The value bound to `n` most recently.
pub open spec fn lookup(env: Env, n: Seq<char>) -> Option<LitValue>
    decreases env.len(),
{
    if env.len() == 0 {
        None
    } else if env.last().0 == n {
        Some(env.last().1)
    } else {
        lookup(env.drop_last(), n)
    }
}

/// Tokens with each name replaced by its value; `None` if a name is unbound.
pub open spec fn resolve(ts: Seq<TokenShape>, env: Env) -> Option<Seq<TokenShape>>
    decreases ts.len(),
{
    if ts.len() == 0 {
        Some(Seq::empty())
    } else {
        match resolve(ts.drop_last(), env) {
            None => None,
            Some(r) => match ts.last() {
                TokenShape::Ident(n) => match lookup(env, n) {
                    Some(v) => Some(r.push(TokenShape::Lit(v))),
                    None => None,
                },
                t => Some(r.push(t)),
            },
        }
    }
}

/// The result of converting a token stream and evaluating it.
pub open spec fn pipeline(toks: Seq<Token>) -> Result<LitValue, InterpretError> {
    match postfix_spec(toks) {
        Err(err) => Err(InterpretError::Postfix(err)),
        Ok(p) => match evaluate(p) {
            Ok(v) => Ok(v),
            Err(err) => Err(InterpretError::Eval(err)),
        },
    }
}

/// `e` evaluates to `r` under the bindings `env`: its names replaced by
/// their values, its tokens converted to postfix and evaluated.
pub open spec fn evaluates(e: Expression, env: Env, r: Result<LitValue, InterpretError>) -> bool {
    match resolve(linearize(e), env) {
        None => r == Err::<LitValue, InterpretError>(InterpretError::UndefinedVariable),
        Some(rs) => exists|toks: Seq<Token>| shapes(toks) == rs && r == pipeline(toks),
    }
}

/// The binding one declarator adds: its value, or null.
pub open spec fn declares_one(s: Statement, before: Env, after: Env) -> bool {
    match s {
        Statement::VariableDeclarator(v) => match v.init {
            None => after == before.push((v.id.name@, LitValue::Null)),
            Some(e) => exists|val: LitValue|
                #[trigger] evaluates(*e, before, Ok(val)) && after == before.push((v.id.name@, val)),
        },
        _ => after == before,
    }
}

/// The bindings a declaration adds, declarator by declarator.
pub open spec fn declares(ds: Seq<Box<Statement>>, env: Env, after: Env) -> bool {
    exists|states: Seq<Env>|
        states.len() == ds.len() + 1 && states[0] == env && states.last() == after && forall|i: int|
            0 <= i < ds.len() ==> declares_one(*ds[i], #[trigger] states[i], states[i + 1])
}

/// One top-level statement run from `env`: a declaration binds its
/// variables; `x++`, `x--`, `x = e` and `x op= e` rebind `x`; any other
/// expression is evaluated and its value reported.
pub open spec fn runs(s: Statement, env: Env, after: Env, out: Option<LitValue>) -> bool {
    match s {
        Statement::VariableDeclaration(v) => out is None && declares(v.declarations@, env, after),
        Statement::EmptyStatement => out is None && after == env,
        Statement::ExpressionStatement(es) => match *es.expression {
            Expression::UpdateExpression(u) => match *u.argument {
                Expression::Identifier(x) => out is None && exists|old: LitValue|
                    lookup(env, x.name@) == Some(old) && {
                        let op = match u.operator {
                            UpdateOperator::Increment => BinaryOperator::Add,
                            UpdateOperator::Decrement => BinaryOperator::Sub,
                        };
                        binary_defined(op, old, LitValue::Num(1)) && after == env.push(
                            (x.name@, apply_binary(op, old, LitValue::Num(1))),
                        )
                    },
                _ => false,
            },
            Expression::AssignmentExpression(a) => match *a.left {
                Expression::Identifier(x) => out is None && exists|val: LitValue|
                    evaluates(*a.right, env, Ok(val)) && match crate::c_writer::compound_operator(
                        a.operator,
                    ) {
                        None => after == env.push((x.name@, val)),
                        Some(op) => exists|old: LitValue|
                            lookup(env, x.name@) == Some(old) && binary_defined(op, old, val)
                                && after == env.push((x.name@, apply_binary(op, old, val))),
                    },
                _ => false,
            },
            e => after == env && exists|val: LitValue| evaluates(e, env, Ok(val)) && out == Some(val),
        },
        _ => false,
    }
}

/// The interpreter's state: the variable bindings and the values of the
/// expression statements run so far.
pub struct Interpreter {
    pub names: Vec<String>,
    pub values: Vec<Literal>,
    pub results: Vec<Literal>,
}

impl Interpreter {
    pub open spec fn wf(&self) -> bool {
        self.names@.len() == self.values@.len()
    }

    pub open spec fn env(&self) -> Env {
        Seq::new(self.names@.len(), |i: int| (self.names@[i]@, self.values@[i]@))
    }

    pub fn new() -> (r: Interpreter)
        ensures
            r.wf(),
            r.env().len() == 0,
            r.results@.len() == 0,
    {
        Interpreter { names: Vec::new(), values: Vec::new(), results: Vec::new() }
    }

    fn lookup_value(&self, name: &String) -> (r: Option<Literal>)
        requires
            self.wf(),
        ensures
            match lookup(self.env(), name@) {
                Some(v) => r matches Some(l) && l@ == v,
                None => r is None,
            },
    {
        let mut i: usize = self.names.len();
        assert(self.env().subrange(0, i as int) =~= self.env());
        while i > 0
            invariant
                i <= self.names.len(),
                self.wf(),
                lookup(self.env(), name@) == lookup(self.env().subrange(0, i as int), name@),
            decreases i,
        {
            let ghost pre = self.env().subrange(0, i as int);
            assert(pre.drop_last() =~= self.env().subrange(0, i - 1));
            if self.names[i - 1].eq(name) {
                return Some(self.values[i - 1].duplicate());
            }
            i = i - 1;
        }
        None
    }

    fn bind(&mut self, name: String, value: Literal)
        requires
            old(self).wf(),
        ensures
            final(self).wf(),
            final(self).env() == old(self).env().push((name@, value@)),
            final(self).results == old(self).results,
    {
        self.names.push(name);
        self.values.push(value);
        assert(self.env() =~= old(self).env().push((name@, value@)));
    }

    /// The tokens of `e` with each name replaced by its value.
    fn resolve_tokens(&self, toks: Vec<Token>) -> (r: Option<Vec<Token>>)
        requires
            self.wf(),
        ensures
            match resolve(shapes(toks@), self.env()) {
                Some(rs) => r matches Some(v) && shapes(v@) == rs,
                None => r is None,
            },
    {
        let mut out: Vec<Token> = Vec::new();
        let ghost all = toks@;
        let n = toks.len();
        let mut rest = crate::postfix::reverse_tokens(toks);
        assert(rest@.reverse() =~= all);
        assert(all.subrange(0, 0) =~= Seq::<Token>::empty());
        assert(all.subrange(0, n as int) =~= all);
        assert(shapes(Seq::<Token>::empty()) =~= Seq::<TokenShape>::empty());
        let mut k: usize = 0;
        while rest.len() > 0
            invariant
                self.wf(),
                all == toks@,
                all.len() == n,
                k <= all.len(),
                rest@.len() == all.len() - k,
                rest@.reverse() == all.subrange(k as int, all.len() as int),
                resolve(shapes(all.subrange(0, k as int)), self.env()) == Some(shapes(out@)),
            decreases rest.len(),
        {
            let ghost pre = all.subrange(0, k as int);
            let ghost next = all.subrange(0, k + 1);
            proof {
                crate::postfix::lemma_reverse_pop(rest@);
                assert(next.subrange(0, k as int) =~= pre);
                assert(shapes(next) == shapes(pre).push(shape(all[k as int])));
                assert(shapes(next).drop_last() =~= shapes(pre));
            }
            let t = rest.pop().unwrap();
            assert(t == all[k as int]);
            match t {
                Token::IdentifierToken(n) => match self.lookup_value(&n) {
                    Some(v) => {
                        crate::to_token::push_token(&mut out, Token::LiteralToken(v));
                    },
                    None => {
                        proof {
                            assert(shapes(next).last() == TokenShape::Ident(n@));
                            assert(resolve(shapes(next), self.env()) is None);
                            lemma_resolve_none(all, k as int, self.env());
                        }
                        return None;
                    },
                },
                other => {
                    crate::to_token::push_token(&mut out, other);
                },
            }
            k = k + 1;
        }
        assert(all.subrange(0, k as int) =~= all);
        Some(out)
    }
}

/// A stream with an unresolvable prefix is unresolvable.
proof fn lemma_resolve_none(all: Seq<Token>, k: int, env: Env)
    requires
        0 <= k < all.len(),
        resolve(shapes(all.subrange(0, k + 1)), env) is None,
    ensures
        resolve(shapes(all), env) is None,
    decreases all.len(),
{
    if k + 1 == all.len() {
        assert(all.subrange(0, k + 1) =~= all);
    } else {
        let init = all.subrange(0, all.len() - 1);
        assert(init.subrange(0, k + 1) =~= all.subrange(0, k + 1));
        lemma_resolve_none(init, k, env);
        assert(shapes(all).drop_last() =~= shapes(init));
    }
}

/// The value a result stands for.
pub open spec fn result_view(r: Result<Literal, InterpretError>) -> Result<LitValue, InterpretError> {
    match r {
        Ok(l) => Ok(l@),
        Err(err) => Err(err),
    }
}

/// The reported values, in order.
pub open spec fn reported(outs: Seq<Option<LitValue>>) -> Seq<LitValue>
    decreases outs.len(),
{
    if outs.len() == 0 {
        Seq::empty()
    } else {
        let init = reported(outs.drop_last());
        match outs.last() {
            Some(v) => init.push(v),
            None => init,
        }
    }
}

/// The value an expression statement reports, if any.
pub open spec fn out_seq(out: Option<LitValue>) -> Seq<LitValue> {
    match out {
        Some(v) => seq![v],
        None => Seq::empty(),
    }
}

proof fn lemma_reported_push(outs: Seq<Option<LitValue>>, o: Option<LitValue>)
    ensures
        reported(outs.push(o)) == reported(outs) + out_seq(o),
{
    assert(outs.push(o).drop_last() =~= outs);
    match o {
        Some(v) => assert(reported(outs).push(v) =~= reported(outs) + seq![v]),
        None => assert(reported(outs) =~= reported(outs) + Seq::<LitValue>::empty()),
    }
}

/// `states[i]` runs statement `i` into `states[i + 1]`, reporting `outs[i]`.
pub open spec fn run_trace(ss: Seq<Box<Statement>>, states: Seq<Env>, outs: Seq<Option<LitValue>>) -> bool {
    &&& states.len() == ss.len() + 1
    &&& outs.len() == ss.len()
    &&& forall|i: int| 0 <= i < ss.len() ==> runs(*ss[i], #[trigger] states[i], states[i + 1], outs[i])
}

impl Interpreter {
    /// Evaluates `e` under the current bindings.
    pub fn evaluate_expression(&self, e: &Expression) -> (r: Result<Literal, InterpretError>)
        requires
            self.wf(),
        ensures
            evaluates(*e, self.env(), result_view(r)),
    {
        let toks = linearize_expression(e);
        match self.resolve_tokens(toks) {
            None => Err(InterpretError::UndefinedVariable),
            Some(resolved) => {
                let ghost tv = resolved@;
                let mut rev = reverse_tokens(resolved);
                assert(rev@.reverse() =~= tv);
                let r = match postfix(&mut rev) {
                    Ok(p) => match solve_postfix(&p) {
                        Ok(v) => Ok(v),
                        Err(err) => Err(InterpretError::Eval(err)),
                    },
                    Err(err) => Err(InterpretError::Postfix(err)),
                };
                assert(shapes(tv) == resolve(linearize(*e), self.env())->Some_0 && result_view(r) == pipeline(
                    tv,
                ));
                r
            },
        }
    }

    fn declare(&mut self, v: &VariableDec) -> (r: Result<(), InterpretError>)
        requires
            old(self).wf(),
        ensures
            final(self).wf(),
            final(self).results == old(self).results,
            r is Ok ==> declares(v.declarations@, old(self).env(), final(self).env()),
            (exists|after: Env| declares(v.declarations@, old(self).env(), after)) ==> r is Ok,
    {
        let ds = &v.declarations;
        let ghost env0 = self.env();
        let ghost owed = exists|after: Env| declares(v.declarations@, env0, after);
        let ghost tgt: Seq<Env> = if owed {
            let after = choose|after: Env| declares(v.declarations@, env0, after);
            choose|states: Seq<Env>|
                states.len() == ds@.len() + 1 && states[0] == env0 && states.last() == after && forall|i: int|
                    0 <= i < ds@.len() ==> declares_one(*ds@[i], #[trigger] states[i], states[i + 1])
        } else {
            Seq::empty()
        };
        assert(owed ==> decl_chain(ds@, env0, tgt));
        let ghost mut states: Seq<Env> = seq![self.env()];
        let mut i: usize = 0;
        while i < ds.len()
            invariant
                i <= ds.len(),
                ds@ == v.declarations@,
                self.wf(),
                self.results == old(self).results,
                states.len() == i + 1,
                states[0] == old(self).env(),
                states.last() == self.env(),
                forall|k: int| 0 <= k < i ==> declares_one(*ds@[k], #[trigger] states[k], states[k + 1]),
                env0 == old(self).env(),
                owed == exists|after: Env| declares(v.declarations@, env0, after),
                owed ==> decl_chain(ds@, env0, tgt) && tgt[i as int] == self.env(),
            decreases ds.len() - i,
        {
            let ghost mid = self.env();
            match &*ds[i] {
                Statement::VariableDeclarator(d) => {
                    assert(*ds@[i as int] == Statement::VariableDeclarator(*d));
                    match &d.init {
                        None => {
                            self.bind(d.id.name.clone(), Literal::NullLiteral);
                        },
                        Some(e) => {
                            match self.evaluate_expression(e) {
                                Ok(value) => {
                                    let ghost vv = value@;
                                    assert(evaluates(**e, mid, Ok(vv)));
                                    self.bind(d.id.name.clone(), value);
                                },
                                Err(err) => {
                                    proof {
                                        if owed {
                                            assert(declares_one(*ds@[i as int], tgt[i as int], tgt[i + 1]));
                                            let val = choose|val: LitValue|
                                                #[trigger] evaluates(**e, mid, Ok(val)) && tgt[i + 1] == mid.push(
                                                    (d.id.name@, val),
                                                );
                                            lemma_evaluates_unique(**e, mid, Ok(val), Err(err));
                                        }
                                    }
                                    return Err(err);
                                },
                            }
                        },
                    }
                },
                _ => {},
            }
            proof {
                if owed {
                    assert(declares_one(*ds@[i as int], tgt[i as int], tgt[i + 1]));
                    assert(declares_one(*ds@[i as int], mid, self.env()));
                    lemma_declares_one_det(*ds@[i as int], mid, self.env(), tgt[i + 1]);
                }
                let old_states = states;
                states = states.push(self.env());
                assert(declares_one(*ds@[i as int], mid, self.env()));
                assert forall|k: int| 0 <= k < i + 1 implies declares_one(
                    *ds@[k],
                    #[trigger] states[k],
                    states[k + 1],
                ) by {
                    if k < i {
                        assert(states[k] == old_states[k]);
                        assert(states[k + 1] == old_states[k + 1]);
                    }
                }
            }
            i = i + 1;
        }
        assert(declares(v.declarations@, old(self).env(), self.env()));
        Ok(())
    }

    /// Runs one top-level statement (see `runs`).
    pub fn run_statement(&mut self, s: &Statement) -> (r: Result<(), InterpretError>)
        requires
            old(self).wf(),
        ensures
            final(self).wf(),
            r is Ok ==> exists|out: Option<LitValue>|
                runs(*s, old(self).env(), final(self).env(), out) && values(final(self).results@)
                    == values(old(self).results@) + out_seq(out),
            (exists|after: Env, out: Option<LitValue>| runs(*s, old(self).env(), after, out)) ==> r is Ok,
            !(*s is VariableDeclaration || *s is EmptyStatement || *s is ExpressionStatement) ==> r == Err::<
                (),
                InterpretError,
            >(InterpretError::UnsupportedStatement),
    {
        let ghost env0 = self.env();
        match s {
            Statement::VariableDeclaration(v) => {
                let r = self.declare(v);
                proof {
                    assert(values(self.results@) =~= values(old(self).results@) + Seq::<LitValue>::empty());
                    if r is Ok {
                        assert(runs(*s, env0, self.env(), None));
                    }
                }
                r
            },
            Statement::EmptyStatement => {
                proof {
                    assert(values(self.results@) =~= values(old(self).results@) + Seq::<LitValue>::empty());
                    assert(runs(*s, env0, self.env(), None));
                }
                Ok(())
            },
            Statement::ExpressionStatement(es) => self.run_expression_statement(&es.expression),
            _ => Err(InterpretError::UnsupportedStatement),
        }
    }

    fn run_expression_statement(&mut self, e: &Expression) -> (r: Result<(), InterpretError>)
        requires
            old(self).wf(),
        ensures
            final(self).wf(),
            r is Ok ==> exists|out: Option<LitValue>|
                runs(
                    Statement::ExpressionStatement(crate::ast::ExpressionStmt { expression: Box::new(*e) }),
                    old(self).env(),
                    final(self).env(),
                    out,
                ) && values(final(self).results@) == values(old(self).results@) + out_seq(out),
            (exists|after: Env, out: Option<LitValue>|
                runs(
                    Statement::ExpressionStatement(crate::ast::ExpressionStmt { expression: Box::new(*e) }),
                    old(self).env(),
                    after,
                    out,
                )) ==> r is Ok,
    {
        let ghost env0 = self.env();
        let ghost st = Statement::ExpressionStatement(crate::ast::ExpressionStmt { expression: Box::new(*e) });
        let ghost owed = exists|after: Env, out: Option<LitValue>| runs(st, env0, after, out);
        match e {
            Expression::UpdateExpression(u) => {
                match &*u.argument {
                    Expression::Identifier(x) => {
                        let op = match u.operator {
                            UpdateOperator::Increment => BinaryOperator::Add,
                            UpdateOperator::Decrement => BinaryOperator::Sub,
                        };
                        match self.lookup_value(&x.name) {
                            Some(old_value) => {
                                match Operator::BinOp(op).solve(old_value, Literal::NumericLiteral(1)) {
                                    Ok(value) => {
                                        self.bind(x.name.clone(), value);
                                        assert(values(self.results@) =~= values(old(self).results@)
                                            + Seq::<LitValue>::empty());
                                        assert(runs(st, env0, self.env(), None));
                                        Ok(())
                                    },
                                    Err(err) => {
                                        proof {
                                            if owed {
                                                let (af, ou) = choose|af: Env, ou: Option<LitValue>|
                                                    runs(st, env0, af, ou);
                                                assert(runs(st, env0, af, ou));
                                            }
                                        }
                                        Err(InterpretError::Eval(err))
                                    },
                                }
                            },
                            None => {
                                proof {
                                    if owed {
                                        let (af, ou) = choose|af: Env, ou: Option<LitValue>| runs(st, env0, af, ou);
                                        assert(runs(st, env0, af, ou));
                                    }
                                }
                                Err(InterpretError::UndefinedVariable)
                            },
                        }
                    },
                    _ => Err(InterpretError::UnsupportedStatement),
                }
            },
            Expression::AssignmentExpression(a) => {
                match &*a.left {
                    Expression::Identifier(x) => {
                        let value = match self.evaluate_expression(&a.right) {
                            Ok(v) => v,
                            Err(err) => {
                                proof {
                                    if owed {
                                        let (af, ou) = choose|af: Env, ou: Option<LitValue>| runs(st, env0, af, ou);
                                        assert(runs(st, env0, af, ou));
                                        let val = choose|val: LitValue|
                                            evaluates(*a.right, env0, Ok(val)) && match crate::c_writer::compound_operator(
                                                a.operator,
                                            ) {
                                                None => af == env0.push((x.name@, val)),
                                                Some(op) => exists|old: LitValue|
                                                    lookup(env0, x.name@) == Some(old) && binary_defined(op, old, val)
                                                        && af == env0.push((x.name@, apply_binary(op, old, val))),
                                            };
                                        lemma_evaluates_unique(*a.right, env0, Ok(val), Err(err));
                                    }
                                }
                                return Err(err);
                            },
                        };
                        let ghost vv = value@;
                        assert(evaluates(*a.right, env0, Ok(vv)));
                        match crate::c_writer::assign_to_c(a.operator) {
                            None => {
                                self.bind(x.name.clone(), value);
                                assert(values(self.results@) =~= values(old(self).results@)
                                    + Seq::<LitValue>::empty());
                                assert(runs(st, env0, self.env(), None));
                                Ok(())
                            },
                            Some(op) => match self.lookup_value(&x.name) {
                                Some(old_value) => {
                                        match Operator::BinOp(op).solve(old_value, value) {
                                        Ok(result) => {
                                            self.bind(x.name.clone(), result);
                                            assert(values(self.results@) =~= values(old(self).results@)
                                                + Seq::<LitValue>::empty());
                                            assert(runs(st, env0, self.env(), None));
                                            Ok(())
                                        },
                                        Err(err) => {
                                            proof {
                                                lemma_assignment_not_owed(st, env0, *a, x.name@, vv, op);
                                            }
                                            Err(InterpretError::Eval(err))
                                        },
                                    }
                                },
                                None => {
                                    proof {
                                        lemma_assignment_not_owed(st, env0, *a, x.name@, vv, op);
                                    }
                                    Err(InterpretError::UndefinedVariable)
                                },
                            },
                        }
                    },
                    _ => Err(InterpretError::UnsupportedStatement),
                }
            },
            _ => {
                match self.evaluate_expression(e) {
                    Ok(value) => {
                        let ghost vv = value@;
                        let ghost before = self.results@;
                        self.results.push(value);
                        proof {
                            assert(values(self.results@) =~= values(before) + seq![vv]);
                            assert(runs(st, env0, self.env(), Some(vv)));
                        }
                        Ok(())
                    },
                    Err(err) => {
                        proof {
                            if owed {
                                let (af, ou) = choose|af: Env, ou: Option<LitValue>| runs(st, env0, af, ou);
                                assert(runs(st, env0, af, ou));
                                let val = choose|val: LitValue| evaluates(*e, env0, Ok(val)) && ou == Some(val);
                                lemma_evaluates_unique(*e, env0, Ok(val), Err(err));
                            }
                        }
                        Err(err)
                    },
                }
            },
        }
    }

    /// Runs a program's top-level statements from no bindings, stopping at
    /// the first that fails.
    #[verifier::rlimit(50)]
    pub fn run(ast: &Vec<Box<Statement>>) -> (r: Result<Interpreter, InterpretError>)
        ensures
            r matches Ok(it) ==> it.wf() && exists|states: Seq<Env>, outs: Seq<Option<LitValue>>|
                run_trace(ast@, states, outs) && states[0].len() == 0 && states.last() == it.env()
                    && values(it.results@) == reported(outs),
            (exists|states: Seq<Env>, outs: Seq<Option<LitValue>>|
                run_trace(ast@, states, outs) && states[0].len() == 0) ==> r is Ok,
            r matches Err(e) ==> exists|k: int, states: Seq<Env>, outs: Seq<Option<LitValue>>|
                0 <= k < ast@.len() && run_trace(ast@.take(k), states, outs) && states[0].len() == 0
                    && !(exists|after: Env, out: Option<LitValue>|
                    runs(*ast@[k], states.last(), after, out)) && (!(*ast@[k] is VariableDeclaration
                    || *ast@[k] is EmptyStatement || *ast@[k] is ExpressionStatement) ==> e
                    == InterpretError::UnsupportedStatement),
    {
        let ghost owed = exists|states: Seq<Env>, outs: Seq<Option<LitValue>>|
            run_trace(ast@, states, outs) && states[0].len() == 0;
        let ghost target: (Seq<Env>, Seq<Option<LitValue>>) = if owed {
            choose|states: Seq<Env>, outs: Seq<Option<LitValue>>|
                run_trace(ast@, states, outs) && states[0].len() == 0
        } else {
            (Seq::empty(), Seq::empty())
        };
        let mut it = Interpreter::new();
        let ghost mut states: Seq<Env> = seq![it.env()];
        let ghost mut outs: Seq<Option<LitValue>> = Seq::empty();
        let mut i: usize = 0;
        assert(values(it.results@) =~= reported(outs));
        proof {
            if owed {
                assert(target.0[0] =~= it.env());
            }
        }
        while i < ast.len()
            invariant
                i <= ast.len(),
                it.wf(),
                states.len() == i + 1,
                outs.len() == i,
                states[0].len() == 0,
                states.last() == it.env(),
                forall|k: int| 0 <= k < i ==> runs(*ast@[k], #[trigger] states[k], states[k + 1], outs[k]),
                values(it.results@) == reported(outs),
                owed == exists|states: Seq<Env>, outs: Seq<Option<LitValue>>|
                    run_trace(ast@, states, outs) && states[0].len() == 0,
                owed ==> run_trace(ast@, target.0, target.1) && target.0[0].len() == 0 && target.0[i as int]
                    == it.env(),
            decreases ast.len() - i,
        {
            let ghost before = it.env();
            let ghost before_results = values(it.results@);
            match it.run_statement(&ast[i]) {
                Ok(()) => {},
                Err(err) => {
                    proof {
                        if owed {
                            assert(runs(*ast@[i as int], target.0[i as int], target.0[i + 1], target.1[i as int]));
                        }
                        lemma_prefix_trace(ast@, i as int, states, outs);
                    }
                    return Err(err);
                },
            }
            proof {
                let out = choose|out: Option<LitValue>|
                    runs(*ast@[i as int], before, it.env(), out) && values(it.results@) == before_results
                        + out_seq(out);
                let old_states = states;
                let old_outs = outs;
                states = states.push(it.env());
                outs = outs.push(out);
                assert(outs.drop_last() =~= old_outs);
                assert forall|k: int| 0 <= k < i + 1 implies runs(
                    *ast@[k],
                    #[trigger] states[k],
                    states[k + 1],
                    outs[k],
                ) by {
                    if k < i {
                        assert(states[k] == old_states[k]);
                        assert(states[k + 1] == old_states[k + 1]);
                        assert(outs[k] == old_outs[k]);
                    }
                }
                lemma_reported_push(old_outs, out);
                assert(values(it.results@) =~= reported(outs));
                if owed {
                    assert(runs(*ast@[i as int], target.0[i as int], target.0[i + 1], target.1[i as int]));
                    lemma_runs_det(*ast@[i as int], before, it.env(), out, target.0[i + 1], target.1[i as int]);
                }
            }
            i = i + 1;
        }
        assert(run_trace(ast@, states, outs));
        Ok(it)
    }
}

/// An expression has one result under given bindings.
pub proof fn lemma_evaluates_unique(e: Expression, env: Env, r1: Result<LitValue, InterpretError>, r2: Result<LitValue, InterpretError>)
    requires
        evaluates(e, env, r1),
        evaluates(e, env, r2),
    ensures
        r1 == r2,
{
    match resolve(linearize(e), env) {
        None => {},
        Some(rs) => {
            let t1 = choose|toks: Seq<Token>| shapes(toks) == rs && r1 == pipeline(toks);
            let t2 = choose|toks: Seq<Token>| shapes(toks) == rs && r2 == pipeline(toks);
            crate::shapes::lemma_pipeline_shapes(t1, t2);
        },
    }
}

proof fn lemma_declares_one_det(s: Statement, b: Env, a1: Env, a2: Env)
    requires
        declares_one(s, b, a1),
        declares_one(s, b, a2),
    ensures
        a1 == a2,
{
    match s {
        Statement::VariableDeclarator(v) => match v.init {
            Some(e) => {
                let v1 = choose|val: LitValue| #[trigger] evaluates(*e, b, Ok(val)) && a1 == b.push((v.id.name@, val));
                let v2 = choose|val: LitValue| #[trigger] evaluates(*e, b, Ok(val)) && a2 == b.push((v.id.name@, val));
                lemma_evaluates_unique(*e, b, Ok(v1), Ok(v2));
            },
            None => {},
        },
        _ => {},
    }
}

pub open spec fn decl_chain(ds: Seq<Box<Statement>>, env: Env, states: Seq<Env>) -> bool {
    &&& states.len() == ds.len() + 1
    &&& states[0] == env
    &&& forall|i: int| 0 <= i < ds.len() ==> declares_one(*ds[i], #[trigger] states[i], states[i + 1])
}

proof fn lemma_decl_chain_eq(ds: Seq<Box<Statement>>, env: Env, s1: Seq<Env>, s2: Seq<Env>, k: int)
    requires
        decl_chain(ds, env, s1),
        decl_chain(ds, env, s2),
        0 <= k <= ds.len(),
    ensures
        s1[k] == s2[k],
    decreases k,
{
    if k > 0 {
        lemma_decl_chain_eq(ds, env, s1, s2, k - 1);
        lemma_declares_one_det(*ds[k - 1], s1[k - 1], s1[k], s2[k]);
    }
}

/// A declaration adds one set of bindings.
pub proof fn lemma_declares_det(ds: Seq<Box<Statement>>, env: Env, a1: Env, a2: Env)
    requires
        declares(ds, env, a1),
        declares(ds, env, a2),
    ensures
        a1 == a2,
{
    let s1 = choose|states: Seq<Env>|
        states.len() == ds.len() + 1 && states[0] == env && states.last() == a1 && forall|i: int|
            0 <= i < ds.len() ==> declares_one(*ds[i], #[trigger] states[i], states[i + 1]);
    let s2 = choose|states: Seq<Env>|
        states.len() == ds.len() + 1 && states[0] == env && states.last() == a2 && forall|i: int|
            0 <= i < ds.len() ==> declares_one(*ds[i], #[trigger] states[i], states[i + 1]);
    assert(decl_chain(ds, env, s1));
    assert(decl_chain(ds, env, s2));
    lemma_decl_chain_eq(ds, env, s1, s2, ds.len() as int);
}

/// A statement runs from given bindings in one way only.
pub proof fn lemma_runs_det(s: Statement, env: Env, a1: Env, o1: Option<LitValue>, a2: Env, o2: Option<LitValue>)
    requires
        runs(s, env, a1, o1),
        runs(s, env, a2, o2),
    ensures
        a1 == a2,
        o1 == o2,
{
    match s {
        Statement::VariableDeclaration(v) => lemma_declares_det(v.declarations@, env, a1, a2),
        Statement::ExpressionStatement(es) => match *es.expression {
            Expression::UpdateExpression(_) => {},
            Expression::AssignmentExpression(a) => {
                let v1 = choose|val: LitValue|
                    evaluates(*a.right, env, Ok(val)) && match crate::c_writer::compound_operator(a.operator) {
                        None => a1 == env.push((a.left->Identifier_0.name@, val)),
                        Some(op) => exists|old: LitValue|
                            lookup(env, a.left->Identifier_0.name@) == Some(old) && binary_defined(op, old, val)
                                && a1 == env.push((a.left->Identifier_0.name@, apply_binary(op, old, val))),
                    };
                let v2 = choose|val: LitValue|
                    evaluates(*a.right, env, Ok(val)) && match crate::c_writer::compound_operator(a.operator) {
                        None => a2 == env.push((a.left->Identifier_0.name@, val)),
                        Some(op) => exists|old: LitValue|
                            lookup(env, a.left->Identifier_0.name@) == Some(old) && binary_defined(op, old, val)
                                && a2 == env.push((a.left->Identifier_0.name@, apply_binary(op, old, val))),
                    };
                lemma_evaluates_unique(*a.right, env, Ok(v1), Ok(v2));
            },
            e => {
                let v1 = choose|val: LitValue| evaluates(e, env, Ok(val)) && o1 == Some(val);
                let v2 = choose|val: LitValue| evaluates(e, env, Ok(val)) && o2 == Some(val);
                lemma_evaluates_unique(e, env, Ok(v1), Ok(v2));
            },
        },
        _ => {},
    }
}

/// With `x op= e` where `e` has the value `vv`, a run exists only if `x` is
/// bound to a value on which `op` with `vv` is defined.
proof fn lemma_assignment_not_owed(
    st: Statement,
    env: Env,
    a: crate::ast::AssignmentExp,
    x: Seq<char>,
    vv: LitValue,
    op: BinaryOperator,
)
    requires
        st == Statement::ExpressionStatement(
            crate::ast::ExpressionStmt { expression: Box::new(Expression::AssignmentExpression(a)) },
        ),
        *a.left matches Expression::Identifier(id) && id.name@ == x,
        evaluates(*a.right, env, Ok(vv)),
        crate::c_writer::compound_operator(a.operator) == Some(op),
    ensures
        (exists|af: Env, ou: Option<LitValue>| runs(st, env, af, ou)) ==> (lookup(env, x) matches Some(
            old,
        ) && binary_defined(op, old, vv)),
{
    if exists|af: Env, ou: Option<LitValue>| runs(st, env, af, ou) {
        let (af, ou) = choose|af: Env, ou: Option<LitValue>| runs(st, env, af, ou);
        let val = choose|val: LitValue|
            evaluates(*a.right, env, Ok(val)) && match crate::c_writer::compound_operator(a.operator) {
                None => af == env.push((x, val)),
                Some(op) => exists|old: LitValue|
                    lookup(env, x) == Some(old) && binary_defined(op, old, val) && af == env.push(
                        (x, apply_binary(op, old, val)),
                    ),
            };
        lemma_evaluates_unique(*a.right, env, Ok(val), Ok(vv));
    }
}

proof fn lemma_prefix_trace(ast: Seq<Box<Statement>>, i: int, states: Seq<Env>, outs: Seq<Option<LitValue>>)
    requires
        0 <= i <= ast.len(),
        states.len() == i + 1,
        outs.len() == i,
        forall|k: int| 0 <= k < i ==> runs(*ast[k], #[trigger] states[k], states[k + 1], outs[k]),
    ensures
        run_trace(ast.take(i), states, outs),
{
    let pre = ast.take(i);
    assert forall|k: int| 0 <= k < pre.len() implies runs(*pre[k], #[trigger] states[k], states[k + 1], outs[k]) by {
        assert(pre[k] == ast[k]);
    }
}

} // verus!
