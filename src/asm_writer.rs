//! x86-64 assembly generation (AT&T syntax) from postfix token streams,
//! on a two-register stack machine.

use vstd::prelude::*;
use crate::ast::{Expression, Statement, Variable, VariableDec};
use crate::literal::Literal;
use crate::operator::{AssignmentOperator, BinaryOperator, Operator, UpdateOperator};
use crate::postfix::{postfix, postfix_spec, reverse_tokens, PostfixError};
use crate::text::{number_to_string, push_str};
use crate::to_token::{linearize, linearize_expression, shapes};
use crate::token::Token;

verus! {

#[derive(Clone, Copy, Debug, PartialEq, Eq, Structural)]
pub enum Register {
    RAX,
    RBX,
}

impl Register {
    pub open spec fn spec_name(self) -> Seq<char> {
        match self {
            Register::RAX => "rax"@,
            Register::RBX => "rbx"@,
        }
    }

    pub fn as_str(&self) -> (r: &'static str)
        ensures
            r@ == self.spec_name(),
    {
        match self {
            Register::RAX => "rax",
            Register::RBX => "rbx",
        }
    }
}

/// A construct the assembly generator does not lower.
#[derive(Clone, Copy, Debug, PartialEq, Eq, Structural)]
pub enum AsmError {
    /// A token other than a number or an operator.
    UnsupportedToken,
    /// A binary operator with no instruction (a comparison or `%`).
    UnsupportedOperator(BinaryOperator),
    /// A statement other than an expression, a declaration or an empty one.
    UnsupportedStatement,
    /// A variable whose initial value is not a number literal.
    UnsupportedInitializer,
    /// The expression could not be put in postfix order.
    Postfix(PostfixError),
}

/// The instruction computing `%rax op %rbx` into `%rax`.
pub open spec fn asm_instruction(op: BinaryOperator) -> Option<Seq<char>> {
    match op {
        BinaryOperator::Add => Some("\taddq\t%rbx, %rax\n"@),
        BinaryOperator::Sub => Some("\tsubq\t%rbx, %rax\n"@),
        BinaryOperator::Mul => Some("\timulq\t%rbx, %rax\n"@),
        BinaryOperator::Div => Some("\tcqto\n\tidivq\t%rbx\n"@),
        _ => None,
    }
}

/// A number is pushed; an operator pops its right operand into `%rbx`, its
/// left operand into `%rax`, computes, and pushes `%rax`.
pub open spec fn asm_token(t: Token) -> Option<Seq<char>> {
    match t {
        Token::LiteralToken(Literal::NumericLiteral(n)) => Some(
            "\tpushq\t$"@ + crate::text::decimal(n as int) + "\n"@,
        ),
        Token::OperatorToken(Operator::BinOp(op)) => match asm_instruction(op) {
            Some(i) => Some("\tpopq\t%rbx\n\tpopq\t%rax\n"@ + i + "\tpushq\t%rax\n"@),
            None => None,
        },
        _ => None,
    }
}

/// The error a token without instructions gives: a binary operator is
/// named, anything else is an unsupported token.
pub open spec fn asm_error_of(t: Token) -> AsmError {
    match t {
        Token::OperatorToken(Operator::BinOp(op)) => AsmError::UnsupportedOperator(op),
        _ => AsmError::UnsupportedToken,
    }
}

/// Every token of a stream with instructions has some.
proof fn lemma_asm_text_tokens(ts: Seq<Token>)
    requires
        asm_text(ts) is Some,
    ensures
        forall|j: int| 0 <= j < ts.len() ==> asm_token(#[trigger] ts[j]) is Some,
    decreases ts.len(),
{
    if ts.len() > 0 {
        lemma_asm_text_tokens(ts.drop_last());
        assert forall|j: int| 0 <= j < ts.len() implies asm_token(#[trigger] ts[j]) is Some by {
            if j < ts.len() - 1 {
                assert(ts.drop_last()[j] == ts[j]);
            }
        }
    }
}

proof fn lemma_first_bad(ts: Seq<Token>, i: int)
    requires
        0 <= i < ts.len(),
        asm_text(ts.subrange(0, i)) is Some,
        asm_token(ts[i]) is None,
    ensures
        asm_text(ts) is None,
        forall|j: int| 0 <= j < i ==> asm_token(#[trigger] ts[j]) is Some,
{
    lemma_asm_text_none(ts, i);
    let pre = ts.subrange(0, i);
    lemma_asm_text_tokens(pre);
    assert forall|j: int| 0 <= j < i implies asm_token(#[trigger] ts[j]) is Some by {
        assert(pre[j] == ts[j]);
    }
}

/// The instructions of a postfix stream, when every token has some.
pub open spec fn asm_text(ts: Seq<Token>) -> Option<Seq<char>>
    decreases ts.len(),
{
    if ts.len() == 0 {
        Some(Seq::empty())
    } else {
        match (asm_text(ts.drop_last()), asm_token(ts.last())) {
            (Some(a), Some(b)) => Some(a + b),
            _ => None,
        }
    }
}

/// The instructions that evaluate `e` and leave its value on the stack:
/// those of the postfix form of its tokens.
pub open spec fn asm_expression(e: Expression, text: Seq<char>) -> bool {
    exists|toks: Seq<Token>, p: Seq<Token>|
        shapes(toks) == linearize(e) && postfix_spec(toks) == Ok::<Seq<Token>, PostfixError>(p)
            && asm_text(p) == Some(text)
}

/// The instructions of one top-level statement: an update of a variable
/// works on its storage; an assignment of a variable stores the value
/// computed; any other expression is computed and dropped; declarations
/// are hoisted and give nothing here.
pub open spec fn asm_statement(s: Statement, text: Seq<char>) -> bool {
    match s {
        Statement::VariableDeclaration(_) => text.len() == 0,
        Statement::EmptyStatement => text.len() == 0,
        Statement::ExpressionStatement(es) => match *es.expression {
            Expression::UpdateExpression(u) => match *u.argument {
                Expression::Identifier(id) => text == match u.operator {
                    UpdateOperator::Increment => "\tincq\t"@,
                    UpdateOperator::Decrement => "\tdecq\t"@,
                } + id.name@ + "(%rip)\n"@,
                _ => false,
            },
            Expression::AssignmentExpression(a) => match *a.left {
                Expression::Identifier(id) => a.operator == AssignmentOperator::Assign && exists|t: Seq<
                    char,
                >|
                    asm_expression(*a.right, t) && text == t + "\tpopq\t%rax\n\tmovq\t%rax, "@ + id.name@
                        + "(%rip)\n"@,
                _ => false,
            },
            e => exists|t: Seq<char>| asm_expression(e, t) && text == t + "\tpopq\t%rax\n"@,
        },
        _ => false,
    }
}

/// The statement has instructions.
pub open spec fn has_asm(s: Box<Statement>) -> bool {
    exists|t: Seq<char>| asm_statement(*s, t)
}

/// The initial value of a hoisted variable, when it has one the data
/// section can hold: a number literal, or zero when there is none.
pub open spec fn initial_value(v: Variable) -> Option<int> {
    match v.init {
        None => Some(0),
        Some(e) => match *e {
            Expression::NumericLiteral(n) => Some(n.value as int),
            _ => None,
        },
    }
}

/// The data entries of a declaration's declarators.
pub open spec fn asm_data_decls(ds: Seq<Box<Statement>>) -> Option<Seq<char>>
    decreases ds.len(),
{
    if ds.len() == 0 {
        Some(Seq::empty())
    } else {
        match asm_data_decls(ds.drop_last()) {
            None => None,
            Some(a) => match *ds.last() {
                Statement::VariableDeclarator(v) => match initial_value(v) {
                    Some(n) => Some(a + v.id.name@ + ":\n\t.quad\t"@ + crate::text::decimal(n) + "\n"@),
                    None => None,
                },
                _ => Some(a),
            },
        }
    }
}

/// The data section entries of the top-level variables.
pub open spec fn asm_data(ss: Seq<Box<Statement>>) -> Option<Seq<char>>
    decreases ss.len(),
{
    if ss.len() == 0 {
        Some(Seq::empty())
    } else {
        match asm_data(ss.drop_last()) {
            None => None,
            Some(a) => match *ss.last() {
                Statement::VariableDeclaration(v) => match asm_data_decls(v.declarations@) {
                    Some(b) => Some(a + b),
                    None => None,
                },
                _ => Some(a),
            },
        }
    }
}

pub open spec fn asm_prologue() -> Seq<char> {
    ".text\n.global main\n.type main, @function\nmain:\n"@
}

pub struct ASMWriter {
    pub out: String,
    pub error: Option<AsmError>,
}

impl ASMWriter {
    pub fn new() -> (r: ASMWriter)
        ensures
            r.out@.len() == 0,
            r.error is None,
    {
        ASMWriter { out: String::new(), error: None }
    }

    pub fn append(&mut self, word: &str)
        ensures
            final(self).out@ == old(self).out@ + word@,
            final(self).error == old(self).error,
    {
        push_str(&mut self.out, word);
    }

    fn fail(&mut self, e: AsmError)
        ensures
            final(self).out == old(self).out,
            final(self).error is Some,
            old(self).error is None ==> final(self).error == Some(e),
            old(self).error is Some ==> final(self).error == old(self).error,
    {
        if self.error.is_none() {
            self.error = Some(e);
        }
    }

    /// `pushq $lit`.
    pub fn append_lit(&mut self, lit: &str)
        ensures
            final(self).out@ == old(self).out@ + "\tpushq\t$"@ + lit@ + "\n"@,
            final(self).error == old(self).error,
    {
        self.append("\tpushq\t$");
        self.append(lit);
        self.append("\n");
    }

    /// The instructions of a binary operator, with the right operand popped
    /// first.
    pub fn write_asm_op(&mut self, op: BinaryOperator)
        ensures
            match asm_instruction(op) {
                Some(i) => final(self).out@ == old(self).out@ + "\tpopq\t%rbx\n\tpopq\t%rax\n"@ + i
                    + "\tpushq\t%rax\n"@ && final(self).error == old(self).error,
                None => final(self).out == old(self).out && final(self).error is Some && (old(self).error is Some
                    ==> final(self).error == old(self).error) && (old(self).error is None ==> final(self).error
                    == Some(AsmError::UnsupportedOperator(op))),
            },
    {
        let instruction = match op {
            BinaryOperator::Add => "\taddq\t%rbx, %rax\n",
            BinaryOperator::Sub => "\tsubq\t%rbx, %rax\n",
            BinaryOperator::Mul => "\timulq\t%rbx, %rax\n",
            BinaryOperator::Div => "\tcqto\n\tidivq\t%rbx\n",
            _ => {
                self.fail(AsmError::UnsupportedOperator(op));
                return;
            },
        };
        self.append("\tpopq\t%rbx\n\tpopq\t%rax\n");
        self.append(instruction);
        self.append("\tpushq\t%rax\n");
    }

    /// The instructions of a postfix stream.
    pub fn postfix_to_asm(&mut self, postfix_expression: &Vec<Token>)
        ensures
            match asm_text(postfix_expression@) {
                Some(t) => final(self).out@ == old(self).out@ + t && final(self).error == old(self).error,
                None => final(self).error is Some && (old(self).error is Some ==> final(self).error == old(self).error),
            },
            asm_text(postfix_expression@) is None && old(self).error is None ==> exists|i: int|
                0 <= i < postfix_expression@.len() && asm_token(postfix_expression@[i]) is None && (forall|j: int|
                    0 <= j < i ==> asm_token(#[trigger] postfix_expression@[j]) is Some) && final(self).error
                    == Some(asm_error_of(postfix_expression@[i])),
    {
        let mut i: usize = 0;
        while i < postfix_expression.len()
            invariant
                i <= postfix_expression.len(),
                match asm_text(postfix_expression@.subrange(0, i as int)) {
                    Some(t) => self.out@ == old(self).out@ + t && self.error == old(self).error,
                    None => false,
                },
            decreases postfix_expression.len() - i,
        {
            let ghost pre = postfix_expression@.subrange(0, i as int);
            let ghost sub = postfix_expression@.subrange(0, i + 1);
            assert(sub.drop_last() =~= pre);
            assert(sub.last() == postfix_expression@[i as int]);
            match &postfix_expression[i] {
                Token::LiteralToken(Literal::NumericLiteral(n)) => {
                    let t = number_to_string(*n);
                    self.append_lit(t.as_str());
                },
                Token::OperatorToken(Operator::BinOp(op)) => {
                    match op {
                        BinaryOperator::Add | BinaryOperator::Sub | BinaryOperator::Mul
                        | BinaryOperator::Div => {
                            self.write_asm_op(*op);
                        },
                        _ => {
                            self.fail(AsmError::UnsupportedOperator(*op));
                            proof {
                                lemma_first_bad(postfix_expression@, i as int);
                            }
                            return;
                        },
                    }
                },
                _ => {
                    self.fail(AsmError::UnsupportedToken);
                    proof {
                        lemma_first_bad(postfix_expression@, i as int);
                    }
                    return;
                },
            }
            i = i + 1;
            assert(self.out@ =~= old(self).out@ + asm_text(sub)->Some_0);
        }
        assert(postfix_expression@.subrange(0, i as int) =~= postfix_expression@);
    }
}

/// A stream with a token that has no instructions has none.
proof fn lemma_asm_text_none(ts: Seq<Token>, i: int)
    requires
        0 <= i < ts.len(),
        asm_token(ts[i]) is None,
    ensures
        asm_text(ts) is None,
    decreases ts.len(),
{
    if i < ts.len() - 1 {
        assert(ts.drop_last()[i] == ts[i]);
        lemma_asm_text_none(ts.drop_last(), i);
    }
}

/// The texts one after another.
pub open spec fn join(texts: Seq<Seq<char>>) -> Seq<char>
    decreases texts.len(),
{
    if texts.len() == 0 {
        Seq::empty()
    } else {
        join(texts.drop_last()) + texts.last()
    }
}

/// The whole program: the data section, the prologue, each top-level
/// statement's instructions, and `ret`.
pub open spec fn asm_program(ss: Seq<Box<Statement>>, texts: Seq<Seq<char>>, data: Seq<char>) -> Seq<char> {
    ".data\n"@ + data + asm_prologue() + join(texts) + "\tret\n"@
}

impl ASMWriter {
    /// Computes `e` and leaves its value on the stack.
    fn write_expression(&mut self, e: &Expression)
        ensures
            old(self).error is Some ==> final(self).error == old(self).error,
            final(self).error is None ==> exists|t: Seq<char>|
                asm_expression(*e, t) && final(self).out@ == old(self).out@ + t,
            old(self).error is None && (exists|t: Seq<char>| asm_expression(*e, t)) ==> final(self).error is None,
    {
        let toks = linearize_expression(e);
        let ghost tv = toks@;
        let ghost owed = exists|t: Seq<char>| asm_expression(*e, t);
        let ghost target: (Seq<Token>, Seq<Token>) = if owed {
            let t = choose|t: Seq<char>| asm_expression(*e, t);
            choose|toks: Seq<Token>, p: Seq<Token>|
                shapes(toks) == linearize(*e) && postfix_spec(toks) == Ok::<Seq<Token>, PostfixError>(p)
                    && asm_text(p) == Some(t)
        } else {
            (Seq::empty(), Seq::empty())
        };
        proof {
            if owed {
                crate::shapes::lemma_pipeline_shapes(tv, target.0);
            }
        }
        let mut rev = reverse_tokens(toks);
        assert(rev@.reverse() =~= tv);
        match postfix(&mut rev) {
            Ok(p) => {
                proof {
                    if owed {
                        crate::shapes::lemma_asm_text_sim(p@, target.1);
                    }
                }
                self.postfix_to_asm(&p);
                proof {
                    if self.error is None {
                        let t = asm_text(p@)->Some_0;
                        assert(asm_expression(*e, t));
                    }
                }
            },
            Err(err) => {
                self.fail(AsmError::Postfix(err));
            },
        }
    }

    /// The instructions of one top-level statement (see `asm_statement`).
    pub fn compile_statement(&mut self, s: &Statement)
        ensures
            old(self).error is Some ==> final(self).error == old(self).error,
            old(self).error is None && (exists|t: Seq<char>| asm_statement(*s, t)) ==> final(self).error is None,
            final(self).error is None ==> exists|t: Seq<char>|
                asm_statement(*s, t) && final(self).out@ == old(self).out@ + t,
    {
        match s {
            Statement::VariableDeclaration(_) | Statement::EmptyStatement => {
                assert(asm_statement(*s, Seq::empty()));
                assert(self.out@ =~= old(self).out@ + Seq::<char>::empty());
            },
            Statement::ExpressionStatement(es) => {
                match &*es.expression {
                    Expression::UpdateExpression(u) => {
                        match &*u.argument {
                            Expression::Identifier(id) => {
                                match u.operator {
                                    UpdateOperator::Increment => self.append("\tincq\t"),
                                    UpdateOperator::Decrement => self.append("\tdecq\t"),
                                }
                                self.append(id.name.as_str());
                                self.append("(%rip)\n");
                                proof {
                                    let t = match u.operator {
                                        UpdateOperator::Increment => "\tincq\t"@,
                                        UpdateOperator::Decrement => "\tdecq\t"@,
                                    } + id.name@ + "(%rip)\n"@;
                                    assert(asm_statement(*s, t));
                                    assert(self.out@ =~= old(self).out@ + t);
                                }
                            },
                            _ => self.fail(AsmError::UnsupportedStatement),
                        }
                    },
                    Expression::AssignmentExpression(a) => {
                        match &*a.left {
                            Expression::Identifier(id) => {
                                match a.operator {
                                    AssignmentOperator::Assign => {
                                        self.write_expression(&a.right);
                                        let ghost mid = self.out@;
                                        self.append("\tpopq\t%rax\n\tmovq\t%rax, ");
                                        self.append(id.name.as_str());
                                        self.append("(%rip)\n");
                                        proof {
                                            if self.error is None {
                                                let t = choose|t: Seq<char>|
                                                    asm_expression(*a.right, t) && mid == old(self).out@ + t;
                                                let full = t + "\tpopq\t%rax\n\tmovq\t%rax, "@ + id.name@
                                                    + "(%rip)\n"@;
                                                assert(asm_statement(*s, full));
                                                assert(self.out@ =~= old(self).out@ + full);
                                            }
                                        }
                                    },
                                    _ => self.fail(AsmError::UnsupportedStatement),
                                }
                            },
                            _ => self.fail(AsmError::UnsupportedStatement),
                        }
                    },
                    e => {
                        self.write_expression(e);
                        let ghost mid = self.out@;
                        self.append("\tpopq\t%rax\n");
                        proof {
                            if self.error is None {
                                let t = choose|t: Seq<char>| asm_expression(*e, t) && mid == old(self).out@ + t;
                                let full = t + "\tpopq\t%rax\n"@;
                                assert(asm_statement(*s, full));
                                assert(self.out@ =~= old(self).out@ + full);
                            }
                        }
                    },
                }
            },
            _ => self.fail(AsmError::UnsupportedStatement),
        }
    }

    fn write_data_declaration(&mut self, v: &VariableDec)
        requires
            old(self).error is None,
        ensures
            match asm_data_decls(v.declarations@) {
                Some(t) => final(self).out@ == old(self).out@ + t && final(self).error == old(self).error,
                None => final(self).error is Some && (old(self).error is Some ==> final(self).error == old(self).error),
            },
    {
        let ds = &v.declarations;
        let mut i: usize = 0;
        while i < ds.len()
            invariant
                i <= ds.len(),
                old(self).error is None,
                ds@ == v.declarations@,
                match asm_data_decls(ds@.subrange(0, i as int)) {
                    Some(t) => self.out@ == old(self).out@ + t && self.error == old(self).error,
                    None => false,
                },
            decreases ds.len() - i,
        {
            let ghost sub = ds@.subrange(0, i + 1);
            assert(sub.drop_last() =~= ds@.subrange(0, i as int));
            assert(sub.last() == ds@[i as int]);
            match &*ds[i] {
                Statement::VariableDeclarator(d) => {
                    let value = match &d.init {
                        None => Some(number_to_string(0)),
                        Some(e) => match &**e {
                            Expression::NumericLiteral(n) => Some(number_to_string(n.value)),
                            _ => None,
                        },
                    };
                    match value {
                        Some(text) => {
                            self.append(d.id.name.as_str());
                            self.append(":\n\t.quad\t");
                            self.append(text.as_str());
                            self.append("\n");
                        },
                        None => {
                            assert(initial_value(*d) is None);
                            assert(*ds@[i as int] == Statement::VariableDeclarator(*d));
                            proof {
                                lemma_data_decls_none(ds@, i as int);
                            }
                            self.fail(AsmError::UnsupportedInitializer);
                            return;
                        },
                    }
                },
                _ => {},
            }
            i = i + 1;
            assert(self.out@ =~= old(self).out@ + asm_data_decls(sub)->Some_0);
        }
        assert(ds@.subrange(0, i as int) =~= ds@);
    }

    fn write_data(&mut self, ast: &Vec<Box<Statement>>)
        requires
            old(self).error is None,
        ensures
            match asm_data(ast@) {
                Some(t) => final(self).out@ == old(self).out@ + t && final(self).error == old(self).error,
                None => final(self).error is Some && (old(self).error is Some ==> final(self).error == old(self).error),
            },
    {
        let mut i: usize = 0;
        while i < ast.len()
            invariant
                i <= ast.len(),
                old(self).error is None,
                match asm_data(ast@.subrange(0, i as int)) {
                    Some(t) => self.out@ == old(self).out@ + t && self.error == old(self).error,
                    None => false,
                },
            decreases ast.len() - i,
        {
            let ghost sub = ast@.subrange(0, i + 1);
            assert(sub.drop_last() =~= ast@.subrange(0, i as int));
            assert(sub.last() == ast@[i as int]);
            match &*ast[i] {
                Statement::VariableDeclaration(v) => {
                    self.write_data_declaration(v);
                    if self.error.is_some() {
                        proof {
                            lemma_data_none(ast@, i as int);
                        }
                        return;
                    }
                },
                _ => {},
            }
            i = i + 1;
            assert(self.out@ =~= old(self).out@ + asm_data(sub)->Some_0);
        }
        assert(ast@.subrange(0, i as int) =~= ast@);
    }

    /// Lowers a program: the top-level variables become data entries, then
    /// `main` runs each top-level statement and returns.
    pub fn build(&mut self, ast: &Vec<Box<Statement>>)
        ensures
            old(self).error is Some ==> final(self).error == old(self).error,
            old(self).error is None && asm_data(ast@) is Some && (forall|k: int|
                0 <= k < ast@.len() ==> has_asm(#[trigger] ast@[k])) ==> final(self).error is None,
            final(self).error is None ==> asm_data(ast@) is Some && exists|texts: Seq<Seq<char>>|
                texts.len() == ast@.len() && (forall|k: int|
                    0 <= k < texts.len() ==> asm_statement(*ast@[k], #[trigger] texts[k]))
                    && final(self).out@ == old(self).out@ + asm_program(
                    ast@,
                    texts,
                    asm_data(ast@)->Some_0,
                ),
    {
        if self.error.is_some() {
            return;
        }
        self.append(".data\n");
        self.write_data(ast);
        self.append(".text\n.global main\n.type main, @function\nmain:\n");
        let ghost start = self.out@;
        let ghost mut texts: Seq<Seq<char>> = Seq::empty();
        let mut i: usize = 0;
        while i < ast.len()
            invariant
                i <= ast.len(),
                texts.len() == i,
                old(self).error is Some ==> self.error == old(self).error,
                old(self).error is None && asm_data(ast@) is Some && (forall|k: int|
                    0 <= k < ast@.len() ==> has_asm(#[trigger] ast@[k])) ==> self.error
                    is None,
                self.error is None ==> asm_data(ast@) is Some && start == old(self).out@ + ".data\n"@
                    + asm_data(ast@)->Some_0 + asm_prologue() && (forall|k: int|
                    0 <= k < texts.len() ==> asm_statement(*ast@[k], #[trigger] texts[k]))
                    && self.out@ == start + join(texts),
            decreases ast.len() - i,
        {
            let ghost mid = self.out@;
            proof {
                if old(self).error is None && asm_data(ast@) is Some && (forall|k: int|
                    0 <= k < ast@.len() ==> has_asm(#[trigger] ast@[k])) {
                    assert(has_asm(ast@[i as int]));
                }
            }
            self.compile_statement(&ast[i]);
            proof {
                let t = if self.error is None {
                    choose|t: Seq<char>| asm_statement(*ast@[i as int], t) && self.out@ == mid + t
                } else {
                    Seq::empty()
                };
                let old_texts = texts;
                texts = texts.push(t);
                if self.error is None {
                    assert(texts.drop_last() =~= old_texts);
                    assert(self.out@ =~= start + join(texts));
                    assert forall|k: int| 0 <= k < texts.len() implies asm_statement(
                        *ast@[k],
                        #[trigger] texts[k],
                    ) by {
                        if k < old_texts.len() {
                            assert(texts[k] == old_texts[k]);
                        }
                    }
                }
            }
            i = i + 1;
        }
        self.append("\tret\n");
        proof {
            if self.error is None {
                assert(self.out@ =~= old(self).out@ + asm_program(ast@, texts, asm_data(ast@)->Some_0));
            }
        }
    }
}

proof fn lemma_data_decls_none(ds: Seq<Box<Statement>>, i: int)
    requires
        0 <= i < ds.len(),
        *ds[i] matches Statement::VariableDeclarator(v) && initial_value(v) is None,
    ensures
        asm_data_decls(ds) is None,
    decreases ds.len(),
{
    if i < ds.len() - 1 {
        assert(ds.drop_last()[i] == ds[i]);
        lemma_data_decls_none(ds.drop_last(), i);
    }
}

proof fn lemma_data_none(ss: Seq<Box<Statement>>, i: int)
    requires
        0 <= i < ss.len(),
        *ss[i] matches Statement::VariableDeclaration(v) && asm_data_decls(v.declarations@) is None,
    ensures
        asm_data(ss) is None,
    decreases ss.len(),
{
    if i < ss.len() - 1 {
        assert(ss.drop_last()[i] == ss[i]);
        lemma_data_none(ss.drop_last(), i);
    }
}

} // verus!
