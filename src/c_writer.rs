//! C source generation: the syntax tree lowered to C calling a runtime of
//! tagged values ("databoxes").

use vstd::prelude::*;
use vstd::string::*;
use crate::ast::{
    AssignmentExp, BinaryExp, BlockStmt, CallExp, CaseStmt, Expression, ForStmt, FunctionDec, IfStmt,
    LogicalExp, MemberExp, ObjectExp, Property, ReturnStmt, Statement, SwitchStmt, UnaryExp, UpdateExp,
    Variable, VariableDec, WhileStmt,
};
use rand::Rng;
use crate::operator::{AssignmentOperator, BinaryOperator, UpdateOperator};
use crate::text::{number_to_string, push_char, push_str};
use crate::to_token::callee_name;

verus! {

/// A construct the C generator does not lower.
#[derive(Clone, Copy, Debug, PartialEq, Eq, Structural)]
pub enum CError {
    /// A binary operator with no runtime function (`<=`, `>=`, `%`).
    UnsupportedOperator(BinaryOperator),
    /// An update of something other than a variable.
    UnsupportedUpdate,
    /// An assignment to something other than a variable.
    UnsupportedAssignment,
    /// A call whose callee is not a plain name.
    UnsupportedCallee,
    /// An object literal outside a variable initializer, or inside another
    /// object.
    UnsupportedObject,
    /// An object property whose key is neither a name nor a string.
    UnsupportedPropertyKey,
}

/// The names of the runtime functions a call passes plain arguments to.
pub open spec fn std_lib() -> Seq<Seq<char>> {
    seq!["add"@, "mull"@, "div"@, "eq"@, "print"@, "sub"@]
}

/// The runtime function for a binary operator, when there is one.
pub open spec fn c_function(op: BinaryOperator) -> Option<Seq<char>> {
    match op {
        BinaryOperator::GreaterThan => Some("gt"@),
        BinaryOperator::LessThan => Some("lt"@),
        BinaryOperator::StrictEqual => Some("eq"@),
        BinaryOperator::NotEqual => Some("neq"@),
        BinaryOperator::Add => Some("add"@),
        BinaryOperator::Mul => Some("mul"@),
        BinaryOperator::Div => Some("div"@),
        BinaryOperator::Sub => Some("sub"@),
        _ => None,
    }
}

/// The binary operator a compound assignment applies.
pub open spec fn compound_operator(op: AssignmentOperator) -> Option<BinaryOperator> {
    match op {
        AssignmentOperator::Assign => None,
        AssignmentOperator::AddAssign => Some(BinaryOperator::Add),
        AssignmentOperator::SubAssign => Some(BinaryOperator::Sub),
        AssignmentOperator::MulAssign => Some(BinaryOperator::Mul),
        AssignmentOperator::DivAssign => Some(BinaryOperator::Div),
        AssignmentOperator::ModAssign => Some(BinaryOperator::Mod),
    }
}

/// `f(l,r)` for the runtime function of `op` (its spelling when it has none).
pub open spec fn c_call_form(op: BinaryOperator, l: Seq<char>, r: Seq<char>) -> Seq<char> {
    let f = match c_function(op) {
        Some(f) => f,
        None => op.spelling(),
    };
    f + "("@ + l + ","@ + r + ")"@
}

/// An argument of a call: wrapped in `new(...)` unless the callee is a
/// runtime function.
pub open spec fn c_wrap(t: Seq<char>, plain: bool) -> Seq<char> {
    if plain {
        t
    } else {
        "new("@ + t + ")"@
    }
}

/// The C text of an expression.  A binary expression with a variable
/// operand becomes a runtime call, otherwise an infix expression; an
/// update becomes `increment(&x)` or `decrement(&x)`; an assignment stores
/// a boxed value, or the runtime call of a compound assignment.
pub open spec fn c_expr(e: Expression) -> Seq<char>
    decreases e,
{
    match e {
        Expression::BinaryExpression(b) => {
            let inner = if *b.left is Identifier || *b.right is Identifier {
                c_call_form(b.operator, c_expr(*b.left), c_expr(*b.right))
            } else {
                c_expr(*b.left) + b.operator.spelling() + c_expr(*b.right)
            };
            if b.parenthesized() {
                "("@ + inner + ")"@
            } else {
                inner
            }
        },
        Expression::UnaryExpression(u) => u.operator.spelling() + c_expr(*u.argument),
        Expression::NumericLiteral(n) => crate::text::decimal(n.value as int),
        Expression::StringLiteral(s) => "\""@ + s.value@ + "\""@,
        Expression::Identifier(id) => id.name@,
        Expression::UpdateExpression(u) => match *u.argument {
            Expression::Identifier(id) => match u.operator {
                UpdateOperator::Increment => "increment(&"@ + id.name@ + ")"@,
                UpdateOperator::Decrement => "decrement(&"@ + id.name@ + ")"@,
            },
            _ => Seq::empty(),
        },
        Expression::CallExpression(c) => {
            let name = callee_name(*c.callee);
            name + "("@ + c_args(c.arguments@, std_lib().contains(name)) + ")"@
        },
        Expression::AssignmentExpression(a) => match *a.left {
            Expression::Identifier(id) => id.name@ + "="@ + match compound_operator(a.operator) {
                None => "new("@ + c_expr(*a.right) + ")"@,
                Some(op) => c_call_form(op, id.name@, c_expr(*a.right)),
            },
            _ => Seq::empty(),
        },
        Expression::LogicalExpression(l) => c_expr(*l.left) + l.operator.spelling() + c_expr(*l.right),
        Expression::MemberExpression(m) => c_expr(*m.object) + c_expr(*m.property),
        Expression::ObjectExpression(_) => Seq::empty(),
    }
}

/// The arguments of a call, separated by commas.
pub open spec fn c_args(args: Seq<Box<Expression>>, plain: bool) -> Seq<char>
    decreases args,
{
    if args.len() == 0 {
        Seq::empty()
    } else {
        let init = c_args(args.subrange(0, args.len() - 1), plain);
        let sep = if args.len() > 1 {
            ","@
        } else {
            Seq::empty()
        };
        init + sep + c_wrap(c_expr(*args[args.len() - 1]), plain)
    }
}

/// Whether the generator lowers every construct of `e`.
pub open spec fn c_expr_ok(e: Expression) -> bool
    decreases e,
{
    match e {
        Expression::BinaryExpression(b) => c_expr_ok(*b.left) && c_expr_ok(*b.right) && ((*b.left is Identifier
            || *b.right is Identifier) ==> c_function(b.operator) is Some),
        Expression::UnaryExpression(u) => c_expr_ok(*u.argument),
        Expression::NumericLiteral(_) => true,
        Expression::StringLiteral(_) => true,
        Expression::Identifier(_) => true,
        Expression::UpdateExpression(u) => *u.argument is Identifier,
        Expression::CallExpression(c) => *c.callee is Identifier && c_args_ok(c.arguments@),
        Expression::AssignmentExpression(a) => *a.left is Identifier && c_expr_ok(*a.right) && match compound_operator(
            a.operator,
        ) {
            None => true,
            Some(op) => c_function(op) is Some,
        },
        Expression::LogicalExpression(l) => c_expr_ok(*l.left) && c_expr_ok(*l.right),
        Expression::MemberExpression(m) => c_expr_ok(*m.object) && c_expr_ok(*m.property),
        Expression::ObjectExpression(_) => false,
    }
}

pub open spec fn c_args_ok(args: Seq<Box<Expression>>) -> bool
    decreases args,
{
    if args.len() == 0 {
        true
    } else {
        c_args_ok(args.subrange(0, args.len() - 1)) && c_expr_ok(*args[args.len() - 1])
    }
}

/// The runtime function for `op`, if any.
pub fn bin_op_to_c(op: BinaryOperator) -> (r: Option<&'static str>)
    ensures
        match c_function(op) {
            Some(f) => r matches Some(s) && s@ == f,
            None => r is None,
        },
{
    match op {
        BinaryOperator::GreaterThan => Some("gt"),
        BinaryOperator::LessThan => Some("lt"),
        BinaryOperator::StrictEqual => Some("eq"),
        BinaryOperator::NotEqual => Some("neq"),
        BinaryOperator::Add => Some("add"),
        BinaryOperator::Mul => Some("mul"),
        BinaryOperator::Div => Some("div"),
        BinaryOperator::Sub => Some("sub"),
        _ => None,
    }
}

/// The binary operator a compound assignment applies; `None` for `=`.
pub fn assign_to_c(op: AssignmentOperator) -> (r: Option<BinaryOperator>)
    ensures
        r == compound_operator(op),
{
    match op {
        AssignmentOperator::Assign => None,
        AssignmentOperator::AddAssign => Some(BinaryOperator::Add),
        AssignmentOperator::SubAssign => Some(BinaryOperator::Sub),
        AssignmentOperator::MulAssign => Some(BinaryOperator::Mul),
        AssignmentOperator::DivAssign => Some(BinaryOperator::Div),
        AssignmentOperator::ModAssign => Some(BinaryOperator::Mod),
    }
}

/// The C text of an update of the variable `var`.
pub fn update_to_c(op: UpdateOperator, var: &str) -> (r: String)
    ensures
        r@ == match op {
            UpdateOperator::Increment => "increment(&"@ + var@ + ")"@,
            UpdateOperator::Decrement => "decrement(&"@ + var@ + ")"@,
        },
{
    let mut r = String::new();
    match op {
        UpdateOperator::Increment => push_str(&mut r, "increment(&"),
        UpdateOperator::Decrement => push_str(&mut r, "decrement(&"),
    }
    push_str(&mut r, var);
    push_str(&mut r, ")");
    r
}

/// Whether `name` is one of the runtime functions of `std_lib`.
pub fn is_std_lib(name: &str) -> (r: bool)
    ensures
        r == std_lib().contains(name@),
{
    let names: [&str; 6] = ["add", "mull", "div", "eq", "print", "sub"];
    let mut i: usize = 0;
    while i < 6
        invariant
            i <= 6,
            names@.map_values(|s: &str| s@) == std_lib(),
            forall|j: int| 0 <= j < i ==> std_lib()[j] != name@,
        decreases 6 - i,
    {
        assert(names@.map_values(|s: &str| s@)[i as int] == names@[i as int]@);
        if crate::text::str_eq(names[i], name) {
            assert(std_lib()[i as int] == name@);
            return true;
        }
        i = i + 1;
    }
    false
}

pub struct CWriter {
    pub out: String,
    /// The first construct met that could not be lowered.
    pub error: Option<CError>,
    /// The variables whose storage has been declared.
    pub materialized: Vec<String>,
}

impl CWriter {
    pub fn new() -> (r: CWriter)
        ensures
            r.out@.len() == 0,
            r.error is None,
            r.materialized@.len() == 0,
    {
        CWriter { out: String::new(), error: None, materialized: Vec::new() }
    }

    pub fn append(&mut self, word: &str)
        ensures
            final(self).out@ == old(self).out@ + word@,
            final(self).error == old(self).error,
            final(self).materialized == old(self).materialized,
    {
        push_str(&mut self.out, word);
    }

    fn fail(&mut self, e: CError)
        ensures
            final(self).out == old(self).out,
            final(self).error is Some,
            old(self).error is Some ==> final(self).error == old(self).error,
            final(self).materialized == old(self).materialized,
    {
        if self.error.is_none() {
            self.error = Some(e);
        }
    }
}

/// `after` is `before` with `text` written and an error recorded when, and
/// only when, one was recorded before or `ok` fails.
pub open spec fn emitted(before: CWriter, after: CWriter, text: Seq<char>, ok: bool) -> bool {
    &&& after.out@ == before.out@ + text
    &&& (after.error is Some <==> (before.error is Some || !ok))
    &&& (before.error is Some ==> after.error == before.error)
    &&& after.materialized == before.materialized
}

impl CWriter {
    pub fn visit_expression(&mut self, exp: &Expression)
        ensures
            emitted(*old(self), *final(self), c_expr(*exp), c_expr_ok(*exp)),
        decreases exp,
    {
        match exp {
            Expression::NumericLiteral(n) => {
                let t = number_to_string(n.value);
                self.append(t.as_str());
            },
            Expression::StringLiteral(s) => {
                self.append("\"");
                self.append(s.value.as_str());
                self.append("\"");
                assert(self.out@ =~= old(self).out@ + c_expr(*exp));
            },
            Expression::Identifier(id) => self.append(id.name.as_str()),
            Expression::UpdateExpression(u) => self.visit_update_expression(u),
            Expression::BinaryExpression(b) => self.visit_binary_expression(b),
            Expression::UnaryExpression(u) => self.visit_unary_expression(u),
            Expression::MemberExpression(m) => self.visit_member_expression(m),
            Expression::CallExpression(c) => self.visit_call_expression(c),
            Expression::AssignmentExpression(a) => self.visit_assign(a),
            Expression::LogicalExpression(l) => self.visit_logical_expression(l),
            Expression::ObjectExpression(_) => {
                self.fail(CError::UnsupportedObject);
                assert(self.out@ =~= old(self).out@ + c_expr(*exp));
            },
        }
    }

    /// Writes the runtime function of `op` (its spelling when it has none,
    /// recording the error).
    fn write_function_name(&mut self, op: BinaryOperator)
        ensures
            emitted(
                *old(self),
                *final(self),
                match c_function(op) {
                    Some(f) => f,
                    None => op.spelling(),
                },
                c_function(op) is Some,
            ),
    {
        match bin_op_to_c(op) {
            Some(f) => self.append(f),
            None => {
                self.append(op.as_str());
                self.fail(CError::UnsupportedOperator(op));
            },
        }
    }

    /// A binary expression with a variable operand becomes a runtime call,
    /// otherwise an infix expression.
    #[verifier::rlimit(40)]
    pub fn visit_binary_expression(&mut self, b: &BinaryExp)
        ensures
            emitted(
                *old(self),
                *final(self),
                c_expr(Expression::BinaryExpression(*b)),
                c_expr_ok(Expression::BinaryExpression(*b)),
            ),
        decreases b,
    {
        let paren = b.has_parenthesis();
        if paren {
            self.append("(");
        }
        let ghost mid = *self;
        if b.has_idendifier() {
            self.write_function_name(b.operator);
            self.append("(");
            self.visit_expression(&b.left);
            self.append(",");
            self.visit_expression(&b.right);
            self.append(")");
            assert(self.out@ =~= mid.out@ + c_call_form(b.operator, c_expr(*b.left), c_expr(*b.right)));
        } else {
            self.visit_expression(&b.left);
            self.append(b.operator.as_str());
            self.visit_expression(&b.right);
            assert(self.out@ =~= mid.out@ + (c_expr(*b.left) + b.operator.spelling() + c_expr(*b.right)));
        }
        if paren {
            self.append(")");
        }
        assert(self.out@ =~= old(self).out@ + c_expr(Expression::BinaryExpression(*b)));
    }

    /// `x = v` stores a boxed value; `x op= v` stores the runtime call of
    /// `op` on `x` and `v`.
    pub fn visit_assign(&mut self, a: &AssignmentExp)
        ensures
            emitted(
                *old(self),
                *final(self),
                c_expr(Expression::AssignmentExpression(*a)),
                c_expr_ok(Expression::AssignmentExpression(*a)),
            ),
        decreases a,
    {
        match &*a.left {
            Expression::Identifier(id) => {
                self.append(id.name.as_str());
                self.append("=");
                match assign_to_c(a.operator) {
                    None => {
                        self.append("new(");
                        self.visit_expression(&a.right);
                        self.append(")");
                    },
                    Some(op) => {
                        self.write_function_name(op);
                        self.append("(");
                        self.visit_expression(&a.left);
                        self.append(",");
                        self.visit_expression(&a.right);
                        self.append(")");
                    },
                }
                assert(self.out@ =~= old(self).out@ + c_expr(Expression::AssignmentExpression(*a)));
            },
            _ => {
                self.fail(CError::UnsupportedAssignment);
                assert(self.out@ =~= old(self).out@ + c_expr(Expression::AssignmentExpression(*a)));
            },
        }
    }

    pub fn visit_unary_expression(&mut self, u: &UnaryExp)
        ensures
            emitted(
                *old(self),
                *final(self),
                c_expr(Expression::UnaryExpression(*u)),
                c_expr_ok(Expression::UnaryExpression(*u)),
            ),
        decreases u,
    {
        self.append(u.operator.as_str());
        self.visit_expression(&u.argument);
        assert(self.out@ =~= old(self).out@ + c_expr(Expression::UnaryExpression(*u)));
    }

    pub fn visit_update_expression(&mut self, u: &UpdateExp)
        ensures
            emitted(
                *old(self),
                *final(self),
                c_expr(Expression::UpdateExpression(*u)),
                c_expr_ok(Expression::UpdateExpression(*u)),
            ),
    {
        match u.argument.try_as_identifier() {
            Some(id) => {
                let t = update_to_c(u.operator, id.name.as_str());
                self.append(t.as_str());
            },
            None => {
                self.fail(CError::UnsupportedUpdate);
                assert(self.out@ =~= old(self).out@ + c_expr(Expression::UpdateExpression(*u)));
            },
        }
    }

    pub fn visit_member_expression(&mut self, m: &MemberExp)
        ensures
            emitted(
                *old(self),
                *final(self),
                c_expr(Expression::MemberExpression(*m)),
                c_expr_ok(Expression::MemberExpression(*m)),
            ),
        decreases m,
    {
        self.visit_expression(&m.object);
        self.visit_expression(&m.property);
        assert(self.out@ =~= old(self).out@ + c_expr(Expression::MemberExpression(*m)));
    }

    pub fn visit_logical_expression(&mut self, l: &LogicalExp)
        ensures
            emitted(
                *old(self),
                *final(self),
                c_expr(Expression::LogicalExpression(*l)),
                c_expr_ok(Expression::LogicalExpression(*l)),
            ),
        decreases l,
    {
        self.visit_expression(&l.left);
        self.append(l.operator.as_str());
        self.visit_expression(&l.right);
        assert(self.out@ =~= old(self).out@ + c_expr(Expression::LogicalExpression(*l)));
    }

    /// A call to a runtime function passes its arguments as they are; a
    /// call to any other function boxes each argument with `new(...)`.
    pub fn visit_call_expression(&mut self, e: &CallExp)
        ensures
            emitted(
                *old(self),
                *final(self),
                c_expr(Expression::CallExpression(*e)),
                c_expr_ok(Expression::CallExpression(*e)),
            ),
        decreases e,
    {
        let mut standard_lib_call = false;
        match &*e.callee {
            Expression::Identifier(id) => {
                standard_lib_call = is_std_lib(id.name.as_str());
                self.append(id.name.as_str());
            },
            _ => {
                self.fail(CError::UnsupportedCallee);
                assert(callee_name(*e.callee) =~= Seq::<char>::empty());
                assert(!std_lib().contains(Seq::<char>::empty())) by {
                    assert(std_lib()[0] == "add"@);
                    reveal_strlit("add");
                    reveal_strlit("mull");
                    reveal_strlit("div");
                    reveal_strlit("eq");
                    reveal_strlit("print");
                    reveal_strlit("sub");
                    if std_lib().contains(Seq::<char>::empty()) {
                        let k = choose|k: int| 0 <= k < 6 && std_lib()[k] == Seq::<char>::empty();
                        assert(std_lib()[k].len() > 0);
                    }
                }
            },
        }
        let ghost start = self.out@;
        let ghost err0 = self.error;
        self.append("(");
        let mut i: usize = 0;
        assert(e.arguments@.subrange(0, 0) =~= Seq::<Box<Expression>>::empty());
        while i < e.arguments.len()
            invariant
                i <= e.arguments.len(),
                self.out@ == start + "("@ + c_args(
                    e.arguments@.subrange(0, i as int),
                    standard_lib_call,
                ),
                self.error is Some <==> (err0 is Some || !c_args_ok(
                    e.arguments@.subrange(0, i as int),
                )),
                err0 is Some ==> self.error == err0,
                self.materialized == old(self).materialized,
            decreases e.arguments.len() - i,
        {
            proof {
                let ee = *e;
                assert(decreases_to!(ee => ee.arguments));
                assert(decreases_to!(e.arguments => e.arguments[i as int]));
                let sub = e.arguments@.subrange(0, i + 1);
                assert(sub.subrange(0, i as int) =~= e.arguments@.subrange(0, i as int));
                assert(sub[i as int] == e.arguments@[i as int]);
            }
            if i > 0 {
                self.append(",");
            }
            if !standard_lib_call {
                self.append("new(");
            }
            self.visit_expression(&e.arguments[i]);
            if !standard_lib_call {
                self.append(")");
            }
            i = i + 1;
            assert(self.out@ =~= start + "("@ + c_args(e.arguments@.subrange(0, i as int), standard_lib_call));
        }
        self.append(")");
        assert(e.arguments@.subrange(0, i as int) =~= e.arguments@);
        assert(self.out@ =~= old(self).out@ + c_expr(Expression::CallExpression(*e)));
    }
}

/// The text of an initial value: a literal is boxed with `new(...)`.
pub open spec fn c_ref(init: Expression) -> Seq<char> {
    match init {
        Expression::StringLiteral(s) => "new(\""@ + s.value@ + "\")"@,
        Expression::NumericLiteral(n) => "new("@ + crate::text::decimal(n.value as int) + ")"@,
        _ => c_expr(init),
    }
}

pub open spec fn object_props(init: Expression) -> Seq<Box<Property>> {
    match init {
        Expression::ObjectExpression(o) => o.properties@,
        _ => Seq::empty(),
    }
}

/// A variable initialized with an object literal: a dictionary, then one
/// temporary per property (named by `temps`) added to it.
pub open spec fn c_object_declarator(v: Variable, mat: Set<Seq<char>>, temps: Seq<Seq<char>>) -> Seq<char> {
    let head = if mat.contains(v.id.name@) {
        v.id.name@
    } else {
        "databox "@ + v.id.name@
    };
    let props = match v.init {
        Some(e) => object_props(*e),
        None => Seq::empty(),
    };
    head + "="@ + "new_object();\n"@ + c_props(props, v.id.name@, temps) + ";"@
}

/// Names fit for the temporaries of `n` properties.
pub open spec fn temps_for(temps: Seq<Seq<char>>, n: nat) -> bool {
    &&& temps.len() == n
    &&& forall|k: int| 0 <= k < temps.len() ==> is_temp_name(#[trigger] temps[k])
}

/// The variables already declared, as a set of names.
pub open spec fn names_of(v: Seq<String>) -> Set<Seq<char>> {
    v.map_values(|s: String| s@).to_set()
}

/// A declarator whose variable is already declared assigns it; otherwise
/// it declares it, with its initial value when there is one.
pub open spec fn c_declarator(v: Variable, mat: Set<Seq<char>>) -> Seq<char> {
    let head = if mat.contains(v.id.name@) {
        v.id.name@
    } else {
        "databox "@ + v.id.name@
    };
    let init = match v.init {
        Some(e) => "="@ + c_ref(*e),
        None => Seq::empty(),
    };
    head + init + ";"@
}

pub open spec fn opt_expr(e: Option<Box<Expression>>) -> Seq<char> {
    match e {
        Some(x) => c_expr(*x),
        None => Seq::empty(),
    }
}

/// The text of a statement, given the variables declared so far, and the
/// variables declared after it.
pub open spec fn c_stmt(s: Statement, mat: Set<Seq<char>>) -> (Seq<char>, Set<Seq<char>>)
    decreases s,
{
    match s {
        Statement::BlockStatement(b) => c_list(b.body@, mat),
        Statement::VariableDeclaration(v) => c_decls(v.declarations@, mat),
        Statement::ExpressionStatement(e) => (c_expr(*e.expression) + ";"@, mat),
        Statement::WhileStatement(w) => {
            let body = c_stmt(*w.body, mat);
            ("while("@ + c_expr(*w.test) + "){"@ + body.0 + "}"@, body.1)
        },
        Statement::IfStatement(i) => {
            let cons = c_stmt(*i.consequent, mat);
            match i.alternate {
                Some(alt) => {
                    let a = c_stmt(*alt, cons.1);
                    (
                        "if("@ + c_expr(*i.test) + "){"@ + cons.0 + "}"@ + "else{"@ + a.0 + "}"@,
                        a.1,
                    )
                },
                None => ("if("@ + c_expr(*i.test) + "){"@ + cons.0 + "}"@, cons.1),
            }
        },
        Statement::SwitchStatement(sw) => {
            let cases = c_cases(sw.cases@, mat);
            ("switch ("@ + c_expr(*sw.discriminant) + "){"@ + cases.0 + "}"@, cases.1)
        },
        Statement::SwitchCase(c) => c_case(c, mat),
        Statement::ForStatement(f) => {
            let body = c_stmt(*f.body, mat);
            (
                opt_expr(f.init) + ";for(;"@ + opt_expr(f.test) + ";"@ + opt_expr(f.update) + "){\n"@
                    + body.0 + "}"@,
                body.1,
            )
        },
        Statement::BreakStatement(_) => ("break;"@, mat),
        Statement::ContinueStatement(_) => ("continue;"@, mat),
        Statement::ReturnStatement(r) => {
            let arg = match r.argument {
                Some(e) => if *e is NumericLiteral || *e is StringLiteral {
                    "new("@ + c_expr(*e) + ")"@
                } else {
                    c_expr(*e)
                },
                None => Seq::empty(),
            };
            ("return "@ + arg + ";"@, mat)
        },
        _ => (Seq::empty(), mat),
    }
}

pub open spec fn c_case(c: CaseStmt, mat: Set<Seq<char>>) -> (Seq<char>, Set<Seq<char>>)
    decreases c,
{
    let head = match c.test {
        Some(t) => "case "@ + c_expr(*t) + ":\n"@,
        None => "default:\n"@,
    };
    let body = c_list(c.consequent@, mat);
    (head + body.0 + "break;"@, body.1)
}

pub open spec fn c_list(ss: Seq<Box<Statement>>, mat: Set<Seq<char>>) -> (Seq<char>, Set<Seq<char>>)
    decreases ss,
{
    if ss.len() == 0 {
        (Seq::empty(), mat)
    } else {
        let init = c_list(ss.subrange(0, ss.len() - 1), mat);
        let last = c_stmt(*ss[ss.len() - 1], init.1);
        (init.0 + last.0, last.1)
    }
}

pub open spec fn c_cases(cs: Seq<Box<CaseStmt>>, mat: Set<Seq<char>>) -> (Seq<char>, Set<Seq<char>>)
    decreases cs,
{
    if cs.len() == 0 {
        (Seq::empty(), mat)
    } else {
        let init = c_cases(cs.subrange(0, cs.len() - 1), mat);
        let last = c_case(*cs[cs.len() - 1], init.1);
        (init.0 + last.0, last.1)
    }
}

/// The declarators of a declaration, one per line.
pub open spec fn c_decls(ds: Seq<Box<Statement>>, mat: Set<Seq<char>>) -> (Seq<char>, Set<Seq<char>>)
    decreases ds.len(),
{
    if ds.len() == 0 {
        (Seq::empty(), mat)
    } else {
        let init = c_decls(ds.subrange(0, ds.len() - 1), mat);
        match *ds[ds.len() - 1] {
            Statement::VariableDeclarator(v) => (
                init.0 + c_declarator(v, init.1) + "\n"@,
                init.1.insert(v.id.name@),
            ),
            _ => init,
        }
    }
}

pub open spec fn has_object_init(v: Variable) -> bool {
    v.init matches Some(e) && *e is ObjectExpression
}

/// No variable of `s` is initialized with an object literal.
pub open spec fn obj_free(s: Statement) -> bool
    decreases s,
{
    match s {
        Statement::BlockStatement(b) => obj_free_list(b.body@),
        Statement::VariableDeclaration(v) => obj_free_list(v.declarations@),
        Statement::VariableDeclarator(d) => !has_object_init(d),
        Statement::WhileStatement(w) => obj_free(*w.body),
        Statement::IfStatement(i) => obj_free(*i.consequent) && match i.alternate {
            Some(a) => obj_free(*a),
            None => true,
        },
        Statement::SwitchStatement(sw) => obj_free_cases(sw.cases@),
        Statement::SwitchCase(c) => obj_free_list(c.consequent@),
        Statement::ForStatement(f) => obj_free(*f.body),
        Statement::FunctionDeclaration(f) => obj_free_list(f.body.body@),
        _ => true,
    }
}

pub open spec fn obj_free_list(ss: Seq<Box<Statement>>) -> bool
    decreases ss,
{
    if ss.len() == 0 {
        true
    } else {
        obj_free_list(ss.subrange(0, ss.len() - 1)) && obj_free(*ss[ss.len() - 1])
    }
}

pub open spec fn obj_free_cases(cs: Seq<Box<CaseStmt>>) -> bool
    decreases cs,
{
    if cs.len() == 0 {
        true
    } else {
        obj_free_cases(cs.subrange(0, cs.len() - 1)) && obj_free_list(cs[cs.len() - 1].consequent@)
    }
}

/// `after` continues `before` with `text`, has the declared variables
/// `mat`, and keeps an error recorded earlier.
pub open spec fn wrote(before: CWriter, after: CWriter, text: Seq<char>, mat: Set<Seq<char>>) -> bool {
    &&& after.out@ == before.out@ + text
    &&& names_of(after.materialized@) == mat
    &&& (before.error is Some ==> after.error == before.error)
}

/// Whether a generated temporary name has the expected form: `A` then
/// seven ASCII letters or digits.
pub open spec fn is_temp_name(t: Seq<char>) -> bool {
    &&& t.len() == 8
    &&& t[0] == 'A'
    &&& forall|i: int| 1 <= i < 8 ==> is_alphanumeric(#[trigger] t[i])
}

pub open spec fn is_alphanumeric(c: char) -> bool {
    ('a' <= c <= 'z') || ('A' <= c <= 'Z') || ('0' <= c <= '9')
}

/// Relies on rand's `thread_rng` sampled with the `Alphanumeric`
/// distribution: it yields `n` characters, each an ASCII letter or digit.
#[verifier::external_body]
fn random_alphanumeric(n: usize) -> (r: Vec<char>)
    ensures
        r@.len() == n,
        forall|i: int| 0 <= i < n ==> is_alphanumeric(#[trigger] r@[i]),
{
    rand::thread_rng().sample_iter(&rand::distributions::Alphanumeric).take(n).collect()
}

/// A fresh random name for a temporary.
pub fn temp_name() -> (r: String)
    ensures
        is_temp_name(r@),
{
    let tail = random_alphanumeric(7);
    let mut r = String::new();
    push_char(&mut r, 'A');
    let mut i: usize = 0;
    while i < 7
        invariant
            i <= 7,
            tail@.len() == 7,
            forall|k: int| 0 <= k < 7 ==> is_alphanumeric(#[trigger] tail@[k]),
            r@ == seq!['A'] + tail@.subrange(0, i as int),
        decreases 7 - i,
    {
        push_char(&mut r, tail[i]);
        i = i + 1;
        assert(r@ =~= seq!['A'] + tail@.subrange(0, i as int));
    }
    assert(forall|k: int| 1 <= k < 8 ==> r@[k] == tail@[k - 1]);
    r
}

/// The text of one object property stored through the temporary `temp`
/// into the dictionary of `id`.
pub open spec fn c_property(id: Seq<char>, key: Seq<char>, value: Expression, temp: Seq<char>) -> Seq<char> {
    "databox "@ + temp + "="@ + c_ref(value) + ";\n"@ + "dictionary_add("@ + id + ".data.dict, \""@
        + key + "\" , &"@ + temp + ");\n"@
}

pub open spec fn property_key(k: Expression) -> Seq<char> {
    match k {
        Expression::Identifier(id) => id.name@,
        Expression::StringLiteral(s) => s.value@,
        _ => Seq::empty(),
    }
}

/// The properties of an object, each stored through its own temporary.
pub open spec fn c_props(ps: Seq<Box<Property>>, id: Seq<char>, temps: Seq<Seq<char>>) -> Seq<char>
    decreases ps.len(),
{
    if ps.len() == 0 {
        Seq::empty()
    } else {
        let n = ps.len() - 1;
        c_props(ps.subrange(0, n), id, temps) + c_property(
            id,
            property_key(*ps[n].key),
            *ps[n].value,
            temps[n],
        )
    }
}

pub open spec fn keeps_error(before: CWriter, after: CWriter) -> bool {
    before.error is Some ==> after.error == before.error
}

impl CWriter {
    /// Whether storage for `name` has been declared.
    fn is_materialized(&self, name: &String) -> (r: bool)
        ensures
            r == names_of(self.materialized@).contains(name@),
    {
        let mut i: usize = 0;
        while i < self.materialized.len()
            invariant
                i <= self.materialized.len(),
                forall|j: int| 0 <= j < i ==> (#[trigger] self.materialized@[j])@ != name@,
            decreases self.materialized.len() - i,
        {
            if self.materialized[i].eq(name) {
                proof {
                    let m = self.materialized@.map_values(|s: String| s@);
                    assert(m[i as int] == name@);
                    assert(m.contains(name@));
                }
                return true;
            }
            i = i + 1;
        }
        proof {
            let m = self.materialized@.map_values(|s: String| s@);
            if m.contains(name@) {
                let k = choose|k: int| 0 <= k < m.len() && m[k] == name@;
                assert(self.materialized@[k]@ == name@);
            }
        }
        false
    }

    /// Records that storage for `name` exists.
    fn materialize(&mut self, name: &String)
        ensures
            names_of(final(self).materialized@) == names_of(old(self).materialized@).insert(name@),
            final(self).out == old(self).out,
            final(self).error == old(self).error,
    {
        broadcast use vstd::seq_lib::group_seq_properties;
        let ghost before = self.materialized@;
        self.materialized.push(name.clone());
        assert(self.materialized@.map_values(|s: String| s@) =~= before.map_values(|s: String| s@).push(
            name@,
        ));
    }

    /// Writes the boxed form of an initial value; an object literal becomes
    /// a dictionary filled property by property.
    pub fn append_ref_as_databox(&mut self, init: &Expression, id: &String)
        ensures
            keeps_error(*old(self), *final(self)),
            !(*init is ObjectExpression) ==> (final(self).error is Some <==> (old(self).error is Some
                || !c_ref_ok(*init))),
            final(self).materialized == old(self).materialized,
            !(*init is ObjectExpression) ==> final(self).out@ == old(self).out@ + c_ref(*init),
            *init is ObjectExpression ==> exists|temps: Seq<Seq<char>>|
                temps_for(temps, object_props(*init).len()) && final(self).out@ == old(self).out@
                    + "new_object();\n"@ + c_props(object_props(*init), id@, temps),
        decreases init,
    {
        match init {
            Expression::StringLiteral(s) => {
                self.append("new(\"");
                self.append(s.value.as_str());
                self.append("\")");
                assert(self.out@ =~= old(self).out@ + c_ref(*init));
            },
            Expression::NumericLiteral(n) => {
                self.append("new(");
                let t = number_to_string(n.value);
                self.append(t.as_str());
                self.append(")");
                assert(self.out@ =~= old(self).out@ + c_ref(*init));
            },
            Expression::ObjectExpression(o) => {
                self.append("new_object();\n");
                let ghost mid = self.out@;
                self.visit_object_expression(o, id);
                proof {
                    let temps = choose|temps: Seq<Seq<char>>|
                        temps.len() == o.properties@.len() && (forall|k: int|
                            0 <= k < temps.len() ==> is_temp_name(#[trigger] temps[k])) && self.out@ == mid
                            + c_props(o.properties@, id@, temps);
                    assert(temps_for(temps, object_props(*init).len()));
                    assert(self.out@ =~= old(self).out@ + "new_object();\n"@ + c_props(object_props(*init), id@, temps));
                }
            },
            _ => {
                self.visit_expression(init);
            },
        }
    }

    /// Fills the dictionary `id` with the properties of `o`.
    pub fn visit_object_expression(&mut self, o: &ObjectExp, id: &String)
        ensures
            keeps_error(*old(self), *final(self)),
            final(self).materialized == old(self).materialized,
            exists|temps: Seq<Seq<char>>|
                temps.len() == o.properties@.len() && (forall|k: int|
                    0 <= k < temps.len() ==> is_temp_name(#[trigger] temps[k]))
                    && final(self).out@ == old(self).out@ + c_props(o.properties@, id@, temps),
        decreases o,
    {
        let ghost mut temps: Seq<Seq<char>> = Seq::empty();
        let mut i: usize = 0;
        assert(o.properties@.subrange(0, 0) =~= Seq::<Box<Property>>::empty());
        while i < o.properties.len()
            invariant
                i <= o.properties.len(),
                temps.len() == i,
                forall|k: int| 0 <= k < temps.len() ==> is_temp_name(#[trigger] temps[k]),
                self.out@ == old(self).out@ + c_props(o.properties@.subrange(0, i as int), id@, temps),
                keeps_error(*old(self), *self),
                self.materialized == old(self).materialized,
            decreases o.properties.len() - i,
        {
            proof {
                let oo = *o;
                assert(decreases_to!(oo => oo.properties));
                assert(decreases_to!(o.properties => o.properties[i as int]));
            }
            let temp = temp_name();
            let ghost before = self.out@;
            self.visit_property_expression(id, &o.properties[i], &temp);
            proof {
                let ghost old_temps = temps;
                temps = temps.push(temp@);
                let sub = o.properties@.subrange(0, i + 1);
                assert(sub.subrange(0, i as int) =~= o.properties@.subrange(0, i as int));
                assert(sub[i as int] == o.properties@[i as int]);
                lemma_c_props_temps(o.properties@.subrange(0, i as int), id@, old_temps, temps);
            }
            i = i + 1;
        }
        assert(o.properties@.subrange(0, i as int) =~= o.properties@);
    }

    /// Stores the value of property `p` in a temporary named `temp` and
    /// adds it to the dictionary `id` under the property's key.
    pub fn visit_property_expression(&mut self, id: &String, p: &Property, temp: &String)
        ensures
            keeps_error(*old(self), *final(self)),
            final(self).materialized == old(self).materialized,
            final(self).out@ == old(self).out@ + c_property(id@, property_key(*p.key), *p.value, temp@),
        decreases p,
    {
        self.append("databox ");
        self.append(temp.as_str());
        self.append("=");
        match &*p.value {
            Expression::ObjectExpression(_) => {
                self.fail(CError::UnsupportedObject);
            },
            _ => {
                self.append_ref_as_databox(&p.value, id);
            },
        }
        self.append(";\n");
        self.append("dictionary_add(");
        self.append(id.as_str());
        self.append(".data.dict, \"");
        match &*p.key {
            Expression::Identifier(k) => self.append(k.name.as_str()),
            Expression::StringLiteral(k) => self.append(k.value.as_str()),
            _ => self.fail(CError::UnsupportedPropertyKey),
        }
        self.append("\" , &");
        self.append(temp.as_str());
        self.append(");\n");
        assert(self.out@ =~= old(self).out@ + c_property(id@, property_key(*p.key), *p.value, temp@));
    }
}

proof fn lemma_c_props_temps(ps: Seq<Box<Property>>, id: Seq<char>, t1: Seq<Seq<char>>, t2: Seq<Seq<char>>)
    requires
        ps.len() <= t1.len(),
        t1.len() <= t2.len(),
        forall|k: int| 0 <= k < t1.len() ==> t1[k] == t2[k],
    ensures
        c_props(ps, id, t1) == c_props(ps, id, t2),
    decreases ps.len(),
{
    if ps.len() > 0 {
        lemma_c_props_temps(ps.subrange(0, ps.len() - 1), id, t1, t2);
    }
}

/// The initial value of a variable is lowered without error.
pub open spec fn c_ref_ok(init: Expression) -> bool {
    match init {
        Expression::StringLiteral(_) => true,
        Expression::NumericLiteral(_) => true,
        _ => c_expr_ok(init),
    }
}

/// Every expression of `s` is lowered without error.
pub open spec fn c_stmt_ok(s: Statement) -> bool
    decreases s,
{
    match s {
        Statement::BlockStatement(b) => c_list_ok(b.body@),
        Statement::VariableDeclaration(v) => c_list_ok(v.declarations@),
        Statement::VariableDeclarator(d) => match d.init {
            Some(e) => c_ref_ok(*e),
            None => true,
        },
        Statement::ExpressionStatement(e) => c_expr_ok(*e.expression),
        Statement::WhileStatement(w) => c_expr_ok(*w.test) && c_stmt_ok(*w.body),
        Statement::IfStatement(i) => c_expr_ok(*i.test) && c_stmt_ok(*i.consequent) && match i.alternate {
            Some(a) => c_stmt_ok(*a),
            None => true,
        },
        Statement::SwitchStatement(sw) => c_expr_ok(*sw.discriminant) && c_cases_ok(sw.cases@),
        Statement::SwitchCase(c) => opt_ok(c.test) && c_list_ok(c.consequent@),
        Statement::ForStatement(f) => opt_ok(f.init) && opt_ok(f.test) && opt_ok(f.update) && c_stmt_ok(
            *f.body,
        ),
        Statement::ReturnStatement(r) => opt_ok(r.argument),
        Statement::FunctionDeclaration(f) => c_list_ok(f.body.body@),
        _ => true,
    }
}

pub open spec fn c_list_ok(ss: Seq<Box<Statement>>) -> bool
    decreases ss,
{
    if ss.len() == 0 {
        true
    } else {
        c_list_ok(ss.subrange(0, ss.len() - 1)) && c_stmt_ok(*ss[ss.len() - 1])
    }
}

pub open spec fn c_cases_ok(cs: Seq<Box<CaseStmt>>) -> bool
    decreases cs,
{
    if cs.len() == 0 {
        true
    } else {
        c_cases_ok(cs.subrange(0, cs.len() - 1)) && opt_ok(cs[cs.len() - 1].test) && c_list_ok(
            cs[cs.len() - 1].consequent@,
        )
    }
}

pub open spec fn stmt_done(before: CWriter, after: CWriter, s: Statement) -> bool {
    let r = c_stmt(s, names_of(before.materialized@));
    &&& keeps_error(before, after)
    &&& obj_free(s) ==> wrote(before, after, r.0, r.1)
    &&& before.error is None && obj_free(s) && c_stmt_ok(s) ==> after.error is None
}

pub open spec fn list_done(before: CWriter, after: CWriter, ss: Seq<Box<Statement>>) -> bool {
    let r = c_list(ss, names_of(before.materialized@));
    &&& keeps_error(before, after)
    &&& obj_free_list(ss) ==> wrote(before, after, r.0, r.1)
    &&& before.error is None && obj_free_list(ss) && c_list_ok(ss) ==> after.error is None
}

pub open spec fn opt_ok(e: Option<Box<Expression>>) -> bool {
    match e {
        Some(x) => c_expr_ok(*x),
        None => true,
    }
}

/// The parameters of a function, each declared as a boxed value.
pub open spec fn c_params(ps: Seq<crate::ast::Id>) -> Seq<char>
    decreases ps.len(),
{
    if ps.len() == 0 {
        Seq::empty()
    } else {
        let init = c_params(ps.subrange(0, ps.len() - 1));
        let sep = if ps.len() > 1 {
            ","@
        } else {
            Seq::empty()
        };
        init + sep + "databox "@ + ps[ps.len() - 1].name@
    }
}

/// A function returning a boxed value (without the leading `databox `).
pub open spec fn c_function_dec(f: FunctionDec, mat: Set<Seq<char>>) -> (Seq<char>, Set<Seq<char>>) {
    let body = c_list(f.body.body@, mat);
    (f.id.name@ + "("@ + c_params(f.params@) + "){\n"@ + body.0 + "}"@, body.1)
}

proof fn lemma_wrote_trans(a: CWriter, b: CWriter, c: CWriter, t1: Seq<char>, m1: Set<Seq<char>>, t2: Seq<char>, m2: Set<Seq<char>>)
    requires
        wrote(a, b, t1, m1),
        wrote(b, c, t2, m2),
    ensures
        wrote(a, c, t1 + t2, m2),
{
    assert(a.out@ + t1 + t2 =~= a.out@ + (t1 + t2));
}

impl CWriter {
    pub fn visit_statement(&mut self, s: &Statement)
        ensures
            stmt_done(*old(self), *final(self), *s),
        decreases s,
    {
        match s {
            Statement::BlockStatement(b) => self.visit_block_statement(b),
            Statement::VariableDeclaration(v) => self.visit_variable_declaration(v),
            Statement::ExpressionStatement(e) => {
                self.visit_expression(&e.expression);
                self.append(";");
                assert(self.out@ =~= old(self).out@ + c_stmt(*s, names_of(old(self).materialized@)).0);
            },
            Statement::WhileStatement(w) => self.visit_while_statement(w),
            Statement::IfStatement(i) => self.visit_if_statement(i),
            Statement::SwitchStatement(sw) => self.visit_switch_statement(sw),
            Statement::ForStatement(f) => self.visit_for_statement(f),
            Statement::BreakStatement(_) => self.append("break;"),
            Statement::ContinueStatement(_) => self.append("continue;"),
            Statement::ReturnStatement(r) => self.visit_return_statement(r),
            Statement::SwitchCase(c) => self.visit_case(c),
            _ => {
                assert(self.out@ =~= old(self).out@ + Seq::<char>::empty());
            },
        }
    }

    /// The statements of a list, one after another.
    fn visit_list(&mut self, statements: &Vec<Box<Statement>>)
        ensures
            list_done(*old(self), *final(self), statements@),
        decreases statements,
    {
        let ghost m0 = names_of(self.materialized@);
        let mut i: usize = 0;
        assert(statements@.subrange(0, 0) =~= Seq::<Box<Statement>>::empty());
        assert(self.out@ =~= old(self).out@ + Seq::<char>::empty());
        while i < statements.len()
            invariant
                i <= statements.len(),
                m0 == names_of(old(self).materialized@),
                keeps_error(*old(self), *self),
                old(self).error is None && obj_free_list(statements@.subrange(0, i as int)) && c_list_ok(
                    statements@.subrange(0, i as int),
                ) ==> self.error is None,
                obj_free_list(statements@.subrange(0, i as int)) ==> wrote(
                    *old(self),
                    *self,
                    c_list(statements@.subrange(0, i as int), m0).0,
                    c_list(statements@.subrange(0, i as int), m0).1,
                ),
            decreases statements.len() - i,
        {
            let ghost mid = *self;
            proof {
                assert(decreases_to!(statements => statements[i as int]));
                let sub = statements@.subrange(0, i + 1);
                assert(sub.subrange(0, i as int) =~= statements@.subrange(0, i as int));
                assert(sub[i as int] == statements@[i as int]);
            }
            self.visit_statement(&statements[i]);
            proof {
                if obj_free_list(statements@.subrange(0, i + 1)) {
                    let pre = c_list(statements@.subrange(0, i as int), m0);
                    let st = c_stmt(*statements@[i as int], pre.1);
                    lemma_wrote_trans(*old(self), mid, *self, pre.0, pre.1, st.0, st.1);
                }
            }
            i = i + 1;
        }
        assert(statements@.subrange(0, i as int) =~= statements@);
    }

    pub fn visit_block_statement(&mut self, s: &BlockStmt)
        ensures
            stmt_done(*old(self), *final(self), Statement::BlockStatement(*s)),
        decreases s,
    {
        self.visit_list(&s.body);
    }

    /// Declares (or assigns, when already declared) one variable.
    pub fn visit_variable_declarator(&mut self, v: &Variable)
        ensures
            keeps_error(*old(self), *final(self)),
            old(self).error is None && !has_object_init(*v) && c_stmt_ok(Statement::VariableDeclarator(*v))
                ==> final(self).error is None,
            has_object_init(*v) ==> names_of(final(self).materialized@) == names_of(
                old(self).materialized@,
            ).insert(v.id.name@) && exists|temps: Seq<Seq<char>>|
                temps_for(temps, object_props(*v.init->Some_0).len()) && final(self).out@ == old(self).out@
                    + c_object_declarator(*v, names_of(old(self).materialized@), temps),
            !has_object_init(*v) ==> wrote(
                *old(self),
                *final(self),
                c_declarator(*v, names_of(old(self).materialized@)),
                names_of(old(self).materialized@).insert(v.id.name@),
            ),
        decreases v,
    {
        let known = self.is_materialized(&v.id.name);
        if !known {
            self.append("databox ");
        }
        self.append(v.id.name.as_str());
        match &v.init {
            Some(init) => {
                self.append("=");
                let ghost eq = self.out@;
                self.append_ref_as_databox(init, &v.id.name);
                proof {
                    if has_object_init(*v) {
                        let temps = choose|temps: Seq<Seq<char>>|
                            temps_for(temps, object_props(**init).len()) && self.out@ == eq + "new_object();\n"@
                                + c_props(object_props(**init), v.id.name@, temps);
                        assert(self.out@ + ";"@ =~= old(self).out@ + c_object_declarator(
                            *v,
                            names_of(old(self).materialized@),
                            temps,
                        ));
                    }
                }
            },
            None => {},
        }
        self.append(";");
        proof {
            if !has_object_init(*v) {
                assert(self.out@ =~= old(self).out@ + c_declarator(
                    *v,
                    names_of(old(self).materialized@),
                ));
            }
        }
        if !known {
            self.materialize(&v.id.name);
        } else {
            assert(names_of(self.materialized@).insert(v.id.name@) =~= names_of(self.materialized@));
        }
    }

    pub fn visit_variable_declaration(&mut self, v: &VariableDec)
        ensures
            stmt_done(*old(self), *final(self), Statement::VariableDeclaration(*v)),
        decreases v,
    {
        let ghost m0 = names_of(self.materialized@);
        let ds = &v.declarations;
        let mut i: usize = 0;
        assert(ds@.subrange(0, 0) =~= Seq::<Box<Statement>>::empty());
        assert(self.out@ =~= old(self).out@ + Seq::<char>::empty());
        while i < ds.len()
            invariant
                i <= ds.len(),
                ds == v.declarations,
                m0 == names_of(old(self).materialized@),
                keeps_error(*old(self), *self),
                old(self).error is None && obj_free_list(ds@.subrange(0, i as int)) && c_list_ok(
                    ds@.subrange(0, i as int),
                ) ==> self.error is None,
                obj_free_list(ds@.subrange(0, i as int)) ==> wrote(
                    *old(self),
                    *self,
                    c_decls(ds@.subrange(0, i as int), m0).0,
                    c_decls(ds@.subrange(0, i as int), m0).1,
                ),
            decreases ds.len() - i,
        {
            let ghost mid = *self;
            proof {
                let vv = *v;
                assert(decreases_to!(vv => vv.declarations));
                assert(decreases_to!(ds => ds[i as int]));
                let sub = ds@.subrange(0, i + 1);
                assert(sub.subrange(0, i as int) =~= ds@.subrange(0, i as int));
                assert(sub[i as int] == ds@[i as int]);
            }
            match &*ds[i] {
                Statement::VariableDeclarator(d) => {
                    self.visit_variable_declarator(d);
                    self.append("\n");
                    proof {
                        assert(*ds@[i as int] == Statement::VariableDeclarator(*d));
                        if obj_free_list(ds@.subrange(0, i + 1)) {
                            let pre = c_decls(ds@.subrange(0, i as int), m0);
                            assert(obj_free_list(ds@.subrange(0, i as int)));
                            assert(obj_free(*ds@[i as int]));
                            assert(!has_object_init(*d));
                            assert(names_of(mid.materialized@) == pre.1);
                            assert(c_decls(ds@.subrange(0, i + 1), m0) == (
                                pre.0 + c_declarator(*d, pre.1) + "\n"@,
                                pre.1.insert(d.id.name@),
                            ));
                            assert(self.out@ =~= old(self).out@ + c_decls(ds@.subrange(0, i + 1), m0).0);
                        }
                    }
                },
                _ => {},
            }
            i = i + 1;
        }
        assert(ds@.subrange(0, i as int) =~= ds@);
    }

    pub fn visit_while_statement(&mut self, w: &WhileStmt)
        ensures
            stmt_done(*old(self), *final(self), Statement::WhileStatement(*w)),
        decreases w,
    {
        self.append("while(");
        self.visit_expression(&w.test);
        self.append("){");
        self.visit_statement(&w.body);
        self.append("}");
        proof {
            if obj_free(Statement::WhileStatement(*w)) {
                assert(self.out@ =~= old(self).out@ + c_stmt(
                    Statement::WhileStatement(*w),
                    names_of(old(self).materialized@),
                ).0);
            }
        }
    }

    pub fn visit_if_statement(&mut self, i: &IfStmt)
        ensures
            stmt_done(*old(self), *final(self), Statement::IfStatement(*i)),
        decreases i,
    {
        self.append("if(");
        self.visit_expression(&i.test);
        self.append("){");
        self.visit_statement(&i.consequent);
        self.append("}");
        if let Some(alternate) = &i.alternate {
            self.append("else{");
            self.visit_statement(alternate);
            self.append("}");
        }
        proof {
            if obj_free(Statement::IfStatement(*i)) {
                assert(self.out@ =~= old(self).out@ + c_stmt(
                    Statement::IfStatement(*i),
                    names_of(old(self).materialized@),
                ).0);
            }
        }
    }

    pub fn visit_switch_statement(&mut self, s: &SwitchStmt)
        ensures
            stmt_done(*old(self), *final(self), Statement::SwitchStatement(*s)),
        decreases s,
    {
        self.append("switch (");
        self.visit_expression(&s.discriminant);
        self.append("){");
        let ghost start = *self;
        let ghost m0 = names_of(self.materialized@);
        let mut i: usize = 0;
        assert(s.cases@.subrange(0, 0) =~= Seq::<Box<CaseStmt>>::empty());
        assert(self.out@ =~= start.out@ + Seq::<char>::empty());
        while i < s.cases.len()
            invariant
                i <= s.cases.len(),
                m0 == names_of(start.materialized@),
                keeps_error(*old(self), start),
                keeps_error(start, *self),
                start.error is None && obj_free_cases(s.cases@.subrange(0, i as int)) && c_cases_ok(
                    s.cases@.subrange(0, i as int),
                ) ==> self.error is None,
                obj_free_cases(s.cases@.subrange(0, i as int)) ==> wrote(
                    start,
                    *self,
                    c_cases(s.cases@.subrange(0, i as int), m0).0,
                    c_cases(s.cases@.subrange(0, i as int), m0).1,
                ),
            decreases s.cases.len() - i,
        {
            let ghost mid = *self;
            proof {
                let ss = *s;
                assert(decreases_to!(ss => ss.cases));
                assert(decreases_to!(s.cases => s.cases[i as int]));
                let sub = s.cases@.subrange(0, i + 1);
                assert(sub.subrange(0, i as int) =~= s.cases@.subrange(0, i as int));
                assert(sub[i as int] == s.cases@[i as int]);
            }
            self.visit_case(&s.cases[i]);
            proof {
                if obj_free_cases(s.cases@.subrange(0, i + 1)) {
                    let pre = c_cases(s.cases@.subrange(0, i as int), m0);
                    let st = c_case(*s.cases@[i as int], pre.1);
                    assert(obj_free(Statement::SwitchCase(*s.cases@[i as int])));
                    lemma_wrote_trans(start, mid, *self, pre.0, pre.1, st.0, st.1);
                }
            }
            i = i + 1;
        }
        assert(s.cases@.subrange(0, i as int) =~= s.cases@);
        self.append("}");
        proof {
            if obj_free(Statement::SwitchStatement(*s)) {
                assert(self.out@ =~= old(self).out@ + c_stmt(
                    Statement::SwitchStatement(*s),
                    names_of(old(self).materialized@),
                ).0);
            }
        }
    }

    pub fn visit_case(&mut self, case: &CaseStmt)
        ensures
            stmt_done(*old(self), *final(self), Statement::SwitchCase(*case)),
        decreases case,
    {
        match &case.test {
            Some(test) => {
                self.append("case ");
                self.visit_expression(test);
                self.append(":\n");
            },
            None => self.append("default:\n"),
        }
        let ghost mid = *self;
        self.visit_list(&case.consequent);
        self.append("break;");
        proof {
            let m = names_of(old(self).materialized@);
            assert(c_stmt(Statement::SwitchCase(*case), m) == c_case(*case, m));
            assert(names_of(mid.materialized@) == m);
            if obj_free(Statement::SwitchCase(*case)) {
                assert(obj_free_list(case.consequent@));
                assert(self.out@ =~= old(self).out@ + c_stmt(
                    Statement::SwitchCase(*case),
                    names_of(old(self).materialized@),
                ).0);
            }
        }
    }

    pub fn visit_option_expression(&mut self, exp: &Option<Box<Expression>>)
        ensures
            emitted(*old(self), *final(self), opt_expr(*exp), opt_ok(*exp)),
        decreases exp,
    {
        match exp {
            Some(e) => self.visit_expression(e),
            None => {
                assert(self.out@ =~= old(self).out@ + Seq::<char>::empty());
            },
        }
    }

    pub fn visit_for_statement(&mut self, f: &ForStmt)
        ensures
            stmt_done(*old(self), *final(self), Statement::ForStatement(*f)),
        decreases f,
    {
        self.visit_option_expression(&f.init);
        self.append(";for(;");
        self.visit_option_expression(&f.test);
        self.append(";");
        self.visit_option_expression(&f.update);
        self.append("){\n");
        self.visit_statement(&f.body);
        self.append("}");
        proof {
            if obj_free(Statement::ForStatement(*f)) {
                assert(self.out@ =~= old(self).out@ + c_stmt(
                    Statement::ForStatement(*f),
                    names_of(old(self).materialized@),
                ).0);
            }
        }
    }

    /// A literal result is boxed with `new(...)`.
    pub fn visit_return_statement(&mut self, r: &ReturnStmt)
        ensures
            stmt_done(*old(self), *final(self), Statement::ReturnStatement(*r)),
    {
        self.append("return ");
        match &r.argument {
            Some(e) => {
                match &**e {
                    Expression::NumericLiteral(_) | Expression::StringLiteral(_) => {
                        self.append("new(");
                        self.visit_expression(e);
                        self.append(")");
                    },
                    _ => self.visit_expression(e),
                }
            },
            None => {},
        }
        self.append(";");
        assert(self.out@ =~= old(self).out@ + c_stmt(
            Statement::ReturnStatement(*r),
            names_of(old(self).materialized@),
        ).0);
    }

    /// `name(databox a,databox b){ body }`.
    pub fn visit_function_declaration(&mut self, f: &FunctionDec)
        ensures
            keeps_error(*old(self), *final(self)),
            old(self).error is None && obj_free_list(f.body.body@) && c_list_ok(f.body.body@) ==> final(self).error is None,
            obj_free_list(f.body.body@) ==> wrote(
                *old(self),
                *final(self),
                c_function_dec(*f, names_of(old(self).materialized@)).0,
                c_function_dec(*f, names_of(old(self).materialized@)).1,
            ),
        decreases f,
    {
        self.append(f.id.name.as_str());
        self.append("(");
        let ghost start = self.out@;
        let mut i: usize = 0;
        assert(f.params@.subrange(0, 0) =~= Seq::<crate::ast::Id>::empty());
        while i < f.params.len()
            invariant
                i <= f.params.len(),
                self.out@ == start + c_params(f.params@.subrange(0, i as int)),
                self.error == old(self).error,
                self.materialized == old(self).materialized,
            decreases f.params.len() - i,
        {
            if i > 0 {
                self.append(",");
            }
            self.append("databox ");
            self.append(f.params[i].name.as_str());
            i = i + 1;
            let ghost sub = f.params@.subrange(0, i as int);
            assert(sub.subrange(0, i - 1) =~= f.params@.subrange(0, i - 1));
            assert(self.out@ =~= start + c_params(sub));
        }
        assert(f.params@.subrange(0, i as int) =~= f.params@);
        self.append("){\n");
        self.visit_list(&f.body.body);
        self.append("}");
        proof {
            if obj_free_list(f.body.body@) {
                assert(self.out@ =~= old(self).out@ + c_function_dec(
                    *f,
                    names_of(old(self).materialized@),
                ).0);
            }
        }
    }
}

/// The storage a global declaration declares (variables not yet declared).
pub open spec fn c_global_decls(ds: Seq<Box<Statement>>, mat: Set<Seq<char>>) -> (Seq<char>, Set<Seq<char>>)
    decreases ds.len(),
{
    if ds.len() == 0 {
        (Seq::empty(), mat)
    } else {
        let init = c_global_decls(ds.subrange(0, ds.len() - 1), mat);
        match *ds[ds.len() - 1] {
            Statement::VariableDeclarator(v) => if init.1.contains(v.id.name@) {
                init
            } else {
                (init.0 + "databox "@ + v.id.name@ + ";\n"@, init.1.insert(v.id.name@))
            },
            _ => init,
        }
    }
}

/// The storage of every top-level variable.
pub open spec fn c_globals(ss: Seq<Box<Statement>>, mat: Set<Seq<char>>) -> (Seq<char>, Set<Seq<char>>)
    decreases ss.len(),
{
    if ss.len() == 0 {
        (Seq::empty(), mat)
    } else {
        let init = c_globals(ss.subrange(0, ss.len() - 1), mat);
        match *ss[ss.len() - 1] {
            Statement::VariableDeclaration(v) => {
                let g = c_global_decls(v.declarations@, init.1);
                (init.0 + g.0, g.1)
            },
            _ => init,
        }
    }
}

/// Every top-level function.
pub open spec fn c_functions(ss: Seq<Box<Statement>>, mat: Set<Seq<char>>) -> (Seq<char>, Set<Seq<char>>)
    decreases ss.len(),
{
    if ss.len() == 0 {
        (Seq::empty(), mat)
    } else {
        let init = c_functions(ss.subrange(0, ss.len() - 1), mat);
        match *ss[ss.len() - 1] {
            Statement::FunctionDeclaration(f) => {
                let d = c_function_dec(f, init.1);
                (init.0 + "databox "@ + d.0, d.1)
            },
            _ => init,
        }
    }
}

pub open spec fn c_includes() -> Seq<char> {
    "#include \"print.h\"\n#include \"databox.h\"\n"@
}

/// A whole program: the runtime headers, the storage of the top-level
/// variables, the functions, then a `main` running the top-level
/// statements.
pub open spec fn c_program(root: Seq<Box<Statement>>, mat: Set<Seq<char>>) -> Seq<char> {
    let g = c_globals(root, mat);
    let f = c_functions(root, g.1);
    let m = c_list(root, f.1);
    c_includes() + g.0 + f.0 + "\nint main() {\n"@ + m.0 + "\nreturn 0;"@ + "\n}"@
}

impl CWriter {
    fn visit_global_declaration(&mut self, v: &VariableDec)
        ensures
            wrote(
                *old(self),
                *final(self),
                c_global_decls(v.declarations@, names_of(old(self).materialized@)).0,
                c_global_decls(v.declarations@, names_of(old(self).materialized@)).1,
            ),
            final(self).error == old(self).error,
    {
        let ghost m0 = names_of(self.materialized@);
        let ds = &v.declarations;
        let mut i: usize = 0;
        assert(ds@.subrange(0, 0) =~= Seq::<Box<Statement>>::empty());
        assert(self.out@ =~= old(self).out@ + Seq::<char>::empty());
        while i < ds.len()
            invariant
                i <= ds.len(),
                m0 == names_of(old(self).materialized@),
                self.error == old(self).error,
                wrote(
                    *old(self),
                    *self,
                    c_global_decls(ds@.subrange(0, i as int), m0).0,
                    c_global_decls(ds@.subrange(0, i as int), m0).1,
                ),
            decreases ds.len() - i,
        {
            let ghost sub = ds@.subrange(0, i + 1);
            assert(sub.subrange(0, i as int) =~= ds@.subrange(0, i as int));
            assert(sub[i as int] == ds@[i as int]);
            match &*ds[i] {
                Statement::VariableDeclarator(d) => {
                    assert(*ds@[i as int] == Statement::VariableDeclarator(*d));
                    if !self.is_materialized(&d.id.name) {
                        self.append("databox ");
                        self.append(d.id.name.as_str());
                        self.append(";\n");
                        self.materialize(&d.id.name);
                        assert(self.out@ =~= old(self).out@ + c_global_decls(sub, m0).0);
                    }
                },
                _ => {},
            }
            i = i + 1;
        }
        assert(ds@.subrange(0, i as int) =~= ds@);
    }

    /// Declares the storage of the top-level variables.
    fn visit_global_vars(&mut self, nodes: &Vec<Box<Statement>>)
        ensures
            wrote(
                *old(self),
                *final(self),
                c_globals(nodes@, names_of(old(self).materialized@)).0,
                c_globals(nodes@, names_of(old(self).materialized@)).1,
            ),
            final(self).error == old(self).error,
    {
        let ghost m0 = names_of(self.materialized@);
        let mut i: usize = 0;
        assert(nodes@.subrange(0, 0) =~= Seq::<Box<Statement>>::empty());
        assert(self.out@ =~= old(self).out@ + Seq::<char>::empty());
        while i < nodes.len()
            invariant
                i <= nodes.len(),
                m0 == names_of(old(self).materialized@),
                self.error == old(self).error,
                wrote(
                    *old(self),
                    *self,
                    c_globals(nodes@.subrange(0, i as int), m0).0,
                    c_globals(nodes@.subrange(0, i as int), m0).1,
                ),
            decreases nodes.len() - i,
        {
            let ghost sub = nodes@.subrange(0, i + 1);
            assert(sub.subrange(0, i as int) =~= nodes@.subrange(0, i as int));
            assert(sub[i as int] == nodes@[i as int]);
            match &*nodes[i] {
                Statement::VariableDeclaration(v) => {
                    assert(*nodes@[i as int] == Statement::VariableDeclaration(*v));
                    self.visit_global_declaration(v);
                    assert(self.out@ =~= old(self).out@ + c_globals(sub, m0).0);
                },
                _ => {},
            }
            i = i + 1;
        }
        assert(nodes@.subrange(0, i as int) =~= nodes@);
    }

    /// Writes every top-level function, returning a boxed value.
    fn visit_function_declarations(&mut self, nodes: &Vec<Box<Statement>>)
        ensures
            keeps_error(*old(self), *final(self)),
            old(self).error is None && obj_free_list(nodes@) && c_list_ok(nodes@) ==> final(self).error is None,
            obj_free_list(nodes@) ==> wrote(
                *old(self),
                *final(self),
                c_functions(nodes@, names_of(old(self).materialized@)).0,
                c_functions(nodes@, names_of(old(self).materialized@)).1,
            ),
    {
        let ghost m0 = names_of(self.materialized@);
        let mut i: usize = 0;
        assert(nodes@.subrange(0, 0) =~= Seq::<Box<Statement>>::empty());
        assert(self.out@ =~= old(self).out@ + Seq::<char>::empty());
        while i < nodes.len()
            invariant
                i <= nodes.len(),
                m0 == names_of(old(self).materialized@),
                keeps_error(*old(self), *self),
                old(self).error is None && obj_free_list(nodes@.subrange(0, i as int)) && c_list_ok(
                    nodes@.subrange(0, i as int),
                ) ==> self.error is None,
                obj_free_list(nodes@.subrange(0, i as int)) ==> wrote(
                    *old(self),
                    *self,
                    c_functions(nodes@.subrange(0, i as int), m0).0,
                    c_functions(nodes@.subrange(0, i as int), m0).1,
                ),
            decreases nodes.len() - i,
        {
            let ghost sub = nodes@.subrange(0, i + 1);
            assert(sub.subrange(0, i as int) =~= nodes@.subrange(0, i as int));
            assert(sub[i as int] == nodes@[i as int]);
            match &*nodes[i] {
                Statement::FunctionDeclaration(f) => {
                    assert(*nodes@[i as int] == Statement::FunctionDeclaration(*f));
                    self.append("databox ");
                    proof {
                        if c_list_ok(sub) {
                            assert(c_list_ok(nodes@.subrange(0, i as int)));
                            assert(c_stmt_ok(*nodes@[i as int]));
                            assert(c_list_ok(f.body.body@));
                        }
                        if obj_free_list(sub) {
                            assert(obj_free(*nodes@[i as int]));
                        }
                    }
                    self.visit_function_declaration(f);
                    proof {
                        if obj_free_list(sub) {
                            assert(obj_free_list(nodes@.subrange(0, i as int)));
                            assert(obj_free(*nodes@[i as int]));
                            assert(self.out@ =~= old(self).out@ + c_functions(sub, m0).0);
                        }
                    }
                },
                _ => {},
            }
            i = i + 1;
        }
        assert(nodes@.subrange(0, i as int) =~= nodes@);
    }

    /// Writes the whole program (see `c_program`).
    pub fn visit_program_root(&mut self, root_nodes: &Vec<Box<Statement>>)
        ensures
            keeps_error(*old(self), *final(self)),
            old(self).error is None && obj_free_list(root_nodes@) && c_list_ok(root_nodes@) ==> final(self).error is None,
            obj_free_list(root_nodes@) ==> final(self).out@ == old(self).out@ + c_program(
                root_nodes@,
                names_of(old(self).materialized@),
            ),
    {
        self.append("#include \"print.h\"\n#include \"databox.h\"\n");
        self.visit_global_vars(root_nodes);
        self.visit_function_declarations(root_nodes);
        self.append("\nint main() {\n");
        self.visit_list(root_nodes);
        self.append("\nreturn 0;");
        self.append("\n}");
        proof {
            if obj_free_list(root_nodes@) {
                assert(self.out@ =~= old(self).out@ + c_program(
                    root_nodes@,
                    names_of(old(self).materialized@),
                ));
            }
        }
    }
}

} // verus!
