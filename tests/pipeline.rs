use js_compiler::asm_writer::{ASMWriter, AsmError};
use js_compiler::ast::{
    AssignmentExp, BinaryExp, LogicalExp, MemberExp, BlockStmt, CallExp, Expression, ExpressionStmt, Extra, FunctionDec, Id,
    IfStmt, Loc, NumericLit, ObjectExp, Pos, Property, ReturnStmt, Statement, StringLit, UpdateExp,
    Variable, VariableDec, WhileStmt,
};
use js_compiler::c_writer::{temp_name, CError, CWriter};
use js_compiler::interpreter::{interpret_expression, InterpretError, Interpreter};
use js_compiler::literal::Literal;
use js_compiler::operator::{AssignmentOperator, BinaryOperator, LogicalOperator, Operator, UpdateOperator};
use js_compiler::postfix::PostfixError;
use js_compiler::scope::{Scope, ScopeBuilder, ScopeType};
use js_compiler::to_token::ToToken;
use js_compiler::token::{ControlFlow, Token};

fn loc() -> Loc {
    Loc { start: Pos { line: 1, column: 0 }, end: Pos { line: 1, column: 1 } }
}

fn id(name: &str) -> Id {
    Id { name: String::from(name), loc: loc() }
}

fn num(v: i64) -> Box<Expression> {
    Box::new(Expression::NumericLiteral(NumericLit { value: v, loc: loc() }))
}

fn text(v: &str) -> Box<Expression> {
    Box::new(Expression::StringLiteral(StringLit { value: String::from(v), loc: loc() }))
}

fn ident(name: &str) -> Box<Expression> {
    Box::new(Expression::Identifier(id(name)))
}

fn bin(left: Box<Expression>, operator: BinaryOperator, right: Box<Expression>, paren: bool) -> Box<Expression> {
    let extra = if paren { Some(Extra { parenthesized: true }) } else { None };
    Box::new(Expression::BinaryExpression(BinaryExp { left, operator, right, extra, loc: loc() }))
}

fn call(name: &str, arguments: Vec<Box<Expression>>) -> Box<Expression> {
    Box::new(Expression::CallExpression(CallExp { callee: ident(name), arguments, loc: loc() }))
}

fn update(name: &str, operator: UpdateOperator) -> Box<Expression> {
    Box::new(Expression::UpdateExpression(UpdateExp {
        operator,
        argument: ident(name),
        prefix: false,
        loc: loc(),
    }))
}

fn expr_stmt(e: Box<Expression>) -> Box<Statement> {
    Box::new(Statement::ExpressionStatement(ExpressionStmt { expression: e }))
}

fn var_decl(name: &str, init: Option<Box<Expression>>) -> Box<Statement> {
    Box::new(Statement::VariableDeclaration(VariableDec {
        declarations: vec![Box::new(Statement::VariableDeclarator(Variable { id: id(name), init }))],
        kind: String::from("var"),
    }))
}

fn func(name: &str, params: Vec<&str>, body: Vec<Box<Statement>>) -> Box<Statement> {
    Box::new(Statement::FunctionDeclaration(FunctionDec {
        id: id(name),
        params: params.into_iter().map(id).collect(),
        body: BlockStmt { body },
    }))
}

#[test]
fn linearizer_in_order_with_parentheses() {
    let e = bin(num(2), BinaryOperator::Mul, bin(num(1), BinaryOperator::Add, ident("x"), true), false);
    let toks = e.to_token();
    assert_eq!(
        toks,
        vec![
            Token::LiteralToken(Literal::NumericLiteral(2)),
            Token::OperatorToken(Operator::BinOp(BinaryOperator::Mul)),
            Token::OperatorToken(Operator::LeftParenthesis),
            Token::LiteralToken(Literal::NumericLiteral(1)),
            Token::OperatorToken(Operator::BinOp(BinaryOperator::Add)),
            Token::IdentifierToken(String::from("x")),
            Token::OperatorToken(Operator::RightParenthesis),
        ]
    );
    let c = call("f", vec![num(1), bin(num(2), BinaryOperator::Sub, num(3), false)]);
    let toks = c.to_token();
    assert_eq!(toks.len(), 1);
    match &toks[0] {
        Token::FunctionToken(call) => {
            assert_eq!(call.callee, "f");
            assert_eq!(call.args.len(), 4);
        }
        _ => panic!("expected a call token"),
    }
}

#[test]
fn interpret_one_plus_one() {
    let e = bin(num(1), BinaryOperator::Add, num(1), false);
    assert!(matches!(interpret_expression(&e), Ok(Literal::NumericLiteral(2))));
}

#[test]
fn interpret_two_times_sum() {
    let e = bin(num(2), BinaryOperator::Mul, bin(num(1), BinaryOperator::Add, num(1), true), false);
    assert!(matches!(interpret_expression(&e), Ok(Literal::NumericLiteral(4))));
    let e = bin(text("a"), BinaryOperator::Add, num(1), false);
    assert_eq!(interpret_expression(&e).map(|l| l.to_string()), Ok(String::from("a1")));
    let e = bin(ident("x"), BinaryOperator::Add, num(1), false);
    assert!(matches!(interpret_expression(&e), Err(InterpretError::Postfix(PostfixError::UnsupportedToken))));
}

#[test]
fn scope_tree_counts_distinct_names() {
    let program = vec![
        var_decl("x", Some(num(1))),
        func("f", vec!["a"], vec![var_decl("inner", None)]),
        var_decl("x", Some(num(2))),
        expr_stmt(bin(num(1), BinaryOperator::Add, num(2), false)),
        Box::new(Statement::BreakStatement(js_compiler::ast::BreakStmt { label: None })),
    ];
    let mut root = Scope::init_root(None);
    root.build(&program);
    let named: Vec<&Scope> = root.childs.iter().filter(|c| c.name.is_some()).collect();
    assert_eq!(named.len(), 2);
    let x = named.iter().find(|c| c.name.as_deref() == Some("x")).unwrap();
    assert_eq!(x.scope_type, ScopeType::Var);
    assert_eq!(x.token_stream, vec![Token::LiteralToken(Literal::NumericLiteral(2))]);
    let f = named.iter().find(|c| c.name.as_deref() == Some("f")).unwrap();
    assert_eq!(f.scope_type, ScopeType::Function);
    assert_eq!(f.childs.len(), 1);
    assert_eq!(f.childs[0].parents, vec![String::from("f")]);
    assert_eq!(f.childs[0].token_stream, vec![Token::Undefined]);
    assert_eq!(root.token_stream.len(), 4);
    assert_eq!(root.token_stream[3], Token::ControlFlow(ControlFlow::Break));
}

#[test]
fn scope_tree_nests_control_structures() {
    let program = vec![Box::new(Statement::WhileStatement(WhileStmt {
        test: bin(ident("i"), BinaryOperator::LessThan, num(3), false),
        body: Box::new(Statement::BlockStatement(BlockStmt { body: vec![var_decl("y", None)] })),
    }))];
    let mut root = Scope::init_root(None);
    root.build(&program);
    assert_eq!(root.childs.len(), 1);
    let w = &root.childs[0];
    assert_eq!(w.scope_type, ScopeType::While);
    assert!(w.name.is_none());
    assert_eq!(w.token_stream.len(), 3);
    assert_eq!(w.childs.len(), 1);
    assert_eq!(w.childs[0].scope_type, ScopeType::Block);
    assert_eq!(w.childs[0].childs[0].name.as_deref(), Some("y"));
    let named = Scope::new_named(String::from("g"), Some(&root), ScopeType::Function);
    let below = Scope::new(Some(&named), ScopeType::If);
    assert_eq!(below.parents, vec![String::from("g")]);
}

#[test]
fn c_standard_library_call_is_not_boxed() {
    let program = vec![expr_stmt(call("add", vec![num(2), num(3)])), expr_stmt(call("sum", vec![num(2), num(3)]))];
    let mut w = CWriter::new();
    w.visit_program_root(&program);
    assert!(w.error.is_none());
    assert!(w.out.contains("add(2,3);"));
    assert!(w.out.contains("sum(new(2),new(3));"));
}

#[test]
fn c_program_layout() {
    let program = vec![
        var_decl("x", Some(num(5))),
        func("inc", vec!["a", "b"], vec![Box::new(Statement::ReturnStatement(ReturnStmt {
            argument: Some(bin(ident("a"), BinaryOperator::Add, ident("b"), false)),
        }))]),
        expr_stmt(update("x", UpdateOperator::Increment)),
        Box::new(Statement::IfStatement(IfStmt {
            test: bin(ident("x"), BinaryOperator::GreaterThan, num(1), false),
            consequent: expr_stmt(call("print", vec![ident("x")])),
            alternate: None,
        })),
    ];
    let mut w = CWriter::new();
    w.visit_program_root(&program);
    assert!(w.error.is_none());
    assert_eq!(
        w.out,
        "#include \"print.h\"\n#include \"databox.h\"\ndatabox x;\n\
         databox inc(databox a,databox b){\nreturn add(a,b);}\
         \nint main() {\nx=new(5);\nincrement(&x);if(gt(x,1)){print(x);}\nreturn 0;\n}"
    );
}

#[test]
fn c_compound_assignment_and_errors() {
    let mut w = CWriter::new();
    let e = Expression::AssignmentExpression(AssignmentExp {
        operator: AssignmentOperator::AddAssign,
        left: ident("x"),
        right: num(2),
        loc: loc(),
    });
    w.visit_expression(&e);
    assert_eq!(w.out, "x=add(x,2)");
    assert!(w.error.is_none());

    let mut w = CWriter::new();
    w.visit_expression(&bin(ident("x"), BinaryOperator::LessThanOrEq, num(1), false));
    assert_eq!(w.error, Some(CError::UnsupportedOperator(BinaryOperator::LessThanOrEq)));

    let mut w = CWriter::new();
    w.visit_expression(&update("x", UpdateOperator::Decrement));
    assert_eq!(w.out, "decrement(&x)");
    let bad = Expression::UpdateExpression(UpdateExp {
        operator: UpdateOperator::Increment,
        argument: num(1),
        prefix: true,
        loc: loc(),
    });
    w.visit_expression(&bad);
    assert_eq!(w.error, Some(CError::UnsupportedUpdate));

    let mut w = CWriter::new();
    let e = Expression::AssignmentExpression(AssignmentExp {
        operator: AssignmentOperator::Assign,
        left: num(1),
        right: num(2),
        loc: loc(),
    });
    w.visit_expression(&e);
    assert_eq!(w.error, Some(CError::UnsupportedAssignment));

    let mut w = CWriter::new();
    let e = Expression::CallExpression(CallExp { callee: num(1), arguments: vec![], loc: loc() });
    w.visit_expression(&e);
    assert_eq!(w.error, Some(CError::UnsupportedCallee));

    let mut w = CWriter::new();
    let e = Expression::ObjectExpression(ObjectExp { properties: vec![], loc: loc() });
    w.visit_expression(&e);
    assert_eq!(w.error, Some(CError::UnsupportedObject));
}

#[test]
fn c_object_properties_use_temporaries() {
    let object = Box::new(Expression::ObjectExpression(ObjectExp {
        properties: vec![Box::new(Property { key: ident("a"), value: num(1), kind: None })],
        loc: loc(),
    }));
    let mut w = CWriter::new();
    w.visit_statement(&var_decl("o", Some(object)));
    assert!(w.error.is_none());
    assert!(w.out.starts_with("databox o=new_object();\ndatabox A"));
    assert!(w.out.contains("=new(1);\ndictionary_add(o.data.dict, \"a\" , &A"));

    let object = Box::new(Expression::ObjectExpression(ObjectExp {
        properties: vec![Box::new(Property { key: num(3), value: num(1), kind: None })],
        loc: loc(),
    }));
    let mut w = CWriter::new();
    w.visit_statement(&var_decl("o", Some(object)));
    assert_eq!(w.error, Some(CError::UnsupportedPropertyKey));
}

#[test]
fn temporary_names_are_random_alphanumerics() {
    let a = temp_name();
    let b = temp_name();
    assert_eq!(a.chars().count(), 8);
    assert!(a.starts_with('A'));
    assert!(a.chars().all(|c| c.is_ascii_alphanumeric()));
    assert_eq!(b.chars().count(), 8);
}

#[test]
fn asm_increment_updates_storage() {
    let program = vec![var_decl("x", Some(num(5))), expr_stmt(update("x", UpdateOperator::Increment))];
    let mut w = ASMWriter::new();
    w.build(&program);
    assert!(w.error.is_none());
    assert_eq!(
        w.out,
        ".data\nx:\n\t.quad\t5\n.text\n.global main\n.type main, @function\nmain:\n\tincq\tx(%rip)\n\tret\n"
    );
}

#[test]
fn asm_expression_keeps_operand_order() {
    let program = vec![expr_stmt(bin(num(7), BinaryOperator::Sub, num(2), false))];
    let mut w = ASMWriter::new();
    w.build(&program);
    assert!(w.error.is_none());
    assert!(w.out.contains(
        "\tpushq\t$7\n\tpushq\t$2\n\tpopq\t%rbx\n\tpopq\t%rax\n\tsubq\t%rbx, %rax\n\tpushq\t%rax\n\tpopq\t%rax\n"
    ));
}

#[test]
fn asm_errors() {
    let mut w = ASMWriter::new();
    w.build(&vec![var_decl("s", Some(text("a")))]);
    assert_eq!(w.error, Some(AsmError::UnsupportedInitializer));
    let mut w = ASMWriter::new();
    w.build(&vec![func("f", vec![], vec![])]);
    assert_eq!(w.error, Some(AsmError::UnsupportedStatement));
    let mut w = ASMWriter::new();
    w.build(&vec![expr_stmt(bin(num(1), BinaryOperator::LessThan, num(2), false))]);
    assert_eq!(w.error, Some(AsmError::UnsupportedOperator(BinaryOperator::LessThan)));
    let mut w = ASMWriter::new();
    w.build(&vec![expr_stmt(text("s"))]);
    assert_eq!(w.error, Some(AsmError::UnsupportedToken));
    let mut w = ASMWriter::new();
    w.build(&vec![expr_stmt(bin(ident("x"), BinaryOperator::Add, num(2), false))]);
    assert_eq!(w.error, Some(AsmError::Postfix(PostfixError::UnsupportedToken)));
}

#[test]
fn interpreter_runs_declarations_and_updates() {
    let program = vec![
        var_decl("x", Some(num(5))),
        expr_stmt(update("x", UpdateOperator::Increment)),
        expr_stmt(bin(ident("x"), BinaryOperator::Mul, num(2), false)),
        expr_stmt(Box::new(Expression::AssignmentExpression(AssignmentExp {
            operator: AssignmentOperator::SubAssign,
            left: ident("x"),
            right: num(10),
            loc: loc(),
        }))),
        expr_stmt(ident("x")),
    ];
    let it = match Interpreter::run(&program) {
        Ok(it) => it,
        Err(e) => panic!("{:?}", e),
    };
    let results: Vec<String> = it.results.iter().map(|l| l.to_string()).collect();
    assert_eq!(results, vec![String::from("12"), String::from("-4")]);
    assert_eq!(it.names.last().map(|n| n.as_str()), Some("x"));
    let unbound = vec![expr_stmt(ident("y"))];
    assert!(matches!(Interpreter::run(&unbound), Err(InterpretError::UndefinedVariable)));
    let unsupported = vec![func("f", vec![], vec![])];
    assert!(matches!(Interpreter::run(&unsupported), Err(InterpretError::UnsupportedStatement)));
}

#[test]
fn scope_builder_collects_program() {
    let mut builder = ScopeBuilder::new();
    builder.build(&vec![var_decl("a", None), func("g", vec![], vec![])]);
    assert_eq!(builder.global_scope.scope_type, ScopeType::Root);
    assert_eq!(builder.global_scope.childs.len(), 2);
}

#[test]
fn token_accessors_and_conversions() {
    let t = Token::LiteralToken(Literal::from(3i64));
    assert!(t.is_literal());
    assert!(matches!(t.as_literal(), Some(Literal::NumericLiteral(3))));
    assert_eq!(t.as_operator(), None);
    let o = Token::OperatorToken(Operator::LeftParenthesis);
    assert!(!o.is_literal());
    assert_eq!(o.as_operator(), Some(Operator::LeftParenthesis));
    assert_eq!(Literal::from(String::from("s")).to_string(), "s");
    assert!(matches!(Literal::from(true), Literal::BooleanLiteral(true)));
}

#[test]
fn linearizer_other_expressions() {
    let u = update("i", UpdateOperator::Increment);
    assert_eq!(
        u.to_token(),
        vec![
            Token::IdentifierToken(String::from("i")),
            Token::OperatorToken(Operator::UpdateOp(UpdateOperator::Increment)),
        ]
    );
    let a = Expression::AssignmentExpression(AssignmentExp {
        operator: AssignmentOperator::Assign,
        left: ident("y"),
        right: num(4),
        loc: loc(),
    });
    assert_eq!(
        a.to_token(),
        vec![Token::IdentifierToken(String::from("y")), Token::LiteralToken(Literal::NumericLiteral(4))]
    );
    let l = Expression::LogicalExpression(LogicalExp {
        operator: LogicalOperator::And,
        left: num(1),
        right: num(0),
        loc: loc(),
    });
    assert_eq!(
        l.to_token(),
        vec![
            Token::LiteralToken(Literal::NumericLiteral(1)),
            Token::OperatorToken(Operator::LogOp(LogicalOperator::And)),
            Token::LiteralToken(Literal::NumericLiteral(0)),
        ]
    );
    let m = Expression::MemberExpression(MemberExp { object: ident("o"), property: ident("p"), computed: false, loc: loc() });
    assert_eq!(m.to_token(), vec![Token::IdentifierToken(String::from("p"))]);
    let o = Expression::ObjectExpression(ObjectExp {
        properties: vec![Box::new(Property { key: ident("k"), value: text("v"), kind: None })],
        loc: loc(),
    });
    assert_eq!(
        o.to_token(),
        vec![
            Token::LiteralToken(Literal::StringLiteral(String::from("v"))),
            Token::IdentifierToken(String::from("k")),
        ]
    );
    assert_eq!(o.get_loc(), loc());
}

#[test]
fn scope_children_follow_statements() {
    let program = vec![
        Box::new(Statement::IfStatement(IfStmt {
            test: bin(ident("a"), BinaryOperator::LessThan, num(1), false),
            consequent: expr_stmt(num(1)),
            alternate: Some(expr_stmt(num(2))),
        })),
        Box::new(Statement::ContinueStatement(js_compiler::ast::ContinueStmt { label: None })),
        Box::new(Statement::ReturnStatement(ReturnStmt { argument: Some(num(7)) })),
    ];
    let mut root = Scope::init_root(None);
    root.build(&program);
    let kinds: Vec<ScopeType> = root.childs.iter().map(|c| c.scope_type).collect();
    assert_eq!(kinds, vec![ScopeType::If, ScopeType::Else, ScopeType::Return]);
    assert_eq!(root.childs[0].token_stream.len(), 4);
    assert_eq!(root.childs[1].token_stream, vec![Token::LiteralToken(Literal::NumericLiteral(2))]);
    assert_eq!(root.childs[2].token_stream, vec![Token::LiteralToken(Literal::NumericLiteral(7))]);
    assert_eq!(root.token_stream, vec![Token::ControlFlow(ControlFlow::Continue)]);
}

#[test]
fn interpreter_reports_first_failing_statement() {
    let program = vec![var_decl("x", Some(num(1))), expr_stmt(update("y", UpdateOperator::Increment)), expr_stmt(num(3))];
    assert!(matches!(Interpreter::run(&program), Err(InterpretError::UndefinedVariable)));
    let program = vec![var_decl("x", Some(bin(num(1), BinaryOperator::Sub, text("a"), false)))];
    assert!(matches!(
        Interpreter::run(&program),
        Err(InterpretError::Eval(js_compiler::token::EvalError::UndefinedOperation))
    ));
}
