//! The syntax tree: statements and expressions in the shape of ESTree.

use vstd::prelude::*;
use crate::operator::{AssignmentOperator, BinaryOperator, LogicalOperator, UnaryOperator, UpdateOperator};

verus! {

#[derive(Clone, Copy, Debug, PartialEq, Eq, Structural)]
pub struct Pos {
    pub line: u64,
    pub column: u64,
}

/// A source span, kept for diagnostics.
#[derive(Clone, Copy, Debug, PartialEq, Eq, Structural)]
pub struct Loc {
    pub start: Pos,
    pub end: Pos,
}

#[derive(Clone, Copy, Debug, PartialEq, Eq, Structural)]
pub struct Extra {
    pub parenthesized: bool,
}

#[derive(Debug)]
pub enum Expression {
    BinaryExpression(BinaryExp),
    UnaryExpression(UnaryExp),
    NumericLiteral(NumericLit),
    StringLiteral(StringLit),
    Identifier(Id),
    UpdateExpression(UpdateExp),
    CallExpression(CallExp),
    AssignmentExpression(AssignmentExp),
    LogicalExpression(LogicalExp),
    MemberExpression(MemberExp),
    ObjectExpression(ObjectExp),
}

#[derive(Debug)]
pub struct Id {
    pub name: String,
    pub loc: Loc,
}

#[derive(Debug)]
pub struct StringLit {
    pub value: String,
    pub loc: Loc,
}

#[derive(Debug)]
pub struct NumericLit {
    pub value: i64,
    pub loc: Loc,
}

#[derive(Debug)]
pub struct UpdateExp {
    pub operator: UpdateOperator,
    pub argument: Box<Expression>,
    pub prefix: bool,
    pub loc: Loc,
}

#[derive(Debug)]
pub struct CallExp {
    pub callee: Box<Expression>,
    pub arguments: Vec<Box<Expression>>,
    pub loc: Loc,
}

#[derive(Debug)]
pub struct BinaryExp {
    pub left: Box<Expression>,
    pub operator: BinaryOperator,
    pub right: Box<Expression>,
    pub extra: Option<Extra>,
    pub loc: Loc,
}

#[derive(Debug)]
pub struct UnaryExp {
    pub operator: UnaryOperator,
    pub prefix: bool,
    pub argument: Box<Expression>,
    pub loc: Loc,
}

#[derive(Debug)]
pub struct AssignmentExp {
    pub operator: AssignmentOperator,
    pub left: Box<Expression>,
    pub right: Box<Expression>,
    pub loc: Loc,
}

#[derive(Debug)]
pub struct LogicalExp {
    pub operator: LogicalOperator,
    pub left: Box<Expression>,
    pub right: Box<Expression>,
    pub loc: Loc,
}

#[derive(Debug)]
pub struct MemberExp {
    pub object: Box<Expression>,
    pub property: Box<Expression>,
    pub computed: bool,
    pub loc: Loc,
}

#[derive(Debug)]
pub struct ObjectExp {
    pub properties: Vec<Box<Property>>,
    pub loc: Loc,
}

#[derive(Debug)]
pub struct Property {
    pub key: Box<Expression>,
    pub value: Box<Expression>,
    pub kind: Option<String>,
}

#[derive(Debug)]
pub enum Statement {
    BlockStatement(BlockStmt),
    ExpressionStatement(ExpressionStmt),
    WhileStatement(WhileStmt),
    VariableDeclaration(VariableDec),
    VariableDeclarator(Variable),
    FunctionDeclaration(FunctionDec),
    IfStatement(IfStmt),
    SwitchStatement(SwitchStmt),
    SwitchCase(CaseStmt),
    ForStatement(ForStmt),
    BreakStatement(BreakStmt),
    ContinueStatement(ContinueStmt),
    ReturnStatement(ReturnStmt),
    EmptyStatement,
}

#[derive(Debug)]
pub struct BlockStmt {
    pub body: Vec<Box<Statement>>,
}

#[derive(Debug)]
pub struct ExpressionStmt {
    pub expression: Box<Expression>,
}

#[derive(Debug)]
pub struct SwitchStmt {
    pub discriminant: Box<Expression>,
    pub cases: Vec<Box<CaseStmt>>,
}

#[derive(Debug)]
pub struct CaseStmt {
    pub test: Option<Box<Expression>>,
    pub consequent: Vec<Box<Statement>>,
}

#[derive(Debug)]
pub struct IfStmt {
    pub test: Box<Expression>,
    pub consequent: Box<Statement>,
    pub alternate: Option<Box<Statement>>,
}

#[derive(Debug)]
pub struct ForStmt {
    pub init: Option<Box<Expression>>,
    pub test: Option<Box<Expression>>,
    pub update: Option<Box<Expression>>,
    pub body: Box<Statement>,
}

#[derive(Debug)]
pub struct WhileStmt {
    pub test: Box<Expression>,
    pub body: Box<Statement>,
}

#[derive(Debug)]
pub struct BreakStmt {
    pub label: Option<Id>,
}

#[derive(Debug)]
pub struct ReturnStmt {
    pub argument: Option<Box<Expression>>,
}

#[derive(Debug)]
pub struct ContinueStmt {
    pub label: Option<Id>,
}

#[derive(Debug)]
pub struct FunctionDec {
    pub id: Id,
    pub params: Vec<Id>,
    pub body: BlockStmt,
}

#[derive(Debug)]
pub struct VariableDec {
    pub declarations: Vec<Box<Statement>>,
    pub kind: String,
}

#[derive(Debug)]
pub struct Variable {
    pub id: Id,
    pub init: Option<Box<Expression>>,
}

/// The two root shapes a parser may hand over.
#[derive(Debug)]
pub enum RootStatement {
    Program(Program),
    File(File),
}

#[derive(Debug)]
pub struct File {
    pub program: Program,
}

#[derive(Debug)]
pub struct Program {
    pub body: Vec<Box<Statement>>,
}

impl RootStatement {
    pub open spec fn body(self) -> Seq<Box<Statement>> {
        match self {
            RootStatement::Program(p) => p.body@,
            RootStatement::File(f) => f.program.body@,
        }
    }

    /// The top-level statements of the program.
    pub fn get_program_root(self) -> (r: Vec<Box<Statement>>)
        ensures
            r@ == self.body(),
    {
        match self {
            RootStatement::Program(p) => p.body,
            RootStatement::File(f) => f.program.body,
        }
    }
}

impl Expression {
    pub open spec fn loc_spec(self) -> Loc {
        match self {
            Expression::BinaryExpression(e) => e.loc,
            Expression::UnaryExpression(e) => e.loc,
            Expression::NumericLiteral(e) => e.loc,
            Expression::StringLiteral(e) => e.loc,
            Expression::Identifier(e) => e.loc,
            Expression::UpdateExpression(e) => e.loc,
            Expression::CallExpression(e) => e.loc,
            Expression::AssignmentExpression(e) => e.loc,
            Expression::LogicalExpression(e) => e.loc,
            Expression::MemberExpression(e) => e.loc,
            Expression::ObjectExpression(e) => e.loc,
        }
    }

    pub fn get_loc(&self) -> (r: Loc)
        ensures
            r == self.loc_spec(),
    {
        match self {
            Expression::BinaryExpression(e) => e.loc,
            Expression::UnaryExpression(e) => e.loc,
            Expression::NumericLiteral(e) => e.loc,
            Expression::StringLiteral(e) => e.loc,
            Expression::Identifier(e) => e.loc,
            Expression::UpdateExpression(e) => e.loc,
            Expression::CallExpression(e) => e.loc,
            Expression::AssignmentExpression(e) => e.loc,
            Expression::LogicalExpression(e) => e.loc,
            Expression::MemberExpression(e) => e.loc,
            Expression::ObjectExpression(e) => e.loc,
        }
    }

    pub fn try_as_identifier(&self) -> (r: Option<&Id>)
        ensures
            match *self {
                Expression::Identifier(id) => r == Some(&id),
                _ => r is None,
            },
    {
        match self {
            Expression::Identifier(id) => Some(id),
            _ => None,
        }
    }

    pub fn try_as_string_from_lit(&self) -> (r: Option<String>)
        ensures
            match *self {
                Expression::StringLiteral(s) => r == Some(s.value),
                _ => r is None,
            },
    {
        match self {
            Expression::StringLiteral(s) => Some(s.value.clone()),
            _ => None,
        }
    }

    pub fn try_as_string_from_identifier(&self) -> (r: Option<String>)
        ensures
            match *self {
                Expression::Identifier(id) => r == Some(id.name),
                _ => r is None,
            },
    {
        match self {
            Expression::Identifier(id) => Some(id.name.clone()),
            _ => None,
        }
    }
}

impl BinaryExp {
    pub open spec fn parenthesized(self) -> bool {
        self.extra matches Some(x) && x.parenthesized
    }

    /// Whether the source wrapped this expression in parentheses.
    pub fn has_parenthesis(&self) -> (r: bool)
        ensures
            r == self.parenthesized(),
    {
        match &self.extra {
            Some(x) => x.parenthesized,
            None => false,
        }
    }

    /// Whether an operand is a bare identifier.
    pub fn has_idendifier(&self) -> (r: bool)
        ensures
            r == (*self.left is Identifier || *self.right is Identifier),
    {
        self.left.try_as_identifier().is_some() || self.right.try_as_identifier().is_some()
    }
}

} // verus!
