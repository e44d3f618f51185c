//! The syntax tree of a TypeScript program: statements, expressions and type
//! annotations, each with the source span it was parsed from.
use vstd::prelude::*;
pub use crate::lexer::{Position, Span};

verus! {


#[derive(Debug, PartialEq)]
pub struct Program {
    pub body: Vec<Statement>,
    pub span: Option<Span>,
}

#[derive(Debug, PartialEq)]
pub struct Statement {
    pub kind: StatementKind,
    pub span: Span,
}

#[derive(Debug, PartialEq)]
pub enum StatementKind {
    Import(ImportDeclaration),
    Export(Box<Statement>),
    Interface(InterfaceDeclaration),
    TypeAlias(TypeAliasDeclaration),
    Class(ClassDeclaration),
    Function(FunctionDeclaration),
    Variable(VariableDeclaration),
    Return(Option<Expression>),
    Throw(Expression),
    If(IfStatement),
    While(WhileStatement),
    For(ForStatement),
    Block(Vec<Statement>),
    Expression(Expression),
    Empty,
    Error,
}

#[derive(Debug, Clone, PartialEq, Eq)]
pub struct ImportDeclaration {
    pub names: Vec<String>,
    pub from: String,
}

#[derive(Debug, PartialEq, Eq)]
pub struct InterfaceDeclaration {
    pub name: String,
    pub members: Vec<TypeMember>,
}

#[derive(Debug, PartialEq, Eq)]
pub struct TypeAliasDeclaration {
    pub name: String,
    pub ty: TypeNode,
}

#[derive(Debug, PartialEq)]
pub struct ClassDeclaration {
    pub name: String,
    pub members: Vec<ClassMember>,
}

#[derive(Debug, PartialEq)]
pub struct ClassMember {
    pub name: String,
    pub ty: Option<TypeNode>,
    pub initializer: Option<Expression>,
    pub span: Span,
}

#[derive(Debug, PartialEq)]
pub struct FunctionDeclaration {
    pub name: String,
    pub params: Vec<Parameter>,
    pub return_type: Option<TypeNode>,
    pub body: Vec<Statement>,
}

#[derive(Debug, PartialEq, Eq)]
pub struct Parameter {
    pub name: String,
    pub ty: Option<TypeNode>,
    pub span: Span,
}

#[derive(Debug, PartialEq)]
pub struct VariableDeclaration {
    pub kind: VariableKind,
    pub name: String,
    pub ty: Option<TypeNode>,
    pub initializer: Option<Expression>,
}

#[derive(Debug, Copy, Clone, PartialEq, Eq)]
pub enum VariableKind {
    Let,
    Const,
    Var,
}

#[derive(Debug, PartialEq)]
pub struct IfStatement {
    pub test: Expression,
    pub consequent: Box<Statement>,
    pub alternate: Option<Box<Statement>>,
}

#[derive(Debug, PartialEq)]
pub struct WhileStatement {
    pub test: Expression,
    pub body: Box<Statement>,
}

#[derive(Debug, PartialEq)]
pub struct ForStatement {
    pub initializer: Option<Box<Statement>>,
    pub test: Option<Expression>,
    pub update: Option<Expression>,
    pub body: Box<Statement>,
}

#[derive(Debug, PartialEq)]
pub struct Expression {
    pub kind: ExpressionKind,
    pub span: Span,
}

#[derive(Debug, PartialEq)]
pub enum ExpressionKind {
    Identifier(String),
    Number(String),
    String(String),
    Boolean(bool),
    Null,
    Undefined,
    Object(Vec<ObjectProperty>),
    Array(Vec<Expression>),
    Member {
        object: Box<Expression>,
        property: String,
    },
    Call {
        callee: Box<Expression>,
        arguments: Vec<Expression>,
    },
    Unary {
        operator: UnaryOperator,
        argument: Box<Expression>,
    },
    Binary {
        left: Box<Expression>,
        operator: BinaryOperator,
        right: Box<Expression>,
    },
    Assignment {
        left: Box<Expression>,
        operator: AssignmentOperator,
        right: Box<Expression>,
    },
    Error,
}

#[derive(Debug, PartialEq)]
pub struct ObjectProperty {
    pub name: String,
    pub value: Expression,
    pub span: Span,
}

#[derive(Debug, Copy, Clone, PartialEq, Eq)]
pub enum UnaryOperator {
    Negate,
    Not,
}

#[derive(Debug, Copy, Clone, PartialEq, Eq)]
pub enum BinaryOperator {
    Add,
    Subtract,
    Multiply,
    Divide,
    Remainder,
    Equal,
    StrictEqual,
    NotEqual,
    StrictNotEqual,
    Less,
    LessEqual,
    Greater,
    GreaterEqual,
    LogicalAnd,
    LogicalOr,
    NullishCoalesce,
}

#[derive(Debug, Copy, Clone, PartialEq, Eq)]
pub enum AssignmentOperator {
    Assign,
    AddAssign,
    SubtractAssign,
    MultiplyAssign,
    DivideAssign,
    RemainderAssign,
}

#[derive(Debug, PartialEq, Eq)]
pub struct TypeMember {
    pub name: String,
    pub ty: TypeNode,
    pub span: Span,
}

#[derive(Debug, PartialEq, Eq)]
pub struct TypeNode {
    pub kind: TypeKind,
    pub span: Span,
}

#[derive(Debug, PartialEq, Eq)]
pub enum TypeKind {
    Number,
    String,
    Boolean,
    Null,
    Undefined,
    Named(String),
    Array(Box<TypeNode>),
    Object(Vec<TypeMember>),
}

} // verus!
