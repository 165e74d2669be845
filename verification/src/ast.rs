//! The abstract syntax tree that name resolution reads: a source file as
//! imports and definitions, with expressions, patterns and type
//! expressions, every name an identifier with its span.
use crate::hir::{BinOp, LiteralKind, UnOp, Visibility};
use crate::span::Span;
use vstd::prelude::*;

verus! {

/// A name as written, with where it was written.
#[derive(Debug)]
pub struct Ident {
    pub name: String,
    pub span: Span,
}

/// A literal as written: `42`, `"hello"`, `True`.
#[derive(Debug)]
pub struct Literal {
    pub kind: LiteralKind,
    pub value: String,
    pub span: Span,
}

/// A type expression: a type name applied to arguments, `Option(Int)`.
#[derive(Debug)]
pub struct TypeExpr {
    pub name: Ident,
    pub args: Vec<TypeExpr>,
    pub span: Span,
}

/// A parameter of a function or of an anonymous function.
#[derive(Debug)]
pub struct Param {
    pub name: Ident,
    /// Omitted for the parameters of anonymous functions.
    pub type_ann: Option<TypeExpr>,
    pub span: Span,
}

/// A function definition.
#[derive(Debug)]
pub struct FnDef {
    pub name: Ident,
    pub visibility: Visibility,
    pub is_async: bool,
    /// Where `pure` was written, when the function is declared pure.
    pub pure_span: Option<Span>,
    pub params: Vec<Param>,
    pub return_type: Option<TypeExpr>,
    pub body: Expr,
    pub span: Span,
}

/// A field of a variant or of a record, optionally labelled.
#[derive(Debug)]
pub struct Field {
    pub label: Option<Ident>,
    pub type_expr: TypeExpr,
    pub span: Span,
}

/// A variant of a custom type: a constructor and its fields.
#[derive(Debug)]
pub struct Variant {
    pub name: Ident,
    pub fields: Vec<Field>,
    pub span: Span,
}

/// The body of a custom type: its variants, or the fields of a record.
#[derive(Debug)]
pub enum TypeBody {
    Variants(Vec<Variant>),
    Record(Vec<Field>),
}

/// A custom type definition.
#[derive(Debug)]
pub struct CustomType {
    pub name: Ident,
    pub visibility: Visibility,
    pub type_params: Vec<Ident>,
    pub body: TypeBody,
    pub span: Span,
}

/// A top-level definition.
#[derive(Debug)]
pub enum Definition {
    Function(FnDef),
    CustomType(CustomType),
}

/// What an import brings in.
#[derive(Debug)]
pub enum ImportSource {
    /// `import gleam.io`: the path's segments.
    Module(Vec<Ident>),
    /// `from python import pathlib`: the Python module.
    Python(Ident),
}

/// An import, with the alias it is bound to, if any.
#[derive(Debug)]
pub struct Import {
    pub source: ImportSource,
    pub alias: Option<Ident>,
    pub span: Span,
}

/// A source file.
#[derive(Debug)]
pub struct Module {
    pub imports: Vec<Import>,
    pub definitions: Vec<Definition>,
    pub span: Span,
}

/// An arm of a match expression.
#[derive(Debug)]
pub struct MatchArm {
    pub pattern: Pattern,
    pub guard: Option<Expr>,
    pub body: Expr,
    pub span: Span,
}

/// A pattern.
#[derive(Debug)]
pub enum Pattern {
    /// `_`
    Wildcard(Span),
    /// A name, which the pattern binds.
    Variable(Ident),
    /// `42`, `"hello"`
    Literal(Literal),
    /// `Some(x)`, `None`
    Constructor { name: Ident, fields: Vec<Pattern>, span: Span },
    /// `[head, ..rest]`, `[]`
    List { elements: Vec<Pattern>, rest: Option<Ident>, span: Span },
}

/// An expression.
#[derive(Debug)]
pub enum Expr {
    Literal(Literal),
    /// A reference to a name.
    Variable(Ident),
    /// `{ expr1 expr2 }`
    Block { exprs: Vec<Expr>, span: Span },
    /// `f(a, b)`
    Call { func: Box<Expr>, args: Vec<Expr>, span: Span },
    /// `a + b`, `a <> b`
    BinaryOp { op: BinOp, lhs: Box<Expr>, rhs: Box<Expr>, span: Span },
    /// `-x`, `!flag`
    UnaryOp { op: UnOp, expr: Box<Expr>, span: Span },
    /// `if cond { a } else { b }`
    If { condition: Box<Expr>, then_body: Box<Expr>, else_body: Option<Box<Expr>>, span: Span },
    /// `match subject { pattern -> expr ... }`
    Match { subject: Box<Expr>, arms: Vec<MatchArm>, span: Span },
    /// `left |> right`
    Pipeline { left: Box<Expr>, right: Box<Expr>, span: Span },
    /// `let x = value`, `let mut x = value`
    Let { name: Ident, is_mutable: bool, value: Box<Expr>, span: Span },
    /// `x = value`
    Assign { target: Ident, value: Box<Expr>, span: Span },
    /// `fn(params) { body }`
    Lambda { params: Vec<Param>, return_type: Option<TypeExpr>, body: Box<Expr>, span: Span },
    /// `receiver.field`
    FieldAccess { receiver: Box<Expr>, field: Ident, span: Span },
    /// `try expr`
    Try { expr: Box<Expr>, span: Span },
    /// `await expr`
    Await { expr: Box<Expr>, span: Span },
    /// `[a, b, c]`
    List { elements: Vec<Expr>, span: Span },
}

} // verus!
