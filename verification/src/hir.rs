//! The high-level intermediate representation: the program after name
//! resolution. Every name refers to a definition of the symbol table by its
//! index, a `DefId`, and every node carries its span.
use crate::span::Span;
use vstd::prelude::*;

verus! {

/// Index of a definition in the symbol table.
pub type DefId = usize;

/// What kind of thing a definition is.
#[derive(Debug, Clone, Copy, PartialEq, Eq, Structural)]
pub enum DefKind {
    Function,
    Parameter,
    /// A binding introduced by a pattern (match arm, let binding).
    LocalBinding,
    /// An ADT constructor (e.g., `Some`, `None`, `Ok`, `Err`).
    Constructor,
    /// A type name (e.g., `Option`, `Result`).
    Type,
    /// A compiler built-in function (e.g., `println`).
    Builtin,
    /// A name introduced by an import statement (`import io` binds `io`).
    Import,
}

/// A definition registered in the symbol table.
#[derive(Debug, Clone)]
pub struct DefData {
    pub name: String,
    pub kind: DefKind,
    /// Whether the binding was declared with `let mut`.
    pub is_mutable: bool,
    pub span: Span,
}

/// What a definition records, as plain values.
pub struct DefView {
    pub name: Seq<char>,
    pub kind: DefKind,
    pub is_mutable: bool,
    pub span: Span,
}

impl View for DefData {
    type V = DefView;

    open spec fn view(&self) -> DefView {
        DefView { name: self.name@, kind: self.kind, is_mutable: self.is_mutable, span: self.span }
    }
}

/// The definitions of a module, numbered in the order they were added.
#[derive(Debug)]
pub struct SymbolTable {
    defs: Vec<DefData>,
}

impl SymbolTable {
    pub closed spec fn spec_defs(&self) -> Seq<DefData> {
        self.defs@
    }

    /// The definitions as plain values, by index.
    pub open spec fn def_views(&self) -> Seq<DefView> {
        self.spec_defs().map_values(|d: DefData| d@)
    }

    /// An empty table.
    pub fn new() -> (t: SymbolTable)
        ensures
            t.spec_defs().len() == 0,
    {
        SymbolTable { defs: Vec::new() }
    }

    /// Adds a definition; returns its index.
    pub fn register(&mut self, data: DefData) -> (id: DefId)
        ensures
            id == old(self).spec_defs().len(),
            final(self).spec_defs() == old(self).spec_defs().push(data),
    {
        let id = self.defs.len();
        self.defs.push(data);
        id
    }

    /// The definition with index `id`.
    pub fn get(&self, id: DefId) -> (d: &DefData)
        requires
            id < self.spec_defs().len(),
        ensures
            *d == self.spec_defs()[id as int],
    {
        &self.defs[id]
    }

    /// The number of definitions.
    pub fn len(&self) -> (n: usize)
        ensures
            n == self.spec_defs().len(),
    {
        self.defs.len()
    }

    /// Every definition with its index, in order.
    pub fn iter(&self) -> (r: Vec<(DefId, &DefData)>)
        ensures
            r@.len() == self.spec_defs().len(),
            forall|i: int| 0 <= i < r@.len() ==> (#[trigger] r@[i]).0 == i && *r@[i].1 == self.spec_defs()[i],
    {
        let mut r: Vec<(DefId, &DefData)> = Vec::new();
        let mut i: usize = 0;
        while i < self.defs.len()
            invariant
                i <= self.defs@.len(),
                r@.len() == i,
                forall|j: int| 0 <= j < i ==> (#[trigger] r@[j]).0 == j && *r@[j].1 == self.defs@[j],
            decreases self.defs@.len() - i,
        {
            r.push((i, &self.defs[i]));
            i += 1;
        }
        r
    }

    /// Whether the table has no definition.
    pub fn is_empty(&self) -> (b: bool)
        ensures
            b == (self.spec_defs().len() == 0),
    {
        self.defs.len() == 0
    }
}

impl Default for SymbolTable {
    fn default() -> (t: SymbolTable)
        ensures
            t.spec_defs().len() == 0,
    {
        SymbolTable::new()
    }
}

/// Whether an item is exported.
#[derive(Debug, Clone, Copy, PartialEq, Eq, Structural)]
pub enum Visibility {
    Public,
    Private,
}

/// Binary operators.
#[derive(Debug, Clone, Copy, PartialEq, Eq, Structural)]
pub enum BinOp {
    Add,
    Sub,
    Mul,
    Div,
    Rem,
    Eq,
    NotEq,
    Lt,
    LtEq,
    Gt,
    GtEq,
    And,
    Or,
    Concat,
    Pipe,
}

/// Unary operators.
#[derive(Debug, Clone, Copy, PartialEq, Eq, Structural)]
pub enum UnOp {
    Neg,
    Not,
}

/// The kinds of literal.
#[derive(Debug, Clone, Copy, PartialEq, Eq, Structural)]
pub enum LiteralKind {
    Int,
    Float,
    String,
    Bool,
}

/// An import, with the definition of the name it binds.
#[derive(Debug)]
pub struct HirImport {
    pub def_id: DefId,
    /// An internal module or a Python module.
    pub kind: HirImportKind,
    pub span: Span,
}

/// Internal imports and Python FFI imports.
#[derive(Debug)]
pub enum HirImportKind {
    /// `import io`, `import gleam.io as stdio`: the path segments.
    Module { segments: Vec<String> },
    /// `from python import pathlib`: the Python module's name.
    Python { module_name: String },
}

/// A type expression: `Option(Int)` is `Option` applied to `Int`.
#[derive(Debug)]
pub struct HirTypeExpr {
    pub name: String,
    pub args: Vec<HirTypeExpr>,
    pub span: Span,
}

/// A function parameter.
#[derive(Debug)]
pub struct HirParam {
    pub def_id: DefId,
    /// Type annotation; `None` when omitted (lambda parameters).
    pub type_ann: Option<HirTypeExpr>,
    pub span: Span,
}

/// A literal value.
#[derive(Debug)]
pub struct HirLiteral {
    pub kind: LiteralKind,
    pub value: String,
    pub span: Span,
}

/// A pattern, with its bindings resolved.
#[derive(Debug)]
pub enum HirPattern {
    /// `_`
    Wildcard(Span),
    /// A variable binding.
    Variable(DefId, Span),
    /// `42`, `"hello"`, `True`
    Literal(HirLiteral),
    /// `Some(x)`, `None`
    Constructor { def_id: DefId, fields: Vec<HirPattern>, span: Span },
    /// `[head, ..rest]`, `[]`
    List { elements: Vec<HirPattern>, rest: Option<DefId>, span: Span },
}

/// An arm of a match expression.
#[derive(Debug)]
pub struct HirMatchArm {
    pub pattern: HirPattern,
    pub guard: Option<Box<HirExpr>>,
    pub body: HirExpr,
    pub span: Span,
}

/// An expression, with its names resolved.
#[derive(Debug)]
pub enum HirExpr {
    /// A literal value: `42`, `"hello"`.
    Literal(HirLiteral),
    /// A variable reference.
    Var(DefId, Span),
    /// A block: `{ expr1 expr2 }`.
    Block { exprs: Vec<HirExpr>, span: Span },
    /// A call: `f(a, b)`.
    Call { func: Box<HirExpr>, args: Vec<HirExpr>, span: Span },
    /// A binary operation: `a + b`.
    BinaryOp { op: BinOp, lhs: Box<HirExpr>, rhs: Box<HirExpr>, span: Span },
    /// A unary operation: `-x`, `!flag`.
    UnaryOp { op: UnOp, expr: Box<HirExpr>, span: Span },
    /// `if cond { a } else { b }`.
    If { condition: Box<HirExpr>, then_body: Box<HirExpr>, else_body: Option<Box<HirExpr>>, span: Span },
    /// `match subject { pattern -> expr ... }`.
    Match { subject: Box<HirExpr>, arms: Vec<HirMatchArm>, span: Span },
    /// `let x = expr` or `let mut x = expr`.
    Let { binding: DefId, value: Box<HirExpr>, is_mutable: bool, span: Span },
    /// A reassignment: `x = expr`.
    Assign { target: DefId, value: Box<HirExpr>, span: Span },
    /// An anonymous function: `fn(params) { body }`.
    Lambda { params: Vec<HirParam>, return_type: Option<HirTypeExpr>, body: Box<HirExpr>, span: Span },
    /// A field access: `expr.field`.
    FieldAccess { receiver: Box<HirExpr>, field: String, span: Span },
    /// `try expr`: an FFI call wrapped in exception handling.
    Try { expr: Box<HirExpr>, span: Span },
    /// `await expr`.
    Await { expr: Box<HirExpr>, span: Span },
    /// A list literal: `[1, 2, 3]`.
    List { elements: Vec<HirExpr>, span: Span },
}

/// A custom type (ADT) declaration.
#[derive(Debug)]
pub struct HirCustomType {
    pub def_id: DefId,
    pub visibility: Visibility,
    /// Type parameter names (e.g., `["a"]` for `Option(a)`).
    pub type_params: Vec<String>,
    /// Its variants.
    pub variants: Vec<HirVariant>,
    pub span: Span,
}

/// A variant of a custom type.
#[derive(Debug)]
pub struct HirVariant {
    /// The constructor's definition (`DefKind::Constructor`).
    pub def_id: DefId,
    /// The types of the constructor's fields.
    pub fields: Vec<HirFieldType>,
    pub span: Span,
}

/// A field of a variant, optionally labelled.
#[derive(Debug)]
pub struct HirFieldType {
    pub label: Option<String>,
    pub type_expr: HirTypeExpr,
    pub span: Span,
}

/// A function definition.
#[derive(Debug)]
pub struct HirFnDef {
    pub def_id: DefId,
    pub visibility: Visibility,
    pub params: Vec<HirParam>,
    /// Return type annotation; `None` when omitted.
    pub return_type: Option<HirTypeExpr>,
    pub body: HirExpr,
    /// Declared `async`.
    pub is_async: bool,
    /// Where `pure` was written, when the function is declared pure.
    pub pure_span: Option<Span>,
    pub span: Span,
}

/// A source file after name resolution.
#[derive(Debug)]
pub struct HirModule {
    pub imports: Vec<HirImport>,
    pub functions: Vec<HirFnDef>,
    pub custom_types: Vec<HirCustomType>,
    pub symbol_table: SymbolTable,
    pub span: Span,
}

/// The span of a pattern.
pub open spec fn pattern_span(p: HirPattern) -> Span {
    match p {
        HirPattern::Wildcard(span) => span,
        HirPattern::Variable(_, span) => span,
        HirPattern::Literal(lit) => lit.span,
        HirPattern::Constructor { span, .. } => span,
        HirPattern::List { span, .. } => span,
    }
}

impl HirPattern {
    /// The span of this pattern.
    pub fn span(&self) -> (s: Span)
        ensures
            s == pattern_span(*self),
    {
        match self {
            HirPattern::Wildcard(span) => *span,
            HirPattern::Variable(_, span) => *span,
            HirPattern::Literal(lit) => lit.span,
            HirPattern::Constructor { span, .. } => *span,
            HirPattern::List { span, .. } => *span,
        }
    }
}

/// The span of an expression.
pub open spec fn expr_span(e: HirExpr) -> Span {
    match e {
        HirExpr::Literal(lit) => lit.span,
        HirExpr::Var(_, span) => span,
        HirExpr::Block { span, .. } => span,
        HirExpr::Call { span, .. } => span,
        HirExpr::BinaryOp { span, .. } => span,
        HirExpr::UnaryOp { span, .. } => span,
        HirExpr::If { span, .. } => span,
        HirExpr::Match { span, .. } => span,
        HirExpr::Let { span, .. } => span,
        HirExpr::Assign { span, .. } => span,
        HirExpr::Lambda { span, .. } => span,
        HirExpr::FieldAccess { span, .. } => span,
        HirExpr::Try { span, .. } => span,
        HirExpr::Await { span, .. } => span,
        HirExpr::List { span, .. } => span,
    }
}

impl HirExpr {
    /// The span of this expression.
    pub fn span(&self) -> (s: Span)
        ensures
            s == expr_span(*self),
    {
        match self {
            HirExpr::Literal(lit) => lit.span,
            HirExpr::Var(_, span) => *span,
            HirExpr::Block { span, .. } => *span,
            HirExpr::Call { span, .. } => *span,
            HirExpr::BinaryOp { span, .. } => *span,
            HirExpr::UnaryOp { span, .. } => *span,
            HirExpr::If { span, .. } => *span,
            HirExpr::Match { span, .. } => *span,
            HirExpr::Let { span, .. } => *span,
            HirExpr::Assign { span, .. } => *span,
            HirExpr::Lambda { span, .. } => *span,
            HirExpr::FieldAccess { span, .. } => *span,
            HirExpr::Try { span, .. } => *span,
            HirExpr::Await { span, .. } => *span,
            HirExpr::List { span, .. } => *span,
        }
    }
}

} // verus!
