//! Name resolution: lowering the abstract syntax tree of a source file into
//! HIR. Every definition is registered in the symbol table and every name
//! is resolved to a definition through a stack of lexical scopes.
//!
//! Lowering runs in passes: first the imports and then every top-level name
//! (functions, types, constructors) are bound in module scope, so that
//! definitions can refer to one another in any order; then the function
//! bodies are lowered. A name that resolves nowhere, and a name bound twice
//! in one scope, are reported, and lowering goes on: an unresolved name gets
//! a definition of its own, so that every index in the result refers to an
//! entry of the symbol table. Two operators are desugared on the way:
//! `a <> b` becomes a call of the built-in `string_concat`, and
//! `x |> f(y)` becomes `f(x, y)`.
use crate::ast::{
    CustomType, Definition, Expr, Field, FnDef, Ident, Import, ImportSource, Literal, MatchArm, Module, Param,
    Pattern, TypeBody, TypeExpr, Variant,
};
use crate::diagnostic::{fresh_diagnostic, Diagnostic, DiagnosticView, LabelStyle, LabelView, Severity};
use crate::hir::{
    BinOp, DefData, DefId, DefKind, DefView, HirCustomType, HirExpr, HirFieldType, HirFnDef, HirImport,
    HirImportKind, HirLiteral, HirMatchArm, HirModule, HirParam, HirPattern, HirTypeExpr, HirVariant, SymbolTable,
};
use crate::purity::{arms_ids_ok, enclose, expr_ids_ok, exprs_ids_ok, module_wf};
use crate::scope::{resolve_in, resolve_spec, HirLowerResult, ScopeStack};
use crate::span::Span;
use vstd::prelude::*;

verus! {

// ── The state of lowering ───────────────────────────────────────

/// Where lowering stands: the scopes, outermost first, the definitions
/// registered so far, and the diagnostics reported so far.
pub struct LowerState {
    pub env: Seq<Map<Seq<char>, DefId>>,
    pub defs: Seq<DefView>,
    pub diags: Seq<DiagnosticView>,
}

/// The index of the built-in `string_concat`, the first definition of
/// every table.
pub open spec fn string_concat_def() -> DefId {
    0
}

/// The built-ins, in the order they are registered.
pub open spec fn builtin_names() -> Seq<Seq<char>> {
    seq!["string_concat"@, "println"@, "list"@, "option"@]
}

/// A built-in's definition.
pub open spec fn builtin_def(name: Seq<char>) -> DefView {
    DefView {
        name,
        kind: DefKind::Builtin,
        is_mutable: false,
        span: Span { file_id: crate::span::FileId(0), start: 0, end: 0 },
    }
}

/// Module scope binding the first `k` built-ins.
pub open spec fn builtin_scope(k: int) -> Map<Seq<char>, DefId>
    decreases k,
{
    if k <= 0 {
        Map::empty()
    } else {
        builtin_scope(k - 1).insert(builtin_names()[k - 1], (k - 1) as DefId)
    }
}

/// The state lowering starts from: the built-ins registered and bound in
/// module scope.
pub open spec fn initial_state() -> LowerState {
    LowerState {
        env: seq![builtin_scope(4)],
        defs: builtin_names().map_values(|n: Seq<char>| builtin_def(n)),
        diags: Seq::empty(),
    }
}

/// Entering a scope of its own.
pub open spec fn push_scope(s: LowerState) -> LowerState {
    LowerState { env: s.env.push(Map::empty()), ..s }
}

/// Leaving the innermost scope.
pub open spec fn pop_scope(s: LowerState) -> LowerState {
    LowerState { env: s.env.drop_last(), ..s }
}

/// An error with no code, labels, hints or notes.
pub open spec fn error_at(message: Seq<char>, span: Span) -> DiagnosticView {
    fresh_diagnostic(Severity::Error, message, span)
}

/// The report of `name` bound a second time in one scope; `what` is
/// `definition` in module scope and `binding` elsewhere. The label points
/// at the earlier definition.
pub open spec fn duplicate_diag(what: Seq<char>, name: Seq<char>, span: Span, earlier: Span) -> DiagnosticView {
    DiagnosticView {
        labels: seq![LabelView { span: earlier, message: "previously defined here"@, style: LabelStyle::Secondary }],
        ..error_at("duplicate "@ + what + " `"@ + name + "`"@, span)
    }
}

/// Registers a new definition and binds its name in the innermost scope,
/// without a report when the name was bound there already.
pub open spec fn define_new(s: LowerState, d: DefView) -> LowerState {
    LowerState {
        env: s.env.update(s.env.len() - 1, s.env.last().insert(d.name, s.defs.len() as DefId)),
        defs: s.defs.push(d),
        diags: s.diags,
    }
}

/// Registers a new definition and binds its name in the innermost scope,
/// reporting a duplicate when the name was bound there already.
pub open spec fn bind(s: LowerState, d: DefView, what: Seq<char>) -> LowerState {
    let inner = s.env.last();
    let t = define_new(s, d);
    if inner.dom().contains(d.name) {
        LowerState {
            diags: s.diags.push(duplicate_diag(what, d.name, d.span, s.defs[inner[d.name] as int].span)),
            ..t
        }
    } else {
        t
    }
}

/// A name that resolves nowhere: reported, and given a definition of its
/// own that no scope binds. `what` is `name` or `constructor`.
pub open spec fn unresolved(s: LowerState, what: Seq<char>, d: DefView) -> LowerState {
    LowerState {
        env: s.env,
        defs: s.defs.push(d),
        diags: s.diags.push(error_at("unresolved "@ + what + " `"@ + d.name + "`"@, d.span)),
    }
}

/// The definition registered for the name `name`.
pub open spec fn def_view(name: Ident, kind: DefKind, is_mutable: bool) -> DefView {
    DefView { name: name.name@, kind, is_mutable, span: name.span }
}

/// Every index that a scope binds refers to a registered definition.
pub open spec fn env_ok(s: LowerState) -> bool {
    &&& s.env.len() > 0
    &&& forall|k: int, n: Seq<char>|
        0 <= k < s.env.len() && #[trigger] s.env[k].dom().contains(n) ==> s.env[k][n] < s.defs.len()
}

// ── Leaves: literals and type expressions ───────────────────────

/// `h` is the literal `l`.
pub open spec fn literal_ok(l: Literal, h: HirLiteral) -> bool {
    h.kind == l.kind && h.value@ == l.value@ && h.span == l.span
}

/// `h` is the type expression `t`, argument by argument.
pub open spec fn type_ok(t: TypeExpr, h: HirTypeExpr) -> bool
    decreases t, 1int,
{
    &&& h.name@ == t.name.name@
    &&& h.span == t.span
    &&& h.args@.len() == t.args@.len()
    &&& types_ok(t.args@, h.args@, t.args@.len() as int)
}

/// The first `k` of `hs` are the type expressions `ts`.
pub open spec fn types_ok(ts: Seq<TypeExpr>, hs: Seq<HirTypeExpr>, k: int) -> bool
    decreases ts, k,
{
    if k <= 0 || k > ts.len() || k > hs.len() {
        true
    } else {
        types_ok(ts, hs, k - 1) && type_ok(ts[k - 1], hs[k - 1])
    }
}

pub open spec fn opt_type_ok(t: Option<TypeExpr>, h: Option<HirTypeExpr>) -> bool {
    match (t, h) {
        (Some(a), Some(b)) => type_ok(a, b),
        (None, None) => true,
        _ => false,
    }
}

// ── Parameters ──────────────────────────────────────────────────

/// Lowering the first `k` parameters `ps` into `hs`: each is registered
/// and bound in the innermost scope, a name bound twice is reported.
pub open spec fn params_rel(s: LowerState, ps: Seq<Param>, hs: Seq<HirParam>, k: int) -> (bool, LowerState)
    decreases k,
{
    if k <= 0 || k > ps.len() || k > hs.len() {
        (true, s)
    } else {
        let r = params_rel(s, ps, hs, k - 1);
        let p = ps[k - 1];
        let h = hs[k - 1];
        (
            r.0 && h.def_id == r.1.defs.len() && h.span == p.span && opt_type_ok(p.type_ann, h.type_ann),
            bind(r.1, def_view(p.name, DefKind::Parameter, false), "binding"@),
        )
    }
}

// ── Patterns ────────────────────────────────────────────────────

/// Lowering pattern `p` into `hp` in state `s`: whether `hp` is what
/// lowering gives, and the state after. Bindings are registered and bound
/// in the innermost scope from left to right; a constructor's name is
/// resolved after its fields.
pub open spec fn pattern_rel(s: LowerState, p: Pattern, hp: HirPattern) -> (bool, LowerState)
    decreases p, 1int,
{
    match p {
        Pattern::Wildcard(span) => (hp matches HirPattern::Wildcard(x) && x == span, s),
        Pattern::Variable(id) => (
            hp matches HirPattern::Variable(d, x) && d == s.defs.len() && x == id.span,
            bind(s, def_view(id, DefKind::LocalBinding, false), "binding"@),
        ),
        Pattern::Literal(l) => (hp matches HirPattern::Literal(hl) && literal_ok(l, hl), s),
        Pattern::Constructor { name, fields, span } => match hp {
            HirPattern::Constructor { def_id, fields: hf, span: hspan } => {
                let r = patterns_rel(s, fields@, hf@, fields@.len() as int);
                let ok = r.0 && hspan == span && hf@.len() == fields@.len();
                match resolve_spec(r.1.env, name.name@) {
                    Some(d) => (ok && def_id == d, r.1),
                    None => (
                        ok && def_id == r.1.defs.len(),
                        unresolved(r.1, "constructor"@, def_view(name, DefKind::Constructor, false)),
                    ),
                }
            },
            _ => (false, s),
        },
        Pattern::List { elements, rest, span } => match hp {
            HirPattern::List { elements: he, rest: hr, span: hspan } => {
                let r = patterns_rel(s, elements@, he@, elements@.len() as int);
                let ok = r.0 && hspan == span && he@.len() == elements@.len();
                match rest {
                    Some(id) => (
                        ok && hr == Some(r.1.defs.len() as DefId),
                        bind(r.1, def_view(id, DefKind::LocalBinding, false), "binding"@),
                    ),
                    None => (ok && hr is None, r.1),
                }
            },
            _ => (false, s),
        },
    }
}

/// Lowering the first `k` patterns of `ps` into `hs`, left to right.
pub open spec fn patterns_rel(s: LowerState, ps: Seq<Pattern>, hs: Seq<HirPattern>, k: int) -> (bool, LowerState)
    decreases ps, k,
{
    if k <= 0 || k > ps.len() || k > hs.len() {
        (true, s)
    } else {
        let r = patterns_rel(s, ps, hs, k - 1);
        let r2 = pattern_rel(r.1, ps[k - 1], hs[k - 1]);
        (r.0 && r2.0, r2.1)
    }
}

// ── Expressions ─────────────────────────────────────────────────

/// Whether `e` lowers to a call: a call, a string concatenation or a
/// pipeline.
pub open spec fn lowers_to_call(e: Expr) -> bool {
    match e {
        Expr::Call { .. } => true,
        Expr::BinaryOp { op, .. } => op == BinOp::Concat,
        Expr::Pipeline { .. } => true,
        _ => false,
    }
}

/// Resolving a reference to `id`: its binding in the innermost scope that
/// has one, or else a definition of its own and a report.
pub open spec fn reference(s: LowerState, id: Ident, d: DefId, span: Span) -> (bool, LowerState) {
    match resolve_spec(s.env, id.name@) {
        Some(x) => (d == x && span == id.span, s),
        None => (
            d == s.defs.len() && span == id.span,
            unresolved(s, "name"@, def_view(id, DefKind::LocalBinding, false)),
        ),
    }
}

/// Lowering expression `e` into `h` in state `s`: whether `h` is what
/// lowering gives, and the state after. Operands are lowered left to
/// right; blocks, anonymous functions and match arms get a scope of their
/// own.
pub open spec fn expr_rel(s: LowerState, e: Expr, h: HirExpr) -> (bool, LowerState)
    decreases e, 1int,
{
    match e {
        Expr::Literal(l) => (h matches HirExpr::Literal(hl) && literal_ok(l, hl), s),
        Expr::Variable(id) => match h {
            HirExpr::Var(d, span) => reference(s, id, d, span),
            _ => (false, s),
        },
        Expr::Block { exprs, span } => match h {
            HirExpr::Block { exprs: hs, span: hspan } => {
                let r = exprs_rel(push_scope(s), exprs@, hs@, exprs@.len() as int);
                (r.0 && hspan == span && hs@.len() == exprs@.len(), pop_scope(r.1))
            },
            _ => (false, s),
        },
        Expr::Call { span, .. } => match h {
            HirExpr::Call { func, args, span: hspan } => {
                let r = call_rel(s, e, *func, args@);
                (r.0 && hspan == span, r.1)
            },
            _ => (false, s),
        },
        Expr::Pipeline { span, .. } => match h {
            HirExpr::Call { func, args, span: hspan } => {
                let r = call_rel(s, e, *func, args@);
                (r.0 && hspan == span, r.1)
            },
            _ => (false, s),
        },
        Expr::BinaryOp { op, lhs, rhs, span } => if op == BinOp::Concat {
            match h {
                HirExpr::Call { func, args, span: hspan } => {
                    let r = call_rel(s, e, *func, args@);
                    (r.0 && hspan == span, r.1)
                },
                _ => (false, s),
            }
        } else {
            match h {
                HirExpr::BinaryOp { op: hop, lhs: hl, rhs: hr, span: hspan } => {
                    let r1 = expr_rel(s, *lhs, *hl);
                    let r2 = expr_rel(r1.1, *rhs, *hr);
                    (r1.0 && r2.0 && hop == op && hspan == span, r2.1)
                },
                _ => (false, s),
            }
        },
        Expr::UnaryOp { op, expr, span } => match h {
            HirExpr::UnaryOp { op: hop, expr: he, span: hspan } => {
                let r = expr_rel(s, *expr, *he);
                (r.0 && hop == op && hspan == span, r.1)
            },
            _ => (false, s),
        },
        Expr::If { condition, then_body, else_body, span } => match h {
            HirExpr::If { condition: hc, then_body: ht, else_body: he, span: hspan } => {
                let r1 = expr_rel(s, *condition, *hc);
                let r2 = expr_rel(r1.1, *then_body, *ht);
                match (else_body, he) {
                    (Some(a), Some(b)) => {
                        let r3 = expr_rel(r2.1, *a, *b);
                        (r1.0 && r2.0 && r3.0 && hspan == span, r3.1)
                    },
                    (None, None) => (r1.0 && r2.0 && hspan == span, r2.1),
                    _ => (false, s),
                }
            },
            _ => (false, s),
        },
        Expr::Match { subject, arms, span } => match h {
            HirExpr::Match { subject: hs, arms: ha, span: hspan } => {
                let r1 = expr_rel(s, *subject, *hs);
                let r2 = arms_rel(r1.1, arms@, ha@, arms@.len() as int);
                (r1.0 && r2.0 && ha@.len() == arms@.len() && hspan == span, r2.1)
            },
            _ => (false, s),
        },
        Expr::Let { name, is_mutable, value, span } => match h {
            HirExpr::Let { binding, value: hv, is_mutable: hm, span: hspan } => {
                let r = expr_rel(s, *value, *hv);
                (
                    r.0 && binding == r.1.defs.len() && hm == is_mutable && hspan == span,
                    define_new(r.1, def_view(name, DefKind::LocalBinding, is_mutable)),
                )
            },
            _ => (false, s),
        },
        Expr::Assign { target, value, span } => match h {
            HirExpr::Assign { target: ht, value: hv, span: hspan } => {
                let r1 = reference(s, target, ht, target.span);
                let r2 = expr_rel(r1.1, *value, *hv);
                (r1.0 && r2.0 && hspan == span, r2.1)
            },
            _ => (false, s),
        },
        Expr::Lambda { params, return_type, body, span } => match h {
            HirExpr::Lambda { params: hp, return_type: hrt, body: hb, span: hspan } => {
                let r1 = params_rel(push_scope(s), params@, hp@, params@.len() as int);
                let r2 = expr_rel(r1.1, *body, *hb);
                (
                    r1.0 && r2.0 && hp@.len() == params@.len() && opt_type_ok(return_type, hrt) && hspan == span,
                    pop_scope(r2.1),
                )
            },
            _ => (false, s),
        },
        Expr::FieldAccess { receiver, field, span } => match h {
            HirExpr::FieldAccess { receiver: hr, field: hf, span: hspan } => {
                let r = expr_rel(s, *receiver, *hr);
                (r.0 && hf@ == field.name@ && hspan == span, r.1)
            },
            _ => (false, s),
        },
        Expr::Try { expr, span } => match h {
            HirExpr::Try { expr: he, span: hspan } => {
                let r = expr_rel(s, *expr, *he);
                (r.0 && hspan == span, r.1)
            },
            _ => (false, s),
        },
        Expr::Await { expr, span } => match h {
            HirExpr::Await { expr: he, span: hspan } => {
                let r = expr_rel(s, *expr, *he);
                (r.0 && hspan == span, r.1)
            },
            _ => (false, s),
        },
        Expr::List { elements, span } => match h {
            HirExpr::List { elements: hs, span: hspan } => {
                let r = exprs_rel(s, elements@, hs@, elements@.len() as int);
                (r.0 && hs@.len() == elements@.len() && hspan == span, r.1)
            },
            _ => (false, s),
        },
    }
}

/// Lowering `e`, which lowers to a call, into callee `hf` and arguments
/// `ha`. `a <> b` calls `string_concat` with `a` and `b`; `x |> f(y)`
/// calls `f` with `x` and then `y`, and `x |> g`, where `g` is no call,
/// calls `g` with `x`.
pub open spec fn call_rel(s: LowerState, e: Expr, hf: HirExpr, ha: Seq<HirExpr>) -> (bool, LowerState)
    decreases e, 0int,
{
    match e {
        Expr::Call { func, args, .. } => {
            let r1 = expr_rel(s, *func, hf);
            let r2 = exprs_rel(r1.1, args@, ha, args@.len() as int);
            (r1.0 && r2.0 && ha.len() == args@.len(), r2.1)
        },
        Expr::BinaryOp { lhs, rhs, span, .. } => if ha.len() == 2 {
            let r1 = expr_rel(s, *lhs, ha[0]);
            let r2 = expr_rel(r1.1, *rhs, ha[1]);
            (r1.0 && r2.0 && (hf matches HirExpr::Var(d, x) && d == string_concat_def() && x == span), r2.1)
        } else {
            (false, s)
        },
        Expr::Pipeline { left, right, .. } => if ha.len() >= 1 {
            let r1 = expr_rel(s, *left, ha[0]);
            if lowers_to_call(*right) {
                let r2 = call_rel(r1.1, *right, hf, ha.skip(1));
                (r1.0 && r2.0, r2.1)
            } else {
                let r2 = expr_rel(r1.1, *right, hf);
                (r1.0 && r2.0 && ha.len() == 1, r2.1)
            }
        } else {
            (false, s)
        },
        _ => (false, s),
    }
}

/// Lowering the first `k` expressions of `es` into `hs`, left to right.
pub open spec fn exprs_rel(s: LowerState, es: Seq<Expr>, hs: Seq<HirExpr>, k: int) -> (bool, LowerState)
    decreases es, k,
{
    if k <= 0 || k > es.len() || k > hs.len() {
        (true, s)
    } else {
        let r = exprs_rel(s, es, hs, k - 1);
        let r2 = expr_rel(r.1, es[k - 1], hs[k - 1]);
        (r.0 && r2.0, r2.1)
    }
}

/// Lowering a match arm in a scope of its own: the pattern, then the
/// guard, then the body.
pub open spec fn arm_rel(s: LowerState, a: MatchArm, ha: HirMatchArm) -> (bool, LowerState)
    decreases a, 0int,
{
    let r1 = pattern_rel(push_scope(s), a.pattern, ha.pattern);
    let r2 = match (a.guard, ha.guard) {
        (Some(g), Some(hg)) => expr_rel(r1.1, g, *hg),
        (None, None) => (true, r1.1),
        _ => (false, r1.1),
    };
    let r3 = expr_rel(r2.1, a.body, ha.body);
    (r1.0 && r2.0 && r3.0 && ha.span == a.span, pop_scope(r3.1))
}

/// Lowering the first `k` arms of `arms` into `hs`, in order.
pub open spec fn arms_rel(s: LowerState, arms: Seq<MatchArm>, hs: Seq<HirMatchArm>, k: int) -> (bool, LowerState)
    decreases arms, k,
{
    if k <= 0 || k > arms.len() || k > hs.len() {
        (true, s)
    } else {
        let r = arms_rel(s, arms, hs, k - 1);
        let r2 = arm_rel(r.1, arms[k - 1], hs[k - 1]);
        (r.0 && r2.0, r2.1)
    }
}

// ── Imports ─────────────────────────────────────────────────────

/// The name an import binds: its alias, or else the last segment of its
/// path, or the Python module. An import with neither alias nor path binds
/// nothing and is dropped.
pub open spec fn bound_ident(imp: Import) -> Option<Ident> {
    match imp.alias {
        Some(a) => Some(a),
        None => match imp.source {
            ImportSource::Module(segs) => if segs@.len() > 0 {
                Some(segs@.last())
            } else {
                None
            },
            ImportSource::Python(m) => Some(m),
        },
    }
}

/// The imports that bind a name, in order.
pub open spec fn kept_imports(imps: Seq<Import>) -> Seq<Import>
    decreases imps.len(),
{
    if imps.len() == 0 {
        Seq::empty()
    } else {
        let r = kept_imports(imps.drop_last());
        if bound_ident(imps.last()) is Some {
            r.push(imps.last())
        } else {
            r
        }
    }
}

/// `k` says what the import brings in: the path's segments, or the
/// Python module.
pub open spec fn import_kind_ok(src: ImportSource, k: HirImportKind) -> bool {
    match (src, k) {
        (ImportSource::Module(segs), HirImportKind::Module { segments }) => {
            &&& segments@.len() == segs@.len()
            &&& forall|i: int| 0 <= i < segs@.len() ==> (#[trigger] segments@[i])@ == segs@[i].name@
        },
        (ImportSource::Python(m), HirImportKind::Python { module_name }) => module_name@ == m.name@,
        _ => false,
    }
}

/// Registering the first `k` of the imports `imps`, each of which binds a
/// name, as `his`: each name is bound in module scope, a name bound twice
/// is reported.
pub open spec fn imports_rel(s: LowerState, imps: Seq<Import>, his: Seq<HirImport>, k: int) -> (bool, LowerState)
    decreases k,
{
    if k <= 0 || k > imps.len() || k > his.len() {
        (true, s)
    } else {
        let r = imports_rel(s, imps, his, k - 1);
        let imp = imps[k - 1];
        let h = his[k - 1];
        (
            r.0 && h.def_id == r.1.defs.len() && h.span == imp.span && import_kind_ok(imp.source, h.kind)
                && bound_ident(imp) is Some,
            bind(r.1, def_view(bound_ident(imp)->0, DefKind::Import, false), "definition"@),
        )
    }
}

// ── Top-level names ─────────────────────────────────────────────

/// Registering the constructors of the first `k` variants.
pub open spec fn reg_variants(s: LowerState, vs: Seq<Variant>, k: int) -> LowerState
    decreases k,
{
    if k <= 0 || k > vs.len() {
        s
    } else {
        bind(reg_variants(s, vs, k - 1), def_view(vs[k - 1].name, DefKind::Constructor, false), "definition"@)
    }
}

/// Registering a definition's names in module scope: a function's name;
/// a type's name, then its constructors.
pub open spec fn reg_def(s: LowerState, d: Definition) -> LowerState {
    match d {
        Definition::Function(f) => bind(s, def_view(f.name, DefKind::Function, false), "definition"@),
        Definition::CustomType(ct) => {
            let s1 = bind(s, def_view(ct.name, DefKind::Type, false), "definition"@);
            match ct.body {
                TypeBody::Variants(vs) => reg_variants(s1, vs@, vs@.len() as int),
                TypeBody::Record(_) => s1,
            }
        },
    }
}

/// Registering the names of the first `k` definitions.
pub open spec fn reg_defs(s: LowerState, ds: Seq<Definition>, k: int) -> LowerState
    decreases k,
{
    if k <= 0 || k > ds.len() {
        s
    } else {
        reg_def(reg_defs(s, ds, k - 1), ds[k - 1])
    }
}

/// The index registered for definition `j` when registration starts from
/// `base`.
pub open spec fn def_index(base: LowerState, ds: Seq<Definition>, j: int) -> int {
    reg_defs(base, ds, j).defs.len() as int
}

// ── Functions and types ─────────────────────────────────────────

/// Lowering function `f`, registered as `id`, into `hf`: its parameters and
/// body in a scope of their own.
pub open spec fn fn_rel(s: LowerState, f: FnDef, hf: HirFnDef, id: DefId) -> (bool, LowerState) {
    let r1 = params_rel(push_scope(s), f.params@, hf.params@, f.params@.len() as int);
    let r2 = expr_rel(r1.1, f.body, hf.body);
    (
        r1.0 && r2.0 && hf.def_id == id && hf.visibility == f.visibility && hf.params@.len() == f.params@.len()
            && opt_type_ok(f.return_type, hf.return_type) && hf.is_async == f.is_async && hf.pure_span
            == f.pure_span && hf.span == f.span,
        pop_scope(r2.1),
    )
}

/// Lowering the functions among the first `k` definitions, in order, into
/// `hfs`: whether they are what lowering gives, the state after, and how
/// many there are.
pub open spec fn fns_rel(s: LowerState, base: LowerState, ds: Seq<Definition>, hfs: Seq<HirFnDef>, k: int) -> (
    bool,
    LowerState,
    int,
)
    decreases k,
{
    if k <= 0 || k > ds.len() {
        (true, s, 0)
    } else {
        let r = fns_rel(s, base, ds, hfs, k - 1);
        match ds[k - 1] {
            Definition::Function(f) => {
                let r2 = fn_rel(r.1, f, hfs[r.2], def_index(base, ds, k - 1) as DefId);
                (r.0 && r.2 < hfs.len() && r2.0, r2.1, r.2 + 1)
            },
            Definition::CustomType(_) => r,
        }
    }
}

/// `h` is the field `f`: its label, its type, its span.
pub open spec fn field_ok(f: Field, h: HirFieldType) -> bool {
    &&& match (f.label, h.label) {
        (Some(a), Some(b)) => b@ == a.name@,
        (None, None) => true,
        _ => false,
    }
    &&& type_ok(f.type_expr, h.type_expr)
    &&& h.span == f.span
}

/// `hs` are the fields `fs`, in order.
pub open spec fn fields_ok(fs: Seq<Field>, hs: Seq<HirFieldType>) -> bool {
    hs.len() == fs.len() && forall|i: int| 0 <= i < fs.len() ==> field_ok(fs[i], #[trigger] hs[i])
}

/// `h` is custom type `ct`, registered as `id`; its constructors were
/// registered right after it.
pub open spec fn custom_type_ok(ct: CustomType, h: HirCustomType, id: int) -> bool {
    &&& h.def_id == id
    &&& h.visibility == ct.visibility
    &&& h.type_params@.len() == ct.type_params@.len()
    &&& forall|i: int| 0 <= i < ct.type_params@.len() ==> (#[trigger] h.type_params@[i])@ == ct.type_params@[i].name@
    &&& match ct.body {
        TypeBody::Variants(vs) => {
            &&& h.variants@.len() == vs@.len()
            &&& forall|v: int|
                0 <= v < vs@.len() ==> {
                    let hv = #[trigger] h.variants@[v];
                    &&& hv.def_id == id + 1 + v
                    &&& fields_ok(vs@[v].fields@, hv.fields@)
                    &&& hv.span == vs@[v].span
                }
        },
        TypeBody::Record(_) => h.variants@.len() == 0,
    }
    &&& h.span == ct.span
}

/// The custom types among the first `k` definitions are the first of
/// `hcs`, in order; the second component counts them.
pub open spec fn types_rel(base: LowerState, ds: Seq<Definition>, hcs: Seq<HirCustomType>, k: int) -> (bool, int)
    decreases k,
{
    if k <= 0 || k > ds.len() {
        (true, 0)
    } else {
        let r = types_rel(base, ds, hcs, k - 1);
        match ds[k - 1] {
            Definition::CustomType(ct) => (
                r.0 && r.1 < hcs.len() && custom_type_ok(ct, hcs[r.1], def_index(base, ds, k - 1)),
                r.1 + 1,
            ),
            Definition::Function(_) => r,
        }
    }
}

/// `m`, with diagnostics `diags`, is what lowering `ast` gives. The
/// built-ins are registered first, then the imports that bind a name, then
/// each definition's names in order: a function's, or a type's followed by
/// its constructors'. Then the functions are lowered in order, each in a
/// scope of its own under module scope, and every registration along the
/// way is in the symbol table, every report in the diagnostics.
pub open spec fn lowers_module(ast: Module, m: HirModule, diags: Seq<DiagnosticView>) -> bool {
    let kept = kept_imports(ast.imports@);
    let ri = imports_rel(initial_state(), kept, m.imports@, kept.len() as int);
    let ds = ast.definitions@;
    let base = ri.1;
    let rf = fns_rel(reg_defs(base, ds, ds.len() as int), base, ds, m.functions@, ds.len() as int);
    let rt = types_rel(base, ds, m.custom_types@, ds.len() as int);
    &&& m.imports@.len() == kept.len()
    &&& ri.0
    &&& m.functions@.len() == rf.2
    &&& rf.0
    &&& m.custom_types@.len() == rt.1
    &&& rt.0
    &&& m.symbol_table.def_views() == rf.1.defs
    &&& diags == rf.1.diags
    &&& m.span == ast.span
}

// ── Prefixes ────────────────────────────────────────────────────

proof fn lemma_types_prefix(ts: Seq<TypeExpr>, a: Seq<HirTypeExpr>, b: Seq<HirTypeExpr>, k: int)
    requires
        0 <= k <= a.len(),
        k <= b.len(),
        forall|j: int| 0 <= j < k ==> a[j] == b[j],
    ensures
        types_ok(ts, a, k) == types_ok(ts, b, k),
    decreases k,
{
    if k > 0 {
        lemma_types_prefix(ts, a, b, k - 1);
    }
}

proof fn lemma_params_prefix(s: LowerState, ps: Seq<Param>, a: Seq<HirParam>, b: Seq<HirParam>, k: int)
    requires
        0 <= k <= a.len(),
        k <= b.len(),
        forall|j: int| 0 <= j < k ==> a[j] == b[j],
    ensures
        params_rel(s, ps, a, k) == params_rel(s, ps, b, k),
    decreases k,
{
    if k > 0 {
        lemma_params_prefix(s, ps, a, b, k - 1);
    }
}

proof fn lemma_patterns_prefix(s: LowerState, ps: Seq<Pattern>, a: Seq<HirPattern>, b: Seq<HirPattern>, k: int)
    requires
        0 <= k <= a.len(),
        k <= b.len(),
        forall|j: int| 0 <= j < k ==> a[j] == b[j],
    ensures
        patterns_rel(s, ps, a, k) == patterns_rel(s, ps, b, k),
    decreases k,
{
    if k > 0 {
        lemma_patterns_prefix(s, ps, a, b, k - 1);
    }
}

proof fn lemma_exprs_prefix(s: LowerState, es: Seq<Expr>, a: Seq<HirExpr>, b: Seq<HirExpr>, k: int)
    requires
        0 <= k <= a.len(),
        k <= b.len(),
        forall|j: int| 0 <= j < k ==> a[j] == b[j],
    ensures
        exprs_rel(s, es, a, k) == exprs_rel(s, es, b, k),
    decreases k,
{
    if k > 0 {
        lemma_exprs_prefix(s, es, a, b, k - 1);
    }
}

proof fn lemma_arms_prefix(s: LowerState, arms: Seq<MatchArm>, a: Seq<HirMatchArm>, b: Seq<HirMatchArm>, k: int)
    requires
        0 <= k <= a.len(),
        k <= b.len(),
        forall|j: int| 0 <= j < k ==> a[j] == b[j],
    ensures
        arms_rel(s, arms, a, k) == arms_rel(s, arms, b, k),
    decreases k,
{
    if k > 0 {
        lemma_arms_prefix(s, arms, a, b, k - 1);
    }
}

proof fn lemma_imports_prefix(
    s: LowerState,
    a: Seq<Import>,
    b: Seq<Import>,
    ha: Seq<HirImport>,
    hb: Seq<HirImport>,
    k: int,
)
    requires
        0 <= k <= a.len(),
        k <= b.len(),
        k <= ha.len(),
        k <= hb.len(),
        forall|j: int| 0 <= j < k ==> a[j] == b[j] && ha[j] == hb[j],
    ensures
        imports_rel(s, a, ha, k) == imports_rel(s, b, hb, k),
    decreases k,
{
    if k > 0 {
        lemma_imports_prefix(s, a, b, ha, hb, k - 1);
    }
}

proof fn lemma_fns_prefix(s: LowerState, base: LowerState, ds: Seq<Definition>, a: Seq<HirFnDef>, b: Seq<HirFnDef>, k: int)
    requires
        0 <= k <= ds.len(),
        a.len() <= b.len(),
        forall|j: int| 0 <= j < a.len() ==> a[j] == b[j],
        fns_rel(s, base, ds, a, k).2 <= a.len(),
    ensures
        fns_rel(s, base, ds, a, k) == fns_rel(s, base, ds, b, k),
        0 <= fns_rel(s, base, ds, a, k).2,
    decreases k,
{
    if k > 0 {
        let r = fns_rel(s, base, ds, a, k - 1);
        assert(r.2 <= fns_rel(s, base, ds, a, k).2);
        lemma_fns_prefix(s, base, ds, a, b, k - 1);
        match ds[k - 1] {
            Definition::Function(f) => {
                assert(r.2 < a.len());
                assert(a[r.2] == b[r.2]);
            },
            Definition::CustomType(_) => {},
        }
    }
}

proof fn lemma_types_rel_prefix(base: LowerState, ds: Seq<Definition>, a: Seq<HirCustomType>, b: Seq<HirCustomType>, k: int)
    requires
        0 <= k <= ds.len(),
        a.len() <= b.len(),
        forall|j: int| 0 <= j < a.len() ==> a[j] == b[j],
        types_rel(base, ds, a, k).1 <= a.len(),
    ensures
        types_rel(base, ds, a, k) == types_rel(base, ds, b, k),
        0 <= types_rel(base, ds, a, k).1,
    decreases k,
{
    if k > 0 {
        let r = types_rel(base, ds, a, k - 1);
        assert(r.1 <= types_rel(base, ds, a, k).1);
        lemma_types_rel_prefix(base, ds, a, b, k - 1);
        match ds[k - 1] {
            Definition::CustomType(ct) => {
                assert(r.1 < a.len());
                assert(a[r.1] == b[r.1]);
            },
            Definition::Function(_) => {},
        }
    }
}

proof fn lemma_reg_variants_len(s: LowerState, vs: Seq<Variant>, k: int)
    requires
        0 <= k <= vs.len(),
        s.env.len() > 0,
    ensures
        reg_variants(s, vs, k).defs.len() == s.defs.len() + k,
        reg_variants(s, vs, k).env.len() == s.env.len(),
    decreases k,
{
    if k > 0 {
        lemma_reg_variants_len(s, vs, k - 1);
    }
}

// ── Indices stay in the table ───────────────────────────────────

proof fn lemma_expr_ids_mono(n: int, m: int, e: HirExpr)
    requires
        n <= m,
        expr_ids_ok(n, e),
    ensures
        expr_ids_ok(m, e),
    decreases e, 0int,
{
    match e {
        HirExpr::Block { exprs, .. } => lemma_exprs_ids_mono(n, m, exprs@, exprs@.len() as int),
        HirExpr::List { elements, .. } => lemma_exprs_ids_mono(n, m, elements@, elements@.len() as int),
        HirExpr::Call { func, args, .. } => {
            lemma_expr_ids_mono(n, m, *func);
            lemma_exprs_ids_mono(n, m, args@, args@.len() as int);
        },
        HirExpr::BinaryOp { lhs, rhs, .. } => {
            lemma_expr_ids_mono(n, m, *lhs);
            lemma_expr_ids_mono(n, m, *rhs);
        },
        HirExpr::UnaryOp { expr, .. } => lemma_expr_ids_mono(n, m, *expr),
        HirExpr::If { condition, then_body, else_body, .. } => {
            lemma_expr_ids_mono(n, m, *condition);
            lemma_expr_ids_mono(n, m, *then_body);
            match else_body {
                Some(alt) => lemma_expr_ids_mono(n, m, *alt),
                None => {},
            }
        },
        HirExpr::Match { subject, arms, .. } => {
            lemma_expr_ids_mono(n, m, *subject);
            lemma_arms_ids_mono(n, m, arms@, arms@.len() as int);
        },
        HirExpr::Let { value, .. } => lemma_expr_ids_mono(n, m, *value),
        HirExpr::Assign { value, .. } => lemma_expr_ids_mono(n, m, *value),
        HirExpr::Lambda { body, .. } => lemma_expr_ids_mono(n, m, *body),
        HirExpr::FieldAccess { receiver, .. } => lemma_expr_ids_mono(n, m, *receiver),
        HirExpr::Try { expr, .. } => lemma_expr_ids_mono(n, m, *expr),
        HirExpr::Await { expr, .. } => lemma_expr_ids_mono(n, m, *expr),
        _ => {},
    }
}

proof fn lemma_exprs_ids_mono(n: int, m: int, es: Seq<HirExpr>, k: int)
    requires
        n <= m,
        exprs_ids_ok(n, es, k),
    ensures
        exprs_ids_ok(m, es, k),
    decreases es, k,
{
    if 0 < k <= es.len() {
        lemma_exprs_ids_mono(n, m, es, k - 1);
        lemma_expr_ids_mono(n, m, es[k - 1]);
    }
}

proof fn lemma_arms_ids_mono(n: int, m: int, arms: Seq<HirMatchArm>, k: int)
    requires
        n <= m,
        arms_ids_ok(n, arms, k),
    ensures
        arms_ids_ok(m, arms, k),
    decreases arms, k,
{
    if 0 < k <= arms.len() {
        lemma_arms_ids_mono(n, m, arms, k - 1);
        match arms[k - 1].guard {
            Some(g) => lemma_expr_ids_mono(n, m, *g),
            None => {},
        }
        lemma_expr_ids_mono(n, m, arms[k - 1].body);
    }
}

proof fn lemma_exprs_ids_prefix(n: int, a: Seq<HirExpr>, b: Seq<HirExpr>, k: int)
    requires
        0 <= k <= a.len(),
        k <= b.len(),
        forall|j: int| 0 <= j < k ==> a[j] == b[j],
    ensures
        exprs_ids_ok(n, a, k) == exprs_ids_ok(n, b, k),
    decreases k,
{
    if k > 0 {
        lemma_exprs_ids_prefix(n, a, b, k - 1);
    }
}

proof fn lemma_arms_ids_prefix(n: int, a: Seq<HirMatchArm>, b: Seq<HirMatchArm>, k: int)
    requires
        0 <= k <= a.len(),
        k <= b.len(),
        forall|j: int| 0 <= j < k ==> a[j] == b[j],
    ensures
        arms_ids_ok(n, a, k) == arms_ids_ok(n, b, k),
    decreases k,
{
    if k > 0 {
        lemma_arms_ids_prefix(n, a, b, k - 1);
    }
}

proof fn lemma_resolve_in_table(s: LowerState, name: Seq<char>, k: int)
    requires
        env_ok(s),
        k <= s.env.len(),
    ensures
        resolve_in(s.env, name, k) matches Some(d) ==> d < s.defs.len(),
    decreases k,
{
    if k > 0 && !s.env[k - 1].dom().contains(name) {
        lemma_resolve_in_table(s, name, k - 1);
    }
}

proof fn lemma_exprs_ids_cons(n: int, x: HirExpr, rest: Seq<HirExpr>, k: int)
    requires
        0 <= k <= rest.len(),
        expr_ids_ok(n, x),
        exprs_ids_ok(n, rest, k),
    ensures
        exprs_ids_ok(n, seq![x] + rest, k + 1),
    decreases k,
{
    let a = seq![x] + rest;
    if k == 0 {
        assert(exprs_ids_ok(n, a, 0));
    } else {
        lemma_exprs_ids_cons(n, x, rest, k - 1);
        assert(a[k] == rest[k - 1]);
    }
}

/// Whether arm `h`'s guard and body name only definitions below `n`.
pub open spec fn arm_ids_ok(n: int, h: HirMatchArm) -> bool {
    &&& match h.guard {
        Some(g) => expr_ids_ok(n, *g),
        None => true,
    }
    &&& expr_ids_ok(n, h.body)
}

// ── Names resolve to definitions of that name ───────────────────

/// Every binding in scope refers to a registered definition of the name
/// it binds.
pub open spec fn names_ok(s: LowerState) -> bool {
    &&& env_ok(s)
    &&& forall|k: int, n: Seq<char>|
        0 <= k < s.env.len() && #[trigger] s.env[k].dom().contains(n) ==> s.defs[s.env[k][n] as int].name == n
}

proof fn lemma_resolve_in_named(s: LowerState, name: Seq<char>, k: int)
    requires
        names_ok(s),
        k <= s.env.len(),
    ensures
        resolve_in(s.env, name, k) matches Some(d) ==> d < s.defs.len() && s.defs[d as int].name == name,
    decreases k,
{
    if k > 0 && !s.env[k - 1].dom().contains(name) {
        lemma_resolve_in_named(s, name, k - 1);
    }
}

/// Lowering starts with every built-in bound to its own definition.
pub proof fn lemma_initial_names_ok()
    ensures
        names_ok(initial_state()),
{
    let s = initial_state();
    reveal_with_fuel(builtin_scope, 5);
    assert forall|k: int, n: Seq<char>| 0 <= k < s.env.len() && #[trigger] s.env[k].dom().contains(n) implies s.env[k][n]
        < s.defs.len() && s.defs[s.env[k][n] as int].name == n by {
        assert(k == 0);
    }
}

/// Binding a name, with or without a report, keeps every binding in scope
/// naming a definition of its name.
pub proof fn lemma_binding_keeps_names(s: LowerState, d: DefView, what: Seq<char>)
    requires
        names_ok(s),
        s.defs.len() < usize::MAX,
    ensures
        names_ok(define_new(s, d)),
        names_ok(bind(s, d, what)),
{
    let t = define_new(s, d);
    assert forall|k: int, n: Seq<char>| 0 <= k < t.env.len() && #[trigger] t.env[k].dom().contains(n) implies t.env[k][n]
        < t.defs.len() && t.defs[t.env[k][n] as int].name == n by {
        if !(k == t.env.len() - 1 && n == d.name) {
            assert(s.env[k].dom().contains(n));
            assert(t.env[k][n] == s.env[k][n]);
            assert(t.defs[s.env[k][n] as int] == s.defs[s.env[k][n] as int]);
        } else {
            assert(t.env[k][n] == s.defs.len());
            assert(t.defs[s.defs.len() as int] == d);
        }
    }
    assert(bind(s, d, what).env == t.env && bind(s, d, what).defs == t.defs);
}

/// A reference resolves to a definition of the very name written: the
/// innermost binding of that name, or else a definition registered for it.
pub proof fn lemma_reference_names_its_definition(s: LowerState, id: Ident, d: DefId, span: Span)
    requires
        names_ok(s),
        reference(s, id, d, span).0,
    ensures
        d < reference(s, id, d, span).1.defs.len(),
        reference(s, id, d, span).1.defs[d as int].name == id.name@,
        names_ok(reference(s, id, d, span).1),
{
    lemma_resolve_in_named(s, id.name@, s.env.len() as int);
    let t = reference(s, id, d, span).1;
    assert forall|k: int, n: Seq<char>| 0 <= k < t.env.len() && #[trigger] t.env[k].dom().contains(n) implies t.env[k][n]
        < t.defs.len() && t.defs[t.env[k][n] as int].name == n by {
        assert(s.env[k].dom().contains(n));
    }
}

// ── Executable lowering ─────────────────────────────────────────

/// What lowering accumulates: the symbol table, the diagnostics and the
/// scopes.
pub struct HirLowerCtx {
    table: SymbolTable,
    diagnostics: Vec<Diagnostic>,
    scopes: ScopeStack,
}

impl HirLowerCtx {
    /// Where lowering stands.
    pub closed spec fn state(&self) -> LowerState {
        LowerState {
            env: self.scopes.view_scopes(),
            defs: self.table.def_views(),
            diags: self.diagnostics@.map_values(|d: Diagnostic| d@),
        }
    }

    pub closed spec fn inv(&self) -> bool {
        self.scopes.wf() && env_ok(self.state()) && self.state().defs.len() > 0
    }

    fn builtin(&mut self, name: &str)
        requires
            old(self).scopes.wf(),
            env_ok(old(self).state()),
            old(self).state().env.len() == 1,
        ensures
            final(self).inv(),
            final(self).state() == (LowerState {
                env: seq![old(self).state().env[0].insert(name@, old(self).state().defs.len() as DefId)],
                defs: old(self).state().defs.push(builtin_def(name@)),
                diags: old(self).state().diags,
            }),
    {
        let ghost s = self.state();
        let id = self.table.register(
            DefData { name: String::from_str(name), kind: DefKind::Builtin, is_mutable: false, span: Span::dummy() },
        );
        self.scopes.define(String::from_str(name), id);
        proof {
            assert(self.table.def_views() =~= s.defs.push(builtin_def(name@)));
            assert(self.state().env =~= seq![s.env[0].insert(name@, s.defs.len() as DefId)]);
            assert(env_ok(self.state())) by {
                assert forall|k: int, n: Seq<char>|
                    0 <= k < self.state().env.len() && #[trigger] self.state().env[k].dom().contains(n) implies
                    self.state().env[k][n] < self.state().defs.len() by {
                    if n != name@ {
                        assert(s.env[0].dom().contains(n));
                    }
                }
            }
        }
    }

    /// A context holding the built-ins `string_concat`, `println`, `list`
    /// and `option`, registered in that order and bound in module scope.
    pub fn new() -> (c: HirLowerCtx)
        ensures
            c.inv(),
            c.state() == initial_state(),
    {
        let mut c = HirLowerCtx { table: SymbolTable::new(), diagnostics: Vec::new(), scopes: ScopeStack::new() };
        proof {
            assert(c.state().defs =~= Seq::<DefView>::empty());
            assert(c.state().diags =~= Seq::<DiagnosticView>::empty());
        }
        c.builtin("string_concat");
        c.builtin("println");
        c.builtin("list");
        c.builtin("option");
        proof {
            reveal_with_fuel(builtin_scope, 5);
            assert(c.state().env =~= initial_state().env);
            assert(c.state().defs =~= initial_state().defs);
        }
        c
    }

    /// The diagnostics reported so far.
    pub fn into_diagnostics(self) -> (ds: Vec<Diagnostic>)
        ensures
            ds@.map_values(|d: Diagnostic| d@) == self.state().diags,
    {
        self.diagnostics
    }

    /// Registers `d` and binds its name in the innermost scope, reporting
    /// a duplicate there; returns its index.
    fn bind_def(&mut self, d: DefData, what: &str) -> (id: DefId)
        requires
            old(self).inv(),
        ensures
            final(self).inv(),
            id == old(self).state().defs.len(),
            final(self).state() == bind(old(self).state(), d@, what@),
            final(self).state().env.len() == old(self).state().env.len(),
            old(self).state().defs.len() < final(self).state().defs.len(),
    {
        let ghost s = self.state();
        let name = d.name.clone();
        let span = d.span;
        let id = self.table.register(d);
        let prev = self.scopes.define(name.clone(), id);
        proof {
            assert(self.table.def_views() =~= s.defs.push(d@));
        }
        match prev {
            Some(p) => {
                let earlier = self.table.get(p).span;
                let head = enclose("duplicate ", what, " `");
                let message = enclose(head.as_str(), name.as_str(), "`");
                let diag = Diagnostic::error(message.as_str(), span).with_secondary_label(
                    earlier,
                    "previously defined here",
                );
                let ghost ds = self.diagnostics@;
                self.diagnostics.push(diag);
                proof {
                    assert(self.diagnostics@.map_values(|x: Diagnostic| x@) =~= ds.map_values(
                        |x: Diagnostic| x@,
                    ).push(diag@));
                    assert(diag@ == duplicate_diag(what@, d@.name, d@.span, s.defs[s.env.last()[d@.name] as int].span));
                }
            },
            None => {},
        }
        proof {
            let t = self.state();
            assert forall|k: int, n: Seq<char>| 0 <= k < t.env.len() && #[trigger] t.env[k].dom().contains(n) implies t.env[k][n]
                < t.defs.len() by {
                if !(k == t.env.len() - 1 && n == d@.name) {
                    assert(s.env[k].dom().contains(n));
                }
            }
            assert(t =~= bind(s, d@, what@));
        }
        id
    }

    /// Registers `d` and binds its name in the innermost scope, where it
    /// may hide an earlier binding; returns its index.
    fn define_quiet(&mut self, d: DefData) -> (id: DefId)
        requires
            old(self).inv(),
        ensures
            final(self).inv(),
            id == old(self).state().defs.len(),
            final(self).state() == define_new(old(self).state(), d@),
            final(self).state().env.len() == old(self).state().env.len(),
            old(self).state().defs.len() < final(self).state().defs.len(),
    {
        let ghost s = self.state();
        let name = d.name.clone();
        let id = self.table.register(d);
        self.scopes.define(name, id);
        proof {
            assert(self.table.def_views() =~= s.defs.push(d@));
            let t = self.state();
            assert forall|k: int, n: Seq<char>| 0 <= k < t.env.len() && #[trigger] t.env[k].dom().contains(n) implies t.env[k][n]
                < t.defs.len() by {
                if !(k == t.env.len() - 1 && n == d@.name) {
                    assert(s.env[k].dom().contains(n));
                }
            }
            assert(t =~= define_new(s, d@));
        }
        id
    }

    /// The binding of `id` in the innermost scope that has one; otherwise
    /// `unresolved <what> `name`` is reported and a definition of kind
    /// `kind` is registered for it, bound nowhere.
    fn resolve_or_report(&mut self, id: &Ident, what: &str, kind: DefKind) -> (d: DefId)
        requires
            old(self).inv(),
        ensures
            final(self).inv(),
            match resolve_spec(old(self).state().env, id.name@) {
                Some(x) => d == x && final(self).state() == old(self).state(),
                None => d == old(self).state().defs.len() && final(self).state() == unresolved(
                    old(self).state(),
                    what@,
                    def_view(*id, kind, false),
                ),
            },
            final(self).state().env.len() == old(self).state().env.len(),
            old(self).state().defs.len() <= final(self).state().defs.len(),
            d < final(self).state().defs.len(),
    {
        let ghost s = self.state();
        match self.scopes.resolve(id.name.as_str()) {
            Some(d) => {
                proof {
                    lemma_resolve_in_table(s, id.name@, s.env.len() as int);
                }
                d
            },
            None => {
                let head = enclose("unresolved ", what, " `");
                let message = enclose(head.as_str(), id.name.as_str(), "`");
                let diag = Diagnostic::error(message.as_str(), id.span);
                let ghost ds = self.diagnostics@;
                self.diagnostics.push(diag);
                let d = self.table.register(
                    DefData { name: id.name.clone(), kind, is_mutable: false, span: id.span },
                );
                proof {
                    assert(self.diagnostics@.map_values(|x: Diagnostic| x@) =~= ds.map_values(
                        |x: Diagnostic| x@,
                    ).push(diag@));
                    assert(self.table.def_views() =~= s.defs.push(def_view(*id, kind, false)));
                    assert(self.state() =~= unresolved(s, what@, def_view(*id, kind, false)));
                }
                d
            },
        }
    }
}

/// The HIR form of type expression `t`.
fn lower_type(t: &TypeExpr) -> (h: HirTypeExpr)
    ensures
        type_ok(*t, h),
    decreases t,
{
    let mut args: Vec<HirTypeExpr> = Vec::new();
    let mut i: usize = 0;
    while i < t.args.len()
        invariant
            i <= t.args@.len(),
            args@.len() == i,
            types_ok(t.args@, args@, i as int),
        decreases t.args@.len() - i,
    {
        proof {
            assert(decreases_to!(t => t.args@[i as int]));
        }
        let a = lower_type(&t.args[i]);
        let ghost before = args@;
        args.push(a);
        proof {
            lemma_types_prefix(t.args@, before, args@, i as int);
        }
        i += 1;
    }
    HirTypeExpr { name: t.name.name.clone(), args, span: t.span }
}

fn lower_opt_type(t: &Option<TypeExpr>) -> (h: Option<HirTypeExpr>)
    ensures
        opt_type_ok(*t, h),
{
    match t {
        Some(x) => Some(lower_type(x)),
        None => None,
    }
}

impl HirLowerCtx {
    /// Registers and binds the parameters, in order.
    fn lower_params(&mut self, ps: &Vec<Param>) -> (hs: Vec<HirParam>)
        requires
            old(self).inv(),
        ensures
            final(self).inv(),
            hs@.len() == ps@.len(),
            params_rel(old(self).state(), ps@, hs@, ps@.len() as int).0,
            final(self).state() == params_rel(old(self).state(), ps@, hs@, ps@.len() as int).1,
            final(self).state().env.len() == old(self).state().env.len(),
            old(self).state().defs.len() <= final(self).state().defs.len(),
    {
        let ghost s0 = self.state();
        let mut hs: Vec<HirParam> = Vec::new();
        let mut i: usize = 0;
        while i < ps.len()
            invariant
                self.inv(),
                i <= ps@.len(),
                hs@.len() == i,
                params_rel(s0, ps@, hs@, i as int) == (true, self.state()),
                self.state().env.len() == s0.env.len(),
                s0.defs.len() <= self.state().defs.len(),
            decreases ps@.len() - i,
        {
            let p = &ps[i];
            let ghost s1 = self.state();
            let d = self.bind_def(
                DefData { name: p.name.name.clone(), kind: DefKind::Parameter, is_mutable: false, span: p.name.span },
                "binding",
            );
            let type_ann = lower_opt_type(&p.type_ann);
            let ghost before = hs@;
            hs.push(HirParam { def_id: d, type_ann, span: p.span });
            proof {
                lemma_params_prefix(s0, ps@, before, hs@, i as int);
                assert(def_view(p.name, DefKind::Parameter, false) == (DefData {
                    name: p.name.name,
                    kind: DefKind::Parameter,
                    is_mutable: false,
                    span: p.name.span,
                })@);
            }
            i += 1;
        }
        hs
    }

    /// Lowers a pattern, binding its names in the innermost scope.
    fn lower_pattern(&mut self, p: &Pattern) -> (hp: HirPattern)
        requires
            old(self).inv(),
        ensures
            final(self).inv(),
            pattern_rel(old(self).state(), *p, hp).0,
            final(self).state() == pattern_rel(old(self).state(), *p, hp).1,
            final(self).state().env.len() == old(self).state().env.len(),
            old(self).state().defs.len() <= final(self).state().defs.len(),
        decreases p, 1int,
    {
        match p {
            Pattern::Wildcard(span) => HirPattern::Wildcard(*span),
            Pattern::Variable(id) => {
                let d = self.bind_def(
                    DefData { name: id.name.clone(), kind: DefKind::LocalBinding, is_mutable: false, span: id.span },
                    "binding",
                );
                HirPattern::Variable(d, id.span)
            },
            Pattern::Literal(l) => HirPattern::Literal(
                HirLiteral { kind: l.kind, value: l.value.clone(), span: l.span },
            ),
            Pattern::Constructor { name, fields, span } => {
                let hf = self.lower_patterns(fields);
                let d = self.resolve_or_report(name, "constructor", DefKind::Constructor);
                HirPattern::Constructor { def_id: d, fields: hf, span: *span }
            },
            Pattern::List { elements, rest, span } => {
                let he = self.lower_patterns(elements);
                let hr = match rest {
                    Some(id) => {
                        let d = self.bind_def(
                            DefData {
                                name: id.name.clone(),
                                kind: DefKind::LocalBinding,
                                is_mutable: false,
                                span: id.span,
                            },
                            "binding",
                        );
                        Some(d)
                    },
                    None => None,
                };
                HirPattern::List { elements: he, rest: hr, span: *span }
            },
        }
    }

    /// Lowers patterns from left to right.
    fn lower_patterns(&mut self, ps: &Vec<Pattern>) -> (hs: Vec<HirPattern>)
        requires
            old(self).inv(),
        ensures
            final(self).inv(),
            hs@.len() == ps@.len(),
            patterns_rel(old(self).state(), ps@, hs@, ps@.len() as int).0,
            final(self).state() == patterns_rel(old(self).state(), ps@, hs@, ps@.len() as int).1,
            final(self).state().env.len() == old(self).state().env.len(),
            old(self).state().defs.len() <= final(self).state().defs.len(),
        decreases ps, 0int,
    {
        let ghost s0 = self.state();
        let mut hs: Vec<HirPattern> = Vec::new();
        let mut i: usize = 0;
        while i < ps.len()
            invariant
                self.inv(),
                i <= ps@.len(),
                hs@.len() == i,
                patterns_rel(s0, ps@, hs@, i as int) == (true, self.state()),
                self.state().env.len() == s0.env.len(),
                s0.defs.len() <= self.state().defs.len(),
            decreases ps@.len() - i,
        {
            proof {
                assert(decreases_to!(ps => ps@[i as int]));
            }
            let h = self.lower_pattern(&ps[i]);
            let ghost before = hs@;
            hs.push(h);
            proof {
                lemma_patterns_prefix(s0, ps@, before, hs@, i as int);
            }
            i += 1;
        }
        hs
    }
}

/// The index of the built-in `string_concat`.
const STRING_CONCAT: DefId = 0;

impl HirLowerCtx {
    fn enter_scope(&mut self)
        requires
            old(self).inv(),
        ensures
            final(self).inv(),
            final(self).state() == push_scope(old(self).state()),
            final(self).state().defs == old(self).state().defs,
    {
        let ghost s = self.state();
        self.scopes.push();
        proof {
            let t = self.state();
            assert(t =~= push_scope(s));
            assert forall|k: int, n: Seq<char>| 0 <= k < t.env.len() && #[trigger] t.env[k].dom().contains(n) implies t.env[k][n]
                < t.defs.len() by {
                assert(k < s.env.len());
                assert(s.env[k].dom().contains(n));
            }
        }
    }

    fn leave_scope(&mut self)
        requires
            old(self).inv(),
            old(self).state().env.len() > 1,
        ensures
            final(self).inv(),
            final(self).state() == pop_scope(old(self).state()),
            final(self).state().defs == old(self).state().defs,
    {
        let ghost s = self.state();
        self.scopes.pop();
        proof {
            let t = self.state();
            assert(t =~= pop_scope(s));
            assert forall|k: int, n: Seq<char>| 0 <= k < t.env.len() && #[trigger] t.env[k].dom().contains(n) implies t.env[k][n]
                < t.defs.len() by {
                assert(s.env[k] == t.env[k]);
            }
        }
    }

    /// Lowers an expression, resolving every name in it.
    pub fn lower_expr(&mut self, e: &Expr) -> (h: HirExpr)
        requires
            old(self).inv(),
        ensures
            final(self).inv(),
            expr_rel(old(self).state(), *e, h).0,
            final(self).state() == expr_rel(old(self).state(), *e, h).1,
            final(self).state().env.len() == old(self).state().env.len(),
            old(self).state().defs.len() <= final(self).state().defs.len(),
            expr_ids_ok(final(self).state().defs.len() as int, h),
        decreases e, 1int,
    {
        match e {
            Expr::Literal(l) => HirExpr::Literal(HirLiteral { kind: l.kind, value: l.value.clone(), span: l.span }),
            Expr::Variable(id) => {
                let d = self.resolve_or_report(id, "name", DefKind::LocalBinding);
                HirExpr::Var(d, id.span)
            },
            Expr::Block { exprs, span } => {
                self.enter_scope();
                let hs = self.lower_exprs(exprs);
                self.leave_scope();
                HirExpr::Block { exprs: hs, span: *span }
            },
            Expr::Call { span, .. } => {
                let (f, args) = self.lower_call(e);
                HirExpr::Call { func: Box::new(f), args, span: *span }
            },
            Expr::Pipeline { span, .. } => {
                let (f, args) = self.lower_call(e);
                HirExpr::Call { func: Box::new(f), args, span: *span }
            },
            Expr::BinaryOp { op, lhs, rhs, span } => {
                if *op == BinOp::Concat {
                    let (f, args) = self.lower_call(e);
                    HirExpr::Call { func: Box::new(f), args, span: *span }
                } else {
                    let hl = self.lower_expr(lhs);
                    let ghost n1 = self.state().defs.len() as int;
                    let hr = self.lower_expr(rhs);
                    proof {
                        lemma_expr_ids_mono(n1, self.state().defs.len() as int, hl);
                    }
                    HirExpr::BinaryOp { op: *op, lhs: Box::new(hl), rhs: Box::new(hr), span: *span }
                }
            },
            Expr::UnaryOp { op, expr, span } => {
                let he = self.lower_expr(expr);
                HirExpr::UnaryOp { op: *op, expr: Box::new(he), span: *span }
            },
            Expr::If { condition, then_body, else_body, span } => {
                let hc = self.lower_expr(condition);
                let ghost n1 = self.state().defs.len() as int;
                let ht = self.lower_expr(then_body);
                let ghost n2 = self.state().defs.len() as int;
                let he = match else_body {
                    Some(b) => Some(Box::new(self.lower_expr(b))),
                    None => None,
                };
                proof {
                    lemma_expr_ids_mono(n1, self.state().defs.len() as int, hc);
                    lemma_expr_ids_mono(n2, self.state().defs.len() as int, ht);
                }
                HirExpr::If { condition: Box::new(hc), then_body: Box::new(ht), else_body: he, span: *span }
            },
            Expr::Match { subject, arms, span } => {
                let hs = self.lower_expr(subject);
                let ghost n1 = self.state().defs.len() as int;
                let ha = self.lower_arms(arms);
                proof {
                    lemma_expr_ids_mono(n1, self.state().defs.len() as int, hs);
                }
                HirExpr::Match { subject: Box::new(hs), arms: ha, span: *span }
            },
            Expr::Let { name, is_mutable, value, span } => {
                let hv = self.lower_expr(value);
                let ghost n1 = self.state().defs.len() as int;
                let d = self.define_quiet(
                    DefData { name: name.name.clone(), kind: DefKind::LocalBinding, is_mutable: *is_mutable, span: name.span },
                );
                proof {
                    lemma_expr_ids_mono(n1, self.state().defs.len() as int, hv);
                }
                HirExpr::Let { binding: d, value: Box::new(hv), is_mutable: *is_mutable, span: *span }
            },
            Expr::Assign { target, value, span } => {
                let t = self.resolve_or_report(target, "name", DefKind::LocalBinding);
                let hv = self.lower_expr(value);
                HirExpr::Assign { target: t, value: Box::new(hv), span: *span }
            },
            Expr::Lambda { params, return_type, body, span } => {
                self.enter_scope();
                let hp = self.lower_params(params);
                let hb = self.lower_expr(body);
                let hrt = lower_opt_type(return_type);
                self.leave_scope();
                HirExpr::Lambda { params: hp, return_type: hrt, body: Box::new(hb), span: *span }
            },
            Expr::FieldAccess { receiver, field, span } => {
                let hr = self.lower_expr(receiver);
                HirExpr::FieldAccess { receiver: Box::new(hr), field: field.name.clone(), span: *span }
            },
            Expr::Try { expr, span } => {
                let he = self.lower_expr(expr);
                HirExpr::Try { expr: Box::new(he), span: *span }
            },
            Expr::Await { expr, span } => {
                let he = self.lower_expr(expr);
                HirExpr::Await { expr: Box::new(he), span: *span }
            },
            Expr::List { elements, span } => {
                let hs = self.lower_exprs(elements);
                HirExpr::List { elements: hs, span: *span }
            },
        }
    }

    /// Lowers `e`, which lowers to a call, into its callee and arguments.
    fn lower_call(&mut self, e: &Expr) -> (r: (HirExpr, Vec<HirExpr>))
        requires
            old(self).inv(),
            lowers_to_call(*e),
        ensures
            final(self).inv(),
            call_rel(old(self).state(), *e, r.0, r.1@).0,
            final(self).state() == call_rel(old(self).state(), *e, r.0, r.1@).1,
            final(self).state().env.len() == old(self).state().env.len(),
            old(self).state().defs.len() <= final(self).state().defs.len(),
            expr_ids_ok(final(self).state().defs.len() as int, r.0),
            exprs_ids_ok(final(self).state().defs.len() as int, r.1@, r.1@.len() as int),
        decreases e, 0int,
    {
        match e {
            Expr::Call { func, args, .. } => {
                let f = self.lower_expr(func);
                let ghost n1 = self.state().defs.len() as int;
                let a = self.lower_exprs(args);
                proof {
                    lemma_expr_ids_mono(n1, self.state().defs.len() as int, f);
                }
                (f, a)
            },
            Expr::BinaryOp { lhs, rhs, span, .. } => {
                let hl = self.lower_expr(lhs);
                let ghost n1 = self.state().defs.len() as int;
                let hr = self.lower_expr(rhs);
                let mut a: Vec<HirExpr> = Vec::new();
                a.push(hl);
                a.push(hr);
                proof {
                    let n = self.state().defs.len() as int;
                    lemma_expr_ids_mono(n1, n, hl);
                    assert(exprs_ids_ok(n, a@, 0));
                    assert(exprs_ids_ok(n, a@, 1));
                    assert(exprs_ids_ok(n, a@, 2));
                }
                (HirExpr::Var(STRING_CONCAT, *span), a)
            },
            Expr::Pipeline { left, right, .. } => {
                let hl = self.lower_expr(left);
                let ghost n1 = self.state().defs.len() as int;
                let hr = self.lower_expr(right);
                let ghost n = self.state().defs.len() as int;
                proof {
                    lemma_expr_ids_mono(n1, n, hl);
                }
                match hr {
                    HirExpr::Call { func, args, .. } => {
                        let mut a = args;
                        let ghost rest = a@;
                        a.insert(0, hl);
                        proof {
                            assert(a@.skip(1) =~= rest);
                            lemma_exprs_ids_cons(n, hl, rest, rest.len() as int);
                            assert(a@ =~= seq![hl] + rest);
                        }
                        (*func, a)
                    },
                    other => {
                        let mut a: Vec<HirExpr> = Vec::new();
                        a.push(hl);
                        proof {
                            assert(exprs_ids_ok(n, a@, 0));
                        }
                        (other, a)
                    },
                }
            },
            _ => {
                proof {
                    assert(false);
                }
                (HirExpr::Var(STRING_CONCAT, Span::dummy()), Vec::new())
            },
        }
    }

    /// Lowers expressions from left to right.
    fn lower_exprs(&mut self, es: &Vec<Expr>) -> (hs: Vec<HirExpr>)
        requires
            old(self).inv(),
        ensures
            final(self).inv(),
            hs@.len() == es@.len(),
            exprs_rel(old(self).state(), es@, hs@, es@.len() as int).0,
            final(self).state() == exprs_rel(old(self).state(), es@, hs@, es@.len() as int).1,
            final(self).state().env.len() == old(self).state().env.len(),
            old(self).state().defs.len() <= final(self).state().defs.len(),
            exprs_ids_ok(final(self).state().defs.len() as int, hs@, hs@.len() as int),
        decreases es, 0int,
    {
        let ghost s0 = self.state();
        let mut hs: Vec<HirExpr> = Vec::new();
        let mut i: usize = 0;
        while i < es.len()
            invariant
                self.inv(),
                i <= es@.len(),
                hs@.len() == i,
                exprs_rel(s0, es@, hs@, i as int) == (true, self.state()),
                self.state().env.len() == s0.env.len(),
                s0.defs.len() <= self.state().defs.len(),
                exprs_ids_ok(self.state().defs.len() as int, hs@, i as int),
            decreases es@.len() - i,
        {
            proof {
                assert(decreases_to!(es => es@[i as int]));
            }
            let ghost n0 = self.state().defs.len() as int;
            let h = self.lower_expr(&es[i]);
            let ghost before = hs@;
            hs.push(h);
            proof {
                lemma_exprs_prefix(s0, es@, before, hs@, i as int);
                lemma_exprs_ids_mono(n0, self.state().defs.len() as int, before, i as int);
                lemma_exprs_ids_prefix(self.state().defs.len() as int, before, hs@, i as int);
            }
            i += 1;
        }
        hs
    }

    /// Lowers a match arm in a scope of its own.
    fn lower_arm(&mut self, a: &MatchArm) -> (h: HirMatchArm)
        requires
            old(self).inv(),
        ensures
            final(self).inv(),
            arm_rel(old(self).state(), *a, h).0,
            final(self).state() == arm_rel(old(self).state(), *a, h).1,
            final(self).state().env.len() == old(self).state().env.len(),
            old(self).state().defs.len() <= final(self).state().defs.len(),
            arm_ids_ok(final(self).state().defs.len() as int, h),
        decreases a, 0int,
    {
        self.enter_scope();
        let pattern = self.lower_pattern(&a.pattern);
        let guard = match &a.guard {
            Some(g) => {
                proof {
                    assert(decreases_to!(a => a.guard));
                }
                Some(Box::new(self.lower_expr(g)))
            },
            None => None,
        };
        let ghost ng = self.state().defs.len() as int;
        let body = self.lower_expr(&a.body);
        proof {
            if guard is Some {
                lemma_expr_ids_mono(ng, self.state().defs.len() as int, *guard->0);
            }
        }
        self.leave_scope();
        HirMatchArm { pattern, guard, body, span: a.span }
    }

    /// Lowers match arms in order.
    fn lower_arms(&mut self, arms: &Vec<MatchArm>) -> (hs: Vec<HirMatchArm>)
        requires
            old(self).inv(),
        ensures
            final(self).inv(),
            hs@.len() == arms@.len(),
            arms_rel(old(self).state(), arms@, hs@, arms@.len() as int).0,
            final(self).state() == arms_rel(old(self).state(), arms@, hs@, arms@.len() as int).1,
            final(self).state().env.len() == old(self).state().env.len(),
            old(self).state().defs.len() <= final(self).state().defs.len(),
            arms_ids_ok(final(self).state().defs.len() as int, hs@, hs@.len() as int),
        decreases arms, 0int,
    {
        let ghost s0 = self.state();
        let mut hs: Vec<HirMatchArm> = Vec::new();
        let mut i: usize = 0;
        while i < arms.len()
            invariant
                self.inv(),
                i <= arms@.len(),
                hs@.len() == i,
                arms_rel(s0, arms@, hs@, i as int) == (true, self.state()),
                self.state().env.len() == s0.env.len(),
                s0.defs.len() <= self.state().defs.len(),
                arms_ids_ok(self.state().defs.len() as int, hs@, i as int),
            decreases arms@.len() - i,
        {
            proof {
                assert(decreases_to!(arms => arms@[i as int]));
            }
            let ghost n0 = self.state().defs.len() as int;
            let h = self.lower_arm(&arms[i]);
            let ghost before = hs@;
            hs.push(h);
            proof {
                lemma_arms_prefix(s0, arms@, before, hs@, i as int);
                lemma_arms_ids_mono(n0, self.state().defs.len() as int, before, i as int);
                lemma_arms_ids_prefix(self.state().defs.len() as int, before, hs@, i as int);
            }
            i += 1;
        }
        hs
    }
}

/// The names of `ids`, in order.
fn names_of(ids: &Vec<Ident>) -> (r: Vec<String>)
    ensures
        r@.len() == ids@.len(),
        forall|i: int| 0 <= i < ids@.len() ==> (#[trigger] r@[i])@ == ids@[i].name@,
{
    let mut r: Vec<String> = Vec::new();
    let mut i: usize = 0;
    while i < ids.len()
        invariant
            i <= ids@.len(),
            r@.len() == i,
            forall|j: int| 0 <= j < i ==> (#[trigger] r@[j])@ == ids@[j].name@,
        decreases ids@.len() - i,
    {
        r.push(ids[i].name.clone());
        i += 1;
    }
    r
}

/// The HIR form of the fields `fs`.
fn lower_fields(fs: &Vec<Field>) -> (hs: Vec<HirFieldType>)
    ensures
        fields_ok(fs@, hs@),
{
    let mut hs: Vec<HirFieldType> = Vec::new();
    let mut i: usize = 0;
    while i < fs.len()
        invariant
            i <= fs@.len(),
            hs@.len() == i,
            forall|j: int| 0 <= j < i ==> field_ok(fs@[j], #[trigger] hs@[j]),
        decreases fs@.len() - i,
    {
        let f = &fs[i];
        let label = match &f.label {
            Some(l) => Some(l.name.clone()),
            None => None,
        };
        hs.push(HirFieldType { label, type_expr: lower_type(&f.type_expr), span: f.span });
        i += 1;
    }
    hs
}

/// The identifier an import binds, if any.
fn bound_of(imp: &Import) -> (b: Option<&Ident>)
    ensures
        match b {
            Some(x) => bound_ident(*imp) == Some(*x),
            None => bound_ident(*imp) is None,
        },
{
    match &imp.alias {
        Some(a) => Some(a),
        None => match &imp.source {
            ImportSource::Module(segs) => if segs.len() > 0 {
                Some(&segs[segs.len() - 1])
            } else {
                None
            },
            ImportSource::Python(m) => Some(m),
        },
    }
}

impl HirLowerCtx {
    /// Binds, in module scope, the name of every import that binds one.
    fn register_imports(&mut self, imps: &Vec<Import>) -> (his: Vec<HirImport>)
        requires
            old(self).inv(),
        ensures
            final(self).inv(),
            his@.len() == kept_imports(imps@).len(),
            imports_rel(old(self).state(), kept_imports(imps@), his@, his@.len() as int) == (true, final(self).state()),
            final(self).state().env.len() == old(self).state().env.len(),
            old(self).state().defs.len() <= final(self).state().defs.len(),
            forall|j: int| 0 <= j < his@.len() ==> (#[trigger] his@[j]).def_id < final(self).state().defs.len(),
    {
        let ghost s0 = self.state();
        let mut his: Vec<HirImport> = Vec::new();
        let mut i: usize = 0;
        while i < imps.len()
            invariant
                self.inv(),
                i <= imps@.len(),
                his@.len() == kept_imports(imps@.take(i as int)).len(),
                imports_rel(s0, kept_imports(imps@.take(i as int)), his@, his@.len() as int) == (true, self.state()),
                self.state().env.len() == s0.env.len(),
                s0.defs.len() <= self.state().defs.len(),
                forall|j: int| 0 <= j < his@.len() ==> (#[trigger] his@[j]).def_id < self.state().defs.len(),
            decreases imps@.len() - i,
        {
            let imp = &imps[i];
            let ghost kept = kept_imports(imps@.take(i as int));
            proof {
                assert(imps@.take(i + 1).drop_last() =~= imps@.take(i as int));
                assert(imps@.take(i + 1).last() == *imp);
            }
            match bound_of(imp) {
                Some(b) => {
                    let d = self.bind_def(
                        DefData { name: b.name.clone(), kind: DefKind::Import, is_mutable: false, span: b.span },
                        "definition",
                    );
                    let kind = match &imp.source {
                        ImportSource::Module(segs) => HirImportKind::Module { segments: names_of(segs) },
                        ImportSource::Python(m) => HirImportKind::Python { module_name: m.name.clone() },
                    };
                    let ghost before = his@;
                    his.push(HirImport { def_id: d, kind, span: imp.span });
                    proof {
                        let kept2 = kept_imports(imps@.take(i + 1));
                        assert(kept2 =~= kept.push(*imp));
                        lemma_imports_prefix(s0, kept, kept2, before, his@, before.len() as int);
                        assert(def_view(bound_ident(*imp)->0, DefKind::Import, false) == (DefData {
                            name: b.name,
                            kind: DefKind::Import,
                            is_mutable: false,
                            span: b.span,
                        })@);
                    }
                },
                None => {
                    proof {
                        assert(kept_imports(imps@.take(i + 1)) =~= kept);
                    }
                },
            }
            i += 1;
        }
        proof {
            assert(imps@.take(imps@.len() as int) =~= imps@);
        }
        his
    }

    /// Binds every top-level name in module scope: each function's, each
    /// type's and its constructors'. Returns the index registered for each
    /// definition, and for each the indices of its constructors.
    fn register_top_level(&mut self, ds: &Vec<Definition>) -> (r: (Vec<DefId>, Vec<Vec<DefId>>))
        requires
            old(self).inv(),
        ensures
            final(self).inv(),
            final(self).state() == reg_defs(old(self).state(), ds@, ds@.len() as int),
            final(self).state().env.len() == old(self).state().env.len(),
            old(self).state().defs.len() <= final(self).state().defs.len(),
            forall|j: int| 0 <= j < ds@.len() ==> r.0@[j] < final(self).state().defs.len(),
            r.0@.len() == ds@.len(),
            r.1@.len() == ds@.len(),
            forall|j: int| 0 <= j < ds@.len() ==> r.0@[j] == def_index(old(self).state(), ds@, j),
            forall|j: int|
                0 <= j < ds@.len() ==> match #[trigger] ds@[j] {
                    Definition::CustomType(ct) => match ct.body {
                        TypeBody::Variants(vs) => r.1@[j]@.len() == vs@.len() && forall|v: int|
                            0 <= v < vs@.len() ==> #[trigger] r.1@[j]@[v] == def_index(old(self).state(), ds@, j) + 1
                                + v,
                        TypeBody::Record(_) => true,
                    },
                    Definition::Function(_) => true,
                },
    {
        let ghost base = self.state();
        let mut ids: Vec<DefId> = Vec::new();
        let mut ctors: Vec<Vec<DefId>> = Vec::new();
        let mut i: usize = 0;
        while i < ds.len()
            invariant
                self.inv(),
                i <= ds@.len(),
                self.state() == reg_defs(base, ds@, i as int),
                self.state().env.len() == base.env.len(),
                base.defs.len() <= self.state().defs.len(),
                forall|j: int| 0 <= j < i ==> ids@[j] < self.state().defs.len(),
                ids@.len() == i,
                ctors@.len() == i,
                forall|j: int| 0 <= j < i ==> ids@[j] == def_index(base, ds@, j),
                forall|j: int|
                    0 <= j < i ==> match #[trigger] ds@[j] {
                        Definition::CustomType(ct) => match ct.body {
                            TypeBody::Variants(vs) => ctors@[j]@.len() == vs@.len() && forall|v: int|
                                0 <= v < vs@.len() ==> #[trigger] ctors@[j]@[v] == def_index(base, ds@, j) + 1 + v,
                            TypeBody::Record(_) => true,
                        },
                        Definition::Function(_) => true,
                    },
            decreases ds@.len() - i,
        {
            let ghost si = self.state();
            let mut cs: Vec<DefId> = Vec::new();
            let id = match &ds[i] {
                Definition::Function(f) => {
                    let id = self.bind_def(
                        DefData { name: f.name.name.clone(), kind: DefKind::Function, is_mutable: false, span: f.name.span },
                        "definition",
                    );
                    proof {
                        assert(def_view(f.name, DefKind::Function, false) == (DefData {
                            name: f.name.name,
                            kind: DefKind::Function,
                            is_mutable: false,
                            span: f.name.span,
                        })@);
                    }
                    id
                },
                Definition::CustomType(ct) => {
                    let id = self.bind_def(
                        DefData { name: ct.name.name.clone(), kind: DefKind::Type, is_mutable: false, span: ct.name.span },
                        "definition",
                    );
                    proof {
                        assert(def_view(ct.name, DefKind::Type, false) == (DefData {
                            name: ct.name.name,
                            kind: DefKind::Type,
                            is_mutable: false,
                            span: ct.name.span,
                        })@);
                    }
                    match &ct.body {
                        TypeBody::Variants(vs) => {
                            let ghost s1 = self.state();
                            let mut v: usize = 0;
                            while v < vs.len()
                                invariant
                                    self.inv(),
                                    v <= vs@.len(),
                                    self.state() == reg_variants(s1, vs@, v as int),
                                    s1.defs.len() == si.defs.len() + 1,
                                    s1.env.len() > 0,
                                    cs@.len() == v,
                                    forall|w: int| 0 <= w < v ==> #[trigger] cs@[w] == si.defs.len() + 1 + w,
                                decreases vs@.len() - v,
                            {
                                proof {
                                    lemma_reg_variants_len(s1, vs@, v as int);
                                }
                                let vn = &vs[v].name;
                                let c = self.bind_def(
                                    DefData { name: vn.name.clone(), kind: DefKind::Constructor, is_mutable: false, span: vn.span },
                                    "definition",
                                );
                                proof {
                                    assert(def_view(*vn, DefKind::Constructor, false) == (DefData {
                                        name: vn.name,
                                        kind: DefKind::Constructor,
                                        is_mutable: false,
                                        span: vn.span,
                                    })@);
                                }
                                cs.push(c);
                                v += 1;
                            }
                            proof {
                                lemma_reg_variants_len(s1, vs@, vs@.len() as int);
                            }
                        },
                        TypeBody::Record(_) => {},
                    }
                    id
                },
            };
            ids.push(id);
            ctors.push(cs);
            proof {
                assert(self.state() == reg_defs(base, ds@, i + 1));
            }
            i += 1;
        }
        (ids, ctors)
    }

    /// Lowers a function, registered as `id`, in a scope of its own.
    fn lower_fn_def(&mut self, f: &FnDef, id: DefId) -> (h: HirFnDef)
        requires
            old(self).inv(),
        ensures
            final(self).inv(),
            fn_rel(old(self).state(), *f, h, id).0,
            final(self).state() == fn_rel(old(self).state(), *f, h, id).1,
            final(self).state().env.len() == old(self).state().env.len(),
            old(self).state().defs.len() <= final(self).state().defs.len(),
            expr_ids_ok(final(self).state().defs.len() as int, h.body),
            h.def_id == id,
    {
        self.enter_scope();
        let params = self.lower_params(&f.params);
        let body = self.lower_expr(&f.body);
        let return_type = lower_opt_type(&f.return_type);
        self.leave_scope();
        HirFnDef {
            def_id: id,
            visibility: f.visibility,
            params,
            return_type,
            body,
            is_async: f.is_async,
            pure_span: f.pure_span,
            span: f.span,
        }
    }

    /// Lowers a source file. The built-ins are registered first (the
    /// context starts with them); then the imports are bound, then every
    /// top-level name, and last the function bodies are lowered. The symbol
    /// table moves into the result.
    pub fn lower_module(&mut self, ast: &Module) -> (m: HirModule)
        requires
            old(self).inv(),
            old(self).state() == initial_state(),
        ensures
            lowers_module(*ast, m, final(self).state().diags),
            module_wf(m),
    {
        let imports = self.register_imports(&ast.imports);
        let ghost base = self.state();
        let ds = &ast.definitions;
        let (ids, ctors) = self.register_top_level(ds);
        let ghost sreg = self.state();
        let mut functions: Vec<HirFnDef> = Vec::new();
        let mut i: usize = 0;
        while i < ds.len()
            invariant
                self.inv(),
                i <= ds@.len(),
                fns_rel(sreg, base, ds@, functions@, i as int) == (true, self.state(), functions@.len() as int),
                self.state().env.len() == sreg.env.len(),
                sreg.defs.len() <= self.state().defs.len(),
                forall|j: int| 0 <= j < ds@.len() ==> ids@[j] < sreg.defs.len(),
                forall|j: int|
                    0 <= j < functions@.len() ==> (#[trigger] functions@[j]).def_id < self.state().defs.len()
                        && expr_ids_ok(self.state().defs.len() as int, functions@[j].body),
                ids@.len() == ds@.len(),
                forall|j: int| 0 <= j < ds@.len() ==> ids@[j] == def_index(base, ds@, j),
            decreases ds@.len() - i,
        {
            match &ds[i] {
                Definition::Function(f) => {
                    let ghost n0 = self.state().defs.len() as int;
                    let h = self.lower_fn_def(f, ids[i]);
                    let ghost before = functions@;
                    functions.push(h);
                    proof {
                        lemma_fns_prefix(sreg, base, ds@, before, functions@, i as int);
                        let n = self.state().defs.len() as int;
                        assert forall|j: int| 0 <= j < functions@.len() implies (#[trigger] functions@[j]).def_id < n
                            && expr_ids_ok(n, functions@[j].body) by {
                            if j < before.len() {
                                assert(functions@[j] == before[j]);
                                lemma_expr_ids_mono(n0, n, before[j].body);
                            }
                        }
                    }
                },
                Definition::CustomType(_) => {},
            }
            i += 1;
        }
        let mut custom_types: Vec<HirCustomType> = Vec::new();
        let mut i: usize = 0;
        while i < ds.len()
            invariant
                i <= ds@.len(),
                types_rel(base, ds@, custom_types@, i as int) == (true, custom_types@.len() as int),
                ids@.len() == ds@.len(),
                ctors@.len() == ds@.len(),
                forall|j: int| 0 <= j < ds@.len() ==> ids@[j] == def_index(base, ds@, j),
                forall|j: int|
                    0 <= j < ds@.len() ==> match #[trigger] ds@[j] {
                        Definition::CustomType(ct) => match ct.body {
                            TypeBody::Variants(vs) => ctors@[j]@.len() == vs@.len() && forall|v: int|
                                0 <= v < vs@.len() ==> #[trigger] ctors@[j]@[v] == def_index(base, ds@, j) + 1 + v,
                            TypeBody::Record(_) => true,
                        },
                        Definition::Function(_) => true,
                    },
            decreases ds@.len() - i,
        {
            match &ds[i] {
                Definition::CustomType(ct) => {
                    let variants = match &ct.body {
                        TypeBody::Variants(vs) => {
                            let cs = &ctors[i];
                            let mut hv: Vec<HirVariant> = Vec::new();
                            let mut v: usize = 0;
                            while v < vs.len()
                                invariant
                                    v <= vs@.len(),
                                    cs@.len() == vs@.len(),
                                    hv@.len() == v,
                                    forall|w: int|
                                        0 <= w < v ==> {
                                            let x = #[trigger] hv@[w];
                                            &&& x.def_id == cs@[w]
                                            &&& fields_ok(vs@[w].fields@, x.fields@)
                                            &&& x.span == vs@[w].span
                                        },
                                decreases vs@.len() - v,
                            {
                                hv.push(HirVariant { def_id: cs[v], fields: lower_fields(&vs[v].fields), span: vs[v].span });
                                v += 1;
                            }
                            hv
                        },
                        TypeBody::Record(_) => Vec::new(),
                    };
                    let h = HirCustomType {
                        def_id: ids[i],
                        visibility: ct.visibility,
                        type_params: names_of(&ct.type_params),
                        variants,
                        span: ct.span,
                    };
                    let ghost before = custom_types@;
                    custom_types.push(h);
                    proof {
                        lemma_types_rel_prefix(base, ds@, before, custom_types@, i as int);
                        assert(custom_type_ok(*ct, h, def_index(base, ds@, i as int)));
                    }
                },
                Definition::Function(_) => {},
            }
            i += 1;
        }
        let ghost nfin = self.state().defs.len();
        let mut table = SymbolTable::new();
        std::mem::swap(&mut table, &mut self.table);
        proof {
            assert(table.spec_defs().len() == nfin);
        }
        HirModule { imports, functions, custom_types, symbol_table: table, span: ast.span }
    }
}

/// Lowers a source file into HIR, resolving every name. Names that resolve
/// nowhere and names bound twice in one scope are reported, and lowering
/// goes on.
pub fn lower_to_hir(ast: &Module) -> (r: HirLowerResult)
    ensures
        lowers_module(*ast, r.module, r.diagnostics@.map_values(|d: Diagnostic| d@)),
        module_wf(r.module),
{
    let mut ctx = HirLowerCtx::new();
    let module = ctx.lower_module(ast);
    let diagnostics = ctx.into_diagnostics();
    HirLowerResult { module, diagnostics }
}

} // verus!
