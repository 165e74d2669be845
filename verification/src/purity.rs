//! Purity analysis over the HIR call graph.
//!
//! Every function is classified as `Pure` or `Effectful`. Effects are
//! seeded where the program reaches the Python boundary and then propagated
//! backwards along static call edges to a least fixpoint. The lattice is
//! `Pure ⊑ Effectful`.
//!
//! The analysis is conservative: a call it cannot attribute to a known
//! function makes the enclosing function `Effectful` with an `Unresolved`
//! source, so `Pure` means "proven to have no reachable effect". A lambda's
//! body counts for the function that creates it, and reassigning a `let mut`
//! binding is not an effect.
use crate::diagnostic::{
    Diagnostic, DiagnosticCode, DiagnosticView, LabelStyle, LabelView, Severity,
};
use crate::hir::{DefData, DefId, DefKind, HirExpr, HirFnDef, HirImportKind, HirMatchArm, HirModule};
use crate::span::Span;
use crate::text::str_eq;
use vstd::prelude::*;

verus! {

// ── Lattice ─────────────────────────────────────────────────────

/// Where a function sits on the purity lattice.
#[derive(Debug, Clone, Copy, PartialEq, Eq, Structural, PartialOrd, Ord)]
pub enum Purity {
    /// No observable effect is reachable from this function.
    Pure,
    /// An observable effect is reachable from this function.
    Effectful,
}

/// Why a function was classified as `Effectful`.
#[derive(Debug, Clone, Copy, PartialEq, Eq, Structural)]
pub enum EffectSource {
    /// The body reaches the Python boundary: an FFI call, an attribute read
    /// on an FFI module, a `try` expression, or an effectful built-in.
    Boundary,
    /// The function is declared `async`, or its body awaits.
    Async,
    /// A callee is effectful.
    Propagated,
    /// A call site could not be attributed to a known function, so the
    /// effect is assumed rather than proven.
    Unresolved,
}

impl EffectSource {
    /// Whether the effect was observed rather than assumed.
    pub fn is_proven(self) -> (b: bool)
        ensures
            b == !(self is Unresolved),
    {
        !matches!(self, EffectSource::Unresolved)
    }
}

/// Where a function's effect enters, and what to blame for it.
#[derive(Debug, Clone, Copy, PartialEq, Eq, Structural)]
pub struct EffectOrigin {
    /// What kind of effect this is.
    pub source: EffectSource,
    /// The expression that introduces the effect into this function.
    pub span: Span,
    /// The effectful callee, for a propagated effect.
    pub callee: Option<DefId>,
}

/// Why a callee could not be resolved to a definition.
#[derive(Debug, Clone, Copy, PartialEq, Eq, Structural)]
pub enum UnresolvedCallKind {
    /// Applying a function-typed parameter: `f(x)` where `f` is a parameter.
    ParameterApplied,
    /// Applying a value bound by `let` or a match arm.
    LocalApplied,
    /// A method call on a local or parameter: `p.exists()`.
    ReceiverUntyped,
    /// A member of an internal module import: `output.write(x)`.
    ModuleMember,
    /// The callee is an arbitrary expression rather than a name.
    ComputedCallee,
}

impl UnresolvedCallKind {
    /// Whether resolving the call needs reasoning about effects that flow
    /// through function values.
    pub fn is_higher_order(self) -> (b: bool)
        ensures
            b == (self is ParameterApplied || self is LocalApplied),
    {
        matches!(self, UnresolvedCallKind::ParameterApplied | UnresolvedCallKind::LocalApplied)
    }
}

/// A call site the analysis could not attribute to a known function.
#[derive(Debug, Clone, Copy, PartialEq, Eq, Structural)]
pub struct UnresolvedCall {
    /// Span of the call expression.
    pub span: Span,
    /// Why the callee could not be resolved.
    pub kind: UnresolvedCallKind,
}

// ── Well-formed modules ─────────────────────────────────────────

/// Every definition that `e` names is in a table of `n` definitions.
pub open spec fn expr_ids_ok(n: int, e: HirExpr) -> bool
    decreases e, 0int,
{
    match e {
        HirExpr::Literal(_) => true,
        HirExpr::Var(d, _) => d < n,
        HirExpr::Block { exprs, .. } => exprs_ids_ok(n, exprs@, exprs@.len() as int),
        HirExpr::List { elements, .. } => exprs_ids_ok(n, elements@, elements@.len() as int),
        HirExpr::Call { func, args, .. } => expr_ids_ok(n, *func) && exprs_ids_ok(n, args@, args@.len() as int),
        HirExpr::BinaryOp { lhs, rhs, .. } => expr_ids_ok(n, *lhs) && expr_ids_ok(n, *rhs),
        HirExpr::UnaryOp { expr, .. } => expr_ids_ok(n, *expr),
        HirExpr::If { condition, then_body, else_body, .. } => {
            &&& expr_ids_ok(n, *condition)
            &&& expr_ids_ok(n, *then_body)
            &&& match else_body {
                Some(alt) => expr_ids_ok(n, *alt),
                None => true,
            }
        },
        HirExpr::Match { subject, arms, .. } => expr_ids_ok(n, *subject) && arms_ids_ok(n, arms@, arms@.len() as int),
        HirExpr::Let { value, .. } => expr_ids_ok(n, *value),
        HirExpr::Assign { value, .. } => expr_ids_ok(n, *value),
        HirExpr::Lambda { body, .. } => expr_ids_ok(n, *body),
        HirExpr::FieldAccess { receiver, .. } => expr_ids_ok(n, *receiver),
        HirExpr::Try { expr, .. } => expr_ids_ok(n, *expr),
        HirExpr::Await { expr, .. } => expr_ids_ok(n, *expr),
    }
}

/// The first `k` expressions of `es` name only definitions below `n`.
pub open spec fn exprs_ids_ok(n: int, es: Seq<HirExpr>, k: int) -> bool
    decreases es, k,
{
    if k <= 0 || k > es.len() {
        true
    } else {
        exprs_ids_ok(n, es, k - 1) && expr_ids_ok(n, es[k - 1])
    }
}

/// The guards and bodies of the first `k` arms name only definitions below `n`.
pub open spec fn arms_ids_ok(n: int, arms: Seq<HirMatchArm>, k: int) -> bool
    decreases arms, k,
{
    if k <= 0 || k > arms.len() {
        true
    } else {
        &&& arms_ids_ok(n, arms, k - 1)
        &&& match arms[k - 1].guard {
            Some(g) => expr_ids_ok(n, *g),
            None => true,
        }
        &&& expr_ids_ok(n, arms[k - 1].body)
    }
}

/// A module whose functions and imports name only definitions of its table.
pub open spec fn module_wf(m: HirModule) -> bool {
    let n = m.symbol_table.spec_defs().len() as int;
    &&& forall|i: int| 0 <= i < m.functions@.len() ==> (#[trigger] m.functions@[i]).def_id < n
    &&& forall|i: int| 0 <= i < m.functions@.len() ==> expr_ids_ok(n, (#[trigger] m.functions@[i]).body)
    &&& forall|i: int| 0 <= i < m.imports@.len() ==> (#[trigger] m.imports@[i]).def_id < n
}

// ── The body scan ───────────────────────────────────────────────

/// What the scan of a body has found so far.
pub struct ScanView {
    /// The first observed effect.
    pub proven: Option<EffectOrigin>,
    /// The first assumed effect (an unresolved call).
    pub assumed: Option<EffectOrigin>,
    /// The static calls to functions, with their spans.
    pub callees: Seq<(DefId, Span)>,
    /// The calls that could not be resolved.
    pub unresolved: Seq<UnresolvedCall>,
}

/// Records an observed effect; the first one in source order wins.
pub open spec fn mark(st: ScanView, source: EffectSource, span: Span) -> ScanView {
    if st.proven is None {
        ScanView { proven: Some(EffectOrigin { source, span, callee: None }), ..st }
    } else {
        st
    }
}

/// Records a call site that cannot be attributed to a known function; it
/// counts as an assumed effect.
pub open spec fn unresolved(st: ScanView, span: Span, kind: UnresolvedCallKind) -> ScanView {
    ScanView {
        unresolved: st.unresolved.push(UnresolvedCall { span, kind }),
        assumed: if st.assumed is None {
            Some(EffectOrigin { source: EffectSource::Unresolved, span, callee: None })
        } else {
            st.assumed
        },
        ..st
    }
}

/// The definition a field-access chain is rooted at.
pub open spec fn root_def(e: HirExpr) -> Option<DefId>
    decreases e,
{
    match e {
        HirExpr::Var(d, _) => Some(d),
        HirExpr::FieldAccess { receiver, .. } => root_def(*receiver),
        _ => None,
    }
}

/// Whether `d` is bound by a Python import of `m`.
pub open spec fn is_python_import(m: HirModule, d: DefId) -> bool {
    exists|i: int|
        0 <= i < m.imports@.len() && (#[trigger] m.imports@[i]).def_id == d && m.imports@[i].kind is Python
}

pub open spec fn def_of(m: HirModule, d: DefId) -> DefData {
    m.symbol_table.spec_defs()[d as int]
}

/// A call through an import: a Python module's member crosses the
/// boundary; an internal module's member cannot be resolved yet.
pub open spec fn classify_import(st: ScanView, m: HirModule, d: DefId, span: Span) -> ScanView {
    if is_python_import(m, d) {
        mark(st, EffectSource::Boundary, span)
    } else {
        unresolved(st, span, UnresolvedCallKind::ModuleMember)
    }
}

/// A call `name(..)` where `name` is definition `d`.
pub open spec fn classify_applied(st: ScanView, m: HirModule, d: DefId, span: Span) -> ScanView {
    match def_of(m, d).kind {
        DefKind::Function => ScanView { callees: st.callees.push((d, span)), ..st },
        DefKind::Builtin => if def_of(m, d).name@ == "println"@ {
            mark(st, EffectSource::Boundary, span)
        } else {
            st
        },
        DefKind::Constructor | DefKind::Type => st,
        DefKind::Parameter => unresolved(st, span, UnresolvedCallKind::ParameterApplied),
        DefKind::LocalBinding => unresolved(st, span, UnresolvedCallKind::LocalApplied),
        DefKind::Import => classify_import(st, m, d, span),
    }
}

/// A call `root.member(..)` where `root` is definition `d`.
pub open spec fn classify_member(st: ScanView, m: HirModule, d: DefId, span: Span) -> ScanView {
    match def_of(m, d).kind {
        DefKind::Import => classify_import(st, m, d, span),
        DefKind::Builtin | DefKind::Constructor | DefKind::Type => st,
        DefKind::Parameter | DefKind::LocalBinding | DefKind::Function => unresolved(
            st,
            span,
            UnresolvedCallKind::ReceiverUntyped,
        ),
    }
}

/// The scan after expression `e`.
pub open spec fn visit(st: ScanView, m: HirModule, e: HirExpr) -> ScanView
    decreases e, 0int,
{
    match e {
        HirExpr::Literal(_) => st,
        HirExpr::Var(..) => st,
        HirExpr::Call { func, args, span } => visit_all(
            visit_callee(st, m, *func, span),
            m,
            args@,
            args@.len() as int,
        ),
        HirExpr::FieldAccess { receiver, span, .. } => {
            let st1 = match root_def(*receiver) {
                Some(r) => if is_python_import(m, r) {
                    mark(st, EffectSource::Boundary, span)
                } else {
                    st
                },
                None => st,
            };
            visit(st1, m, *receiver)
        },
        HirExpr::Try { expr, span } => visit(mark(st, EffectSource::Boundary, span), m, *expr),
        HirExpr::Await { expr, span } => visit(mark(st, EffectSource::Async, span), m, *expr),
        HirExpr::Block { exprs, .. } => visit_all(st, m, exprs@, exprs@.len() as int),
        HirExpr::List { elements, .. } => visit_all(st, m, elements@, elements@.len() as int),
        HirExpr::BinaryOp { lhs, rhs, .. } => visit(visit(st, m, *lhs), m, *rhs),
        HirExpr::UnaryOp { expr, .. } => visit(st, m, *expr),
        HirExpr::Lambda { body, .. } => visit(st, m, *body),
        HirExpr::If { condition, then_body, else_body, .. } => {
            let st1 = visit(visit(st, m, *condition), m, *then_body);
            match else_body {
                Some(alt) => visit(st1, m, *alt),
                None => st1,
            }
        },
        HirExpr::Match { subject, arms, .. } => visit_arms(visit(st, m, *subject), m, arms@, arms@.len() as int),
        HirExpr::Let { value, .. } => visit(st, m, *value),
        HirExpr::Assign { value, .. } => visit(st, m, *value),
    }
}

/// The scan after the callee `f` of a call at `span`.
pub open spec fn visit_callee(st: ScanView, m: HirModule, f: HirExpr, span: Span) -> ScanView
    decreases f, 1int,
{
    match f {
        HirExpr::Var(d, _) => classify_applied(st, m, d, span),
        HirExpr::FieldAccess { receiver, .. } => match root_def(*receiver) {
            Some(r) => classify_member(st, m, r, span),
            None => visit(unresolved(st, span, UnresolvedCallKind::ComputedCallee), m, *receiver),
        },
        _ => visit(unresolved(st, span, UnresolvedCallKind::ComputedCallee), m, f),
    }
}

/// The scan after the first `k` expressions of `es`.
pub open spec fn visit_all(st: ScanView, m: HirModule, es: Seq<HirExpr>, k: int) -> ScanView
    decreases es, k,
{
    if k <= 0 || k > es.len() {
        st
    } else {
        visit(visit_all(st, m, es, k - 1), m, es[k - 1])
    }
}

/// The scan after the guards and bodies of the first `k` arms.
pub open spec fn visit_arms(st: ScanView, m: HirModule, arms: Seq<HirMatchArm>, k: int) -> ScanView
    decreases arms, k,
{
    if k <= 0 || k > arms.len() {
        st
    } else {
        let st1 = visit_arms(st, m, arms, k - 1);
        let st2 = match arms[k - 1].guard {
            Some(g) => visit(st1, m, *g),
            None => st1,
        };
        visit(st2, m, arms[k - 1].body)
    }
}

/// The scan of function `f`: an `async` function starts out effectful.
pub open spec fn scan_fn(m: HirModule, f: HirFnDef) -> ScanView {
    let start = ScanView {
        proven: if f.is_async {
            Some(EffectOrigin { source: EffectSource::Async, span: f.span, callee: None })
        } else {
            None
        },
        assumed: None,
        callees: Seq::empty(),
        unresolved: Seq::empty(),
    };
    visit(start, m, f.body)
}

/// A direct origin: observed or assumed in the function itself, blaming
/// no callee.
pub open spec fn is_direct(o: Option<EffectOrigin>) -> bool {
    o matches Some(x) ==> x.callee is None && x.source != EffectSource::Propagated
}

/// The scan holds only direct origins.
pub open spec fn scan_ok(sv: ScanView) -> bool {
    is_direct(sv.proven) && is_direct(sv.assumed)
}

/// The origin the scan gives a function: a proven effect wins over an
/// assumed one, even an earlier one.
pub open spec fn direct_origin(sv: ScanView) -> Option<EffectOrigin> {
    match sv.proven {
        Some(o) => Some(o),
        None => sv.assumed,
    }
}

// ── What crosses the boundary ───────────────────────────────────

/// `f`, the callee of a call, is the builtin `println` or a function
/// imported from Python: calling it crosses the Python boundary.
pub open spec fn boundary_callee(m: HirModule, f: HirExpr) -> bool {
    f matches HirExpr::Var(d, _) && ({
        ||| def_of(m, d).kind == DefKind::Builtin && def_of(m, d).name@ == "println"@
        ||| def_of(m, d).kind == DefKind::Import && is_python_import(m, d)
    })
}

/// Somewhere in `e`, wherever it stands (a branch of an `if`, an arm of a
/// `match`, an argument, a lambda body), there is a call of a boundary
/// callee or a `try`.
pub open spec fn crosses_boundary(m: HirModule, e: HirExpr) -> bool
    decreases e, 0int,
{
    match e {
        HirExpr::Literal(_) => false,
        HirExpr::Var(..) => false,
        HirExpr::Call { func, args, .. } => boundary_callee(m, *func) || crosses_boundary(m, *func) || any_crosses(
            m,
            args@,
            args@.len() as int,
        ),
        HirExpr::FieldAccess { receiver, .. } => crosses_boundary(m, *receiver),
        HirExpr::Try { .. } => true,
        HirExpr::Await { expr, .. } => crosses_boundary(m, *expr),
        HirExpr::Block { exprs, .. } => any_crosses(m, exprs@, exprs@.len() as int),
        HirExpr::List { elements, .. } => any_crosses(m, elements@, elements@.len() as int),
        HirExpr::BinaryOp { lhs, rhs, .. } => crosses_boundary(m, *lhs) || crosses_boundary(m, *rhs),
        HirExpr::UnaryOp { expr, .. } => crosses_boundary(m, *expr),
        HirExpr::Lambda { body, .. } => crosses_boundary(m, *body),
        HirExpr::If { condition, then_body, else_body, .. } => crosses_boundary(m, *condition) || crosses_boundary(
            m,
            *then_body,
        ) || (else_body matches Some(alt) && crosses_boundary(m, *alt)),
        HirExpr::Match { subject, arms, .. } => crosses_boundary(m, *subject) || arms_cross(
            m,
            arms@,
            arms@.len() as int,
        ),
        HirExpr::Let { value, .. } => crosses_boundary(m, *value),
        HirExpr::Assign { value, .. } => crosses_boundary(m, *value),
    }
}

/// One of the first `k` expressions of `es` crosses the boundary.
pub open spec fn any_crosses(m: HirModule, es: Seq<HirExpr>, k: int) -> bool
    decreases es, k,
{
    if k <= 0 || k > es.len() {
        false
    } else {
        any_crosses(m, es, k - 1) || crosses_boundary(m, es[k - 1])
    }
}

/// A guard or a body of one of the first `k` arms crosses the boundary.
pub open spec fn arms_cross(m: HirModule, arms: Seq<HirMatchArm>, k: int) -> bool
    decreases arms, k,
{
    if k <= 0 || k > arms.len() {
        false
    } else {
        ||| arms_cross(m, arms, k - 1)
        ||| (arms[k - 1].guard matches Some(g) && crosses_boundary(m, *g))
        ||| crosses_boundary(m, arms[k - 1].body)
    }
}

/// A field-access chain rooted at a definition holds no call.
proof fn lemma_rooted_crosses_nothing(m: HirModule, e: HirExpr)
    requires
        root_def(e) is Some,
    ensures
        !crosses_boundary(m, e),
    decreases e,
{
    if let HirExpr::FieldAccess { receiver, .. } = e {
        lemma_rooted_crosses_nothing(m, *receiver);
    }
}

/// Once the scan has found an effect, it keeps one.
proof fn lemma_visit_keeps(st: ScanView, m: HirModule, e: HirExpr)
    requires
        st.proven is Some,
    ensures
        visit(st, m, e).proven is Some,
    decreases e, 0int,
{
    match e {
        HirExpr::Call { func, args, span } => {
            lemma_callee_keeps(st, m, *func, span);
            lemma_visit_all_keeps(visit_callee(st, m, *func, span), m, args@, args@.len() as int);
        },
        HirExpr::FieldAccess { receiver, span, .. } => {
            let st1 = match root_def(*receiver) {
                Some(r) => if is_python_import(m, r) {
                    mark(st, EffectSource::Boundary, span)
                } else {
                    st
                },
                None => st,
            };
            lemma_visit_keeps(st1, m, *receiver);
        },
        HirExpr::Try { expr, span } => lemma_visit_keeps(mark(st, EffectSource::Boundary, span), m, *expr),
        HirExpr::Await { expr, span } => lemma_visit_keeps(mark(st, EffectSource::Async, span), m, *expr),
        HirExpr::Block { exprs, .. } => lemma_visit_all_keeps(st, m, exprs@, exprs@.len() as int),
        HirExpr::List { elements, .. } => lemma_visit_all_keeps(st, m, elements@, elements@.len() as int),
        HirExpr::BinaryOp { lhs, rhs, .. } => {
            lemma_visit_keeps(st, m, *lhs);
            lemma_visit_keeps(visit(st, m, *lhs), m, *rhs);
        },
        HirExpr::UnaryOp { expr, .. } => lemma_visit_keeps(st, m, *expr),
        HirExpr::Lambda { body, .. } => lemma_visit_keeps(st, m, *body),
        HirExpr::If { condition, then_body, else_body, .. } => {
            lemma_visit_keeps(st, m, *condition);
            let st0 = visit(st, m, *condition);
            lemma_visit_keeps(st0, m, *then_body);
            if let Some(alt) = else_body {
                lemma_visit_keeps(visit(st0, m, *then_body), m, *alt);
            }
        },
        HirExpr::Match { subject, arms, .. } => {
            lemma_visit_keeps(st, m, *subject);
            lemma_visit_arms_keeps(visit(st, m, *subject), m, arms@, arms@.len() as int);
        },
        HirExpr::Let { value, .. } => lemma_visit_keeps(st, m, *value),
        HirExpr::Assign { value, .. } => lemma_visit_keeps(st, m, *value),
        _ => {},
    }
}

proof fn lemma_callee_keeps(st: ScanView, m: HirModule, f: HirExpr, span: Span)
    requires
        st.proven is Some,
    ensures
        visit_callee(st, m, f, span).proven is Some,
    decreases f, 1int,
{
    match f {
        HirExpr::Var(..) => {},
        HirExpr::FieldAccess { receiver, .. } => match root_def(*receiver) {
            Some(r) => {},
            None => lemma_visit_keeps(unresolved(st, span, UnresolvedCallKind::ComputedCallee), m, *receiver),
        },
        _ => lemma_visit_keeps(unresolved(st, span, UnresolvedCallKind::ComputedCallee), m, f),
    }
}

proof fn lemma_visit_all_keeps(st: ScanView, m: HirModule, es: Seq<HirExpr>, k: int)
    requires
        st.proven is Some,
    ensures
        visit_all(st, m, es, k).proven is Some,
    decreases es, k,
{
    if 0 < k <= es.len() {
        lemma_visit_all_keeps(st, m, es, k - 1);
        lemma_visit_keeps(visit_all(st, m, es, k - 1), m, es[k - 1]);
    }
}

proof fn lemma_visit_arms_keeps(st: ScanView, m: HirModule, arms: Seq<HirMatchArm>, k: int)
    requires
        st.proven is Some,
    ensures
        visit_arms(st, m, arms, k).proven is Some,
    decreases arms, k,
{
    if 0 < k <= arms.len() {
        lemma_visit_arms_keeps(st, m, arms, k - 1);
        let st1 = visit_arms(st, m, arms, k - 1);
        let st2 = match arms[k - 1].guard {
            Some(g) => visit(st1, m, *g),
            None => st1,
        };
        if let Some(g) = arms[k - 1].guard {
            lemma_visit_keeps(st1, m, *g);
        }
        lemma_visit_keeps(st2, m, arms[k - 1].body);
    }
}

/// The scan finds an effect in any expression that crosses the boundary.
proof fn lemma_visit_finds(st: ScanView, m: HirModule, e: HirExpr)
    requires
        crosses_boundary(m, e),
    ensures
        visit(st, m, e).proven is Some,
    decreases e, 0int,
{
    match e {
        HirExpr::Call { func, args, span } => {
            if boundary_callee(m, *func) || crosses_boundary(m, *func) {
                lemma_callee_finds(st, m, *func, span);
                lemma_visit_all_keeps(visit_callee(st, m, *func, span), m, args@, args@.len() as int);
            } else {
                lemma_visit_all_finds(visit_callee(st, m, *func, span), m, args@, args@.len() as int);
            }
        },
        HirExpr::FieldAccess { receiver, span, .. } => {
            let st1 = match root_def(*receiver) {
                Some(r) => if is_python_import(m, r) {
                    mark(st, EffectSource::Boundary, span)
                } else {
                    st
                },
                None => st,
            };
            lemma_visit_finds(st1, m, *receiver);
        },
        HirExpr::Try { expr, span } => lemma_visit_keeps(mark(st, EffectSource::Boundary, span), m, *expr),
        HirExpr::Await { expr, span } => lemma_visit_finds(mark(st, EffectSource::Async, span), m, *expr),
        HirExpr::Block { exprs, .. } => lemma_visit_all_finds(st, m, exprs@, exprs@.len() as int),
        HirExpr::List { elements, .. } => lemma_visit_all_finds(st, m, elements@, elements@.len() as int),
        HirExpr::BinaryOp { lhs, rhs, .. } => {
            if crosses_boundary(m, *lhs) {
                lemma_visit_finds(st, m, *lhs);
                lemma_visit_keeps(visit(st, m, *lhs), m, *rhs);
            } else {
                lemma_visit_finds(visit(st, m, *lhs), m, *rhs);
            }
        },
        HirExpr::UnaryOp { expr, .. } => lemma_visit_finds(st, m, *expr),
        HirExpr::Lambda { body, .. } => lemma_visit_finds(st, m, *body),
        HirExpr::If { condition, then_body, else_body, .. } => {
            let st0 = visit(st, m, *condition);
            let st1 = visit(st0, m, *then_body);
            if crosses_boundary(m, *condition) {
                lemma_visit_finds(st, m, *condition);
                lemma_visit_keeps(st0, m, *then_body);
            } else if crosses_boundary(m, *then_body) {
                lemma_visit_finds(st0, m, *then_body);
            }
            if crosses_boundary(m, *condition) || crosses_boundary(m, *then_body) {
                if let Some(alt) = else_body {
                    lemma_visit_keeps(st1, m, *alt);
                }
            } else {
                if let Some(alt) = else_body {
                    lemma_visit_finds(st1, m, *alt);
                }
            }
        },
        HirExpr::Match { subject, arms, .. } => {
            if crosses_boundary(m, *subject) {
                lemma_visit_finds(st, m, *subject);
                lemma_visit_arms_keeps(visit(st, m, *subject), m, arms@, arms@.len() as int);
            } else {
                lemma_visit_arms_finds(visit(st, m, *subject), m, arms@, arms@.len() as int);
            }
        },
        HirExpr::Let { value, .. } => lemma_visit_finds(st, m, *value),
        HirExpr::Assign { value, .. } => lemma_visit_finds(st, m, *value),
        _ => {},
    }
}

proof fn lemma_callee_finds(st: ScanView, m: HirModule, f: HirExpr, span: Span)
    requires
        boundary_callee(m, f) || crosses_boundary(m, f),
    ensures
        visit_callee(st, m, f, span).proven is Some,
    decreases f, 1int,
{
    match f {
        HirExpr::Var(..) => {},
        HirExpr::FieldAccess { receiver, .. } => match root_def(*receiver) {
            Some(r) => {
                lemma_rooted_crosses_nothing(m, *receiver);
            },
            None => lemma_visit_finds(unresolved(st, span, UnresolvedCallKind::ComputedCallee), m, *receiver),
        },
        _ => lemma_visit_finds(unresolved(st, span, UnresolvedCallKind::ComputedCallee), m, f),
    }
}

proof fn lemma_visit_all_finds(st: ScanView, m: HirModule, es: Seq<HirExpr>, k: int)
    requires
        any_crosses(m, es, k),
    ensures
        visit_all(st, m, es, k).proven is Some,
    decreases es, k,
{
    if 0 < k <= es.len() {
        if any_crosses(m, es, k - 1) {
            lemma_visit_all_finds(st, m, es, k - 1);
            lemma_visit_keeps(visit_all(st, m, es, k - 1), m, es[k - 1]);
        } else {
            lemma_visit_finds(visit_all(st, m, es, k - 1), m, es[k - 1]);
        }
    }
}

proof fn lemma_visit_arms_finds(st: ScanView, m: HirModule, arms: Seq<HirMatchArm>, k: int)
    requires
        arms_cross(m, arms, k),
    ensures
        visit_arms(st, m, arms, k).proven is Some,
    decreases arms, k,
{
    if 0 < k <= arms.len() {
        let st1 = visit_arms(st, m, arms, k - 1);
        let st2 = match arms[k - 1].guard {
            Some(g) => visit(st1, m, *g),
            None => st1,
        };
        if arms_cross(m, arms, k - 1) {
            lemma_visit_arms_finds(st, m, arms, k - 1);
            if let Some(g) = arms[k - 1].guard {
                lemma_visit_keeps(st1, m, *g);
            }
            lemma_visit_keeps(st2, m, arms[k - 1].body);
        } else if arms[k - 1].guard matches Some(g) && crosses_boundary(m, *g) {
            lemma_visit_finds(st1, m, *arms[k - 1].guard->0);
            lemma_visit_keeps(st2, m, arms[k - 1].body);
        } else {
            lemma_visit_finds(st2, m, arms[k - 1].body);
        }
    }
}

/// A function whose body crosses the Python boundary anywhere (a call of
/// `println` or of a Python import, or a `try`, in any branch, arm,
/// argument or nested body) is `Effectful`.
pub proof fn lemma_boundary_makes_effectful(m: HirModule, r: PurityReport, i: int)
    requires
        analysis_of(r, m),
        0 <= i < m.functions@.len(),
        crosses_boundary(m, m.functions@[i].body),
    ensures
        r.functions@[i].purity == Purity::Effectful,
        r.functions@[i].origin is Some,
{
    let f = m.functions@[i];
    let start = ScanView {
        proven: if f.is_async {
            Some(EffectOrigin { source: EffectSource::Async, span: f.span, callee: None })
        } else {
            None
        },
        assumed: None,
        callees: Seq::empty(),
        unresolved: Seq::empty(),
    };
    lemma_visit_finds(start, m, f.body);
    assert(scan_fn(m, f).proven is Some);
    assert(fn_inits(m)[i] is Some);
    let n = m.functions@.len();
    let purity = Seq::new(n, |j: int| r.functions@[j].purity);
    let origin = Seq::new(n, |j: int| r.functions@[j].origin);
    assert(origin[i] == fn_inits(m)[i]);
    assert((purity[i] == Purity::Effectful) == (origin[i] is Some));
}

// ── Executable scan ─────────────────────────────────────────────

/// Collects direct effects, static call edges and unresolved call sites of
/// one function body.
pub struct Scan {
    proven: Option<EffectOrigin>,
    assumed: Option<EffectOrigin>,
    callees: Vec<(DefId, Span)>,
    unresolved: Vec<UnresolvedCall>,
}

impl View for Scan {
    type V = ScanView;

    closed spec fn view(&self) -> ScanView {
        ScanView { proven: self.proven, assumed: self.assumed, callees: self.callees@, unresolved: self.unresolved@ }
    }
}

/// Every definition an expression names is in the table; so is the
/// definition its field-access chain is rooted at.
proof fn lemma_root_def_ok(n: int, e: HirExpr)
    requires
        expr_ids_ok(n, e),
    ensures
        root_def(e) matches Some(r) ==> r < n,
    decreases e,
{
    if let HirExpr::FieldAccess { receiver, .. } = e {
        lemma_root_def_ok(n, *receiver);
    }
}

proof fn lemma_exprs_ids_ok(n: int, es: Seq<HirExpr>, k: int, j: int)
    requires
        exprs_ids_ok(n, es, k),
        0 <= j < k <= es.len(),
    ensures
        expr_ids_ok(n, es[j]),
    decreases k,
{
    if j < k - 1 {
        lemma_exprs_ids_ok(n, es, k - 1, j);
    }
}

proof fn lemma_arms_ids_ok(n: int, arms: Seq<HirMatchArm>, k: int, j: int)
    requires
        arms_ids_ok(n, arms, k),
        0 <= j < k <= arms.len(),
    ensures
        match arms[j].guard {
            Some(g) => expr_ids_ok(n, *g),
            None => true,
        },
        expr_ids_ok(n, arms[j].body),
    decreases k,
{
    if j < k - 1 {
        lemma_arms_ids_ok(n, arms, k - 1, j);
    }
}

/// `py` holds exactly the definitions bound by Python imports of `m`.
pub open spec fn python_imports_of(py: Seq<DefId>, m: HirModule) -> bool {
    forall|d: DefId| py.contains(d) == is_python_import(m, d)
}

fn contains_def(py: &Vec<DefId>, d: DefId) -> (b: bool)
    ensures
        b == py@.contains(d),
{
    let mut i: usize = 0;
    while i < py.len()
        invariant
            i <= py@.len(),
            forall|k: int| 0 <= k < i ==> py@[k] != d,
        decreases py@.len() - i,
    {
        if py[i] == d {
            assert(py@[i as int] == d);
            return true;
        }
        i += 1;
    }
    false
}

fn root_def_of(e: &HirExpr) -> (r: Option<DefId>)
    ensures
        r == root_def(*e),
    decreases e,
{
    match e {
        HirExpr::Var(d, _) => Some(*d),
        HirExpr::FieldAccess { receiver, .. } => root_def_of(receiver),
        _ => None,
    }
}

impl Scan {
    fn new(proven: Option<EffectOrigin>) -> (s: Scan)
        ensures
            s@ == (ScanView { proven, assumed: None, callees: Seq::empty(), unresolved: Seq::empty() }),
    {
        Scan { proven, assumed: None, callees: Vec::new(), unresolved: Vec::new() }
    }

    fn mark(&mut self, source: EffectSource, span: Span)
        requires
            scan_ok(old(self)@),
            source != EffectSource::Propagated,
        ensures
            scan_ok(final(self)@),
            final(self)@ == mark(old(self)@, source, span),
    {
        if self.proven.is_none() {
            self.proven = Some(EffectOrigin { source, span, callee: None });
        }
    }

    fn unresolved(&mut self, span: Span, kind: UnresolvedCallKind)
        requires
            scan_ok(old(self)@),
        ensures
            scan_ok(final(self)@),
            final(self)@ == unresolved(old(self)@, span, kind),
    {
        self.unresolved.push(UnresolvedCall { span, kind });
        if self.assumed.is_none() {
            self.assumed = Some(EffectOrigin { source: EffectSource::Unresolved, span, callee: None });
        }
    }

    fn classify_import(&mut self, m: &HirModule, py: &Vec<DefId>, d: DefId, span: Span)
        requires
            python_imports_of(py@, *m),
            scan_ok(old(self)@),
        ensures
            scan_ok(final(self)@),
            final(self)@ == classify_import(old(self)@, *m, d, span),
    {
        if contains_def(py, d) {
            self.mark(EffectSource::Boundary, span);
        } else {
            self.unresolved(span, UnresolvedCallKind::ModuleMember);
        }
    }

    fn classify_applied(&mut self, m: &HirModule, py: &Vec<DefId>, d: DefId, span: Span)
        requires
            python_imports_of(py@, *m),
            d < m.symbol_table.spec_defs().len(),
            scan_ok(old(self)@),
        ensures
            scan_ok(final(self)@),
            final(self)@ == classify_applied(old(self)@, *m, d, span),
    {
        let data = m.symbol_table.get(d);
        match data.kind {
            DefKind::Function => {
                self.callees.push((d, span));
            },
            DefKind::Builtin => {
                if str_eq(data.name.as_str(), "println") {
                    self.mark(EffectSource::Boundary, span);
                }
            },
            DefKind::Constructor | DefKind::Type => {},
            DefKind::Parameter => self.unresolved(span, UnresolvedCallKind::ParameterApplied),
            DefKind::LocalBinding => self.unresolved(span, UnresolvedCallKind::LocalApplied),
            DefKind::Import => self.classify_import(m, py, d, span),
        }
    }

    fn classify_member(&mut self, m: &HirModule, py: &Vec<DefId>, d: DefId, span: Span)
        requires
            python_imports_of(py@, *m),
            d < m.symbol_table.spec_defs().len(),
            scan_ok(old(self)@),
        ensures
            scan_ok(final(self)@),
            final(self)@ == classify_member(old(self)@, *m, d, span),
    {
        match m.symbol_table.get(d).kind {
            DefKind::Import => self.classify_import(m, py, d, span),
            DefKind::Builtin | DefKind::Constructor | DefKind::Type => {},
            DefKind::Parameter | DefKind::LocalBinding | DefKind::Function => {
                self.unresolved(span, UnresolvedCallKind::ReceiverUntyped);
            },
        }
    }

    fn visit(&mut self, m: &HirModule, py: &Vec<DefId>, e: &HirExpr)
        requires
            python_imports_of(py@, *m),
            expr_ids_ok(m.symbol_table.spec_defs().len() as int, *e),
            scan_ok(old(self)@),
        ensures
            scan_ok(final(self)@),
            final(self)@ == visit(old(self)@, *m, *e),
        decreases e, 0int,
    {
        match e {
            HirExpr::Literal(_) => {},
            HirExpr::Var(..) => {},
            HirExpr::Call { func, args, span } => {
                self.visit_callee(m, py, func, *span);
                self.visit_all(m, py, args);
            },
            HirExpr::FieldAccess { receiver, span, .. } => {
                if let Some(root) = root_def_of(receiver) {
                    if contains_def(py, root) {
                        self.mark(EffectSource::Boundary, *span);
                    }
                }
                self.visit(m, py, receiver);
            },
            HirExpr::Try { expr, span } => {
                self.mark(EffectSource::Boundary, *span);
                self.visit(m, py, expr);
            },
            HirExpr::Await { expr, span } => {
                self.mark(EffectSource::Async, *span);
                self.visit(m, py, expr);
            },
            HirExpr::Block { exprs, .. } => self.visit_all(m, py, exprs),
            HirExpr::List { elements, .. } => self.visit_all(m, py, elements),
            HirExpr::BinaryOp { lhs, rhs, .. } => {
                self.visit(m, py, lhs);
                self.visit(m, py, rhs);
            },
            HirExpr::UnaryOp { expr, .. } => self.visit(m, py, expr),
            HirExpr::Lambda { body, .. } => self.visit(m, py, body),
            HirExpr::If { condition, then_body, else_body, .. } => {
                self.visit(m, py, condition);
                self.visit(m, py, then_body);
                if let Some(alt) = else_body {
                    self.visit(m, py, alt);
                }
            },
            HirExpr::Match { subject, arms, .. } => {
                self.visit(m, py, subject);
                self.visit_arms(m, py, arms);
            },
            HirExpr::Let { value, .. } => self.visit(m, py, value),
            HirExpr::Assign { value, .. } => self.visit(m, py, value),
        }
    }

    fn visit_callee(&mut self, m: &HirModule, py: &Vec<DefId>, f: &HirExpr, span: Span)
        requires
            python_imports_of(py@, *m),
            expr_ids_ok(m.symbol_table.spec_defs().len() as int, *f),
            scan_ok(old(self)@),
        ensures
            scan_ok(final(self)@),
            final(self)@ == visit_callee(old(self)@, *m, *f, span),
        decreases f, 1int,
    {
        match f {
            HirExpr::Var(d, _) => self.classify_applied(m, py, *d, span),
            HirExpr::FieldAccess { receiver, .. } => {
                proof {
                    lemma_root_def_ok(m.symbol_table.spec_defs().len() as int, **receiver);
                }
                match root_def_of(receiver) {
                    Some(root) => self.classify_member(m, py, root, span),
                    None => {
                        self.unresolved(span, UnresolvedCallKind::ComputedCallee);
                        self.visit(m, py, receiver);
                    },
                }
            },
            _ => {
                self.unresolved(span, UnresolvedCallKind::ComputedCallee);
                self.visit(m, py, f);
            },
        }
    }

    fn visit_all(&mut self, m: &HirModule, py: &Vec<DefId>, es: &Vec<HirExpr>)
        requires
            python_imports_of(py@, *m),
            exprs_ids_ok(m.symbol_table.spec_defs().len() as int, es@, es@.len() as int),
            scan_ok(old(self)@),
        ensures
            scan_ok(final(self)@),
            final(self)@ == visit_all(old(self)@, *m, es@, es@.len() as int),
        decreases es, 0int,
    {
        let ghost s0 = self@;
        let mut i: usize = 0;
        while i < es.len()
            invariant
                i <= es@.len(),
                python_imports_of(py@, *m),
                exprs_ids_ok(m.symbol_table.spec_defs().len() as int, es@, es@.len() as int),
                self@ == visit_all(s0, *m, es@, i as int),
                scan_ok(self@),
            decreases es@.len() - i,
        {
            proof {
                lemma_exprs_ids_ok(m.symbol_table.spec_defs().len() as int, es@, es@.len() as int, i as int);
                assert(decreases_to!(es => es@[i as int]));
            }
            self.visit(m, py, &es[i]);
            i += 1;
        }
    }

    fn visit_arms(&mut self, m: &HirModule, py: &Vec<DefId>, arms: &Vec<HirMatchArm>)
        requires
            python_imports_of(py@, *m),
            arms_ids_ok(m.symbol_table.spec_defs().len() as int, arms@, arms@.len() as int),
            scan_ok(old(self)@),
        ensures
            scan_ok(final(self)@),
            final(self)@ == visit_arms(old(self)@, *m, arms@, arms@.len() as int),
        decreases arms, 0int,
    {
        let ghost s0 = self@;
        let mut i: usize = 0;
        while i < arms.len()
            invariant
                i <= arms@.len(),
                python_imports_of(py@, *m),
                arms_ids_ok(m.symbol_table.spec_defs().len() as int, arms@, arms@.len() as int),
                self@ == visit_arms(s0, *m, arms@, i as int),
                scan_ok(self@),
            decreases arms@.len() - i,
        {
            proof {
                lemma_arms_ids_ok(m.symbol_table.spec_defs().len() as int, arms@, arms@.len() as int, i as int);
                assert(decreases_to!(arms => arms@[i as int]));
                assert(decreases_to!(arms@[i as int] => arms@[i as int].body));
            }
            let arm = &arms[i];
            if let Some(guard) = &arm.guard {
                proof {
                    assert(decreases_to!(arms@[i as int] => arms@[i as int].guard));
                }
                self.visit(m, py, guard);
            }
            self.visit(m, py, &arm.body);
            i += 1;
        }
    }
}

// ── Propagation ─────────────────────────────────────────────────

/// The index of the first function with definition `d`, from `i` on; -1
/// when there is none.
pub open spec fn first_index(defs: Seq<DefId>, d: DefId, i: int) -> int
    decreases defs.len() - i,
{
    if i < 0 || i >= defs.len() {
        -1
    } else if defs[i] == d {
        i
    } else {
        first_index(defs, d, i + 1)
    }
}

/// The function called by the `k`-th call edge of function `i`: the index
/// of its definition, or -1 when it is not one of the module's functions.
pub open spec fn edge_target(defs: Seq<DefId>, edges: Seq<Seq<(DefId, Span)>>, i: int, k: int) -> int {
    first_index(defs, edges[i][k].0, 0)
}

/// The result of propagation: `purity` and `origin` for functions with
/// definitions `defs`, direct origins `init` and call edges `edges`.
///
/// - A function is effectful exactly when it has an origin.
/// - A direct effect is kept as the function's origin.
/// - Any other effect is propagated: its origin names an effectful callee
///   through one of the function's own call edges, at that call's span.
/// - Closure: a function that calls an effectful function is effectful.
/// - Grounding: some rank decreases along every propagated origin, so
///   following origins always ends at a direct effect.
pub open spec fn propagated(
    defs: Seq<DefId>,
    init: Seq<Option<EffectOrigin>>,
    edges: Seq<Seq<(DefId, Span)>>,
    purity: Seq<Purity>,
    origin: Seq<Option<EffectOrigin>>,
) -> bool {
    let n = defs.len();
    &&& init.len() == n && edges.len() == n && purity.len() == n && origin.len() == n
    &&& forall|i: int| 0 <= i < n ==> ((#[trigger] purity[i]) == Purity::Effectful) == (origin[i] is Some)
    &&& forall|i: int| 0 <= i < n && (#[trigger] init[i]) is Some ==> origin[i] == init[i]
    &&& forall|i: int|
        0 <= i < n && (#[trigger] init[i]) is None && origin[i] is Some ==> propagated_origin(
            defs,
            edges,
            purity,
            i,
            origin[i]->Some_0,
        )
    &&& forall|i: int, k: int|
        #![trigger edges[i][k]]
        0 <= i < n && 0 <= k < edges[i].len() && 0 <= edge_target(defs, edges, i, k) && purity[edge_target(
            defs,
            edges,
            i,
            k,
        )] == Purity::Effectful ==> purity[i] == Purity::Effectful
    &&& exists|rank: Seq<nat>| grounded(defs, init, origin, rank)
}

/// Function `j` can be reached from function `i` by following at most `s`
/// call edges to functions of the module.
pub open spec fn reaches(defs: Seq<DefId>, edges: Seq<Seq<(DefId, Span)>>, i: int, j: int, s: nat) -> bool
    decreases s,
{
    ||| i == j
    ||| s > 0 && exists|k: int|
        0 <= k < edges[i].len() && 0 <= #[trigger] edge_target(defs, edges, i, k) && reaches(
            defs,
            edges,
            edge_target(defs, edges, i, k),
            j,
            (s - 1) as nat,
        )
}

/// Following calls from an effectful function's callers keeps the effect:
/// a function that reaches a function with a direct effect is effectful.
proof fn lemma_reach_effectful(
    defs: Seq<DefId>,
    init: Seq<Option<EffectOrigin>>,
    edges: Seq<Seq<(DefId, Span)>>,
    purity: Seq<Purity>,
    origin: Seq<Option<EffectOrigin>>,
    i: int,
    j: int,
    s: nat,
)
    requires
        propagated(defs, init, edges, purity, origin),
        0 <= i < defs.len(),
        0 <= j < defs.len(),
        init[j] is Some,
        reaches(defs, edges, i, j, s),
    ensures
        purity[i] == Purity::Effectful,
    decreases s,
{
    if i == j {
        assert(origin[j] == init[j]);
    } else {
        let k = choose|k: int|
            0 <= k < edges[i].len() && 0 <= #[trigger] edge_target(defs, edges, i, k) && reaches(
                defs,
                edges,
                edge_target(defs, edges, i, k),
                j,
                (s - 1) as nat,
            );
        let t = edge_target(defs, edges, i, k);
        lemma_first_index(defs, edges[i][k].0, 0);
        lemma_reach_effectful(defs, init, edges, purity, origin, t, j, (s - 1) as nat);
    }
}

/// An effectful function reaches, along its chain of blamed callees, a
/// function with a direct effect, in fewer steps than its rank.
proof fn lemma_effectful_reaches(
    defs: Seq<DefId>,
    init: Seq<Option<EffectOrigin>>,
    edges: Seq<Seq<(DefId, Span)>>,
    purity: Seq<Purity>,
    origin: Seq<Option<EffectOrigin>>,
    rank: Seq<nat>,
    i: int,
)
    requires
        propagated(defs, init, edges, purity, origin),
        grounded(defs, init, origin, rank),
        0 <= i < defs.len(),
        purity[i] == Purity::Effectful,
    ensures
        exists|j: int| 0 <= j < defs.len() && init[j] is Some && #[trigger] reaches(defs, edges, i, j, rank[i]),
    decreases rank[i],
{
    if init[i] is Some {
        assert(reaches(defs, edges, i, i, rank[i]));
    } else {
        let o = origin[i]->Some_0;
        assert(propagated_origin(defs, edges, purity, i, o));
        let t = first_index(defs, o.callee->Some_0, 0);
        assert(rank[t] < rank[i]);
        lemma_effectful_reaches(defs, init, edges, purity, origin, rank, t);
        let j = choose|j: int| 0 <= j < defs.len() && init[j] is Some && #[trigger] reaches(defs, edges, t, j, rank[t]);
        let k = choose|k: int| 0 <= k < edges[i].len() && #[trigger] edges[i][k] == (o.callee->Some_0, o.span);
        assert(edge_target(defs, edges, i, k) == t);
        lemma_reaches_more_steps(defs, edges, t, j, rank[t], (rank[i] - 1) as nat);
        assert(reaches(defs, edges, i, j, rank[i]));
    }
}

/// What can be reached in `s` steps can be reached in more.
proof fn lemma_reaches_more_steps(defs: Seq<DefId>, edges: Seq<Seq<(DefId, Span)>>, i: int, j: int, s: nat, s2: nat)
    requires
        reaches(defs, edges, i, j, s),
        s <= s2,
    ensures
        reaches(defs, edges, i, j, s2),
    decreases s,
{
    if i != j {
        let k = choose|k: int|
            0 <= k < edges[i].len() && 0 <= #[trigger] edge_target(defs, edges, i, k) && reaches(
                defs,
                edges,
                edge_target(defs, edges, i, k),
                j,
                (s - 1) as nat,
            );
        lemma_reaches_more_steps(defs, edges, edge_target(defs, edges, i, k), j, (s - 1) as nat, (s2 - 1) as nat);
    }
}

/// Propagation computes reachability: after it, a function is effectful
/// exactly when, following call edges to the module's functions, it
/// reaches a function with a direct effect (itself included). A cycle of
/// calls with no direct effect on it or below it stays pure.
pub proof fn lemma_propagation_is_reachability(
    defs: Seq<DefId>,
    init: Seq<Option<EffectOrigin>>,
    edges: Seq<Seq<(DefId, Span)>>,
    purity: Seq<Purity>,
    origin: Seq<Option<EffectOrigin>>,
    i: int,
)
    requires
        propagated(defs, init, edges, purity, origin),
        0 <= i < defs.len(),
    ensures
        (purity[i] == Purity::Effectful) == exists|j: int, s: nat|
            0 <= j < defs.len() && init[j] is Some && #[trigger] reaches(defs, edges, i, j, s),
{
    if purity[i] == Purity::Effectful {
        let rank = choose|rank: Seq<nat>| grounded(defs, init, origin, rank);
        lemma_effectful_reaches(defs, init, edges, purity, origin, rank, i);
        let j = choose|j: int| 0 <= j < defs.len() && init[j] is Some && #[trigger] reaches(defs, edges, i, j, rank[i]);
        assert(reaches(defs, edges, i, j, rank[i]));
    }
    if exists|j: int, s: nat| 0 <= j < defs.len() && init[j] is Some && #[trigger] reaches(defs, edges, i, j, s) {
        let (j, s) = choose|j: int, s: nat| 0 <= j < defs.len() && init[j] is Some && #[trigger] reaches(defs, edges, i, j, s);
        lemma_reach_effectful(defs, init, edges, purity, origin, i, j, s);
    }
}

/// `o` is a propagated origin of function `i`: its callee is an effectful
/// function that `i` calls at `o`'s span.
pub open spec fn propagated_origin(
    defs: Seq<DefId>,
    edges: Seq<Seq<(DefId, Span)>>,
    purity: Seq<Purity>,
    i: int,
    o: EffectOrigin,
) -> bool {
    &&& o.source == EffectSource::Propagated
    &&& o.callee is Some
    &&& 0 <= first_index(defs, o.callee->Some_0, 0) < defs.len()
    &&& purity[first_index(defs, o.callee->Some_0, 0)] == Purity::Effectful
    &&& exists|k: int| 0 <= k < edges[i].len() && #[trigger] edges[i][k] == (o.callee->Some_0, o.span)
}

/// Along every propagated origin, `rank` decreases from caller to callee.
pub open spec fn grounded(
    defs: Seq<DefId>,
    init: Seq<Option<EffectOrigin>>,
    origin: Seq<Option<EffectOrigin>>,
    rank: Seq<nat>,
) -> bool {
    &&& rank.len() == defs.len()
    &&& forall|i: int|
        0 <= i < defs.len() && (#[trigger] init[i]) is None && origin[i] is Some ==> {
            let t = first_index(defs, origin[i]->Some_0.callee->Some_0, 0);
            0 <= t < defs.len() && rank[t] < rank[i]
        }
}

/// The number of pure entries among the first `k`.
pub open spec fn pure_count(p: Seq<Purity>, k: int) -> nat
    decreases k,
{
    if k <= 0 || k > p.len() {
        0
    } else {
        pure_count(p, k - 1) + if p[k - 1] == Purity::Pure {
            1nat
        } else {
            0nat
        }
    }
}

proof fn lemma_pure_count_flip(p: Seq<Purity>, j: int, k: int)
    requires
        0 <= j < p.len(),
        0 <= k <= p.len(),
        p[j] == Purity::Pure,
    ensures
        pure_count(p.update(j, Purity::Effectful), k) == if j < k {
            pure_count(p, k) - 1
        } else {
            pure_count(p, k) as int
        },
    decreases k,
{
    if k > 0 {
        lemma_pure_count_flip(p, j, k - 1);
    }
}

proof fn lemma_pure_count_bound(p: Seq<Purity>, k: int)
    requires
        0 <= k <= p.len(),
    ensures
        pure_count(p, k) <= k,
    decreases k,
{
    if k > 0 {
        lemma_pure_count_bound(p, k - 1);
    }
}

proof fn lemma_first_index(defs: Seq<DefId>, d: DefId, i: int)
    requires
        0 <= i <= defs.len(),
    ensures
        first_index(defs, d, i) == -1 || (i <= first_index(defs, d, i) < defs.len() && defs[first_index(
            defs,
            d,
            i,
        )] == d),
        first_index(defs, d, i) == -1 ==> forall|j: int| i <= j < defs.len() ==> defs[j] != d,
        forall|j: int| i <= j < first_index(defs, d, i) ==> defs[j] != d,
    decreases defs.len() - i,
{
    if i < defs.len() && defs[i] != d {
        lemma_first_index(defs, d, i + 1);
    }
}

/// The index of the first function with definition `d`.
fn find_index(defs: &Vec<DefId>, d: DefId) -> (r: Option<usize>)
    ensures
        match r {
            Some(t) => t == first_index(defs@, d, 0) && t < defs@.len(),
            None => first_index(defs@, d, 0) == -1,
        },
{
    let mut i: usize = 0;
    while i < defs.len()
        invariant
            i <= defs@.len(),
            first_index(defs@, d, 0) == first_index(defs@, d, i as int),
        decreases defs@.len() - i,
    {
        if defs[i] == d {
            return Some(i);
        }
        i += 1;
    }
    None
}

/// The calls into function `t`: `(caller, span)` for every call edge whose
/// target is `t`, by caller, then in the caller's order.
#[verifier::spinoff_prover]
fn callers_of(defs: &Vec<DefId>, edges: &Vec<Vec<(DefId, Span)>>, t: usize) -> (r: Vec<(usize, Span)>)
    requires
        edges@.len() == defs@.len(),
        t < defs@.len(),
    ensures
        forall|x: int|
            0 <= x < r@.len() ==> {
                let (i, span) = #[trigger] r@[x];
                &&& i < defs@.len()
                &&& first_index(defs@, defs@[t as int], 0) == t
                &&& exists|k: int| 0 <= k < edges@[i as int]@.len() && #[trigger] edges@[i as int]@[k] == (defs@[t as int], span)
            },
        forall|i: int, k: int|
            #![trigger edges@[i]@[k]]
            0 <= i < defs@.len() && 0 <= k < edges@[i]@.len() && first_index(defs@, edges@[i]@[k].0, 0) == t
                ==> r@.contains((i as usize, edges@[i]@[k].1)),
{
    let mut r: Vec<(usize, Span)> = Vec::new();
    let mut i: usize = 0;
    while i < edges.len()
        invariant
            edges@.len() == defs@.len(),
            t < defs@.len(),
            i <= edges@.len(),
            forall|x: int|
                0 <= x < r@.len() ==> {
                    let (c, span) = #[trigger] r@[x];
                    &&& c < defs@.len()
                    &&& first_index(defs@, defs@[t as int], 0) == t
                    &&& exists|k: int| 0 <= k < edges@[c as int]@.len() && #[trigger] edges@[c as int]@[k] == (defs@[t as int], span)
                },
            forall|c: int, k: int|
                #![trigger edges@[c]@[k]]
                0 <= c < i && 0 <= k < edges@[c]@.len() && first_index(defs@, edges@[c]@[k].0, 0) == t
                    ==> r@.contains((c as usize, edges@[c]@[k].1)),
        decreases edges@.len() - i,
    {
        let row = &edges[i];
        let mut k: usize = 0;
        while k < row.len()
            invariant
                edges@.len() == defs@.len(),
                t < defs@.len(),
                i < edges@.len(),
                row@ == edges@[i as int]@,
                k <= row@.len(),
                forall|x: int|
                    0 <= x < r@.len() ==> {
                        let (c, span) = #[trigger] r@[x];
                        &&& c < defs@.len()
                        &&& first_index(defs@, defs@[t as int], 0) == t
                        &&& exists|kk: int| 0 <= kk < edges@[c as int]@.len() && #[trigger] edges@[c as int]@[kk] == (defs@[t as int], span)
                    },
                forall|c: int, kk: int|
                    #![trigger edges@[c]@[kk]]
                    0 <= c < i && 0 <= kk < edges@[c]@.len() && first_index(defs@, edges@[c]@[kk].0, 0) == t
                        ==> r@.contains((c as usize, edges@[c]@[kk].1)),
                forall|kk: int|
                    0 <= kk < k && first_index(defs@, edges@[i as int]@[kk].0, 0) == t ==> r@.contains(
                        (i, #[trigger] edges@[i as int]@[kk].1),
                    ),
            decreases row@.len() - k,
        {
            let (callee, span) = row[k];
            let ghost before = r@;
            if let Some(target) = find_index(defs, callee) {
                if target == t {
                    proof {
                        lemma_first_index(defs@, callee, 0);
                        assert(edges@[i as int]@[k as int] == (defs@[t as int], span));
                    }
                    r.push((i, span));
                    proof {
                        assert(r@[r@.len() - 1] == (i, span));
                        assert forall|x: int| 0 <= x < before.len() implies r@[x] == before[x] by {}
                        assert forall|x: int| 0 <= x < r@.len() implies {
                            let (c, sp) = #[trigger] r@[x];
                            &&& c < defs@.len()
                            &&& first_index(defs@, defs@[t as int], 0) == t
                            &&& exists|kk: int|
                                0 <= kk < edges@[c as int]@.len() && #[trigger] edges@[c as int]@[kk] == (
                                    defs@[t as int],
                                    sp,
                                )
                        } by {
                            if x == r@.len() - 1 {
                                assert(edges@[i as int]@[k as int] == (defs@[t as int], span));
                            } else {
                                assert(r@[x] == before[x]);
                            }
                        }
                        assert forall|c: int, kk: int|
                            0 <= c < i && 0 <= kk < edges@[c]@.len() && first_index(defs@, edges@[c]@[kk].0, 0)
                                == t implies r@.contains((c as usize, #[trigger] edges@[c]@[kk].1)) by {
                            assert(before.contains((c as usize, edges@[c]@[kk].1)));
                            let x = choose|x: int| 0 <= x < before.len() && before[x] == (c as usize, edges@[c]@[kk].1);
                            assert(r@[x] == before[x]);
                        }
                        assert forall|kk: int|
                            0 <= kk <= k && first_index(defs@, edges@[i as int]@[kk].0, 0) == t implies r@.contains(
                                (i, #[trigger] edges@[i as int]@[kk].1),
                            ) by {
                            if kk < k {
                                assert(before.contains((i, edges@[i as int]@[kk].1)));
                                let x = choose|x: int| 0 <= x < before.len() && before[x] == (i, edges@[i as int]@[kk].1);
                                assert(r@[x] == before[x]);
                            } else {
                                assert(r@[r@.len() - 1] == (i, edges@[i as int]@[kk].1));
                            }
                        }
                    }
                }
            }
            k += 1;
        }
        i += 1;
    }
    r
}

/// Propagates effects backwards along call edges to the least fixpoint.
///
/// `defs` are the functions' definitions, `edges` their static calls and
/// `init` their direct effects. Effectful functions are processed from a
/// worklist; each pure caller of one becomes effectful, blaming that callee
/// at the call's span, and joins the worklist.
pub fn propagate(
    defs: &Vec<DefId>,
    edges: &Vec<Vec<(DefId, Span)>>,
    init: Vec<Option<EffectOrigin>>,
) -> (r: (Vec<Purity>, Vec<Option<EffectOrigin>>))
    requires
        edges@.len() == defs@.len(),
        init@.len() == defs@.len(),
    ensures
        propagated(
            defs@,
            init@,
            Seq::new(edges@.len(), |i: int| edges@[i]@),
            r.0@,
            r.1@,
        ),
{
    let n = defs.len();
    let ghost es = Seq::new(edges@.len(), |i: int| edges@[i]@);
    let ghost init0 = init@;
    // The reverse call graph.
    let mut callers: Vec<Vec<(usize, Span)>> = Vec::new();
    let mut t: usize = 0;
    while t < n
        invariant
            n == defs@.len(),
            edges@.len() == n,
            t <= n,
            callers@.len() == t,
            forall|u: int, x: int|
                #![trigger callers@[u]@[x]]
                0 <= u < t && 0 <= x < callers@[u]@.len() ==> {
                    let (i, span) = callers@[u]@[x];
                    &&& i < n
                    &&& first_index(defs@, defs@[u], 0) == u
                    &&& exists|k: int| 0 <= k < edges@[i as int]@.len() && #[trigger] edges@[i as int]@[k] == (defs@[u], span)
                },
            forall|i: int, k: int|
                #![trigger edges@[i]@[k]]
                0 <= i < n && 0 <= k < edges@[i]@.len() && 0 <= first_index(defs@, edges@[i]@[k].0, 0) < t
                    ==> callers@[first_index(defs@, edges@[i]@[k].0, 0)]@.contains((i as usize, edges@[i]@[k].1)),
        decreases n - t,
    {
        let row = callers_of(defs, edges, t);
        callers.push(row);
        proof {
            assert forall|u: int, x: int|
                #![trigger callers@[u]@[x]]
                0 <= u < t + 1 && 0 <= x < callers@[u]@.len() implies {
                    let (i, span) = callers@[u]@[x];
                    &&& i < n
                    &&& first_index(defs@, defs@[u], 0) == u
                    &&& exists|k: int| 0 <= k < edges@[i as int]@.len() && #[trigger] edges@[i as int]@[k] == (defs@[u], span)
                } by {
                if u == t {
                    let (i, span) = callers@[u]@[x];
                    assert(callers@[u]@[x] == row@[x]);
                }
            }
        }
        t += 1;
    }
    let mut purity: Vec<Purity> = Vec::new();
    let mut origin: Vec<Option<EffectOrigin>> = Vec::new();
    let mut wl: Vec<usize> = Vec::new();
    let mut i: usize = 0;
    while i < n
        invariant
            n == defs@.len(),
            init@ == init0,
            init0.len() == n,
            i <= n,
            purity@.len() == i,
            origin@.len() == i,
            forall|j: int| 0 <= j < i ==> origin@[j] == init0[j],
            forall|j: int| 0 <= j < i ==> ((#[trigger] purity@[j]) == Purity::Effectful) == (init0[j] is Some),
            forall|x: int| 0 <= x < wl@.len() ==> (#[trigger] wl@[x]) < i && init0[wl@[x] as int] is Some,
            forall|j: int| 0 <= j < i && init0[j] is Some ==> wl@.contains(j as usize),
            wl@.len() <= i,
        decreases n - i,
    {
        let o = init[i];
        let ghost wb = wl@;
        if o.is_some() {
            purity.push(Purity::Effectful);
            wl.push(i);
        } else {
            purity.push(Purity::Pure);
        }
        origin.push(o);
        proof {
            assert forall|j: int| 0 <= j < i + 1 && init0[j] is Some implies wl@.contains(j as usize) by {
                if j < i {
                    let y = choose|y: int| 0 <= y < wb.len() && wb[y] == j as usize;
                    assert(wl@[y] == wb[y]);
                } else {
                    assert(wl@.last() == i);
                }
            }
        }
        i += 1;
    }
    let ghost mut rank: Seq<nat> = Seq::new(n as nat, |j: int| 0nat);
    proof {
        lemma_pure_count_bound(purity@, n as int);
    }
    while wl.len() > 0
        invariant
            n == defs@.len(),
            edges@.len() == n,
            init0.len() == n,
            es == Seq::new(edges@.len(), |i: int| edges@[i]@),
            callers@.len() == n,
            purity@.len() == n,
            origin@.len() == n,
            rank.len() == n,
            forall|u: int, x: int|
                #![trigger callers@[u]@[x]]
                0 <= u < n && 0 <= x < callers@[u]@.len() ==> {
                    let (i, span) = callers@[u]@[x];
                    &&& i < n
                    &&& first_index(defs@, defs@[u], 0) == u
                    &&& exists|k: int| 0 <= k < edges@[i as int]@.len() && #[trigger] edges@[i as int]@[k] == (defs@[u], span)
                },
            forall|i: int, k: int|
                #![trigger edges@[i]@[k]]
                0 <= i < n && 0 <= k < edges@[i]@.len() && 0 <= first_index(defs@, edges@[i]@[k].0, 0) < n
                    ==> callers@[first_index(defs@, edges@[i]@[k].0, 0)]@.contains((i as usize, edges@[i]@[k].1)),
            forall|j: int| 0 <= j < n ==> ((#[trigger] purity@[j]) == Purity::Effectful) == (origin@[j] is Some),
            forall|j: int| 0 <= j < n && (#[trigger] init0[j]) is Some ==> origin@[j] == init0[j],
            forall|j: int|
                0 <= j < n && (#[trigger] init0[j]) is None && origin@[j] is Some ==> propagated_origin(
                    defs@,
                    es,
                    purity@,
                    j,
                    origin@[j]->Some_0,
                ),
            grounded(defs@, init0, origin@, rank),
            forall|x: int| 0 <= x < wl@.len() ==> (#[trigger] wl@[x]) < n && purity@[wl@[x] as int] == Purity::Effectful,
            forall|j: int|
                0 <= j < n && (#[trigger] purity@[j]) == Purity::Effectful ==> wl@.contains(j as usize) || (forall|x: int|
                    0 <= x < callers@[j]@.len() ==> purity@[(#[trigger] callers@[j]@[x]).0 as int] == Purity::Effectful),
        decreases 2 * pure_count(purity@, n as int) + wl@.len(),
    {
        let ghost wl0 = wl@;
        let ghost p0 = purity@;
        let current = wl.pop().unwrap();
        let callee = defs[current];
        let incoming = &callers[current];
        let mut x: usize = 0;
        while x < incoming.len()
            invariant
                n == defs@.len(),
                edges@.len() == n,
                init0.len() == n,
                es == Seq::new(edges@.len(), |i: int| edges@[i]@),
                callers@.len() == n,
                purity@.len() == n,
                origin@.len() == n,
                rank.len() == n,
                current < n,
                callee == defs@[current as int],
                incoming@ == callers@[current as int]@,
                x <= incoming@.len(),
                purity@[current as int] == Purity::Effectful,
                wl0.len() >= 1,
                wl@.len() >= wl0.len() - 1,
                wl0.last() == current,
                forall|y: int| 0 <= y < wl0.len() - 1 ==> #[trigger] wl@[y] == wl0[y],
                forall|u: int, y: int|
                    #![trigger callers@[u]@[y]]
                    0 <= u < n && 0 <= y < callers@[u]@.len() ==> {
                        let (i, span) = callers@[u]@[y];
                        &&& i < n
                        &&& first_index(defs@, defs@[u], 0) == u
                        &&& exists|k: int| 0 <= k < edges@[i as int]@.len() && #[trigger] edges@[i as int]@[k] == (defs@[u], span)
                    },
                forall|j: int| 0 <= j < n ==> ((#[trigger] purity@[j]) == Purity::Effectful) == (origin@[j] is Some),
                forall|j: int| 0 <= j < n && (#[trigger] init0[j]) is Some ==> origin@[j] == init0[j],
                forall|j: int|
                    0 <= j < n && (#[trigger] init0[j]) is None && origin@[j] is Some ==> propagated_origin(
                        defs@,
                        es,
                        purity@,
                        j,
                        origin@[j]->Some_0,
                    ),
                grounded(defs@, init0, origin@, rank),
                forall|y: int| 0 <= y < wl@.len() ==> (#[trigger] wl@[y]) < n && purity@[wl@[y] as int] == Purity::Effectful,
                forall|j: int| 0 <= j < n && p0[j] == Purity::Effectful ==> #[trigger] purity@[j] == Purity::Effectful,
                forall|j: int|
                    0 <= j < n && (#[trigger] purity@[j]) == Purity::Effectful && p0[j] == Purity::Pure ==> wl@.contains(j as usize),
                forall|y: int| 0 <= y < x ==> purity@[(#[trigger] incoming@[y]).0 as int] == Purity::Effectful,
                2 * pure_count(purity@, n as int) + wl@.len() <= 2 * pure_count(p0, n as int) + wl0.len() - 1,
            decreases incoming@.len() - x,
        {
            let (caller, span) = incoming[x];
            if purity[caller] == Purity::Pure {
                let ghost pb = purity@;
                let ghost wb = wl@;
                proof {
                    lemma_pure_count_flip(purity@, caller as int, n as int);
                }
                purity.set(caller, Purity::Effectful);
                let o = EffectOrigin { source: EffectSource::Propagated, span, callee: Some(callee) };
                origin.set(caller, Some(o));
                wl.push(caller);
                proof {
                    rank = rank.update(caller as int, rank[current as int] + 1);
                    let k = choose|k: int| 0 <= k < edges@[caller as int]@.len() && #[trigger] edges@[caller as int]@[k] == (defs@[current as int], span);
                    assert(es[caller as int][k] == (callee, span));
                    assert(first_index(defs@, callee, 0) == current);
                    assert(wl@.last() == caller);
                    assert(wl@.contains(caller));
                    assert forall|j: int|
                        0 <= j < n && (#[trigger] init0[j]) is None && origin@[j] is Some implies propagated_origin(
                            defs@,
                            es,
                            purity@,
                            j,
                            origin@[j]->Some_0,
                        ) by {
                        if j != caller {
                            assert(pb[j] == Purity::Effectful);
                            assert(origin@[j] is Some);
                        }
                    }
                    assert forall|j: int|
                        0 <= j < n && (#[trigger] purity@[j]) == Purity::Effectful && p0[j] == Purity::Pure implies wl@.contains(j as usize) by {
                        if j != caller {
                            assert(wb.contains(j as usize));
                            let y = choose|y: int| 0 <= y < wb.len() && wb[y] == j as usize;
                            assert(wl@[y] == wb[y]);
                        }
                    }
                    assert forall|y: int| 0 <= y < wl0.len() - 1 implies #[trigger] wl@[y] == wl0[y] by {
                        assert(wl@[y] == wb[y]);
                    }
                }
            }
            x += 1;
        }
        proof {
            assert forall|j: int|
                0 <= j < n && (#[trigger] purity@[j]) == Purity::Effectful implies wl@.contains(j as usize) || (forall|y: int|
                    0 <= y < callers@[j]@.len() ==> purity@[(#[trigger] callers@[j]@[y]).0 as int] == Purity::Effectful) by {
                if j == current as int {
                } else if p0[j] == Purity::Pure {
                } else if wl0.contains(j as usize) {
                    let y = choose|y: int| 0 <= y < wl0.len() && wl0[y] == j as usize;
                    if y == wl0.len() - 1 {
                        assert(wl0.last() == current);
                    } else {
                        assert(wl@[y] == j as usize);
                    }
                } else {
                    assert forall|y: int| 0 <= y < callers@[j]@.len() implies purity@[(#[trigger] callers@[j]@[y]).0 as int]
                        == Purity::Effectful by {
                        assert(p0[callers@[j]@[y].0 as int] == Purity::Effectful);
                    }
                }
            }
        }
    }
    proof {
        assert forall|i: int, k: int|
            #![trigger es[i][k]]
            0 <= i < n && 0 <= k < es[i].len() && 0 <= edge_target(defs@, es, i, k) && purity@[edge_target(
                defs@,
                es,
                i,
                k,
            )] == Purity::Effectful implies purity@[i] == Purity::Effectful by {
            let t = edge_target(defs@, es, i, k);
            assert(es[i][k] == edges@[i]@[k]);
            lemma_first_index(defs@, edges@[i]@[k].0, 0);
            assert(callers@[t]@.contains((i as usize, edges@[i]@[k].1)));
            let y = choose|y: int| 0 <= y < callers@[t]@.len() && callers@[t]@[y] == (i as usize, edges@[i]@[k].1);
            assert(purity@[(callers@[t]@[y]).0 as int] == Purity::Effectful);
        }
    }
    (purity, origin)
}

// ── The report ──────────────────────────────────────────────────

/// The analysis result for one function.
#[derive(Debug, Clone)]
pub struct FunctionPurity {
    /// The function's definition.
    pub def_id: DefId,
    /// The function's name, for reporting.
    pub name: String,
    /// Computed purity.
    pub purity: Purity,
    /// Where its effect enters; `None` when pure.
    pub origin: Option<EffectOrigin>,
    /// Call sites whose callee could not be resolved.
    pub unresolved: Vec<UnresolvedCall>,
}

impl FunctionPurity {
    /// Why this function is effectful; `None` when pure.
    pub fn source(&self) -> (r: Option<EffectSource>)
        ensures
            r == match self.origin {
                Some(o) => Some(o.source),
                None => None,
            },
    {
        match self.origin {
            Some(o) => Some(o.source),
            None => None,
        }
    }
}

/// The purity of every function of a module, in source order.
#[derive(Debug, Clone)]
pub struct PurityReport {
    /// One entry per top-level function, in source order.
    pub functions: Vec<FunctionPurity>,
}

/// The definitions of a report's functions.
pub open spec fn report_defs(fs: Seq<FunctionPurity>) -> Seq<DefId> {
    Seq::new(fs.len(), |i: int| fs[i].def_id)
}

/// The definitions of a module's functions.
pub open spec fn fn_defs(m: HirModule) -> Seq<DefId> {
    Seq::new(m.functions@.len(), |i: int| m.functions@[i].def_id)
}

/// The direct origins of a module's functions.
pub open spec fn fn_inits(m: HirModule) -> Seq<Option<EffectOrigin>> {
    Seq::new(m.functions@.len(), |i: int| direct_origin(scan_fn(m, m.functions@[i])))
}

/// The static calls of a module's functions.
pub open spec fn fn_edges(m: HirModule) -> Seq<Seq<(DefId, Span)>> {
    Seq::new(m.functions@.len(), |i: int| scan_fn(m, m.functions@[i]).callees)
}

/// `r` is the analysis of module `m`: one entry per function, in order,
/// with its name and unresolved calls from the scan of its body, and the
/// purities and origins of propagating the direct effects along the calls.
pub open spec fn analysis_of(r: PurityReport, m: HirModule) -> bool {
    let fs = r.functions@;
    let n = m.functions@.len();
    &&& fs.len() == n
    &&& forall|i: int|
        0 <= i < n ==> {
            &&& (#[trigger] fs[i]).def_id == m.functions@[i].def_id
            &&& fs[i].name@ == def_of(m, m.functions@[i].def_id).name@
            &&& fs[i].unresolved@ == scan_fn(m, m.functions@[i]).unresolved
        }
    &&& forall|i: int| 0 <= i < n ==> is_direct(#[trigger] fn_inits(m)[i])
    &&& propagated(
        fn_defs(m),
        fn_inits(m),
        fn_edges(m),
        Seq::new(n, |i: int| fs[i].purity),
        Seq::new(n, |i: int| fs[i].origin),
    )
}

/// Classifies every function of `module` as pure or effectful.
pub fn analyze(module: &HirModule) -> (r: PurityReport)
    requires
        module_wf(*module),
    ensures
        analysis_of(r, *module),
{
    let ghost m = *module;
    let n = module.functions.len();
    let mut py: Vec<DefId> = Vec::new();
    let mut k: usize = 0;
    while k < module.imports.len()
        invariant
            k <= module.imports@.len(),
            forall|d: DefId|
                py@.contains(d) == exists|j: int|
                    0 <= j < k && (#[trigger] module.imports@[j]).def_id == d && module.imports@[j].kind is Python,
        decreases module.imports@.len() - k,
    {
        let ghost before = py@;
        if let HirImportKind::Python { .. } = &module.imports[k].kind {
            py.push(module.imports[k].def_id);
        }
        proof {
            assert forall|d: DefId|
                py@.contains(d) == exists|j: int|
                    0 <= j < k + 1 && (#[trigger] module.imports@[j]).def_id == d && module.imports@[j].kind is Python by {
                if py@.contains(d) {
                    let y = choose|y: int| 0 <= y < py@.len() && py@[y] == d;
                    if y < before.len() {
                        assert(before[y] == d);
                        assert(before.contains(d));
                    }
                }
                if exists|j: int|
                    0 <= j < k + 1 && (#[trigger] module.imports@[j]).def_id == d && module.imports@[j].kind is Python {
                    let j = choose|j: int|
                        0 <= j < k + 1 && (#[trigger] module.imports@[j]).def_id == d && module.imports@[j].kind is Python;
                    if j < k {
                        assert(before.contains(d));
                        let y = choose|y: int| 0 <= y < before.len() && before[y] == d;
                        assert(py@[y] == d);
                    } else {
                        assert(py@[py@.len() - 1] == d);
                    }
                }
            }
        }
        k += 1;
    }
    let mut defs: Vec<DefId> = Vec::new();
    let mut init: Vec<Option<EffectOrigin>> = Vec::new();
    let mut edges: Vec<Vec<(DefId, Span)>> = Vec::new();
    let mut names: Vec<String> = Vec::new();
    let mut unres: Vec<Vec<UnresolvedCall>> = Vec::new();
    let mut i: usize = 0;
    while i < n
        invariant
            m == *module,
            n == m.functions@.len(),
            module_wf(m),
            python_imports_of(py@, m),
            i <= n,
            defs@.len() == i && init@.len() == i && edges@.len() == i && names@.len() == i && unres@.len() == i,
            forall|j: int| 0 <= j < i ==> (#[trigger] defs@[j]) == m.functions@[j].def_id,
            forall|j: int| 0 <= j < i ==> (#[trigger] init@[j]) == direct_origin(scan_fn(m, m.functions@[j])),
            forall|j: int| 0 <= j < i ==> (#[trigger] edges@[j])@ == scan_fn(m, m.functions@[j]).callees,
            forall|j: int| 0 <= j < i ==> (#[trigger] names@[j])@ == def_of(m, m.functions@[j].def_id).name@,
            forall|j: int| 0 <= j < i ==> (#[trigger] unres@[j])@ == scan_fn(m, m.functions@[j]).unresolved,
            forall|j: int| 0 <= j < i ==> is_direct(#[trigger] init@[j]),
        decreases n - i,
    {
        let f = &module.functions[i];
        let start = if f.is_async {
            Some(EffectOrigin { source: EffectSource::Async, span: f.span, callee: None })
        } else {
            None
        };
        let mut scan = Scan::new(start);
        proof {
            assert(expr_ids_ok(m.symbol_table.spec_defs().len() as int, m.functions@[i as int].body));
        }
        scan.visit(module, &py, &f.body);
        assert(scan@ == scan_fn(m, m.functions@[i as int]));
        let Scan { proven, assumed, callees, unresolved } = scan;
        let origin = match proven {
            Some(o) => Some(o),
            None => assumed,
        };
        defs.push(f.def_id);
        init.push(origin);
        edges.push(callees);
        names.push(module.symbol_table.get(f.def_id).name.clone());
        unres.push(unresolved);
        assert(init@[i as int] == direct_origin(scan_fn(m, m.functions@[i as int])));
        assert(edges@[i as int]@ == scan_fn(m, m.functions@[i as int]).callees);
        assert(names@[i as int]@ == def_of(m, m.functions@[i as int].def_id).name@);
        assert(unres@[i as int]@ == scan_fn(m, m.functions@[i as int]).unresolved);
        assert(is_direct(init@[i as int]));
        i += 1;
    }
    let ghost es = Seq::new(edges@.len(), |j: int| edges@[j]@);
    proof {
        assert(defs@ =~= fn_defs(m));
        assert(init@ =~= fn_inits(m));
        assert(es =~= fn_edges(m));
    }
    let (purity, origin) = propagate(&defs, &edges, init);
    let mut functions: Vec<FunctionPurity> = Vec::new();
    let mut names = names;
    let mut unres = unres;
    let mut j: usize = 0;
    while j < n
        invariant
            m == *module,
            n == m.functions@.len(),
            defs@ == fn_defs(m),
            purity@.len() == n,
            origin@.len() == n,
            j <= n,
            functions@.len() == j,
            names@.len() == n - j,
            forall|x: int| 0 <= x < n - j ==> (#[trigger] names@[x])@ == def_of(m, m.functions@[x + j].def_id).name@,
            unres@.len() == n - j,
            forall|x: int| 0 <= x < n - j ==> (#[trigger] unres@[x])@ == scan_fn(m, m.functions@[x + j]).unresolved,
            forall|x: int|
                0 <= x < j ==> {
                    &&& (#[trigger] functions@[x]).def_id == m.functions@[x].def_id
                    &&& functions@[x].name@ == def_of(m, m.functions@[x].def_id).name@
                    &&& functions@[x].unresolved@ == scan_fn(m, m.functions@[x]).unresolved
                    &&& functions@[x].purity == purity@[x]
                    &&& functions@[x].origin == origin@[x]
                },
        decreases n - j,
    {
        let ghost nb = names@;
        let ghost ub = unres@;
        let name = names.remove(0);
        let u = unres.remove(0);
        proof {
            assert(name@ == def_of(m, m.functions@[j as int].def_id).name@);
            assert(u@ == scan_fn(m, m.functions@[j as int]).unresolved);
            assert forall|x: int| 0 <= x < n - (j + 1) implies (#[trigger] names@[x])@ == def_of(
                m,
                m.functions@[x + (j + 1)].def_id,
            ).name@ by {
                assert(names@[x] == nb[x + 1]);
            }
            assert forall|x: int| 0 <= x < n - (j + 1) implies (#[trigger] unres@[x])@ == scan_fn(
                m,
                m.functions@[x + (j + 1)],
            ).unresolved by {
                assert(unres@[x] == ub[x + 1]);
            }
            assert(defs@[j as int] == m.functions@[j as int].def_id);
        }
        functions.push(FunctionPurity { def_id: defs[j], name, purity: purity[j], origin: origin[j], unresolved: u });
        j += 1;
    }
    let r = PurityReport { functions };
    proof {
        assert(Seq::new(n as nat, |x: int| r.functions@[x].purity) =~= purity@);
        assert(Seq::new(n as nat, |x: int| r.functions@[x].origin) =~= origin@);
    }
    r
}

// ── Queries ─────────────────────────────────────────────────────

/// The number of the first `k` functions with purity `p`.
pub open spec fn count_with(fs: Seq<FunctionPurity>, p: Purity, k: int) -> nat
    decreases k,
{
    if k <= 0 || k > fs.len() {
        0
    } else {
        count_with(fs, p, k - 1) + if fs[k - 1].purity == p {
            1nat
        } else {
            0nat
        }
    }
}

/// The unresolved call sites of the first `k` functions.
pub open spec fn unresolved_total(fs: Seq<FunctionPurity>, k: int) -> nat
    decreases k,
{
    if k <= 0 || k > fs.len() {
        0
    } else {
        unresolved_total(fs, k - 1) + fs[k - 1].unresolved@.len()
    }
}

/// The higher-order calls among the first `j` unresolved calls of `us`.
pub open spec fn higher_order_in(us: Seq<UnresolvedCall>, j: int) -> nat
    decreases j,
{
    if j <= 0 || j > us.len() {
        0
    } else {
        higher_order_in(us, j - 1) + if us[j - 1].kind is ParameterApplied || us[j - 1].kind is LocalApplied {
            1nat
        } else {
            0nat
        }
    }
}

/// The higher-order unresolved calls of the first `k` functions.
pub open spec fn higher_order_total(fs: Seq<FunctionPurity>, k: int) -> nat
    decreases k,
{
    if k <= 0 || k > fs.len() {
        0
    } else {
        higher_order_total(fs, k - 1) + higher_order_in(fs[k - 1].unresolved@, fs[k - 1].unresolved@.len() as int)
    }
}

proof fn lemma_count_bound(fs: Seq<FunctionPurity>, p: Purity, k: int)
    requires
        0 <= k <= fs.len(),
    ensures
        count_with(fs, p, k) <= k,
        count_with(fs, Purity::Pure, k) + count_with(fs, Purity::Effectful, k) == k,
    decreases k,
{
    if k > 0 {
        lemma_count_bound(fs, p, k - 1);
    }
}

proof fn lemma_higher_order_in_bound(us: Seq<UnresolvedCall>, j: int)
    requires
        0 <= j <= us.len(),
    ensures
        higher_order_in(us, j) <= j,
    decreases j,
{
    if j > 0 {
        lemma_higher_order_in_bound(us, j - 1);
    }
}

proof fn lemma_higher_order_total_bound(fs: Seq<FunctionPurity>, k: int)
    requires
        0 <= k <= fs.len(),
    ensures
        higher_order_total(fs, k) <= unresolved_total(fs, k),
    decreases k,
{
    if k > 0 {
        lemma_higher_order_total_bound(fs, k - 1);
        lemma_higher_order_in_bound(fs[k - 1].unresolved@, fs[k - 1].unresolved@.len() as int);
    }
}

proof fn lemma_totals_grow(fs: Seq<FunctionPurity>, k: int, l: int)
    requires
        0 <= k <= l <= fs.len(),
    ensures
        unresolved_total(fs, k) <= unresolved_total(fs, l),
        higher_order_total(fs, k) <= higher_order_total(fs, l),
    decreases l - k,
{
    if k < l {
        lemma_totals_grow(fs, k, l - 1);
    }
}

/// The name of the function an origin blames, when it names one of the
/// report's functions.
pub open spec fn blamed_name(fs: Seq<FunctionPurity>, o: EffectOrigin) -> Option<Seq<char>> {
    match o.callee {
        Some(c) => {
            let t = first_index(report_defs(fs), c, 0);
            if 0 <= t < fs.len() {
                Some(fs[t].name@)
            } else {
                None
            }
        },
        None => None,
    }
}

pub open spec fn opt_text(o: Option<String>) -> Option<Seq<char>> {
    match o {
        Some(s) => Some(s@),
        None => None,
    }
}

/// One hop along the chain from a function to the effect it reaches.
#[derive(Debug, Clone)]
pub struct EffectStep {
    /// The function this step describes.
    pub def_id: DefId,
    /// Its name, for reporting.
    pub name: String,
    /// Where its effect enters.
    pub origin: EffectOrigin,
    /// Name of the callee blamed by a propagated origin.
    pub callee_name: Option<String>,
}

/// Step `st` describes the first function of the report with its
/// definition: that function's origin, name, and the name of its blamed
/// callee.
pub open spec fn step_of_report(fs: Seq<FunctionPurity>, st: EffectStep) -> bool {
    let t = first_index(report_defs(fs), st.def_id, 0);
    &&& 0 <= t < fs.len()
    &&& fs[t].origin == Some(st.origin)
    &&& st.name@ == fs[t].name@
    &&& opt_text(st.callee_name) == blamed_name(fs, st.origin)
}

/// `p` is the effect path of definition `d` in the report with functions
/// `fs`: starting at `d`, each step's blamed callee is the next step, no
/// definition comes twice, and the path stops where the blamed callee is
/// none, is no function of the report, is pure, or was already visited.
pub open spec fn is_effect_path(fs: Seq<FunctionPurity>, d: DefId, p: Seq<EffectStep>) -> bool {
    let defs = report_defs(fs);
    let t0 = first_index(defs, d, 0);
    &&& (p.len() == 0) == (t0 < 0 || fs[t0].origin is None)
    &&& p.len() > 0 ==> p[0].def_id == d
    &&& forall|k: int| 0 <= k < p.len() ==> step_of_report(fs, #[trigger] p[k])
    &&& forall|k: int, l: int|
        0 <= k && l == k + 1 && l < p.len() ==> (#[trigger] p[k]).origin.callee == Some((#[trigger] p[l]).def_id)
    &&& forall|k: int, l: int| 0 <= k < l < p.len() ==> (#[trigger] p[k]).def_id != (#[trigger] p[l]).def_id
    &&& p.len() > 0 ==> match p.last().origin.callee {
        None => true,
        Some(c) => {
            let u = first_index(defs, c, 0);
            ||| u < 0
            ||| fs[u].origin is None
            ||| exists|k: int| 0 <= k < p.len() && (#[trigger] p[k]).def_id == c
        },
    }
}

/// Two effect paths of one definition agree on each step they both have.
proof fn lemma_effect_paths_agree(fs: Seq<FunctionPurity>, d: DefId, p: Seq<EffectStep>, q: Seq<EffectStep>, k: int)
    requires
        is_effect_path(fs, d, p),
        is_effect_path(fs, d, q),
        0 <= k < p.len(),
        k < q.len(),
    ensures
        p[k].def_id == q[k].def_id,
        p[k].origin == q[k].origin,
    decreases k,
{
    assert(step_of_report(fs, p[k]));
    assert(step_of_report(fs, q[k]));
    if k > 0 {
        lemma_effect_paths_agree(fs, d, p, q, k - 1);
        assert(p[k - 1].origin.callee == Some(p[k].def_id));
        assert(q[k - 1].origin.callee == Some(q[k].def_id));
    }
}

/// An effect path of a definition is never shorter than another one.
proof fn lemma_effect_path_not_shorter(fs: Seq<FunctionPurity>, d: DefId, p: Seq<EffectStep>, q: Seq<EffectStep>)
    requires
        is_effect_path(fs, d, p),
        is_effect_path(fs, d, q),
    ensures
        p.len() >= q.len(),
{
    if p.len() < q.len() && p.len() > 0 {
        let m = p.len() as int;
        lemma_effect_paths_agree(fs, d, p, q, m - 1);
        assert(q[m - 1].origin.callee == Some(q[m].def_id));
        let c = q[m].def_id;
        assert(step_of_report(fs, q[m]));
        if exists|k: int| 0 <= k < p.len() && (#[trigger] p[k]).def_id == c {
            let k = choose|k: int| 0 <= k < p.len() && (#[trigger] p[k]).def_id == c;
            lemma_effect_paths_agree(fs, d, p, q, k);
            assert(q[k].def_id != q[m].def_id);
        }
    }
}

/// The effect path of a definition is fixed by the report: any two have
/// the same length and the same definitions and origins, step by step.
pub proof fn lemma_effect_path_determined(fs: Seq<FunctionPurity>, d: DefId, p: Seq<EffectStep>, q: Seq<EffectStep>)
    requires
        is_effect_path(fs, d, p),
        is_effect_path(fs, d, q),
    ensures
        p.len() == q.len(),
        forall|k: int| 0 <= k < p.len() ==> (#[trigger] p[k]).def_id == q[k].def_id && p[k].origin == q[k].origin,
{
    lemma_effect_path_not_shorter(fs, d, p, q);
    lemma_effect_path_not_shorter(fs, d, q, p);
    assert forall|k: int| 0 <= k < p.len() implies (#[trigger] p[k]).def_id == q[k].def_id && p[k].origin
        == q[k].origin by {
        lemma_effect_paths_agree(fs, d, p, q, k);
    }
}

/// No definition comes twice on an effect path.
pub proof fn lemma_effect_path_distinct(fs: Seq<FunctionPurity>, d: DefId, p: Seq<EffectStep>)
    requires
        is_effect_path(fs, d, p),
    ensures
        forall|k: int, l: int| 0 <= k < l < p.len() ==> (#[trigger] p[k]).def_id != (#[trigger] p[l]).def_id,
{
}

/// Distinct indices below `n` number at most `n`.
proof fn lemma_distinct_indices_bound(q: Seq<int>, n: int)
    requires
        0 <= n,
        q.no_duplicates(),
        forall|k: int| 0 <= k < q.len() ==> 0 <= #[trigger] q[k] < n,
    ensures
        q.len() <= n,
{
    q.unique_seq_to_set();
    vstd::set_lib::lemma_int_range(0, n);
    assert(q.to_set().subset_of(vstd::set_lib::set_int_range(0, n)));
    vstd::set_lib::lemma_len_subset(q.to_set(), vstd::set_lib::set_int_range(0, n));
}

impl PurityReport {
    /// The index of the first function with definition `d`.
    fn find(&self, d: DefId) -> (r: Option<usize>)
        ensures
            match r {
                Some(t) => t == first_index(report_defs(self.functions@), d, 0) && t < self.functions@.len(),
                None => first_index(report_defs(self.functions@), d, 0) == -1,
            },
    {
        let ghost defs = report_defs(self.functions@);
        let mut i: usize = 0;
        while i < self.functions.len()
            invariant
                i <= self.functions@.len(),
                defs == report_defs(self.functions@),
                first_index(defs, d, 0) == first_index(defs, d, i as int),
            decreases self.functions@.len() - i,
        {
            if self.functions[i].def_id == d {
                return Some(i);
            }
            i += 1;
        }
        None
    }

    /// The purity of the function with definition `def_id`, if it is one.
    pub fn purity_of(&self, def_id: DefId) -> (r: Option<Purity>)
        ensures
            r == report_purity(self.functions@, def_id),
    {
        match self.find(def_id) {
            Some(t) => Some(self.functions[t].purity),
            None => None,
        }
    }

    /// The number of pure functions.
    pub fn pure_count(&self) -> (r: usize)
        ensures
            r == count_with(self.functions@, Purity::Pure, self.functions@.len() as int),
    {
        self.count(Purity::Pure)
    }

    /// The number of effectful functions.
    pub fn effectful_count(&self) -> (r: usize)
        ensures
            r == count_with(self.functions@, Purity::Effectful, self.functions@.len() as int),
    {
        self.count(Purity::Effectful)
    }

    fn count(&self, p: Purity) -> (r: usize)
        ensures
            r == count_with(self.functions@, p, self.functions@.len() as int),
    {
        let mut c: usize = 0;
        let mut i: usize = 0;
        while i < self.functions.len()
            invariant
                i <= self.functions@.len(),
                c == count_with(self.functions@, p, i as int),
            decreases self.functions@.len() - i,
        {
            proof {
                lemma_count_bound(self.functions@, p, i + 1);
            }
            if self.functions[i].purity == p {
                c += 1;
            }
            i += 1;
        }
        c
    }

    /// The number of unresolved call sites over the module.
    pub fn unresolved_count(&self) -> (r: usize)
        requires
            unresolved_total(self.functions@, self.functions@.len() as int) <= usize::MAX,
        ensures
            r == unresolved_total(self.functions@, self.functions@.len() as int),
    {
        let n = self.functions.len();
        let mut c: usize = 0;
        let mut i: usize = 0;
        while i < n
            invariant
                n == self.functions@.len(),
                i <= n,
                c == unresolved_total(self.functions@, i as int),
                unresolved_total(self.functions@, n as int) <= usize::MAX,
            decreases n - i,
        {
            proof {
                lemma_totals_grow(self.functions@, i + 1, n as int);
            }
            c = c + self.functions[i].unresolved.len();
            i += 1;
        }
        c
    }

    /// The unresolved call sites that are genuinely higher-order.
    pub fn higher_order_count(&self) -> (r: usize)
        requires
            unresolved_total(self.functions@, self.functions@.len() as int) <= usize::MAX,
        ensures
            r == higher_order_total(self.functions@, self.functions@.len() as int),
    {
        let n = self.functions.len();
        let mut c: usize = 0;
        let mut i: usize = 0;
        while i < n
            invariant
                n == self.functions@.len(),
                i <= n,
                c == higher_order_total(self.functions@, i as int),
                unresolved_total(self.functions@, n as int) <= usize::MAX,
            decreases n - i,
        {
            let us = &self.functions[i].unresolved;
            let mut j: usize = 0;
            proof {
                lemma_totals_grow(self.functions@, i + 1, n as int);
                lemma_higher_order_total_bound(self.functions@, i + 1);
            }
            while j < us.len()
                invariant
                    n == self.functions@.len(),
                    i < n,
                    us@ == self.functions@[i as int].unresolved@,
                    j <= us@.len(),
                    c == higher_order_total(self.functions@, i as int) + higher_order_in(us@, j as int),
                    higher_order_total(self.functions@, i + 1) <= usize::MAX,
                decreases us@.len() - j,
            {
                proof {
                    lemma_higher_order_in_bound(us@, us@.len() as int);
                    lemma_higher_order_in_grows(us@, j + 1, us@.len() as int);
                }
                if us[j].kind.is_higher_order() {
                    c = c + 1;
                }
                j += 1;
            }
            i += 1;
        }
        c
    }

    /// The chain from `def_id` to the effect that makes it effectful: the
    /// first step is `def_id` itself, each next step is the callee the
    /// previous one blames, and recursion through effectful callees is cut
    /// off rather than followed twice. Empty when the function is pure or
    /// unknown.
    pub fn effect_path(&self, def_id: DefId) -> (path: Vec<EffectStep>)
        ensures
            is_effect_path(self.functions@, def_id, path@),
    {
        let ghost fs = self.functions@;
        let ghost defs = report_defs(fs);
        let n = self.functions.len();
        let mut path: Vec<EffectStep> = Vec::new();
        let mut seen: Vec<DefId> = Vec::new();
        let mut current = def_id;
        let ghost mut q: Seq<int> = Seq::empty();
        loop
            invariant
                fs == self.functions@,
                defs == report_defs(fs),
                n == fs.len(),
                seen@ == Seq::new(path@.len(), |k: int| path@[k].def_id),
                q.len() == path@.len(),
                q.no_duplicates(),
                forall|k: int| 0 <= k < q.len() ==> #[trigger] q[k] == first_index(defs, path@[k].def_id, 0),
                forall|k: int| 0 <= k < q.len() ==> 0 <= #[trigger] q[k] < n,
                path@.len() == 0 ==> current == def_id,
                path@.len() > 0 ==> path@[0].def_id == def_id,
                path@.len() > 0 ==> path@.last().origin.callee == Some(current),
                forall|k: int| 0 <= k < path@.len() ==> step_of_report(fs, #[trigger] path@[k]),
                forall|k: int, l: int|
                    0 <= k && l == k + 1 && l < path@.len() ==> (#[trigger] path@[k]).origin.callee == Some(
                        (#[trigger] path@[l]).def_id,
                    ),
                forall|k: int, l: int| 0 <= k < l < path@.len() ==> (#[trigger] path@[k]).def_id != (#[trigger] path@[l]).def_id,
            decreases n + 1 - path@.len(),
        {
            proof {
                lemma_distinct_indices_bound(q, n as int);
            }
            if contains_def(&seen, current) {
                proof {
                    let k = choose|k: int| 0 <= k < seen@.len() && seen@[k] == current;
                    assert(path@[k].def_id == current);
                }
                return path;
            }
            let ghost before = path@;
            let ghost seen_before = seen@;
            seen.push(current);
            let idx = match self.find(current) {
                Some(t) => t,
                None => {
                    return path;
                },
            };
            let func = &self.functions[idx];
            let origin = match func.origin {
                Some(o) => o,
                None => {
                    return path;
                },
            };
            let callee_name = match origin.callee {
                Some(c) => match self.find(c) {
                    Some(t) => Some(self.functions[t].name.clone()),
                    None => None,
                },
                None => None,
            };
            path.push(EffectStep { def_id: current, name: func.name.clone(), origin, callee_name });
            proof {
                q = q.push(idx as int);
                assert forall|k: int| 0 <= k < q.len() - 1 implies #[trigger] q[k] != idx as int by {
                    assert(seen_before[k] == before[k].def_id);
                    assert(path@[k].def_id != current);
                    lemma_first_index(defs, path@[k].def_id, 0);
                    lemma_first_index(defs, current, 0);
                }
                assert(q.no_duplicates());
                assert(seen@ =~= Seq::new(path@.len(), |k: int| path@[k].def_id));
                assert forall|k: int, l: int| 0 <= k < l < path@.len() implies (#[trigger] path@[k]).def_id
                    != (#[trigger] path@[l]).def_id by {
                    if l == path@.len() - 1 {
                        assert(before[k].def_id == seen@[k]);
                    }
                }
            }
            match origin.callee {
                Some(c) => {
                    current = c;
                },
                None => {
                    return path;
                },
            }
        }
    }
}

proof fn lemma_higher_order_in_grows(us: Seq<UnresolvedCall>, j: int, k: int)
    requires
        0 <= j <= k <= us.len(),
    ensures
        higher_order_in(us, j) <= higher_order_in(us, k),
    decreases k - j,
{
    if j < k {
        lemma_higher_order_in_grows(us, j, k - 1);
    }
}

// ── Laws ────────────────────────────────────────────────────────

/// Ranks never increase along an effect path of an analysis: each step's
/// blamed callee is ranked below it.
proof fn lemma_path_ranks_decrease(
    r: PurityReport,
    m: HirModule,
    d: DefId,
    p: Seq<EffectStep>,
    rank: Seq<nat>,
    k: int,
    l: int,
)
    requires
        analysis_of(r, m),
        grounded(fn_defs(m), fn_inits(m), Seq::new(r.functions@.len(), |i: int| r.functions@[i].origin), rank),
        is_effect_path(r.functions@, d, p),
        0 <= k <= l < p.len(),
    ensures
        rank[first_index(report_defs(r.functions@), p[l].def_id, 0)] <= rank[first_index(
            report_defs(r.functions@),
            p[k].def_id,
            0,
        )],
    decreases l - k,
{
    let fs = r.functions@;
    let defs = report_defs(fs);
    assert(defs =~= fn_defs(m));
    if k < l {
        lemma_path_ranks_decrease(r, m, d, p, rank, k + 1, l);
        let t = first_index(defs, p[k].def_id, 0);
        assert(step_of_report(fs, p[k]));
        assert(p[k].origin.callee == Some(p[k + 1].def_id));
        assert(is_direct(fn_inits(m)[t]));
        assert(Seq::new(fs.len(), |i: int| fs[i].origin)[t] == fs[t].origin);
    }
}

/// The effect path of an analysis ends at an effect that is not merely
/// propagated: following blamed callees from any function always reaches
/// the function where an effect enters, never a cycle.
pub proof fn lemma_effect_path_ends_at_direct_effect(r: PurityReport, m: HirModule, d: DefId, p: Seq<EffectStep>)
    requires
        analysis_of(r, m),
        is_effect_path(r.functions@, d, p),
    ensures
        p.len() > 0 ==> p.last().origin.source != EffectSource::Propagated,
{
    let fs = r.functions@;
    let n = fs.len();
    let defs = report_defs(fs);
    let purity = Seq::new(n, |i: int| fs[i].purity);
    let origin = Seq::new(n, |i: int| fs[i].origin);
    assert(defs =~= fn_defs(m));
    if p.len() > 0 && p.last().origin.source == EffectSource::Propagated {
        let rank = choose|rank: Seq<nat>| grounded(fn_defs(m), fn_inits(m), origin, rank);
        let last = p.len() - 1;
        let t = first_index(defs, p[last].def_id, 0);
        assert(step_of_report(fs, p[last]));
        assert(origin[t] == Some(p[last].origin));
        assert(is_direct(fn_inits(m)[t]));
        assert(fn_inits(m)[t] is None);
        assert(propagated_origin(fn_defs(m), fn_edges(m), purity, t, p[last].origin));
        let c = p[last].origin.callee->Some_0;
        let u = first_index(defs, c, 0);
        assert(purity[u] == Purity::Effectful);
        assert(origin[u] is Some);
        let k = choose|k: int| 0 <= k < p.len() && (#[trigger] p[k]).def_id == c;
        assert(rank[u] < rank[t]);
        lemma_path_ranks_decrease(r, m, d, p, rank, k, last);
        assert(first_index(defs, p[k].def_id, 0) == u);
    }
}

/// An effectful function's effect path is never empty: it starts at the
/// function itself.
pub proof fn lemma_effectful_has_path(r: PurityReport, d: DefId, p: Seq<EffectStep>)
    requires
        is_effect_path(r.functions@, d, p),
        0 <= first_index(report_defs(r.functions@), d, 0),
        r.functions@[first_index(report_defs(r.functions@), d, 0)].origin is Some,
    ensures
        p.len() > 0,
        p[0].def_id == d,
{
}

// ── Labels and the `pure` check ─────────────────────────────────

/// `prefix`, then `name`, then `suffix`.
pub(crate) fn enclose(prefix: &str, name: &str, suffix: &str) -> (r: String)
    ensures
        r@ == prefix@ + name@ + suffix@,
{
    let mut r = String::from_str(prefix);
    r.append(name);
    r.append(suffix);
    r
}

/// The label text of a step.
pub open spec fn step_label(st: EffectStep) -> Seq<char> {
    match st.origin.source {
        EffectSource::Boundary => "this crosses the Python boundary"@,
        EffectSource::Async => "`"@ + st.name@ + "` is async, which is an effect"@,
        EffectSource::Propagated => match st.callee_name {
            Some(c) => "`"@ + st.name@ + "` calls `"@ + c@ + "` here"@,
            None => "`"@ + st.name@ + "` calls an effectful function here"@,
        },
        EffectSource::Unresolved => "this call cannot be resolved, so it counts as an effect"@,
    }
}

impl EffectStep {
    /// Renders this step as a diagnostic label.
    pub fn label(&self) -> (r: String)
        ensures
            r@ == step_label(*self),
    {
        match self.origin.source {
            EffectSource::Boundary => String::from_str("this crosses the Python boundary"),
            EffectSource::Async => enclose("`", self.name.as_str(), "` is async, which is an effect"),
            EffectSource::Propagated => match &self.callee_name {
                Some(callee) => {
                    let mut r = enclose("`", self.name.as_str(), "` calls `");
                    r.append(callee.as_str());
                    r.append("` here");
                    r
                },
                None => enclose("`", self.name.as_str(), "` calls an effectful function here"),
            },
            EffectSource::Unresolved => String::from_str(
                "this call cannot be resolved, so it counts as an effect",
            ),
        }
    }
}

/// The purity a report records for definition `d`: that of its first
/// function with that definition.
pub open spec fn report_purity(fs: Seq<FunctionPurity>, d: DefId) -> Option<Purity> {
    let t = first_index(report_defs(fs), d, 0);
    if 0 <= t {
        Some(fs[t].purity)
    } else {
        None
    }
}

/// The primary label of a `pure` declaration.
pub open spec fn declared_pure_label(span: Span) -> LabelView {
    LabelView { span, message: "declared pure here"@, style: LabelStyle::Primary }
}

/// The error for a function declared both `pure` and `async`.
pub open spec fn pure_async_diagnostic(name: Seq<char>, span: Span) -> DiagnosticView {
    DiagnosticView {
        severity: Severity::Error,
        code: Some(DiagnosticCode::E0155),
        message: "`"@ + name + "` is both `pure` and `async`"@,
        span,
        labels: seq![declared_pure_label(span)],
        hints: seq!["drop `pure` from `"@ + name + "`"@],
        notes: seq!["an `async fn` returns `Task(T)`, which is itself an effect"@],
    }
}

/// The secondary labels of an effect path, one per step.
pub open spec fn path_labels(p: Seq<EffectStep>) -> Seq<LabelView> {
    Seq::new(
        p.len(),
        |k: int| LabelView { span: p[k].origin.span, message: step_label(p[k]), style: LabelStyle::Secondary },
    )
}

/// The note added when the effect at the end of a path is only assumed.
pub open spec fn unresolved_note(p: Seq<EffectStep>) -> Seq<Seq<char>> {
    if p.len() > 0 && p.last().origin.source is Unresolved {
        seq!["a call the compiler cannot resolve counts as an effect, so that `pure` stays a proof"@]
    } else {
        Seq::empty()
    }
}

/// The error for a function declared `pure` that reaches an effect along
/// path `p`.
pub open spec fn impure_diagnostic(name: Seq<char>, span: Span, p: Seq<EffectStep>) -> DiagnosticView {
    DiagnosticView {
        severity: Severity::Error,
        code: Some(DiagnosticCode::E0154),
        message: "`"@ + name + "` is declared `pure` but reaches an effect"@,
        span,
        labels: seq![declared_pure_label(span)] + path_labels(p),
        hints: seq!["drop `pure` from `"@ + name + "`, or move the effect into its caller"@],
        notes: unresolved_note(p),
    }
}

/// Function `f` of `m` is declared `pure` and the declaration fails:
/// it is `async`, or the report finds it effectful.
pub open spec fn pure_violated(r: PurityReport, f: HirFnDef) -> bool {
    f.pure_span is Some && (f.is_async || report_purity(r.functions@, f.def_id) == Some(Purity::Effectful))
}

/// `dv` is the diagnostic for the failed `pure` declaration of `f`.
pub open spec fn violation_diagnostic(m: HirModule, r: PurityReport, f: HirFnDef, dv: DiagnosticView) -> bool {
    let name = def_of(m, f.def_id).name@;
    let span = f.pure_span->Some_0;
    if f.is_async {
        dv == pure_async_diagnostic(name, span)
    } else {
        exists|p: Seq<EffectStep>| is_effect_path(r.functions@, f.def_id, p) && dv == impure_diagnostic(name, span, p)
    }
}

/// The E0154 diagnostic of a failed `pure` declaration that is not `async`
/// has the declaration as its primary label, followed by one secondary
/// label at the origin of each step of the function's effect path, so
/// `1 + p.len()` labels for its effect path `p`.
pub proof fn lemma_impure_labels(m: HirModule, r: PurityReport, f: HirFnDef, dv: DiagnosticView, p: Seq<EffectStep>)
    requires
        violation_diagnostic(m, r, f, dv),
        !f.is_async,
        is_effect_path(r.functions@, f.def_id, p),
    ensures
        dv.code == Some(DiagnosticCode::E0154),
        dv.labels.len() == 1 + p.len(),
        dv.labels[0] == declared_pure_label(f.pure_span->Some_0),
        forall|k: int|
            0 <= k < p.len() ==> (#[trigger] dv.labels[k + 1]).span == p[k].origin.span && dv.labels[k + 1].style
                == LabelStyle::Secondary,
{
    let q = choose|q: Seq<EffectStep>|
        is_effect_path(r.functions@, f.def_id, q) && dv == impure_diagnostic(def_of(m, f.def_id).name@, f.pure_span->Some_0, q);
    lemma_effect_path_determined(r.functions@, f.def_id, p, q);
    let span = f.pure_span->Some_0;
    assert(dv.labels == seq![declared_pure_label(span)] + path_labels(q));
    assert forall|k: int| 0 <= k < p.len() implies (#[trigger] dv.labels[k + 1]).span == p[k].origin.span
        && dv.labels[k + 1].style == LabelStyle::Secondary by {
        assert(dv.labels[k + 1] == path_labels(q)[k]);
    }
}

/// `out` holds, in order, one diagnostic for each of the first `k`
/// functions of `m` whose `pure` declaration fails.
pub open spec fn check_result(m: HirModule, r: PurityReport, k: int, out: Seq<DiagnosticView>) -> bool
    decreases k,
{
    if k <= 0 {
        out.len() == 0
    } else if pure_violated(r, m.functions@[k - 1]) {
        &&& out.len() > 0
        &&& check_result(m, r, k - 1, out.drop_last())
        &&& violation_diagnostic(m, r, m.functions@[k - 1], out.last())
    } else {
        check_result(m, r, k - 1, out)
    }
}

/// The functions of `m`, in order, whose `pure` declaration fails against `r`.
pub open spec fn failed_pure(m: HirModule, r: PurityReport) -> Seq<HirFnDef> {
    m.functions@.filter(|f: HirFnDef| pure_violated(r, f))
}

/// The functions among the first `k` of `m` whose `pure` declaration fails.
pub open spec fn failed_pure_upto(m: HirModule, r: PurityReport, k: int) -> Seq<HirFnDef> {
    m.functions@.take(k).filter(|f: HirFnDef| pure_violated(r, f))
}

proof fn lemma_check_prefix(m: HirModule, r: PurityReport, k: int, out: Seq<DiagnosticView>)
    requires
        0 <= k <= m.functions@.len(),
        check_result(m, r, k, out),
    ensures
        out.len() == failed_pure_upto(m, r, k).len(),
        forall|j: int| 0 <= j < out.len() ==> violation_diagnostic(m, r, #[trigger] failed_pure_upto(m, r, k)[j], out[j]),
    decreases k,
{
    reveal(Seq::filter);
    let pred = |f: HirFnDef| pure_violated(r, f);
    let fs = m.functions@;
    if k > 0 {
        assert(fs.take(k).drop_last() =~= fs.take(k - 1));
        assert(fs.take(k).last() == fs[k - 1]);
        if pure_violated(r, fs[k - 1]) {
            lemma_check_prefix(m, r, k - 1, out.drop_last());
            let sub = fs.take(k - 1).filter(pred);
            assert forall|j: int| 0 <= j < out.len() implies violation_diagnostic(
                m,
                r,
                #[trigger] failed_pure_upto(m, r, k)[j],
                out[j],
            ) by {
                assert(failed_pure_upto(m, r, k) == fs.take(k).filter(pred));
                assert(failed_pure_upto(m, r, k - 1) == sub);
                if j < out.len() - 1 {
                    assert(fs.take(k).filter(pred)[j] == sub[j]);
                    assert(out[j] == out.drop_last()[j]);
                }
            }
        } else {
            lemma_check_prefix(m, r, k - 1, out);
        }
    } else {
        assert(fs.take(0).filter(pred) =~= Seq::<HirFnDef>::empty());
    }
}

/// The `pure` check gives exactly one diagnostic per failed `pure`
/// declaration, in the order of the functions: E0155 with the declaration
/// as its only label for an `async` function; otherwise E0154, labelled by
/// the declaration and then by each step of the function's effect path.
pub proof fn lemma_check_one_per_failure(m: HirModule, r: PurityReport, out: Seq<DiagnosticView>)
    requires
        check_result(m, r, m.functions@.len() as int, out),
    ensures
        out.len() == failed_pure(m, r).len(),
        forall|j: int|
            0 <= j < out.len() ==> violation_diagnostic(m, r, #[trigger] failed_pure(m, r)[j], out[j]),
        forall|j: int|
            0 <= j < out.len() && (#[trigger] failed_pure(m, r)[j]).is_async ==> out[j].code == Some(
                DiagnosticCode::E0155,
            ) && out[j].labels == seq![declared_pure_label(failed_pure(m, r)[j].pure_span->Some_0)],
        forall|j: int, p: Seq<EffectStep>|
            0 <= j < out.len() && !failed_pure(m, r)[j].is_async && #[trigger] is_effect_path(
                r.functions@,
                #[trigger] failed_pure(m, r)[j].def_id,
                p,
            ) ==> out[j].code == Some(DiagnosticCode::E0154) && out[j].labels.len() == 1 + p.len(),
{
    let fs = m.functions@;
    assert(fs.take(fs.len() as int) =~= fs);
    lemma_check_prefix(m, r, fs.len() as int, out);
    assert(failed_pure_upto(m, r, fs.len() as int) == failed_pure(m, r));
    assert forall|j: int, p: Seq<EffectStep>|
        0 <= j < out.len() && !failed_pure(m, r)[j].is_async && #[trigger] is_effect_path(
            r.functions@,
            #[trigger] failed_pure(m, r)[j].def_id,
            p,
        ) implies out[j].code == Some(DiagnosticCode::E0154) && out[j].labels.len() == 1 + p.len() by {
        lemma_impure_labels(m, r, failed_pure(m, r)[j], out[j], p);
    }
}

/// The views of a list of diagnostics.
pub open spec fn diagnostic_views(ds: Seq<Diagnostic>) -> Seq<DiagnosticView> {
    ds.map_values(|d: Diagnostic| d@)
}

/// The E0154 diagnostic for `name`, with the steps of `path` as
/// secondary labels.
fn impure_error(name: &str, span: Span, path: &Vec<EffectStep>) -> (d: Diagnostic)
    ensures
        d@ == impure_diagnostic(name@, span, path@),
{
    let mut d = Diagnostic::error(enclose("`", name, "` is declared `pure` but reaches an effect").as_str(), span)
        .with_code(DiagnosticCode::E0154)
        .with_label(span, "declared pure here");
    let ghost head = seq![declared_pure_label(span)];
    assert(d@.labels =~= head + path_labels(path@.take(0)));
    let mut j: usize = 0;
    while j < path.len()
        invariant
            j <= path@.len(),
            head == seq![declared_pure_label(span)],
            d@.severity == Severity::Error,
            d@.code == Some(DiagnosticCode::E0154),
            d@.message == "`"@ + name@ + "` is declared `pure` but reaches an effect"@,
            d@.span == span,
            d@.labels == head + path_labels(path@.take(j as int)),
            d@.hints.len() == 0,
            d@.notes.len() == 0,
        decreases path@.len() - j,
    {
        let label = path[j].label();
        d = d.with_secondary_label(path[j].origin.span, label.as_str());
        assert(path_labels(path@.take(j + 1)) =~= path_labels(path@.take(j as int)).push(
            LabelView { span: path@[j as int].origin.span, message: label@, style: LabelStyle::Secondary },
        ));
        j += 1;
    }
    assert(path@.take(path@.len() as int) =~= path@);
    d = d.with_hint(enclose("drop `pure` from `", name, "`, or move the effect into its caller").as_str());
    let last_unproven = path.len() > 0 && !path[path.len() - 1].origin.source.is_proven();
    if last_unproven {
        d = d.with_note(
            "a call the compiler cannot resolve counts as an effect, so that `pure` stays a proof",
        );
    }
    assert(d@.hints =~= seq!["drop `pure` from `"@ + name@ + "`, or move the effect into its caller"@]);
    assert(d@.notes =~= unresolved_note(path@));
    d
}

/// Checks every `pure` declaration of `module` against `report`: a
/// function both `pure` and `async` gets E0155; a `pure` function the
/// report finds effectful gets E0154, labelled with the chain that
/// reaches the effect.
pub fn check(module: &HirModule, report: &PurityReport) -> (r: Vec<Diagnostic>)
    requires
        forall|i: int|
            0 <= i < module.functions@.len() ==> (#[trigger] module.functions@[i]).def_id
                < module.symbol_table.spec_defs().len(),
    ensures
        check_result(*module, *report, module.functions@.len() as int, diagnostic_views(r@)),
{
    let ghost m = *module;
    let mut out: Vec<Diagnostic> = Vec::new();
    let mut i: usize = 0;
    while i < module.functions.len()
        invariant
            m == *module,
            i <= module.functions@.len(),
            forall|k: int|
                0 <= k < module.functions@.len() ==> (#[trigger] module.functions@[k]).def_id
                    < module.symbol_table.spec_defs().len(),
            check_result(m, *report, i as int, diagnostic_views(out@)),
        decreases module.functions@.len() - i,
    {
        let func = &module.functions[i];
        let ghost before = diagnostic_views(out@);
        if let Some(pure_span) = func.pure_span {
            let name = module.symbol_table.get(func.def_id).name.as_str();
            if func.is_async {
                let d = Diagnostic::error(enclose("`", name, "` is both `pure` and `async`").as_str(), pure_span)
                    .with_code(DiagnosticCode::E0155)
                    .with_label(pure_span, "declared pure here")
                    .with_hint(enclose("drop `pure` from `", name, "`").as_str())
                    .with_note("an `async fn` returns `Task(T)`, which is itself an effect");
                proof {
                    assert(d@ == pure_async_diagnostic(name@, pure_span));
                }
                out.push(d);
            } else {
                let effectful = match report.purity_of(func.def_id) {
                    Some(Purity::Effectful) => true,
                    _ => false,
                };
                if effectful {
                    let path = report.effect_path(func.def_id);
                    let d = impure_error(name, pure_span, &path);
                    out.push(d);
                }
            }
        }
        proof {
            let now = diagnostic_views(out@);
            if now.len() > before.len() {
                assert(now.drop_last() =~= before);
            } else {
                assert(now =~= before);
            }
        }
        i += 1;
    }
    out
}

// ── Laws of the analysis ────────────────────────────────────────

/// Every function of a report is counted once: the pure and the
/// effectful functions together are all of them.
pub proof fn lemma_counts_partition(r: PurityReport)
    ensures
        count_with(r.functions@, Purity::Pure, r.functions@.len() as int) + count_with(
            r.functions@,
            Purity::Effectful,
            r.functions@.len() as int,
        ) == r.functions@.len(),
{
    lemma_count_bound(r.functions@, Purity::Pure, r.functions@.len() as int);
}

/// A pure function of an analysis has no effect of its own: its body
/// reaches no boundary, awaits nothing, makes no unresolved call, and it
/// is not `async`.
pub proof fn lemma_pure_has_no_direct_effect(r: PurityReport, m: HirModule, i: int)
    requires
        analysis_of(r, m),
        0 <= i < m.functions@.len(),
        r.functions@[i].purity == Purity::Pure,
    ensures
        direct_origin(scan_fn(m, m.functions@[i])) is None,
{
    let fs = r.functions@;
    let n = fs.len();
    let purity = Seq::new(n, |x: int| fs[x].purity);
    let origin = Seq::new(n, |x: int| fs[x].origin);
    assert(purity[i] == fs[i].purity);
    assert(origin[i] == fs[i].origin);
    assert(fn_inits(m)[i] == direct_origin(scan_fn(m, m.functions@[i])));
}

/// Effects flow to callers: in an analysis, a function that calls an
/// effectful function of the module is itself effectful.
pub proof fn lemma_caller_of_effectful_is_effectful(r: PurityReport, m: HirModule, i: int, k: int)
    requires
        analysis_of(r, m),
        0 <= i < m.functions@.len(),
        0 <= k < scan_fn(m, m.functions@[i]).callees.len(),
        report_purity(r.functions@, scan_fn(m, m.functions@[i]).callees[k].0) == Some(Purity::Effectful),
    ensures
        r.functions@[i].purity == Purity::Effectful,
{
    let fs = r.functions@;
    let n = fs.len();
    let purity = Seq::new(n, |x: int| fs[x].purity);
    let defs = fn_defs(m);
    let edges = fn_edges(m);
    assert(report_defs(fs) =~= defs);
    assert(edges[i] == scan_fn(m, m.functions@[i]).callees);
    let t = edge_target(defs, edges, i, k);
    assert(edges[i][k] == scan_fn(m, m.functions@[i]).callees[k]);
    lemma_first_index(defs, edges[i][k].0, 0);
    assert(purity[t] == fs[t].purity);
    assert(purity[i] == fs[i].purity);
}

} // verus!
