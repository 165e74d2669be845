//! Purity analysis over hand-built HIR. Each module below is what name
//! resolution makes of the source quoted above it.

use asatsuyu::diagnostic::{Diagnostic, DiagnosticCode, LabelStyle};
use asatsuyu::hir::{
    BinOp, DefData, DefId, DefKind, HirExpr, HirFnDef, HirImport, HirImportKind, HirLiteral, HirModule, HirParam,
    HirTypeExpr, LiteralKind, SymbolTable, Visibility,
};
use asatsuyu::purity::{
    analyze, check, EffectSource, FunctionPurity, Purity, PurityReport, UnresolvedCallKind,
};
use asatsuyu::span::{FileId, Span};

fn sp(start: u32, end: u32) -> Span {
    Span::new(FileId(0), start, end)
}

/// Builds a module: a symbol table that starts with the `println` built-in,
/// then imports and functions.
struct Builder {
    table: SymbolTable,
    imports: Vec<HirImport>,
    functions: Vec<HirFnDef>,
    println: DefId,
    next: u32,
}

impl Builder {
    fn new() -> Builder {
        let mut table = SymbolTable::new();
        let println = table.register(DefData {
            name: "println".to_string(),
            kind: DefKind::Builtin,
            is_mutable: false,
            span: Span::dummy(),
        });
        Builder { table, imports: Vec::new(), functions: Vec::new(), println, next: 0 }
    }

    fn span(&mut self) -> Span {
        self.next += 10;
        sp(self.next, self.next + 5)
    }

    fn def(&mut self, name: &str, kind: DefKind, is_mutable: bool) -> DefId {
        let span = self.span();
        self.table.register(DefData { name: name.to_string(), kind, is_mutable, span })
    }

    fn python_import(&mut self, module: &str) -> DefId {
        let d = self.def(module, DefKind::Import, false);
        let span = self.span();
        self.imports.push(HirImport {
            def_id: d,
            kind: HirImportKind::Python { module_name: module.to_string() },
            span,
        });
        d
    }

    fn param(&mut self, name: &str) -> (DefId, HirParam) {
        let d = self.def(name, DefKind::Parameter, false);
        let span = self.span();
        let ann = HirTypeExpr { name: "Int".to_string(), args: Vec::new(), span };
        (d, HirParam { def_id: d, type_ann: Some(ann), span })
    }

    fn add_fn(&mut self, d: DefId, params: Vec<HirParam>, body: Vec<HirExpr>, is_async: bool, pure: bool) {
        let span = self.span();
        let pure_span = if pure { Some(self.span()) } else { None };
        let body_span = self.span();
        self.functions.push(HirFnDef {
            def_id: d,
            visibility: Visibility::Public,
            params,
            return_type: None,
            body: HirExpr::Block { exprs: body, span: body_span },
            is_async,
            pure_span,
            span,
        });
    }

    fn var(&mut self, d: DefId) -> HirExpr {
        let span = self.span();
        HirExpr::Var(d, span)
    }

    fn int_lit(&mut self, v: &str) -> HirExpr {
        let span = self.span();
        HirExpr::Literal(HirLiteral { kind: LiteralKind::Int, value: v.to_string(), span })
    }

    fn string(&mut self, v: &str) -> HirExpr {
        let span = self.span();
        HirExpr::Literal(HirLiteral { kind: LiteralKind::String, value: v.to_string(), span })
    }

    fn call(&mut self, func: HirExpr, args: Vec<HirExpr>) -> HirExpr {
        let span = self.span();
        HirExpr::Call { func: Box::new(func), args, span }
    }

    fn call_def(&mut self, d: DefId, args: Vec<HirExpr>) -> HirExpr {
        let f = self.var(d);
        self.call(f, args)
    }

    fn println(&mut self, text: &str) -> HirExpr {
        let p = self.println;
        let arg = self.string(text);
        self.call_def(p, vec![arg])
    }

    fn field(&mut self, receiver: HirExpr, field: &str) -> HirExpr {
        let span = self.span();
        HirExpr::FieldAccess { receiver: Box::new(receiver), field: field.to_string(), span }
    }

    fn method_call(&mut self, root: DefId, method: &str, args: Vec<HirExpr>) -> HirExpr {
        let r = self.var(root);
        let f = self.field(r, method);
        self.call(f, args)
    }

    fn let_(&mut self, binding: DefId, value: HirExpr, is_mutable: bool) -> HirExpr {
        let span = self.span();
        HirExpr::Let { binding, value: Box::new(value), is_mutable, span }
    }

    fn build(self) -> HirModule {
        HirModule {
            imports: self.imports,
            functions: self.functions,
            custom_types: Vec::new(),
            symbol_table: self.table,
            span: sp(0, 1),
        }
    }
}

fn find<'a>(report: &'a PurityReport, name: &str) -> &'a FunctionPurity {
    report.functions.iter().find(|f| f.name == name).expect("function not found")
}

// `pub fn double(x: Int) -> Int { x * 2 }`
fn double_module(pure: bool) -> HirModule {
    let mut b = Builder::new();
    let double = b.def("double", DefKind::Function, false);
    let (x, px) = b.param("x");
    let lhs = b.var(x);
    let rhs = b.int_lit("2");
    let span = b.span();
    let body = HirExpr::BinaryOp { op: BinOp::Mul, lhs: Box::new(lhs), rhs: Box::new(rhs), span };
    b.add_fn(double, vec![px], vec![body], false, pure);
    b.build()
}

// `pub fn shout() { println("hi") }`
fn shout_module(pure: bool) -> HirModule {
    let mut b = Builder::new();
    let shout = b.def("shout", DefKind::Function, false);
    let body = b.println("hi");
    b.add_fn(shout, Vec::new(), vec![body], false, pure);
    b.build()
}

// fn leaf() { println("x") }
// fn middle() { leaf() }
// pub fn top() { middle() }
fn chain_module(top_pure: bool) -> HirModule {
    let mut b = Builder::new();
    let leaf = b.def("leaf", DefKind::Function, false);
    let middle = b.def("middle", DefKind::Function, false);
    let top = b.def("top", DefKind::Function, false);
    let leaf_body = b.println("x");
    b.add_fn(leaf, Vec::new(), vec![leaf_body], false, false);
    let middle_body = b.call_def(leaf, Vec::new());
    b.add_fn(middle, Vec::new(), vec![middle_body], false, false);
    let top_body = b.call_def(middle, Vec::new());
    b.add_fn(top, Vec::new(), vec![top_body], false, top_pure);
    b.build()
}

// `pub async fn fetch() -> Int { 1 }`, optionally declared pure.
fn fetch_module(pure: bool) -> HirModule {
    let mut b = Builder::new();
    let fetch = b.def("fetch", DefKind::Function, false);
    let body = b.int_lit("1");
    b.add_fn(fetch, Vec::new(), vec![body], true, pure);
    b.build()
}

// `pub fn apply(f: Int, x: Int) -> Int { f(x) }`
fn apply_module(pure: bool) -> HirModule {
    let mut b = Builder::new();
    let apply = b.def("apply", DefKind::Function, false);
    let (f, pf) = b.param("f");
    let (x, px) = b.param("x");
    let arg = b.var(x);
    let body = b.call_def(f, vec![arg]);
    b.add_fn(apply, vec![pf, px], vec![body], false, pure);
    b.build()
}

fn check_for(module: &HirModule) -> Vec<Diagnostic> {
    let report = analyze(module);
    check(module, &report)
}

#[test]
fn arithmetic_function_is_pure() {
    let report = analyze(&double_module(false));
    assert_eq!(find(&report, "double").purity, Purity::Pure);
    assert_eq!(report.unresolved_count(), 0);
}

#[test]
fn println_is_a_boundary_effect() {
    let report = analyze(&shout_module(false));
    let shout = find(&report, "shout");
    assert_eq!(shout.purity, Purity::Effectful);
    assert_eq!(shout.source(), Some(EffectSource::Boundary));
}

// from python import os
// pub fn cwd() -> String { os.getcwd() }
#[test]
fn ffi_call_is_a_boundary_effect() {
    let mut b = Builder::new();
    let os = b.python_import("os");
    let cwd = b.def("cwd", DefKind::Function, false);
    let body = b.method_call(os, "getcwd", Vec::new());
    b.add_fn(cwd, Vec::new(), vec![body], false, false);
    let report = analyze(&b.build());
    assert_eq!(find(&report, "cwd").source(), Some(EffectSource::Boundary));
}

// from python import sys
// pub fn platform() -> String { sys.platform }
#[test]
fn ffi_attribute_read_is_a_boundary_effect() {
    let mut b = Builder::new();
    let sys = b.python_import("sys");
    let platform = b.def("platform", DefKind::Function, false);
    let r = b.var(sys);
    let body = b.field(r, "platform");
    b.add_fn(platform, Vec::new(), vec![body], false, false);
    let report = analyze(&b.build());
    assert_eq!(find(&report, "platform").source(), Some(EffectSource::Boundary));
}

// from python import os
// pub fn cwd() { let c = try os.getcwd()
//   c }
#[test]
fn try_marks_a_boundary_crossing() {
    let mut b = Builder::new();
    let os = b.python_import("os");
    let cwd = b.def("cwd", DefKind::Function, false);
    let c = b.def("c", DefKind::LocalBinding, false);
    let inner = b.method_call(os, "getcwd", Vec::new());
    let span = b.span();
    let tried = HirExpr::Try { expr: Box::new(inner), span };
    let bind = b.let_(c, tried, false);
    let result = b.var(c);
    b.add_fn(cwd, Vec::new(), vec![bind, result], false, false);
    let report = analyze(&b.build());
    assert_eq!(find(&report, "cwd").source(), Some(EffectSource::Boundary));
}

#[test]
fn async_function_is_effectful() {
    let report = analyze(&fetch_module(false));
    assert_eq!(find(&report, "fetch").source(), Some(EffectSource::Async));
}

#[test]
fn effects_propagate_through_the_call_graph() {
    let report = analyze(&chain_module(false));
    assert_eq!(find(&report, "leaf").source(), Some(EffectSource::Boundary));
    assert_eq!(find(&report, "middle").source(), Some(EffectSource::Propagated));
    assert_eq!(find(&report, "top").source(), Some(EffectSource::Propagated));
}

// fn ping(n: Int) -> Int { pong(n) }
// fn pong(n: Int) -> Int { ping(n) }
// pub fn start(n: Int) -> Int { ping(n) }
#[test]
fn mutual_recursion_reaches_a_fixpoint() {
    let mut b = Builder::new();
    let ping = b.def("ping", DefKind::Function, false);
    let pong = b.def("pong", DefKind::Function, false);
    let start = b.def("start", DefKind::Function, false);
    for (f, g) in [(ping, pong), (pong, ping), (start, ping)] {
        let (n, pn) = b.param("n");
        let arg = b.var(n);
        let body = b.call_def(g, vec![arg]);
        b.add_fn(f, vec![pn], vec![body], false, false);
    }
    let report = analyze(&b.build());
    assert_eq!(report.effectful_count(), 0);
    assert_eq!(report.pure_count(), 3);
}

// pub fn total(n: Int) -> Int {
//   let mut acc = 0
//   acc = acc + n
//   acc
// }
#[test]
fn local_mutation_is_not_an_effect() {
    let mut b = Builder::new();
    let total = b.def("total", DefKind::Function, false);
    let (n, pn) = b.param("n");
    let acc = b.def("acc", DefKind::LocalBinding, true);
    let zero = b.int_lit("0");
    let init = b.let_(acc, zero, true);
    let lhs = b.var(acc);
    let rhs = b.var(n);
    let span = b.span();
    let sum = HirExpr::BinaryOp { op: BinOp::Add, lhs: Box::new(lhs), rhs: Box::new(rhs), span };
    let span = b.span();
    let assign = HirExpr::Assign { target: acc, value: Box::new(sum), span };
    let result = b.var(acc);
    b.add_fn(total, vec![pn], vec![init, assign, result], false, false);
    let report = analyze(&b.build());
    assert_eq!(find(&report, "total").purity, Purity::Pure);
}

#[test]
fn applying_a_parameter_is_higher_order_and_assumed_effectful() {
    let report = analyze(&apply_module(false));
    let apply = find(&report, "apply");
    assert_eq!(apply.purity, Purity::Effectful);
    assert_eq!(apply.source(), Some(EffectSource::Unresolved));
    assert_eq!(apply.unresolved.len(), 1);
    assert_eq!(apply.unresolved[0].kind, UnresolvedCallKind::ParameterApplied);
    assert_eq!(report.higher_order_count(), 1);
}

// from python import os
// pub fn probe(f: Int) -> String {
//   let ignored = f(1)
//   os.getcwd()
// }
#[test]
fn a_proven_effect_outranks_an_assumed_one() {
    // The unresolved call comes first in source order, but the boundary
    // crossing is the better explanation, so it wins.
    let mut b = Builder::new();
    let os = b.python_import("os");
    let probe = b.def("probe", DefKind::Function, false);
    let (f, pf) = b.param("f");
    let ignored = b.def("ignored", DefKind::LocalBinding, false);
    let one = b.int_lit("1");
    let applied = b.call_def(f, vec![one]);
    let bind = b.let_(ignored, applied, false);
    let crossing = b.method_call(os, "getcwd", Vec::new());
    b.add_fn(probe, vec![pf], vec![bind, crossing], false, false);
    let report = analyze(&b.build());
    let probe = find(&report, "probe");
    assert_eq!(probe.source(), Some(EffectSource::Boundary));
    assert_eq!(probe.unresolved.len(), 1);
}

#[test]
fn effect_path_reaches_the_boundary_through_the_call_graph() {
    let report = analyze(&chain_module(false));
    let top = find(&report, "top");
    let path = report.effect_path(top.def_id);

    let names: Vec<&str> = path.iter().map(|step| step.name.as_str()).collect();
    assert_eq!(names, ["top", "middle", "leaf"]);
    assert_eq!(path[0].callee_name.as_deref(), Some("middle"));
    assert_eq!(path[2].origin.source, EffectSource::Boundary);
}

// fn ping(n: Int) -> Int {
//   println("p")
//   pong(n)
// }
// fn pong(n: Int) -> Int { ping(n) }
#[test]
fn effect_path_terminates_on_recursive_cycles() {
    let mut b = Builder::new();
    let ping = b.def("ping", DefKind::Function, false);
    let pong = b.def("pong", DefKind::Function, false);
    let (n, pn) = b.param("n");
    let print = b.println("p");
    let arg = b.var(n);
    let call = b.call_def(pong, vec![arg]);
    b.add_fn(ping, vec![pn], vec![print, call], false, false);
    let (m, pm) = b.param("n");
    let arg = b.var(m);
    let call = b.call_def(ping, vec![arg]);
    b.add_fn(pong, vec![pm], vec![call], false, false);
    let report = analyze(&b.build());
    let pong = find(&report, "pong");
    assert!(!report.effect_path(pong.def_id).is_empty());
}

// pub fn build() { let f = fn(x: Int) { println("side") }
//   f(1) }
#[test]
fn lambda_effects_are_attributed_to_the_enclosing_function() {
    let mut b = Builder::new();
    let build = b.def("build", DefKind::Function, false);
    let f = b.def("f", DefKind::LocalBinding, false);
    let (_, px) = b.param("x");
    let print = b.println("side");
    let body_span = b.span();
    let span = b.span();
    let lambda = HirExpr::Lambda {
        params: vec![px],
        return_type: None,
        body: Box::new(HirExpr::Block { exprs: vec![print], span: body_span }),
        span,
    };
    let bind = b.let_(f, lambda, false);
    let one = b.int_lit("1");
    let call = b.call_def(f, vec![one]);
    b.add_fn(build, Vec::new(), vec![bind, call], false, false);
    let report = analyze(&b.build());
    let build = find(&report, "build");
    assert_eq!(build.source(), Some(EffectSource::Boundary));
}

// from python import pathlib
// pub fn check(path: String) -> Bool {
//   let p = pathlib.Path(path)
//   p.exists()
// }
#[test]
fn method_call_on_a_local_needs_type_information() {
    let mut b = Builder::new();
    let pathlib = b.python_import("pathlib");
    let check_fn = b.def("check", DefKind::Function, false);
    let (path, ppath) = b.param("path");
    let p = b.def("p", DefKind::LocalBinding, false);
    let arg = b.var(path);
    let made = b.method_call(pathlib, "Path", vec![arg]);
    let bind = b.let_(p, made, false);
    let exists = b.method_call(p, "exists", Vec::new());
    b.add_fn(check_fn, vec![ppath], vec![bind, exists], false, false);
    let report = analyze(&b.build());
    let check = find(&report, "check");
    assert_eq!(check.source(), Some(EffectSource::Boundary));
    assert!(
        check.unresolved.iter().any(|c| c.kind == UnresolvedCallKind::ReceiverUntyped),
        "expected a receiver-untyped call site: {:?}",
        check.unresolved
    );
    assert_eq!(report.higher_order_count(), 0);
}

// ── `pure` declarations ─────────────────────────────────────────

#[test]
fn a_truthful_pure_declaration_is_accepted() {
    assert!(check_for(&double_module(true)).is_empty());
}

#[test]
fn a_pure_function_reaching_the_boundary_is_rejected() {
    let diagnostics = check_for(&shout_module(true));
    assert_eq!(diagnostics.len(), 1);
    assert_eq!(diagnostics[0].code, Some(DiagnosticCode::E0154));
}

#[test]
fn the_diagnostic_names_every_hop_to_the_effect() {
    let diagnostics = check_for(&chain_module(true));
    assert_eq!(diagnostics.len(), 1);
    // One label for the `pure` keyword, plus one per hop: top, middle, leaf.
    assert_eq!(diagnostics[0].labels.len(), 4);
}

#[test]
fn pure_and_async_together_are_rejected() {
    let diagnostics = check_for(&fetch_module(true));
    assert_eq!(diagnostics.len(), 1);
    assert_eq!(diagnostics[0].code, Some(DiagnosticCode::E0155));
}

// `pub async pure fn fetch() -> Int { 1 }`: the order of the modifiers is
// gone once the function is resolved, so the module is the same.
#[test]
fn modifier_order_does_not_change_the_verdict() {
    let diagnostics = check_for(&fetch_module(true));
    assert_eq!(diagnostics.len(), 1);
    assert_eq!(diagnostics[0].code, Some(DiagnosticCode::E0155));
}

#[test]
fn an_unresolvable_call_refutes_a_pure_declaration() {
    let diagnostics = check_for(&apply_module(true));
    assert_eq!(diagnostics.len(), 1);
    assert_eq!(diagnostics[0].code, Some(DiagnosticCode::E0154));
    assert!(
        diagnostics[0].notes.iter().any(|note| note.contains("cannot resolve")),
        "expected a note explaining the assumption: {:?}",
        diagnostics[0].notes
    );
}

#[test]
fn an_undeclared_effectful_function_is_not_an_error() {
    assert!(check_for(&shout_module(false)).is_empty());
}

// ── Further cases ───────────────────────────────────────────────

#[test]
fn step_labels_name_the_functions_along_the_path() {
    let report = analyze(&chain_module(false));
    let top = find(&report, "top");
    let path = report.effect_path(top.def_id);
    let labels: Vec<String> = path.iter().map(|s| s.label()).collect();
    assert_eq!(
        labels,
        ["`top` calls `middle` here", "`middle` calls `leaf` here", "this crosses the Python boundary"]
    );
}

#[test]
fn async_step_label_names_the_function() {
    let report = analyze(&fetch_module(false));
    let fetch = find(&report, "fetch");
    let path = report.effect_path(fetch.def_id);
    assert_eq!(path.len(), 1);
    assert_eq!(path[0].label(), "`fetch` is async, which is an effect");
}

#[test]
fn unresolved_step_label_explains_the_assumption() {
    let report = analyze(&apply_module(false));
    let apply = find(&report, "apply");
    let path = report.effect_path(apply.def_id);
    assert_eq!(path.len(), 1);
    assert_eq!(path[0].label(), "this call cannot be resolved, so it counts as an effect");
}

#[test]
fn effect_path_of_a_pure_or_unknown_function_is_empty() {
    let report = analyze(&double_module(false));
    let double = find(&report, "double");
    assert!(report.effect_path(double.def_id).is_empty());
    assert!(report.effect_path(999).is_empty());
    assert_eq!(report.purity_of(999), None);
    assert_eq!(report.purity_of(double.def_id), Some(Purity::Pure));
}

#[test]
fn counts_cover_every_function() {
    let report = analyze(&chain_module(false));
    assert_eq!(report.pure_count(), 0);
    assert_eq!(report.effectful_count(), 3);
    assert_eq!(report.pure_count() + report.effectful_count(), report.functions.len());
}

#[test]
fn a_caller_of_an_effectful_function_blames_the_call_site() {
    let module = chain_module(false);
    let report = analyze(&module);
    let middle = find(&report, "middle");
    let origin = middle.origin.expect("middle is effectful");
    let leaf = find(&report, "leaf");
    assert_eq!(origin.callee, Some(leaf.def_id));
    // The blamed span is that of the call `leaf()` in `middle`'s body.
    match &module.functions[1].body {
        HirExpr::Block { exprs, .. } => match &exprs[0] {
            HirExpr::Call { span, .. } => assert_eq!(origin.span, *span),
            _ => panic!("expected a call"),
        },
        _ => panic!("expected a block"),
    }
}

#[test]
fn impure_diagnostic_has_its_messages_and_labels() {
    let diagnostics = check_for(&chain_module(true));
    let d = &diagnostics[0];
    assert_eq!(d.message, "`top` is declared `pure` but reaches an effect");
    assert_eq!(d.labels[0].message, "declared pure here");
    assert_eq!(d.labels[0].style, LabelStyle::Primary);
    assert_eq!(d.labels[1].message, "`top` calls `middle` here");
    assert_eq!(d.labels[3].style, LabelStyle::Secondary);
    assert_eq!(d.hints, ["drop `pure` from `top`, or move the effect into its caller"]);
    assert!(d.notes.is_empty());
}

#[test]
fn pure_async_diagnostic_has_its_messages() {
    let diagnostics = check_for(&fetch_module(true));
    let d = &diagnostics[0];
    assert_eq!(d.message, "`fetch` is both `pure` and `async`");
    assert_eq!(d.labels.len(), 1);
    assert_eq!(d.hints, ["drop `pure` from `fetch`"]);
    assert_eq!(d.notes, ["an `async fn` returns `Task(T)`, which is itself an effect"]);
}

#[test]
fn computed_callee_is_unresolved() {
    // pub fn twice() { (fn(x: Int) { x })(1) }
    let mut b = Builder::new();
    let twice = b.def("twice", DefKind::Function, false);
    let (x, px) = b.param("x");
    let body = b.var(x);
    let span = b.span();
    let lambda = HirExpr::Lambda { params: vec![px], return_type: None, body: Box::new(body), span };
    let one = b.int_lit("1");
    let call = b.call(lambda, vec![one]);
    b.add_fn(twice, Vec::new(), vec![call], false, false);
    let report = analyze(&b.build());
    let twice = find(&report, "twice");
    assert_eq!(twice.unresolved.len(), 1);
    assert_eq!(twice.unresolved[0].kind, UnresolvedCallKind::ComputedCallee);
    assert!(!twice.unresolved[0].kind.is_higher_order());
    assert_eq!(report.higher_order_count(), 0);
    assert_eq!(report.unresolved_count(), 1);
}
