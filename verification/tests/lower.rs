//! Name resolution over hand-built syntax trees. Each tree is what the
//! front end makes of the source quoted above it.

use asatsuyu::ast::{
    CustomType, Definition, Expr, Field, FnDef, Ident, Import, ImportSource, Literal, MatchArm, Module, Param,
    Pattern, TypeBody, TypeExpr, Variant,
};
use asatsuyu::hir::{BinOp, DefKind, HirExpr, HirImportKind, HirPattern, LiteralKind, UnOp, Visibility};
use asatsuyu::lower::{lower_to_hir, HirLowerCtx};
use asatsuyu::scope::HirLowerResult;
use asatsuyu::span::{FileId, Span};

/// Hands out distinct, non-empty spans in source order.
struct B {
    next: u32,
}

impl B {
    fn new() -> B {
        B { next: 0 }
    }

    fn sp(&mut self) -> Span {
        self.next += 10;
        Span::new(FileId(0), self.next, self.next + 5)
    }

    fn id(&mut self, name: &str) -> Ident {
        Ident { name: name.to_string(), span: self.sp() }
    }

    fn lit(&mut self, kind: LiteralKind, value: &str) -> Literal {
        Literal { kind, value: value.to_string(), span: self.sp() }
    }

    fn int_e(&mut self, v: &str) -> Expr {
        Expr::Literal(self.lit(LiteralKind::Int, v))
    }

    fn str_e(&mut self, v: &str) -> Expr {
        Expr::Literal(self.lit(LiteralKind::String, v))
    }

    fn var(&mut self, name: &str) -> Expr {
        Expr::Variable(self.id(name))
    }

    fn block(&mut self, exprs: Vec<Expr>) -> Expr {
        Expr::Block { exprs, span: self.sp() }
    }

    fn call(&mut self, func: Expr, args: Vec<Expr>) -> Expr {
        Expr::Call { func: Box::new(func), args, span: self.sp() }
    }

    fn binary(&mut self, op: BinOp, lhs: Expr, rhs: Expr) -> Expr {
        Expr::BinaryOp { op, lhs: Box::new(lhs), rhs: Box::new(rhs), span: self.sp() }
    }

    fn pipe(&mut self, left: Expr, right: Expr) -> Expr {
        Expr::Pipeline { left: Box::new(left), right: Box::new(right), span: self.sp() }
    }

    fn ty(&mut self, name: &str) -> TypeExpr {
        TypeExpr { name: self.id(name), args: Vec::new(), span: self.sp() }
    }

    fn param(&mut self, name: &str, ty: &str) -> Param {
        let n = self.id(name);
        let t = self.ty(ty);
        Param { name: n, type_ann: Some(t), span: self.sp() }
    }

    fn func(&mut self, public: bool, name: &str, params: Vec<Param>, ret: Option<&str>, body: Vec<Expr>) -> Definition {
        let n = self.id(name);
        let return_type = ret.map(|r| self.ty(r));
        let body = self.block(body);
        Definition::Function(FnDef {
            name: n,
            visibility: if public { Visibility::Public } else { Visibility::Private },
            is_async: false,
            pure_span: None,
            params,
            return_type,
            body,
            span: self.sp(),
        })
    }

    /// `type <name>(<params>) { <variant>(<field types>) ... }`
    fn adt(&mut self, name: &str, params: &[&str], variants: &[(&str, &[&str])]) -> Definition {
        let n = self.id(name);
        let type_params = params.iter().map(|p| self.id(p)).collect();
        let mut vs = Vec::new();
        for (v, fields) in variants {
            let vn = self.id(v);
            let fs = fields
                .iter()
                .map(|f| {
                    let t = self.ty(f);
                    Field { label: None, type_expr: t, span: self.sp() }
                })
                .collect();
            vs.push(Variant { name: vn, fields: fs, span: self.sp() });
        }
        Definition::CustomType(CustomType {
            name: n,
            visibility: Visibility::Private,
            type_params,
            body: TypeBody::Variants(vs),
            span: self.sp(),
        })
    }

    fn import(&mut self, path: &[&str], alias: Option<&str>) -> Import {
        let segs = path.iter().map(|s| self.id(s)).collect();
        let alias = alias.map(|a| self.id(a));
        Import { source: ImportSource::Module(segs), alias, span: self.sp() }
    }

    fn python_import(&mut self, module: &str, alias: Option<&str>) -> Import {
        let m = self.id(module);
        let alias = alias.map(|a| self.id(a));
        Import { source: ImportSource::Python(m), alias, span: self.sp() }
    }

    fn arm(&mut self, pattern: Pattern, body: Expr) -> MatchArm {
        MatchArm { pattern, guard: None, body, span: self.sp() }
    }

    fn match_e(&mut self, subject: Expr, arms: Vec<MatchArm>) -> Expr {
        Expr::Match { subject: Box::new(subject), arms, span: self.sp() }
    }

    fn module(&mut self, imports: Vec<Import>, definitions: Vec<Definition>) -> Module {
        Module { imports, definitions, span: Span::new(FileId(0), 0, self.next + 10) }
    }
}

fn has_message(r: &HirLowerResult, text: &str) -> bool {
    r.diagnostics.iter().any(|d| d.message.contains(text))
}

fn body_exprs(r: &HirLowerResult, f: usize) -> &Vec<HirExpr> {
    match &r.module.functions[f].body {
        HirExpr::Block { exprs, .. } => exprs,
        other => panic!("expected Block, got {other:?}"),
    }
}

fn name_of(r: &HirLowerResult, d: usize) -> &str {
    r.module.symbol_table.get(d).name.as_str()
}

/// `fn <name>(x: Int) -> Int { match x { <arms> } }`, with the definitions
/// before it.
fn match_module(b: &mut B, before: Vec<Definition>, param: &str, arms: Vec<MatchArm>) -> Module {
    let p = b.param(param, "Int");
    let subject = b.var(param);
    let m = b.match_e(subject, arms);
    let f = b.func(false, "f", vec![p], Some("Int"), vec![m]);
    let mut defs = before;
    defs.push(f);
    b.module(Vec::new(), defs)
}

fn arms_of(r: &HirLowerResult, f: usize) -> &Vec<asatsuyu::hir::HirMatchArm> {
    match &body_exprs(r, f)[0] {
        HirExpr::Match { arms, .. } => arms,
        other => panic!("expected Match, got {other:?}"),
    }
}

// ── The original scenarios ──────────────────────────────────────

#[test]
fn lower_empty_module() {
    // ""
    let mut b = B::new();
    let m = b.module(Vec::new(), Vec::new());
    let result = lower_to_hir(&m);
    assert!(!result.has_errors());
    assert!(result.module.functions.is_empty());
    assert_eq!(result.module.symbol_table.len(), 4);
}

#[test]
fn lower_minimal_function() {
    // "pub fn main() { 42 }"
    let mut b = B::new();
    let lit = b.int_e("42");
    let f = b.func(true, "main", Vec::new(), None, vec![lit]);
    let m = b.module(Vec::new(), vec![f]);
    let result = lower_to_hir(&m);
    assert!(!result.has_errors(), "diagnostics: {:?}", result.diagnostics);
    assert_eq!(result.module.functions.len(), 1);
    let f = &result.module.functions[0];
    assert_eq!(name_of(&result, f.def_id), "main");
    assert_eq!(result.module.symbol_table.get(f.def_id).kind, DefKind::Function);
    assert_eq!(f.visibility, Visibility::Public);
    assert!(f.params.is_empty());
    let exprs = body_exprs(&result, 0);
    assert_eq!(exprs.len(), 1);
    match &exprs[0] {
        HirExpr::Literal(lit) => {
            assert_eq!(lit.kind, LiteralKind::Int);
            assert_eq!(lit.value.as_str(), "42");
        },
        other => panic!("expected Literal, got {other:?}"),
    }
}

#[test]
fn lower_private_function() {
    // "fn main() { 42 }"
    let mut b = B::new();
    let lit = b.int_e("42");
    let f = b.func(false, "main", Vec::new(), None, vec![lit]);
    let m = b.module(Vec::new(), vec![f]);
    let result = lower_to_hir(&m);
    assert!(!result.has_errors());
    assert_eq!(result.module.functions[0].visibility, Visibility::Private);
}

#[test]
fn lower_parameter_reference() {
    // "fn id(x: Int) -> Int { x }"
    let mut b = B::new();
    let p = b.param("x", "Int");
    let x = b.var("x");
    let f = b.func(false, "id", vec![p], Some("Int"), vec![x]);
    let m = b.module(Vec::new(), vec![f]);
    let result = lower_to_hir(&m);
    assert!(!result.has_errors(), "diagnostics: {:?}", result.diagnostics);
    let f = &result.module.functions[0];
    assert_eq!(f.params.len(), 1);
    let param_def_id = f.params[0].def_id;
    assert_eq!(name_of(&result, param_def_id), "x");
    assert_eq!(result.module.symbol_table.get(param_def_id).kind, DefKind::Parameter);
    match &body_exprs(&result, 0)[0] {
        HirExpr::Var(def_id, _) => assert_eq!(*def_id, param_def_id),
        other => panic!("expected Var, got {other:?}"),
    }
}

#[test]
fn lower_multiple_params() {
    // "fn add(x: Int, y: Int) { x }"
    let mut b = B::new();
    let px = b.param("x", "Int");
    let py = b.param("y", "Int");
    let x = b.var("x");
    let f = b.func(false, "add", vec![px, py], None, vec![x]);
    let m = b.module(Vec::new(), vec![f]);
    let result = lower_to_hir(&m);
    assert!(!result.has_errors());
    let f = &result.module.functions[0];
    assert_eq!(f.params.len(), 2);
    assert_eq!(f.params[0].type_ann.as_ref().unwrap().name.as_str(), "Int");
    assert_eq!(f.params[1].type_ann.as_ref().unwrap().name.as_str(), "Int");
    match &body_exprs(&result, 0)[0] {
        HirExpr::Var(def_id, _) => assert_eq!(*def_id, f.params[0].def_id),
        other => panic!("expected Var, got {other:?}"),
    }
}

#[test]
fn lower_return_type() {
    // "fn id(x: Int) -> Int { x }"
    let mut b = B::new();
    let p = b.param("x", "Int");
    let x = b.var("x");
    let f = b.func(false, "id", vec![p], Some("Int"), vec![x]);
    let m = b.module(Vec::new(), vec![f]);
    let result = lower_to_hir(&m);
    assert!(!result.has_errors());
    assert_eq!(result.module.functions[0].return_type.as_ref().unwrap().name.as_str(), "Int");
}

#[test]
fn lower_cross_function_reference() {
    // "fn a() { b }\nfn b() { 1 }"
    let mut b = B::new();
    let vb = b.var("b");
    let fa = b.func(false, "a", Vec::new(), None, vec![vb]);
    let one = b.int_e("1");
    let fb = b.func(false, "b", Vec::new(), None, vec![one]);
    let m = b.module(Vec::new(), vec![fa, fb]);
    let result = lower_to_hir(&m);
    assert!(!result.has_errors(), "diagnostics: {:?}", result.diagnostics);
    assert_eq!(result.module.functions.len(), 2);
    let b_fn_def_id = result.module.functions[1].def_id;
    match &body_exprs(&result, 0)[0] {
        HirExpr::Var(def_id, _) => assert_eq!(*def_id, b_fn_def_id),
        other => panic!("expected Var, got {other:?}"),
    }
}

#[test]
fn lower_unresolved_name() {
    // "fn f() { unknown }"
    let mut b = B::new();
    let u = b.var("unknown");
    let f = b.func(false, "f", Vec::new(), None, vec![u]);
    let m = b.module(Vec::new(), vec![f]);
    let result = lower_to_hir(&m);
    assert!(result.has_errors());
    assert!(has_message(&result, "unresolved name `unknown`"), "{:?}", result.diagnostics);
    assert_eq!(result.module.functions.len(), 1);
}

#[test]
fn duplicate_parameter_binding_diagnostic() {
    // "fn f(x: Int, x: Int) { x }"
    let mut b = B::new();
    let p1 = b.param("x", "Int");
    let p2 = b.param("x", "Int");
    let x = b.var("x");
    let f = b.func(false, "f", vec![p1, p2], None, vec![x]);
    let m = b.module(Vec::new(), vec![f]);
    let result = lower_to_hir(&m);
    assert!(result.has_errors());
    assert!(has_message(&result, "duplicate binding `x`"), "{:?}", result.diagnostics);
}

#[test]
fn lower_string_literal() {
    // r#"fn greet() { "hello" }"#
    let mut b = B::new();
    let s = b.str_e("\"hello\"");
    let f = b.func(false, "greet", Vec::new(), None, vec![s]);
    let m = b.module(Vec::new(), vec![f]);
    let result = lower_to_hir(&m);
    assert!(!result.has_errors());
    match &body_exprs(&result, 0)[0] {
        HirExpr::Literal(lit) => {
            assert_eq!(lit.kind, LiteralKind::String);
            assert_eq!(lit.value.as_str(), "\"hello\"");
        },
        other => panic!("expected Literal, got {other:?}"),
    }
}

#[test]
fn all_nodes_have_span() {
    // "pub fn add(x: Int) -> Int { x }"
    let mut b = B::new();
    let p = b.param("x", "Int");
    let x = b.var("x");
    let f = b.func(true, "add", vec![p], Some("Int"), vec![x]);
    let m = b.module(Vec::new(), vec![f]);
    let result = lower_to_hir(&m);
    assert!(!result.has_errors());
    let f = &result.module.functions[0];
    assert!(!result.module.span.is_empty());
    assert!(!f.span.is_empty());
    assert!(!f.params[0].span.is_empty());
    assert!(!f.body.span().is_empty());
}

#[test]
fn hir_dump() {
    // "pub fn main() { 42 }"
    let mut b = B::new();
    let lit = b.int_e("42");
    let f = b.func(true, "main", Vec::new(), None, vec![lit]);
    let m = b.module(Vec::new(), vec![f]);
    let result = lower_to_hir(&m);
    let dump = format!("{:#?}", result.module);
    assert!(dump.contains("main"), "dump should contain function name:\n{dump}");
    assert!(dump.contains("Function"), "dump should contain DefKind::Function:\n{dump}");
    assert!(dump.contains("Int"), "dump should contain literal kind:\n{dump}");
}

#[test]
fn hir_dump_shows_mutable_binding_and_assign() {
    // "pub fn main() { let mut x = 0\n x = 1 }"
    let mut b = B::new();
    let name = b.id("x");
    let zero = b.int_e("0");
    let let_e = Expr::Let { name, is_mutable: true, value: Box::new(zero), span: b.sp() };
    let target = b.id("x");
    let one = b.int_e("1");
    let assign = Expr::Assign { target, value: Box::new(one), span: b.sp() };
    let f = b.func(true, "main", Vec::new(), None, vec![let_e, assign]);
    let m = b.module(Vec::new(), vec![f]);
    let result = lower_to_hir(&m);
    assert!(!result.has_errors(), "unexpected diagnostics: {:?}", result.diagnostics);
    let dump = format!("{:#?}", result.module);
    assert!(dump.contains("is_mutable: true"), "dump should show mutable binding:\n{dump}");
    assert!(dump.contains("Assign"), "dump should show Assign node:\n{dump}");
    let binding = result
        .module
        .symbol_table
        .iter()
        .into_iter()
        .find(|(_, def)| def.name.as_str() == "x")
        .map(|(_, def)| def)
        .expect("expected local binding x");
    assert!(binding.is_mutable, "symbol table should record mutable binding");
}

#[test]
fn hir_propagates_async_fn_and_await() {
    // "fn inner() -> Int { 1 }\npub async fn fetch() -> Int { await inner() }"
    let mut b = B::new();
    let one = b.int_e("1");
    let inner = b.func(false, "inner", Vec::new(), Some("Int"), vec![one]);
    let callee = b.var("inner");
    let c = b.call(callee, Vec::new());
    let aw = Expr::Await { expr: Box::new(c), span: b.sp() };
    let fetch = match b.func(true, "fetch", Vec::new(), Some("Int"), vec![aw]) {
        Definition::Function(f) => Definition::Function(FnDef { is_async: true, ..f }),
        other => other,
    };
    let m = b.module(Vec::new(), vec![inner, fetch]);
    let result = lower_to_hir(&m);
    assert!(!result.has_errors(), "diagnostics: {:?}", result.diagnostics);
    let func = &result.module.functions[1];
    assert!(func.is_async, "HIR function should preserve async marker");
    match &body_exprs(&result, 1)[0] {
        HirExpr::Await { expr, .. } => {
            assert!(matches!(expr.as_ref(), HirExpr::Call { .. }), "await should wrap call in HIR");
        },
        other => panic!("expected Await, got {other:?}"),
    }
}

#[test]
fn def_id_uniqueness() {
    // "fn f(x: Int) { x }\nfn g(x: Int) { x }"
    let mut b = B::new();
    let p1 = b.param("x", "Int");
    let x1 = b.var("x");
    let f = b.func(false, "f", vec![p1], None, vec![x1]);
    let p2 = b.param("x", "Int");
    let x2 = b.var("x");
    let g = b.func(false, "g", vec![p2], None, vec![x2]);
    let m = b.module(Vec::new(), vec![f, g]);
    let result = lower_to_hir(&m);
    assert!(!result.has_errors());
    let f_param = result.module.functions[0].params[0].def_id;
    let g_param = result.module.functions[1].params[0].def_id;
    assert_ne!(f_param, g_param);
    assert_ne!(result.module.functions[0].def_id, result.module.functions[1].def_id);
}

#[test]
fn scope_parameter_shadows_function() {
    // "fn f(f: Int) -> Int { f }"
    let mut b = B::new();
    let p = b.param("f", "Int");
    let v = b.var("f");
    let f = b.func(false, "f", vec![p], Some("Int"), vec![v]);
    let m = b.module(Vec::new(), vec![f]);
    let result = lower_to_hir(&m);
    assert!(!result.has_errors(), "diagnostics: {:?}", result.diagnostics);
    let param_def_id = result.module.functions[0].params[0].def_id;
    match &body_exprs(&result, 0)[0] {
        HirExpr::Var(def_id, _) => assert_eq!(*def_id, param_def_id),
        other => panic!("expected Var, got {other:?}"),
    }
}

#[test]
fn lower_call_expr() {
    // "fn f(x: Int) -> Int { f(1) }"
    let mut b = B::new();
    let p = b.param("x", "Int");
    let callee = b.var("f");
    let one = b.int_e("1");
    let c = b.call(callee, vec![one]);
    let f = b.func(false, "f", vec![p], Some("Int"), vec![c]);
    let m = b.module(Vec::new(), vec![f]);
    let result = lower_to_hir(&m);
    assert!(!result.has_errors(), "diagnostics: {:?}", result.diagnostics);
    match &body_exprs(&result, 0)[0] {
        HirExpr::Call { func: callee, args, .. } => {
            assert!(matches!(callee.as_ref(), HirExpr::Var(..)));
            assert_eq!(args.len(), 1);
        },
        other => panic!("expected Call, got {other:?}"),
    }
}

#[test]
fn lower_binary_op() {
    // "fn f() -> Int { 1 + 2 }"
    let mut b = B::new();
    let one = b.int_e("1");
    let two = b.int_e("2");
    let add = b.binary(BinOp::Add, one, two);
    let f = b.func(false, "f", Vec::new(), Some("Int"), vec![add]);
    let m = b.module(Vec::new(), vec![f]);
    let result = lower_to_hir(&m);
    assert!(!result.has_errors(), "diagnostics: {:?}", result.diagnostics);
    assert!(matches!(&body_exprs(&result, 0)[0], HirExpr::BinaryOp { .. }));
}

#[test]
fn lower_unary_op() {
    // "fn f(x: Int) -> Int { -x }"
    let mut b = B::new();
    let p = b.param("x", "Int");
    let x = b.var("x");
    let neg = Expr::UnaryOp { op: UnOp::Neg, expr: Box::new(x), span: b.sp() };
    let f = b.func(false, "f", vec![p], Some("Int"), vec![neg]);
    let m = b.module(Vec::new(), vec![f]);
    let result = lower_to_hir(&m);
    assert!(!result.has_errors(), "diagnostics: {:?}", result.diagnostics);
    assert!(matches!(&body_exprs(&result, 0)[0], HirExpr::UnaryOp { .. }));
}

#[test]
fn lower_if_expr() {
    // "fn f(x: Int) -> Int { if x { 1 } else { 2 } }"
    let mut b = B::new();
    let p = b.param("x", "Int");
    let c = b.var("x");
    let one = b.int_e("1");
    let then_b = b.block(vec![one]);
    let two = b.int_e("2");
    let else_b = b.block(vec![two]);
    let if_e = Expr::If {
        condition: Box::new(c),
        then_body: Box::new(then_b),
        else_body: Some(Box::new(else_b)),
        span: b.sp(),
    };
    let f = b.func(false, "f", vec![p], Some("Int"), vec![if_e]);
    let m = b.module(Vec::new(), vec![f]);
    let result = lower_to_hir(&m);
    assert!(!result.has_errors(), "diagnostics: {:?}", result.diagnostics);
    match &body_exprs(&result, 0)[0] {
        HirExpr::If { else_body, .. } => assert!(else_body.is_some()),
        other => panic!("expected If, got {other:?}"),
    }
}

#[test]
fn desugar_pipeline_bare() {
    // "fn f(x: Int) -> Int { x |> f }"
    let mut b = B::new();
    let p = b.param("x", "Int");
    let x = b.var("x");
    let g = b.var("f");
    let pipe = b.pipe(x, g);
    let f = b.func(false, "f", vec![p], Some("Int"), vec![pipe]);
    let m = b.module(Vec::new(), vec![f]);
    let result = lower_to_hir(&m);
    assert!(!result.has_errors(), "diagnostics: {:?}", result.diagnostics);
    match &body_exprs(&result, 0)[0] {
        HirExpr::Call { func: callee, args, .. } => {
            assert!(matches!(callee.as_ref(), HirExpr::Var(..)), "callee should be Var");
            assert_eq!(args.len(), 1);
            assert!(matches!(&args[0], HirExpr::Var(..)));
        },
        other => panic!("expected Call (desugared pipeline), got {other:?}"),
    }
}

#[test]
fn desugar_pipeline_with_args() {
    // "fn f(x: Int) -> Int { x |> f(1) }"
    let mut b = B::new();
    let p = b.param("x", "Int");
    let x = b.var("x");
    let callee = b.var("f");
    let one = b.int_e("1");
    let c = b.call(callee, vec![one]);
    let pipe = b.pipe(x, c);
    let f = b.func(false, "f", vec![p], Some("Int"), vec![pipe]);
    let m = b.module(Vec::new(), vec![f]);
    let result = lower_to_hir(&m);
    assert!(!result.has_errors(), "diagnostics: {:?}", result.diagnostics);
    match &body_exprs(&result, 0)[0] {
        HirExpr::Call { args, .. } => assert_eq!(args.len(), 2),
        other => panic!("expected Call (desugared pipeline), got {other:?}"),
    }
}

#[test]
fn desugar_pipeline_chain() {
    // "fn test(x: Int) -> Int { x |> f |> g }"
    let mut b = B::new();
    let p = b.param("x", "Int");
    let x = b.var("x");
    let vf = b.var("f");
    let inner = b.pipe(x, vf);
    let vg = b.var("g");
    let outer = b.pipe(inner, vg);
    let f = b.func(false, "test", vec![p], Some("Int"), vec![outer]);
    let m = b.module(Vec::new(), vec![f]);
    let result = lower_to_hir(&m);
    match &body_exprs(&result, 0)[0] {
        HirExpr::Call { func: outer_callee, args: outer_args, .. } => {
            assert!(matches!(outer_callee.as_ref(), HirExpr::Var(..)));
            assert_eq!(outer_args.len(), 1);
            match &outer_args[0] {
                HirExpr::Call { args: inner_args, .. } => assert_eq!(inner_args.len(), 1),
                other => panic!("expected inner Call, got {other:?}"),
            }
        },
        other => panic!("expected Call (desugared chain), got {other:?}"),
    }
}

#[test]
fn desugar_string_concat() {
    // "fn f() -> String { \"a\" <> \"b\" }"
    let mut b = B::new();
    let a = b.str_e("\"a\"");
    let bb = b.str_e("\"b\"");
    let cat = b.binary(BinOp::Concat, a, bb);
    let f = b.func(false, "f", Vec::new(), Some("String"), vec![cat]);
    let m = b.module(Vec::new(), vec![f]);
    let result = lower_to_hir(&m);
    assert!(!result.has_errors(), "diagnostics: {:?}", result.diagnostics);
    match &body_exprs(&result, 0)[0] {
        HirExpr::Call { func: callee, args, .. } => {
            if let HirExpr::Var(def_id, _) = callee.as_ref() {
                let data = result.module.symbol_table.get(*def_id);
                assert_eq!(data.name.as_str(), "string_concat");
                assert_eq!(data.kind, DefKind::Builtin);
            } else {
                panic!("expected Var callee, got {callee:?}");
            }
            assert_eq!(args.len(), 2);
        },
        other => panic!("expected Call (desugared string concat), got {other:?}"),
    }
}

#[test]
fn desugar_string_concat_chain() {
    // "fn f(b: String) -> String { \"a\" <> b <> \"c\" }"
    let mut b = B::new();
    let p = b.param("b", "String");
    let a = b.str_e("\"a\"");
    let vb = b.var("b");
    let first = b.binary(BinOp::Concat, a, vb);
    let c = b.str_e("\"c\"");
    let second = b.binary(BinOp::Concat, first, c);
    let f = b.func(false, "f", vec![p], Some("String"), vec![second]);
    let m = b.module(Vec::new(), vec![f]);
    let result = lower_to_hir(&m);
    assert!(!result.has_errors(), "diagnostics: {:?}", result.diagnostics);
    match &body_exprs(&result, 0)[0] {
        HirExpr::Call { args, .. } => {
            assert_eq!(args.len(), 2);
            assert!(matches!(&args[0], HirExpr::Call { .. }), "nested concat");
        },
        other => panic!("expected Call, got {other:?}"),
    }
}

#[test]
fn match_pattern_binding() {
    // "type Option(a) {\n  Some(a)\n  None\n}\n
    //  fn f(x: Int) -> Int {\n  match x {\n    0 -> 0\n    y -> y\n  }\n}"
    let mut b = B::new();
    let opt = b.adt("Option", &["a"], &[("Some", &["a"]), ("None", &[])]);
    let zero_p = Pattern::Literal(b.lit(LiteralKind::Int, "0"));
    let zero = b.int_e("0");
    let a1 = b.arm(zero_p, zero);
    let y_p = Pattern::Variable(b.id("y"));
    let y = b.var("y");
    let a2 = b.arm(y_p, y);
    let m = match_module(&mut b, vec![opt], "x", vec![a1, a2]);
    let result = lower_to_hir(&m);
    assert!(!result.has_errors(), "diagnostics: {:?}", result.diagnostics);
    let arms = arms_of(&result, 0);
    assert_eq!(arms.len(), 2);
    match (&arms[1].pattern, &arms[1].body) {
        (HirPattern::Variable(pat_id, _), HirExpr::Var(body_id, _)) => {
            assert_eq!(name_of(&result, *pat_id), "y");
            assert_eq!(result.module.symbol_table.get(*pat_id).kind, DefKind::LocalBinding);
            assert_eq!(body_id, pat_id);
        },
        other => panic!("expected a Variable pattern used in the body, got {other:?}"),
    }
}

#[test]
fn duplicate_pattern_binding_diagnostic() {
    // "fn f(xs: Int) { match xs { [x, ..x] -> x } }"
    let mut b = B::new();
    let x = Pattern::Variable(b.id("x"));
    let rest = b.id("x");
    let list = Pattern::List { elements: vec![x], rest: Some(rest), span: b.sp() };
    let body = b.var("x");
    let arm = b.arm(list, body);
    let m = match_module(&mut b, Vec::new(), "xs", vec![arm]);
    let result = lower_to_hir(&m);
    assert!(result.has_errors());
    assert!(has_message(&result, "duplicate binding `x`"), "{:?}", result.diagnostics);
}

#[test]
fn match_arm_scope_isolation() {
    // "fn f(x: Int) -> Int {\n  match x {\n    y -> y\n    y -> y\n  }\n}"
    let mut b = B::new();
    let p1 = Pattern::Variable(b.id("y"));
    let y1 = b.var("y");
    let a1 = b.arm(p1, y1);
    let p2 = Pattern::Variable(b.id("y"));
    let y2 = b.var("y");
    let a2 = b.arm(p2, y2);
    let m = match_module(&mut b, Vec::new(), "x", vec![a1, a2]);
    let result = lower_to_hir(&m);
    assert!(!result.has_errors(), "diagnostics: {:?}", result.diagnostics);
    let arms = arms_of(&result, 0);
    match (&arms[0].pattern, &arms[1].pattern) {
        (HirPattern::Variable(id1, _), HirPattern::Variable(id2, _)) => assert_ne!(id1, id2),
        other => panic!("expected two Variable patterns, got {other:?}"),
    }
}

#[test]
fn match_wildcard_pattern() {
    // "fn f(x: Int) -> Int {\n  match x {\n    _ -> 0\n  }\n}"
    let mut b = B::new();
    let w = Pattern::Wildcard(b.sp());
    let zero = b.int_e("0");
    let a = b.arm(w, zero);
    let m = match_module(&mut b, Vec::new(), "x", vec![a]);
    let result = lower_to_hir(&m);
    assert!(!result.has_errors(), "diagnostics: {:?}", result.diagnostics);
    assert!(matches!(&arms_of(&result, 0)[0].pattern, HirPattern::Wildcard(_)));
}

#[test]
fn match_literal_pattern() {
    // "fn f(x: Int) -> Int {\n  match x {\n    42 -> 1\n    _ -> 0\n  }\n}"
    let mut b = B::new();
    let l = Pattern::Literal(b.lit(LiteralKind::Int, "42"));
    let one = b.int_e("1");
    let a1 = b.arm(l, one);
    let w = Pattern::Wildcard(b.sp());
    let zero = b.int_e("0");
    let a2 = b.arm(w, zero);
    let m = match_module(&mut b, Vec::new(), "x", vec![a1, a2]);
    let result = lower_to_hir(&m);
    assert!(!result.has_errors(), "diagnostics: {:?}", result.diagnostics);
    assert!(matches!(&arms_of(&result, 0)[0].pattern, HirPattern::Literal(_)));
}

/// "type Option(a) {\n  Some(a)\n  None\n}\n
///  fn f(opt: Option) -> Int {\n  match opt {\n    Some(x) -> x\n    None -> 0\n  }\n}"
fn option_match(b: &mut B) -> Module {
    let opt = b.adt("Option", &["a"], &[("Some", &["a"]), ("None", &[])]);
    let some_name = b.id("Some");
    let x = Pattern::Variable(b.id("x"));
    let some = Pattern::Constructor { name: some_name, fields: vec![x], span: b.sp() };
    let vx = b.var("x");
    let a1 = b.arm(some, vx);
    let none_name = b.id("None");
    let none = Pattern::Constructor { name: none_name, fields: Vec::new(), span: b.sp() };
    let zero = b.int_e("0");
    let a2 = b.arm(none, zero);
    let p = b.param("opt", "Option");
    let subject = b.var("opt");
    let me = b.match_e(subject, vec![a1, a2]);
    let f = b.func(false, "f", vec![p], Some("Int"), vec![me]);
    b.module(Vec::new(), vec![opt, f])
}

#[test]
fn match_constructor_pattern() {
    let mut b = B::new();
    let m = option_match(&mut b);
    let result = lower_to_hir(&m);
    assert!(!result.has_errors(), "diagnostics: {:?}", result.diagnostics);
    match &arms_of(&result, 0)[0].pattern {
        HirPattern::Constructor { def_id, fields, .. } => {
            assert_eq!(name_of(&result, *def_id), "Some");
            assert_eq!(result.module.symbol_table.get(*def_id).kind, DefKind::Constructor);
            assert_eq!(fields.len(), 1);
            assert!(matches!(&fields[0], HirPattern::Variable(..)));
        },
        other => panic!("expected Constructor, got {other:?}"),
    }
}

#[test]
fn match_list_pattern() {
    // "fn f(items: List) -> Int {\n  match items {\n    [h, ..t] -> h\n    [] -> 0\n  }\n}"
    let mut b = B::new();
    let h = Pattern::Variable(b.id("h"));
    let t = b.id("t");
    let l1 = Pattern::List { elements: vec![h], rest: Some(t), span: b.sp() };
    let vh = b.var("h");
    let a1 = b.arm(l1, vh);
    let l2 = Pattern::List { elements: Vec::new(), rest: None, span: b.sp() };
    let zero = b.int_e("0");
    let a2 = b.arm(l2, zero);
    let p = b.param("items", "List");
    let subject = b.var("items");
    let me = b.match_e(subject, vec![a1, a2]);
    let f = b.func(false, "f", vec![p], Some("Int"), vec![me]);
    let m = b.module(Vec::new(), vec![f]);
    let result = lower_to_hir(&m);
    assert!(!result.has_errors(), "diagnostics: {:?}", result.diagnostics);
    let arms = arms_of(&result, 0);
    match &arms[0].pattern {
        HirPattern::List { elements, rest, .. } => {
            assert_eq!(elements.len(), 1);
            assert!(rest.is_some(), "rest binding should exist");
            match &arms[0].body {
                HirExpr::Var(def_id, _) => assert_eq!(name_of(&result, *def_id), "h"),
                other => panic!("expected Var, got {other:?}"),
            }
        },
        other => panic!("expected List, got {other:?}"),
    }
}

#[test]
fn duplicate_function_diagnostic() {
    // "fn f() { 1 }\nfn f() { 2 }"
    let mut b = B::new();
    let one = b.int_e("1");
    let f1 = b.func(false, "f", Vec::new(), None, vec![one]);
    let two = b.int_e("2");
    let f2 = b.func(false, "f", Vec::new(), None, vec![two]);
    let m = b.module(Vec::new(), vec![f1, f2]);
    let result = lower_to_hir(&m);
    assert!(result.has_errors());
    assert!(has_message(&result, "duplicate definition `f`"), "{:?}", result.diagnostics);
}

#[test]
fn constructor_resolves_in_expression() {
    // "type Option(a) {\n  Some(a)\n  None\n}\nfn f() -> Int { None }"
    let mut b = B::new();
    let opt = b.adt("Option", &["a"], &[("Some", &["a"]), ("None", &[])]);
    let none = b.var("None");
    let f = b.func(false, "f", Vec::new(), Some("Int"), vec![none]);
    let m = b.module(Vec::new(), vec![opt, f]);
    let result = lower_to_hir(&m);
    assert!(!result.has_errors(), "diagnostics: {:?}", result.diagnostics);
    match &body_exprs(&result, 0)[0] {
        HirExpr::Var(def_id, _) => {
            assert_eq!(name_of(&result, *def_id), "None");
            assert_eq!(result.module.symbol_table.get(*def_id).kind, DefKind::Constructor);
        },
        other => panic!("expected Var, got {other:?}"),
    }
}

#[test]
fn constructor_pattern_resolves_def_id() {
    let mut b = B::new();
    let m = option_match(&mut b);
    let result = lower_to_hir(&m);
    assert!(!result.has_errors(), "diagnostics: {:?}", result.diagnostics);
    let some_id = result
        .module
        .symbol_table
        .iter()
        .into_iter()
        .find(|(_, d)| d.name == "Some" && d.kind == DefKind::Constructor)
        .map(|(id, _)| id)
        .expect("Some constructor not found");
    match &arms_of(&result, 0)[0].pattern {
        HirPattern::Constructor { def_id, fields, .. } => {
            assert_eq!(*def_id, some_id);
            assert_eq!(fields.len(), 1);
        },
        other => panic!("expected Constructor, got {other:?}"),
    }
}

#[test]
fn unresolved_constructor_pattern_diagnostic() {
    // "fn f(x: Int) -> Int {\n  match x {\n    Unknown(y) -> y\n    _ -> 0\n  }\n}"
    let mut b = B::new();
    let name = b.id("Unknown");
    let y = Pattern::Variable(b.id("y"));
    let c = Pattern::Constructor { name, fields: vec![y], span: b.sp() };
    let vy = b.var("y");
    let a1 = b.arm(c, vy);
    let w = Pattern::Wildcard(b.sp());
    let zero = b.int_e("0");
    let a2 = b.arm(w, zero);
    let m = match_module(&mut b, Vec::new(), "x", vec![a1, a2]);
    let result = lower_to_hir(&m);
    assert!(result.has_errors());
    assert!(has_message(&result, "unresolved constructor `Unknown`"), "{:?}", result.diagnostics);
}

/// "import <path> [as <alias>]\nfn f() { <used> }"
fn import_and_use(path: &[&str], alias: Option<&str>, used: &str) -> HirLowerResult {
    let mut b = B::new();
    let imp = b.import(path, alias);
    let v = b.var(used);
    let f = b.func(false, "f", Vec::new(), None, vec![v]);
    let m = b.module(vec![imp], vec![f]);
    lower_to_hir(&m)
}

#[test]
fn import_registers_name() {
    let result = import_and_use(&["io"], None, "io");
    assert!(!result.has_errors(), "diagnostics: {:?}", result.diagnostics);
    assert_eq!(result.module.imports.len(), 1);
    match &body_exprs(&result, 0)[0] {
        HirExpr::Var(def_id, _) => {
            assert_eq!(name_of(&result, *def_id), "io");
            assert_eq!(result.module.symbol_table.get(*def_id).kind, DefKind::Import);
        },
        other => panic!("expected Var, got {other:?}"),
    }
}

#[test]
fn dotted_import_binds_last_segment() {
    let result = import_and_use(&["gleam", "io"], None, "io");
    assert!(!result.has_errors(), "diagnostics: {:?}", result.diagnostics);
    assert_eq!(result.module.imports.len(), 1);
    match &result.module.imports[0].kind {
        HirImportKind::Module { segments } => {
            assert_eq!(segments, &vec!["gleam".to_string(), "io".to_string()]);
        },
        other => panic!("expected Module import, got {other:?}"),
    }
    match &body_exprs(&result, 0)[0] {
        HirExpr::Var(def_id, _) => {
            assert_eq!(name_of(&result, *def_id), "io");
            assert_eq!(result.module.symbol_table.get(*def_id).kind, DefKind::Import);
        },
        other => panic!("expected Var, got {other:?}"),
    }
}

#[test]
fn import_alias_binds_alias() {
    let result = import_and_use(&["gleam", "io"], Some("stdio"), "stdio");
    assert!(!result.has_errors(), "diagnostics: {:?}", result.diagnostics);
    match &body_exprs(&result, 0)[0] {
        HirExpr::Var(def_id, _) => {
            assert_eq!(name_of(&result, *def_id), "stdio");
            assert_eq!(result.module.symbol_table.get(*def_id).kind, DefKind::Import);
        },
        other => panic!("expected Var, got {other:?}"),
    }
}

#[test]
fn import_alias_original_name_unresolved() {
    let result = import_and_use(&["gleam", "io"], Some("stdio"), "io");
    assert!(result.has_errors());
    assert!(has_message(&result, "unresolved name `io`"), "{:?}", result.diagnostics);
}

#[test]
fn no_imports_empty_vec() {
    // "fn f() { 1 }"
    let mut b = B::new();
    let one = b.int_e("1");
    let f = b.func(false, "f", Vec::new(), None, vec![one]);
    let m = b.module(Vec::new(), vec![f]);
    let result = lower_to_hir(&m);
    assert!(result.module.imports.is_empty());
}

#[test]
fn duplicate_import_diagnostic() {
    // "import io\nimport io"
    let mut b = B::new();
    let i1 = b.import(&["io"], None);
    let i2 = b.import(&["io"], None);
    let m = b.module(vec![i1, i2], Vec::new());
    let result = lower_to_hir(&m);
    assert!(result.has_errors());
    assert!(has_message(&result, "duplicate definition `io`"), "{:?}", result.diagnostics);
}

#[test]
fn import_clashes_with_function() {
    // "import io\nfn io() { 1 }"
    let mut b = B::new();
    let imp = b.import(&["io"], None);
    let one = b.int_e("1");
    let f = b.func(false, "io", Vec::new(), None, vec![one]);
    let m = b.module(vec![imp], vec![f]);
    let result = lower_to_hir(&m);
    assert!(result.has_errors());
    assert!(has_message(&result, "duplicate definition `io`"), "{:?}", result.diagnostics);
}

#[test]
fn type_name_resolves_in_expression() {
    // "type Option(a) {\n  Some(a)\n  None\n}\nfn f() { Option }"
    let mut b = B::new();
    let opt = b.adt("Option", &["a"], &[("Some", &["a"]), ("None", &[])]);
    let v = b.var("Option");
    let f = b.func(false, "f", Vec::new(), None, vec![v]);
    let m = b.module(Vec::new(), vec![opt, f]);
    let result = lower_to_hir(&m);
    assert!(!result.has_errors(), "diagnostics: {:?}", result.diagnostics);
    match &body_exprs(&result, 0)[0] {
        HirExpr::Var(def_id, _) => {
            assert_eq!(name_of(&result, *def_id), "Option");
            assert_eq!(result.module.symbol_table.get(*def_id).kind, DefKind::Type);
        },
        other => panic!("expected Var, got {other:?}"),
    }
}

#[test]
fn type_name_clashes_with_function() {
    // "type Foo {\n  Bar\n}\nfn Foo() { 1 }"
    let mut b = B::new();
    let t = b.adt("Foo", &[], &[("Bar", &[])]);
    let one = b.int_e("1");
    let f = b.func(false, "Foo", Vec::new(), None, vec![one]);
    let m = b.module(Vec::new(), vec![t, f]);
    let result = lower_to_hir(&m);
    assert!(result.has_errors());
    assert!(has_message(&result, "duplicate definition `Foo`"), "{:?}", result.diagnostics);
}

#[test]
fn import_clashes_with_constructor() {
    // "import io\ntype T {\n  io\n}"
    let mut b = B::new();
    let imp = b.import(&["io"], None);
    let t = b.adt("T", &[], &[("io", &[])]);
    let m = b.module(vec![imp], vec![t]);
    let result = lower_to_hir(&m);
    assert!(result.has_errors());
    assert!(has_message(&result, "duplicate definition `io`"), "{:?}", result.diagnostics);
}

#[test]
fn python_import_registers_name() {
    // "from python import pathlib\nfn f() { pathlib }"
    let mut b = B::new();
    let imp = b.python_import("pathlib", None);
    let v = b.var("pathlib");
    let f = b.func(false, "f", Vec::new(), None, vec![v]);
    let m = b.module(vec![imp], vec![f]);
    let result = lower_to_hir(&m);
    assert!(!result.has_errors(), "diagnostics: {:?}", result.diagnostics);
    assert_eq!(result.module.imports.len(), 1);
    match &result.module.imports[0].kind {
        HirImportKind::Python { module_name } => assert_eq!(module_name.as_str(), "pathlib"),
        other => panic!("expected Python import, got {other:?}"),
    }
    match &body_exprs(&result, 0)[0] {
        HirExpr::Var(def_id, _) => {
            assert_eq!(name_of(&result, *def_id), "pathlib");
            assert_eq!(result.module.symbol_table.get(*def_id).kind, DefKind::Import);
        },
        other => panic!("expected Var, got {other:?}"),
    }
}

#[test]
fn python_import_with_alias() {
    // "from python import pathlib as pl\nfn f() { pl }"
    let mut b = B::new();
    let imp = b.python_import("pathlib", Some("pl"));
    let v = b.var("pl");
    let f = b.func(false, "f", Vec::new(), None, vec![v]);
    let m = b.module(vec![imp], vec![f]);
    let result = lower_to_hir(&m);
    assert!(!result.has_errors(), "diagnostics: {:?}", result.diagnostics);
    assert_eq!(result.module.imports.len(), 1);
    let imp = &result.module.imports[0];
    match &imp.kind {
        HirImportKind::Python { module_name } => assert_eq!(module_name.as_str(), "pathlib"),
        other => panic!("expected Python import, got {other:?}"),
    }
    assert_eq!(name_of(&result, imp.def_id), "pl");
}

#[test]
fn python_import_alias_hides_original() {
    // "from python import json as j\nfn f() { json }"
    let mut b = B::new();
    let imp = b.python_import("json", Some("j"));
    let v = b.var("json");
    let f = b.func(false, "f", Vec::new(), None, vec![v]);
    let m = b.module(vec![imp], vec![f]);
    let result = lower_to_hir(&m);
    assert!(result.has_errors(), "expected unresolved `json`");
}

// ── Further cases ───────────────────────────────────────────────

#[test]
fn builtins_come_first_in_the_table() {
    let ctx = HirLowerCtx::new();
    let ds = ctx.into_diagnostics();
    assert!(ds.is_empty());
    let mut b = B::new();
    let m = b.module(Vec::new(), Vec::new());
    let result = lower_to_hir(&m);
    let names: Vec<&str> = (0..4).map(|i| name_of(&result, i)).collect();
    assert_eq!(names, vec!["string_concat", "println", "list", "option"]);
    for i in 0..4 {
        assert_eq!(result.module.symbol_table.get(i).kind, DefKind::Builtin);
    }
}

#[test]
fn definitions_are_numbered_in_registration_order() {
    // "import io\ntype T {\n  A\n  B\n}\nfn f(x: Int) { x }"
    let mut b = B::new();
    let imp = b.import(&["io"], None);
    let t = b.adt("T", &[], &[("A", &[]), ("B", &[])]);
    let p = b.param("x", "Int");
    let x = b.var("x");
    let f = b.func(false, "f", vec![p], None, vec![x]);
    let m = b.module(vec![imp], vec![t, f]);
    let result = lower_to_hir(&m);
    assert!(!result.has_errors(), "diagnostics: {:?}", result.diagnostics);
    let expected = [
        ("io", DefKind::Import),
        ("T", DefKind::Type),
        ("A", DefKind::Constructor),
        ("B", DefKind::Constructor),
        ("f", DefKind::Function),
        ("x", DefKind::Parameter),
    ];
    assert_eq!(result.module.symbol_table.len(), 4 + expected.len());
    for (k, (name, kind)) in expected.iter().enumerate() {
        assert_eq!(name_of(&result, 4 + k), *name);
        assert_eq!(result.module.symbol_table.get(4 + k).kind, *kind);
    }
    let ct = &result.module.custom_types[0];
    assert_eq!(ct.def_id, 5);
    assert_eq!(ct.variants.iter().map(|v| v.def_id).collect::<Vec<_>>(), vec![6, 7]);
    assert_eq!(result.module.functions[0].def_id, 8);
}

#[test]
fn an_unresolved_name_gets_a_definition_of_its_own() {
    // "fn f() { ghost }"
    let mut b = B::new();
    let g = b.var("ghost");
    let f = b.func(false, "f", Vec::new(), None, vec![g]);
    let m = b.module(Vec::new(), vec![f]);
    let result = lower_to_hir(&m);
    assert_eq!(result.diagnostics.len(), 1);
    assert_eq!(result.diagnostics[0].message, "unresolved name `ghost`");
    match &body_exprs(&result, 0)[0] {
        HirExpr::Var(d, _) => {
            assert_eq!(*d, result.module.symbol_table.len() - 1);
            assert_eq!(name_of(&result, *d), "ghost");
            assert_eq!(result.module.symbol_table.get(*d).kind, DefKind::LocalBinding);
        },
        other => panic!("expected Var, got {other:?}"),
    }
}

#[test]
fn a_duplicate_points_at_the_earlier_definition() {
    // "fn f() { 1 }\nfn f() { 2 }"
    let mut b = B::new();
    let one = b.int_e("1");
    let f1 = b.func(false, "f", Vec::new(), None, vec![one]);
    let first_span = match &f1 {
        Definition::Function(f) => f.name.span,
        _ => unreachable!(),
    };
    let two = b.int_e("2");
    let f2 = b.func(false, "f", Vec::new(), None, vec![two]);
    let m = b.module(Vec::new(), vec![f1, f2]);
    let result = lower_to_hir(&m);
    assert_eq!(result.diagnostics.len(), 1);
    let d = &result.diagnostics[0];
    assert_eq!(d.message, "duplicate definition `f`");
    assert_eq!(d.labels.len(), 1);
    assert_eq!(d.labels[0].span, first_span);
    assert_eq!(d.labels[0].message, "previously defined here");
}

#[test]
fn a_block_scope_ends_with_the_block() {
    // "fn f() { { let y = 1 } y }"
    let mut b = B::new();
    let y = b.id("y");
    let one = b.int_e("1");
    let let_e = Expr::Let { name: y, is_mutable: false, value: Box::new(one), span: b.sp() };
    let inner = b.block(vec![let_e]);
    let vy = b.var("y");
    let f = b.func(false, "f", Vec::new(), None, vec![inner, vy]);
    let m = b.module(Vec::new(), vec![f]);
    let result = lower_to_hir(&m);
    assert!(has_message(&result, "unresolved name `y`"), "{:?}", result.diagnostics);
}

#[test]
fn a_let_value_sees_the_outer_binding() {
    // "fn f(x: Int) { let x = x\n x }"
    let mut b = B::new();
    let p = b.param("x", "Int");
    let name = b.id("x");
    let vx = b.var("x");
    let let_e = Expr::Let { name, is_mutable: false, value: Box::new(vx), span: b.sp() };
    let after = b.var("x");
    let f = b.func(false, "f", vec![p], None, vec![let_e, after]);
    let m = b.module(Vec::new(), vec![f]);
    let result = lower_to_hir(&m);
    assert!(!result.has_errors(), "diagnostics: {:?}", result.diagnostics);
    let param = result.module.functions[0].params[0].def_id;
    let exprs = body_exprs(&result, 0);
    let binding = match &exprs[0] {
        HirExpr::Let { binding, value, .. } => {
            assert!(matches!(value.as_ref(), HirExpr::Var(d, _) if *d == param));
            *binding
        },
        other => panic!("expected Let, got {other:?}"),
    };
    assert_ne!(binding, param);
    assert!(matches!(&exprs[1], HirExpr::Var(d, _) if *d == binding));
}

#[test]
fn lambda_parameters_are_local_to_the_lambda() {
    // "fn f() { let g = fn(y) { y }\n y }"
    let mut b = B::new();
    let py = b.id("y");
    let param = Param { name: py, type_ann: None, span: b.sp() };
    let vy = b.var("y");
    let body = b.block(vec![vy]);
    let lam = Expr::Lambda { params: vec![param], return_type: None, body: Box::new(body), span: b.sp() };
    let g = b.id("g");
    let let_e = Expr::Let { name: g, is_mutable: false, value: Box::new(lam), span: b.sp() };
    let outside = b.var("y");
    let f = b.func(false, "f", Vec::new(), None, vec![let_e, outside]);
    let m = b.module(Vec::new(), vec![f]);
    let result = lower_to_hir(&m);
    assert_eq!(result.diagnostics.len(), 1);
    assert_eq!(result.diagnostics[0].message, "unresolved name `y`");
    match &body_exprs(&result, 0)[0] {
        HirExpr::Let { value, .. } => match value.as_ref() {
            HirExpr::Lambda { params, body, .. } => {
                assert!(params[0].type_ann.is_none());
                match body.as_ref() {
                    HirExpr::Block { exprs, .. } => {
                        assert!(matches!(&exprs[0], HirExpr::Var(d, _) if *d == params[0].def_id));
                    },
                    other => panic!("expected Block, got {other:?}"),
                }
            },
            other => panic!("expected Lambda, got {other:?}"),
        },
        other => panic!("expected Let, got {other:?}"),
    }
}

#[test]
fn an_import_without_a_name_is_dropped() {
    let mut b = B::new();
    let imp = Import { source: ImportSource::Module(Vec::new()), alias: None, span: b.sp() };
    let m = b.module(vec![imp], Vec::new());
    let result = lower_to_hir(&m);
    assert!(result.module.imports.is_empty());
    assert_eq!(result.module.symbol_table.len(), 4);
}

#[test]
fn field_access_and_try_keep_their_shape() {
    // "from python import json\nfn f() { try json.loads(\"1\") }"
    let mut b = B::new();
    let imp = b.python_import("json", None);
    let j = b.var("json");
    let field = b.id("loads");
    let fa = Expr::FieldAccess { receiver: Box::new(j), field, span: b.sp() };
    let arg = b.str_e("\"1\"");
    let c = b.call(fa, vec![arg]);
    let t = Expr::Try { expr: Box::new(c), span: b.sp() };
    let f = b.func(false, "f", Vec::new(), None, vec![t]);
    let m = b.module(vec![imp], vec![f]);
    let result = lower_to_hir(&m);
    assert!(!result.has_errors(), "diagnostics: {:?}", result.diagnostics);
    match &body_exprs(&result, 0)[0] {
        HirExpr::Try { expr, .. } => match expr.as_ref() {
            HirExpr::Call { func, .. } => match func.as_ref() {
                HirExpr::FieldAccess { receiver, field, .. } => {
                    assert_eq!(field, "loads");
                    assert!(matches!(receiver.as_ref(), HirExpr::Var(d, _) if *d == result.module.imports[0].def_id));
                },
                other => panic!("expected FieldAccess, got {other:?}"),
            },
            other => panic!("expected Call, got {other:?}"),
        },
        other => panic!("expected Try, got {other:?}"),
    }
}
