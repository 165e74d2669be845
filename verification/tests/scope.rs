use asatsuyu::diagnostic::Diagnostic;
use asatsuyu::hir::{DefData, DefKind, HirExpr, HirModule, HirPattern, SymbolTable};
use asatsuyu::scope::{HirLowerResult, ScopeStack};
use asatsuyu::span::{FileId, Span};

#[test]
fn names_resolve_innermost_first() {
    let mut scopes = ScopeStack::new();
    assert_eq!(scopes.define("x".to_string(), 1), None);
    assert_eq!(scopes.resolve("x"), Some(1));
    scopes.push();
    assert_eq!(scopes.resolve("x"), Some(1));
    assert_eq!(scopes.define("x".to_string(), 2), None);
    assert_eq!(scopes.resolve("x"), Some(2));
    scopes.pop();
    assert_eq!(scopes.resolve("x"), Some(1));
    assert_eq!(scopes.resolve("y"), None);
}

#[test]
fn redefining_in_the_same_scope_reports_the_previous_binding() {
    let mut scopes = ScopeStack::new();
    scopes.define("f".to_string(), 3);
    assert_eq!(scopes.define("f".to_string(), 7), Some(3));
    assert_eq!(scopes.resolve("f"), Some(7));
}

#[test]
fn popping_everything_leaves_nothing_to_resolve() {
    let mut scopes = ScopeStack::new();
    scopes.define("a".to_string(), 0);
    scopes.pop();
    scopes.pop();
    assert_eq!(scopes.resolve("a"), None);
}

fn empty_module() -> HirModule {
    HirModule {
        imports: Vec::new(),
        functions: Vec::new(),
        custom_types: Vec::new(),
        symbol_table: SymbolTable::new(),
        span: Span::dummy(),
    }
}

#[test]
fn lowering_result_has_errors_only_with_an_error() {
    let span = Span::new(FileId(0), 0, 1);
    let ok = HirLowerResult { module: empty_module(), diagnostics: vec![Diagnostic::warning("w", span)] };
    assert!(!ok.has_errors());
    let bad = HirLowerResult {
        module: empty_module(),
        diagnostics: vec![Diagnostic::note("n", span), Diagnostic::error("unresolved name `x`", span)],
    };
    assert!(bad.has_errors());
}

#[test]
fn symbol_table_lists_its_definitions_in_order() {
    let mut table = SymbolTable::default();
    assert!(table.is_empty());
    for name in ["a", "b"] {
        table.register(DefData { name: name.to_string(), kind: DefKind::Function, is_mutable: false, span: Span::dummy() });
    }
    let all = table.iter();
    assert_eq!(all.len(), 2);
    assert_eq!(all[1].0, 1);
    assert_eq!(all[1].1.name, "b");
}

#[test]
fn expressions_and_patterns_report_their_spans() {
    let s = Span::new(FileId(0), 3, 9);
    let e = HirExpr::Await { expr: Box::new(HirExpr::Var(0, Span::dummy())), span: s };
    assert_eq!(e.span(), s);
    let p = HirPattern::List { elements: Vec::new(), rest: None, span: s };
    assert_eq!(p.span(), s);
    assert_eq!(HirPattern::Wildcard(s).span(), s);
}
