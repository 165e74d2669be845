use asatsuyu::api_index::{
    PythonApiIndex, PythonClassInfo, PythonFunctionInfo, PythonMethodInfo, PythonModuleInfo, PythonSymbolInfo,
    PythonSymbolKind,
};
use asatsuyu::ffi_model::{FfiParam, FfiSignature, FfiSource, FfiSymbolKind, FfiTrustLevel, FfiType};
use asatsuyu::ffi_source::{ResolvedTypeSource, TypeSourceKind};

fn dummy_source(module_name: &str) -> ResolvedTypeSource {
    ResolvedTypeSource {
        module_name: module_name.to_string(),
        source_kind: TypeSourceKind::Typeshed,
        paths: Vec::new(),
        is_partial: false,
    }
}

fn int_param(name: &str) -> FfiParam {
    FfiParam { name: name.to_string(), ty: FfiType::Int, has_default: false }
}

fn function(name: &str, sig: FfiSignature, provenance: TypeSourceKind) -> PythonSymbolInfo {
    PythonSymbolInfo {
        name: name.to_string(),
        kind: PythonSymbolKind::Function(PythonFunctionInfo::single(sig)),
        doc: None,
        is_async: false,
        provenance,
    }
}

fn sig(params: Vec<FfiParam>, return_ty: FfiType) -> FfiSignature {
    FfiSignature { params, return_ty, is_async: false }
}

#[test]
fn module_to_ffi_basic() {
    let mut module = PythonModuleInfo::new("mymod".to_string(), dummy_source("mymod"));
    module.add_symbol(function("hello", sig(vec![int_param("x")], FfiType::Str), TypeSourceKind::Typeshed));

    let ffi = module.to_ffi_module();
    assert_eq!(ffi.name.as_str(), "mymod");
    assert_eq!(ffi.source, FfiSource::Typeshed);
    assert_eq!(ffi.symbols.len(), 1);
    assert_eq!(ffi.symbols[0].name.as_str(), "hello");
}

#[test]
fn class_to_ffi_with_constructor() {
    let mut cls = PythonClassInfo::new("Path".to_string());
    cls.constructor = Some(FfiSignature {
        params: vec![FfiParam { name: "path".to_string(), ty: FfiType::Str, has_default: true }],
        return_ty: FfiType::NoneType, // __init__ returns None in Python
        is_async: false,
    });
    cls.methods.push(PythonMethodInfo {
        name: "exists".to_string(),
        signatures: vec![sig(Vec::new(), FfiType::Bool)],
        is_async: false,
    });
    cls.properties.push(("name".to_string(), FfiType::Str));

    let mut module = PythonModuleInfo::new("pathlib".to_string(), dummy_source("pathlib"));
    module.add_symbol(PythonSymbolInfo {
        name: "Path".to_string(),
        kind: PythonSymbolKind::Class(cls),
        doc: None,
        is_async: false,
        provenance: TypeSourceKind::Typeshed,
    });

    let ffi = module.to_ffi_module();
    let path_sym = &ffi.symbols[0];
    match &path_sym.kind {
        FfiSymbolKind::Class(cls) => {
            // Constructor return type should be rewritten to Named
            let ctor = cls.constructor.as_ref().expect("should have constructor");
            assert_eq!(
                ctor.return_ty,
                FfiType::Named { module: "pathlib".to_string(), name: "Path".to_string() }
            );
            // Methods should include exists
            assert_eq!(cls.methods.len(), 1);
            assert_eq!(cls.methods[0].0.as_str(), "exists");
            // Properties should include name
            assert_eq!(cls.properties.len(), 1);
            assert_eq!(cls.properties[0].0.as_str(), "name");
        }
        other => panic!("expected Class, got {other:?}"),
    }
}

#[test]
fn overloaded_function_uses_first_signature() {
    let mut func_info = PythonFunctionInfo::single(sig(vec![int_param("x")], FfiType::Int));
    func_info.add_overload(sig(
        vec![FfiParam { name: "x".to_string(), ty: FfiType::Str, has_default: false }],
        FfiType::Str,
    ));
    assert_eq!(func_info.signatures.len(), 2);

    let mut module = PythonModuleInfo::new("test".to_string(), dummy_source("test"));
    module.add_symbol(PythonSymbolInfo {
        name: "parse".to_string(),
        kind: PythonSymbolKind::Function(func_info),
        doc: None,
        is_async: false,
        provenance: TypeSourceKind::Typeshed,
    });

    let ffi = module.to_ffi_module();
    match &ffi.symbols[0].kind {
        FfiSymbolKind::Function(sig) => {
            // Should use first signature (Int -> Int)
            assert_eq!(sig.params[0].ty, FfiType::Int);
            assert_eq!(sig.return_ty, FfiType::Int);
        }
        other => panic!("expected Function, got {other:?}"),
    }
}

#[test]
fn index_insert_and_get() {
    let mut index = PythonApiIndex::new();
    let module = PythonModuleInfo::new("pathlib".to_string(), dummy_source("pathlib"));
    index.insert(module);
    assert!(index.get("pathlib").is_some());
    assert!(index.get("nonexistent").is_none());
}

#[test]
fn constant_symbol_to_ffi() {
    let mut module = PythonModuleInfo::new("os".to_string(), dummy_source("os"));
    module.add_symbol(PythonSymbolInfo {
        name: "sep".to_string(),
        kind: PythonSymbolKind::Constant(FfiType::Str),
        doc: None,
        is_async: false,
        provenance: TypeSourceKind::Typeshed,
    });

    let ffi = module.to_ffi_module();
    match &ffi.symbols[0].kind {
        FfiSymbolKind::Constant(ty) => assert_eq!(*ty, FfiType::Str),
        other => panic!("expected Constant, got {other:?}"),
    }
}

#[test]
fn merge_partial_stub_runtime_symbols() {
    let mut primary = PythonModuleInfo::new("demo".to_string(), dummy_source("demo"));
    primary.add_symbol(function("stubbed", sig(vec![], FfiType::Int), TypeSourceKind::StubPackage));

    let mut runtime = PythonModuleInfo::new("demo".to_string(), dummy_source("demo"));
    runtime.add_symbol(function("runtime_only", sig(vec![], FfiType::Str), TypeSourceKind::PyTypedInline));

    primary.merge_from(runtime);

    let names: Vec<&str> = primary.symbols.iter().map(|symbol| symbol.name.as_str()).collect();
    assert!(names.contains(&"stubbed"));
    assert!(names.contains(&"runtime_only"));
}

// ── Further cases ───────────────────────────────────────────────

#[test]
fn merge_adds_only_new_overloads() {
    let mut primary = PythonModuleInfo::new("demo".to_string(), dummy_source("demo"));
    primary.add_symbol(function("f", sig(vec![int_param("x")], FfiType::Int), TypeSourceKind::StubPackage));

    let mut runtime = PythonModuleInfo::new("demo".to_string(), dummy_source("demo"));
    let mut info = PythonFunctionInfo::single(sig(vec![int_param("x")], FfiType::Int));
    info.add_overload(sig(vec![int_param("y")], FfiType::Str));
    runtime.add_symbol(PythonSymbolInfo {
        name: "f".to_string(),
        kind: PythonSymbolKind::Function(info),
        doc: None,
        is_async: false,
        provenance: TypeSourceKind::PyTypedInline,
    });
    runtime.submodules.push("demo.sub".to_string());
    primary.submodules.push("demo.sub".to_string());
    runtime.submodules.push("demo.other".to_string());

    primary.merge_from(runtime);

    assert_eq!(primary.symbols.len(), 1);
    match &primary.symbols[0].kind {
        PythonSymbolKind::Function(f) => {
            assert_eq!(f.signatures.len(), 2);
            assert_eq!(f.signatures[1].params[0].name, "y");
            assert_eq!(f.signatures[1].return_ty, FfiType::Str);
        }
        other => panic!("expected Function, got {other:?}"),
    }
    // The symbol keeps the provenance of the primary source.
    assert_eq!(primary.symbols[0].provenance, TypeSourceKind::StubPackage);
    assert_eq!(primary.submodules, ["demo.sub", "demo.other"]);
}

#[test]
fn merge_completes_a_class() {
    let mut stub_cls = PythonClassInfo::new("C".to_string());
    stub_cls.methods.push(PythonMethodInfo {
        name: "run".to_string(),
        signatures: vec![sig(Vec::new(), FfiType::Int)],
        is_async: false,
    });
    stub_cls.properties.push(("size".to_string(), FfiType::Int));

    let mut rt_cls = PythonClassInfo::new("C".to_string());
    rt_cls.constructor = Some(sig(vec![int_param("n")], FfiType::NoneType));
    rt_cls.methods.push(PythonMethodInfo {
        name: "stop".to_string(),
        signatures: vec![sig(Vec::new(), FfiType::Bool)],
        is_async: false,
    });
    rt_cls.properties.push(("size".to_string(), FfiType::Str));
    rt_cls.properties.push(("label".to_string(), FfiType::Str));

    let class_symbol = |cls: PythonClassInfo| PythonSymbolInfo {
        name: "C".to_string(),
        kind: PythonSymbolKind::Class(cls),
        doc: None,
        is_async: false,
        provenance: TypeSourceKind::StubPackage,
    };
    let mut primary = PythonModuleInfo::new("demo".to_string(), dummy_source("demo"));
    primary.add_symbol(class_symbol(stub_cls));
    let mut runtime = PythonModuleInfo::new("demo".to_string(), dummy_source("demo"));
    runtime.add_symbol(class_symbol(rt_cls));

    primary.merge_from(runtime);

    match &primary.symbols[0].kind {
        PythonSymbolKind::Class(c) => {
            assert!(c.constructor.is_some());
            let methods: Vec<&str> = c.methods.iter().map(|m| m.name.as_str()).collect();
            assert_eq!(methods, ["run", "stop"]);
            // The stub's property type wins; the new property is added.
            assert_eq!(c.properties.len(), 2);
            assert_eq!(c.properties[0].1, FfiType::Int);
            assert_eq!(c.properties[1].0, "label");
        }
        other => panic!("expected Class, got {other:?}"),
    }
}

#[test]
fn insert_replaces_a_module_of_the_same_name() {
    let mut index = PythonApiIndex::new();
    let mut first = PythonModuleInfo::new("m".to_string(), dummy_source("m"));
    first.add_symbol(function("a", sig(vec![], FfiType::Int), TypeSourceKind::Typeshed));
    index.insert(first);
    let mut second = PythonModuleInfo::new("m".to_string(), dummy_source("m"));
    second.add_symbol(function("b", sig(vec![], FfiType::Int), TypeSourceKind::Typeshed));
    index.insert(second);
    let got = index.get("m").expect("module m");
    assert_eq!(got.symbols.len(), 1);
    assert_eq!(got.symbols[0].name, "b");
}

#[test]
fn find_modules_for_symbol_lists_every_module() {
    let mut index = PythonApiIndex::new();
    for (module, symbols) in [("a", vec!["open", "close"]), ("b", vec!["read"]), ("c", vec!["open"])] {
        let mut m = PythonModuleInfo::new(module.to_string(), dummy_source(module));
        for s in symbols {
            m.add_symbol(function(s, sig(vec![], FfiType::Int), TypeSourceKind::Typeshed));
        }
        index.insert(m);
    }
    let found = index.find_modules_for_symbol("open");
    let modules: Vec<&str> = found.iter().map(|(m, _)| m.as_str()).collect();
    assert_eq!(modules, ["a", "c"]);
    assert!(found.iter().all(|(_, s)| s.name == "open"));
    assert!(index.find_modules_for_symbol("missing").is_empty());
}

#[test]
fn partial_sources_are_only_checked() {
    let mut source = dummy_source("demo");
    source.source_kind = TypeSourceKind::StubPackage;
    source.is_partial = true;
    let mut module = PythonModuleInfo::new("demo".to_string(), source);
    module.add_symbol(PythonSymbolInfo {
        name: "sub".to_string(),
        kind: PythonSymbolKind::Module,
        doc: None,
        is_async: false,
        provenance: TypeSourceKind::StubPackage,
    });
    let ffi = module.to_ffi_module();
    assert_eq!(ffi.source, FfiSource::StubPackage);
    assert_eq!(ffi.trust_level, FfiTrustLevel::Checked);
    match &ffi.symbols[0].kind {
        FfiSymbolKind::Constant(ty) => assert_eq!(*ty, FfiType::Any),
        other => panic!("expected Constant, got {other:?}"),
    }
    assert_eq!(ffi.symbols[0].trust_level, None);
}

#[test]
fn static_and_class_methods_follow_instance_methods() {
    let mut cls = PythonClassInfo::new("K".to_string());
    for (list, name) in [(0, "inst"), (1, "stat"), (2, "klass")] {
        let m = PythonMethodInfo { name: name.to_string(), signatures: Vec::new(), is_async: list == 1 };
        match list {
            0 => cls.methods.push(m),
            1 => cls.static_methods.push(m),
            _ => cls.class_methods.push(m),
        }
    }
    let mut module = PythonModuleInfo::new("k".to_string(), dummy_source("k"));
    module.add_symbol(PythonSymbolInfo {
        name: "K".to_string(),
        kind: PythonSymbolKind::Class(cls),
        doc: None,
        is_async: false,
        provenance: TypeSourceKind::Typeshed,
    });
    let ffi = module.to_ffi_module();
    match &ffi.symbols[0].kind {
        FfiSymbolKind::Class(c) => {
            let names: Vec<&str> = c.methods.iter().map(|m| m.0.as_str()).collect();
            assert_eq!(names, ["inst", "stat", "klass"]);
            // A method without signatures gets one taking nothing and
            // returning Any, keeping its asyncness.
            assert!(c.methods[1].1.params.is_empty());
            assert_eq!(c.methods[1].1.return_ty, FfiType::Any);
            assert!(c.methods[1].1.is_async);
        }
        other => panic!("expected Class, got {other:?}"),
    }
}
