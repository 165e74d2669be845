use asatsuyu::admissibility::{check_module, class_contains_any};
use asatsuyu::builtins::{
    apply_admissibility, asyncio_module, json_module, known_module_names, os_module, pathlib_module,
    requests_module, sys_module, BuiltinResolver, FfiResolverConfig,
};
use asatsuyu::ffi_model::{
    AdmissibilityReason, FfiClass, FfiModule, FfiParam, FfiSignature, FfiSource, FfiSymbol, FfiSymbolKind,
    FfiTrustLevel, FfiType,
};
// ── Real module tests ─────────────────────────────────────────

#[test]
fn pathlib_is_fully_verified() {
    let module = pathlib_module();
    let report = check_module(&module);
    assert_eq!(report.module_trust, FfiTrustLevel::Verified);
    for sym in &report.symbols {
        assert_eq!(sym.trust_level, FfiTrustLevel::Verified);
        assert_eq!(sym.reason, AdmissibilityReason::FullyTyped);
    }
}

#[test]
fn json_loads_is_checked() {
    let module = json_module();
    let report = check_module(&module);
    let loads = report.symbols.iter().find(|s| s.name == "loads").unwrap();
    assert_eq!(loads.trust_level, FfiTrustLevel::Checked);
    assert_eq!(loads.reason, AdmissibilityReason::ContainsAny);
}

#[test]
fn json_dumps_is_checked() {
    let module = json_module();
    let report = check_module(&module);
    let dumps = report.symbols.iter().find(|s| s.name == "dumps").unwrap();
    assert_eq!(dumps.trust_level, FfiTrustLevel::Checked);
    assert_eq!(dumps.reason, AdmissibilityReason::ContainsAny);
}

#[test]
fn json_module_trust_is_checked() {
    let module = json_module();
    let report = check_module(&module);
    assert_eq!(report.module_trust, FfiTrustLevel::Checked);
}

#[test]
fn os_is_fully_verified() {
    let module = os_module();
    let report = check_module(&module);
    assert_eq!(report.module_trust, FfiTrustLevel::Verified);
    for sym in &report.symbols {
        assert_eq!(sym.trust_level, FfiTrustLevel::Verified);
    }
}

#[test]
fn sys_is_fully_verified() {
    let module = sys_module();
    let report = check_module(&module);
    assert_eq!(report.module_trust, FfiTrustLevel::Verified);
    for sym in &report.symbols {
        assert_eq!(sym.trust_level, FfiTrustLevel::Verified);
    }
}

// ── Synthetic type tests ──────────────────────────────────────

fn make_func_symbol(name: &str, params: Vec<FfiType>, ret: FfiType) -> FfiSymbol {
    FfiSymbol {
        name: String::from(name),
        kind: FfiSymbolKind::Function(FfiSignature {
            params: params
                .into_iter()
                .map(|ty| FfiParam { name: String::from("x"), ty, has_default: false })
                .collect(),
            return_ty: ret,
            is_async: false,
        }),
        trust_level: None,
    }
}

fn make_const_symbol(name: &str, ty: FfiType) -> FfiSymbol {
    FfiSymbol {
        name: String::from(name),
        kind: FfiSymbolKind::Constant(ty),
        trust_level: None,
    }
}

#[test]
fn any_in_nested_type_detected() {
    // List(Any)
    assert!(FfiType::List(Box::new(FfiType::Any)).contains_any());
    // Optional(Any)
    assert!(FfiType::Optional(Box::new(FfiType::Any)).contains_any());
    // Dict(Str, Any)
    assert!(FfiType::Dict(Box::new(FfiType::Str), Box::new(FfiType::Any)).contains_any());
    // Tuple with Any
    assert!(FfiType::Tuple(vec![FfiType::Int, FfiType::Any]).contains_any());
    // Union with Any
    assert!(FfiType::Union(vec![FfiType::Str, FfiType::Any]).contains_any());
    // Clean types
    assert!(!FfiType::List(Box::new(FfiType::Int)).contains_any());
    assert!(!FfiType::Optional(Box::new(FfiType::Str)).contains_any());
}

#[test]
fn any_in_class_method_detected() {
    let cls = FfiClass {
        name: String::from("Foo"),
        constructor: None,
        methods: vec![(
            String::from("bar"),
            FfiSignature { params: vec![], return_ty: FfiType::Any, is_async: false },
        )],
        properties: vec![],
    };
    assert!(class_contains_any(&cls));
}

#[test]
fn any_in_class_property_detected() {
    let cls = FfiClass {
        name: String::from("Foo"),
        constructor: None,
        methods: vec![],
        properties: vec![(String::from("value"), FfiType::Any)],
    };
    assert!(class_contains_any(&cls));
}

#[test]
fn any_in_constructor_detected() {
    let cls = FfiClass {
        name: String::from("Foo"),
        constructor: Some(FfiSignature {
            params: vec![FfiParam {
                name: String::from("x"),
                ty: FfiType::Any,
                has_default: false,
            }],
            return_ty: FfiType::Named {
                module: String::from("test"),
                name: String::from("Foo"),
            },
            is_async: false,
        }),
        methods: vec![],
        properties: vec![],
    };
    assert!(class_contains_any(&cls));
}

#[test]
fn trust_level_ordering() {
    assert!(FfiTrustLevel::Unsafe < FfiTrustLevel::Checked);
    assert!(FfiTrustLevel::Checked < FfiTrustLevel::Verified);
    // min() gives the least trusted
    let levels = vec![FfiTrustLevel::Verified, FfiTrustLevel::Checked];
    assert_eq!(levels.into_iter().min(), Some(FfiTrustLevel::Checked));
}

#[test]
fn mixed_module_trust_is_minimum() {
    let module = FfiModule {
        name: String::from("mixed"),
        source: FfiSource::Builtin,
        trust_level: FfiTrustLevel::Verified, // will be overridden
        symbols: vec![
            make_func_symbol("safe_fn", vec![FfiType::Int], FfiType::Str),
            make_func_symbol("unsafe_fn", vec![FfiType::Any], FfiType::Str),
            make_const_symbol("clean", FfiType::Int),
        ],
    };
    let report = check_module(&module);
    assert_eq!(report.module_trust, FfiTrustLevel::Checked);
    assert_eq!(report.symbols[0].trust_level, FfiTrustLevel::Verified);
    assert_eq!(report.symbols[1].trust_level, FfiTrustLevel::Checked);
    assert_eq!(report.symbols[2].trust_level, FfiTrustLevel::Verified);
}

// ── requests module tests ────────────────────────────────────────

#[test]
fn requests_get_is_checked_due_to_response_class() {
    let module = requests_module();
    let report = check_module(&module);
    assert_eq!(report.module_trust, FfiTrustLevel::Checked);
    let get_sym = report.symbols.iter().find(|s| s.name == "get").unwrap();
    assert_eq!(get_sym.trust_level, FfiTrustLevel::Checked);
    assert_eq!(get_sym.reason, AdmissibilityReason::ContainsAny);
}

#[test]
fn requests_response_class_is_checked() {
    let module = requests_module();
    let report = check_module(&module);
    let resp = report.symbols.iter().find(|s| s.name == "Response").unwrap();
    assert_eq!(resp.trust_level, FfiTrustLevel::Checked);
}

#[test]
fn pathlib_stays_verified_with_named_return() {
    // Regression: Named return types whose class has no Any must stay Verified.
    let module = pathlib_module();
    let report = check_module(&module);
    assert_eq!(report.module_trust, FfiTrustLevel::Verified);
    for sym in &report.symbols {
        assert_eq!(sym.trust_level, FfiTrustLevel::Verified);
    }
}

// Unsafe / Opaque

#[test]
fn unsafe_module_forces_all_symbols_unsafe() {
    let module = FfiModule {
        name: String::from("dynamic"),
        source: FfiSource::Builtin,
        trust_level: FfiTrustLevel::Unsafe,
        symbols: vec![
            // Even a fully-typed symbol becomes Unsafe when the module is Unsafe.
            make_func_symbol("do_stuff", vec![FfiType::Str], FfiType::Str),
            make_const_symbol("version", FfiType::Str),
        ],
    };
    let report = check_module(&module);
    assert_eq!(report.module_trust, FfiTrustLevel::Unsafe);
    for sym in &report.symbols {
        assert_eq!(sym.trust_level, FfiTrustLevel::Unsafe);
        assert_eq!(sym.reason, AdmissibilityReason::Untyped);
    }
}

#[test]
fn non_unsafe_module_is_not_forced() {
    // Verified module with clean symbols should remain Verified.
    let module = FfiModule {
        name: String::from("clean"),
        source: FfiSource::Builtin,
        trust_level: FfiTrustLevel::Verified,
        symbols: vec![make_func_symbol("f", vec![FfiType::Str], FfiType::Int)],
    };
    let report = check_module(&module);
    assert_eq!(report.module_trust, FfiTrustLevel::Verified);
    assert_eq!(report.symbols[0].trust_level, FfiTrustLevel::Verified);
}

#[test]
fn builtins_pathlib_has_path_class() {
    let module = pathlib_module();
    let path_sym =
        module.symbols.iter().find(|s| s.name == "Path").expect("pathlib should have Path");
    match &path_sym.kind {
        FfiSymbolKind::Class(cls) => {
            assert!(cls.constructor.is_some());
            assert!(!cls.methods.is_empty());
            assert!(!cls.properties.is_empty());
            // Check specific methods exist
            let method_names: Vec<&str> = cls.methods.iter().map(|(n, _)| n.as_str()).collect();
            assert!(method_names.contains(&"read_text"));
            assert!(method_names.contains(&"exists"));
            assert!(method_names.contains(&"joinpath"));
        }
        other => panic!("expected Class, got {other:?}"),
    }
}

#[test]
fn json_has_loads_and_dumps() {
    let module = json_module();
    let names: Vec<&str> = module.symbols.iter().map(|s| s.name.as_str()).collect();
    assert!(names.contains(&"loads"));
    assert!(names.contains(&"dumps"));
}

#[test]
fn os_has_getenv_and_environ() {
    let module = os_module();
    let names: Vec<&str> = module.symbols.iter().map(|s| s.name.as_str()).collect();
    assert!(names.contains(&"getenv"));
    assert!(names.contains(&"environ"));
}

#[test]
fn sys_has_argv_and_exit() {
    let module = sys_module();
    let names: Vec<&str> = module.symbols.iter().map(|s| s.name.as_str()).collect();
    assert!(names.contains(&"argv"));
    assert!(names.contains(&"exit"));
}

#[test]
fn requests_has_get_post_and_response() {
    let module = requests_module();
    let names: Vec<&str> = module.symbols.iter().map(|s| s.name.as_str()).collect();
    assert!(names.contains(&"get"));
    assert!(names.contains(&"post"));
    assert!(names.contains(&"put"));
    assert!(names.contains(&"delete"));
    assert!(names.contains(&"Response"));
}

#[test]
fn requests_response_has_json_and_text() {
    let module = requests_module();
    let resp_sym = module
        .symbols
        .iter()
        .find(|s| s.name == "Response")
        .expect("requests should have Response");
    match &resp_sym.kind {
        FfiSymbolKind::Class(cls) => {
            assert!(cls.constructor.is_none());
            let method_names: Vec<&str> = cls.methods.iter().map(|(n, _)| n.as_str()).collect();
            assert!(method_names.contains(&"json"));
            assert!(method_names.contains(&"raise_for_status"));
            let prop_names: Vec<&str> =
                cls.properties.iter().map(|(n, _)| n.as_str()).collect();
            assert!(prop_names.contains(&"text"));
            assert!(prop_names.contains(&"status_code"));
            assert!(prop_names.contains(&"ok"));
        }
        other => panic!("expected Class, got {other:?}"),
    }
}

#[test]
fn asyncio_has_sleep_and_run() {
    let module = asyncio_module();
    let names: Vec<&str> = module.symbols.iter().map(|s| s.name.as_str()).collect();
    assert!(names.contains(&"sleep"));
    assert!(names.contains(&"run"));
}

#[test]
fn asyncio_sleep_is_async() {
    let module = asyncio_module();
    let sleep = module.symbols.iter().find(|s| s.name == "sleep").unwrap();
    match &sleep.kind {
        FfiSymbolKind::Function(sig) => {
            assert!(sig.is_async, "asyncio.sleep should be async");
            assert!(matches!(sig.return_ty, FfiType::NoneType));
        }
        other => panic!("expected Function, got {other:?}"),
    }
}

#[test]
fn asyncio_run_is_sync() {
    let module = asyncio_module();
    let run = module.symbols.iter().find(|s| s.name == "run").unwrap();
    match &run.kind {
        FfiSymbolKind::Function(sig) => {
            assert!(!sig.is_async, "asyncio.run should be sync");
        }
        other => panic!("expected Function, got {other:?}"),
    }
}

// Builtin resolver

#[test]
fn builtin_resolves_pathlib() {
    let resolver = BuiltinResolver;
    let module = resolver.resolve("pathlib").expect("pathlib should resolve");
    assert_eq!(module.name.as_str(), "pathlib");
    assert_eq!(module.source, FfiSource::Builtin);
    assert_eq!(module.trust_level, FfiTrustLevel::Verified);
    assert!(!module.symbols.is_empty());
}

#[test]
fn builtin_resolves_json() {
    let resolver = BuiltinResolver;
    let module = resolver.resolve("json").expect("json should resolve");
    assert_eq!(module.name.as_str(), "json");
}

#[test]
fn builtin_resolves_os() {
    let resolver = BuiltinResolver;
    let module = resolver.resolve("os").expect("os should resolve");
    assert_eq!(module.name.as_str(), "os");
}

#[test]
fn builtin_resolves_sys() {
    let resolver = BuiltinResolver;
    let module = resolver.resolve("sys").expect("sys should resolve");
    assert_eq!(module.name.as_str(), "sys");
}

#[test]
fn builtin_returns_none_for_unknown() {
    let resolver = BuiltinResolver;
    assert!(resolver.resolve("numpy").is_none());
}

#[test]
fn builtin_resolves_requests() {
    let resolver = BuiltinResolver;
    let module = resolver.resolve("requests").expect("requests should resolve");
    assert_eq!(module.name.as_str(), "requests");
}

#[test]
fn known_modules_all_resolve() {
    let names = known_module_names();
    assert_eq!(names, vec!["pathlib", "json", "os", "sys", "requests", "asyncio"]);
    for name in names {
        assert!(BuiltinResolver.resolve(name).is_some(), "{name} should resolve");
    }
}

// Applying the check

#[test]
fn applied_json_is_checked_with_every_symbol_set() {
    let module = apply_admissibility(json_module());
    assert_eq!(module.trust_level, FfiTrustLevel::Checked);
    for sym in &module.symbols {
        assert_eq!(sym.trust_level, Some(FfiTrustLevel::Checked));
    }
}

#[test]
fn applied_requests_get_is_checked() {
    let module = apply_admissibility(requests_module());
    assert_eq!(module.trust_level, FfiTrustLevel::Checked);
    let get_sym = module.symbols.iter().find(|s| s.name == "get").unwrap();
    assert_eq!(get_sym.trust_level, Some(FfiTrustLevel::Checked));
}

#[test]
fn applied_pathlib_stays_verified() {
    let module = apply_admissibility(pathlib_module());
    assert_eq!(module.trust_level, FfiTrustLevel::Verified);
    assert_eq!(module.symbols[0].trust_level, Some(FfiTrustLevel::Verified));
}

#[test]
fn applying_never_raises_trust() {
    // A symbol already marked `Unsafe` stays `Unsafe` though its surface is clean.
    let mut module = sys_module();
    module.symbols[0].trust_level = Some(FfiTrustLevel::Unsafe);
    let applied = apply_admissibility(module);
    assert_eq!(applied.symbols[0].trust_level, Some(FfiTrustLevel::Unsafe));
    assert_eq!(applied.symbols[1].trust_level, Some(FfiTrustLevel::Verified));
    assert_eq!(applied.trust_level, FfiTrustLevel::Verified);
}

#[test]
fn empty_module_is_verified() {
    let module = FfiModule {
        name: String::from("empty"),
        source: FfiSource::Builtin,
        trust_level: FfiTrustLevel::Unsafe,
        symbols: vec![],
    };
    let report = check_module(&module);
    assert!(report.symbols.is_empty());
    assert_eq!(report.module_trust, FfiTrustLevel::Verified);
}

// Configuration

#[test]
fn stdlib_only_config_admits_only_standard_modules() {
    let mut config = FfiResolverConfig::new();
    assert!(config.admits("requests"));
    config.stdlib_only = true;
    assert!(!config.admits("requests"));
    for name in ["pathlib", "json", "os", "sys", "asyncio"] {
        assert!(config.admits(name), "{name} should be admitted");
    }
}
