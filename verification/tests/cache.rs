use asatsuyu::api_index::{PythonFunctionInfo, PythonModuleInfo, PythonSymbolInfo, PythonSymbolKind};
use asatsuyu::ffi_model::{FfiSignature, FfiType};
use asatsuyu::ffi_source::{ResolvedTypeSource, TypeSourceKind};
use asatsuyu::index_cache::{
    combine_parts, part_source, FileStamp, ModTime, PythonApiIndexCache, SourceFingerprint,
};

fn source(name: &str, kind: TypeSourceKind, paths: &[&str], is_partial: bool) -> ResolvedTypeSource {
    ResolvedTypeSource {
        module_name: name.to_string(),
        source_kind: kind,
        paths: paths.iter().map(|p| p.to_string()).collect(),
        is_partial,
    }
}

fn module(name: &str, symbols: &[&str]) -> PythonModuleInfo {
    let mut m = PythonModuleInfo::new(name.to_string(), source(name, TypeSourceKind::Typeshed, &[], false));
    for s in symbols {
        m.add_symbol(PythonSymbolInfo {
            name: s.to_string(),
            kind: PythonSymbolKind::Function(PythonFunctionInfo::single(FfiSignature {
                params: Vec::new(),
                return_ty: FfiType::Int,
                is_async: false,
            })),
            doc: None,
            is_async: false,
            provenance: TypeSourceKind::Typeshed,
        });
    }
    m
}

fn stamp(path: &str, secs: u64, size: u64) -> FileStamp {
    FileStamp { path: path.to_string(), mtime: Some(ModTime { before_epoch: false, secs, nanos: 0 }), size }
}

fn fingerprint(files: Vec<FileStamp>) -> SourceFingerprint {
    SourceFingerprint { source_kind: TypeSourceKind::StubPackage, is_partial: true, files }
}

#[test]
fn cache_starts_empty() {
    let cache = PythonApiIndexCache::new();
    assert!(cache.is_empty());
}

#[test]
fn a_stored_module_is_found_while_its_files_are_unchanged() {
    let mut cache = PythonApiIndexCache::new();
    let fp = fingerprint(vec![stamp("a.pyi", 10, 100)]);
    cache.store("demo", fp.clone(), module("demo", &["f"]));
    assert_eq!(cache.len(), 1);
    let hit = cache.lookup("demo", &fingerprint(vec![stamp("a.pyi", 10, 100)]));
    assert_eq!(hit.map(|m| m.symbols.len()), Some(1));
    // A changed modification time or size makes the entry stale.
    assert!(cache.lookup("demo", &fingerprint(vec![stamp("a.pyi", 11, 100)])).is_none());
    assert!(cache.lookup("demo", &fingerprint(vec![stamp("a.pyi", 10, 101)])).is_none());
    assert!(cache.lookup("other", &fp).is_none());
}

#[test]
fn storing_again_replaces_the_entry() {
    let mut cache = PythonApiIndexCache::new();
    let fp1 = fingerprint(vec![stamp("a.pyi", 1, 1)]);
    let fp2 = fingerprint(vec![stamp("a.pyi", 2, 1)]);
    cache.store("demo", fp1.clone(), module("demo", &["f"]));
    cache.store("demo", fp2.clone(), module("demo", &["f", "g"]));
    assert_eq!(cache.len(), 1);
    assert!(cache.lookup("demo", &fp1).is_none());
    assert_eq!(cache.lookup("demo", &fp2).map(|m| m.symbols.len()), Some(2));
}

#[test]
fn invalidation_drops_entries() {
    let mut cache = PythonApiIndexCache::new();
    let fp = SourceFingerprint { source_kind: TypeSourceKind::Typeshed, is_partial: false, files: Vec::new() };
    cache.store("pathlib", fp.clone(), module("pathlib", &[]));
    cache.store("os", fp.clone(), module("os", &[]));
    cache.store("sys", fp.clone(), module("sys", &[]));
    assert_eq!(cache.len(), 3);
    cache.invalidate("pathlib");
    assert_eq!(cache.len(), 2);
    assert!(cache.lookup("pathlib", &fp).is_none());
    assert!(cache.lookup("os", &fp).is_some());
    cache.invalidate("missing");
    assert_eq!(cache.len(), 2);
    cache.invalidate_all();
    assert!(cache.is_empty());
}

#[test]
fn bundled_sources_are_fingerprinted_by_kind_alone() {
    let bundled = source("json", TypeSourceKind::Typeshed, &[], false);
    let fp = SourceFingerprint::of_source(&bundled, vec![stamp("ignored", 1, 1)]);
    assert!(fp.files.is_empty());
    let on_disk = source("demo", TypeSourceKind::StubPackage, &["a.pyi"], true);
    let fp = SourceFingerprint::of_source(&on_disk, vec![stamp("a.pyi", 1, 1)]);
    assert_eq!(fp.files.len(), 1);
    assert!(fp.is_partial);
    assert!(fp.same_as(&fingerprint(vec![stamp("a.pyi", 1, 1)])));
}

#[test]
fn later_parts_of_a_stub_package_are_runtime_sources() {
    let s = source("demo", TypeSourceKind::StubPackage, &["stub.pyi", "runtime.py"], true);
    let first = part_source(&s, 0);
    assert_eq!(first.paths, ["stub.pyi"]);
    assert_eq!(first.source_kind, TypeSourceKind::StubPackage);
    assert!(first.is_partial);
    let second = part_source(&s, 1);
    assert_eq!(second.paths, ["runtime.py"]);
    assert_eq!(second.source_kind, TypeSourceKind::PyTypedInline);
    assert!(!second.is_partial);
    let typeshed = source("os", TypeSourceKind::Typeshed, &["a", "b"], false);
    assert_eq!(part_source(&typeshed, 1).source_kind, TypeSourceKind::Typeshed);
}

#[test]
fn parts_combine_in_order() {
    let combined = combine_parts(vec![
        Some(module("demo", &["stubbed"])),
        None,
        Some(module("demo", &["runtime_one", "stubbed"])),
    ])
    .expect("first part read");
    let names: Vec<&str> = combined.symbols.iter().map(|s| s.name.as_str()).collect();
    assert_eq!(names, ["stubbed", "runtime_one"]);
    assert!(combine_parts(vec![None, Some(module("demo", &["x"]))]).is_none());
    assert!(combine_parts(Vec::new()).is_none());
}

#[test]
fn a_default_cache_is_empty() {
    let cache = PythonApiIndexCache::default();
    assert_eq!(cache.len(), 0);
}
