use asatsuyu::ffi_source::{choose_type_source, LookupFacts, SiteFacts, TypeSourceChoice, TypeshedFacts};
use asatsuyu::ffi_source::{
    is_partial_marker, module_path_segments, parse_version, parse_versions_content, source_file_candidates,
    stub_file_candidates, stubs_package_name, top_level_package_name, TypeSourceResolver,
};

/// The lines of typeshed's `VERSIONS` file that the resolver tests rely on.
const VERSIONS: &str = "pathlib: 3.4-\nos: 3.0-\nossaudiodev: 3.0-3.12\n";

#[test]
fn versions_parsing() {
    let content = "pathlib: 3.4-\nos: 3.0-\nossaudiodev: 3.0-3.12\n# comment\n";
    let entries = parse_versions_content(content);
    assert_eq!(entries.len(), 3);
    assert_eq!(entries[0].module, "pathlib");
    assert_eq!(entries[0].min_major, 3);
    assert_eq!(entries[0].min_minor, 4);
    assert!(entries[0].max.is_none());
    assert_eq!(entries[2].module, "ossaudiodev");
    assert_eq!(entries[2].max, Some((3, 12)));
}

#[test]
fn version_available_in_312() {
    let resolver = TypeSourceResolver::bundled_only(VERSIONS);
    // pathlib: 3.4- → available
    assert!(resolver.is_available_in_312("pathlib"));
    // os: 3.0- → available
    assert!(resolver.is_available_in_312("os"));
}

#[test]
fn version_removed_before_312() {
    let resolver = TypeSourceResolver::bundled_only(VERSIONS);
    // ossaudiodev: 3.0-3.12 → max is 3.12, should still be available
    assert!(resolver.is_available_in_312("ossaudiodev"));
}

#[test]
fn versions_parsing_skips_malformed_lines_and_comments() {
    let content = "  # header\n\nno_colon 3.0-\nbad: 3-\nasyncio.taskgroups: 3.11-  # new\r\nold: 2.7-3.9\nodd: 3.1-x\n+plus: +3.+2-\n";
    let entries = parse_versions_content(content);
    assert_eq!(entries.len(), 4);
    assert_eq!(entries[0].module, "asyncio.taskgroups");
    assert_eq!((entries[0].min_major, entries[0].min_minor, entries[0].max), (3, 11, None));
    assert_eq!(entries[1].module, "old");
    assert_eq!(entries[1].max, Some((3, 9)));
    // A maximum that is not a version counts as none.
    assert_eq!(entries[2].module, "odd");
    assert_eq!(entries[2].max, None);
    assert_eq!(entries[3].module, "+plus");
    assert_eq!((entries[3].min_major, entries[3].min_minor), (3, 2));
}

#[test]
fn parse_version_reads_two_numbers() {
    assert_eq!(parse_version("3.12"), Some((3, 12)));
    assert_eq!(parse_version("+3.0"), Some((3, 0)));
    assert_eq!(parse_version("3"), None);
    assert_eq!(parse_version("3.x"), None);
    assert_eq!(parse_version(" 3.1"), None);
    assert_eq!(parse_version("4294967295.0"), Some((4294967295, 0)));
    assert_eq!(parse_version("4294967296.0"), None);
}

#[test]
fn removed_and_future_modules_are_unavailable() {
    let resolver = TypeSourceResolver::bundled_only("asynchat: 3.0-3.11\nfuture: 3.13-\ndup: 3.0-\ndup: 3.13-\n");
    assert!(!resolver.is_available_in_312("asynchat"));
    assert!(!resolver.is_available_in_312("future"));
    // The first entry of a module decides.
    assert!(resolver.is_available_in_312("dup"));
    // A module without an entry is taken to exist.
    assert!(resolver.is_available_in_312("unlisted"));
}

#[test]
fn available_stdlib_modules_are_top_level_and_current() {
    let resolver =
        TypeSourceResolver::bundled_only("os: 3.0-\nos.path: 3.0-\nasynchat: 3.0-3.11\njson: 3.0-\n");
    assert_eq!(resolver.available_stdlib_modules(), vec!["os".to_string(), "json".to_string()]);
}

#[test]
fn resolver_keeps_its_configuration() {
    let resolver = TypeSourceResolver::new(
        vec!["stubs".to_string()],
        Some("/opt/typeshed".to_string()),
        vec!["site".to_string()],
        VERSIONS,
    );
    assert_eq!(resolver.custom_stub_paths(), &vec!["stubs".to_string()]);
    assert_eq!(resolver.typeshed_path(), &Some("/opt/typeshed".to_string()));
    assert_eq!(resolver.site_packages_paths(), &vec!["site".to_string()]);
}

#[test]
fn module_paths_and_candidates() {
    assert_eq!(module_path_segments("os.path"), vec!["os".to_string(), "path".to_string()]);
    assert_eq!(module_path_segments("json"), vec!["json".to_string()]);
    assert_eq!(top_level_package_name("pkg.sub.mod"), "pkg");
    assert_eq!(top_level_package_name("pkg"), "pkg");
    assert_eq!(stubs_package_name("requests.adapters"), "requests-stubs");
    assert_eq!(
        stub_file_candidates("pkg.submodule"),
        vec!["pkg/submodule/__init__.pyi".to_string(), "pkg/submodule.pyi".to_string()]
    );
    assert_eq!(
        source_file_candidates("demo"),
        vec![
            "demo/__init__.pyi".to_string(),
            "demo.pyi".to_string(),
            "demo/__init__.py".to_string(),
            "demo.py".to_string()
        ]
    );
}

#[test]
fn partial_marker_content() {
    assert!(is_partial_marker("partial\n"));
    assert!(is_partial_marker("  partial "));
    assert!(!is_partial_marker(""));
    assert!(!is_partial_marker("partial stubs"));
}

#[test]
fn printed_paths_are_trimmed_nonblank_lines() {
    let out = "/usr/lib/python3/site-packages\n  /home/u/.local/lib \r\n\n\t\n/opt/x";
    assert_eq!(
        asatsuyu::ffi_source::printed_paths(out),
        vec!["/usr/lib/python3/site-packages".to_string(), "/home/u/.local/lib".to_string(), "/opt/x".to_string()]
    );
}

#[test]
fn printed_paths_trim_unicode_white_space() {
    let out = "\u{a0}/a b\u{3000}\n\u{2028}\n";
    assert_eq!(asatsuyu::ffi_source::printed_paths(out), vec!["/a b".to_string()]);
    assert!(asatsuyu::ffi_source::printed_paths("").is_empty());
}

fn site(stubs_dir: bool, stub_files: Vec<bool>, stubs_partial: bool, source_files: Vec<bool>, marker: bool) -> SiteFacts {
    SiteFacts { stubs_dir, stub_files, stubs_partial, source_files, marker, marker_partial: false }
}

#[test]
fn custom_stubs_come_before_typeshed() {
    let facts = LookupFacts {
        custom: vec![vec![false, false], vec![false, true]],
        in_stdlib: true,
        typeshed: TypeshedFacts::Bundled { exists: true },
        sites: Vec::new(),
    };
    assert_eq!(choose_type_source(&facts), Some(TypeSourceChoice::CustomStub { dir: 1, file: 1 }));
}

#[test]
fn typeshed_only_for_modules_of_the_standard_library() {
    let mut facts = LookupFacts {
        custom: vec![vec![false, false]],
        in_stdlib: true,
        typeshed: TypeshedFacts::External { stub_files: vec![false, true] },
        sites: vec![site(false, vec![false, false], false, vec![false, false, true, false], true)],
    };
    assert_eq!(choose_type_source(&facts), Some(TypeSourceChoice::Typeshed { file: Some(1) }));
    facts.in_stdlib = false;
    assert_eq!(
        choose_type_source(&facts),
        Some(TypeSourceChoice::PyTyped { site: 0, file: 2, partial: false })
    );
}

#[test]
fn stub_package_comes_before_py_typed_and_takes_runtime_when_partial() {
    let facts = LookupFacts {
        custom: Vec::new(),
        in_stdlib: false,
        typeshed: TypeshedFacts::Bundled { exists: false },
        sites: vec![
            site(true, vec![false, false], true, vec![true, false, false, false], true),
            site(true, vec![true, false], true, vec![false, false, false, true], true),
        ],
    };
    assert_eq!(
        choose_type_source(&facts),
        Some(TypeSourceChoice::StubPackage { site: 1, file: 0, partial: true, runtime: Some(3) })
    );
}

#[test]
fn nothing_found_gives_none() {
    let facts = LookupFacts {
        custom: vec![vec![false, false]],
        in_stdlib: true,
        typeshed: TypeshedFacts::Bundled { exists: false },
        sites: vec![site(true, vec![false, false], false, vec![false; 4], false)],
    };
    assert_eq!(choose_type_source(&facts), None);
}
