//! Reading stubs. Each tree below is what a Python parser makes of the
//! source quoted above it.

use asatsuyu::api_index::{PythonModuleInfo, PythonSymbolKind};
use asatsuyu::ffi_model::FfiType;
use asatsuyu::ffi_source::TypeSourceKind;
use asatsuyu::stub_parser::{
    read_stub, PyClassDef, PyElement, PyExpr, PyFunctionDef, PyIf, PyModule, PyOrElse, PyParam, PySlice, PySmall,
    PyStmt, PySuite, PyTarget, StubParseError,
};

fn name(s: &str) -> PyExpr {
    PyExpr::Name(s.to_string())
}

fn subscript(base: &str, args: Vec<PyExpr>) -> PyExpr {
    PyExpr::Subscript(Box::new(name(base)), args.into_iter().map(PySlice::Index).collect())
}

fn or(l: PyExpr, r: PyExpr) -> PyExpr {
    PyExpr::BitOr(Box::new(l), Box::new(r))
}

fn param(n: &str, ann: Option<PyExpr>, has_default: bool) -> PyParam {
    PyParam { name: n.to_string(), annotation: ann, has_default }
}

fn def(n: &str, params: Vec<PyParam>, returns: Option<PyExpr>) -> PyFunctionDef {
    PyFunctionDef {
        name: n.to_string(),
        decorators: Vec::new(),
        is_async: false,
        params,
        kwonly_params: Vec::new(),
        returns,
    }
}

fn decorated(d: &str, f: PyFunctionDef) -> PyFunctionDef {
    let mut f = f;
    f.decorators.push(name(d));
    f
}

fn ann_assign(n: &str, ty: PyExpr) -> PyStmt {
    PyStmt::Simple(vec![PySmall::AnnAssign { target: PyTarget::Name(n.to_string()), annotation: ty }])
}

fn class(n: &str, body: Vec<PyStmt>) -> PyStmt {
    PyStmt::ClassDef(PyClassDef { name: n.to_string(), body: PySuite::Block(body) })
}

fn read(body: Vec<PyStmt>) -> PythonModuleInfo {
    read_stub("test", &PyModule { body }, TypeSourceKind::Typeshed)
}

fn signatures(info: &PythonModuleInfo, i: usize) -> &Vec<asatsuyu::ffi_model::FfiSignature> {
    match &info.symbols[i].kind {
        PythonSymbolKind::Function(f) => &f.signatures,
        other => panic!("expected Function, got {other:?}"),
    }
}

// def hello(name: str) -> str: ...
#[test]
fn parse_simple_function() {
    let info = read(vec![PyStmt::FunctionDef(def(
        "hello",
        vec![param("name", Some(name("str")), false)],
        Some(name("str")),
    ))]);
    assert_eq!(info.symbols.len(), 1);
    assert_eq!(info.symbols[0].name.as_str(), "hello");
    let sigs = signatures(&info, 0);
    assert_eq!(sigs.len(), 1);
    assert_eq!(sigs[0].params.len(), 1);
    assert_eq!(sigs[0].params[0].name.as_str(), "name");
    assert_eq!(sigs[0].params[0].ty, FfiType::Str);
    assert_eq!(sigs[0].return_ty, FfiType::Str);
}

// class Path:
//     def __init__(self, path: str = ...) -> None: ...
//     def exists(self) -> bool: ...
//     name: str
#[test]
fn parse_class_with_init_and_method() {
    let info = read(vec![class(
        "Path",
        vec![
            PyStmt::FunctionDef(def(
                "__init__",
                vec![param("self", None, false), param("path", Some(name("str")), true)],
                Some(name("None")),
            )),
            PyStmt::FunctionDef(def("exists", vec![param("self", None, false)], Some(name("bool")))),
            ann_assign("name", name("str")),
        ],
    )]);
    assert_eq!(info.symbols.len(), 1);
    match &info.symbols[0].kind {
        PythonSymbolKind::Class(cls) => {
            assert!(cls.constructor.is_some());
            let ctor = cls.constructor.as_ref().unwrap();
            assert_eq!(ctor.params.len(), 1); // self is skipped
            assert_eq!(ctor.params[0].name.as_str(), "path");
            assert!(ctor.params[0].has_default);

            assert_eq!(cls.methods.len(), 1);
            assert_eq!(cls.methods[0].name.as_str(), "exists");
            assert_eq!(cls.methods[0].signatures[0].return_ty, FfiType::Bool);

            assert_eq!(cls.properties.len(), 1);
            assert_eq!(cls.properties[0].0.as_str(), "name");
            assert_eq!(cls.properties[0].1, FfiType::Str);
        }
        other => panic!("expected Class, got {other:?}"),
    }
}

// class Foo:
//     @property
//     def value(self) -> int: ...
#[test]
fn parse_property_decorator() {
    let info = read(vec![class(
        "Foo",
        vec![PyStmt::FunctionDef(decorated(
            "property",
            def("value", vec![param("self", None, false)], Some(name("int"))),
        ))],
    )]);
    match &info.symbols[0].kind {
        PythonSymbolKind::Class(cls) => {
            // property should be in properties, not methods
            assert!(cls.methods.is_empty());
            assert_eq!(cls.properties.len(), 1);
            assert_eq!(cls.properties[0].0.as_str(), "value");
            assert_eq!(cls.properties[0].1, FfiType::Int);
        }
        other => panic!("expected Class, got {other:?}"),
    }
}

// from typing import overload
//
// @overload
// def parse(x: int) -> int: ...
// @overload
// def parse(x: str) -> str: ...
#[test]
fn parse_overloaded_function() {
    let info = read(vec![
        PyStmt::Simple(vec![PySmall::Other]),
        PyStmt::FunctionDef(decorated("overload", def("parse", vec![param("x", Some(name("int")), false)], Some(name("int"))))),
        PyStmt::FunctionDef(decorated("overload", def("parse", vec![param("x", Some(name("str")), false)], Some(name("str"))))),
    ]);
    assert_eq!(info.symbols.len(), 1);
    let sigs = signatures(&info, 0);
    assert_eq!(sigs.len(), 2);
    assert_eq!(sigs[0].params[0].ty, FfiType::Int);
    assert_eq!(sigs[1].params[0].ty, FfiType::Str);
}

// def f(x: int | str) -> int | None: ...
#[test]
fn parse_union_type() {
    let info = read(vec![PyStmt::FunctionDef(def(
        "f",
        vec![param("x", Some(or(name("int"), name("str"))), false)],
        Some(or(name("int"), name("None"))),
    ))]);
    let sigs = signatures(&info, 0);
    assert_eq!(sigs[0].params[0].ty, FfiType::Union(vec![FfiType::Int, FfiType::Str]));
    // int | None becomes Optional(int)
    assert_eq!(sigs[0].return_ty, FfiType::Optional(Box::new(FfiType::Int)));
}

// def f(x: list[int], y: dict[str, float]) -> tuple[int, str]: ...
#[test]
fn parse_generic_types() {
    let info = read(vec![PyStmt::FunctionDef(def(
        "f",
        vec![
            param("x", Some(subscript("list", vec![name("int")])), false),
            param("y", Some(subscript("dict", vec![name("str"), name("float")])), false),
        ],
        Some(subscript("tuple", vec![name("int"), name("str")])),
    ))]);
    let sigs = signatures(&info, 0);
    assert_eq!(sigs[0].params[0].ty, FfiType::List(Box::new(FfiType::Int)));
    assert_eq!(sigs[0].params[1].ty, FfiType::Dict(Box::new(FfiType::Str), Box::new(FfiType::Float)));
    assert_eq!(sigs[0].return_ty, FfiType::Tuple(vec![FfiType::Int, FfiType::Str]));
}

// sep: str
// linesep: str
#[test]
fn parse_module_constant() {
    let info = read_stub(
        "os",
        &PyModule { body: vec![ann_assign("sep", name("str")), ann_assign("linesep", name("str"))] },
        TypeSourceKind::Typeshed,
    );
    assert_eq!(info.symbols.len(), 2);
    assert_eq!(info.symbols[0].name.as_str(), "sep");
    match &info.symbols[0].kind {
        PythonSymbolKind::Constant(ty) => assert_eq!(*ty, FfiType::Str),
        other => panic!("expected Constant, got {other:?}"),
    }
}

// def public() -> int: ...
// def _private() -> int: ...
// def __dunder__() -> int: ...
#[test]
fn skip_private_symbols() {
    let info = read(vec![
        PyStmt::FunctionDef(def("public", vec![], Some(name("int")))),
        PyStmt::FunctionDef(def("_private", vec![], Some(name("int")))),
        PyStmt::FunctionDef(def("__dunder__", vec![], Some(name("int")))),
    ]);
    let names: Vec<&str> = info.symbols.iter().map(|s| s.name.as_str()).collect();
    assert!(names.contains(&"public"));
    assert!(!names.contains(&"_private"));
    assert!(names.contains(&"__dunder__"));
}

// async def sleep(delay: float) -> None: ...
#[test]
fn parse_async_function() {
    let mut f = def("sleep", vec![param("delay", Some(name("float")), false)], Some(name("None")));
    f.is_async = true;
    let info = read_stub("asyncio", &PyModule { body: vec![PyStmt::FunctionDef(f)] }, TypeSourceKind::Typeshed);
    assert!(info.symbols[0].is_async);
    assert!(signatures(&info, 0)[0].is_async);
}

// __all__ = ["public_one", "public_two"]
//
// def public_one() -> int: ...
// def public_two() -> str: ...
// def not_in_all() -> bool: ...
#[test]
fn parse_all_filter() {
    let all = PyExpr::List(vec![
        PyElement::Simple(PyExpr::Str("\"public_one\"".to_string())),
        PyElement::Simple(PyExpr::Str("\"public_two\"".to_string())),
    ]);
    let info = read(vec![
        PyStmt::Simple(vec![PySmall::Assign { targets: vec![PyTarget::Name("__all__".to_string())], value: all }]),
        PyStmt::FunctionDef(def("public_one", vec![], Some(name("int")))),
        PyStmt::FunctionDef(def("public_two", vec![], Some(name("str")))),
        PyStmt::FunctionDef(def("not_in_all", vec![], Some(name("bool")))),
    ]);
    let names: Vec<&str> = info.symbols.iter().map(|s| s.name.as_str()).collect();
    assert!(names.contains(&"public_one"));
    assert!(names.contains(&"public_two"));
    assert!(!names.contains(&"not_in_all"));
}

// from typing import TypeVar, Protocol
//
// _T = TypeVar("_T")
//
// class Comparable(Protocol):
//     def __lt__(self, other: object) -> bool: ...
//
// def sort(items: list[_T]) -> list[_T]: ...
#[test]
fn unsupported_construct_does_not_crash() {
    let type_var = PyStmt::Simple(vec![PySmall::Assign {
        targets: vec![PyTarget::Name("_T".to_string())],
        value: PyExpr::Other,
    }]);
    let info = read(vec![
        PyStmt::Simple(vec![PySmall::Other]),
        type_var,
        class(
            "Comparable",
            vec![PyStmt::FunctionDef(def(
                "__lt__",
                vec![param("self", None, false), param("other", Some(name("object")), false)],
                Some(name("bool")),
            ))],
        ),
        PyStmt::FunctionDef(def(
            "sort",
            vec![param("items", Some(subscript("list", vec![name("_T")])), false)],
            Some(subscript("list", vec![name("_T")])),
        )),
    ]);
    // Should have extracted something, even if types are approximate
    assert!(!info.symbols.is_empty());
}

// ── Further cases ───────────────────────────────────────────────

#[test]
fn annotation_forms_read_as_types() {
    let attr = PyExpr::Attribute(Box::new(PyExpr::Attribute(Box::new(name("os")), "path".to_string())), "Thing".to_string());
    let cases: Vec<(PyExpr, FfiType)> = vec![
        (name("SupportsFloat"), FfiType::Float),
        (name("LiteralString"), FfiType::Str),
        (name("bytearray"), FfiType::Bytes),
        (name("object"), FfiType::Any),
        (name("Widget"), FfiType::Named { module: String::new(), name: "Widget".to_string() }),
        (attr, FfiType::Named { module: "os.path".to_string(), name: "Thing".to_string() }),
        (subscript("Optional", vec![name("int")]), FfiType::Optional(Box::new(FfiType::Int))),
        (subscript("Union", vec![name("int"), name("str")]), FfiType::Union(vec![FfiType::Int, FfiType::Str])),
        (subscript("Sequence", vec![]), FfiType::List(Box::new(FfiType::Any))),
        (subscript("ClassVar", vec![name("int")]), FfiType::Int),
        (subscript("Callable", vec![name("int")]), FfiType::Any),
        (subscript("Mapping", vec![name("int")]), FfiType::Named { module: String::new(), name: "Mapping".to_string() }),
        (or(name("None"), name("str")), FfiType::Optional(Box::new(FfiType::Str))),
        (PyExpr::Ellipsis, FfiType::Any),
        (PyExpr::Str("\"int\"".to_string()), FfiType::Any),
    ];
    for (ann, want) in cases {
        let info = read(vec![ann_assign("x", ann)]);
        match &info.symbols[0].kind {
            PythonSymbolKind::Constant(ty) => assert_eq!(*ty, want),
            other => panic!("expected Constant, got {other:?}"),
        }
    }
}

#[test]
fn annotations_that_are_no_type_are_skipped_or_default() {
    // x: a + b   declares nothing; def f(x: a + b): the parameter is Any.
    let info = read(vec![
        ann_assign("x", PyExpr::OtherBinary),
        PyStmt::FunctionDef(def("f", vec![param("x", Some(PyExpr::OtherBinary), false)], None)),
    ]);
    assert_eq!(info.symbols.len(), 1);
    let sigs = signatures(&info, 0);
    assert_eq!(sigs[0].params[0].ty, FfiType::Any);
    // A missing return annotation reads as None.
    assert_eq!(sigs[0].return_ty, FfiType::NoneType);
}

// class K:
//     @overload
//     def m(self, x: int) -> int: ...
//     @overload
//     def m(self, x: str) -> str: ...
//     @classmethod
//     def make(cls) -> K: ...
//     @staticmethod
//     def helper(kwonly: int) -> None: ...
//     def _hidden(self) -> None: ...
//     if sys.version_info >= (3, 12):
//         def new(self) -> None: ...
//     else:
//         def old(self) -> None: ...
#[test]
fn class_methods_are_classified() {
    let mut helper = def("helper", vec![], Some(name("None")));
    helper.kwonly_params.push(param("kwonly", Some(name("int")), false));
    let branch = PyIf {
        body: PySuite::Block(vec![PyStmt::FunctionDef(def("new", vec![param("self", None, false)], None))]),
        orelse: Some(Box::new(PyOrElse::Else(PySuite::Block(vec![PyStmt::FunctionDef(def(
            "old",
            vec![param("self", None, false)],
            None,
        ))])))),
    };
    let info = read(vec![class(
        "K",
        vec![
            PyStmt::FunctionDef(decorated("overload", def("m", vec![param("self", None, false), param("x", Some(name("int")), false)], Some(name("int"))))),
            PyStmt::FunctionDef(decorated("overload", def("m", vec![param("self", None, false), param("x", Some(name("str")), false)], Some(name("str"))))),
            PyStmt::FunctionDef(decorated("classmethod", def("make", vec![param("cls", None, false)], Some(name("K"))))),
            PyStmt::FunctionDef(decorated("staticmethod", helper)),
            PyStmt::FunctionDef(def("_hidden", vec![param("self", None, false)], None)),
            PyStmt::If(branch),
        ],
    )]);
    match &info.symbols[0].kind {
        PythonSymbolKind::Class(c) => {
            let names: Vec<&str> = c.methods.iter().map(|m| m.name.as_str()).collect();
            assert_eq!(names, ["m", "new", "old"]);
            assert_eq!(c.methods[0].signatures.len(), 2);
            assert_eq!(c.class_methods.len(), 1);
            assert!(c.class_methods[0].signatures[0].params.is_empty());
            assert_eq!(c.static_methods.len(), 1);
            assert_eq!(c.static_methods[0].signatures[0].params[0].name, "kwonly");
        }
        other => panic!("expected Class, got {other:?}"),
    }
}

#[test]
fn methods_of_one_name_are_gathered() {
    // Two plain definitions of the same method name (no @overload) end up
    // as one method with both signatures.
    let info = read(vec![class(
        "G",
        vec![
            PyStmt::FunctionDef(def("m", vec![param("self", None, false)], Some(name("int")))),
            PyStmt::FunctionDef(def("n", vec![param("self", None, false)], Some(name("int")))),
            PyStmt::FunctionDef(def("m", vec![param("self", None, false)], Some(name("str")))),
        ],
    )]);
    match &info.symbols[0].kind {
        PythonSymbolKind::Class(c) => {
            let names: Vec<&str> = c.methods.iter().map(|m| m.name.as_str()).collect();
            assert_eq!(names, ["m", "n"]);
            assert_eq!(c.methods[0].signatures.len(), 2);
            assert_eq!(c.methods[0].signatures[1].return_ty, FfiType::Str);
        }
        other => panic!("expected Class, got {other:?}"),
    }
}

#[test]
fn all_as_a_tuple_with_single_quotes_filters() {
    let all = PyExpr::Tuple(vec![
        PyElement::Simple(PyExpr::Str("'kept'".to_string())),
        PyElement::Starred,
        PyElement::Simple(PyExpr::Str("b'bytes'".to_string())),
    ]);
    let info = read(vec![
        PyStmt::FunctionDef(def("kept", vec![], None)),
        PyStmt::FunctionDef(def("dropped", vec![], None)),
        PyStmt::Simple(vec![PySmall::Assign { targets: vec![PyTarget::Name("__all__".to_string())], value: all }]),
    ]);
    let names: Vec<&str> = info.symbols.iter().map(|s| s.name.as_str()).collect();
    assert_eq!(names, ["kept"]);
}

#[test]
fn all_that_lists_nothing_readable_keeps_everything() {
    // __all__ = names   (not a list display): no filter applies.
    let info = read(vec![
        PyStmt::Simple(vec![PySmall::Assign { targets: vec![PyTarget::Name("__all__".to_string())], value: name("names") }]),
        PyStmt::FunctionDef(def("f", vec![], None)),
    ]);
    assert_eq!(info.symbols.len(), 1);
}

#[test]
fn module_level_if_reads_both_branches() {
    let branch = PyIf {
        body: PySuite::Simple(vec![PySmall::AnnAssign { target: PyTarget::Name("a".to_string()), annotation: name("int") }]),
        orelse: Some(Box::new(PyOrElse::Elif(PyIf {
            body: PySuite::Block(vec![PyStmt::FunctionDef(def("b", vec![], None))]),
            orelse: None,
        }))),
    };
    let info = read(vec![PyStmt::If(branch), PyStmt::OtherCompound]);
    let names: Vec<&str> = info.symbols.iter().map(|s| s.name.as_str()).collect();
    assert_eq!(names, ["a", "b"]);
}

#[test]
fn read_stub_records_its_source() {
    let info = read_stub("pkg", &PyModule { body: Vec::new() }, TypeSourceKind::StubPackage);
    assert_eq!(info.name, "pkg");
    assert_eq!(info.source.module_name, "pkg");
    assert_eq!(info.source.source_kind, TypeSourceKind::StubPackage);
    assert!(info.source.paths.is_empty());
    assert!(!info.source.is_partial);
    assert!(info.symbols.is_empty());
}

#[test]
fn stub_parse_error_describes_itself() {
    let e = StubParseError::SyntaxError("unexpected indent".to_string());
    assert_eq!(e.describe(), "stub parse error: unexpected indent");
}
