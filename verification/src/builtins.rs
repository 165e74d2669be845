//! Hand-written FFI signatures for the standard modules the compiler knows
//! without stubs, and the fallback resolver that serves them.
use crate::admissibility::{check_module, is_report_of, min_of, symbol_verdict};
use crate::ffi_model::{
    min_trust, spec_min_trust, trust_rank, AdmissibilityReport, FfiClass, FfiClassView, FfiModule, FfiModuleView,
    FfiParam, FfiParamView, FfiSignature, FfiSignatureView, FfiSource, FfiSymbol, FfiSymbolKind, FfiSymbolKindView,
    FfiSymbolView, FfiTrustLevel, FfiType, FfiTypeView,
};
use crate::text::str_eq;
use vstd::prelude::*;

verus! {

// ── Building blocks ─────────────────────────────────────────────

fn text(s: &str) -> (r: String)
    ensures
        r@ == s@,
{
    String::from_str(s)
}

/// A parameter without a default.
fn param(name: &str, ty: FfiType) -> (p: FfiParam)
    ensures
        p.name@ == name@,
        p.ty == ty,
        !p.has_default,
{
    FfiParam { name: text(name), ty, has_default: false }
}

/// A parameter that can be omitted.
fn param_with_default(name: &str, ty: FfiType) -> (p: FfiParam)
    ensures
        p.name@ == name@,
        p.ty == ty,
        p.has_default,
{
    FfiParam { name: text(name), ty, has_default: true }
}

/// A signature taking nothing.
fn sig0(return_ty: FfiType) -> (s: FfiSignature)
    ensures
        s@ == sv(seq![], return_ty@),
{
    let s = FfiSignature { params: Vec::new(), return_ty, is_async: false };
    assert(s@.params =~= Seq::<FfiParamView>::empty());
    s
}

/// A signature taking one parameter.
fn sig1(a: FfiParam, return_ty: FfiType) -> (s: FfiSignature)
    ensures
        s@ == sv(seq![a@], return_ty@),
{
    let ghost av = a@;
    let s = FfiSignature { params: vec![a], return_ty, is_async: false };
    assert(s@.params =~= seq![av]);
    s
}

/// A signature taking two parameters.
fn sig2(a: FfiParam, b: FfiParam, return_ty: FfiType) -> (s: FfiSignature)
    ensures
        s@ == sv(seq![a@, b@], return_ty@),
{
    let ghost (av, bv) = (a@, b@);
    let s = FfiSignature { params: vec![a, b], return_ty, is_async: false };
    assert(s@.params =~= seq![av, bv]);
    s
}

/// A signature taking three parameters.
fn sig3(a: FfiParam, b: FfiParam, c: FfiParam, return_ty: FfiType) -> (s: FfiSignature)
    ensures
        s@ == sv(seq![a@, b@, c@], return_ty@),
{
    let ghost (av, bv, cv) = (a@, b@, c@);
    let s = FfiSignature { params: vec![a, b, c], return_ty, is_async: false };
    assert(s@.params =~= seq![av, bv, cv]);
    s
}

/// A module-level function.
fn func(name: &str, signature: FfiSignature) -> (s: FfiSymbol)
    ensures
        s.name@ == name@,
        s.kind == FfiSymbolKind::Function(signature),
        s.trust_level is None,
{
    FfiSymbol { name: text(name), kind: FfiSymbolKind::Function(signature), trust_level: None }
}

/// A module-level constant.
fn constant(name: &str, ty: FfiType) -> (s: FfiSymbol)
    ensures
        s.name@ == name@,
        s.kind == FfiSymbolKind::Constant(ty),
        s.trust_level is None,
{
    FfiSymbol { name: text(name), kind: FfiSymbolKind::Constant(ty), trust_level: None }
}

/// A class symbol.
fn class(cls: FfiClass) -> (s: FfiSymbol)
    ensures
        s.name@ == cls.name@,
        s.kind == FfiSymbolKind::Class(cls),
        s.trust_level is None,
{
    let name = cls.name.clone();
    FfiSymbol { name, kind: FfiSymbolKind::Class(cls), trust_level: None }
}

fn named(module: &str, name: &str) -> (t: FfiType)
    ensures
        t matches FfiType::Named { module: m, name: n } && m@ == module@ && n@ == name@,
{
    FfiType::Named { module: text(module), name: text(name) }
}

fn optional(ty: FfiType) -> (t: FfiType)
    ensures
        t == FfiType::Optional(Box::new(ty)),
        t@ == opt_v(ty@),
{
    FfiType::Optional(Box::new(ty))
}

// ── The tables, as views ────────────────────────────────────────

pub open spec fn pv(name: Seq<char>, ty: FfiTypeView) -> FfiParamView {
    FfiParamView { name, ty, has_default: false }
}

pub open spec fn pdv(name: Seq<char>, ty: FfiTypeView) -> FfiParamView {
    FfiParamView { name, ty, has_default: true }
}

pub open spec fn sv(params: Seq<FfiParamView>, return_ty: FfiTypeView) -> FfiSignatureView {
    FfiSignatureView { params, return_ty, is_async: false }
}

pub open spec fn named_v(module: Seq<char>, name: Seq<char>) -> FfiTypeView {
    FfiTypeView::Named { module, name }
}

pub open spec fn opt_v(t: FfiTypeView) -> FfiTypeView {
    FfiTypeView::Optional(Box::new(t))
}

pub open spec fn func_v(name: Seq<char>, s: FfiSignatureView) -> FfiSymbolView {
    FfiSymbolView { name, kind: FfiSymbolKindView::Function(s), trust_level: None }
}

pub open spec fn const_v(name: Seq<char>, t: FfiTypeView) -> FfiSymbolView {
    FfiSymbolView { name, kind: FfiSymbolKindView::Constant(t), trust_level: None }
}

pub open spec fn class_v(c: FfiClassView) -> FfiSymbolView {
    FfiSymbolView { name: c.name, kind: FfiSymbolKindView::Class(c), trust_level: None }
}

pub open spec fn builtin_v(name: Seq<char>, trust: FfiTrustLevel, symbols: Seq<FfiSymbolView>) -> FfiModuleView {
    FfiModuleView { name, source: FfiSource::Builtin, trust_level: trust, symbols }
}

/// The `pathlib` table.
pub open spec fn pathlib_table() -> FfiModuleView {
    let path = named_v("pathlib"@, "Path"@);
    builtin_v(
        "pathlib"@,
        FfiTrustLevel::Verified,
        seq![
            class_v(
                FfiClassView {
                    name: "Path"@,
                    constructor: Some(sv(seq![pdv("path"@, FfiTypeView::Str)], path)),
                    methods: seq![
                        ("read_text"@, sv(seq![pdv("encoding"@, opt_v(FfiTypeView::Str))], FfiTypeView::Str)),
                        (
                            "write_text"@,
                            sv(
                                seq![pv("data"@, FfiTypeView::Str), pdv("encoding"@, opt_v(FfiTypeView::Str))],
                                FfiTypeView::Int,
                            ),
                        ),
                        ("exists"@, sv(seq![], FfiTypeView::Bool)),
                        ("is_file"@, sv(seq![], FfiTypeView::Bool)),
                        ("is_dir"@, sv(seq![], FfiTypeView::Bool)),
                        ("joinpath"@, sv(seq![pv("other"@, FfiTypeView::Str)], path)),
                        (
                            "mkdir"@,
                            sv(
                                seq![
                                    pdv("mode"@, FfiTypeView::Int),
                                    pdv("parents"@, FfiTypeView::Bool),
                                    pdv("exist_ok"@, FfiTypeView::Bool),
                                ],
                                FfiTypeView::NoneType,
                            ),
                        ),
                    ],
                    properties: seq![
                        ("name"@, FfiTypeView::Str),
                        ("stem"@, FfiTypeView::Str),
                        ("suffix"@, FfiTypeView::Str),
                        ("parent"@, path),
                        ("parts"@, FfiTypeView::Tuple(seq![FfiTypeView::Str])),
                    ],
                },
            ),
        ],
    )
}

/// The `json` table.
pub open spec fn json_table() -> FfiModuleView {
    builtin_v(
        "json"@,
        FfiTrustLevel::Verified,
        seq![
            func_v("loads"@, sv(seq![pv("s"@, FfiTypeView::Str)], FfiTypeView::Any)),
            func_v(
                "dumps"@,
                sv(seq![pv("obj"@, FfiTypeView::Any), pdv("indent"@, opt_v(FfiTypeView::Int))], FfiTypeView::Str),
            ),
        ],
    )
}

/// The `os` table.
pub open spec fn os_table() -> FfiModuleView {
    builtin_v(
        "os"@,
        FfiTrustLevel::Verified,
        seq![
            func_v(
                "getenv"@,
                sv(
                    seq![pv("key"@, FfiTypeView::Str), pdv("default"@, opt_v(FfiTypeView::Str))],
                    opt_v(FfiTypeView::Str),
                ),
            ),
            func_v("getcwd"@, sv(seq![], FfiTypeView::Str)),
            const_v("environ"@, FfiTypeView::Dict(Box::new(FfiTypeView::Str), Box::new(FfiTypeView::Str))),
            const_v("sep"@, FfiTypeView::Str),
            const_v("linesep"@, FfiTypeView::Str),
        ],
    )
}

/// The `sys` table.
pub open spec fn sys_table() -> FfiModuleView {
    builtin_v(
        "sys"@,
        FfiTrustLevel::Verified,
        seq![
            const_v("argv"@, FfiTypeView::List(Box::new(FfiTypeView::Str))),
            func_v("exit"@, sv(seq![pdv("code"@, FfiTypeView::Int)], FfiTypeView::NoneType)),
            const_v("platform"@, FfiTypeView::Str),
            const_v("version"@, FfiTypeView::Str),
        ],
    )
}

/// The `requests` table.
pub open spec fn requests_table() -> FfiModuleView {
    let response = named_v("requests"@, "Response"@);
    let by_url = sv(seq![pv("url"@, FfiTypeView::Str)], response);
    builtin_v(
        "requests"@,
        FfiTrustLevel::Checked,
        seq![
            func_v("get"@, by_url),
            func_v("post"@, by_url),
            func_v("put"@, by_url),
            func_v("delete"@, by_url),
            class_v(
                FfiClassView {
                    name: "Response"@,
                    constructor: None,
                    methods: seq![
                        ("json"@, sv(seq![], FfiTypeView::Any)),
                        ("raise_for_status"@, sv(seq![], FfiTypeView::NoneType)),
                    ],
                    properties: seq![
                        ("text"@, FfiTypeView::Str),
                        ("status_code"@, FfiTypeView::Int),
                        ("ok"@, FfiTypeView::Bool),
                        ("url"@, FfiTypeView::Str),
                        ("content"@, FfiTypeView::Bytes),
                        ("encoding"@, opt_v(FfiTypeView::Str)),
                    ],
                },
            ),
        ],
    )
}

/// The `asyncio` table.
pub open spec fn asyncio_table() -> FfiModuleView {
    builtin_v(
        "asyncio"@,
        FfiTrustLevel::Verified,
        seq![
            func_v(
                "sleep"@,
                FfiSignatureView {
                    params: seq![pv("delay"@, FfiTypeView::Float)],
                    return_ty: FfiTypeView::NoneType,
                    is_async: true,
                },
            ),
            func_v("run"@, sv(seq![pv("main"@, FfiTypeView::Any)], FfiTypeView::Any)),
        ],
    )
}

/// The table of a module the builtin tables know.
pub open spec fn builtin_table(name: Seq<char>) -> Option<FfiModuleView> {
    if name == "pathlib"@ {
        Some(pathlib_table())
    } else if name == "json"@ {
        Some(json_table())
    } else if name == "os"@ {
        Some(os_table())
    } else if name == "sys"@ {
        Some(sys_table())
    } else if name == "requests"@ {
        Some(requests_table())
    } else if name == "asyncio"@ {
        Some(asyncio_table())
    } else {
        None
    }
}

// ── The modules ─────────────────────────────────────────────────

/// The view of a class's methods.
pub open spec fn method_views(ms: Seq<(String, FfiSignature)>) -> Seq<(Seq<char>, FfiSignatureView)> {
    ms.map_values(|m: (String, FfiSignature)| (m.0@, m.1@))
}

/// The view of a class's properties.
pub open spec fn property_views(ps: Seq<(String, FfiType)>) -> Seq<(Seq<char>, FfiTypeView)> {
    ps.map_values(|p: (String, FfiType)| (p.0@, p.1@))
}

/// `pathlib`: the `Path` class with its constructor, common methods and
/// properties.
pub fn pathlib_module() -> (m: FfiModule)
    ensures
        m@ == pathlib_table(),
{
    let ctor = sig1(param_with_default("path", FfiType::Str), named("pathlib", "Path"));
    let read_text = sig1(param_with_default("encoding", optional(FfiType::Str)), FfiType::Str);
    let write_text = sig2(param("data", FfiType::Str), param_with_default("encoding", optional(FfiType::Str)), FfiType::Int);
    let exists = sig0(FfiType::Bool);
    let is_file = sig0(FfiType::Bool);
    let is_dir = sig0(FfiType::Bool);
    let joinpath = sig1(param("other", FfiType::Str), named("pathlib", "Path"));
    let mkdir = sig3(
        param_with_default("mode", FfiType::Int),
        param_with_default("parents", FfiType::Bool),
        param_with_default("exist_ok", FfiType::Bool),
        FfiType::NoneType,
    );
    let elems = vec![FfiType::Str];
    proof {
        crate::ffi_model::lemma_type_views(elems@, 1);
        assert(crate::ffi_model::type_views(elems@, 1) =~= seq![FfiTypeView::Str]);
    }
    let parts = FfiType::Tuple(elems);
    let ghost mv = seq![
        ("read_text"@, read_text@),
        ("write_text"@, write_text@),
        ("exists"@, exists@),
        ("is_file"@, is_file@),
        ("is_dir"@, is_dir@),
        ("joinpath"@, joinpath@),
        ("mkdir"@, mkdir@),
    ];
    let methods = vec![
        (text("read_text"), read_text),
        (text("write_text"), write_text),
        (text("exists"), exists),
        (text("is_file"), is_file),
        (text("is_dir"), is_dir),
        (text("joinpath"), joinpath),
        (text("mkdir"), mkdir),
    ];
    assert(method_views(methods@) =~= mv);
    let ghost pv = seq![
        ("name"@, FfiTypeView::Str),
        ("stem"@, FfiTypeView::Str),
        ("suffix"@, FfiTypeView::Str),
        ("parent"@, named_v("pathlib"@, "Path"@)),
        ("parts"@, parts@),
    ];
    let properties = vec![
        (text("name"), FfiType::Str),
        (text("stem"), FfiType::Str),
        (text("suffix"), FfiType::Str),
        (text("parent"), named("pathlib", "Path")),
        (text("parts"), parts),
    ];
    assert(property_views(properties@) =~= pv);
    let path_class = FfiClass { name: text("Path"), constructor: Some(ctor), methods, properties };
    let ghost cv = path_class@;
    let m = FfiModule {
        name: text("pathlib"),
        source: FfiSource::Builtin,
        trust_level: FfiTrustLevel::Verified,
        symbols: vec![class(path_class)],
    };
    assert(m@.symbols =~= seq![class_v(cv)]);
    m
}

/// `json`: `loads` returns `Any` and `dumps` takes `Any`, so both come out
/// `Checked`.
pub fn json_module() -> (m: FfiModule)
    ensures
        m@ == json_table(),
{
    let loads = func("loads", sig1(param("s", FfiType::Str), FfiType::Any));
    let dumps = func(
        "dumps",
        sig2(param("obj", FfiType::Any), param_with_default("indent", optional(FfiType::Int)), FfiType::Str),
    );
    let ghost sv = seq![loads@, dumps@];
    let m = FfiModule {
        name: text("json"),
        source: FfiSource::Builtin,
        trust_level: FfiTrustLevel::Verified,
        symbols: vec![loads, dumps],
    };
    assert(m@.symbols =~= sv);
    m
}

/// `os`: environment and working-directory access.
pub fn os_module() -> (m: FfiModule)
    ensures
        m@ == os_table(),
{
    let getenv = func(
        "getenv",
        sig2(param("key", FfiType::Str), param_with_default("default", optional(FfiType::Str)), optional(FfiType::Str)),
    );
    let getcwd = func("getcwd", sig0(FfiType::Str));
    let environ = constant("environ", FfiType::Dict(Box::new(FfiType::Str), Box::new(FfiType::Str)));
    let sep = constant("sep", FfiType::Str);
    let linesep = constant("linesep", FfiType::Str);
    let ghost sv = seq![getenv@, getcwd@, environ@, sep@, linesep@];
    let m = FfiModule {
        name: text("os"),
        source: FfiSource::Builtin,
        trust_level: FfiTrustLevel::Verified,
        symbols: vec![getenv, getcwd, environ, sep, linesep],
    };
    assert(m@.symbols =~= sv);
    m
}

/// `sys`: arguments, exit, platform and version.
pub fn sys_module() -> (m: FfiModule)
    ensures
        m@ == sys_table(),
{
    let argv = constant("argv", FfiType::List(Box::new(FfiType::Str)));
    let exit = func("exit", sig1(param_with_default("code", FfiType::Int), FfiType::NoneType));
    let platform = constant("platform", FfiType::Str);
    let version = constant("version", FfiType::Str);
    let ghost sv = seq![argv@, exit@, platform@, version@];
    let m = FfiModule {
        name: text("sys"),
        source: FfiSource::Builtin,
        trust_level: FfiTrustLevel::Verified,
        symbols: vec![argv, exit, platform, version],
    };
    assert(m@.symbols =~= sv);
    m
}

/// `requests`: `get`, `post`, `put` and `delete` taking a URL and returning
/// a `Response`, whose `json()` returns `Any`; declared `Checked`.
pub fn requests_module() -> (m: FfiModule)
    ensures
        m@ == requests_table(),
{
    let json = sig0(FfiType::Any);
    let raise = sig0(FfiType::NoneType);
    let ghost mv = seq![("json"@, json@), ("raise_for_status"@, raise@)];
    let methods = vec![(text("json"), json), (text("raise_for_status"), raise)];
    assert(method_views(methods@) =~= mv);
    let encoding = optional(FfiType::Str);
    let ghost pv = seq![
        ("text"@, FfiTypeView::Str),
        ("status_code"@, FfiTypeView::Int),
        ("ok"@, FfiTypeView::Bool),
        ("url"@, FfiTypeView::Str),
        ("content"@, FfiTypeView::Bytes),
        ("encoding"@, encoding@),
    ];
    let properties = vec![
        (text("text"), FfiType::Str),
        (text("status_code"), FfiType::Int),
        (text("ok"), FfiType::Bool),
        (text("url"), FfiType::Str),
        (text("content"), FfiType::Bytes),
        (text("encoding"), encoding),
    ];
    assert(property_views(properties@) =~= pv);
    let response_class = FfiClass { name: text("Response"), constructor: None, methods, properties };
    let ghost cv = response_class@;
    let get = func("get", sig1(param("url", FfiType::Str), named("requests", "Response")));
    let post = func("post", sig1(param("url", FfiType::Str), named("requests", "Response")));
    let put = func("put", sig1(param("url", FfiType::Str), named("requests", "Response")));
    let delete = func("delete", sig1(param("url", FfiType::Str), named("requests", "Response")));
    let ghost sv = seq![get@, post@, put@, delete@, class_v(cv)];
    let m = FfiModule {
        name: text("requests"),
        source: FfiSource::Builtin,
        trust_level: FfiTrustLevel::Checked,
        symbols: vec![get, post, put, delete, class(response_class)],
    };
    assert(m@.symbols =~= sv);
    m
}

/// `asyncio`: `sleep` is async; `run` blocks until its coroutine completes.
pub fn asyncio_module() -> (m: FfiModule)
    ensures
        m@ == asyncio_table(),
{
    let mut sleep_sig = sig1(param("delay", FfiType::Float), FfiType::NoneType);
    sleep_sig.is_async = true;
    let sleep = func("sleep", sleep_sig);
    let run = func("run", sig1(param("main", FfiType::Any), FfiType::Any));
    let ghost sv = seq![sleep@, run@];
    let m = FfiModule {
        name: text("asyncio"),
        source: FfiSource::Builtin,
        trust_level: FfiTrustLevel::Verified,
        symbols: vec![sleep, run],
    };
    assert(m@.symbols =~= sv);
    m
}

// ── Resolution ──────────────────────────────────────────────────

/// The modules the builtin tables know, in the order a full check walks them.
pub open spec fn spec_known_modules() -> Seq<Seq<char>> {
    seq!["pathlib"@, "json"@, "os"@, "sys"@, "requests"@, "asyncio"@]
}

/// The standard modules that stay resolvable when only the standard
/// library is allowed.
pub open spec fn spec_stdlib_modules() -> Seq<Seq<char>> {
    seq!["pathlib"@, "json"@, "os"@, "sys"@, "asyncio"@]
}

/// The module names the builtin tables know.
pub fn known_module_names() -> (r: Vec<&'static str>)
    ensures
        r@.map_values(|s: &str| s@) == spec_known_modules(),
{
    let r = vec!["pathlib", "json", "os", "sys", "requests", "asyncio"];
    assert(r@.map_values(|s: &str| s@) =~= spec_known_modules());
    r
}

/// Whether `name` is one of the standard modules allowed when only the
/// standard library is.
pub fn is_stdlib_module(name: &str) -> (b: bool)
    ensures
        b == spec_stdlib_modules().contains(name@),
{
    let r = str_eq(name, "pathlib") || str_eq(name, "json") || str_eq(name, "os") || str_eq(name, "sys")
        || str_eq(name, "asyncio");
    proof {
        let s = spec_stdlib_modules();
        if s.contains(name@) {
            let i = choose|i: int| 0 <= i < s.len() && s[i] == name@;
            assert(0 <= i < 5);
        }
        if r {
            if name@ == "pathlib"@ { assert(s[0] == name@); }
            if name@ == "json"@ { assert(s[1] == name@); }
            if name@ == "os"@ { assert(s[2] == name@); }
            if name@ == "sys"@ { assert(s[3] == name@); }
            if name@ == "asyncio"@ { assert(s[4] == name@); }
        }
    }
    r
}

/// Configuration of FFI module resolution.
#[derive(Debug, Clone)]
pub struct FfiResolverConfig {
    /// Only the standard modules (`pathlib`, `json`, `os`, `sys`,
    /// `asyncio`) resolve; third-party ones like `requests` do not.
    pub stdlib_only: bool,
    /// Additional directories searched for `.pyi` stubs, first of all.
    pub stub_paths: Vec<String>,
    /// An external typeshed; `None` means the bundled one.
    pub typeshed_path: Option<String>,
    /// The Python interpreter (or a site-packages directory) used to find
    /// stub and typed packages.
    pub python_path: Option<String>,
}

impl FfiResolverConfig {
    /// Every module may resolve, with no extra search paths.
    pub fn new() -> (c: FfiResolverConfig)
        ensures
            !c.stdlib_only,
            c.stub_paths@.len() == 0,
            c.typeshed_path is None,
            c.python_path is None,
    {
        FfiResolverConfig { stdlib_only: false, stub_paths: Vec::new(), typeshed_path: None, python_path: None }
    }

    /// Whether this configuration lets `name` be resolved at all.
    pub fn admits(&self, name: &str) -> (b: bool)
        ensures
            b == (!self.stdlib_only || spec_stdlib_modules().contains(name@)),
    {
        !self.stdlib_only || is_stdlib_module(name)
    }
}

/// The resolver of last resort: the hand-written tables.
pub struct BuiltinResolver;

impl BuiltinResolver {
    /// The table of module `name`, when there is one.
    pub fn resolve(&self, name: &str) -> (r: Option<FfiModule>)
        ensures
            r is Some <==> spec_known_modules().contains(name@),
            match r {
                Some(m) => builtin_table(name@) == Some(m@),
                None => builtin_table(name@) is None,
            },
    {
        let r = if str_eq(name, "pathlib") {
            Some(pathlib_module())
        } else if str_eq(name, "json") {
            Some(json_module())
        } else if str_eq(name, "os") {
            Some(os_module())
        } else if str_eq(name, "sys") {
            Some(sys_module())
        } else if str_eq(name, "requests") {
            Some(requests_module())
        } else if str_eq(name, "asyncio") {
            Some(asyncio_module())
        } else {
            None
        };
        proof {
            let s = spec_known_modules();
            if s.contains(name@) {
                let i = choose|i: int| 0 <= i < s.len() && s[i] == name@;
                assert(0 <= i < 6);
            }
            if r is Some {
                if name@ == "pathlib"@ { assert(s[0] == name@); }
                if name@ == "json"@ { assert(s[1] == name@); }
                if name@ == "os"@ { assert(s[2] == name@); }
                if name@ == "sys"@ { assert(s[3] == name@); }
                if name@ == "requests"@ { assert(s[4] == name@); }
                if name@ == "asyncio"@ { assert(s[5] == name@); }
            }
        }
        r
    }
}

// ── Applying the admissibility check ────────────────────────────

/// The trust of module `m` that the admissibility check finds: its least
/// trusted symbol's verdict.
pub open spec fn checked_module_trust(m: FfiModule) -> FfiTrustLevel {
    min_of(
        Seq::new(m.symbols@.len(), |i: int| symbol_verdict(m, m.symbols@[i]).0),
        m.symbols@.len() as int,
    )
}

/// The trust a symbol ends with: the lesser of what it had (`Verified` when
/// unset) and its verdict.
pub open spec fn applied_symbol_trust(m: FfiModule, i: int) -> FfiTrustLevel {
    let current = match m.symbols@[i].trust_level {
        Some(t) => t,
        None => FfiTrustLevel::Verified,
    };
    spec_min_trust(current, symbol_verdict(m, m.symbols@[i]).0)
}

/// Runs the admissibility check on `module` and lowers its trust levels to
/// what the check found: the module's to the lesser of its declared trust
/// and the check's, each symbol's to the lesser of what it had and its
/// verdict. Names, kinds and source are kept.
pub fn apply_admissibility(module: FfiModule) -> (r: FfiModule)
    ensures
        r.name == module.name,
        r.source == module.source,
        r.trust_level == spec_min_trust(module.trust_level, checked_module_trust(module)),
        r.symbols@.len() == module.symbols@.len(),
        forall|i: int|
            0 <= i < r.symbols@.len() ==> {
                &&& (#[trigger] r.symbols@[i]).name == module.symbols@[i].name
                &&& r.symbols@[i].kind == module.symbols@[i].kind
                &&& r.symbols@[i].trust_level == Some(applied_symbol_trust(module, i))
            },
{
    let report = check_module(&module);
    let ghost m0 = module;
    proof {
        let a = Seq::new(report.symbols@.len(), |i: int| report.symbols@[i].trust_level);
        let b = Seq::new(m0.symbols@.len(), |i: int| symbol_verdict(m0, m0.symbols@[i]).0);
        assert(a =~= b);
    }
    let FfiModule { name, source, trust_level, symbols } = module;
    let mut rest = symbols;
    let mut out: Vec<FfiSymbol> = Vec::new();
    let n = rest.len();
    let mut i: usize = 0;
    while i < n
        invariant
            is_report_of(report, m0),
            n == m0.symbols@.len(),
            i <= n,
            rest@ == m0.symbols@.subrange(i as int, n as int),
            out@.len() == i,
            forall|k: int|
                0 <= k < i ==> {
                    &&& (#[trigger] out@[k]).name == m0.symbols@[k].name
                    &&& out@[k].kind == m0.symbols@[k].kind
                    &&& out@[k].trust_level == Some(applied_symbol_trust(m0, k))
                },
        decreases n - i,
    {
        let s = rest.remove(0);
        let current = match s.trust_level {
            Some(t) => t,
            None => FfiTrustLevel::Verified,
        };
        proof {
            assert(s == m0.symbols@[i as int]);
            assert((report.symbols@[i as int].trust_level, report.symbols@[i as int].reason) == symbol_verdict(
                m0,
                m0.symbols@[i as int],
            ));
        }
        let level = min_trust(current, report.symbols[i].trust_level);
        out.push(FfiSymbol { name: s.name, kind: s.kind, trust_level: Some(level) });
        proof {
            assert(rest@ =~= m0.symbols@.subrange(i + 1, n as int));
        }
        i += 1;
    }
    FfiModule { name, source, trust_level: min_trust(trust_level, report.module_trust), symbols: out }
}

/// Applying the admissibility check never raises a trust level: the module
/// ends no more trusted than it was declared, and each symbol no more
/// trusted than it was.
pub proof fn lemma_admissibility_only_lowers(module: FfiModule, r: FfiModule)
    requires
        r.trust_level == spec_min_trust(module.trust_level, checked_module_trust(module)),
        r.symbols@.len() == module.symbols@.len(),
        forall|i: int|
            0 <= i < r.symbols@.len() ==> (#[trigger] r.symbols@[i]).trust_level == Some(
                applied_symbol_trust(module, i),
            ),
    ensures
        trust_rank(r.trust_level) <= trust_rank(module.trust_level),
        forall|i: int|
            0 <= i < r.symbols@.len() ==> ((#[trigger] module.symbols@[i]).trust_level matches Some(t)
                ==> (r.symbols@[i].trust_level matches Some(u) && trust_rank(u) <= trust_rank(t))),
{
}

/// A module read from a partial stub package never comes out `Verified`:
/// flattening makes it `Checked`, and the admissibility check only lowers.
pub proof fn lemma_partial_sources_never_verified(
    info: crate::api_index::PythonModuleInfoView,
    flat: FfiModule,
    r: FfiModule,
)
    requires
        info.source.is_partial,
        flat@ == crate::api_index::module_to_ffi_view(info),
        r.trust_level == spec_min_trust(flat.trust_level, checked_module_trust(flat)),
    ensures
        r.trust_level != FfiTrustLevel::Verified,
{
    assert(flat.trust_level == FfiTrustLevel::Checked);
}

} // verus!
