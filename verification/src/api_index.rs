//! The Python API index: a richer picture of a module's API than
//! `FfiModule`, with overloaded signatures, methods classified as instance,
//! class or static, and where each symbol came from. `to_ffi_module`
//! flattens it for the type checker.
use crate::ffi_model::{
    opt_sig_view, FfiClass, FfiClassView, FfiModule, FfiModuleView, FfiParamView, FfiSignature,
    FfiSignatureView, FfiSource, FfiSymbol, FfiSymbolKind, FfiSymbolKindView, FfiSymbolView, FfiTrustLevel,
    FfiType, FfiTypeView,
};
use crate::ffi_source::{ResolvedTypeSource, ResolvedTypeSourceView, TypeSourceKind};
use vstd::prelude::*;

verus! {

// ── Types ───────────────────────────────────────────────────────

/// A method of a class, possibly overloaded.
#[derive(Debug, Clone)]
pub struct PythonMethodInfo {
    pub name: String,
    /// One or more signatures (several for `@overload`).
    pub signatures: Vec<FfiSignature>,
    /// Declared `async def`.
    pub is_async: bool,
}

/// A Python class with constructor, methods and properties.
#[derive(Debug, Clone)]
pub struct PythonClassInfo {
    pub name: String,
    /// The `__init__` signature, when known.
    pub constructor: Option<FfiSignature>,
    /// Instance methods.
    pub methods: Vec<PythonMethodInfo>,
    /// Read-only properties, by name.
    pub properties: Vec<(String, FfiType)>,
    /// `@classmethod`s.
    pub class_methods: Vec<PythonMethodInfo>,
    /// `@staticmethod`s.
    pub static_methods: Vec<PythonMethodInfo>,
}

/// A module-level function with one or more overloaded signatures.
#[derive(Debug, Clone)]
pub struct PythonFunctionInfo {
    pub signatures: Vec<FfiSignature>,
}

/// What a symbol is.
#[derive(Debug, Clone)]
pub enum PythonSymbolKind {
    /// A module-level function, possibly overloaded.
    Function(PythonFunctionInfo),
    /// A class.
    Class(PythonClassInfo),
    /// A module-level constant or attribute.
    Constant(FfiType),
    /// A submodule.
    Module,
}

/// A public symbol of a Python module.
#[derive(Debug, Clone)]
pub struct PythonSymbolInfo {
    pub name: String,
    pub kind: PythonSymbolKind,
    /// First line of the docstring, when extracted.
    pub doc: Option<String>,
    /// Declared `async def`.
    pub is_async: bool,
    /// Where this symbol's type information came from.
    pub provenance: TypeSourceKind,
}

/// The public API of one Python module.
#[derive(Debug, Clone)]
pub struct PythonModuleInfo {
    pub name: String,
    /// Where the type information was found.
    pub source: ResolvedTypeSource,
    /// Public symbols, in the order they were found.
    pub symbols: Vec<PythonSymbolInfo>,
    /// Known submodule names.
    pub submodules: Vec<String>,
}

/// Modules by name.
#[derive(Debug, Clone)]
pub struct PythonApiIndex {
    modules: Vec<PythonModuleInfo>,
}

// ── Views ───────────────────────────────────────────────────────

pub open spec fn sig_views(s: Seq<FfiSignature>) -> Seq<FfiSignatureView> {
    s.map_values(|x: FfiSignature| x@)
}

pub open spec fn string_views(s: Seq<String>) -> Seq<Seq<char>> {
    s.map_values(|x: String| x@)
}

pub open spec fn property_views(s: Seq<(String, FfiType)>) -> Seq<(Seq<char>, FfiTypeView)> {
    s.map_values(|p: (String, FfiType)| (p.0@, p.1@))
}

pub struct PythonMethodInfoView {
    pub name: Seq<char>,
    pub signatures: Seq<FfiSignatureView>,
    pub is_async: bool,
}

impl View for PythonMethodInfo {
    type V = PythonMethodInfoView;

    open spec fn view(&self) -> PythonMethodInfoView {
        PythonMethodInfoView { name: self.name@, signatures: sig_views(self.signatures@), is_async: self.is_async }
    }
}

pub open spec fn method_views(s: Seq<PythonMethodInfo>) -> Seq<PythonMethodInfoView> {
    s.map_values(|m: PythonMethodInfo| m@)
}

pub struct PythonClassInfoView {
    pub name: Seq<char>,
    pub constructor: Option<FfiSignatureView>,
    pub methods: Seq<PythonMethodInfoView>,
    pub properties: Seq<(Seq<char>, FfiTypeView)>,
    pub class_methods: Seq<PythonMethodInfoView>,
    pub static_methods: Seq<PythonMethodInfoView>,
}

impl View for PythonClassInfo {
    type V = PythonClassInfoView;

    open spec fn view(&self) -> PythonClassInfoView {
        PythonClassInfoView {
            name: self.name@,
            constructor: opt_sig_view(self.constructor),
            methods: method_views(self.methods@),
            properties: property_views(self.properties@),
            class_methods: method_views(self.class_methods@),
            static_methods: method_views(self.static_methods@),
        }
    }
}

pub enum PythonSymbolKindView {
    Function(Seq<FfiSignatureView>),
    Class(PythonClassInfoView),
    Constant(FfiTypeView),
    Module,
}

impl View for PythonSymbolKind {
    type V = PythonSymbolKindView;

    open spec fn view(&self) -> PythonSymbolKindView {
        match self {
            PythonSymbolKind::Function(f) => PythonSymbolKindView::Function(sig_views(f.signatures@)),
            PythonSymbolKind::Class(c) => PythonSymbolKindView::Class(c@),
            PythonSymbolKind::Constant(t) => PythonSymbolKindView::Constant(t@),
            PythonSymbolKind::Module => PythonSymbolKindView::Module,
        }
    }
}

pub open spec fn opt_string_view(s: Option<String>) -> Option<Seq<char>> {
    match s {
        Some(x) => Some(x@),
        None => None,
    }
}

pub struct PythonSymbolInfoView {
    pub name: Seq<char>,
    pub kind: PythonSymbolKindView,
    pub doc: Option<Seq<char>>,
    pub is_async: bool,
    pub provenance: TypeSourceKind,
}

impl View for PythonSymbolInfo {
    type V = PythonSymbolInfoView;

    open spec fn view(&self) -> PythonSymbolInfoView {
        PythonSymbolInfoView {
            name: self.name@,
            kind: self.kind@,
            doc: opt_string_view(self.doc),
            is_async: self.is_async,
            provenance: self.provenance,
        }
    }
}

pub open spec fn symbol_views(s: Seq<PythonSymbolInfo>) -> Seq<PythonSymbolInfoView> {
    s.map_values(|x: PythonSymbolInfo| x@)
}

pub struct PythonModuleInfoView {
    pub name: Seq<char>,
    pub source: ResolvedTypeSourceView,
    pub symbols: Seq<PythonSymbolInfoView>,
    pub submodules: Seq<Seq<char>>,
}

impl View for PythonModuleInfo {
    type V = PythonModuleInfoView;

    open spec fn view(&self) -> PythonModuleInfoView {
        PythonModuleInfoView {
            name: self.name@,
            source: self.source@,
            symbols: symbol_views(self.symbols@),
            submodules: string_views(self.submodules@),
        }
    }
}

// ── Copies ──────────────────────────────────────────────────────

pub(crate) fn duplicate_signatures(v: &Vec<FfiSignature>) -> (r: Vec<FfiSignature>)
    ensures
        sig_views(r@) == sig_views(v@),
{
    let mut r: Vec<FfiSignature> = Vec::new();
    let mut i: usize = 0;
    while i < v.len()
        invariant
            i <= v@.len(),
            r@.len() == i,
            forall|j: int| 0 <= j < i ==> (#[trigger] r@[j])@ == v@[j]@,
        decreases v@.len() - i,
    {
        r.push(v[i].duplicate());
        i += 1;
    }
    assert(sig_views(r@) =~= sig_views(v@));
    r
}

fn duplicate_opt_sig(s: &Option<FfiSignature>) -> (r: Option<FfiSignature>)
    ensures
        opt_sig_view(r) == opt_sig_view(*s),
{
    match s {
        Some(x) => Some(x.duplicate()),
        None => None,
    }
}

fn duplicate_methods(v: &Vec<PythonMethodInfo>) -> (r: Vec<PythonMethodInfo>)
    ensures
        method_views(r@) == method_views(v@),
{
    let mut r: Vec<PythonMethodInfo> = Vec::new();
    let mut i: usize = 0;
    while i < v.len()
        invariant
            i <= v@.len(),
            r@.len() == i,
            forall|j: int| 0 <= j < i ==> (#[trigger] r@[j])@ == v@[j]@,
        decreases v@.len() - i,
    {
        r.push(v[i].duplicate());
        i += 1;
    }
    assert(method_views(r@) =~= method_views(v@));
    r
}

fn duplicate_properties(v: &Vec<(String, FfiType)>) -> (r: Vec<(String, FfiType)>)
    ensures
        property_views(r@) == property_views(v@),
{
    let mut r: Vec<(String, FfiType)> = Vec::new();
    let mut i: usize = 0;
    while i < v.len()
        invariant
            i <= v@.len(),
            r@.len() == i,
            forall|j: int| 0 <= j < i ==> (#[trigger] r@[j]).0@ == v@[j].0@ && r@[j].1@ == v@[j].1@,
        decreases v@.len() - i,
    {
        let (name, ty) = &v[i];
        r.push((name.clone(), ty.duplicate()));
        i += 1;
    }
    assert(property_views(r@) =~= property_views(v@));
    r
}

impl PythonMethodInfo {
    /// A copy of this method.
    pub fn duplicate(&self) -> (r: PythonMethodInfo)
        ensures
            r@ == self@,
    {
        PythonMethodInfo { name: self.name.clone(), signatures: duplicate_signatures(&self.signatures), is_async: self.is_async }
    }
}

impl PythonClassInfo {
    /// A class with no constructor, methods or properties.
    pub fn new(name: String) -> (c: PythonClassInfo)
        ensures
            c@ == (PythonClassInfoView {
                name: name@,
                constructor: None,
                methods: Seq::empty(),
                properties: Seq::empty(),
                class_methods: Seq::empty(),
                static_methods: Seq::empty(),
            }),
    {
        let c = PythonClassInfo {
            name,
            constructor: None,
            methods: Vec::new(),
            properties: Vec::new(),
            class_methods: Vec::new(),
            static_methods: Vec::new(),
        };
        assert(c@.methods =~= Seq::<PythonMethodInfoView>::empty());
        assert(c@.properties =~= Seq::<(Seq<char>, FfiTypeView)>::empty());
        assert(c@.class_methods =~= Seq::<PythonMethodInfoView>::empty());
        assert(c@.static_methods =~= Seq::<PythonMethodInfoView>::empty());
        c
    }

    /// A copy of this class.
    pub fn duplicate(&self) -> (r: PythonClassInfo)
        ensures
            r@ == self@,
    {
        PythonClassInfo {
            name: self.name.clone(),
            constructor: duplicate_opt_sig(&self.constructor),
            methods: duplicate_methods(&self.methods),
            properties: duplicate_properties(&self.properties),
            class_methods: duplicate_methods(&self.class_methods),
            static_methods: duplicate_methods(&self.static_methods),
        }
    }
}

impl PythonFunctionInfo {
    /// A function with the one signature `sig`.
    pub fn single(sig: FfiSignature) -> (f: PythonFunctionInfo)
        ensures
            sig_views(f.signatures@) == seq![sig@],
    {
        let f = PythonFunctionInfo { signatures: vec![sig] };
        assert(sig_views(f.signatures@) =~= seq![sig@]);
        f
    }

    /// Adds an overload.
    pub fn add_overload(&mut self, sig: FfiSignature)
        ensures
            sig_views(final(self).signatures@) == sig_views(old(self).signatures@).push(sig@),
    {
        self.signatures.push(sig);
        assert(sig_views(self.signatures@) =~= sig_views(old(self).signatures@).push(sig@));
    }
}

impl PythonSymbolKind {
    /// A copy of this kind.
    pub fn duplicate(&self) -> (r: PythonSymbolKind)
        ensures
            r@ == self@,
    {
        match self {
            PythonSymbolKind::Function(f) => PythonSymbolKind::Function(
                PythonFunctionInfo { signatures: duplicate_signatures(&f.signatures) },
            ),
            PythonSymbolKind::Class(c) => PythonSymbolKind::Class(c.duplicate()),
            PythonSymbolKind::Constant(t) => PythonSymbolKind::Constant(t.duplicate()),
            PythonSymbolKind::Module => PythonSymbolKind::Module,
        }
    }
}

impl PythonSymbolInfo {
    /// A copy of this symbol.
    pub fn duplicate(&self) -> (r: PythonSymbolInfo)
        ensures
            r@ == self@,
    {
        let doc = match &self.doc {
            Some(d) => Some(d.clone()),
            None => None,
        };
        PythonSymbolInfo {
            name: self.name.clone(),
            kind: self.kind.duplicate(),
            doc,
            is_async: self.is_async,
            provenance: self.provenance,
        }
    }
}

// ── Flattening for the type checker ─────────────────────────────

/// The FFI source a resolution kind is reported as.
pub open spec fn ffi_source_of(k: TypeSourceKind) -> FfiSource {
    match k {
        TypeSourceKind::CustomStubs | TypeSourceKind::StubPackage => FfiSource::StubPackage,
        TypeSourceKind::Typeshed => FfiSource::Typeshed,
        TypeSourceKind::PyTypedInline => FfiSource::PyTyped,
        TypeSourceKind::Builtin => FfiSource::Builtin,
    }
}

/// The first of a list of overloads; with none, a signature taking
/// nothing and returning `Any`.
pub open spec fn first_signature_view(sigs: Seq<FfiSignatureView>, is_async: bool) -> FfiSignatureView {
    if sigs.len() > 0 {
        sigs[0]
    } else {
        FfiSignatureView { params: Seq::empty(), return_ty: FfiTypeView::Any, is_async }
    }
}

/// Each method as a name and its first signature.
pub open spec fn method_entries(ms: Seq<PythonMethodInfoView>) -> Seq<(Seq<char>, FfiSignatureView)> {
    ms.map_values(|m: PythonMethodInfoView| (m.name, first_signature_view(m.signatures, m.is_async)))
}

/// A class as the type checker sees it: the constructor returns the class
/// itself, and instance, static and class methods form one list, in that
/// order.
pub open spec fn class_to_ffi_view(c: PythonClassInfoView, module: Seq<char>) -> FfiClassView {
    FfiClassView {
        name: c.name,
        constructor: match c.constructor {
            Some(s) => Some(FfiSignatureView { return_ty: FfiTypeView::Named { module, name: c.name }, ..s }),
            None => None,
        },
        methods: method_entries(c.methods) + method_entries(c.static_methods) + method_entries(c.class_methods),
        properties: c.properties,
    }
}

/// A symbol as the type checker sees it: a function by its first
/// overload, a submodule as a constant of type `Any`, and no trust level yet.
pub open spec fn symbol_to_ffi_view(s: PythonSymbolInfoView, module: Seq<char>) -> FfiSymbolView {
    FfiSymbolView {
        name: s.name,
        kind: match s.kind {
            PythonSymbolKindView::Function(sigs) => FfiSymbolKindView::Function(first_signature_view(sigs, s.is_async)),
            PythonSymbolKindView::Class(c) => FfiSymbolKindView::Class(class_to_ffi_view(c, module)),
            PythonSymbolKindView::Constant(t) => FfiSymbolKindView::Constant(t),
            PythonSymbolKindView::Module => FfiSymbolKindView::Constant(FfiTypeView::Any),
        },
        trust_level: None,
    }
}

/// A module as the type checker sees it: a partial stub package is only
/// `Checked`, anything else `Verified`.
pub open spec fn module_to_ffi_view(m: PythonModuleInfoView) -> FfiModuleView {
    FfiModuleView {
        name: m.name,
        source: ffi_source_of(m.source.source_kind),
        trust_level: if m.source.is_partial {
            FfiTrustLevel::Checked
        } else {
            FfiTrustLevel::Verified
        },
        symbols: m.symbols.map_values(|s: PythonSymbolInfoView| symbol_to_ffi_view(s, m.name)),
    }
}

/// In the type checker's view of a module, a class keeps its name and
/// properties, its constructor (when it has one) returns the class itself,
/// named in that module, and its methods are its instance, static and class
/// methods, each once, in that order.
pub proof fn lemma_class_in_module_view(m: PythonModuleInfoView, i: int)
    requires
        0 <= i < m.symbols.len(),
        m.symbols[i].kind is Class,
    ensures
        ({
            let c = m.symbols[i].kind->Class_0;
            let n1 = c.methods.len();
            let n2 = c.static_methods.len();
            module_to_ffi_view(m).symbols[i].kind matches FfiSymbolKindView::Class(fc) && {
                &&& fc.name == c.name
                &&& fc.properties == c.properties
                &&& (fc.constructor is Some) == (c.constructor is Some)
                &&& fc.constructor matches Some(s) ==> s.return_ty == (FfiTypeView::Named { module: m.name, name: c.name })
                &&& fc.methods.len() == n1 + n2 + c.class_methods.len()
                &&& forall|k: int| 0 <= k < n1 ==> (#[trigger] fc.methods[k]).0 == c.methods[k].name
                &&& forall|k: int| 0 <= k < n2 ==> (#[trigger] fc.methods[n1 + k]).0 == c.static_methods[k].name
                &&& forall|k: int|
                    0 <= k < c.class_methods.len() ==> (#[trigger] fc.methods[n1 + n2 + k]).0 == c.class_methods[k].name
            }
        }),
{
    let c = m.symbols[i].kind->Class_0;
    let fc = class_to_ffi_view(c, m.name);
    let n1 = c.methods.len() as int;
    let n2 = c.static_methods.len() as int;
    assert forall|k: int| 0 <= k < n2 implies (#[trigger] fc.methods[n1 + k]).0 == c.static_methods[k].name by {
        assert(fc.methods[n1 + k] == (method_entries(c.methods) + method_entries(c.static_methods))[n1 + k]);
    }
}

fn first_signature(signatures: &Vec<FfiSignature>, is_async: bool) -> (r: FfiSignature)
    ensures
        r@ == first_signature_view(sig_views(signatures@), is_async),
{
    if signatures.len() > 0 {
        signatures[0].duplicate()
    } else {
        let r = FfiSignature { params: Vec::new(), return_ty: FfiType::Any, is_async };
        assert(r@.params =~= Seq::<FfiParamView>::empty());
        r
    }
}

fn push_method_entries(out: &mut Vec<(String, FfiSignature)>, ms: &Vec<PythonMethodInfo>)
    ensures
        final(out)@.map_values(|m: (String, FfiSignature)| (m.0@, m.1@)) == old(out)@.map_values(
            |m: (String, FfiSignature)| (m.0@, m.1@),
        ) + method_entries(method_views(ms@)),
{
    let ghost start = old(out)@.map_values(|m: (String, FfiSignature)| (m.0@, m.1@));
    let mut i: usize = 0;
    while i < ms.len()
        invariant
            i <= ms@.len(),
            out@.map_values(|m: (String, FfiSignature)| (m.0@, m.1@)) == start + method_entries(
                method_views(ms@.take(i as int)),
            ),
        decreases ms@.len() - i,
    {
        let ghost before = out@;
        let m = &ms[i];
        out.push((m.name.clone(), first_signature(&m.signatures, m.is_async)));
        proof {
            assert(method_views(ms@.take(i + 1)) =~= method_views(ms@.take(i as int)).push(ms@[i as int]@));
            assert(method_entries(method_views(ms@.take(i + 1))) =~= method_entries(
                method_views(ms@.take(i as int)),
            ).push((ms@[i as int]@.name, first_signature_view(ms@[i as int]@.signatures, ms@[i as int]@.is_async))));
            assert(out@.map_values(|m: (String, FfiSignature)| (m.0@, m.1@)) =~= before.map_values(
                |m: (String, FfiSignature)| (m.0@, m.1@),
            ).push((ms@[i as int].name@, first_signature_view(sig_views(ms@[i as int].signatures@), ms@[i as int].is_async))));
        }
        i += 1;
    }
    assert(ms@.take(ms@.len() as int) =~= ms@);
}

/// A class as the type checker sees it (`class_to_ffi_view`).
pub fn class_to_ffi(info: &PythonClassInfo, module_name: &String) -> (r: FfiClass)
    ensures
        r@ == class_to_ffi_view(info@, module_name@),
{
    let constructor = match &info.constructor {
        Some(sig) => {
            let mut ctor = sig.duplicate();
            ctor.return_ty = FfiType::Named { module: module_name.clone(), name: info.name.clone() };
            Some(ctor)
        },
        None => None,
    };
    let mut methods: Vec<(String, FfiSignature)> = Vec::new();
    assert(methods@.map_values(|m: (String, FfiSignature)| (m.0@, m.1@)) =~= Seq::empty());
    push_method_entries(&mut methods, &info.methods);
    push_method_entries(&mut methods, &info.static_methods);
    push_method_entries(&mut methods, &info.class_methods);
    let r = FfiClass { name: info.name.clone(), constructor, methods, properties: duplicate_properties(&info.properties) };
    assert(r@.methods =~= class_to_ffi_view(info@, module_name@).methods);
    r
}

fn symbol_to_ffi(sym: &PythonSymbolInfo, module_name: &String) -> (r: FfiSymbol)
    ensures
        r@ == symbol_to_ffi_view(sym@, module_name@),
{
    let kind = match &sym.kind {
        PythonSymbolKind::Function(info) => FfiSymbolKind::Function(first_signature(&info.signatures, sym.is_async)),
        PythonSymbolKind::Class(info) => FfiSymbolKind::Class(class_to_ffi(info, module_name)),
        PythonSymbolKind::Constant(ty) => FfiSymbolKind::Constant(ty.duplicate()),
        PythonSymbolKind::Module => FfiSymbolKind::Constant(FfiType::Any),
    };
    FfiSymbol { name: sym.name.clone(), kind, trust_level: None }
}

impl PythonModuleInfo {
    /// A module with no symbols or submodules yet.
    pub fn new(name: String, source: ResolvedTypeSource) -> (m: PythonModuleInfo)
        ensures
            m@ == (PythonModuleInfoView {
                name: name@,
                source: source@,
                symbols: Seq::empty(),
                submodules: Seq::empty(),
            }),
    {
        let m = PythonModuleInfo { name, source, symbols: Vec::new(), submodules: Vec::new() };
        assert(m@.symbols =~= Seq::<PythonSymbolInfoView>::empty());
        assert(m@.submodules =~= Seq::<Seq<char>>::empty());
        m
    }

    /// A copy of this module.
    pub fn duplicate(&self) -> (r: PythonModuleInfo)
        ensures
            r@ == self@,
    {
        let mut symbols: Vec<PythonSymbolInfo> = Vec::new();
        let mut i: usize = 0;
        while i < self.symbols.len()
            invariant
                i <= self.symbols@.len(),
                symbols@.len() == i,
                forall|j: int| 0 <= j < i ==> (#[trigger] symbols@[j])@ == self.symbols@[j]@,
            decreases self.symbols@.len() - i,
        {
            symbols.push(self.symbols[i].duplicate());
            i += 1;
        }
        let r = PythonModuleInfo {
            name: self.name.clone(),
            source: self.source.duplicate(),
            symbols,
            submodules: crate::ffi_source::duplicate_strings(&self.submodules),
        };
        assert(r@.symbols =~= self@.symbols);
        r
    }

    /// Adds a symbol.
    pub fn add_symbol(&mut self, symbol: PythonSymbolInfo)
        ensures
            final(self)@ == (PythonModuleInfoView { symbols: old(self)@.symbols.push(symbol@), ..old(self)@ }),
    {
        self.symbols.push(symbol);
        assert(symbol_views(self.symbols@) =~= symbol_views(old(self).symbols@).push(symbol@));
    }

    /// The module as the type checker sees it. Of overloaded functions and
    /// methods only the first signature is kept.
    pub fn to_ffi_module(&self) -> (r: FfiModule)
        ensures
            r@ == module_to_ffi_view(self@),
    {
        let source = match self.source.source_kind {
            TypeSourceKind::CustomStubs | TypeSourceKind::StubPackage => FfiSource::StubPackage,
            TypeSourceKind::Typeshed => FfiSource::Typeshed,
            TypeSourceKind::PyTypedInline => FfiSource::PyTyped,
            TypeSourceKind::Builtin => FfiSource::Builtin,
        };
        let mut symbols: Vec<FfiSymbol> = Vec::new();
        let mut i: usize = 0;
        while i < self.symbols.len()
            invariant
                i <= self.symbols@.len(),
                symbols@.len() == i,
                forall|j: int|
                    0 <= j < i ==> (#[trigger] symbols@[j])@ == symbol_to_ffi_view(self.symbols@[j]@, self.name@),
            decreases self.symbols@.len() - i,
        {
            symbols.push(symbol_to_ffi(&self.symbols[i], &self.name));
            i += 1;
        }
        let trust_level = if self.source.is_partial {
            FfiTrustLevel::Checked
        } else {
            FfiTrustLevel::Verified
        };
        let r = FfiModule { name: self.name.clone(), source, trust_level, symbols };
        assert(r@.symbols =~= module_to_ffi_view(self@).symbols);
        r
    }
}

// ── Merging a lower-priority source ─────────────────────────────

/// The index of the first method named `name`, from `i` on; -1 when none.
pub open spec fn first_method(ms: Seq<PythonMethodInfoView>, name: Seq<char>, i: int) -> int
    decreases ms.len() - i,
{
    if i < 0 || i >= ms.len() {
        -1
    } else if ms[i].name == name {
        i
    } else {
        first_method(ms, name, i + 1)
    }
}

/// The index of the first symbol named `name`, from `i` on; -1 when none.
pub open spec fn first_symbol(ss: Seq<PythonSymbolInfoView>, name: Seq<char>, i: int) -> int
    decreases ss.len() - i,
{
    if i < 0 || i >= ss.len() {
        -1
    } else if ss[i].name == name {
        i
    } else {
        first_symbol(ss, name, i + 1)
    }
}

/// Whether some property is named `name`.
pub open spec fn has_property(ps: Seq<(Seq<char>, FfiTypeView)>, name: Seq<char>) -> bool {
    exists|i: int| 0 <= i < ps.len() && (#[trigger] ps[i]).0 == name
}

/// `cur` followed by those of the first `k` signatures of `inc` that are
/// new, each compared against the list as it has grown so far.
pub open spec fn add_new_sigs(cur: Seq<FfiSignatureView>, inc: Seq<FfiSignatureView>, k: int) -> Seq<
    FfiSignatureView,
>
    decreases k,
{
    if k <= 0 || k > inc.len() {
        cur
    } else {
        let prev = add_new_sigs(cur, inc, k - 1);
        if prev.contains(inc[k - 1]) {
            prev
        } else {
            prev.push(inc[k - 1])
        }
    }
}

/// Methods merged by name: a method already present gains the new
/// overloads of the incoming one; any other is appended.
pub open spec fn merge_methods_view(cur: Seq<PythonMethodInfoView>, inc: Seq<PythonMethodInfoView>, k: int) -> Seq<
    PythonMethodInfoView,
>
    decreases k,
{
    if k <= 0 || k > inc.len() {
        cur
    } else {
        let prev = merge_methods_view(cur, inc, k - 1);
        let m = inc[k - 1];
        let j = first_method(prev, m.name, 0);
        if j >= 0 {
            prev.update(
                j,
                PythonMethodInfoView {
                    signatures: add_new_sigs(prev[j].signatures, m.signatures, m.signatures.len() as int),
                    ..prev[j]
                },
            )
        } else {
            prev.push(m)
        }
    }
}

/// Properties merged by name: only those not yet present are appended.
pub open spec fn add_new_properties(
    cur: Seq<(Seq<char>, FfiTypeView)>,
    inc: Seq<(Seq<char>, FfiTypeView)>,
    k: int,
) -> Seq<(Seq<char>, FfiTypeView)>
    decreases k,
{
    if k <= 0 || k > inc.len() {
        cur
    } else {
        let prev = add_new_properties(cur, inc, k - 1);
        if has_property(prev, inc[k - 1].0) {
            prev
        } else {
            prev.push(inc[k - 1])
        }
    }
}

/// Names not yet present appended, in order.
pub open spec fn add_new_names(cur: Seq<Seq<char>>, inc: Seq<Seq<char>>, k: int) -> Seq<Seq<char>>
    decreases k,
{
    if k <= 0 || k > inc.len() {
        cur
    } else {
        let prev = add_new_names(cur, inc, k - 1);
        if prev.contains(inc[k - 1]) {
            prev
        } else {
            prev.push(inc[k - 1])
        }
    }
}

/// Class `e` completed from class `i`: a missing constructor is taken,
/// and methods and properties are merged by name.
pub open spec fn merge_class_view(e: PythonClassInfoView, i: PythonClassInfoView) -> PythonClassInfoView {
    PythonClassInfoView {
        name: e.name,
        constructor: if e.constructor is None {
            i.constructor
        } else {
            e.constructor
        },
        methods: merge_methods_view(e.methods, i.methods, i.methods.len() as int),
        properties: add_new_properties(e.properties, i.properties, i.properties.len() as int),
        class_methods: merge_methods_view(e.class_methods, i.class_methods, i.class_methods.len() as int),
        static_methods: merge_methods_view(e.static_methods, i.static_methods, i.static_methods.len() as int),
    }
}

/// Symbol `e` completed from a symbol of the same name: two functions
/// pool their overloads, two classes merge; otherwise `e` stays.
pub open spec fn merge_symbol_view(e: PythonSymbolInfoView, i: PythonSymbolInfoView) -> PythonSymbolInfoView {
    match (e.kind, i.kind) {
        (PythonSymbolKindView::Function(a), PythonSymbolKindView::Function(b)) => PythonSymbolInfoView {
            kind: PythonSymbolKindView::Function(add_new_sigs(a, b, b.len() as int)),
            ..e
        },
        (PythonSymbolKindView::Class(a), PythonSymbolKindView::Class(b)) => PythonSymbolInfoView {
            kind: PythonSymbolKindView::Class(merge_class_view(a, b)),
            ..e
        },
        _ => e,
    }
}

/// Symbols merged by name: one already present is completed from the
/// incoming one; any other is appended.
pub open spec fn merge_symbols_view(cur: Seq<PythonSymbolInfoView>, inc: Seq<PythonSymbolInfoView>, k: int) -> Seq<
    PythonSymbolInfoView,
>
    decreases k,
{
    if k <= 0 || k > inc.len() {
        cur
    } else {
        let prev = merge_symbols_view(cur, inc, k - 1);
        let j = first_symbol(prev, inc[k - 1].name, 0);
        if j >= 0 {
            prev.update(j, merge_symbol_view(prev[j], inc[k - 1]))
        } else {
            prev.push(inc[k - 1])
        }
    }
}

/// The names of a list of symbols, in order.
pub open spec fn symbol_names(ss: Seq<PythonSymbolInfoView>) -> Seq<Seq<char>> {
    ss.map_values(|s: PythonSymbolInfoView| s.name)
}

/// `first_symbol` finds a symbol exactly when some symbol from `i` on has
/// the name.
proof fn lemma_first_symbol_found(ss: Seq<PythonSymbolInfoView>, name: Seq<char>, i: int)
    requires
        0 <= i <= ss.len(),
    ensures
        (first_symbol(ss, name, i) >= 0) == (exists|j: int| i <= j < ss.len() && (#[trigger] ss[j]).name == name),
        first_symbol(ss, name, i) >= 0 ==> i <= first_symbol(ss, name, i) < ss.len() && ss[first_symbol(
            ss,
            name,
            i,
        )].name == name,
    decreases ss.len() - i,
{
    if i < ss.len() {
        lemma_first_symbol_found(ss, name, i + 1);
        if ss[i].name != name {
            if exists|j: int| i <= j < ss.len() && (#[trigger] ss[j]).name == name {
                let j = choose|j: int| i <= j < ss.len() && (#[trigger] ss[j]).name == name;
                assert(i + 1 <= j);
            }
        }
    }
}

/// Merging symbols keeps the names already there, in their places, and
/// appends each incoming name not yet present, once, in incoming order.
pub proof fn lemma_merge_keeps_name_order(cur: Seq<PythonSymbolInfoView>, inc: Seq<PythonSymbolInfoView>, k: int)
    requires
        0 <= k <= inc.len(),
    ensures
        symbol_names(merge_symbols_view(cur, inc, k)) == add_new_names(symbol_names(cur), symbol_names(inc), k),
    decreases k,
{
    if k > 0 {
        lemma_merge_keeps_name_order(cur, inc, k - 1);
        let prev = merge_symbols_view(cur, inc, k - 1);
        let name = inc[k - 1].name;
        lemma_first_symbol_found(prev, name, 0);
        let j = first_symbol(prev, name, 0);
        assert(symbol_names(inc)[k - 1] == name);
        if j >= 0 {
            assert(symbol_names(prev)[j] == name);
            assert(symbol_names(prev).contains(name));
            assert(symbol_names(prev.update(j, merge_symbol_view(prev[j], inc[k - 1]))) =~= symbol_names(prev));
        } else {
            assert(!symbol_names(prev).contains(name)) by {
                if symbol_names(prev).contains(name) {
                    let i = choose|i: int| 0 <= i < symbol_names(prev).len() && symbol_names(prev)[i] == name;
                    assert(prev[i].name == name);
                }
            }
            assert(symbol_names(prev.push(inc[k - 1])) =~= symbol_names(prev).push(name));
        }
    }
}

/// Adding new names keeps the names already there as a prefix.
pub proof fn lemma_add_new_names_prefix(cur: Seq<Seq<char>>, inc: Seq<Seq<char>>, k: int)
    ensures
        add_new_names(cur, inc, k).len() >= cur.len(),
        add_new_names(cur, inc, k).subrange(0, cur.len() as int) == cur,
    decreases k,
{
    if k > 0 && k <= inc.len() {
        lemma_add_new_names_prefix(cur, inc, k - 1);
        let prev = add_new_names(cur, inc, k - 1);
        if !prev.contains(inc[k - 1]) {
            assert(prev.push(inc[k - 1]).subrange(0, cur.len() as int) =~= prev.subrange(0, cur.len() as int));
        }
    } else {
        assert(cur.subrange(0, cur.len() as int) =~= cur);
    }
}

/// Merging a lower-priority source into a module keeps the module's name
/// and source, keeps its submodules as a prefix of the merged ones, and
/// keeps its symbols, by name and in place, as a prefix of the merged ones.
pub proof fn lemma_merge_keeps_old_members(a: PythonModuleInfoView, b: PythonModuleInfoView)
    ensures
        merge_module_view(a, b).name == a.name,
        merge_module_view(a, b).source == a.source,
        merge_module_view(a, b).submodules.len() >= a.submodules.len(),
        merge_module_view(a, b).submodules.subrange(0, a.submodules.len() as int) == a.submodules,
        merge_module_view(a, b).symbols.len() >= a.symbols.len(),
        symbol_names(merge_module_view(a, b).symbols).subrange(0, a.symbols.len() as int) == symbol_names(
            a.symbols,
        ),
{
    lemma_add_new_names_prefix(a.submodules, b.submodules, b.submodules.len() as int);
    lemma_merge_keeps_name_order(a.symbols, b.symbols, b.symbols.len() as int);
    lemma_add_new_names_prefix(symbol_names(a.symbols), symbol_names(b.symbols), b.symbols.len() as int);
}

/// Module `a` completed from the lower-priority module `b`.
pub open spec fn merge_module_view(a: PythonModuleInfoView, b: PythonModuleInfoView) -> PythonModuleInfoView {
    PythonModuleInfoView {
        symbols: merge_symbols_view(a.symbols, b.symbols, b.symbols.len() as int),
        submodules: add_new_names(a.submodules, b.submodules, b.submodules.len() as int),
        ..a
    }
}

fn contains_sig(v: &Vec<FfiSignature>, s: &FfiSignature) -> (b: bool)
    ensures
        b == sig_views(v@).contains(s@),
{
    let mut i: usize = 0;
    while i < v.len()
        invariant
            i <= v@.len(),
            forall|j: int| 0 <= j < i ==> v@[j]@ != s@,
        decreases v@.len() - i,
    {
        if v[i].same_as(s) {
            assert(sig_views(v@)[i as int] == s@);
            return true;
        }
        i += 1;
    }
    proof {
        if sig_views(v@).contains(s@) {
            let j = choose|j: int| 0 <= j < sig_views(v@).len() && sig_views(v@)[j] == s@;
            assert(v@[j]@ == s@);
        }
    }
    false
}

fn add_new_signatures(cur: &mut Vec<FfiSignature>, inc: &Vec<FfiSignature>)
    ensures
        sig_views(final(cur)@) == add_new_sigs(sig_views(old(cur)@), sig_views(inc@), inc@.len() as int),
{
    let ghost start = sig_views(old(cur)@);
    let mut k: usize = 0;
    while k < inc.len()
        invariant
            k <= inc@.len(),
            sig_views(cur@) == add_new_sigs(start, sig_views(inc@), k as int),
        decreases inc@.len() - k,
    {
        if !contains_sig(cur, &inc[k]) {
            let ghost before = sig_views(cur@);
            cur.push(inc[k].duplicate());
            assert(sig_views(cur@) =~= before.push(inc@[k as int]@));
        }
        k += 1;
    }
}

pub(crate) fn find_method(ms: &Vec<PythonMethodInfo>, name: &String) -> (r: Option<usize>)
    ensures
        match r {
            Some(j) => j == first_method(method_views(ms@), name@, 0) && j < ms@.len(),
            None => first_method(method_views(ms@), name@, 0) == -1,
        },
{
    let ghost mv = method_views(ms@);
    let mut i: usize = 0;
    while i < ms.len()
        invariant
            i <= ms@.len(),
            mv == method_views(ms@),
            first_method(mv, name@, 0) == first_method(mv, name@, i as int),
        decreases ms@.len() - i,
    {
        if ms[i].name.eq(name) {
            return Some(i);
        }
        i += 1;
    }
    None
}

fn merge_methods(cur: &mut Vec<PythonMethodInfo>, inc: &Vec<PythonMethodInfo>)
    ensures
        method_views(final(cur)@) == merge_methods_view(method_views(old(cur)@), method_views(inc@), inc@.len() as int),
{
    let ghost start = method_views(old(cur)@);
    let mut k: usize = 0;
    while k < inc.len()
        invariant
            k <= inc@.len(),
            method_views(cur@) == merge_methods_view(start, method_views(inc@), k as int),
        decreases inc@.len() - k,
    {
        let ghost before = method_views(cur@);
        let m = &inc[k];
        match find_method(cur, &m.name) {
            Some(j) => {
                let ghost old_j = cur@[j as int];
                add_new_signatures(&mut cur[j].signatures, &m.signatures);
                assert(method_views(cur@) =~= before.update(
                    j as int,
                    PythonMethodInfoView {
                        signatures: add_new_sigs(before[j as int].signatures, m@.signatures, m@.signatures.len() as int),
                        ..before[j as int]
                    },
                ));
            },
            None => {
                cur.push(m.duplicate());
                assert(method_views(cur@) =~= before.push(m@));
            },
        }
        k += 1;
    }
}

fn has_property_named(ps: &Vec<(String, FfiType)>, name: &String) -> (b: bool)
    ensures
        b == has_property(property_views(ps@), name@),
{
    let mut i: usize = 0;
    while i < ps.len()
        invariant
            i <= ps@.len(),
            forall|j: int| 0 <= j < i ==> ps@[j].0@ != name@,
        decreases ps@.len() - i,
    {
        if ps[i].0.eq(name) {
            assert(property_views(ps@)[i as int].0 == name@);
            return true;
        }
        i += 1;
    }
    proof {
        if has_property(property_views(ps@), name@) {
            let j = choose|j: int| 0 <= j < property_views(ps@).len() && (#[trigger] property_views(ps@)[j]).0 == name@;
            assert(ps@[j].0@ == name@);
        }
    }
    false
}

fn merge_properties(cur: &mut Vec<(String, FfiType)>, inc: &Vec<(String, FfiType)>)
    ensures
        property_views(final(cur)@) == add_new_properties(property_views(old(cur)@), property_views(inc@), inc@.len() as int),
{
    let ghost start = property_views(old(cur)@);
    let mut k: usize = 0;
    while k < inc.len()
        invariant
            k <= inc@.len(),
            property_views(cur@) == add_new_properties(start, property_views(inc@), k as int),
        decreases inc@.len() - k,
    {
        let (name, ty) = &inc[k];
        if !has_property_named(cur, name) {
            let ghost before = property_views(cur@);
            cur.push((name.clone(), ty.duplicate()));
            assert(property_views(cur@) =~= before.push(property_views(inc@)[k as int]));
        }
        k += 1;
    }
}

fn merge_class(existing: &mut PythonClassInfo, incoming: &PythonClassInfo)
    ensures
        final(existing)@ == merge_class_view(old(existing)@, incoming@),
{
    if existing.constructor.is_none() {
        existing.constructor = duplicate_opt_sig(&incoming.constructor);
    }
    merge_methods(&mut existing.methods, &incoming.methods);
    merge_methods(&mut existing.class_methods, &incoming.class_methods);
    merge_methods(&mut existing.static_methods, &incoming.static_methods);
    merge_properties(&mut existing.properties, &incoming.properties);
}

fn merge_symbol(existing: &mut PythonSymbolInfo, incoming: &PythonSymbolInfo)
    ensures
        final(existing)@ == merge_symbol_view(old(existing)@, incoming@),
{
    match (&mut existing.kind, &incoming.kind) {
        (PythonSymbolKind::Function(e), PythonSymbolKind::Function(i)) => {
            add_new_signatures(&mut e.signatures, &i.signatures);
        },
        (PythonSymbolKind::Class(e), PythonSymbolKind::Class(i)) => {
            merge_class(e, i);
        },
        _ => {},
    }
}

pub(crate) fn find_symbol(ss: &Vec<PythonSymbolInfo>, name: &String) -> (r: Option<usize>)
    ensures
        match r {
            Some(j) => j == first_symbol(symbol_views(ss@), name@, 0) && j < ss@.len(),
            None => first_symbol(symbol_views(ss@), name@, 0) == -1,
        },
{
    let ghost sv = symbol_views(ss@);
    let mut i: usize = 0;
    while i < ss.len()
        invariant
            i <= ss@.len(),
            sv == symbol_views(ss@),
            first_symbol(sv, name@, 0) == first_symbol(sv, name@, i as int),
        decreases ss@.len() - i,
    {
        if ss[i].name.eq(name) {
            return Some(i);
        }
        i += 1;
    }
    None
}

pub(crate) fn contains_string(v: &Vec<String>, s: &String) -> (b: bool)
    ensures
        b == string_views(v@).contains(s@),
{
    let mut i: usize = 0;
    while i < v.len()
        invariant
            i <= v@.len(),
            forall|j: int| 0 <= j < i ==> v@[j]@ != s@,
        decreases v@.len() - i,
    {
        if v[i].eq(s) {
            assert(string_views(v@)[i as int] == s@);
            return true;
        }
        i += 1;
    }
    proof {
        if string_views(v@).contains(s@) {
            let j = choose|j: int| 0 <= j < string_views(v@).len() && string_views(v@)[j] == s@;
            assert(v@[j]@ == s@);
        }
    }
    false
}

impl PythonModuleInfo {
    /// Completes this module from a lower-priority source of the same
    /// module (a partial stub package from the runtime package): symbols
    /// and submodules it lacks are added, and symbols it has gain what the
    /// other source adds to them.
    pub fn merge_from(&mut self, other: PythonModuleInfo)
        ensures
            final(self)@ == merge_module_view(old(self)@, other@),
    {
        let ghost start = symbol_views(old(self).symbols@);
        let mut k: usize = 0;
        while k < other.symbols.len()
            invariant
                k <= other.symbols@.len(),
                self.name@ == old(self).name@,
                self.source@ == old(self).source@,
                self.submodules@ == old(self).submodules@,
                symbol_views(self.symbols@) == merge_symbols_view(start, symbol_views(other.symbols@), k as int),
            decreases other.symbols@.len() - k,
        {
            let ghost before = symbol_views(self.symbols@);
            let sym = &other.symbols[k];
            match find_symbol(&self.symbols, &sym.name) {
                Some(j) => {
                    merge_symbol(&mut self.symbols[j], sym);
                    assert(symbol_views(self.symbols@) =~= before.update(j as int, merge_symbol_view(before[j as int], sym@)));
                },
                None => {
                    self.symbols.push(sym.duplicate());
                    assert(symbol_views(self.symbols@) =~= before.push(sym@));
                },
            }
            k += 1;
        }
        let ghost start_names = string_views(old(self).submodules@);
        let mut k: usize = 0;
        while k < other.submodules.len()
            invariant
                k <= other.submodules@.len(),
                self.name@ == old(self).name@,
                self.source@ == old(self).source@,
                symbol_views(self.symbols@) == merge_symbols_view(
                    start,
                    symbol_views(other.symbols@),
                    other.symbols@.len() as int,
                ),
                string_views(self.submodules@) == add_new_names(start_names, string_views(other.submodules@), k as int),
            decreases other.submodules@.len() - k,
        {
            let name = &other.submodules[k];
            if !contains_string(&self.submodules, name) {
                let ghost before = string_views(self.submodules@);
                self.submodules.push(name.clone());
                assert(string_views(self.submodules@) =~= before.push(name@));
            }
            k += 1;
        }
    }
}

// ── The index ───────────────────────────────────────────────────

pub open spec fn module_views(s: Seq<PythonModuleInfo>) -> Seq<PythonModuleInfoView> {
    s.map_values(|m: PythonModuleInfo| m@)
}

/// The index of the first module named `name`, from `i` on; -1 when none.
pub open spec fn first_module(ms: Seq<PythonModuleInfoView>, name: Seq<char>, i: int) -> int
    decreases ms.len() - i,
{
    if i < 0 || i >= ms.len() {
        -1
    } else if ms[i].name == name {
        i
    } else {
        first_module(ms, name, i + 1)
    }
}

/// The module an index holds under `name`.
pub open spec fn lookup_module(ms: Seq<PythonModuleInfoView>, name: Seq<char>) -> Option<PythonModuleInfoView> {
    let j = first_module(ms, name, 0);
    if 0 <= j < ms.len() {
        Some(ms[j])
    } else {
        None
    }
}

/// The entries after storing `m` under its name: it replaces the module
/// of that name, or is appended.
pub open spec fn insert_module(ms: Seq<PythonModuleInfoView>, m: PythonModuleInfoView) -> Seq<PythonModuleInfoView> {
    let j = first_module(ms, m.name, 0);
    if j >= 0 {
        ms.update(j, m)
    } else {
        ms.push(m)
    }
}

/// The symbols named `name` among the first `j` of module `m`, each with
/// the module's name.
pub open spec fn matches_in(m: PythonModuleInfoView, name: Seq<char>, j: int) -> Seq<(Seq<char>, PythonSymbolInfoView)>
    decreases j,
{
    if j <= 0 || j > m.symbols.len() {
        Seq::empty()
    } else {
        matches_in(m, name, j - 1) + if m.symbols[j - 1].name == name {
            seq![(m.name, m.symbols[j - 1])]
        } else {
            Seq::empty()
        }
    }
}

/// The symbols named `name` in the first `k` modules, module by module.
pub open spec fn symbol_matches(ms: Seq<PythonModuleInfoView>, name: Seq<char>, k: int) -> Seq<
    (Seq<char>, PythonSymbolInfoView),
>
    decreases k,
{
    if k <= 0 || k > ms.len() {
        Seq::empty()
    } else {
        symbol_matches(ms, name, k - 1) + matches_in(ms[k - 1], name, ms[k - 1].symbols.len() as int)
    }
}

proof fn lemma_first_module(ms: Seq<PythonModuleInfoView>, name: Seq<char>, i: int)
    requires
        0 <= i <= ms.len(),
    ensures
        first_module(ms, name, i) == -1 || (i <= first_module(ms, name, i) < ms.len() && ms[first_module(
            ms,
            name,
            i,
        )].name == name),
        forall|j: int| i <= j < ms.len() && j < first_module(ms, name, i) ==> ms[j].name != name,
        first_module(ms, name, i) == -1 ==> forall|j: int| i <= j < ms.len() ==> ms[j].name != name,
    decreases ms.len() - i,
{
    if i < ms.len() && ms[i].name != name {
        lemma_first_module(ms, name, i + 1);
    }
}

proof fn lemma_first_module_unique(ms: Seq<PythonModuleInfoView>, name: Seq<char>, j: int)
    requires
        0 <= j < ms.len(),
        ms[j].name == name,
        forall|x: int| 0 <= x < j ==> ms[x].name != name,
    ensures
        first_module(ms, name, 0) == j,
    decreases j,
{
    lemma_first_module_from(ms, name, 0, j);
}

proof fn lemma_first_module_from(ms: Seq<PythonModuleInfoView>, name: Seq<char>, i: int, j: int)
    requires
        0 <= i <= j < ms.len(),
        ms[j].name == name,
        forall|x: int| i <= x < j ==> ms[x].name != name,
    ensures
        first_module(ms, name, i) == j,
    decreases j - i,
{
    if i < j {
        lemma_first_module_from(ms, name, i + 1, j);
    }
}

impl PythonApiIndex {
    /// The modules, in the order their names were first stored.
    pub closed spec fn entries(&self) -> Seq<PythonModuleInfoView> {
        module_views(self.modules@)
    }

    /// An empty index.
    pub fn new() -> (r: PythonApiIndex)
        ensures
            r.entries() == Seq::<PythonModuleInfoView>::empty(),
    {
        let r = PythonApiIndex { modules: Vec::new() };
        assert(r.entries() =~= Seq::<PythonModuleInfoView>::empty());
        r
    }

    /// Stores `module` under its name, replacing any module of that name.
    pub fn insert(&mut self, module: PythonModuleInfo)
        ensures
            final(self).entries() == insert_module(old(self).entries(), module@),
    {
        let ghost before = self.entries();
        let mut i: usize = 0;
        while i < self.modules.len()
            invariant
                i <= self.modules@.len(),
                before == module_views(self.modules@),
                before == old(self).entries(),
                first_module(before, module@.name, 0) == first_module(before, module@.name, i as int),
            decreases self.modules@.len() - i,
        {
            if self.modules[i].name.eq(&module.name) {
                assert(before[i as int].name == module@.name);
                assert(first_module(before, module@.name, i as int) == i);
                self.modules.set(i, module);
                assert(self.entries() =~= before.update(i as int, module@));
                return;
            }
            i += 1;
        }
        self.modules.push(module);
        assert(self.entries() =~= before.push(module@));
    }

    /// The module stored under `module_name`.
    pub fn get(&self, module_name: &str) -> (r: Option<&PythonModuleInfo>)
        ensures
            match r {
                Some(m) => lookup_module(self.entries(), module_name@) == Some(m@),
                None => lookup_module(self.entries(), module_name@) is None,
            },
    {
        let ghost es = self.entries();
        let mut i: usize = 0;
        while i < self.modules.len()
            invariant
                i <= self.modules@.len(),
                es == module_views(self.modules@),
                first_module(es, module_name@, 0) == first_module(es, module_name@, i as int),
            decreases self.modules@.len() - i,
        {
            if crate::text::str_eq(self.modules[i].name.as_str(), module_name) {
                return Some(&self.modules[i]);
            }
            i += 1;
        }
        None
    }

    /// Every module's symbols named `symbol_name`, each with its module's
    /// name: module by module, then in each module's order.
    pub fn find_modules_for_symbol(&self, symbol_name: &str) -> (r: Vec<(&String, &PythonSymbolInfo)>)
        ensures
            r@.map_values(|p: (&String, &PythonSymbolInfo)| (p.0@, p.1@)) == symbol_matches(
                self.entries(),
                symbol_name@,
                self.entries().len() as int,
            ),
    {
        let ghost es = self.entries();
        let mut r: Vec<(&String, &PythonSymbolInfo)> = Vec::new();
        let mut k: usize = 0;
        while k < self.modules.len()
            invariant
                k <= self.modules@.len(),
                es == module_views(self.modules@),
                r@.map_values(|p: (&String, &PythonSymbolInfo)| (p.0@, p.1@)) == symbol_matches(es, symbol_name@, k as int),
            decreases self.modules@.len() - k,
        {
            let m = &self.modules[k];
            let ghost base = r@.map_values(|p: (&String, &PythonSymbolInfo)| (p.0@, p.1@));
            let mut j: usize = 0;
            while j < m.symbols.len()
                invariant
                    k < self.modules@.len(),
                    *m == self.modules@[k as int],
                    j <= m.symbols@.len(),
                    es == module_views(self.modules@),
                    base == symbol_matches(es, symbol_name@, k as int),
                    r@.map_values(|p: (&String, &PythonSymbolInfo)| (p.0@, p.1@)) == base + matches_in(m@, symbol_name@, j as int),
                decreases m.symbols@.len() - j,
            {
                let ghost prev = r@.map_values(|p: (&String, &PythonSymbolInfo)| (p.0@, p.1@));
                if crate::text::str_eq(m.symbols[j].name.as_str(), symbol_name) {
                    r.push((&m.name, &m.symbols[j]));
                    assert(r@.map_values(|p: (&String, &PythonSymbolInfo)| (p.0@, p.1@)) =~= prev.push(
                        (m@.name, m@.symbols[j as int]),
                    ));
                    assert(matches_in(m@, symbol_name@, j + 1) =~= matches_in(m@, symbol_name@, j as int).push(
                        (m@.name, m@.symbols[j as int]),
                    ));
                } else {
                    assert(matches_in(m@, symbol_name@, j + 1) =~= matches_in(m@, symbol_name@, j as int));
                }
                j += 1;
            }
            assert(es[k as int] == m@);
            k += 1;
        }
        r
    }
}

/// A read gives back the last write: after storing `m`, looking up its
/// name gives `m`, and every other name gives what it gave before.
pub proof fn lemma_lookup_after_insert(ms: Seq<PythonModuleInfoView>, m: PythonModuleInfoView, name: Seq<char>)
    ensures
        lookup_module(insert_module(ms, m), m.name) == Some(m),
        name != m.name ==> lookup_module(insert_module(ms, m), name) == lookup_module(ms, name),
{
    let after = insert_module(ms, m);
    let j = first_module(ms, m.name, 0);
    lemma_first_module(ms, m.name, 0);
    lemma_first_module(ms, name, 0);
    if j >= 0 {
        lemma_first_module_unique(after, m.name, j);
        let t = first_module(ms, name, 0);
        if name != m.name {
            if t >= 0 {
                lemma_first_module_unique(after, name, t);
            } else {
                lemma_first_module(after, name, 0);
            }
        }
    } else {
        lemma_first_module_unique(after, m.name, ms.len() as int);
        let t = first_module(ms, name, 0);
        if name != m.name {
            if t >= 0 {
                lemma_first_module_unique(after, name, t);
            } else {
                lemma_first_module(after, name, 0);
            }
        }
    }
}

} // verus!
