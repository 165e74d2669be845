//! The FFI model: Python module type information as the compiler sees it,
//! independent of where it was read from.
use vstd::prelude::*;

verus! {

/// Where the type information of an FFI module was obtained, in PEP 561
/// priority order.
#[derive(Debug, Clone, Copy, PartialEq, Eq, Structural)]
pub enum FfiSource {
    /// Package ships inline type annotations (`py.typed` marker).
    PyTyped,
    /// Stub-only package (e.g., `types-requests`).
    StubPackage,
    /// Bundled typeshed stubs.
    Typeshed,
    /// Hand-crafted signatures (fallback).
    Builtin,
}

/// How far the compiler trusts an imported symbol, from least to most
/// trusted: `Unsafe < Checked < Verified`.
#[derive(Debug, Clone, Copy, PartialEq, Eq, Structural, PartialOrd, Ord, Hash)]
pub enum FfiTrustLevel {
    /// Dynamic or untyped surface, isolated as opaque values.
    Unsafe,
    /// Static types present but not fully sound; needs runtime wrappers.
    Checked,
    /// Fully typed, no `Any` leaks.
    Verified,
}

/// The rank of a trust level: its place in `Unsafe < Checked < Verified`.
pub open spec fn trust_rank(t: FfiTrustLevel) -> int {
    match t {
        FfiTrustLevel::Unsafe => 0,
        FfiTrustLevel::Checked => 1,
        FfiTrustLevel::Verified => 2,
    }
}

/// The less trusted of two levels.
pub open spec fn spec_min_trust(a: FfiTrustLevel, b: FfiTrustLevel) -> FfiTrustLevel {
    if trust_rank(a) <= trust_rank(b) {
        a
    } else {
        b
    }
}

/// The less trusted of two levels.
pub fn min_trust(a: FfiTrustLevel, b: FfiTrustLevel) -> (r: FfiTrustLevel)
    ensures
        r == spec_min_trust(a, b),
{
    if trust_rank_of(a) <= trust_rank_of(b) {
        a
    } else {
        b
    }
}

/// The rank of a trust level.
pub fn trust_rank_of(t: FfiTrustLevel) -> (r: u8)
    ensures
        r == trust_rank(t),
{
    match t {
        FfiTrustLevel::Unsafe => 0,
        FfiTrustLevel::Checked => 1,
        FfiTrustLevel::Verified => 2,
    }
}

/// A Python type in FFI terms.
#[derive(Debug)]
pub enum FfiType {
    Int,
    Float,
    Str,
    Bool,
    NoneType,
    Bytes,
    List(Box<FfiType>),
    Dict(Box<FfiType>, Box<FfiType>),
    Tuple(Vec<FfiType>),
    Optional(Box<FfiType>),
    Union(Vec<FfiType>),
    /// A named type from Python (e.g., `pathlib.Path`).
    Named { module: String, name: String },
    /// Python `Any`, treated as unsafe.
    Any,
}

/// Whether `Any` occurs anywhere in `t`.
pub open spec fn type_has_any(t: FfiType) -> bool
    decreases t, 0int,
{
    match t {
        FfiType::Any => true,
        FfiType::List(inner) => type_has_any(*inner),
        FfiType::Optional(inner) => type_has_any(*inner),
        FfiType::Dict(k, v) => type_has_any(*k) || type_has_any(*v),
        FfiType::Tuple(es) => types_have_any(es@, es@.len() as int),
        FfiType::Union(es) => types_have_any(es@, es@.len() as int),
        _ => false,
    }
}

/// Whether `Any` occurs in one of the first `n` types of `ts`.
pub open spec fn types_have_any(ts: Seq<FfiType>, n: int) -> bool
    decreases ts, n,
{
    if n <= 0 || n > ts.len() {
        false
    } else {
        types_have_any(ts, n - 1) || type_has_any(ts[n - 1])
    }
}

impl FfiType {
    /// Returns `true` if `Any` appears anywhere in this type.
    pub fn contains_any(&self) -> (b: bool)
        ensures
            b == type_has_any(*self),
        decreases *self,
    {
        match self {
            FfiType::Any => true,
            FfiType::List(inner) => inner.contains_any(),
            FfiType::Optional(inner) => inner.contains_any(),
            FfiType::Dict(k, v) => k.contains_any() || v.contains_any(),
            FfiType::Tuple(es) => types_contain_any(es),
            FfiType::Union(es) => types_contain_any(es),
            _ => false,
        }
    }
}

/// Whether `Any` occurs in one of `es`.
fn types_contain_any(es: &Vec<FfiType>) -> (b: bool)
    ensures
        b == types_have_any(es@, es@.len() as int),
    decreases es,
{
    let mut i: usize = 0;
    while i < es.len()
        invariant
            i <= es@.len(),
            !types_have_any(es@, i as int),
        decreases es@.len() - i,
    {
        proof {
            assert(decreases_to!(es => es@[i as int]));
        }
        if es[i].contains_any() {
            proof {
                lemma_types_have_any_grows(es@, i + 1, es@.len() as int);
            }
            return true;
        }
        i += 1;
    }
    false
}

/// Once `Any` occurs among the first `m` types, it occurs among the first `n >= m`.
proof fn lemma_types_have_any_grows(ts: Seq<FfiType>, m: int, n: int)
    requires
        0 < m <= n <= ts.len(),
        types_have_any(ts, m),
    ensures
        types_have_any(ts, n),
    decreases n - m,
{
    if m < n {
        lemma_types_have_any_grows(ts, m, n - 1);
    }
}

/// A parameter in an FFI signature.
#[derive(Debug, Clone)]
pub struct FfiParam {
    pub name: String,
    pub ty: FfiType,
    /// Whether the parameter has a default value and can be omitted.
    pub has_default: bool,
}

/// A function or method signature in FFI.
#[derive(Debug, Clone)]
pub struct FfiSignature {
    pub params: Vec<FfiParam>,
    pub return_ty: FfiType,
    pub is_async: bool,
}

/// A Python class exposed through FFI.
#[derive(Debug, Clone)]
pub struct FfiClass {
    pub name: String,
    /// Constructor signature (`__init__`), if available.
    pub constructor: Option<FfiSignature>,
    /// Instance methods.
    pub methods: Vec<(String, FfiSignature)>,
    /// Read-only properties.
    pub properties: Vec<(String, FfiType)>,
}

/// The kind of an FFI symbol.
#[derive(Debug, Clone)]
pub enum FfiSymbolKind {
    /// A module-level function.
    Function(FfiSignature),
    /// A class with constructor, methods, and properties.
    Class(FfiClass),
    /// A module-level constant or attribute.
    Constant(FfiType),
}

/// A single exported symbol within an FFI module.
#[derive(Debug, Clone)]
pub struct FfiSymbol {
    pub name: String,
    pub kind: FfiSymbolKind,
    /// Trust level of this symbol as the admissibility check found it;
    /// `None` before the check has run.
    pub trust_level: Option<FfiTrustLevel>,
}

/// Type information for a Python module resolved by the FFI system.
#[derive(Debug, Clone)]
pub struct FfiModule {
    /// Module name (e.g., `"pathlib"`).
    pub name: String,
    /// Where the type information came from.
    pub source: FfiSource,
    /// Trust level of the module's surface.
    pub trust_level: FfiTrustLevel,
    /// Exported symbols.
    pub symbols: Vec<FfiSymbol>,
}

/// Why a symbol got its trust level.
#[derive(Debug, Clone, Copy, PartialEq, Eq, Structural)]
pub enum AdmissibilityReason {
    /// Every type of the surface is complete (no `Any`).
    FullyTyped,
    /// The surface contains `Any` somewhere.
    ContainsAny,
    /// No type information is available.
    Untyped,
}

/// Admissibility result for a single FFI symbol.
#[derive(Debug, Clone)]
pub struct SymbolAdmissibility {
    pub name: String,
    pub trust_level: FfiTrustLevel,
    /// Why the symbol was classified at this level.
    pub reason: AdmissibilityReason,
}

/// Result of the admissibility check of a whole FFI module.
#[derive(Debug, Clone)]
pub struct AdmissibilityReport {
    /// Module-level trust: the least trusted symbol's level.
    pub module_trust: FfiTrustLevel,
    /// Per-symbol results, in the order of the module's symbols.
    pub symbols: Vec<SymbolAdmissibility>,
}

// ── Views ───────────────────────────────────────────────────────

/// The mathematical form of an FFI type: names as character sequences,
/// element lists as sequences.
pub enum FfiTypeView {
    Int,
    Float,
    Str,
    Bool,
    NoneType,
    Bytes,
    List(Box<FfiTypeView>),
    Dict(Box<FfiTypeView>, Box<FfiTypeView>),
    Tuple(Seq<FfiTypeView>),
    Optional(Box<FfiTypeView>),
    Union(Seq<FfiTypeView>),
    Named { module: Seq<char>, name: Seq<char> },
    Any,
}

/// The view of a type.
pub open spec fn type_view(t: FfiType) -> FfiTypeView
    decreases t, 0int,
{
    match t {
        FfiType::Int => FfiTypeView::Int,
        FfiType::Float => FfiTypeView::Float,
        FfiType::Str => FfiTypeView::Str,
        FfiType::Bool => FfiTypeView::Bool,
        FfiType::NoneType => FfiTypeView::NoneType,
        FfiType::Bytes => FfiTypeView::Bytes,
        FfiType::List(inner) => FfiTypeView::List(Box::new(type_view(*inner))),
        FfiType::Dict(k, v) => FfiTypeView::Dict(Box::new(type_view(*k)), Box::new(type_view(*v))),
        FfiType::Tuple(es) => FfiTypeView::Tuple(type_views(es@, es@.len() as int)),
        FfiType::Optional(inner) => FfiTypeView::Optional(Box::new(type_view(*inner))),
        FfiType::Union(es) => FfiTypeView::Union(type_views(es@, es@.len() as int)),
        FfiType::Named { module, name } => FfiTypeView::Named { module: module@, name: name@ },
        FfiType::Any => FfiTypeView::Any,
    }
}

/// The views of the first `n` types of `ts`.
pub open spec fn type_views(ts: Seq<FfiType>, n: int) -> Seq<FfiTypeView>
    decreases ts, n,
{
    if n <= 0 || n > ts.len() {
        Seq::empty()
    } else {
        type_views(ts, n - 1).push(type_view(ts[n - 1]))
    }
}

impl View for FfiType {
    type V = FfiTypeView;

    open spec fn view(&self) -> FfiTypeView {
        type_view(*self)
    }
}

/// `type_views` has one view per type, in order.
pub proof fn lemma_type_views(ts: Seq<FfiType>, n: int)
    requires
        0 <= n <= ts.len(),
    ensures
        type_views(ts, n).len() == n,
        forall|i: int| 0 <= i < n ==> #[trigger] type_views(ts, n)[i] == type_view(ts[i]),
    decreases n,
{
    if n > 0 {
        lemma_type_views(ts, n - 1);
    }
}

impl FfiType {
    /// A copy of this type.
    pub fn duplicate(&self) -> (r: FfiType)
        ensures
            r@ == self@,
        decreases *self,
    {
        match self {
            FfiType::Int => FfiType::Int,
            FfiType::Float => FfiType::Float,
            FfiType::Str => FfiType::Str,
            FfiType::Bool => FfiType::Bool,
            FfiType::NoneType => FfiType::NoneType,
            FfiType::Bytes => FfiType::Bytes,
            FfiType::List(inner) => FfiType::List(Box::new(inner.duplicate())),
            FfiType::Dict(k, v) => FfiType::Dict(Box::new(k.duplicate()), Box::new(v.duplicate())),
            FfiType::Tuple(es) => FfiType::Tuple(duplicate_types(es)),
            FfiType::Optional(inner) => FfiType::Optional(Box::new(inner.duplicate())),
            FfiType::Union(es) => FfiType::Union(duplicate_types(es)),
            FfiType::Named { module, name } => FfiType::Named { module: module.clone(), name: name.clone() },
            FfiType::Any => FfiType::Any,
        }
    }

    /// Whether two types are the same type.
    pub fn same_as(&self, other: &FfiType) -> (b: bool)
        ensures
            b == (self@ == other@),
        decreases *self,
    {
        match (self, other) {
            (FfiType::Int, FfiType::Int) => true,
            (FfiType::Float, FfiType::Float) => true,
            (FfiType::Str, FfiType::Str) => true,
            (FfiType::Bool, FfiType::Bool) => true,
            (FfiType::NoneType, FfiType::NoneType) => true,
            (FfiType::Bytes, FfiType::Bytes) => true,
            (FfiType::Any, FfiType::Any) => true,
            (FfiType::List(a), FfiType::List(b)) => a.same_as(b),
            (FfiType::Optional(a), FfiType::Optional(b)) => a.same_as(b),
            (FfiType::Dict(ka, va), FfiType::Dict(kb, vb)) => ka.same_as(kb) && va.same_as(vb),
            (FfiType::Tuple(xs), FfiType::Tuple(ys)) => same_types(xs, ys),
            (FfiType::Union(xs), FfiType::Union(ys)) => same_types(xs, ys),
            (FfiType::Named { module: ma, name: na }, FfiType::Named { module: mb, name: nb }) => {
                ma.eq(mb) && na.eq(nb)
            },
            _ => false,
        }
    }
}

fn duplicate_types(es: &Vec<FfiType>) -> (r: Vec<FfiType>)
    ensures
        type_views(r@, r@.len() as int) == type_views(es@, es@.len() as int),
    decreases es,
{
    let mut r: Vec<FfiType> = Vec::new();
    let mut i: usize = 0;
    while i < es.len()
        invariant
            i <= es@.len(),
            r@.len() == i,
            forall|j: int| 0 <= j < i ==> (#[trigger] r@[j])@ == es@[j]@,
        decreases es@.len() - i,
    {
        proof {
            assert(decreases_to!(es => es@[i as int]));
        }
        r.push(es[i].duplicate());
        i += 1;
    }
    proof {
        lemma_type_views(r@, r@.len() as int);
        lemma_type_views(es@, es@.len() as int);
        assert(type_views(r@, r@.len() as int) =~= type_views(es@, es@.len() as int));
    }
    r
}

fn same_types(xs: &Vec<FfiType>, ys: &Vec<FfiType>) -> (b: bool)
    ensures
        b == (type_views(xs@, xs@.len() as int) == type_views(ys@, ys@.len() as int)),
    decreases xs,
{
    proof {
        lemma_type_views(xs@, xs@.len() as int);
        lemma_type_views(ys@, ys@.len() as int);
    }
    if xs.len() != ys.len() {
        return false;
    }
    let mut i: usize = 0;
    while i < xs.len()
        invariant
            xs@.len() == ys@.len(),
            i <= xs@.len(),
            forall|j: int| 0 <= j < i ==> (#[trigger] xs@[j])@ == ys@[j]@,
        decreases xs@.len() - i,
    {
        proof {
            assert(decreases_to!(xs => xs@[i as int]));
        }
        if !xs[i].same_as(&ys[i]) {
            proof {
                lemma_type_views(xs@, xs@.len() as int);
                lemma_type_views(ys@, ys@.len() as int);
                assert(type_views(xs@, xs@.len() as int)[i as int] != type_views(ys@, ys@.len() as int)[i as int]);
            }
            return false;
        }
        i += 1;
    }
    proof {
        assert(type_views(xs@, xs@.len() as int) =~= type_views(ys@, ys@.len() as int));
    }
    true
}

/// The mathematical form of a parameter.
pub struct FfiParamView {
    pub name: Seq<char>,
    pub ty: FfiTypeView,
    pub has_default: bool,
}

impl View for FfiParam {
    type V = FfiParamView;

    open spec fn view(&self) -> FfiParamView {
        FfiParamView { name: self.name@, ty: self.ty@, has_default: self.has_default }
    }
}

/// The mathematical form of a signature.
pub struct FfiSignatureView {
    pub params: Seq<FfiParamView>,
    pub return_ty: FfiTypeView,
    pub is_async: bool,
}

impl View for FfiSignature {
    type V = FfiSignatureView;

    open spec fn view(&self) -> FfiSignatureView {
        FfiSignatureView {
            params: self.params@.map_values(|p: FfiParam| p@),
            return_ty: self.return_ty@,
            is_async: self.is_async,
        }
    }
}

impl FfiParam {
    /// A copy of this parameter.
    pub fn duplicate(&self) -> (r: FfiParam)
        ensures
            r@ == self@,
    {
        FfiParam { name: self.name.clone(), ty: self.ty.duplicate(), has_default: self.has_default }
    }
}

impl FfiSignature {
    /// A copy of this signature.
    pub fn duplicate(&self) -> (r: FfiSignature)
        ensures
            r@ == self@,
    {
        let mut params: Vec<FfiParam> = Vec::new();
        let mut i: usize = 0;
        while i < self.params.len()
            invariant
                i <= self.params@.len(),
                params@.len() == i,
                forall|j: int| 0 <= j < i ==> (#[trigger] params@[j])@ == self.params@[j]@,
            decreases self.params@.len() - i,
        {
            params.push(self.params[i].duplicate());
            i += 1;
        }
        let r = FfiSignature { params, return_ty: self.return_ty.duplicate(), is_async: self.is_async };
        assert(r@.params =~= self@.params);
        r
    }

    /// Whether two signatures agree in every parameter, return type and
    /// asyncness.
    pub fn same_as(&self, other: &FfiSignature) -> (b: bool)
        ensures
            b == (self@ == other@),
    {
        if self.is_async != other.is_async || !self.return_ty.same_as(&other.return_ty)
            || self.params.len() != other.params.len() {
            proof {
                if self.params.len() != other.params.len() {
                    assert(self@.params.len() != other@.params.len());
                }
            }
            return false;
        }
        let mut i: usize = 0;
        while i < self.params.len()
            invariant
                self.params@.len() == other.params@.len(),
                i <= self.params@.len(),
                forall|j: int| 0 <= j < i ==> (#[trigger] self.params@[j])@ == other.params@[j]@,
            decreases self.params@.len() - i,
        {
            let a = &self.params[i];
            let b = &other.params[i];
            if !(a.name.eq(&b.name) && a.ty.same_as(&b.ty) && a.has_default == b.has_default) {
                proof {
                    assert(self@.params[i as int] != other@.params[i as int]);
                }
                return false;
            }
            i += 1;
        }
        assert(self@.params =~= other@.params);
        true
    }
}

impl Clone for FfiType {
    fn clone(&self) -> (r: Self)
        ensures
            r@ == self@,
    {
        self.duplicate()
    }
}

impl PartialEq for FfiType {
    fn eq(&self, other: &Self) -> (r: bool) {
        self.same_as(other)
    }
}

impl vstd::std_specs::cmp::PartialEqSpecImpl for FfiType {
    open spec fn obeys_eq_spec() -> bool {
        true
    }

    open spec fn eq_spec(&self, other: &Self) -> bool {
        self@ == other@
    }
}

/// The view of an optional signature.
pub open spec fn opt_sig_view(s: Option<FfiSignature>) -> Option<FfiSignatureView> {
    match s {
        Some(x) => Some(x@),
        None => None,
    }
}

/// The mathematical form of a class.
pub struct FfiClassView {
    pub name: Seq<char>,
    pub constructor: Option<FfiSignatureView>,
    pub methods: Seq<(Seq<char>, FfiSignatureView)>,
    pub properties: Seq<(Seq<char>, FfiTypeView)>,
}

impl View for FfiClass {
    type V = FfiClassView;

    open spec fn view(&self) -> FfiClassView {
        FfiClassView {
            name: self.name@,
            constructor: opt_sig_view(self.constructor),
            methods: self.methods@.map_values(|m: (String, FfiSignature)| (m.0@, m.1@)),
            properties: self.properties@.map_values(|p: (String, FfiType)| (p.0@, p.1@)),
        }
    }
}

/// The mathematical form of a symbol's kind.
pub enum FfiSymbolKindView {
    Function(FfiSignatureView),
    Class(FfiClassView),
    Constant(FfiTypeView),
}

impl View for FfiSymbolKind {
    type V = FfiSymbolKindView;

    open spec fn view(&self) -> FfiSymbolKindView {
        match self {
            FfiSymbolKind::Function(s) => FfiSymbolKindView::Function(s@),
            FfiSymbolKind::Class(c) => FfiSymbolKindView::Class(c@),
            FfiSymbolKind::Constant(t) => FfiSymbolKindView::Constant(t@),
        }
    }
}

/// The mathematical form of a symbol.
pub struct FfiSymbolView {
    pub name: Seq<char>,
    pub kind: FfiSymbolKindView,
    pub trust_level: Option<FfiTrustLevel>,
}

impl View for FfiSymbol {
    type V = FfiSymbolView;

    open spec fn view(&self) -> FfiSymbolView {
        FfiSymbolView { name: self.name@, kind: self.kind@, trust_level: self.trust_level }
    }
}

/// The mathematical form of a module.
pub struct FfiModuleView {
    pub name: Seq<char>,
    pub source: FfiSource,
    pub trust_level: FfiTrustLevel,
    pub symbols: Seq<FfiSymbolView>,
}

impl View for FfiModule {
    type V = FfiModuleView;

    open spec fn view(&self) -> FfiModuleView {
        FfiModuleView {
            name: self.name@,
            source: self.source,
            trust_level: self.trust_level,
            symbols: self.symbols@.map_values(|s: FfiSymbol| s@),
        }
    }
}

} // verus!
