//! The FFI admissibility check: the trust level of each symbol of an FFI
//! module, from its type surface. A symbol is `Verified` only when no `Any`
//! occurs in its surface, and `Checked` otherwise; every symbol of a module
//! declared `Unsafe` is `Unsafe`.
use crate::ffi_model::{
    min_trust, spec_min_trust, trust_rank, type_has_any, types_have_any, AdmissibilityReason, AdmissibilityReport, FfiClass,
    FfiModule, FfiSignature, FfiSymbol, FfiSymbolKind, FfiTrustLevel, FfiType, SymbolAdmissibility,
};
use crate::text::str_eq;
use vstd::prelude::*;

verus! {

// ── The surface of a symbol ─────────────────────────────────────

/// `Any` occurs in a parameter or the return type of `sig`.
pub open spec fn sig_has_any(sig: FfiSignature) -> bool {
    (exists|i: int| 0 <= i < sig.params@.len() && #[trigger] type_has_any(sig.params@[i].ty)) || type_has_any(
        sig.return_ty,
    )
}

/// `Any` occurs in the constructor, a method or a property of `cls`.
pub open spec fn class_has_any(cls: FfiClass) -> bool {
    ||| (cls.constructor matches Some(sig) && sig_has_any(sig))
    ||| exists|i: int| 0 <= i < cls.methods@.len() && #[trigger] sig_has_any(cls.methods@[i].1)
    ||| exists|i: int| 0 <= i < cls.properties@.len() && #[trigger] type_has_any(cls.properties@[i].1)
}

/// `ret` names a class of `syms` whose surface holds `Any`.
pub open spec fn returns_any_class(ret: FfiType, syms: Seq<FfiSymbol>) -> bool {
    match ret {
        FfiType::Named { name, .. } => exists|i: int|
            0 <= i < syms.len() && (#[trigger] syms[i]).name@ == name@ && (syms[i].kind matches FfiSymbolKind::Class(
                cls,
            ) && class_has_any(cls)),
        _ => false,
    }
}

/// `Any` reaches the surface of `sym`, a symbol of a module with symbols
/// `syms`: through its own types, or, for a function, through the class it
/// returns.
pub open spec fn symbol_has_any(sym: FfiSymbol, syms: Seq<FfiSymbol>) -> bool {
    match sym.kind {
        FfiSymbolKind::Function(sig) => sig_has_any(sig) || returns_any_class(sig.return_ty, syms),
        FfiSymbolKind::Class(cls) => class_has_any(cls),
        FfiSymbolKind::Constant(ty) => type_has_any(ty),
    }
}

/// The trust level and reason of a symbol of module `m`.
pub open spec fn symbol_verdict(m: FfiModule, sym: FfiSymbol) -> (FfiTrustLevel, AdmissibilityReason) {
    if m.trust_level == FfiTrustLevel::Unsafe {
        (FfiTrustLevel::Unsafe, AdmissibilityReason::Untyped)
    } else if symbol_has_any(sym, m.symbols@) {
        (FfiTrustLevel::Checked, AdmissibilityReason::ContainsAny)
    } else {
        (FfiTrustLevel::Verified, AdmissibilityReason::FullyTyped)
    }
}

/// The least trusted of the first `n` levels, `Verified` when there are none.
pub open spec fn min_of(levels: Seq<FfiTrustLevel>, n: int) -> FfiTrustLevel
    decreases n,
{
    if n <= 0 || n > levels.len() {
        FfiTrustLevel::Verified
    } else {
        spec_min_trust(min_of(levels, n - 1), levels[n - 1])
    }
}

/// The report is the admissibility report of module `m`.
pub open spec fn is_report_of(r: AdmissibilityReport, m: FfiModule) -> bool {
    &&& r.symbols@.len() == m.symbols@.len()
    &&& forall|i: int|
        0 <= i < r.symbols@.len() ==> {
            &&& (#[trigger] r.symbols@[i]).name@ == m.symbols@[i].name@
            &&& (r.symbols@[i].trust_level, r.symbols@[i].reason) == symbol_verdict(m, m.symbols@[i])
        }
    &&& r.module_trust == min_of(
        Seq::new(r.symbols@.len(), |i: int| r.symbols@[i].trust_level),
        r.symbols@.len() as int,
    )
}

/// The least trusted of the first `n` levels is no more trusted than each
/// of them, and at least as trusted as the least of them.
proof fn lemma_min_of_bounds(levels: Seq<FfiTrustLevel>, n: int, i: int, lo: int)
    requires
        0 <= i < n <= levels.len(),
        forall|j: int| 0 <= j < n ==> trust_rank(#[trigger] levels[j]) >= lo,
        lo <= 2,
    ensures
        trust_rank(min_of(levels, n)) <= trust_rank(levels[i]),
        trust_rank(min_of(levels, n)) >= lo,
    decreases n,
{
    assert(min_of(levels, n) == spec_min_trust(min_of(levels, n - 1), levels[n - 1]));
    if n > 1 {
        if i < n - 1 {
            lemma_min_of_bounds(levels, n - 1, i, lo);
        } else {
            lemma_min_of_bounds(levels, n - 1, 0, lo);
        }
    } else {
        assert(min_of(levels, 0) == FfiTrustLevel::Verified);
    }
}

/// A symbol whose own types hold `Any` is never `Verified`: in a module not
/// declared `Unsafe`, a constant of a type containing `Any`, or a function
/// with `Any` in a parameter or its return type, is `Checked` because it
/// contains `Any`, and so is the module as a whole.
pub proof fn lemma_any_is_never_verified(m: FfiModule, r: AdmissibilityReport, i: int)
    requires
        is_report_of(r, m),
        0 <= i < m.symbols@.len(),
        m.trust_level != FfiTrustLevel::Unsafe,
        (m.symbols@[i].kind matches FfiSymbolKind::Constant(t) && type_has_any(t)) || (m.symbols@[i].kind matches FfiSymbolKind::Function(
            sig,
        ) && (type_has_any(sig.return_ty) || exists|j: int|
            0 <= j < sig.params@.len() && #[trigger] type_has_any(sig.params@[j].ty))),
    ensures
        r.symbols@[i].trust_level == FfiTrustLevel::Checked,
        r.symbols@[i].reason == AdmissibilityReason::ContainsAny,
        r.module_trust == FfiTrustLevel::Checked,
{
    assert(symbol_has_any(m.symbols@[i], m.symbols@));
    assert((r.symbols@[i].trust_level, r.symbols@[i].reason) == symbol_verdict(m, m.symbols@[i]));
    let n = r.symbols@.len() as int;
    let levels = Seq::new(r.symbols@.len(), |k: int| r.symbols@[k].trust_level);
    assert forall|j: int| 0 <= j < n implies trust_rank(#[trigger] levels[j]) >= 1 by {
        assert((r.symbols@[j].trust_level, r.symbols@[j].reason) == symbol_verdict(m, m.symbols@[j]));
    }
    lemma_min_of_bounds(levels, n, i, 1);
}

/// `Any` somewhere in `ts[j]`, one of the first `n` types, is `Any` in them.
proof fn lemma_types_have_any(ts: Seq<FfiType>, n: int, j: int)
    requires
        0 <= j < n <= ts.len(),
        type_has_any(ts[j]),
    ensures
        types_have_any(ts, n),
    decreases n,
{
    if j < n - 1 {
        lemma_types_have_any(ts, n - 1, j);
    }
}

/// `Any` is found through every container: a list, an optional, either
/// side of a dict, and any element of a tuple or a union that holds `Any`
/// holds it too; `Any` itself holds it, and a scalar or named type does not.
pub proof fn lemma_any_reaches_through_containers(t: FfiType, u: FfiType, ts: Vec<FfiType>, j: int)
    requires
        type_has_any(t),
        0 <= j < ts@.len(),
        type_has_any(ts@[j]),
    ensures
        type_has_any(FfiType::Any),
        type_has_any(FfiType::List(Box::new(t))),
        type_has_any(FfiType::Optional(Box::new(t))),
        type_has_any(FfiType::Dict(Box::new(t), Box::new(u))),
        type_has_any(FfiType::Dict(Box::new(u), Box::new(t))),
        type_has_any(FfiType::Tuple(ts)),
        type_has_any(FfiType::Union(ts)),
        !type_has_any(FfiType::Int) && !type_has_any(FfiType::Float) && !type_has_any(FfiType::Str),
        !type_has_any(FfiType::Bool) && !type_has_any(FfiType::NoneType) && !type_has_any(FfiType::Bytes),
{
    lemma_types_have_any(ts@, ts@.len() as int, j);
}

/// A class whose surface holds `Any` is never `Verified`: in a module not
/// declared `Unsafe`, a class with `Any` in a parameter or the return type
/// of its constructor or of one of its methods, or in the type of one of
/// its properties, is `Checked` because it contains `Any`, and so is the
/// module.
pub proof fn lemma_class_with_any_is_checked(m: FfiModule, r: AdmissibilityReport, i: int, j: int, k: int)
    requires
        is_report_of(r, m),
        0 <= i < m.symbols@.len(),
        m.trust_level != FfiTrustLevel::Unsafe,
        m.symbols@[i].kind matches FfiSymbolKind::Class(cls) && ({
            ||| (cls.constructor matches Some(sig) && (type_has_any(sig.return_ty) || (0 <= k
                < sig.params@.len() && type_has_any(sig.params@[k].ty))))
            ||| (0 <= j < cls.methods@.len() && (type_has_any(cls.methods@[j].1.return_ty) || (0 <= k
                < cls.methods@[j].1.params@.len() && type_has_any(cls.methods@[j].1.params@[k].ty))))
            ||| (0 <= j < cls.properties@.len() && type_has_any(cls.properties@[j].1))
        }),
    ensures
        r.symbols@[i].trust_level == FfiTrustLevel::Checked,
        r.symbols@[i].reason == AdmissibilityReason::ContainsAny,
        r.module_trust == FfiTrustLevel::Checked,
{
    let cls = m.symbols@[i].kind->Class_0;
    if 0 <= j < cls.methods@.len() {
        assert(sig_has_any(cls.methods@[j].1) ==> class_has_any(cls));
    }
    if 0 <= j < cls.properties@.len() {
        assert(type_has_any(cls.properties@[j].1) ==> class_has_any(cls));
    }
    assert(class_has_any(cls));
    assert(symbol_has_any(m.symbols@[i], m.symbols@));
    assert((r.symbols@[i].trust_level, r.symbols@[i].reason) == symbol_verdict(m, m.symbols@[i]));
    let n = r.symbols@.len() as int;
    let levels = Seq::new(r.symbols@.len(), |q: int| r.symbols@[q].trust_level);
    assert forall|q: int| 0 <= q < n implies trust_rank(#[trigger] levels[q]) >= 1 by {
        assert((r.symbols@[q].trust_level, r.symbols@[q].reason) == symbol_verdict(m, m.symbols@[q]));
    }
    lemma_min_of_bounds(levels, n, i, 1);
}

// ── Checking ────────────────────────────────────────────────────

fn types_in_params_have_any(sig: &FfiSignature) -> (b: bool)
    ensures
        b == (exists|i: int| 0 <= i < sig.params@.len() && #[trigger] type_has_any(sig.params@[i].ty)),
{
    let mut i: usize = 0;
    while i < sig.params.len()
        invariant
            i <= sig.params@.len(),
            forall|k: int| 0 <= k < i ==> !#[trigger] type_has_any(sig.params@[k].ty),
        decreases sig.params@.len() - i,
    {
        if sig.params[i].ty.contains_any() {
            return true;
        }
        i += 1;
    }
    false
}

/// Whether any parameter or the return type contains `Any`.
pub fn signature_contains_any(sig: &FfiSignature) -> (b: bool)
    ensures
        b == sig_has_any(*sig),
{
    types_in_params_have_any(sig) || sig.return_ty.contains_any()
}

/// Whether any part of a class surface contains `Any`.
pub fn class_contains_any(cls: &FfiClass) -> (b: bool)
    ensures
        b == class_has_any(*cls),
{
    if let Some(sig) = &cls.constructor {
        if signature_contains_any(sig) {
            return true;
        }
    }
    let mut i: usize = 0;
    while i < cls.methods.len()
        invariant
            i <= cls.methods@.len(),
            !(cls.constructor matches Some(sig) && sig_has_any(sig)),
            forall|k: int| 0 <= k < i ==> !#[trigger] sig_has_any(cls.methods@[k].1),
        decreases cls.methods@.len() - i,
    {
        if signature_contains_any(&cls.methods[i].1) {
            return true;
        }
        i += 1;
    }
    let mut j: usize = 0;
    while j < cls.properties.len()
        invariant
            j <= cls.properties@.len(),
            !(cls.constructor matches Some(sig) && sig_has_any(sig)),
            forall|k: int| 0 <= k < cls.methods@.len() ==> !#[trigger] sig_has_any(cls.methods@[k].1),
            forall|k: int| 0 <= k < j ==> !#[trigger] type_has_any(cls.properties@[k].1),
        decreases cls.properties@.len() - j,
    {
        if cls.properties[j].1.contains_any() {
            return true;
        }
        j += 1;
    }
    false
}

/// Whether `ret` names a class of `symbols` whose surface contains `Any`.
fn return_refers_to_any_bearing_class(ret: &FfiType, symbols: &Vec<FfiSymbol>) -> (b: bool)
    ensures
        b == returns_any_class(*ret, symbols@),
{
    match ret {
        FfiType::Named { name, .. } => {
            let mut i: usize = 0;
            while i < symbols.len()
                invariant
                    i <= symbols@.len(),
                    *ret matches FfiType::Named { name: nm, .. } && nm@ == name@,
                    forall|k: int|
                        0 <= k < i ==> !((#[trigger] symbols@[k]).name@ == name@ && (
                        symbols@[k].kind matches FfiSymbolKind::Class(cls) && class_has_any(cls))),
                decreases symbols@.len() - i,
            {
                if str_eq(symbols[i].name.as_str(), name.as_str()) {
                    if let FfiSymbolKind::Class(cls) = &symbols[i].kind {
                        if class_contains_any(cls) {
                            assert((symbols@[i as int]).name@ == name@ && (symbols@[i as int].kind matches FfiSymbolKind::Class(
                                c,
                            ) && class_has_any(c)));
                            return true;
                        }
                    }
                }
                i += 1;
            }
            false
        },
        _ => false,
    }
}

/// The trust level of one symbol of a module with symbols `symbols`.
fn check_symbol(symbol: &FfiSymbol, symbols: &Vec<FfiSymbol>) -> (r: SymbolAdmissibility)
    ensures
        r.name@ == symbol.name@,
        symbol_has_any(*symbol, symbols@) ==> r.trust_level == FfiTrustLevel::Checked && r.reason
            == AdmissibilityReason::ContainsAny,
        !symbol_has_any(*symbol, symbols@) ==> r.trust_level == FfiTrustLevel::Verified && r.reason
            == AdmissibilityReason::FullyTyped,
{
    let has_any = match &symbol.kind {
        FfiSymbolKind::Function(sig) => signature_contains_any(sig) || return_refers_to_any_bearing_class(
            &sig.return_ty,
            symbols,
        ),
        FfiSymbolKind::Class(cls) => class_contains_any(cls),
        FfiSymbolKind::Constant(ty) => ty.contains_any(),
    };
    let (trust_level, reason) = if has_any {
        (FfiTrustLevel::Checked, AdmissibilityReason::ContainsAny)
    } else {
        (FfiTrustLevel::Verified, AdmissibilityReason::FullyTyped)
    };
    SymbolAdmissibility { name: symbol.name.clone(), trust_level, reason }
}

/// Checks the admissibility of every symbol of `module`.
///
/// The report lists each symbol in order with its trust level: `Unsafe`
/// when the module is declared `Unsafe`, else `Checked` when `Any` reaches
/// its surface and `Verified` when not. The module's trust is the least
/// trusted symbol's level, `Verified` for a module without symbols.
pub fn check_module(module: &FfiModule) -> (r: AdmissibilityReport)
    ensures
        is_report_of(r, *module),
{
    let force_unsafe = module.trust_level == FfiTrustLevel::Unsafe;
    let mut symbols: Vec<SymbolAdmissibility> = Vec::new();
    let mut module_trust = FfiTrustLevel::Verified;
    let mut i: usize = 0;
    while i < module.symbols.len()
        invariant
            i <= module.symbols@.len(),
            force_unsafe == (module.trust_level == FfiTrustLevel::Unsafe),
            symbols@.len() == i,
            forall|k: int|
                0 <= k < i ==> {
                    &&& (#[trigger] symbols@[k]).name@ == module.symbols@[k].name@
                    &&& (symbols@[k].trust_level, symbols@[k].reason) == symbol_verdict(
                        *module,
                        module.symbols@[k],
                    )
                },
            module_trust == min_of(Seq::new(symbols@.len(), |k: int| symbols@[k].trust_level), i as int),
        decreases module.symbols@.len() - i,
    {
        let ghost before = symbols@;
        let s = if force_unsafe {
            SymbolAdmissibility {
                name: module.symbols[i].name.clone(),
                trust_level: FfiTrustLevel::Unsafe,
                reason: AdmissibilityReason::Untyped,
            }
        } else {
            check_symbol(&module.symbols[i], &module.symbols)
        };
        module_trust = min_trust(module_trust, s.trust_level);
        symbols.push(s);
        proof {
            let lv_old = Seq::new(before.len(), |k: int| before[k].trust_level);
            let lv_new = Seq::new(symbols@.len(), |k: int| symbols@[k].trust_level);
            lemma_min_of_prefix(lv_old, lv_new, i as int);
        }
        i += 1;
    }
    AdmissibilityReport { module_trust, symbols }
}

/// `min_of` reads only the first `n` levels.
proof fn lemma_min_of_prefix(a: Seq<FfiTrustLevel>, b: Seq<FfiTrustLevel>, n: int)
    requires
        0 <= n <= a.len(),
        n <= b.len(),
        forall|k: int| 0 <= k < n ==> a[k] == b[k],
    ensures
        min_of(a, n) == min_of(b, n),
    decreases n,
{
    if n > 0 {
        lemma_min_of_prefix(a, b, n - 1);
    }
}

// ── Laws ────────────────────────────────────────────────────────

/// The least of some levels is no more trusted than any of them, and it is
/// one of them when there are any.
pub proof fn lemma_min_of_is_minimum(levels: Seq<FfiTrustLevel>, n: int)
    requires
        0 <= n <= levels.len(),
    ensures
        forall|k: int| 0 <= k < n ==> trust_rank(min_of(levels, n)) <= trust_rank(#[trigger] levels[k]),
        n > 0 ==> exists|k: int| 0 <= k < n && min_of(levels, n) == #[trigger] levels[k],
        n == 0 ==> min_of(levels, n) == FfiTrustLevel::Verified,
    decreases n,
{
    if n > 0 {
        lemma_min_of_is_minimum(levels, n - 1);
        if n - 1 > 0 {
            let k = choose|k: int| 0 <= k < n - 1 && min_of(levels, n - 1) == #[trigger] levels[k];
            if min_of(levels, n) == min_of(levels, n - 1) {
                assert(min_of(levels, n) == levels[k]);
            } else {
                assert(min_of(levels, n) == levels[n - 1]);
            }
        } else {
            assert(min_of(levels, n) == levels[n - 1]);
        }
    }
}

/// The module's trust is that of its least trusted symbol: no symbol is
/// less trusted than the module, and some symbol has exactly the module's
/// level; a module without symbols is `Verified`.
pub proof fn lemma_module_trust_is_minimum(r: AdmissibilityReport, m: FfiModule)
    requires
        is_report_of(r, m),
    ensures
        forall|i: int|
            0 <= i < r.symbols@.len() ==> trust_rank(r.module_trust) <= trust_rank(
                (#[trigger] r.symbols@[i]).trust_level,
            ),
        r.symbols@.len() > 0 ==> exists|i: int|
            0 <= i < r.symbols@.len() && r.module_trust == (#[trigger] r.symbols@[i]).trust_level,
        r.symbols@.len() == 0 ==> r.module_trust == FfiTrustLevel::Verified,
{
    let levels = Seq::new(r.symbols@.len(), |i: int| r.symbols@[i].trust_level);
    lemma_min_of_is_minimum(levels, levels.len() as int);
    assert forall|i: int| 0 <= i < r.symbols@.len() implies trust_rank(r.module_trust) <= trust_rank(
        (#[trigger] r.symbols@[i]).trust_level,
    ) by {
        assert(levels[i] == r.symbols@[i].trust_level);
    }
    if r.symbols@.len() > 0 {
        let k = choose|k: int| 0 <= k < levels.len() && min_of(levels, levels.len() as int) == #[trigger] levels[k];
        assert(r.module_trust == r.symbols@[k].trust_level);
    }
}

/// A module declared `Unsafe` has every symbol `Unsafe` for want of type
/// information, and is itself `Unsafe` when it has symbols.
pub proof fn lemma_unsafe_module_forces_unsafe(r: AdmissibilityReport, m: FfiModule)
    requires
        is_report_of(r, m),
        m.trust_level == FfiTrustLevel::Unsafe,
    ensures
        forall|i: int|
            0 <= i < r.symbols@.len() ==> (#[trigger] r.symbols@[i]).trust_level == FfiTrustLevel::Unsafe
                && r.symbols@[i].reason == AdmissibilityReason::Untyped,
        r.symbols@.len() > 0 ==> r.module_trust == FfiTrustLevel::Unsafe,
{
    lemma_module_trust_is_minimum(r, m);
    assert forall|i: int| 0 <= i < r.symbols@.len() implies (#[trigger] r.symbols@[i]).trust_level
        == FfiTrustLevel::Unsafe && r.symbols@[i].reason == AdmissibilityReason::Untyped by {
        assert(symbol_verdict(m, m.symbols@[i]) == (FfiTrustLevel::Unsafe, AdmissibilityReason::Untyped));
    }
}

/// A symbol is `Verified` exactly when the module is not declared `Unsafe`
/// and no `Any` reaches the symbol's surface.
pub proof fn lemma_verified_iff_no_any(r: AdmissibilityReport, m: FfiModule, i: int)
    requires
        is_report_of(r, m),
        0 <= i < r.symbols@.len(),
    ensures
        (r.symbols@[i].trust_level == FfiTrustLevel::Verified) == (m.trust_level != FfiTrustLevel::Unsafe
            && !symbol_has_any(m.symbols@[i], m.symbols@)),
{
    assert((r.symbols@[i].trust_level, r.symbols@[i].reason) == symbol_verdict(m, m.symbols@[i]));
}

} // verus!
