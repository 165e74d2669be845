//! Lexical scopes for name resolution: a stack of scopes, module scope at
//! the bottom, function, block and match-arm scopes pushed on top. A name
//! resolves to its binding in the innermost scope that has one.
use crate::diagnostic::{Diagnostic, DiagnosticView, Severity};
use crate::hir::{DefId, HirModule};
use crate::text::str_eq;
use vstd::prelude::*;

verus! {

/// The bindings of one scope.
pub open spec fn scope_map(pairs: Seq<(Seq<char>, DefId)>) -> Map<Seq<char>, DefId>
    decreases pairs.len(),
{
    if pairs.len() == 0 {
        Map::empty()
    } else {
        scope_map(pairs.drop_last()).insert(pairs.last().0, pairs.last().1)
    }
}

/// The binding of `name` in the innermost of the first `k` scopes that
/// binds it.
pub open spec fn resolve_in(scopes: Seq<Map<Seq<char>, DefId>>, name: Seq<char>, k: int) -> Option<DefId>
    decreases k,
{
    if k <= 0 || k > scopes.len() {
        None
    } else if scopes[k - 1].dom().contains(name) {
        Some(scopes[k - 1][name])
    } else {
        resolve_in(scopes, name, k - 1)
    }
}

/// The binding of `name`, innermost scope first.
pub open spec fn resolve_spec(scopes: Seq<Map<Seq<char>, DefId>>, name: Seq<char>) -> Option<DefId> {
    resolve_in(scopes, name, scopes.len() as int)
}

/// A stack of lexical scopes.
pub struct ScopeStack {
    scopes: Vec<Vec<(String, DefId)>>,
}

pub open spec fn pair_views(s: Seq<(String, DefId)>) -> Seq<(Seq<char>, DefId)> {
    s.map_values(|p: (String, DefId)| (p.0@, p.1))
}

/// No name occurs twice among the pairs.
pub open spec fn names_unique(s: Seq<(Seq<char>, DefId)>) -> bool {
    forall|i: int, j: int| 0 <= i < j < s.len() ==> (#[trigger] s[i]).0 != (#[trigger] s[j]).0
}

proof fn lemma_scope_map_update(s: Seq<(Seq<char>, DefId)>, i: int, id: DefId)
    requires
        names_unique(s),
        0 <= i < s.len(),
    ensures
        scope_map(s.update(i, (s[i].0, id))) == scope_map(s).insert(s[i].0, id),
        names_unique(s.update(i, (s[i].0, id))),
    decreases s.len(),
{
    let t = s.update(i, (s[i].0, id));
    if i == s.len() - 1 {
        assert(t.drop_last() =~= s.drop_last());
        assert forall|j: int| 0 <= j < s.drop_last().len() implies (#[trigger] s.drop_last()[j]).0 != s[i].0 by {
            assert(s.drop_last()[j] == s[j]);
        }
        lemma_scope_map_absent(s.drop_last(), s[i].0);
        assert(scope_map(t) =~= scope_map(s).insert(s[i].0, id));
    } else {
        lemma_scope_map_update(s.drop_last(), i, id);
        assert(t.drop_last() =~= s.drop_last().update(i, (s[i].0, id)));
        assert(s.last().0 != s[i].0);
        assert(scope_map(t) =~= scope_map(s).insert(s[i].0, id));
    }
}

proof fn lemma_scope_map_absent(s: Seq<(Seq<char>, DefId)>, name: Seq<char>)
    requires
        forall|j: int| 0 <= j < s.len() ==> (#[trigger] s[j]).0 != name,
    ensures
        !scope_map(s).dom().contains(name),
    decreases s.len(),
{
    if s.len() > 0 {
        assert forall|j: int| 0 <= j < s.drop_last().len() implies (#[trigger] s.drop_last()[j]).0 != name by {
            assert(s.drop_last()[j] == s[j]);
        }
        lemma_scope_map_absent(s.drop_last(), name);
    }
}

proof fn lemma_scope_map_contains(s: Seq<(Seq<char>, DefId)>, name: Seq<char>)
    ensures
        scope_map(s).dom().contains(name) <==> exists|i: int| 0 <= i < s.len() && (#[trigger] s[i]).0 == name,
    decreases s.len(),
{
    if s.len() > 0 {
        lemma_scope_map_contains(s.drop_last(), name);
        if scope_map(s).dom().contains(name) && s.last().0 != name {
            let i = choose|i: int| 0 <= i < s.drop_last().len() && (#[trigger] s.drop_last()[i]).0 == name;
            assert(s[i].0 == name);
        }
        if exists|i: int| 0 <= i < s.len() && (#[trigger] s[i]).0 == name {
            let i = choose|i: int| 0 <= i < s.len() && (#[trigger] s[i]).0 == name;
            if i < s.len() - 1 {
                assert(s.drop_last()[i].0 == name);
            }
        }
    }
}

proof fn lemma_scope_map_value(s: Seq<(Seq<char>, DefId)>, i: int)
    requires
        names_unique(s),
        0 <= i < s.len(),
    ensures
        scope_map(s).dom().contains(s[i].0),
        scope_map(s)[s[i].0] == s[i].1,
    decreases s.len(),
{
    if i < s.len() - 1 {
        lemma_scope_map_value(s.drop_last(), i);
        assert(s.drop_last()[i] == s[i]);
    }
}

impl ScopeStack {
    /// The scopes, outermost first.
    pub closed spec fn view_scopes(&self) -> Seq<Map<Seq<char>, DefId>> {
        self.scopes@.map_values(|s: Vec<(String, DefId)>| scope_map(pair_views(s@)))
    }

    /// No scope binds a name twice.
    pub closed spec fn wf(&self) -> bool {
        forall|k: int| 0 <= k < self.scopes@.len() ==> names_unique(pair_views(#[trigger] self.scopes@[k]@))
    }

    /// A stack holding the empty module scope.
    pub fn new() -> (s: ScopeStack)
        ensures
            s.wf(),
            s.view_scopes() == seq![Map::<Seq<char>, DefId>::empty()],
    {
        let s = ScopeStack { scopes: vec![Vec::new()] };
        assert(pair_views(s.scopes@[0]@) =~= Seq::<(Seq<char>, DefId)>::empty());
        assert(s.view_scopes() =~= seq![Map::<Seq<char>, DefId>::empty()]);
        s
    }

    /// Enters a new, empty scope.
    pub fn push(&mut self)
        requires
            old(self).wf(),
        ensures
            final(self).wf(),
            final(self).view_scopes() == old(self).view_scopes().push(Map::empty()),
    {
        let ghost before = self.view_scopes();
        self.scopes.push(Vec::new());
        assert(pair_views(self.scopes@.last()@) =~= Seq::<(Seq<char>, DefId)>::empty());
        assert(self.view_scopes() =~= before.push(Map::empty()));
    }

    /// Leaves the innermost scope; nothing happens when there is none.
    pub fn pop(&mut self)
        requires
            old(self).wf(),
        ensures
            final(self).wf(),
            final(self).view_scopes() == if old(self).view_scopes().len() > 0 {
                old(self).view_scopes().drop_last()
            } else {
                old(self).view_scopes()
            },
    {
        let ghost before = self.view_scopes();
        self.scopes.pop();
        assert(self.view_scopes() =~= if before.len() > 0 {
            before.drop_last()
        } else {
            before
        });
    }

    /// Binds `name` to `id` in the innermost scope; returns what `name`
    /// was bound to there before.
    pub fn define(&mut self, name: String, id: DefId) -> (prev: Option<DefId>)
        requires
            old(self).wf(),
            old(self).view_scopes().len() > 0,
        ensures
            final(self).wf(),
            ({
                let before = old(self).view_scopes();
                let inner = before.last();
                &&& final(self).view_scopes() == before.update(before.len() - 1, inner.insert(name@, id))
                &&& prev == if inner.dom().contains(name@) {
                    Some(inner[name@])
                } else {
                    None::<DefId>
                }
            }),
    {
        let ghost before = self.view_scopes();
        let last = self.scopes.len() - 1;
        let ghost pv = pair_views(self.scopes@[last as int]@);
        assert(names_unique(pv));
        let mut i: usize = 0;
        while i < self.scopes[last].len()
            invariant
                last == self.scopes@.len() - 1,
                self.wf(),
                self.scopes@ == old(self).scopes@,
                before == self.view_scopes(),
                pv == pair_views(self.scopes@[last as int]@),
                i <= pv.len(),
                forall|j: int| 0 <= j < i ==> (#[trigger] pv[j]).0 != name@,
            decreases pv.len() - i,
        {
            if self.scopes[last][i].0.eq(&name) {
                let prev = self.scopes[last][i].1;
                proof {
                    lemma_scope_map_value(pv, i as int);
                    lemma_scope_map_update(pv, i as int, id);
                }
                let ghost pre = self.scopes@;
                self.scopes[last].set(i, (name, id));
                proof {
                    assert(pair_views(self.scopes@[last as int]@) =~= pv.update(i as int, (pv[i as int].0, id)));
                    assert(self.view_scopes() =~= before.update(before.len() - 1, before.last().insert(pv[i as int].0, id)));
                    assert forall|k: int| 0 <= k < self.scopes@.len() implies names_unique(
                        pair_views(#[trigger] self.scopes@[k]@),
                    ) by {
                        if k != last {
                            assert(self.scopes@[k] == pre[k]);
                        }
                    }
                }
                return Some(prev);
            }
            i += 1;
        }
        proof {
            lemma_scope_map_contains(pv, name@);
        }
        let ghost nv = name@;
        let ghost pre = self.scopes@;
        self.scopes[last].push((name, id));
        proof {
            let np = pair_views(self.scopes@[last as int]@);
            assert(np =~= pv.push((nv, id)));
            assert(np.drop_last() =~= pv);
            assert(self.view_scopes() =~= before.update(before.len() - 1, before.last().insert(nv, id)));
            assert forall|k: int| 0 <= k < self.scopes@.len() implies names_unique(
                pair_views(#[trigger] self.scopes@[k]@),
            ) by {
                if k != last {
                    assert(self.scopes@[k] == pre[k]);
                } else {
                    assert forall|a: int, b: int| 0 <= a < b < np.len() implies (#[trigger] np[a]).0 != (
                    #[trigger] np[b]).0 by {
                        if b == np.len() - 1 {
                            assert(np[a] == pv[a]);
                        } else {
                            assert(np[a] == pv[a] && np[b] == pv[b]);
                        }
                    }
                }
            }
        }
        None
    }

    /// The binding of `name` in the innermost scope that has one.
    pub fn resolve(&self, name: &str) -> (r: Option<DefId>)
        requires
            self.wf(),
        ensures
            r == resolve_spec(self.view_scopes(), name@),
    {
        let ghost vs = self.view_scopes();
        let mut k: usize = self.scopes.len();
        while k > 0
            invariant
                k <= self.scopes@.len(),
                self.wf(),
                vs == self.view_scopes(),
                resolve_spec(vs, name@) == resolve_in(vs, name@, k as int),
            decreases k,
        {
            let scope = &self.scopes[k - 1];
            let ghost pv = pair_views(scope@);
            assert(vs[k - 1] == scope_map(pv));
            let mut i: usize = 0;
            while i < scope.len()
                invariant
                    0 < k <= self.scopes@.len(),
                    *scope == self.scopes@[k - 1],
                    self.wf(),
                    vs == self.view_scopes(),
                    vs[k - 1] == scope_map(pv),
                    resolve_spec(vs, name@) == resolve_in(vs, name@, k as int),
                    i <= scope@.len(),
                    pv == pair_views(scope@),
                    forall|j: int| 0 <= j < i ==> (#[trigger] pv[j]).0 != name@,
                decreases scope@.len() - i,
            {
                if str_eq(scope[i].0.as_str(), name) {
                    proof {
                        assert(self.wf());
                        assert(names_unique(pair_views(self.scopes@[k - 1]@)));
                        lemma_scope_map_value(pv, i as int);
                    }
                    return Some(scope[i].1);
                }
                i += 1;
            }
            proof {
                lemma_scope_map_contains(pv, name@);
            }
            k -= 1;
        }
        None
    }
}

/// Leaving a scope undoes entering it: push then pop gives back the same
/// scopes.
pub proof fn lemma_pop_undoes_push(scopes: Seq<Map<Seq<char>, DefId>>)
    ensures
        scopes.push(Map::empty()).drop_last() == scopes,
{
    assert(scopes.push(Map::empty()).drop_last() =~= scopes);
}

/// A binding made in the innermost scope is what the name resolves to,
/// and it leaves every other name as it was.
pub proof fn lemma_resolve_after_define(
    scopes: Seq<Map<Seq<char>, DefId>>,
    name: Seq<char>,
    id: DefId,
    other: Seq<char>,
)
    requires
        scopes.len() > 0,
    ensures
        resolve_spec(scopes.update(scopes.len() - 1, scopes.last().insert(name, id)), name) == Some(id),
        other != name ==> resolve_spec(scopes.update(scopes.len() - 1, scopes.last().insert(name, id)), other)
            == resolve_spec(scopes, other),
{
    let after = scopes.update(scopes.len() - 1, scopes.last().insert(name, id));
    let n = scopes.len() as int;
    if other != name {
        lemma_resolve_prefix(after, scopes, other, n - 1);
    }
}

proof fn lemma_resolve_prefix(a: Seq<Map<Seq<char>, DefId>>, b: Seq<Map<Seq<char>, DefId>>, name: Seq<char>, k: int)
    requires
        0 <= k <= a.len(),
        k <= b.len(),
        forall|j: int| 0 <= j < k ==> a[j] == b[j],
    ensures
        resolve_in(a, name, k) == resolve_in(b, name, k),
    decreases k,
{
    if k > 0 {
        lemma_resolve_prefix(a, b, name, k - 1);
    }
}

/// A binding in an inner scope hides one of the same name further out,
/// until the inner scope is left.
pub proof fn lemma_inner_binding_shadows(scopes: Seq<Map<Seq<char>, DefId>>, name: Seq<char>, id: DefId)
    ensures
        resolve_spec(scopes.push(Map::empty().insert(name, id)), name) == Some(id),
        resolve_spec(scopes.push(Map::empty().insert(name, id)).drop_last(), name) == resolve_spec(scopes, name),
{
    assert(scopes.push(Map::empty().insert(name, id)).drop_last() =~= scopes);
}

// ── The result of lowering ──────────────────────────────────────

/// A module after name resolution, with what resolution reported.
pub struct HirLowerResult {
    pub module: HirModule,
    /// Diagnostics of lowering, such as unresolved names.
    pub diagnostics: Vec<Diagnostic>,
}

impl HirLowerResult {
    /// Whether lowering reported an error.
    pub fn has_errors(&self) -> (b: bool)
        ensures
            b == crate::parse::any_error(self.diagnostics@.map_values(|d: Diagnostic| d@)),
    {
        let ghost ds = self.diagnostics@.map_values(|d: Diagnostic| d@);
        let mut i: usize = 0;
        while i < self.diagnostics.len()
            invariant
                i <= self.diagnostics@.len(),
                ds == self.diagnostics@.map_values(|d: Diagnostic| d@),
                forall|k: int| 0 <= k < i ==> (#[trigger] ds[k]).severity != Severity::Error,
            decreases self.diagnostics@.len() - i,
        {
            if self.diagnostics[i].severity == Severity::Error {
                assert(ds[i as int].severity == Severity::Error);
                return true;
            }
            i += 1;
        }
        false
    }
}

} // verus!
