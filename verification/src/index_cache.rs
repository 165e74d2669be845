//! A cache of parsed module APIs, keyed by module name and checked
//! against a fingerprint of the files they were read from (modification
//! time and size), so a changed file is read again.
//!
//! Reading file metadata and stubs is the caller's part; the cache holds
//! the decisions: when an entry is still valid, which source each part of
//! a split stub package is read as, and how the parts combine.
use crate::api_index::{
    merge_module_view, string_views, PythonModuleInfo, PythonModuleInfoView,
};
use crate::ffi_source::{duplicate_strings, ResolvedTypeSource, ResolvedTypeSourceView, TypeSourceKind};
use vstd::prelude::*;

verus! {

/// A file's modification time, as a distance from the Unix epoch.
#[derive(Debug, Clone, Copy, PartialEq, Eq, Structural)]
pub struct ModTime {
    /// Whether the time lies before the epoch.
    pub before_epoch: bool,
    pub secs: u64,
    pub nanos: u32,
}

/// What a file looked like when it was read: its path, and its
/// modification time and size where they could be read.
#[derive(Debug, Clone)]
pub struct FileStamp {
    pub path: String,
    pub mtime: Option<ModTime>,
    pub size: u64,
}

/// Identity of the files a module was read from.
#[derive(Debug, Clone)]
pub struct SourceFingerprint {
    pub source_kind: TypeSourceKind,
    pub is_partial: bool,
    /// One stamp per file; none for bundled stubs.
    pub files: Vec<FileStamp>,
}

pub struct FileStampView {
    pub path: Seq<char>,
    pub mtime: Option<ModTime>,
    pub size: u64,
}

impl View for FileStamp {
    type V = FileStampView;

    open spec fn view(&self) -> FileStampView {
        FileStampView { path: self.path@, mtime: self.mtime, size: self.size }
    }
}

pub struct SourceFingerprintView {
    pub source_kind: TypeSourceKind,
    pub is_partial: bool,
    pub files: Seq<FileStampView>,
}

impl View for SourceFingerprint {
    type V = SourceFingerprintView;

    open spec fn view(&self) -> SourceFingerprintView {
        SourceFingerprintView {
            source_kind: self.source_kind,
            is_partial: self.is_partial,
            files: self.files@.map_values(|f: FileStamp| f@),
        }
    }
}

impl SourceFingerprint {
    /// The fingerprint of a source, given the stamps of its files: a
    /// source without files (bundled stubs) is identified by its kind alone.
    pub fn of_source(source: &ResolvedTypeSource, files: Vec<FileStamp>) -> (r: SourceFingerprint)
        ensures
            r@.source_kind == source.source_kind,
            r@.is_partial == source.is_partial,
            r@.files == if source.paths@.len() == 0 {
                Seq::<FileStampView>::empty()
            } else {
                files@.map_values(|f: FileStamp| f@)
            },
    {
        if source.paths.len() == 0 {
            let r = SourceFingerprint { source_kind: source.source_kind, is_partial: source.is_partial, files: Vec::new() };
            assert(r@.files =~= Seq::<FileStampView>::empty());
            r
        } else {
            SourceFingerprint { source_kind: source.source_kind, is_partial: source.is_partial, files }
        }
    }

    /// Whether two fingerprints are the same.
    pub fn same_as(&self, other: &SourceFingerprint) -> (b: bool)
        ensures
            b == (self@ == other@),
    {
        if self.source_kind != other.source_kind || self.is_partial != other.is_partial || self.files.len()
            != other.files.len() {
            proof {
                if self.files.len() != other.files.len() {
                    assert(self@.files.len() != other@.files.len());
                }
            }
            return false;
        }
        let mut i: usize = 0;
        while i < self.files.len()
            invariant
                self.files@.len() == other.files@.len(),
                i <= self.files@.len(),
                forall|j: int| 0 <= j < i ==> (#[trigger] self.files@[j])@ == other.files@[j]@,
            decreases self.files@.len() - i,
        {
            let a = &self.files[i];
            let b = &other.files[i];
            if !(a.path.eq(&b.path) && a.mtime == b.mtime && a.size == b.size) {
                proof {
                    assert(self@.files[i as int] != other@.files[i as int]);
                }
                return false;
            }
            i += 1;
        }
        assert(self@.files =~= other@.files);
        true
    }
}

// ── Reading a split source ──────────────────────────────────────

/// The source part `idx` of a resolved source is read as: its own path
/// only; beyond the first, a part of a stub package is the runtime
/// package, read as an inline-typed and complete source.
pub open spec fn part_source_view(s: ResolvedTypeSourceView, idx: int) -> ResolvedTypeSourceView {
    let paths = if 0 <= idx < s.paths.len() {
        seq![s.paths[idx]]
    } else {
        Seq::empty()
    };
    if idx > 0 && s.source_kind == TypeSourceKind::StubPackage {
        ResolvedTypeSourceView { paths, source_kind: TypeSourceKind::PyTypedInline, is_partial: false, ..s }
    } else {
        ResolvedTypeSourceView { paths, ..s }
    }
}

/// The source that part `idx` of `source` is read as.
pub fn part_source(source: &ResolvedTypeSource, idx: usize) -> (r: ResolvedTypeSource)
    ensures
        r@ == part_source_view(source@, idx as int),
{
    let mut paths: Vec<String> = Vec::new();
    if idx < source.paths.len() {
        paths.push(source.paths[idx].clone());
    }
    assert(string_views(paths@) =~= part_source_view(source@, idx as int).paths);
    if idx > 0 && source.source_kind == TypeSourceKind::StubPackage {
        ResolvedTypeSource {
            module_name: source.module_name.clone(),
            source_kind: TypeSourceKind::PyTypedInline,
            paths,
            is_partial: false,
        }
    } else {
        ResolvedTypeSource {
            module_name: source.module_name.clone(),
            source_kind: source.source_kind,
            paths,
            is_partial: source.is_partial,
        }
    }
}

/// The views of the parts that were read.
pub open spec fn part_views(parts: Seq<Option<PythonModuleInfo>>) -> Seq<Option<PythonModuleInfoView>> {
    parts.map_values(
        |p: Option<PythonModuleInfo>|
            match p {
                Some(m) => Some(m@),
                None => None,
            },
    )
}

/// The first part completed by the later parts that could be read, in
/// order, among the first `k`.
pub open spec fn merge_parts(first: PythonModuleInfoView, parts: Seq<Option<PythonModuleInfoView>>, k: int) -> PythonModuleInfoView
    decreases k,
{
    if k <= 1 || k > parts.len() {
        first
    } else {
        let prev = merge_parts(first, parts, k - 1);
        match parts[k - 1] {
            Some(m) => merge_module_view(prev, m),
            None => prev,
        }
    }
}

/// A module read in parts: nothing when the first part could not be read;
/// otherwise the first, completed by the others that could be.
pub open spec fn combine_view(parts: Seq<Option<PythonModuleInfoView>>) -> Option<PythonModuleInfoView> {
    if parts.len() > 0 && parts[0] is Some {
        Some(merge_parts(parts[0]->Some_0, parts, parts.len() as int))
    } else {
        None
    }
}

/// Combines the parts of a split source, each read or not.
pub fn combine_parts(parts: Vec<Option<PythonModuleInfo>>) -> (r: Option<PythonModuleInfo>)
    ensures
        match r {
            Some(m) => combine_view(part_views(parts@)) == Some(m@),
            None => combine_view(part_views(parts@)) is None,
        },
{
    let ghost pv = part_views(parts@);
    let mut rest = parts;
    if rest.len() == 0 {
        return None;
    }
    let ghost all = rest@;
    let first = rest.remove(0);
    proof {
        assert forall|j: int| 0 <= j < rest@.len() implies pv[j + 1] == part_views(rest@)[j] by {
            assert(rest@[j] == all[j + 1]);
        }
    }
    let mut module = match first {
        Some(m) => m,
        None => {
            return None;
        },
    };
    let ghost fv = module@;
    let mut k: usize = 0;
    while k < rest.len()
        invariant
            k <= rest@.len(),
            pv.len() == rest@.len() + 1,
            pv[0] == Some(fv),
            forall|j: int| 0 <= j < rest@.len() ==> pv[j + 1] == part_views(rest@)[j],
            module@ == merge_parts(fv, pv, k + 1),
        decreases rest@.len() - k,
    {
        let ghost here = part_views(rest@)[k as int];
        match &rest[k] {
            Some(m) => {
                assert(here == Some(m@));
                assert(pv[k + 1] == Some(m@));
                module.merge_from(m.duplicate());
            },
            None => {
                assert(here is None);
                assert(pv[k + 1] is None);
            },
        }
        k += 1;
    }
    Some(module)
}

// ── The cache ───────────────────────────────────────────────────

/// A cached module with the fingerprint of the files it was read from.
pub struct CacheEntry {
    pub module: PythonModuleInfo,
    pub fingerprint: SourceFingerprint,
}

pub struct CacheEntryView {
    pub name: Seq<char>,
    pub module: PythonModuleInfoView,
    pub fingerprint: SourceFingerprintView,
}

/// Parsed module APIs by module name.
pub struct PythonApiIndexCache {
    entries: Vec<(String, CacheEntry)>,
}

pub open spec fn entry_views(es: Seq<(String, CacheEntry)>) -> Seq<CacheEntryView> {
    es.map_values(
        |e: (String, CacheEntry)| CacheEntryView { name: e.0@, module: e.1.module@, fingerprint: e.1.fingerprint@ },
    )
}

/// No two entries share a name.
pub open spec fn names_distinct(es: Seq<CacheEntryView>) -> bool {
    forall|i: int, j: int| 0 <= i < j < es.len() ==> (#[trigger] es[i]).name != (#[trigger] es[j]).name
}

/// The index of the entry named `name`; -1 when none.
pub open spec fn entry_index(es: Seq<CacheEntryView>, name: Seq<char>) -> int {
    if exists|i: int| 0 <= i < es.len() && (#[trigger] es[i]).name == name {
        choose|i: int| 0 <= i < es.len() && (#[trigger] es[i]).name == name
    } else {
        -1
    }
}

/// The module cached under `name` for files with fingerprint `fp`.
pub open spec fn valid_entry(es: Seq<CacheEntryView>, name: Seq<char>, fp: SourceFingerprintView) -> Option<
    PythonModuleInfoView,
> {
    let i = entry_index(es, name);
    if 0 <= i && es[i].fingerprint == fp {
        Some(es[i].module)
    } else {
        None
    }
}

/// The entries after caching `e`: it replaces the entry of its name, or
/// is appended.
pub open spec fn store_entry(es: Seq<CacheEntryView>, e: CacheEntryView) -> Seq<CacheEntryView> {
    let i = entry_index(es, e.name);
    if 0 <= i {
        es.update(i, e)
    } else {
        es.push(e)
    }
}

/// The entries after dropping the one named `name`.
pub open spec fn drop_entry(es: Seq<CacheEntryView>, name: Seq<char>) -> Seq<CacheEntryView> {
    let i = entry_index(es, name);
    if 0 <= i {
        es.remove(i)
    } else {
        es
    }
}

proof fn lemma_entry_index(es: Seq<CacheEntryView>, name: Seq<char>, i: int)
    requires
        names_distinct(es),
        0 <= i < es.len(),
        es[i].name == name,
    ensures
        entry_index(es, name) == i,
{
}

proof fn lemma_entry_absent(es: Seq<CacheEntryView>, name: Seq<char>)
    requires
        forall|i: int| 0 <= i < es.len() ==> (#[trigger] es[i]).name != name,
    ensures
        entry_index(es, name) == -1,
{
}

/// A stored module is found again while its files are unchanged, and is
/// missed once they change (or the source is resolved otherwise); storing
/// leaves every other module's entry as it was.
pub proof fn lemma_lookup_after_store(
    es: Seq<CacheEntryView>,
    e: CacheEntryView,
    name: Seq<char>,
    fp: SourceFingerprintView,
)
    requires
        names_distinct(es),
    ensures
        names_distinct(store_entry(es, e)),
        valid_entry(store_entry(es, e), e.name, e.fingerprint) == Some(e.module),
        fp != e.fingerprint ==> valid_entry(store_entry(es, e), e.name, fp) is None,
        name != e.name ==> valid_entry(store_entry(es, e), name, fp) == valid_entry(es, name, fp),
{
    let i = entry_index(es, e.name);
    let t = store_entry(es, e);
    if 0 <= i {
        assert(es[i].name == e.name);
        assert(t == es.update(i, e));
        assert(names_distinct(t)) by {
            assert forall|a: int, b: int| 0 <= a < b < t.len() implies (#[trigger] t[a]).name != (#[trigger] t[b]).name by {
                if a != i && b != i {
                    assert(t[a] == es[a] && t[b] == es[b]);
                }
            }
        }
        lemma_entry_index(t, e.name, i);
        if name != e.name {
            if exists|j: int| 0 <= j < es.len() && (#[trigger] es[j]).name == name {
                let j = choose|j: int| 0 <= j < es.len() && (#[trigger] es[j]).name == name;
                lemma_entry_index(es, name, j);
                assert(j != i);
                assert(t[j] == es[j]);
                lemma_entry_index(t, name, j);
            } else {
                assert forall|j: int| 0 <= j < t.len() implies (#[trigger] t[j]).name != name by {
                    if j != i {
                        assert(t[j] == es[j]);
                    }
                }
                lemma_entry_absent(t, name);
            }
        }
    } else {
        assert(t == es.push(e));
        assert(forall|j: int| 0 <= j < es.len() ==> (#[trigger] es[j]).name != e.name);
        assert(names_distinct(t)) by {
            assert forall|a: int, b: int| 0 <= a < b < t.len() implies (#[trigger] t[a]).name != (#[trigger] t[b]).name by {
                if b == es.len() {
                    assert(t[a] == es[a]);
                } else {
                    assert(t[a] == es[a] && t[b] == es[b]);
                }
            }
        }
        lemma_entry_index(t, e.name, es.len() as int);
        if name != e.name {
            if exists|j: int| 0 <= j < es.len() && (#[trigger] es[j]).name == name {
                let j = choose|j: int| 0 <= j < es.len() && (#[trigger] es[j]).name == name;
                lemma_entry_index(es, name, j);
                assert(t[j] == es[j]);
                lemma_entry_index(t, name, j);
            } else {
                assert forall|j: int| 0 <= j < t.len() implies (#[trigger] t[j]).name != name by {
                    if j < es.len() {
                        assert(t[j] == es[j]);
                    }
                }
                lemma_entry_absent(t, name);
            }
        }
    }
}

/// Invalidating a module drops its entry and leaves every other module's
/// entry as it was.
pub proof fn lemma_lookup_after_invalidate(
    es: Seq<CacheEntryView>,
    name: Seq<char>,
    other: Seq<char>,
    fp: SourceFingerprintView,
)
    requires
        names_distinct(es),
    ensures
        names_distinct(drop_entry(es, name)),
        valid_entry(drop_entry(es, name), name, fp) is None,
        other != name ==> valid_entry(drop_entry(es, name), other, fp) == valid_entry(es, other, fp),
{
    let i = entry_index(es, name);
    let t = drop_entry(es, name);
    if 0 <= i {
        assert(es[i].name == name);
        assert(t == es.remove(i));
        assert forall|j: int| 0 <= j < t.len() implies t[j] == if j < i {
            es[j]
        } else {
            es[j + 1]
        } by {}
        assert(names_distinct(t)) by {
            assert forall|a: int, b: int| 0 <= a < b < t.len() implies (#[trigger] t[a]).name != (#[trigger] t[b]).name by {
                let a2 = if a < i { a } else { a + 1 };
                let b2 = if b < i { b } else { b + 1 };
                assert(t[a] == es[a2] && t[b] == es[b2]);
            }
        }
        assert forall|j: int| 0 <= j < t.len() implies (#[trigger] t[j]).name != name by {
            let j2 = if j < i { j } else { j + 1 };
            assert(t[j] == es[j2]);
        }
        lemma_entry_absent(t, name);
        if other != name {
            if exists|j: int| 0 <= j < es.len() && (#[trigger] es[j]).name == other {
                let j = choose|j: int| 0 <= j < es.len() && (#[trigger] es[j]).name == other;
                lemma_entry_index(es, other, j);
                assert(j != i);
                let j2 = if j < i { j } else { j - 1 };
                assert(t[j2] == es[j]);
                lemma_entry_index(t, other, j2);
            } else {
                assert forall|j: int| 0 <= j < t.len() implies (#[trigger] t[j]).name != other by {
                    let j2 = if j < i { j } else { j + 1 };
                    assert(t[j] == es[j2]);
                }
                lemma_entry_absent(t, other);
            }
        }
    } else {
        assert(t == es);
    }
}

impl PythonApiIndexCache {
    /// The cached entries.
    pub closed spec fn entries(&self) -> Seq<CacheEntryView> {
        entry_views(self.entries@)
    }

    /// No two entries share a name.
    pub closed spec fn wf(&self) -> bool {
        names_distinct(self.entries())
    }

    /// An empty cache.
    pub fn new() -> (c: PythonApiIndexCache)
        ensures
            c.wf(),
            c.entries().len() == 0,
    {
        let c = PythonApiIndexCache { entries: Vec::new() };
        assert(c.entries() =~= Seq::<CacheEntryView>::empty());
        c
    }

    fn position(&self, module_name: &str) -> (r: Option<usize>)
        requires
            self.wf(),
        ensures
            match r {
                Some(i) => i == entry_index(self.entries(), module_name@) && i < self.entries().len(),
                None => entry_index(self.entries(), module_name@) == -1,
            },
    {
        let mut i: usize = 0;
        while i < self.entries.len()
            invariant
                self.wf(),
                i <= self.entries@.len(),
                forall|j: int| 0 <= j < i ==> (#[trigger] self.entries()[j]).name != module_name@,
            decreases self.entries@.len() - i,
        {
            if crate::text::str_eq(self.entries[i].0.as_str(), module_name) {
                proof {
                    lemma_entry_index(self.entries(), module_name@, i as int);
                }
                return Some(i);
            }
            i += 1;
        }
        None
    }

    /// The module cached under `module_name`, if it was read from files
    /// with fingerprint `fingerprint`.
    pub fn lookup(&self, module_name: &str, fingerprint: &SourceFingerprint) -> (r: Option<&PythonModuleInfo>)
        requires
            self.wf(),
        ensures
            match r {
                Some(m) => valid_entry(self.entries(), module_name@, fingerprint@) == Some(m@),
                None => valid_entry(self.entries(), module_name@, fingerprint@) is None,
            },
    {
        match self.position(module_name) {
            Some(i) => {
                if self.entries[i].1.fingerprint.same_as(fingerprint) {
                    Some(&self.entries[i].1.module)
                } else {
                    None
                }
            },
            None => None,
        }
    }

    /// Caches `module`, read from files with `fingerprint`, under
    /// `module_name`, replacing what was cached under that name.
    pub fn store(&mut self, module_name: &str, fingerprint: SourceFingerprint, module: PythonModuleInfo)
        requires
            old(self).wf(),
        ensures
            final(self).wf(),
            final(self).entries() == store_entry(
                old(self).entries(),
                CacheEntryView { name: module_name@, module: module@, fingerprint: fingerprint@ },
            ),
    {
        let ghost e = CacheEntryView { name: module_name@, module: module@, fingerprint: fingerprint@ };
        let ghost before = self.entries();
        let entry = (String::from_str(module_name), CacheEntry { module, fingerprint });
        match self.position(module_name) {
            Some(i) => {
                self.entries.set(i, entry);
                assert(self.entries() =~= before.update(i as int, e));
            },
            None => {
                self.entries.push(entry);
                assert(self.entries() =~= before.push(e));
            },
        }
    }

    /// Drops every entry.
    pub fn invalidate_all(&mut self)
        ensures
            final(self).wf(),
            final(self).entries().len() == 0,
    {
        self.entries.clear();
        assert(self.entries() =~= Seq::<CacheEntryView>::empty());
    }

    /// Drops the entry of `module_name`.
    pub fn invalidate(&mut self, module_name: &str)
        requires
            old(self).wf(),
        ensures
            final(self).wf(),
            final(self).entries() == drop_entry(old(self).entries(), module_name@),
    {
        let ghost before = self.entries();
        match self.position(module_name) {
            Some(i) => {
                self.entries.remove(i);
                assert(self.entries() =~= before.remove(i as int));
            },
            None => {},
        }
    }

    /// The number of cached modules.
    pub fn len(&self) -> (n: usize)
        ensures
            n == self.entries().len(),
    {
        self.entries.len()
    }

    /// Whether nothing is cached.
    pub fn is_empty(&self) -> (b: bool)
        ensures
            b == (self.entries().len() == 0),
    {
        self.entries.len() == 0
    }
}

impl Default for PythonApiIndexCache {
    fn default() -> (c: PythonApiIndexCache)
        ensures
            c.wf(),
            c.entries().len() == 0,
    {
        PythonApiIndexCache::new()
    }
}

} // verus!
