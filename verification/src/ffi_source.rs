//! Where the type information of a Python module comes from (PEP 561
//! order): user stubs, the typeshed standard library, `*-stubs` packages,
//! then packages marked `py.typed`.
//!
//! This module holds the logic: the typeshed `VERSIONS` file format, which
//! standard modules exist for Python 3.12, and the file names the lookup
//! tries. Reading files and directories is left to the caller, who hands
//! their contents in.
use crate::lexer::source_chars;
use crate::text::str_eq;
use vstd::prelude::*;

verus! {

/// How a module's type information was located.
#[derive(Debug, Clone, Copy, PartialEq, Eq, Structural)]
pub enum TypeSourceKind {
    /// User-specified stub path (highest priority).
    CustomStubs,
    /// Bundled or external typeshed stdlib stubs.
    Typeshed,
    /// Stub-only package (`*-stubs`) from site-packages.
    StubPackage,
    /// Inline typed package (`py.typed` marker) from site-packages.
    PyTypedInline,
    /// Hand-crafted builtin signatures (fallback).
    Builtin,
}

/// Where a module's type information was physically found.
#[derive(Debug, Clone)]
pub struct ResolvedTypeSource {
    /// Fully qualified module name (e.g., `"pathlib"`, `"os.path"`).
    pub module_name: String,
    /// How the source was located.
    pub source_kind: TypeSourceKind,
    /// File paths holding the type information; empty for the bundled
    /// typeshed. For a partial stub package the first path is the stub and
    /// the others are runtime sources to merge in.
    pub paths: Vec<String>,
    /// Whether this is a partial stub package.
    pub is_partial: bool,
}

/// The mathematical form of a resolved source.
pub struct ResolvedTypeSourceView {
    pub module_name: Seq<char>,
    pub source_kind: TypeSourceKind,
    pub paths: Seq<Seq<char>>,
    pub is_partial: bool,
}

impl View for ResolvedTypeSource {
    type V = ResolvedTypeSourceView;

    open spec fn view(&self) -> ResolvedTypeSourceView {
        ResolvedTypeSourceView {
            module_name: self.module_name@,
            source_kind: self.source_kind,
            paths: self.paths@.map_values(|p: String| p@),
            is_partial: self.is_partial,
        }
    }
}

/// A copy of a list of strings.
pub fn duplicate_strings(v: &Vec<String>) -> (r: Vec<String>)
    ensures
        r@.map_values(|s: String| s@) == v@.map_values(|s: String| s@),
{
    let mut r: Vec<String> = Vec::new();
    let mut i: usize = 0;
    while i < v.len()
        invariant
            i <= v@.len(),
            r@.len() == i,
            forall|j: int| 0 <= j < i ==> (#[trigger] r@[j])@ == v@[j]@,
        decreases v@.len() - i,
    {
        r.push(v[i].clone());
        i += 1;
    }
    assert(r@.map_values(|s: String| s@) =~= v@.map_values(|s: String| s@));
    r
}

impl ResolvedTypeSource {
    /// A copy of this source.
    pub fn duplicate(&self) -> (r: ResolvedTypeSource)
        ensures
            r@ == self@,
    {
        ResolvedTypeSource {
            module_name: self.module_name.clone(),
            source_kind: self.source_kind,
            paths: duplicate_strings(&self.paths),
            is_partial: self.is_partial,
        }
    }
}

// ── Characters and ranges ───────────────────────────────────────

/// `char::is_whitespace`: the Unicode `White_Space` characters.
pub open spec fn spec_is_ws(c: char) -> bool {
    ('\u{9}' <= c && c <= '\u{d}') || c == ' ' || c == '\u{85}' || c == '\u{a0}' || c == '\u{1680}' || (
    '\u{2000}' <= c && c <= '\u{200a}') || c == '\u{2028}' || c == '\u{2029}' || c == '\u{202f}' || c
        == '\u{205f}' || c == '\u{3000}'
}

/// The start of `s[lo..hi]` with leading whitespace removed.
pub open spec fn trim_lo(s: Seq<char>, lo: int, hi: int) -> int
    decreases hi - lo,
{
    if lo < hi && spec_is_ws(s[lo]) {
        trim_lo(s, lo + 1, hi)
    } else {
        lo
    }
}

/// The end of `s[lo..hi]` with trailing whitespace removed.
pub open spec fn trim_hi(s: Seq<char>, lo: int, hi: int) -> int
    decreases hi - lo,
{
    if lo < hi && spec_is_ws(s[hi - 1]) {
        trim_hi(s, lo, hi - 1)
    } else {
        hi
    }
}

/// The first index in `lo..hi` holding `c`, or `hi`.
pub open spec fn find(s: Seq<char>, lo: int, hi: int, c: char) -> int
    decreases hi - lo,
{
    if lo < hi {
        if s[lo] == c {
            lo
        } else {
            find(s, lo + 1, hi, c)
        }
    } else {
        hi
    }
}

pub proof fn lemma_find_bounds(s: Seq<char>, lo: int, hi: int, c: char)
    requires
        lo <= hi,
    ensures
        lo <= find(s, lo, hi, c) <= hi,
    decreases hi - lo,
{
    if lo < hi && s[lo] != c {
        lemma_find_bounds(s, lo + 1, hi, c);
    }
}

// ── Numbers ─────────────────────────────────────────────────────

pub open spec fn is_digit(c: char) -> bool {
    '0' <= c && c <= '9'
}

/// The decimal value of the digits `s[lo..hi]`.
pub open spec fn digits_value(s: Seq<char>, lo: int, hi: int) -> int
    decreases hi - lo,
{
    if hi <= lo {
        0
    } else {
        digits_value(s, lo, hi - 1) * 10 + (s[hi - 1] as int - '0' as int)
    }
}

/// `s[lo..hi]` read as a `u32` the way `str::parse` reads it: an optional
/// `+`, then one or more ASCII digits, with a value that fits.
pub open spec fn u32_at(s: Seq<char>, lo: int, hi: int) -> Option<u32> {
    let d = if lo < hi && s[lo] == '+' { lo + 1 } else { lo };
    if d < hi && (forall|k: int| d <= k < hi ==> is_digit(#[trigger] s[k])) && digits_value(s, d, hi)
        <= u32::MAX {
        Some(digits_value(s, d, hi) as u32)
    } else {
        None
    }
}

/// `s[lo..hi]` read as a version `X.Y`: two numbers around the first dot.
pub open spec fn version_at(s: Seq<char>, lo: int, hi: int) -> Option<(u32, u32)> {
    let dot = find(s, lo, hi, '.');
    if dot >= hi {
        None
    } else {
        match (u32_at(s, lo, dot), u32_at(s, dot + 1, hi)) {
            (Some(a), Some(b)) => Some((a, b)),
            _ => None,
        }
    }
}

// ── The VERSIONS file ───────────────────────────────────────────

/// A line of typeshed's `VERSIONS` file: a module, the first version that
/// has it, and the last one, if it was removed.
#[derive(Debug, Clone)]
pub struct TypeshedVersionEntry {
    pub module: String,
    pub min_major: u32,
    pub min_minor: u32,
    /// `None`: the module is still present in the latest Python.
    pub max: Option<(u32, u32)>,
}

pub struct VersionEntryView {
    pub module: Seq<char>,
    pub min_major: u32,
    pub min_minor: u32,
    pub max: Option<(u32, u32)>,
}

impl View for TypeshedVersionEntry {
    type V = VersionEntryView;

    open spec fn view(&self) -> VersionEntryView {
        VersionEntryView { module: self.module@, min_major: self.min_major, min_minor: self.min_minor, max: self.max }
    }
}

/// The entry of the line `s[lo..hi]`: `module: X.Y-` or `module: X.Y-A.B`,
/// trimmed, with `#` starting a comment. Blank lines, comment lines and
/// lines that do not have this form give none. A maximum that is not a
/// version counts as none.
pub open spec fn line_entry(s: Seq<char>, lo: int, hi: int) -> Option<VersionEntryView> {
    let a = trim_lo(s, lo, hi);
    let b = trim_hi(s, a, hi);
    if a >= b || s[a] == '#' {
        None
    } else {
        let colon = find(s, a, b, ':');
        if colon >= b {
            None
        } else {
            let ma = trim_lo(s, a, colon);
            let mb = trim_hi(s, ma, colon);
            let va = trim_lo(s, colon + 1, b);
            let vb = trim_hi(s, va, b);
            let hash = find(s, va, vb, '#');
            let wa = trim_lo(s, va, hash);
            let wb = trim_hi(s, wa, hash);
            let dash = find(s, wa, wb, '-');
            if dash >= wb {
                None
            } else {
                let na = trim_lo(s, wa, dash);
                let nb = trim_hi(s, na, dash);
                match version_at(s, na, nb) {
                    None => None,
                    Some(min) => {
                        let xa = trim_lo(s, dash + 1, wb);
                        let xb = trim_hi(s, xa, wb);
                        let max = if xa >= xb {
                            None
                        } else {
                            version_at(s, xa, xb)
                        };
                        Some(
                            VersionEntryView {
                                module: s.subrange(ma, mb),
                                min_major: min.0,
                                min_minor: min.1,
                                max,
                            },
                        )
                    },
                }
            }
        }
    }
}

/// The entries of the lines of `s` from index `i` on.
pub open spec fn versions_from(s: Seq<char>, i: int) -> Seq<VersionEntryView>
    decreases s.len() - i,
{
    if i < 0 || i >= s.len() {
        Seq::empty()
    } else {
        proof {
            lemma_find_bounds(s, i, s.len() as int, '\n');
        }
        let j = find(s, i, s.len() as int, '\n');
        let rest = if j < s.len() {
            versions_from(s, j + 1)
        } else {
            Seq::empty()
        };
        match line_entry(s, i, j) {
            Some(e) => seq![e] + rest,
            None => rest,
        }
    }
}

/// The entries of a `VERSIONS` file.
pub open spec fn spec_parse_versions(s: Seq<char>) -> Seq<VersionEntryView> {
    versions_from(s, 0)
}

/// The entry for module `m`: the first one that names it.
pub open spec fn first_entry(es: Seq<VersionEntryView>, m: Seq<char>) -> Option<VersionEntryView>
    decreases es.len(),
{
    if es.len() == 0 {
        None
    } else if es[0].module == m {
        Some(es[0])
    } else {
        first_entry(es.drop_first(), m)
    }
}

/// Module `m` exists in Python 3.12: it was introduced by 3.12 and not
/// removed before; a module without an entry is taken to exist.
pub open spec fn available_312(es: Seq<VersionEntryView>, m: Seq<char>) -> bool {
    match first_entry(es, m) {
        None => true,
        Some(e) => {
            &&& (e.min_major < 3 || (e.min_major == 3 && e.min_minor <= 12))
            &&& match e.max {
                None => true,
                Some((major, minor)) => major > 3 || (major == 3 && minor >= 12),
            }
        },
    }
}

/// The top-level modules among the first `k` entries of `es` that exist in
/// Python 3.12, in order.
pub open spec fn stdlib_modules(es: Seq<VersionEntryView>, k: int) -> Seq<Seq<char>>
    decreases k,
{
    if k <= 0 || k > es.len() {
        Seq::empty()
    } else {
        let prev = stdlib_modules(es, k - 1);
        let m = es[k - 1].module;
        if !m.contains('.') && available_312(es, m) {
            prev.push(m)
        } else {
            prev
        }
    }
}

// ── Executable scanning ─────────────────────────────────────────

fn is_ws(c: char) -> (b: bool)
    ensures
        b == spec_is_ws(c),
{
    ('\u{9}' <= c && c <= '\u{d}') || c == ' ' || c == '\u{85}' || c == '\u{a0}' || c == '\u{1680}' || (
    '\u{2000}' <= c && c <= '\u{200a}') || c == '\u{2028}' || c == '\u{2029}' || c == '\u{202f}' || c
        == '\u{205f}' || c == '\u{3000}'
}

fn trim_start(s: &Vec<char>, lo: usize, hi: usize) -> (r: usize)
    requires
        lo <= hi <= s@.len(),
    ensures
        r == trim_lo(s@, lo as int, hi as int),
        lo <= r <= hi,
{
    let mut i = lo;
    while i < hi && is_ws(s[i])
        invariant
            lo <= i <= hi <= s@.len(),
            trim_lo(s@, lo as int, hi as int) == trim_lo(s@, i as int, hi as int),
        decreases hi - i,
    {
        i += 1;
    }
    i
}

fn trim_end(s: &Vec<char>, lo: usize, hi: usize) -> (r: usize)
    requires
        lo <= hi <= s@.len(),
    ensures
        r == trim_hi(s@, lo as int, hi as int),
        lo <= r <= hi,
{
    let mut j = hi;
    while lo < j && is_ws(s[j - 1])
        invariant
            lo <= j <= hi <= s@.len(),
            trim_hi(s@, lo as int, hi as int) == trim_hi(s@, lo as int, j as int),
        decreases j - lo,
    {
        j -= 1;
    }
    j
}

fn find_char(s: &Vec<char>, lo: usize, hi: usize, c: char) -> (r: usize)
    requires
        lo <= hi <= s@.len(),
    ensures
        r == find(s@, lo as int, hi as int, c),
        lo <= r <= hi,
{
    let mut i = lo;
    while i < hi && s[i] != c
        invariant
            lo <= i <= hi <= s@.len(),
            find(s@, lo as int, hi as int, c) == find(s@, i as int, hi as int, c),
        decreases hi - i,
    {
        i += 1;
    }
    i
}

/// Digits keep their value growing: a longer run of digits is worth at least as much.
proof fn lemma_digits_value_grows(s: Seq<char>, lo: int, k: int, hi: int)
    requires
        0 <= lo <= k <= hi <= s.len(),
        forall|j: int| lo <= j < hi ==> is_digit(#[trigger] s[j]),
    ensures
        digits_value(s, lo, k) <= digits_value(s, lo, hi),
    decreases hi - k,
{
    if k < hi {
        lemma_digits_value_grows(s, lo, k, hi - 1);
        lemma_digits_value_nonneg(s, lo, hi - 1);
        assert(is_digit(s[hi - 1]));
        assert(digits_value(s, lo, hi) == digits_value(s, lo, hi - 1) * 10 + (s[hi - 1] as int - '0' as int));
    }
}

proof fn lemma_digits_value_nonneg(s: Seq<char>, lo: int, hi: int)
    requires
        0 <= lo,
        hi <= s.len(),
        forall|j: int| lo <= j < hi ==> is_digit(#[trigger] s[j]),
    ensures
        digits_value(s, lo, hi) >= 0,
    decreases hi - lo,
{
    if lo < hi {
        lemma_digits_value_nonneg(s, lo, hi - 1);
    }
}

/// Reads `s[lo..hi]` as a `u32`, as `str::parse` does.
pub fn parse_u32_at(s: &Vec<char>, lo: usize, hi: usize) -> (r: Option<u32>)
    requires
        lo <= hi <= s@.len(),
    ensures
        r == u32_at(s@, lo as int, hi as int),
{
    let d = if lo < hi && s[lo] == '+' {
        lo + 1
    } else {
        lo
    };
    if d >= hi {
        return None;
    }
    let mut v: u64 = 0;
    let mut i = d;
    while i < hi
        invariant
            d <= i <= hi <= s@.len(),
            d < hi,
            d == (if lo < hi && s@[lo as int] == '+' { lo + 1 } else { lo as int }),
            forall|k: int| d <= k < i ==> is_digit(#[trigger] s@[k]),
            v == digits_value(s@, d as int, i as int),
            v <= u32::MAX,
        decreases hi - i,
    {
        let c = s[i];
        if !('0' <= c && c <= '9') {
            assert(!is_digit(s@[i as int]));
            return None;
        }
        let digit = (c as u32 - '0' as u32) as u64;
        v = v * 10 + digit;
        i += 1;
        assert(v == digits_value(s@, d as int, i as int));
        if v > 0xffff_ffff {
            proof {
                if forall|k: int| d <= k < hi ==> is_digit(#[trigger] s@[k]) {
                    lemma_digits_value_grows(s@, d as int, i as int, hi as int);
                }
            }
            return None;
        }
    }
    Some(v as u32)
}

/// Reads `s[lo..hi]` as a version `X.Y`.
pub fn parse_version_at(s: &Vec<char>, lo: usize, hi: usize) -> (r: Option<(u32, u32)>)
    requires
        lo <= hi <= s@.len(),
    ensures
        r == version_at(s@, lo as int, hi as int),
{
    let dot = find_char(s, lo, hi, '.');
    if dot >= hi {
        return None;
    }
    let major = parse_u32_at(s, lo, dot);
    let minor = parse_u32_at(s, dot + 1, hi);
    match (major, minor) {
        (Some(a), Some(b)) => Some((a, b)),
        _ => None,
    }
}

/// Parses `"X.Y"` into its major and minor numbers.
pub fn parse_version(s: &str) -> (r: Option<(u32, u32)>)
    ensures
        r == version_at(s@, 0, s@.len() as int),
{
    let chars = source_chars(s);
    parse_version_at(&chars, 0, chars.len())
}

/// The entry of the line `content[lo..hi]`, whose characters are `s`.
fn parse_line(content: &str, s: &Vec<char>, lo: usize, hi: usize) -> (r: Option<TypeshedVersionEntry>)
    requires
        s@ == content@,
        lo <= hi <= s@.len(),
    ensures
        match r {
            Some(e) => line_entry(s@, lo as int, hi as int) == Some(e@),
            None => line_entry(s@, lo as int, hi as int) is None,
        },
{
    let a = trim_start(s, lo, hi);
    let b = trim_end(s, a, hi);
    if a >= b || s[a] == '#' {
        return None;
    }
    let colon = find_char(s, a, b, ':');
    if colon >= b {
        return None;
    }
    let ma = trim_start(s, a, colon);
    let mb = trim_end(s, ma, colon);
    let va = trim_start(s, colon + 1, b);
    let vb = trim_end(s, va, b);
    let hash = find_char(s, va, vb, '#');
    let wa = trim_start(s, va, hash);
    let wb = trim_end(s, wa, hash);
    let dash = find_char(s, wa, wb, '-');
    if dash >= wb {
        return None;
    }
    let na = trim_start(s, wa, dash);
    let nb = trim_end(s, na, dash);
    match parse_version_at(s, na, nb) {
        None => None,
        Some(min) => {
            let xa = trim_start(s, dash + 1, wb);
            let xb = trim_end(s, xa, wb);
            let max = if xa >= xb {
                None
            } else {
                parse_version_at(s, xa, xb)
            };
            let module = String::from_str(content.substring_char(ma, mb));
            Some(TypeshedVersionEntry { module, min_major: min.0, min_minor: min.1, max })
        },
    }
}

/// Parses the content of typeshed's `VERSIONS` file: one entry per line of
/// the form `module: X.Y-` or `module: X.Y-A.B`; other lines are skipped.
pub fn parse_versions_content(content: &str) -> (r: Vec<TypeshedVersionEntry>)
    ensures
        r@.map_values(|e: TypeshedVersionEntry| e@) == spec_parse_versions(content@),
{
    let s = source_chars(content);
    let n = s.len();
    let mut entries: Vec<TypeshedVersionEntry> = Vec::new();
    let mut i: usize = 0;
    while i < n
        invariant
            s@ == content@,
            n == s@.len(),
            i <= n,
            spec_parse_versions(s@) == entries@.map_values(|e: TypeshedVersionEntry| e@) + versions_from(
                s@,
                i as int,
            ),
        decreases n - i,
    {
        let j = find_char(&s, i, n, '\n');
        let ghost before = entries@.map_values(|e: TypeshedVersionEntry| e@);
        match parse_line(content, &s, i, j) {
            Some(e) => {
                entries.push(e);
                proof {
                    assert(entries@.map_values(|e: TypeshedVersionEntry| e@) =~= before.push(e@));
                    assert(before.push(e@) + versions_from(s@, j + 1) =~= before + (seq![e@] + versions_from(
                        s@,
                        j + 1,
                    )));
                }
            },
            None => {},
        }
        if j >= n {
            proof {
                assert(versions_from(s@, j + 1) =~= Seq::<VersionEntryView>::empty());
                assert(entries@.map_values(|e: TypeshedVersionEntry| e@) + versions_from(s@, j + 1)
                    =~= entries@.map_values(|e: TypeshedVersionEntry| e@));
            }
            return entries;
        }
        i = j + 1;
    }
    proof {
        assert(versions_from(s@, i as int) =~= Seq::<VersionEntryView>::empty());
        assert(entries@.map_values(|e: TypeshedVersionEntry| e@) + Seq::<VersionEntryView>::empty()
            =~= entries@.map_values(|e: TypeshedVersionEntry| e@));
    }
    entries
}

/// The entry for module `name` in `es`: the first one naming it.
fn find_entry(es: &Vec<TypeshedVersionEntry>, name: &str) -> (r: Option<usize>)
    ensures
        match r {
            Some(i) => i < es@.len() && first_entry(es@.map_values(|e: TypeshedVersionEntry| e@), name@)
                == Some(es@[i as int]@),
            None => first_entry(es@.map_values(|e: TypeshedVersionEntry| e@), name@) is None,
        },
{
    let ghost all = es@.map_values(|e: TypeshedVersionEntry| e@);
    proof {
        assert(all.subrange(0, all.len() as int) =~= all);
    }
    let mut i: usize = 0;
    while i < es.len()
        invariant
            i <= es@.len(),
            all == es@.map_values(|e: TypeshedVersionEntry| e@),
            first_entry(all, name@) == first_entry(all.subrange(i as int, all.len() as int), name@),
        decreases es@.len() - i,
    {
        let ghost rest = all.subrange(i as int, all.len() as int);
        proof {
            assert(rest[0] == es@[i as int]@);
            assert(rest.drop_first() =~= all.subrange(i + 1, all.len() as int));
        }
        if str_eq(es[i].module.as_str(), name) {
            return Some(i);
        }
        i += 1;
    }
    proof {
        assert(all.subrange(i as int, all.len() as int) =~= Seq::<VersionEntryView>::empty());
    }
    None
}

/// Resolves Python module names to where their type information lives,
/// following the PEP 561 order. It holds the configured directories and the
/// typeshed `VERSIONS` table; the caller does the file lookups.
pub struct TypeSourceResolver {
    /// User-specified directories containing `.pyi` stubs.
    custom_stub_paths: Vec<String>,
    /// An external typeshed checkout; `None` means the bundled one.
    typeshed_path: Option<String>,
    /// Python site-packages directories for stub and typed packages.
    site_packages_paths: Vec<String>,
    /// The parsed `VERSIONS` file of the typeshed in use.
    typeshed_versions: Vec<TypeshedVersionEntry>,
}

impl TypeSourceResolver {
    pub closed spec fn spec_custom_stub_paths(self) -> Seq<String> {
        self.custom_stub_paths@
    }

    pub closed spec fn spec_typeshed_path(self) -> Option<String> {
        self.typeshed_path
    }

    pub closed spec fn spec_site_packages_paths(self) -> Seq<String> {
        self.site_packages_paths@
    }

    pub closed spec fn spec_versions(self) -> Seq<VersionEntryView> {
        self.typeshed_versions@.map_values(|e: TypeshedVersionEntry| e@)
    }

    /// A resolver over the given directories, with the typeshed `VERSIONS`
    /// file `versions` (of the external typeshed at `typeshed_path`, or of
    /// the bundled one).
    pub fn new(
        custom_stub_paths: Vec<String>,
        typeshed_path: Option<String>,
        site_packages_paths: Vec<String>,
        versions: &str,
    ) -> (r: TypeSourceResolver)
        ensures
            r.spec_custom_stub_paths() == custom_stub_paths@,
            r.spec_typeshed_path() == typeshed_path,
            r.spec_site_packages_paths() == site_packages_paths@,
            r.spec_versions() == spec_parse_versions(versions@),
    {
        let typeshed_versions = parse_versions_content(versions);
        TypeSourceResolver { custom_stub_paths, typeshed_path, site_packages_paths, typeshed_versions }
    }

    /// A resolver that uses only the bundled typeshed, whose `VERSIONS`
    /// file is `versions`.
    pub fn bundled_only(versions: &str) -> (r: TypeSourceResolver)
        ensures
            r.spec_custom_stub_paths().len() == 0,
            r.spec_typeshed_path() is None,
            r.spec_site_packages_paths().len() == 0,
            r.spec_versions() == spec_parse_versions(versions@),
    {
        TypeSourceResolver::new(Vec::new(), None, Vec::new(), versions)
    }

    pub fn custom_stub_paths(&self) -> (r: &Vec<String>)
        ensures
            r@ == self.spec_custom_stub_paths(),
    {
        &self.custom_stub_paths
    }

    pub fn typeshed_path(&self) -> (r: &Option<String>)
        ensures
            *r == self.spec_typeshed_path(),
    {
        &self.typeshed_path
    }

    pub fn site_packages_paths(&self) -> (r: &Vec<String>)
        ensures
            r@ == self.spec_site_packages_paths(),
    {
        &self.site_packages_paths
    }

    /// Whether `module_name` exists in Python 3.12 according to `VERSIONS`:
    /// introduced by 3.12 and not removed before it. A module the file does
    /// not name is taken to exist.
    pub fn is_available_in_312(&self, module_name: &str) -> (b: bool)
        ensures
            b == available_312(self.spec_versions(), module_name@),
    {
        match find_entry(&self.typeshed_versions, module_name) {
            None => true,
            Some(i) => {
                let e = &self.typeshed_versions[i];
                let introduced_ok = e.min_major < 3 || (e.min_major == 3 && e.min_minor <= 12);
                let not_removed = match e.max {
                    None => true,
                    Some((major, minor)) => major > 3 || (major == 3 && minor >= 12),
                };
                introduced_ok && not_removed
            },
        }
    }

    /// The top-level standard modules (no dotted submodules) that exist in
    /// Python 3.12, in the order of the `VERSIONS` file.
    pub fn available_stdlib_modules(&self) -> (r: Vec<String>)
        ensures
            r@.map_values(|m: String| m@) == stdlib_modules(self.spec_versions(), self.spec_versions().len() as int),
    {
        let ghost es = self.spec_versions();
        let mut out: Vec<String> = Vec::new();
        let mut k: usize = 0;
        while k < self.typeshed_versions.len()
            invariant
                k <= self.typeshed_versions@.len(),
                es == self.spec_versions(),
                out@.map_values(|m: String| m@) == stdlib_modules(es, k as int),
            decreases self.typeshed_versions@.len() - k,
        {
            let m = &self.typeshed_versions[k].module;
            let ghost prev = out@.map_values(|m: String| m@);
            proof {
                assert(es[k as int] == self.typeshed_versions@[k as int]@);
            }
            if !contains_char(m.as_str(), '.') && self.is_available_in_312(m.as_str()) {
                out.push(m.clone());
                proof {
                    assert(out@.map_values(|m: String| m@) =~= prev.push(es[k as int].module));
                }
            }
            k += 1;
        }
        out
    }
}

/// Whether `s` holds the character `c`.
pub fn contains_char(s: &str, c: char) -> (b: bool)
    ensures
        b == s@.contains(c),
{
    let chars = source_chars(s);
    let mut i: usize = 0;
    while i < chars.len()
        invariant
            chars@ == s@,
            i <= chars@.len(),
            forall|k: int| 0 <= k < i ==> chars@[k] != c,
        decreases chars@.len() - i,
    {
        if chars[i] == c {
            assert(s@[i as int] == c);
            return true;
        }
        i += 1;
    }
    false
}

// ── Module paths ────────────────────────────────────────────────

/// The segments of a dotted module name, as `str::split('.')` gives them.
pub open spec fn segments_from(s: Seq<char>, i: int) -> Seq<Seq<char>>
    decreases s.len() - i,
{
    if i < 0 || i > s.len() {
        Seq::empty()
    } else {
        proof {
            lemma_find_bounds(s, i, s.len() as int, '.');
        }
        let j = find(s, i, s.len() as int, '.');
        if j < s.len() {
            seq![s.subrange(i, j)] + segments_from(s, j + 1)
        } else {
            seq![s.subrange(i, j)]
        }
    }
}

/// The path segments of a module: `os.path` is `os`, then `path`.
pub fn module_path_segments(module_name: &str) -> (r: Vec<String>)
    ensures
        r@.map_values(|p: String| p@) == segments_from(module_name@, 0),
{
    let s = source_chars(module_name);
    let n = s.len();
    let mut out: Vec<String> = Vec::new();
    let mut i: usize = 0;
    loop
        invariant
            s@ == module_name@,
            n == s@.len(),
            i <= n,
            segments_from(s@, 0) == out@.map_values(|p: String| p@) + segments_from(s@, i as int),
        decreases n - i,
    {
        let j = find_char(&s, i, n, '.');
        let ghost prev = out@.map_values(|p: String| p@);
        out.push(String::from_str(module_name.substring_char(i, j)));
        proof {
            assert(out@.map_values(|p: String| p@) =~= prev.push(s@.subrange(i as int, j as int)));
        }
        if j >= n {
            proof {
                assert(segments_from(s@, i as int) =~= seq![s@.subrange(i as int, j as int)]);
                assert(prev + seq![s@.subrange(i as int, j as int)] =~= prev.push(s@.subrange(i as int, j as int)));
            }
            return out;
        }
        proof {
            assert(prev + segments_from(s@, i as int) =~= prev.push(s@.subrange(i as int, j as int))
                + segments_from(s@, j + 1));
        }
        i = j + 1;
    }
}

/// The top-level package of a module: the part before the first dot.
pub fn top_level_package_name(module_name: &str) -> (r: String)
    ensures
        r@ == module_name@.subrange(0, find(module_name@, 0, module_name@.len() as int, '.')),
{
    let s = source_chars(module_name);
    let j = find_char(&s, 0, s.len(), '.');
    String::from_str(module_name.substring_char(0, j))
}

/// The module name with its dots made slashes: its path below a directory.
pub open spec fn slashed(s: Seq<char>) -> Seq<char> {
    Seq::new(s.len(), |i: int| if s[i] == '.' { '/' } else { s[i] })
}

/// Appends `module_name` with its dots made slashes to `out`.
fn append_slashed(out: &mut String, module_name: &str)
    ensures
        final(out)@ == old(out)@ + slashed(module_name@),
{
    let s = source_chars(module_name);
    let n = s.len();
    let ghost o0 = out@;
    let mut i: usize = 0;
    let mut start: usize = 0;
    proof {
        assert(slashed(s@).subrange(0, 0) =~= Seq::<char>::empty());
        assert(o0 + Seq::<char>::empty() =~= o0);
    }
    while i < n
        invariant
            s@ == module_name@,
            n == s@.len(),
            start <= i <= n,
            forall|k: int| start <= k < i ==> s@[k] != '.',
            out@ == o0 + slashed(s@).subrange(0, start as int),
        decreases n - i,
    {
        if s[i] == '.' {
            out.append(module_name.substring_char(start, i));
            out.append("/");
            proof {
                reveal_strlit("/");
                assert(slashed(s@).subrange(0, i + 1) =~= slashed(s@).subrange(0, start as int)
                    + s@.subrange(start as int, i as int) + "/"@);
            }
            start = i + 1;
        }
        i += 1;
    }
    out.append(module_name.substring_char(start, n));
    proof {
        assert(slashed(s@) =~= slashed(s@).subrange(0, start as int) + s@.subrange(start as int, n as int));
    }
}

/// The stub files that can hold `module_name`, relative to a search
/// directory, in the order they are tried: the package's `__init__.pyi`,
/// then the single-file `.pyi`.
pub fn stub_file_candidates(module_name: &str) -> (r: Vec<String>)
    ensures
        r@.len() == 2,
        r@[0]@ == slashed(module_name@) + "/__init__.pyi"@,
        r@[1]@ == slashed(module_name@) + ".pyi"@,
{
    let mut pkg = String::new();
    append_slashed(&mut pkg, module_name);
    pkg.append("/__init__.pyi");
    let mut single = String::new();
    append_slashed(&mut single, module_name);
    single.append(".pyi");
    let mut v: Vec<String> = Vec::new();
    v.push(pkg);
    v.push(single);
    v
}

/// The source files that can hold `module_name`, in the order they are
/// tried: the stub files, then the package's `__init__.py`, then the
/// single-file `.py`.
pub fn source_file_candidates(module_name: &str) -> (r: Vec<String>)
    ensures
        r@.len() == 4,
        r@[0]@ == slashed(module_name@) + "/__init__.pyi"@,
        r@[1]@ == slashed(module_name@) + ".pyi"@,
        r@[2]@ == slashed(module_name@) + "/__init__.py"@,
        r@[3]@ == slashed(module_name@) + ".py"@,
{
    let mut v = stub_file_candidates(module_name);
    let mut pkg = String::new();
    append_slashed(&mut pkg, module_name);
    pkg.append("/__init__.py");
    let mut single = String::new();
    append_slashed(&mut single, module_name);
    single.append(".py");
    v.push(pkg);
    v.push(single);
    v
}

/// The name of the stub-only package of a module: `<top-level>-stubs`.
pub fn stubs_package_name(module_name: &str) -> (r: String)
    ensures
        r@ == module_name@.subrange(0, find(module_name@, 0, module_name@.len() as int, '.')) + "-stubs"@,
{
    let mut r = top_level_package_name(module_name);
    r.append("-stubs");
    r
}

/// Whether a `py.typed` marker's content marks a partial stub package:
/// it reads `partial`, give or take surrounding whitespace.
pub fn is_partial_marker(content: &str) -> (b: bool)
    ensures
        b == (content@.subrange(
            trim_lo(content@, 0, content@.len() as int),
            trim_hi(content@, trim_lo(content@, 0, content@.len() as int), content@.len() as int),
        ) == "partial"@),
{
    let s = source_chars(content);
    let a = trim_start(&s, 0, s.len());
    let b = trim_end(&s, a, s.len());
    str_eq(content.substring_char(a, b), "partial")
}

/// The characters that Rust's `char::is_whitespace` accepts: those with
/// the Unicode `White_Space` property.
pub open spec fn is_white_space(c: char) -> bool {
    ||| '\u{9}' <= c <= '\u{d}'
    ||| c == ' '
    ||| c == '\u{85}'
    ||| c == '\u{a0}'
    ||| c == '\u{1680}'
    ||| '\u{2000}' <= c <= '\u{200a}'
    ||| c == '\u{2028}'
    ||| c == '\u{2029}'
    ||| c == '\u{202f}'
    ||| c == '\u{205f}'
    ||| c == '\u{3000}'
}

fn white_space(c: char) -> (b: bool)
    ensures
        b == is_white_space(c),
{
    ('\u{9}' <= c && c <= '\u{d}') || c == ' ' || c == '\u{85}' || c == '\u{a0}' || c == '\u{1680}'
        || ('\u{2000}' <= c && c <= '\u{200a}') || c == '\u{2028}' || c == '\u{2029}' || c == '\u{202f}'
        || c == '\u{205f}' || c == '\u{3000}'
}

/// The end of the line of `s` that starts at `i`: its first newline at or
/// after `i`, or the end of `s`.
pub open spec fn line_end(s: Seq<char>, i: int) -> int
    decreases s.len() - i,
{
    if i < 0 || i >= s.len() {
        s.len() as int
    } else if s[i] == '\n' {
        i
    } else {
        line_end(s, i + 1)
    }
}

/// From `a`, past the white space that begins `s[a..b]`.
pub open spec fn skip_space(s: Seq<char>, a: int, b: int) -> int
    decreases b - a,
{
    if a < b && is_white_space(s[a]) {
        skip_space(s, a + 1, b)
    } else {
        a
    }
}

/// From `b`, back over the white space that ends `s[a..b]`.
pub open spec fn back_space(s: Seq<char>, a: int, b: int) -> int
    decreases b - a,
{
    if a < b && is_white_space(s[b - 1]) {
        back_space(s, a, b - 1)
    } else {
        b
    }
}

proof fn lemma_line_end(s: Seq<char>, i: int)
    requires
        0 <= i <= s.len(),
    ensures
        i <= line_end(s, i) <= s.len(),
        line_end(s, i) < s.len() ==> s[line_end(s, i)] == '\n',
    decreases s.len() - i,
{
    if i < s.len() && s[i] != '\n' {
        lemma_line_end(s, i + 1);
    }
}

proof fn lemma_skip_space(s: Seq<char>, a: int, b: int)
    requires
        a <= b,
    ensures
        a <= skip_space(s, a, b) <= b,
        a <= back_space(s, a, b) <= b,
    decreases b - a,
{
    if a < b {
        lemma_skip_space(s, a + 1, b);
        lemma_skip_space(s, a, b - 1);
    }
}

/// The lines of `s` from `i` on, each trimmed of white space at both ends,
/// the blank ones left out: what `str::lines`, `str::trim` and dropping
/// empty lines make of the text.
pub open spec fn nonblank_lines(s: Seq<char>, i: int) -> Seq<Seq<char>>
    decreases s.len() - i,
{
    if i < 0 || i >= s.len() {
        Seq::empty()
    } else {
        let j = if line_end(s, i) >= i {
            line_end(s, i)
        } else {
            i
        };
        let a = skip_space(s, i, j);
        let b = back_space(s, a, j);
        let rest = if j < s.len() {
            nonblank_lines(s, j + 1)
        } else {
            Seq::empty()
        };
        if a < b {
            seq![s.subrange(a, b)] + rest
        } else {
            rest
        }
    }
}

/// The directories an interpreter printed, one per line: each line trimmed
/// of white space, blank lines left out, in order.
pub fn printed_paths(output: &str) -> (r: Vec<String>)
    ensures
        r@.map_values(|p: String| p@) == nonblank_lines(output@, 0),
{
    let chars = source_chars(output);
    let n = chars.len();
    let ghost s = output@;
    let mut r: Vec<String> = Vec::new();
    let mut i: usize = 0;
    while i < n
        invariant
            chars@ == s,
            s == output@,
            n == s.len(),
            i <= n,
            r@.map_values(|p: String| p@) + nonblank_lines(s, i as int) == nonblank_lines(s, 0),
        decreases n - i,
    {
        let mut j = i;
        while j < n && chars[j] != '\n'
            invariant
                chars@ == s,
                s == output@,
                n == s.len(),
                i <= j <= n,
                line_end(s, i as int) == line_end(s, j as int),
            decreases n - j,
        {
            j += 1;
        }
        let mut a = i;
        while a < j && white_space(chars[a])
            invariant
                chars@ == s,
                s == output@,
                n == s.len(),
                i <= a <= j <= n,
                skip_space(s, i as int, j as int) == skip_space(s, a as int, j as int),
            decreases j - a,
        {
            a += 1;
        }
        let mut b = j;
        while b > a && white_space(chars[b - 1])
            invariant
                chars@ == s,
                s == output@,
                n == s.len(),
                i <= a <= b <= j <= n,
                back_space(s, a as int, j as int) == back_space(s, a as int, b as int),
            decreases b - a,
        {
            b -= 1;
        }
        proof {
            lemma_line_end(s, i as int);
            assert(line_end(s, i as int) == j);
        }
        let ghost before = r@.map_values(|p: String| p@);
        if a < b {
            let line = String::from_str(output.substring_char(a, b));
            r.push(line);
            assert(r@.map_values(|p: String| p@) =~= before.push(s.subrange(a as int, b as int)));
            assert(before.push(s.subrange(a as int, b as int)) + nonblank_lines(s, j + 1) =~= before + (seq![
                s.subrange(a as int, b as int),
            ] + nonblank_lines(s, j + 1)));
        }
        i = if j < n { j + 1 } else { n };
    }
    proof {
        assert(r@.map_values(|p: String| p@) + Seq::<Seq<char>>::empty() =~= r@.map_values(|p: String| p@));
    }
    r
}

// ── The PEP 561 lookup order ────────────────────────────────────

/// What the file system says about one site-packages directory, for one
/// module: whether its `<package>-stubs` directory exists, which of the
/// stub files (`stub_file_candidates`) exist in it, whether that package's
/// `py.typed` marks it partial, which of the source files
/// (`source_file_candidates`) exist in the directory itself, and whether
/// the top-level package's `py.typed` marker exists and marks it partial.
pub struct SiteFacts {
    pub stubs_dir: bool,
    pub stub_files: Vec<bool>,
    pub stubs_partial: bool,
    pub source_files: Vec<bool>,
    pub marker: bool,
    pub marker_partial: bool,
}

/// What is known of typeshed for one module: a bundled typeshed has a stub
/// for it or not; an external one has some of the stub files.
pub enum TypeshedFacts {
    Bundled { exists: bool },
    External { stub_files: Vec<bool> },
}

/// Everything the lookup of one module reads: for each custom stub
/// directory, which stub files exist in it; whether typeshed's `VERSIONS`
/// lists the module for Python 3.12; typeshed; and each site-packages
/// directory, in search order.
pub struct LookupFacts {
    pub custom: Vec<Vec<bool>>,
    pub in_stdlib: bool,
    pub typeshed: TypeshedFacts,
    pub sites: Vec<SiteFacts>,
}

/// Where a module's type information was found, by position in the facts:
/// the directory and the candidate file, and for a package whether it is
/// partial and (for a partial stub package) the runtime source to merge.
#[derive(Debug, Clone, Copy, PartialEq, Eq, Structural)]
pub enum TypeSourceChoice {
    CustomStub { dir: usize, file: usize },
    Typeshed { file: Option<usize> },
    StubPackage { site: usize, file: usize, partial: bool, runtime: Option<usize> },
    PyTyped { site: usize, file: usize, partial: bool },
}

/// The first index from `i` on whose entry is true, or the length.
pub open spec fn first_true(v: Seq<bool>, i: int) -> int
    decreases v.len() - i,
{
    if i < 0 || i >= v.len() {
        v.len() as int
    } else if v[i] {
        i
    } else {
        first_true(v, i + 1)
    }
}

/// Some entry is true: `first_true` finds one.
pub open spec fn has_true(v: Seq<bool>) -> bool {
    first_true(v, 0) < v.len()
}

/// The first custom directory from `d` on holding a stub, or the count.
pub open spec fn first_custom(c: Seq<Vec<bool>>, d: int) -> int
    decreases c.len() - d,
{
    if d < 0 || d >= c.len() {
        c.len() as int
    } else if has_true(c[d]@) {
        d
    } else {
        first_custom(c, d + 1)
    }
}

/// A site holds a stub package for the module.
pub open spec fn stub_site(s: SiteFacts) -> bool {
    s.stubs_dir && has_true(s.stub_files@)
}

/// A site holds a `py.typed` package with a source for the module.
pub open spec fn typed_site(s: SiteFacts) -> bool {
    s.marker && has_true(s.source_files@)
}

/// The first site from `d` on for which `stub` (stub packages) or
/// `typed_site` (`py.typed` packages) holds, or the count.
pub open spec fn first_site(sites: Seq<SiteFacts>, d: int, stub: bool) -> int
    decreases sites.len() - d,
{
    if d < 0 || d >= sites.len() {
        sites.len() as int
    } else if (if stub {
        stub_site(sites[d])
    } else {
        typed_site(sites[d])
    }) {
        d
    } else {
        first_site(sites, d + 1, stub)
    }
}

/// The PEP 561 order: the first custom stub directory with a stub; else
/// typeshed, when `VERSIONS` lists the module and typeshed has its stub;
/// else the first site with a `-stubs` package holding a stub (with the
/// site's runtime source when the package is partial); else the first site
/// with a `py.typed` package holding a source; else nothing.
pub open spec fn type_source_choice(f: LookupFacts) -> Option<TypeSourceChoice> {
    let c = first_custom(f.custom@, 0);
    let ts = match f.typeshed {
        TypeshedFacts::Bundled { exists } => if exists {
            Some(TypeSourceChoice::Typeshed { file: None })
        } else {
            None
        },
        TypeshedFacts::External { stub_files } => if has_true(stub_files@) {
            Some(TypeSourceChoice::Typeshed { file: Some(first_true(stub_files@, 0) as usize) })
        } else {
            None
        },
    };
    let s = first_site(f.sites@, 0, true);
    let t = first_site(f.sites@, 0, false);
    if c < f.custom@.len() {
        Some(TypeSourceChoice::CustomStub { dir: c as usize, file: first_true(f.custom@[c]@, 0) as usize })
    } else if f.in_stdlib && ts is Some {
        ts
    } else if s < f.sites@.len() {
        let site = f.sites@[s];
        Some(
            TypeSourceChoice::StubPackage {
                site: s as usize,
                file: first_true(site.stub_files@, 0) as usize,
                partial: site.stubs_partial,
                runtime: if site.stubs_partial && has_true(site.source_files@) {
                    Some(first_true(site.source_files@, 0) as usize)
                } else {
                    None
                },
            },
        )
    } else if t < f.sites@.len() {
        let site = f.sites@[t];
        Some(
            TypeSourceChoice::PyTyped {
                site: t as usize,
                file: first_true(site.source_files@, 0) as usize,
                partial: site.marker_partial,
            },
        )
    } else {
        None
    }
}

proof fn lemma_first_true(v: Seq<bool>, i: int)
    requires
        0 <= i <= v.len(),
    ensures
        i <= first_true(v, i) <= v.len(),
    decreases v.len() - i,
{
    if i < v.len() && !v[i] {
        lemma_first_true(v, i + 1);
    }
}

proof fn lemma_first_site(sites: Seq<SiteFacts>, d: int, stub: bool)
    requires
        0 <= d <= sites.len(),
    ensures
        d <= first_site(sites, d, stub) <= sites.len(),
        first_site(sites, d, stub) < sites.len() ==> (if stub {
            stub_site(sites[first_site(sites, d, stub)])
        } else {
            typed_site(sites[first_site(sites, d, stub)])
        }),
    decreases sites.len() - d,
{
    if d < sites.len() {
        lemma_first_site(sites, d + 1, stub);
    }
}

/// The first true entry of `v`.
fn find_true(v: &Vec<bool>) -> (r: Option<usize>)
    ensures
        r == (if has_true(v@) {
            Some(first_true(v@, 0) as usize)
        } else {
            None
        }),
{
    let mut i: usize = 0;
    while i < v.len()
        invariant
            i <= v@.len(),
            first_true(v@, 0) == first_true(v@, i as int),
        decreases v@.len() - i,
    {
        if v[i] {
            return Some(i);
        }
        i += 1;
    }
    None
}

fn site_ok(s: &SiteFacts, stub: bool) -> (b: bool)
    ensures
        b == (if stub {
            stub_site(*s)
        } else {
            typed_site(*s)
        }),
{
    if stub {
        s.stubs_dir && find_true(&s.stub_files).is_some()
    } else {
        s.marker && find_true(&s.source_files).is_some()
    }
}

fn find_site(sites: &Vec<SiteFacts>, stub: bool) -> (r: usize)
    ensures
        r == first_site(sites@, 0, stub),
{
    let mut d: usize = 0;
    while d < sites.len()
        invariant
            d <= sites@.len(),
            first_site(sites@, 0, stub) == first_site(sites@, d as int, stub),
        decreases sites@.len() - d,
    {
        if site_ok(&sites[d], stub) {
            return d;
        }
        d += 1;
    }
    d
}

/// Where the type information of a module comes from, given what the file
/// system says: the PEP 561 order of `type_source_choice`.
pub fn choose_type_source(f: &LookupFacts) -> (r: Option<TypeSourceChoice>)
    ensures
        r == type_source_choice(*f),
{
    let mut d: usize = 0;
    while d < f.custom.len()
        invariant
            d <= f.custom@.len(),
            first_custom(f.custom@, 0) == first_custom(f.custom@, d as int),
        decreases f.custom@.len() - d,
    {
        if let Some(file) = find_true(&f.custom[d]) {
            return Some(TypeSourceChoice::CustomStub { dir: d, file });
        }
        d += 1;
    }
    if f.in_stdlib {
        match &f.typeshed {
            TypeshedFacts::Bundled { exists } => {
                if *exists {
                    return Some(TypeSourceChoice::Typeshed { file: None });
                }
            },
            TypeshedFacts::External { stub_files } => {
                if let Some(file) = find_true(stub_files) {
                    return Some(TypeSourceChoice::Typeshed { file: Some(file) });
                }
            },
        }
    }
    let s = find_site(&f.sites, true);
    proof {
        lemma_first_site(f.sites@, 0, true);
        lemma_first_site(f.sites@, 0, false);
    }
    if s < f.sites.len() {
        let site = &f.sites[s];
        let file = find_true(&site.stub_files);
        proof {
            lemma_first_true(site.stub_files@, 0);
        }
        let runtime = if site.stubs_partial {
            find_true(&site.source_files)
        } else {
            None
        };
        return Some(
            TypeSourceChoice::StubPackage { site: s, file: file.unwrap(), partial: site.stubs_partial, runtime },
        );
    }
    let t = find_site(&f.sites, false);
    if t < f.sites.len() {
        let site = &f.sites[t];
        let file = find_true(&site.source_files);
        return Some(TypeSourceChoice::PyTyped { site: t, file: file.unwrap(), partial: site.marker_partial });
    }
    None
}

} // verus!
