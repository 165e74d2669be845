//! Parsing a source text into a lossless concrete syntax tree.
use crate::diagnostic::{Diagnostic, DiagnosticView, Severity};
use crate::grammar::{grammatical, nests_by_binding_power, parse_source_file};
use crate::parser::shape_ok;
use crate::lexer::{concat_texts, lex, lex_diagnostics, lex_is_lossless, lex_spec, TokenView};
use crate::parser::{tree_tokens, Parser};
use crate::span::FileId;
use crate::syntax_kind::SyntaxKind;
use crate::text::byte_len;
use crate::tree::{texts_of, upto, SyntaxTree};
use vstd::prelude::*;

verus! {

/// The result of parsing: always a tree, as complete as the input allows,
/// with `NodeError` nodes around malformed regions, and the lexer and parser
/// diagnostics.
#[derive(Debug)]
pub struct ParseResult {
    tree: SyntaxTree,
    diagnostics: Vec<Diagnostic>,
}

/// `t` is a tree that parsing `source` can give: well formed, rooted at a
/// `SourceFile` node, shaped as the grammar nests its nodes (the source
/// file holds items: function and type definitions, imports and error
/// nodes; a function holds its visibility, parameter list, return type and
/// body; and so on, as `child_kind_ok` lists), with every operator
/// expression nested by the binding powers of its operators (`bp_tree`),
/// holding every token of `source` but the final `Eof`, in order, so that
/// it spells `source` exactly.
pub open spec fn parses_to(t: SyntaxTree, file_id: FileId, source: Seq<char>) -> bool {
    let toks = lex_spec(source, file_id);
    &&& t.wf()
    &&& t.node_views()[t.root as int].kind == SyntaxKind::SourceFile
    &&& shape_ok(t.node_views(), t.root as int)
    &&& nests_by_binding_power(toks, t.node_views())
    &&& t.token_views() == tree_tokens(toks, toks.len() - 1)
    &&& t.leaves() == upto(toks.len() - 1)
    &&& t.spec_text() == source
}

/// `t` and `ds` are what parsing `source` can give: a tree as `parses_to`
/// describes it, and diagnostics that begin with those of the lexer.
pub open spec fn parse_ok(t: SyntaxTree, ds: Seq<DiagnosticView>, file_id: FileId, source: Seq<char>) -> bool {
    let toks = lex_spec(source, file_id);
    let ld = lex_diagnostics(toks);
    &&& parses_to(t, file_id, source)
    &&& ld.len() <= ds.len()
    &&& ds.subrange(0, ld.len() as int) == ld
    &&& (ds.len() == ld.len()) == grammatical(toks)
    &&& forall|i: int| 0 <= i < ds.len() ==> (#[trigger] ds[i]).severity == Severity::Error
}

/// Parsing `source` reports an error: the lexer met an invalid character,
/// or its tokens are not a program of the grammar.
pub open spec fn has_parse_error(source: Seq<char>, file_id: FileId) -> bool {
    lex_diagnostics(lex_spec(source, file_id)).len() > 0 || !grammatical(lex_spec(source, file_id))
}

/// What parsing can give determines whether it reports an error: exactly
/// when `has_parse_error` holds.
pub proof fn lemma_parse_error_exact(t: SyntaxTree, ds: Seq<DiagnosticView>, file_id: FileId, source: Seq<char>)
    requires
        parse_ok(t, ds, file_id, source),
    ensures
        any_error(ds) == has_parse_error(source, file_id),
        any_error(ds) == (ds.len() > 0),
{
    if ds.len() > 0 {
        assert(ds[0].severity == Severity::Error);
    }
}

/// Whether some diagnostic of `ds` is an error.
pub open spec fn any_error(ds: Seq<DiagnosticView>) -> bool {
    exists|i: int| 0 <= i < ds.len() && (#[trigger] ds[i]).severity == Severity::Error
}

impl ParseResult {
    pub closed spec fn spec_tree(self) -> SyntaxTree {
        self.tree
    }

    pub closed spec fn spec_diagnostics(self) -> Seq<DiagnosticView> {
        self.diagnostics@.map_values(|d: Diagnostic| d@)
    }

    /// The concrete syntax tree.
    pub fn tree(&self) -> (t: &SyntaxTree)
        ensures
            *t == self.spec_tree(),
    {
        &self.tree
    }

    /// All diagnostics, those of the lexer first, then those of the parser.
    pub fn diagnostics(&self) -> (ds: &[Diagnostic])
        ensures
            ds@.map_values(|d: Diagnostic| d@) == self.spec_diagnostics(),
    {
        self.diagnostics.as_slice()
    }

    /// Whether an error-level diagnostic was reported.
    pub fn has_errors(&self) -> (b: bool)
        ensures
            b == any_error(self.spec_diagnostics()),
    {
        let ghost ds = self.spec_diagnostics();
        let mut i: usize = 0;
        while i < self.diagnostics.len()
            invariant
                0 <= i <= self.diagnostics@.len(),
                ds == self.diagnostics@.map_values(|d: Diagnostic| d@),
                forall|k: int| 0 <= k < i ==> (#[trigger] ds[k]).severity != Severity::Error,
            decreases self.diagnostics@.len() - i,
        {
            if self.diagnostics[i].severity == Severity::Error {
                assert(ds[i as int].severity == Severity::Error);
                return true;
            }
            i += 1;
        }
        false
    }
}

/// The texts of the first `n` tokens, joined, are a prefix of the joined
/// texts of all of them.
proof fn lemma_texts_prefix(toks: Seq<TokenView>, n: int)
    requires
        0 <= n <= toks.len(),
    ensures
        texts_of(tree_tokens(toks, toks.len() as int), upto(n)) + concat_texts(toks.subrange(n, toks.len() as int))
            == concat_texts(toks),
    decreases n,
{
    let tt = tree_tokens(toks, toks.len() as int);
    if n == 0 {
        assert(toks.subrange(0, toks.len() as int) =~= toks);
        assert(upto(0) =~= Seq::<int>::empty());
        assert(Seq::<char>::empty() + concat_texts(toks) =~= concat_texts(toks));
    } else {
        lemma_texts_prefix(toks, n - 1);
        assert(upto(n).drop_last() =~= upto(n - 1));
        let rest = toks.subrange(n - 1, toks.len() as int);
        assert(rest.drop_first() =~= toks.subrange(n, toks.len() as int));
        let a = texts_of(tt, upto(n - 1));
        let b = toks[n - 1].text;
        let c = concat_texts(toks.subrange(n, toks.len() as int));
        assert((a + b) + c =~= a + (b + c));
    }
}

/// The tree built over all tokens but the last spells the whole text when
/// the last token's text is empty.
proof fn lemma_tree_spells_text(toks: Seq<TokenView>)
    requires
        toks.len() >= 1,
        toks.last().text.len() == 0,
    ensures
        texts_of(tree_tokens(toks, toks.len() - 1), upto(toks.len() - 1)) == concat_texts(toks),
{
    let n = toks.len() - 1;
    lemma_texts_prefix(toks, n);
    let last = toks.subrange(n, toks.len() as int);
    assert(last.drop_first() =~= Seq::<TokenView>::empty());
    assert(last[0] == toks[n]);
    assert(last[0].text =~= Seq::<char>::empty());
    assert(concat_texts(last.drop_first()) =~= Seq::<char>::empty());
    assert(concat_texts(last) =~= Seq::<char>::empty());
    lemma_texts_same_prefix(toks, n, n);
    let a = texts_of(tree_tokens(toks, toks.len() as int), upto(n));
    assert(a + Seq::<char>::empty() =~= a);
}

/// Joining the texts of the first `k` tokens reads only the first `m`.
proof fn lemma_texts_same_prefix(toks: Seq<TokenView>, m: int, k: int)
    requires
        0 <= k <= m <= toks.len(),
    ensures
        texts_of(tree_tokens(toks, m), upto(k)) == texts_of(tree_tokens(toks, toks.len() as int), upto(k)),
    decreases k,
{
    if k > 0 {
        lemma_texts_same_prefix(toks, m, k - 1);
        assert(upto(k).drop_last() =~= upto(k - 1));
    }
}

/// Parses `source` into a lossless concrete syntax tree.
///
/// The lexer runs first; its diagnostics come first in the result, followed
/// by those of the parser. The tree holds every token but the final `Eof`,
/// in source order, under a `SourceFile` root, so it spells `source` exactly;
/// its operator expressions are nested by binding power, so `a - b - c`
/// groups as `(a - b) - c` and `a + b * c` as `a + (b * c)`. It reports an
/// error exactly when the lexer met an invalid character or the tokens are
/// not a program of the grammar (`has_parse_error`); every diagnostic is an
/// error.
pub fn parse(file_id: FileId, source: &str) -> (r: ParseResult)
    requires
        byte_len(source@) <= u32::MAX,
    ensures
        parse_ok(r.spec_tree(), r.spec_diagnostics(), file_id, source@),
        any_error(r.spec_diagnostics()) == has_parse_error(source@, file_id),
{
    let ghost toks = lex_spec(source@, file_id);
    proof {
        lex_is_lossless(source@, file_id);
    }
    let (tokens, mut diagnostics) = lex(source, file_id);
    let mut p = Parser::new(tokens, file_id);
    let ghost p0 = p;
    parse_source_file(&mut p);
    let ghost p1 = p;
    let (tree, parse_diagnostics) = p.finish();
    let ghost pd = parse_diagnostics@;
    let ghost lexd = diagnostics@;
    let mut extra = parse_diagnostics;
    diagnostics.append(&mut extra);
    let r = ParseResult { tree, diagnostics };
    proof {
        lemma_tree_spells_text(toks);
        let ds = r.spec_diagnostics();
        assert(ds.subrange(0, lexd.len() as int) =~= lexd.map_values(|d: Diagnostic| d@));
        crate::lexer::lemma_lex_diagnostics_per_error(toks);
        let ld = lex_diagnostics(toks);
        assert forall|i: int| 0 <= i < ds.len() implies (#[trigger] ds[i]).severity == Severity::Error by {
            if i < ld.len() {
                assert(ds[i] == ds.subrange(0, ld.len() as int)[i]);
            } else {
                assert(ds[i] == pd[i - ld.len()]@);
                assert(pd == p1.diags());
            }
        }
        assert(p0.pos() == 0);
        assert(ds.len() == ld.len() + pd.len());
        assert((pd.len() == 0) == grammatical(toks));
        lemma_parse_error_exact(r.spec_tree(), ds, file_id, source@);
    }
    r
}

} // verus!
