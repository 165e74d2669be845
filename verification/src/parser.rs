//! Core parser machinery: token navigation, trivia handling and error recovery.
//!
//! The parser walks the token stream and drives a [`TreeBuilder`]. Trivia is
//! attached to the tree when the next non-trivia token is consumed, so it
//! belongs to the innermost node that contains that token.

use crate::diagnostic::Diagnostic;
use crate::grammar::{bp_tree, is_operator_kind, lemma_nests_push, nests_by_binding_power};
use crate::lexer::{Token, TokenView};
use crate::span::{FileId, Span};
use crate::syntax_kind::SyntaxKind;
use crate::tree::{upto, Checkpoint, Elem, NodeView, SyntaxTree, TokenDataView, TreeBuilder};
use vstd::prelude::*;

verus! {

/// The index of the first non-trivia token at or after `i`.
pub open spec fn next_nontrivia(toks: Seq<TokenView>, i: int) -> int
    decreases toks.len() - i,
{
    if 0 <= i < toks.len() && toks[i].kind.spec_is_trivia() {
        next_nontrivia(toks, i + 1)
    } else {
        i
    }
}

/// The index of the `n`-th non-trivia token at or after `i` (0-based).
pub open spec fn nth_nontrivia(toks: Seq<TokenView>, i: int, n: nat) -> int
    decreases n,
{
    let j = next_nontrivia(toks, i);
    if n == 0 || j >= toks.len() {
        j
    } else {
        nth_nontrivia(toks, j + 1, (n - 1) as nat)
    }
}

/// The kind of the token at `j`, or `Eof` past the end.
pub open spec fn kind_at(toks: Seq<TokenView>, j: int) -> SyntaxKind {
    if 0 <= j < toks.len() {
        toks[j].kind
    } else {
        SyntaxKind::Eof
    }
}

/// A well-formed token stream: it ends with the only `Eof` token.
pub open spec fn stream_wf(toks: Seq<TokenView>) -> bool {
    &&& toks.len() >= 1
    &&& toks.last().kind == SyntaxKind::Eof
    &&& forall|k: int| 0 <= k < toks.len() - 1 ==> (#[trigger] toks[k]).kind != SyntaxKind::Eof
}

/// The tree form of the first `n` tokens.
pub open spec fn tree_tokens(toks: Seq<TokenView>, n: int) -> Seq<TokenDataView> {
    Seq::new(n as nat, |i: int| TokenDataView { kind: toks[i].kind, text: toks[i].text })
}

proof fn lemma_next_nontrivia(toks: Seq<TokenView>, i: int)
    requires
        0 <= i <= toks.len(),
    ensures
        i <= next_nontrivia(toks, i) <= toks.len(),
        forall|k: int| i <= k < next_nontrivia(toks, i) ==> (#[trigger] toks[k]).kind.spec_is_trivia(),
        next_nontrivia(toks, i) < toks.len() ==> !toks[next_nontrivia(toks, i)].kind.spec_is_trivia(),
    decreases toks.len() - i,
{
    if i < toks.len() && toks[i].kind.spec_is_trivia() {
        lemma_next_nontrivia(toks, i + 1);
    }
}

/// In a well-formed stream, the next non-trivia token always exists.
proof fn lemma_next_nontrivia_exists(toks: Seq<TokenView>, i: int)
    requires
        stream_wf(toks),
        0 <= i < toks.len(),
    ensures
        i <= next_nontrivia(toks, i) < toks.len(),
{
    lemma_next_nontrivia(toks, i);
    if next_nontrivia(toks, i) == toks.len() {
        assert(toks[toks.len() - 1].kind.spec_is_trivia());
    }
}

/// Recursive descent parser over a token stream, building a syntax tree.
pub struct Parser {
    tokens: Vec<Token>,
    pos: usize,
    builder: TreeBuilder,
    diagnostics: Vec<Diagnostic>,
    file_id: FileId,
}

impl Parser {
    pub closed spec fn toks(self) -> Seq<TokenView> {
        self.tokens@.map_values(|t: Token| t@)
    }

    pub closed spec fn pos(self) -> int {
        self.pos as int
    }

    pub closed spec fn builder(self) -> TreeBuilder {
        self.builder
    }

    pub closed spec fn diags(self) -> Seq<Diagnostic> {
        self.diagnostics@
    }

    /// Tokens left before the end of the stream.
    pub open spec fn remaining(self) -> int {
        self.toks().len() - self.pos()
    }

    /// The kind of the current non-trivia token.
    pub open spec fn spec_current(self) -> SyntaxKind {
        kind_at(self.toks(), next_nontrivia(self.toks(), self.pos()))
    }

    /// The text of the current non-trivia token.
    pub open spec fn spec_current_text(self) -> Seq<char> {
        self.toks()[next_nontrivia(self.toks(), self.pos())].text
    }

    /// The kind of the `n`-th non-trivia token ahead.
    pub open spec fn spec_nth(self, n: nat) -> SyntaxKind {
        kind_at(self.toks(), nth_nontrivia(self.toks(), self.pos(), n))
    }

    /// The parser invariant: the stream is well-formed, the position is before
    /// `Eof`, the builder is well-formed and holds exactly the tokens before
    /// the position.
    pub open spec fn inv(self) -> bool {
        &&& stream_wf(self.toks())
        &&& 0 <= self.pos() < self.toks().len()
        &&& self.builder().wf()
        &&& self.builder().token_views() == tree_tokens(self.toks(), self.pos())
        &&& nests_by_binding_power(self.toks(), self.builder().node_views())
        &&& forall|i: int| 0 <= i < self.diags().len() ==> (#[trigger] self.diags()[i])@.severity
            == crate::diagnostic::Severity::Error
    }

    /// The parser moved forward from `old` without disturbing the tree above
    /// the node under construction.
    pub open spec fn evolves(self, old: Parser) -> bool {
        &&& self.toks() == old.toks()
        &&& old.pos() <= self.pos()
        &&& self.builder().extends(old.builder())
        &&& self.builder().depth() == old.builder().depth()
        &&& old.diags().len() <= self.diags().len()
        &&& self.diags().subrange(0, old.diags().len() as int) == old.diags()
        &&& old.builder().node_views().len() <= self.builder().node_views().len()
        &&& self.builder().node_views().subrange(0, old.builder().node_views().len() as int)
            == old.builder().node_views()
    }

    /// Creates a parser over a well-formed token stream.
    pub fn new(tokens: Vec<Token>, file_id: FileId) -> (p: Parser)
        requires
            stream_wf(tokens@.map_values(|t: Token| t@)),
        ensures
            p.inv(),
            p.toks() == tokens@.map_values(|t: Token| t@),
            p.pos() == 0,
            p.builder().depth() == 0,
            p.builder().top_view().children.len() == 0,
            p.diags().len() == 0,
    {
        let p = Parser { tokens, pos: 0, builder: TreeBuilder::new(), diagnostics: Vec::new(), file_id };
        assert(p.builder().token_views() =~= tree_tokens(p.toks(), 0));
        p
    }

    /// Ends parsing: hands over the finished tree and the diagnostics.
    pub fn finish(self) -> (r: (SyntaxTree, Vec<Diagnostic>))
        requires
            self.inv(),
            self.builder().depth() == 0,
            self.builder().top_view().children.len() == 1,
            self.builder().top_view().children[0] is Node,
        ensures
            r.0.wf(),
            r.0.node_views() == self.builder().node_views(),
            r.0.token_views() == tree_tokens(self.toks(), self.pos()),
            r.0.leaves() == upto(self.pos()),
            r.0.root as int == self.builder().top_view().children[0]->Node_0,
            r.1@ == self.diags(),
    {
        let t = self.builder.finish();
        (t, self.diagnostics)
    }

    // ── Peek / query ─────────────────────────────────────────────

    /// Index of the current non-trivia token.
    fn current_index(&self) -> (j: usize)
        requires
            self.inv(),
        ensures
            j == next_nontrivia(self.toks(), self.pos()),
            j < self.toks().len(),
    {
        proof {
            lemma_next_nontrivia_exists(self.toks(), self.pos());
        }
        let mut i = self.pos;
        while i < self.tokens.len() && self.tokens[i].kind.is_trivia()
            invariant
                self.pos() <= i <= self.toks().len(),
                self.tokens@.len() == self.toks().len(),
                next_nontrivia(self.toks(), i as int) == next_nontrivia(self.toks(), self.pos()),
            decreases self.tokens@.len() - i,
        {
            assert(self.tokens@[i as int]@ == self.toks()[i as int]);
            i += 1;
        }
        proof {
            if i < self.tokens@.len() {
                assert(self.tokens@[i as int]@ == self.toks()[i as int]);
            }
        }
        i
    }

    /// The kind of the current non-trivia token, without consuming anything.
    pub fn current(&self) -> (k: SyntaxKind)
        requires
            self.inv(),
        ensures
            k == self.spec_current(),
    {
        let j = self.current_index();
        assert(self.tokens@[j as int]@ == self.toks()[j as int]);
        self.tokens[j].kind
    }

    /// The kind of the `n`-th non-trivia token ahead (0-based), or `Eof`.
    pub fn nth(&self, n: usize) -> (k: SyntaxKind)
        requires
            self.inv(),
        ensures
            k == self.spec_nth(n as nat),
    {
        let mut i = self.pos;
        let mut remaining = n;
        while i < self.tokens.len()
            invariant
                0 <= i <= self.toks().len(),
                self.tokens@.len() == self.toks().len(),
                remaining <= n,
                nth_nontrivia(self.toks(), i as int, remaining as nat) == nth_nontrivia(
                    self.toks(),
                    self.pos(),
                    n as nat,
                ),
            decreases self.tokens@.len() - i,
        {
            assert(self.tokens@[i as int]@ == self.toks()[i as int]);
            if !self.tokens[i].kind.is_trivia() {
                if remaining == 0 {
                    return self.tokens[i].kind;
                }
                remaining -= 1;
            }
            i += 1;
        }
        SyntaxKind::Eof
    }

    /// Returns `true` if the current non-trivia token is `kind`.
    pub fn at(&self, kind: SyntaxKind) -> (b: bool)
        requires
            self.inv(),
        ensures
            b == (self.spec_current() == kind),
    {
        self.current() == kind
    }

    /// Returns `true` if the current non-trivia token is one of `set`.
    pub fn at_any(&self, set: &[SyntaxKind]) -> (b: bool)
        requires
            self.inv(),
        ensures
            b == set@.contains(self.spec_current()),
    {
        let k = self.current();
        let mut i: usize = 0;
        while i < set.len()
            invariant
                0 <= i <= set@.len(),
                k == self.spec_current(),
                forall|j: int| 0 <= j < i ==> set@[j] != k,
            decreases set@.len() - i,
        {
            let x = set[i];
            if x == k {
                assert(set@[i as int] == x);
                assert(set@.contains(k));
                return true;
            }
            i += 1;
        }
        false
    }

    /// Returns `true` if the parser has reached the end of input.
    pub fn at_eof(&self) -> (b: bool)
        requires
            self.inv(),
        ensures
            b == (self.spec_current() == SyntaxKind::Eof),
    {
        self.current() == SyntaxKind::Eof
    }

    /// The text of the current non-trivia token.
    pub fn current_text(&self) -> (t: &str)
        requires
            self.inv(),
        ensures
            t@ == self.spec_current_text(),
    {
        let j = self.current_index();
        assert(self.tokens@[j as int]@ == self.toks()[j as int]);
        self.tokens[j].text.as_str()
    }

    /// The span of the current non-trivia token.
    pub fn current_span(&self) -> (s: Span)
        requires
            self.inv(),
        ensures
            s == self.toks()[next_nontrivia(self.toks(), self.pos())].span,
    {
        let j = self.current_index();
        assert(self.tokens@[j as int]@ == self.toks()[j as int]);
        self.tokens[j].span
    }

    /// The position in the token stream (for progress checks).
    pub fn position(&self) -> (n: usize)
        ensures
            n == self.pos(),
    {
        self.pos
    }

    // ── Consume ──────────────────────────────────────────────────

    /// Adds the token at the position to the tree and moves past it.
    fn push_current(&mut self)
        requires
            old(self).inv(),
            old(self).toks()[old(self).pos()].kind != SyntaxKind::Eof,
        ensures
            final(self).inv(),
            final(self).evolves(*old(self)),
            final(self).pos() == old(self).pos() + 1,
            final(self).builder().top_view().children == old(self).builder().top_view().children.push(
                crate::tree::Elem::Token(old(self).pos() as usize),
            ),
            final(self).diags() == old(self).diags(),
            keeps_all(*final(self), *old(self)),
    {
        let ghost old_self = *self;
        let i = self.pos;
        let n = self.tokens.len();
        assert(self.tokens@.len() == self.toks().len());
        assert(i < n);
        assert(self.tokens@[i as int]@ == self.toks()[i as int]);
        let kind = self.tokens[i].kind;
        let text = self.tokens[i].text.clone();
        self.builder.token(kind, text);
        self.pos = i + 1;
        proof {
            assert(self.toks() =~= old_self.toks());
            assert(self.builder().token_views() =~= tree_tokens(self.toks(), self.pos()));
            assert(self.builder().top_view().children.subrange(
                0,
                old_self.builder().top_view().children.len() as int,
            ) =~= old_self.builder().top_view().children);
            assert(self.builder().token_views().subrange(0, old_self.builder().token_views().len() as int)
                =~= old_self.builder().token_views());
            assert(self.diags().subrange(0, old_self.diags().len() as int) =~= old_self.diags());
            assert(self.builder().node_views().subrange(0, old_self.builder().node_views().len() as int)
                =~= old_self.builder().node_views());
            lemma_tokens_keep(*self, old_self);
        }
    }

    /// Consumes all consecutive trivia tokens at the position, adding each to
    /// the node under construction.
    pub fn eat_trivia(&mut self)
        requires
            old(self).inv(),
        ensures
            final(self).inv(),
            final(self).evolves(*old(self)),
            final(self).pos() == next_nontrivia(old(self).toks(), old(self).pos()),
            final(self).spec_current() == old(self).spec_current(),
            final(self).diags() == old(self).diags(),
            forall|i: int|
                old(self).builder().top_view().children.len() <= i < final(self).builder().top_view().children.len()
                    ==> #[trigger] final(self).builder().top_view().children[i] is Token,
            keeps_all(*final(self), *old(self)),
    {
        let ghost old_self = *self;
        proof {
            lemma_next_nontrivia_exists(self.toks(), self.pos());
            lemma_evolves_refl(*self);
        }
        while self.pos < self.tokens.len() && self.tokens[self.pos].kind.is_trivia()
            invariant
                self.inv(),
                self.evolves(old_self),
                self.diags() == old_self.diags(),
                self.tokens@.len() == self.toks().len(),
                next_nontrivia(self.toks(), self.pos()) == next_nontrivia(old_self.toks(), old_self.pos()),
                forall|i: int|
                    old_self.builder().top_view().children.len() <= i < self.builder().top_view().children.len()
                        ==> #[trigger] self.builder().top_view().children[i] is Token,
            decreases self.tokens@.len() - self.pos,
        {
            assert(self.tokens@[self.pos as int]@ == self.toks()[self.pos as int]);
            let ghost before = *self;
            self.push_current();
            proof {
                lemma_evolves_trans(*self, before, old_self);
            }
        }
        proof {
            if self.pos < self.tokens@.len() {
                assert(self.tokens@[self.pos as int]@ == self.toks()[self.pos as int]);
            }
            lemma_tokens_keep(*self, old_self);
        }
    }

    /// Consumes the next non-trivia token: its leading trivia, then the token.
    pub fn bump(&mut self)
        requires
            old(self).inv(),
            old(self).spec_current() != SyntaxKind::Eof,
        ensures
            final(self).inv(),
            final(self).evolves(*old(self)),
            final(self).pos() == next_nontrivia(old(self).toks(), old(self).pos()) + 1,
            final(self).pos() > old(self).pos(),
            final(self).diags() == old(self).diags(),
            keeps_all(*final(self), *old(self)),
            tokens_after(*final(self), *old(self)),
            final(self).builder().top_view().children.len() > old(self).builder().top_view().children.len(),
            final(self).builder().top_view().children.last() == crate::tree::Elem::Token(
                next_nontrivia(old(self).toks(), old(self).pos()) as usize,
            ),
            0 <= next_nontrivia(old(self).toks(), old(self).pos()) < usize::MAX,
    {
        let ghost old_self = *self;
        proof {
            lemma_next_nontrivia_exists(self.toks(), self.pos());
        }
        self.eat_trivia();
        let ghost mid = *self;
        self.push_current();
        proof {
            lemma_evolves_trans(*self, mid, old_self);
            let ch = self.builder().top_view().children;
            assert forall|i: int|
                old_self.builder().top_view().children.len() <= i < ch.len() implies #[trigger] ch[i] is Token by {
                if i < mid.builder().top_view().children.len() {
                    assert(ch[i] == mid.builder().top_view().children[i]);
                }
            }
        }
    }

    /// If the current token is `kind`, consumes it and returns `true`;
    /// otherwise reports `expected <kind>` and returns `false`.
    pub fn expect(&mut self, kind: SyntaxKind) -> (b: bool)
        requires
            old(self).inv(),
        ensures
            final(self).inv(),
            final(self).evolves(*old(self)),
            b == (old(self).spec_current() == kind),
            b && kind != SyntaxKind::Eof ==> final(self).pos() > old(self).pos(),
            b && kind != SyntaxKind::Eof ==> final(self).pos() == next_nontrivia(old(self).toks(), old(self).pos())
                + 1,
            b && kind == SyntaxKind::Eof ==> final(self).pos() == old(self).pos(),
            b ==> final(self).diags() == old(self).diags(),
            !b ==> final(self).diags().len() == old(self).diags().len() + 1,
            !b ==> final(self).pos() == old(self).pos() && final(self).builder() == old(self).builder(),
            keeps_all(*final(self), *old(self)),
            tokens_after(*final(self), *old(self)),
    {
        if self.at(kind) {
            if kind == SyntaxKind::Eof {
                proof {
                    lemma_evolves_refl(*self);
                }
                return true;
            }
            self.bump();
            true
        } else {
            let span = self.current_span();
            let mut message = String::from_str("expected ");
            message.append(kind.name());
            let d = Diagnostic::error(message.as_str(), span).with_label(span, message.as_str());
            self.push_diagnostic(d);
            false
        }
    }

    /// Records a diagnostic.
    pub fn push_diagnostic(&mut self, d: Diagnostic)
        requires
            old(self).inv(),
            d@.severity == crate::diagnostic::Severity::Error,
        ensures
            final(self).inv(),
            final(self).evolves(*old(self)),
            final(self).pos() == old(self).pos(),
            final(self).builder() == old(self).builder(),
            final(self).diags() == old(self).diags().push(d),
            keeps_all(*final(self), *old(self)),
    {
        let ghost old_self = *self;
        self.diagnostics.push(d);
        proof {
            assert(self.diags().subrange(0, old_self.diags().len() as int) =~= old_self.diags());
            lemma_extends_refl(self.builder());
            assert(self.builder().node_views().subrange(0, old_self.builder().node_views().len() as int)
                =~= old_self.builder().node_views());
        }
    }

    /// Reports an error at the current token.
    pub fn error_here(&mut self, message: &str)
        requires
            old(self).inv(),
        ensures
            final(self).inv(),
            final(self).evolves(*old(self)),
            final(self).diags().len() == old(self).diags().len() + 1,
            final(self).pos() == old(self).pos(),
            final(self).builder() == old(self).builder(),
    {
        let span = self.current_span();
        let d = Diagnostic::error(message, span).with_label(span, message);
        self.push_diagnostic(d);
    }

    // ── Tree building ────────────────────────────────────────────

    /// Starts a new node of the given kind.
    pub fn start_node(&mut self, kind: SyntaxKind)
        requires
            old(self).inv(),
        ensures
            final(self).inv(),
            final(self).toks() == old(self).toks(),
            final(self).pos() == old(self).pos(),
            final(self).diags() == old(self).diags(),
            final(self).builder().depth() == old(self).builder().depth() + 1,
            final(self).builder().frame_views() == old(self).builder().frame_views().push(
                old(self).builder().top_view(),
            ),
            final(self).builder().top_view().kind == kind,
            final(self).builder().top_view().children.len() == 0,
            final(self).builder().token_views() == old(self).builder().token_views(),
            final(self).builder().node_views() == old(self).builder().node_views(),
    {
        self.builder.start_node(kind);
    }

    /// Finishes the node under construction.
    pub fn finish_node(&mut self)
        requires
            old(self).inv(),
            old(self).builder().depth() > 0,
            is_operator_kind(old(self).builder().top_view().kind) ==> bp_tree(
                old(self).toks(),
                old(self).builder().node_views().push(old(self).builder().top_view()),
                old(self).builder().node_views().len() as int,
            ),
        ensures
            final(self).inv(),
            final(self).toks() == old(self).toks(),
            final(self).pos() == old(self).pos(),
            final(self).diags() == old(self).diags(),
            final(self).builder().depth() == old(self).builder().depth() - 1,
            final(self).builder().frame_views() == old(self).builder().frame_views().drop_last(),
            final(self).builder().top_view().kind == old(self).builder().frame_views().last().kind,
            final(self).builder().top_view().children == old(self).builder().frame_views().last().children.push(
                crate::tree::Elem::Node(old(self).builder().node_views().len() as usize),
            ),
            final(self).builder().token_views() == old(self).builder().token_views(),
            final(self).builder().node_views() == old(self).builder().node_views().push(
                old(self).builder().top_view(),
            ),
    {
        let ghost before = *self;
        self.builder.finish_node();
        proof {
            lemma_nests_push(before.toks(), before.builder().node_views(), before.builder().top_view());
        }
    }

    /// Saves the current position in the tree.
    pub fn checkpoint(&self) -> (c: Checkpoint)
        ensures
            c.depth == self.builder().depth(),
            c.children == self.builder().top_view().children.len(),
    {
        self.builder.checkpoint()
    }

    /// Starts a node that wraps everything emitted since the checkpoint.
    pub fn start_node_at(&mut self, c: Checkpoint, kind: SyntaxKind)
        requires
            old(self).inv(),
            c.depth == old(self).builder().depth(),
            c.children <= old(self).builder().top_view().children.len(),
        ensures
            final(self).inv(),
            final(self).toks() == old(self).toks(),
            final(self).pos() == old(self).pos(),
            final(self).diags() == old(self).diags(),
            final(self).builder().depth() == old(self).builder().depth() + 1,
            final(self).builder().frame_views() == old(self).builder().frame_views().push(
                crate::tree::NodeView {
                    kind: old(self).builder().top_view().kind,
                    children: old(self).builder().top_view().children.subrange(0, c.children as int),
                },
            ),
            final(self).builder().top_view().kind == kind,
            final(self).builder().top_view().children == old(self).builder().top_view().children.subrange(
                c.children as int,
                old(self).builder().top_view().children.len() as int,
            ),
            final(self).builder().token_views() == old(self).builder().token_views(),
            final(self).builder().node_views() == old(self).builder().node_views(),
    {
        self.builder.start_node_at(c, kind);
    }
}

/// Finishing a node that was started at `base` (or that wraps everything
/// since a checkpoint taken at `base`) leaves the parser evolved from `base`.
pub proof fn lemma_wrap_at(base: Parser, pre: Parser, s1: Parser, s2: Parser, s3: Parser)
    requires
        pre.evolves(base),
        s1.toks() == pre.toks(),
        s1.pos() == pre.pos(),
        s1.diags() == pre.diags(),
        s1.builder().token_views() == pre.builder().token_views(),
        s1.builder().node_views() == pre.builder().node_views(),
        s1.builder().frame_views() == base.builder().frame_views().push(base.builder().top_view()),
        s2.evolves(s1),
        s2.builder().depth() > 0,
        s3.toks() == s2.toks(),
        s3.pos() == s2.pos(),
        s3.diags() == s2.diags(),
        s3.builder().depth() == s2.builder().depth() - 1,
        s3.builder().frame_views() == s2.builder().frame_views().drop_last(),
        s3.builder().top_view().kind == s2.builder().frame_views().last().kind,
        s3.builder().top_view().children == s2.builder().frame_views().last().children.push(
            crate::tree::Elem::Node(s2.builder().node_views().len() as usize),
        ),
        s3.builder().token_views() == s2.builder().token_views(),
        s3.builder().node_views() == s2.builder().node_views().push(s2.builder().top_view()),
    ensures
        s3.evolves(base),
{
    let bf = base.builder().frame_views();
    let n0 = base.builder().node_views();
    let n2 = s2.builder().node_views();
    assert(n2.subrange(0, pre.builder().node_views().len() as int) =~= pre.builder().node_views());
    assert(pre.builder().node_views().subrange(0, n0.len() as int) =~= n0);
    assert(s3.builder().node_views().subrange(0, n0.len() as int) =~= n0) by {
        assert(n2.subrange(0, n0.len() as int) =~= pre.builder().node_views().subrange(0, n0.len() as int));
    }
    let bt = base.builder().top_view();
    assert(s2.builder().frame_views() == bf.push(bt));
    assert(s2.builder().frame_views().drop_last() =~= bf);
    assert(s2.builder().frame_views().last() == bt);
    let ch = s3.builder().top_view().children;
    assert(ch.subrange(0, bt.children.len() as int) =~= bt.children);
    assert(s3.builder().frame_views() =~= bf);
    let t1 = s1.builder().token_views();
    let t2 = s2.builder().token_views();
    let t0 = base.builder().token_views();
    assert(t2.subrange(0, t0.len() as int) =~= t1.subrange(0, t0.len() as int));
    lemma_diags_trans(s3.diags(), s1.diags(), base.diags());
}

/// Finishing a node that was started at `base` leaves the parser evolved from `base`.
pub proof fn lemma_wrap(base: Parser, s1: Parser, s2: Parser, s3: Parser)
    requires
        base.inv(),
        s1.toks() == base.toks(),
        s1.pos() == base.pos(),
        s1.diags() == base.diags(),
        s1.builder().token_views() == base.builder().token_views(),
        s1.builder().node_views() == base.builder().node_views(),
        s1.builder().frame_views() == base.builder().frame_views().push(base.builder().top_view()),
        s2.evolves(s1),
        s2.builder().depth() > 0,
        s3.toks() == s2.toks(),
        s3.pos() == s2.pos(),
        s3.diags() == s2.diags(),
        s3.builder().depth() == s2.builder().depth() - 1,
        s3.builder().frame_views() == s2.builder().frame_views().drop_last(),
        s3.builder().top_view().kind == s2.builder().frame_views().last().kind,
        s3.builder().top_view().children == s2.builder().frame_views().last().children.push(
            crate::tree::Elem::Node(s2.builder().node_views().len() as usize),
        ),
        s3.builder().token_views() == s2.builder().token_views(),
        s3.builder().node_views() == s2.builder().node_views().push(s2.builder().top_view()),
    ensures
        s3.evolves(base),
{
    lemma_evolves_refl(base);
    lemma_wrap_at(base, base, s1, s2, s3);
}

// ── The shape of the tree ───────────────────────────────────────

/// The kinds of node a source file is made of: function and type
/// definitions, imports, and error nodes around what is none of these.
pub open spec fn is_item_kind(k: SyntaxKind) -> bool {
    ||| k == SyntaxKind::FnDef
    ||| k == SyntaxKind::TypeDef
    ||| k == SyntaxKind::ImportStmt
    ||| k == SyntaxKind::FromPythonImportStmt
    ||| k == SyntaxKind::NodeError
}

/// The kinds of expression node, an error node among them.
pub open spec fn is_expr_kind(k: SyntaxKind) -> bool {
    ||| k == SyntaxKind::UnaryExpr
    ||| k == SyntaxKind::ParenExpr
    ||| k == SyntaxKind::IfExpr
    ||| k == SyntaxKind::MatchExpr
    ||| k == SyntaxKind::LambdaExpr
    ||| k == SyntaxKind::ListExpr
    ||| k == SyntaxKind::TryExpr
    ||| k == SyntaxKind::LiteralExpr
    ||| k == SyntaxKind::IdentExpr
    ||| k == SyntaxKind::FieldAccessExpr
    ||| k == SyntaxKind::CallExpr
    ||| k == SyntaxKind::BinaryExpr
    ||| k == SyntaxKind::PipelineExpr
    ||| k == SyntaxKind::NodeError
}

/// The kinds of pattern node, an error node among them.
pub open spec fn is_pattern_node_kind(k: SyntaxKind) -> bool {
    ||| k == SyntaxKind::WildcardPat
    ||| k == SyntaxKind::LiteralPat
    ||| k == SyntaxKind::ConstructorPat
    ||| k == SyntaxKind::IdentPat
    ||| k == SyntaxKind::ListPat
    ||| k == SyntaxKind::NodeError
}

/// Which kinds of node the parser puts directly under a node of kind
/// `parent`.
pub open spec fn child_kind_ok(parent: SyntaxKind, child: SyntaxKind) -> bool {
    match parent {
        SyntaxKind::SourceFile => is_item_kind(child),
        SyntaxKind::FnDef => {
            ||| child == SyntaxKind::Visibility
            ||| child == SyntaxKind::ParamList
            ||| child == SyntaxKind::ReturnType
            ||| child == SyntaxKind::BlockExpr
            ||| child == SyntaxKind::NodeError
        },
        SyntaxKind::TypeDef => {
            ||| child == SyntaxKind::Visibility
            ||| child == SyntaxKind::TypeParam
            ||| child == SyntaxKind::Variant
            ||| child == SyntaxKind::Field
            ||| child == SyntaxKind::NodeError
        },
        SyntaxKind::Field => child == SyntaxKind::TypeExpr,
        SyntaxKind::Variant => child == SyntaxKind::Field,
        SyntaxKind::TypeExpr => child == SyntaxKind::TypeExpr,
        SyntaxKind::ImportStmt => child == SyntaxKind::NodeError,
        SyntaxKind::FromPythonImportStmt => child == SyntaxKind::NodeError,
        SyntaxKind::ParamList => child == SyntaxKind::Param || child == SyntaxKind::NodeError,
        SyntaxKind::Param => child == SyntaxKind::TypeExpr || child == SyntaxKind::NodeError,
        SyntaxKind::ReturnType => child == SyntaxKind::TypeExpr || child == SyntaxKind::NodeError,
        SyntaxKind::BlockExpr => child == SyntaxKind::LetStmt || is_expr_kind(child),
        SyntaxKind::LetStmt => is_expr_kind(child),
        SyntaxKind::LambdaExpr => {
            ||| child == SyntaxKind::ParamList
            ||| child == SyntaxKind::ReturnType
            ||| child == SyntaxKind::BlockExpr
            ||| child == SyntaxKind::NodeError
        },
        SyntaxKind::UnaryExpr => is_expr_kind(child),
        SyntaxKind::ParenExpr => is_expr_kind(child),
        SyntaxKind::FieldAccessExpr => is_expr_kind(child),
        SyntaxKind::BinaryExpr => is_expr_kind(child),
        SyntaxKind::PipelineExpr => is_expr_kind(child),
        SyntaxKind::TryExpr => is_expr_kind(child),
        SyntaxKind::CallExpr => is_expr_kind(child) || child == SyntaxKind::ArgList,
        SyntaxKind::ArgList => is_expr_kind(child),
        SyntaxKind::ListExpr => is_expr_kind(child),
        SyntaxKind::IfExpr => is_expr_kind(child) || child == SyntaxKind::BlockExpr,
        SyntaxKind::ConstructorPat => is_pattern_node_kind(child),
        SyntaxKind::ListPat => is_pattern_node_kind(child),
        SyntaxKind::Guard => is_expr_kind(child),
        SyntaxKind::MatchArm => is_pattern_node_kind(child) || child == SyntaxKind::Guard || is_expr_kind(child),
        SyntaxKind::MatchExpr => is_expr_kind(child) || child == SyntaxKind::MatchArm,
        _ => false,
    }
}

/// Node `n` of arena `nv`, and every node below it, holds only child nodes
/// of kinds its own kind takes, at lower indices.
pub open spec fn shape_ok(nv: Seq<NodeView>, n: int) -> bool
    decreases n, 1int,
{
    0 <= n < nv.len() && children_shape_ok(nv, n, nv[n].children.len() as int)
}

/// The first `k` children of node `n` are tokens or well-shaped nodes of
/// kinds that `n` takes.
pub open spec fn children_shape_ok(nv: Seq<NodeView>, n: int, k: int) -> bool
    decreases n, 0int, k,
{
    if k <= 0 || n < 0 || n >= nv.len() || k > nv[n].children.len() {
        true
    } else {
        &&& children_shape_ok(nv, n, k - 1)
        &&& match nv[n].children[k - 1] {
            Elem::Token(_) => true,
            Elem::Node(x) => if x < n {
                child_kind_ok(nv[n].kind, nv[x as int].kind) && shape_ok(nv, x as int)
            } else {
                false
            },
        }
    }
}

pub proof fn lemma_shape_extends(nv: Seq<NodeView>, nv2: Seq<NodeView>, n: int)
    requires
        nv.len() <= nv2.len(),
        nv2.subrange(0, nv.len() as int) == nv,
        shape_ok(nv, n),
    ensures
        shape_ok(nv2, n),
    decreases n, 1int,
{
    assert(nv2[n] == nv2.subrange(0, nv.len() as int)[n]);
    lemma_children_shape_extends(nv, nv2, n, nv[n].children.len() as int);
}

proof fn lemma_children_shape_extends(nv: Seq<NodeView>, nv2: Seq<NodeView>, n: int, k: int)
    requires
        nv.len() <= nv2.len(),
        nv2.subrange(0, nv.len() as int) == nv,
        0 <= n < nv.len(),
        k <= nv[n].children.len(),
        children_shape_ok(nv, n, k),
    ensures
        children_shape_ok(nv2, n, k),
    decreases n, 0int, k,
{
    assert(nv2[n] == nv2.subrange(0, nv.len() as int)[n]);
    if k > 0 {
        lemma_children_shape_extends(nv, nv2, n, k - 1);
        match nv[n].children[k - 1] {
            Elem::Node(x) => {
                assert(nv2[x as int] == nv2.subrange(0, nv.len() as int)[x as int]);
                lemma_shape_extends(nv, nv2, x as int);
            },
            Elem::Token(_) => {},
        }
    }
}

/// Every child node of the node being built in `p` is well shaped and of a
/// kind that `parent` takes.
pub open spec fn top_ok(p: Parser, parent: SyntaxKind) -> bool {
    let ch = p.builder().top_view().children;
    let nv = p.builder().node_views();
    forall|i: int|
        0 <= i < ch.len() && (#[trigger] ch[i]) is Node ==> ch[i]->Node_0 < nv.len() && child_kind_ok(
            parent,
            nv[ch[i]->Node_0 as int].kind,
        ) && shape_ok(nv, ch[i]->Node_0 as int)
}

/// Everything `new` added under the node being built is tokens.
pub open spec fn tokens_after(new: Parser, old: Parser) -> bool {
    forall|i: int|
        old.builder().top_view().children.len() <= i < new.builder().top_view().children.len()
            ==> #[trigger] new.builder().top_view().children[i] is Token
}

/// Every node that `new` added under the node being built, since `old`, is
/// of kind `a` or `b`.
pub open spec fn adds_only(new: Parser, old: Parser, a: SyntaxKind, b: SyntaxKind) -> bool {
    let ch = new.builder().top_view().children;
    forall|i: int|
        old.builder().top_view().children.len() <= i < ch.len() && (#[trigger] ch[i]) is Node ==> {
            let k = new.builder().node_views()[ch[i]->Node_0 as int].kind;
            ch[i]->Node_0 < new.builder().node_views().len() && (k == a || k == b)
        }
}

/// Tokens added after `mid` keep every node added since `start` of kind
/// `a` or `b`.
pub proof fn lemma_adds_only_tokens(start: Parser, mid: Parser, new: Parser, a: SyntaxKind, b: SyntaxKind)
    requires
        mid.evolves(start),
        new.evolves(mid),
        adds_only(mid, start, a, b),
        tokens_after(new, mid),
    ensures
        adds_only(new, start, a, b),
{
    let ch = new.builder().top_view().children;
    let mch = mid.builder().top_view().children;
    let nv = new.builder().node_views();
    let mnv = mid.builder().node_views();
    assert forall|i: int|
        start.builder().top_view().children.len() <= i < ch.len() && (#[trigger] ch[i]) is Node implies ({
            let k = nv[ch[i]->Node_0 as int].kind;
            ch[i]->Node_0 < nv.len() && (k == a || k == b)
        }) by {
        if i < mch.len() {
            assert(ch.subrange(0, mch.len() as int)[i] == ch[i]);
            assert(mch[i] is Node);
            let x = ch[i]->Node_0 as int;
            assert(nv.subrange(0, mnv.len() as int)[x] == mnv[x]);
        }
    }
}

/// A node of kind `a` or `b` added after `mid` keeps every node added since
/// `start` of kind `a` or `b`.
pub proof fn lemma_adds_only_node(
    start: Parser,
    mid: Parser,
    new: Parser,
    a: SyntaxKind,
    b: SyntaxKind,
    k: SyntaxKind,
)
    requires
        mid.evolves(start),
        new.evolves(mid),
        adds_only(mid, start, a, b),
        added_node(new, mid, k),
        k == a || k == b,
    ensures
        adds_only(new, start, a, b),
{
    let ch = new.builder().top_view().children;
    let mch = mid.builder().top_view().children;
    let nv = new.builder().node_views();
    let mnv = mid.builder().node_views();
    assert forall|i: int|
        start.builder().top_view().children.len() <= i < ch.len() && (#[trigger] ch[i]) is Node implies ({
            let kk = nv[ch[i]->Node_0 as int].kind;
            ch[i]->Node_0 < nv.len() && (kk == a || kk == b)
        }) by {
        if i < mch.len() {
            assert(ch.drop_last()[i] == ch[i]);
            assert(mch[i] is Node);
            let x = ch[i]->Node_0 as int;
            assert(nv.subrange(0, mnv.len() as int)[x] == mnv[x]);
        }
    }
}

/// Going from `old` to `new` keeps the node being built well shaped under
/// any parent.
pub open spec fn keeps_all(new: Parser, old: Parser) -> bool {
    forall|pk: SyntaxKind| top_ok(old, pk) ==> #[trigger] top_ok(new, pk)
}

/// Going from `old` to `new` keeps the node being built well shaped under
/// any parent that takes a child of kind `k`.
pub open spec fn keeps_under(new: Parser, old: Parser, k: SyntaxKind) -> bool {
    forall|pk: SyntaxKind| top_ok(old, pk) && child_kind_ok(pk, k) ==> #[trigger] top_ok(new, pk)
}

pub proof fn lemma_tokens_keep(new: Parser, old: Parser)
    requires
        new.evolves(old),
        tokens_after(new, old),
    ensures
        keeps_all(new, old),
{
    assert forall|pk: SyntaxKind| top_ok(old, pk) implies #[trigger] top_ok(new, pk) by {
        let ch = new.builder().top_view().children;
        let och = old.builder().top_view().children;
        let nv = new.builder().node_views();
        let onv = old.builder().node_views();
        assert forall|i: int| 0 <= i < ch.len() && (#[trigger] ch[i]) is Node implies ch[i]->Node_0 < nv.len()
            && child_kind_ok(pk, nv[ch[i]->Node_0 as int].kind) && shape_ok(nv, ch[i]->Node_0 as int) by {
            if i < och.len() {
                assert(ch.subrange(0, och.len() as int)[i] == ch[i]);
                assert(och[i] is Node);
                let x = ch[i]->Node_0 as int;
                assert(nv.subrange(0, onv.len() as int)[x] == onv[x]);
                lemma_shape_extends(onv, nv, x);
            }
        }
    }
}

proof fn lemma_children_from_top(nv: Seq<NodeView>, n: int, k: int)
    requires
        0 <= n < nv.len(),
        k <= nv[n].children.len(),
        forall|i: int|
            0 <= i < k && (#[trigger] nv[n].children[i]) is Node ==> nv[n].children[i]->Node_0 < n && child_kind_ok(
                nv[n].kind,
                nv[nv[n].children[i]->Node_0 as int].kind,
            ) && shape_ok(nv, nv[n].children[i]->Node_0 as int),
    ensures
        children_shape_ok(nv, n, k),
    decreases k,
{
    if k > 0 {
        lemma_children_from_top(nv, n, k - 1);
    }
}

/// Finishing a node that was started at `pre` (after `base`), or that wraps
/// everything since a checkpoint taken at `base`, keeps the node `base` was
/// building well shaped, provided what the finished node holds is.
pub proof fn lemma_wrap_at_shaped(base: Parser, pre: Parser, s1: Parser, s2: Parser, s3: Parser)
    requires
        pre.evolves(base),
        s1.builder().node_views() == pre.builder().node_views(),
        s1.builder().frame_views() == base.builder().frame_views().push(base.builder().top_view()),
        s2.evolves(s1),
        s3.builder().top_view().children == s2.builder().frame_views().last().children.push(
            Elem::Node(s2.builder().node_views().len() as usize),
        ),
        s3.builder().node_views() == s2.builder().node_views().push(s2.builder().top_view()),
        top_ok(s2, s1.builder().top_view().kind),
    ensures
        keeps_under(s3, base, s1.builder().top_view().kind),
        s3.builder().top_view().children == base.builder().top_view().children.push(
            Elem::Node(s2.builder().node_views().len() as usize),
        ),
        shape_ok(s3.builder().node_views(), s2.builder().node_views().len() as int),
{
    s3.builder().lemma_node_count_fits();
    let k = s1.builder().top_view().kind;
    let nv2 = s2.builder().node_views();
    let nv3 = s3.builder().node_views();
    let n = nv2.len() as int;
    assert(nv3.subrange(0, nv2.len() as int) =~= nv2);
    assert(nv3[n] == s2.builder().top_view());
    assert(s2.builder().top_view().kind == k);
    assert forall|i: int|
        0 <= i < nv3[n].children.len() && (#[trigger] nv3[n].children[i]) is Node implies nv3[n].children[i]->Node_0
        < n && child_kind_ok(nv3[n].kind, nv3[nv3[n].children[i]->Node_0 as int].kind) && shape_ok(
        nv3,
        nv3[n].children[i]->Node_0 as int,
    ) by {
        let x = nv3[n].children[i]->Node_0 as int;
        assert(s2.builder().top_view().children[i] is Node);
        assert(nv3[x] == nv2[x]);
        lemma_shape_extends(nv2, nv3, x);
    }
    lemma_children_from_top(nv3, n, nv3[n].children.len() as int);
    assert(s2.builder().frame_views().last() == base.builder().top_view());
    let nv0 = base.builder().node_views();
    assert(nv3.subrange(0, nv0.len() as int) =~= nv0) by {
        assert(nv2.subrange(0, pre.builder().node_views().len() as int) == pre.builder().node_views());
        assert(pre.builder().node_views().subrange(0, nv0.len() as int) == nv0);
        assert(nv3.subrange(0, nv0.len() as int) =~= nv2.subrange(0, nv0.len() as int));
        assert(nv2.subrange(0, nv0.len() as int) =~= pre.builder().node_views().subrange(0, nv0.len() as int));
    }
    assert forall|pk: SyntaxKind| top_ok(base, pk) && child_kind_ok(pk, k) implies #[trigger] top_ok(s3, pk) by {
        let ch = s3.builder().top_view().children;
        let och = base.builder().top_view().children;
        assert forall|i: int| 0 <= i < ch.len() && (#[trigger] ch[i]) is Node implies ch[i]->Node_0 < nv3.len()
            && child_kind_ok(pk, nv3[ch[i]->Node_0 as int].kind) && shape_ok(nv3, ch[i]->Node_0 as int) by {
            if i < och.len() {
                assert(ch[i] == och[i]);
                let x = ch[i]->Node_0 as int;
                assert(nv3.subrange(0, nv0.len() as int)[x] == nv0[x]);
                lemma_shape_extends(nv0, nv3, x);
            } else {
                assert(ch[i] == Elem::Node(n as usize));
            }
        }
    }
}

/// Finishing a node started at `base` keeps the node `base` was building
/// well shaped, provided what the finished node holds is.
pub proof fn lemma_wrap_shaped(base: Parser, s1: Parser, s2: Parser, s3: Parser)
    requires
        s1.builder().node_views() == base.builder().node_views(),
        s1.builder().frame_views() == base.builder().frame_views().push(base.builder().top_view()),
        s1.toks() == base.toks(),
        s1.pos() == base.pos(),
        s1.diags() == base.diags(),
        s1.builder().token_views() == base.builder().token_views(),
        s1.builder().depth() == base.builder().depth() + 1,
        s1.builder().top_view().children.len() == 0,
        s2.evolves(s1),
        s3.builder().top_view().children == s2.builder().frame_views().last().children.push(
            Elem::Node(s2.builder().node_views().len() as usize),
        ),
        s3.builder().node_views() == s2.builder().node_views().push(s2.builder().top_view()),
        top_ok(s2, s1.builder().top_view().kind),
        base.inv(),
    ensures
        keeps_under(s3, base, s1.builder().top_view().kind),
        added_shaped(s3, base, s1.builder().top_view().kind),
{
    lemma_evolves_refl(base);
    lemma_wrap_at_shaped(base, base, s1, s2, s3);
    lemma_wrap_adds(base, s1, s2, s3);
    s3.builder().lemma_node_count_fits();
    assert(s3.builder().top_view().children.last()->Node_0 as int == s2.builder().node_views().len());
}

/// `new` holds, under the node being built, one child more than `old`: a
/// well-shaped node of kind `kind`.
pub open spec fn added_shaped(new: Parser, old: Parser, kind: SyntaxKind) -> bool {
    &&& added_node(new, old, kind)
    &&& shape_ok(new.builder().node_views(), new.builder().top_view().children.last()->Node_0 as int)
}

/// Adding a well-shaped node keeps the node being built well shaped under
/// any parent that takes a node of its kind.
pub proof fn lemma_added_keeps(new: Parser, old: Parser, kind: SyntaxKind)
    requires
        new.evolves(old),
        added_shaped(new, old, kind),
    ensures
        keeps_under(new, old, kind),
{
    let nv = new.builder().node_views();
    let onv = old.builder().node_views();
    let ch = new.builder().top_view().children;
    let och = old.builder().top_view().children;
    assert forall|pk: SyntaxKind| top_ok(old, pk) && child_kind_ok(pk, kind) implies #[trigger] top_ok(new, pk) by {
        assert forall|i: int| 0 <= i < ch.len() && (#[trigger] ch[i]) is Node implies ch[i]->Node_0 < nv.len()
            && child_kind_ok(pk, nv[ch[i]->Node_0 as int].kind) && shape_ok(nv, ch[i]->Node_0 as int) by {
            if i < och.len() {
                assert(ch[i] == ch.drop_last()[i]);
                assert(och[i] is Node);
                let x = ch[i]->Node_0 as int;
                assert(nv.subrange(0, onv.len() as int)[x] == onv[x]);
                lemma_shape_extends(onv, nv, x);
            }
        }
    }
}

/// `new` holds, under the node being built, one child more than `old`: a
/// node of kind `kind`.
pub open spec fn added_node(new: Parser, old: Parser, kind: SyntaxKind) -> bool {
    let ch = new.builder().top_view().children;
    &&& ch.len() == old.builder().top_view().children.len() + 1
    &&& ch.drop_last() == old.builder().top_view().children
    &&& ch.last() is Node
    &&& ch.last()->Node_0 < new.builder().node_views().len()
    &&& new.builder().node_views()[ch.last()->Node_0 as int].kind == kind
}

/// Finishing a node started at `base` adds that node, of the kind it was
/// started with, under the node `base` was building.
pub proof fn lemma_wrap_adds(base: Parser, s1: Parser, s2: Parser, s3: Parser)
    requires
        base.inv(),
        s1.builder().frame_views() == base.builder().frame_views().push(base.builder().top_view()),
        s2.evolves(s1),
        s3.builder().top_view().children == s2.builder().frame_views().last().children.push(
            crate::tree::Elem::Node(s2.builder().node_views().len() as usize),
        ),
        s3.builder().node_views() == s2.builder().node_views().push(s2.builder().top_view()),
    ensures
        added_node(s3, base, s1.builder().top_view().kind),
{
    s3.builder().lemma_node_count_fits();
    let ch = s3.builder().top_view().children;
    assert(s2.builder().frame_views().last() == base.builder().top_view());
    assert(ch.drop_last() =~= base.builder().top_view().children);
}

/// `evolves` is reflexive.
pub broadcast proof fn lemma_evolves_refl(p: Parser)
    ensures
        #[trigger] p.evolves(p),
{
    lemma_extends_refl(p.builder());
    assert(p.diags().subrange(0, p.diags().len() as int) =~= p.diags());
    assert(p.builder().node_views().subrange(0, p.builder().node_views().len() as int) =~= p.builder().node_views());
}

/// `evolves` is transitive.
pub broadcast proof fn lemma_evolves_trans(c: Parser, b: Parser, a: Parser)
    requires
        #[trigger] c.evolves(b),
        #[trigger] b.evolves(a),
    ensures
        c.evolves(a),
{
    lemma_extends_trans(c.builder(), b.builder(), a.builder());
    lemma_diags_trans(c.diags(), b.diags(), a.diags());
    let na = a.builder().node_views();
    let nb = b.builder().node_views();
    assert(c.builder().node_views().subrange(0, na.len() as int) =~= nb.subrange(0, na.len() as int));
}

/// `extends` is reflexive.
pub proof fn lemma_extends_refl(b: TreeBuilder)
    ensures
        b.extends(b),
{
    assert(b.top_view().children.subrange(0, b.top_view().children.len() as int) =~= b.top_view().children);
    assert(b.token_views().subrange(0, b.token_views().len() as int) =~= b.token_views());
}

/// `extends` is transitive.
pub proof fn lemma_extends_trans(c: TreeBuilder, b: TreeBuilder, a: TreeBuilder)
    requires
        c.extends(b),
        b.extends(a),
    ensures
        c.extends(a),
{
    let ca = c.top_view().children;
    let ba = b.top_view().children;
    let aa = a.top_view().children;
    assert(ca.subrange(0, aa.len() as int) =~= ba.subrange(0, aa.len() as int));
    let ct = c.token_views();
    let bt = b.token_views();
    let at = a.token_views();
    assert(ct.subrange(0, at.len() as int) =~= bt.subrange(0, at.len() as int));
}

/// Diagnostics only grow at the end.
pub proof fn lemma_diags_trans(c: Seq<Diagnostic>, b: Seq<Diagnostic>, a: Seq<Diagnostic>)
    requires
        a.len() <= b.len(),
        b.subrange(0, a.len() as int) == a,
        b.len() <= c.len(),
        c.subrange(0, b.len() as int) == b,
    ensures
        a.len() <= c.len(),
        c.subrange(0, a.len() as int) == a,
{
    assert(c.subrange(0, a.len() as int) =~= b.subrange(0, a.len() as int));
}


impl Parser {
    // ── Error recovery ───────────────────────────────────────────

    /// Wraps the current token in an error node and reports `message`.
    /// At the end of input there is no token to wrap, and the error node is empty.
    pub fn error_and_bump(&mut self, message: &str)
        requires
            old(self).inv(),
        ensures
            final(self).inv(),
            final(self).evolves(*old(self)),
            final(self).diags().len() > old(self).diags().len(),
            keeps_under(*final(self), *old(self), SyntaxKind::NodeError),
            added_shaped(*final(self), *old(self), SyntaxKind::NodeError),
            old(self).spec_current() != SyntaxKind::Eof ==> final(self).pos() > old(self).pos(),
    {
        let ghost s0 = *self;
        self.error_here(message);
        let ghost sa = *self;
        self.start_node(SyntaxKind::NodeError);
        let ghost s1 = *self;
        if !self.at_eof() {
            self.bump();
        }
        let ghost s2 = *self;
        self.finish_node();
        proof {
            lemma_evolves_refl(s1);
            lemma_wrap(sa, s1, s2, *self);
            lemma_wrap_shaped(sa, s1, s2, *self);
        }
    }

    /// Returns `true` if the current token is a recovery synchronization point.
    pub fn at_recovery_point(&self) -> (b: bool)
        requires
            self.inv(),
        ensures
            b == recovery_point(self.spec_current()),
    {
        let k = self.current();
        matches!(
            k,
            SyntaxKind::FnKw | SyntaxKind::PubKw | SyntaxKind::LetKw | SyntaxKind::TypeKw
                | SyntaxKind::MatchKw | SyntaxKind::IfKw | SyntaxKind::ImportKw
        )
    }

    /// Reports `message`, then skips tokens up to a synchronization point
    /// (`fn`, `pub`, `let`, `type`, `match`, `if`, `import`) or the end of
    /// input, wrapping everything skipped, and the trivia after it, in an
    /// error node. The current token is always skipped, so the parser moves on
    /// even when it already stands at a synchronization point.
    pub fn error_recover(&mut self, message: &str)
        requires
            old(self).inv(),
        ensures
            final(self).inv(),
            final(self).evolves(*old(self)),
            final(self).diags().len() > old(self).diags().len(),
            keeps_under(*final(self), *old(self), SyntaxKind::NodeError),
            added_shaped(*final(self), *old(self), SyntaxKind::NodeError),
            old(self).spec_current() != SyntaxKind::Eof ==> final(self).pos() > old(self).pos(),
    {
        let ghost s0 = *self;
        self.error_here(message);
        let ghost sa = *self;
        self.start_node(SyntaxKind::NodeError);
        let ghost s1 = *self;
        proof {
            lemma_evolves_refl(s1);
        }
        if !self.at_eof() {
            self.bump();
            while !self.at_eof() && !self.at_recovery_point()
                invariant
                    self.inv(),
                    self.evolves(s1),
                    self.pos() > s1.pos(),
                    top_ok(*self, SyntaxKind::NodeError),
                decreases self.remaining(),
            {
                let ghost before = *self;
                self.bump();
                proof {
                    lemma_evolves_trans(*self, before, s1);
                }
            }
        }
        let ghost before = *self;
        self.eat_trivia();
        let ghost s2 = *self;
        proof {
            lemma_evolves_trans(s2, before, s1);
        }
        self.finish_node();
        proof {
            lemma_wrap(sa, s1, s2, *self);
            lemma_wrap_shaped(sa, s1, s2, *self);
            lemma_evolves_trans(*self, sa, s0);
        }
    }

    /// Reports `message`, then skips tokens up to a synchronization point, a
    /// token of `set`, or the end of input, wrapping what was skipped in an
    /// error node.
    pub fn error_recover_until(&mut self, message: &str, set: &[SyntaxKind])
        requires
            old(self).inv(),
        ensures
            final(self).inv(),
            final(self).evolves(*old(self)),
            final(self).diags().len() > old(self).diags().len(),
            keeps_under(*final(self), *old(self), SyntaxKind::NodeError),
            added_shaped(*final(self), *old(self), SyntaxKind::NodeError),
    {
        let ghost s0 = *self;
        self.error_here(message);
        let ghost sa = *self;
        self.start_node(SyntaxKind::NodeError);
        let ghost s1 = *self;
        proof {
            lemma_evolves_refl(s1);
        }
        while !self.at_eof() && !self.at_recovery_point() && !self.at_any(set)
            invariant
                self.inv(),
                self.evolves(s1),
                top_ok(*self, SyntaxKind::NodeError),
            decreases self.remaining(),
        {
            let ghost before = *self;
            self.bump();
            proof {
                lemma_evolves_trans(*self, before, s1);
            }
        }
        let ghost s2 = *self;
        self.finish_node();
        proof {
            lemma_wrap(sa, s1, s2, *self);
            lemma_wrap_shaped(sa, s1, s2, *self);
            lemma_evolves_trans(*self, sa, s0);
        }
    }
}

/// The synchronization points of error recovery.
pub open spec fn recovery_point(k: SyntaxKind) -> bool {
    matches!(
        k,
        SyntaxKind::FnKw | SyntaxKind::PubKw | SyntaxKind::LetKw | SyntaxKind::TypeKw | SyntaxKind::MatchKw
            | SyntaxKind::IfKw | SyntaxKind::ImportKw
    )
}


/// After consuming the current token, the current token is the one that was
/// next after it.
pub proof fn lemma_nth1(p: Parser, q: Parser)
    requires
        p.inv(),
        q.toks() == p.toks(),
        q.pos() == next_nontrivia(p.toks(), p.pos()) + 1,
    ensures
        q.spec_current() == p.spec_nth(1),
{
    lemma_next_nontrivia_exists(p.toks(), p.pos());
    let j = next_nontrivia(p.toks(), p.pos());
    assert(nth_nontrivia(p.toks(), j + 1, 0) == next_nontrivia(p.toks(), j + 1));
    assert(nth_nontrivia(p.toks(), p.pos(), 1) == nth_nontrivia(p.toks(), j + 1, 0));
}

} // verus!
