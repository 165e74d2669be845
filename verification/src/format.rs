//! The deterministic formatter: walks the lossless tree and writes the
//! canonical layout of `format_spec`. There is no configuration.
use crate::format_spec::{
    blank_line, closer_from, deeper, end_line, fmt, fmt_source_file, format_tree, how_rank, indent_text,
    initial, item, kids, lead_from, leading_comments, list, newline, put, put_comments, put_indent,
    selects, shallower, space, spec_how_of, spec_is_binary_operator, src_items, state_inv, step,
    step_nd, step_tok, fmt_child, trail_from, walk, walk_start, word, FmtState, How, Sel, Walk,
};
use crate::lexer::{lex_diagnostics, lex_spec};
use crate::diagnostic::DiagnosticView;
use crate::parse::{any_error, has_parse_error, parse, parse_ok, parses_to, ParseResult};
use crate::span::FileId;
use crate::syntax_kind::SyntaxKind;
use crate::text::byte_len;
use crate::tree::{Elem, SyntaxTree};
use vstd::prelude::*;

verus! {

/// The result of formatting source text.
#[derive(Debug, Clone)]
pub struct FormatResult {
    /// The formatted text, or the input itself when it has parse errors.
    pub formatted: String,
    /// Whether the input had parse errors and came back unchanged.
    pub has_parse_errors: bool,
}

/// The writer: output text, indentation level, and the newlines ending the
/// output (counted up to two: only none, one, or more matter).
pub struct Formatter {
    output: String,
    indent_level: usize,
    trailing_newlines: usize,
}

impl View for Formatter {
    type V = FmtState;

    closed spec fn view(&self) -> FmtState {
        FmtState { out: self.output@, indent: self.indent_level as nat, nl: self.trailing_newlines as nat }
    }
}

impl Formatter {
    pub fn new() -> (f: Formatter)
        ensures
            f@ == initial(),
            state_inv(f@),
    {
        Formatter { output: String::new(), indent_level: 0, trailing_newlines: 0 }
    }

    pub fn write_str(&mut self, s: &str)
        requires
            state_inv(old(self)@),
        ensures
            final(self)@ == put(old(self)@, s@),
            state_inv(final(self)@),
    {
        if !s.is_empty() {
            self.output.append(s);
            self.trailing_newlines = 0;
        }
    }

    /// Writes the text of token `k` of `t`.
    pub fn write_token(&mut self, t: &SyntaxTree, k: usize)
        requires
            state_inv(old(self)@),
            k < t.tokens@.len(),
        ensures
            final(self)@ == put(old(self)@, t.token_views()[k as int].text),
            state_inv(final(self)@),
    {
        self.write_str(t.tokens[k].text.as_str());
    }

    pub fn write_space(&mut self)
        requires
            state_inv(old(self)@),
        ensures
            final(self)@ == space(old(self)@),
            state_inv(final(self)@),
    {
        self.output.append(" ");
        self.trailing_newlines = 0;
    }

    /// Writes `s` and a space.
    pub fn write_word(&mut self, s: &str)
        requires
            state_inv(old(self)@),
        ensures
            final(self)@ == word(old(self)@, s@),
            state_inv(final(self)@),
    {
        self.write_str(s);
        self.write_space();
    }

    pub fn write_newline(&mut self)
        requires
            state_inv(old(self)@),
        ensures
            final(self)@ == newline(old(self)@),
            state_inv(final(self)@),
    {
        let ghost before = self.output@;
        self.output.append("\n");
        proof {
            reveal_strlit("\n");
            assert(self.output@.last() == '\n');
        }
        if self.trailing_newlines < 2 {
            self.trailing_newlines = self.trailing_newlines + 1;
        }
    }

    /// Ends the output with an empty line, unless it already does.
    pub fn write_blank_line(&mut self)
        requires
            state_inv(old(self)@),
        ensures
            final(self)@ == blank_line(old(self)@),
            state_inv(final(self)@),
    {
        if self.trailing_newlines < 2 {
            self.write_newline();
            if self.trailing_newlines < 2 {
                self.write_newline();
            }
        }
    }

    /// Writes the indentation of the current level.
    pub fn write_indent(&mut self)
        requires
            state_inv(old(self)@),
        ensures
            final(self)@ == put_indent(old(self)@),
            state_inv(final(self)@),
    {
        let ghost s0 = self@;
        let mut i: usize = 0;
        while i < self.indent_level
            invariant
                i <= self.indent_level,
                self.indent_level == s0.indent,
                self.trailing_newlines == s0.nl,
                self.output@ == s0.out + indent_text(i as nat),
            decreases self.indent_level - i,
        {
            self.output.append("  ");
            i += 1;
            proof {
                assert(indent_text(i as nat) == indent_text((i - 1) as nat) + "  "@);
            }
        }
        if self.indent_level > 0 {
            self.trailing_newlines = 0;
        }
        proof {
            if s0.indent == 0 {
                assert(self.output@ =~= s0.out);
            }
        }
    }

    pub fn indent(&mut self)
        requires
            old(self)@.indent < usize::MAX,
        ensures
            final(self)@ == deeper(old(self)@),
    {
        self.indent_level = self.indent_level + 1;
    }

    pub fn dedent(&mut self)
        ensures
            final(self)@ == shallower(old(self)@),
    {
        self.indent_level = self.indent_level.saturating_sub(1);
    }

    /// Ends the output with a newline, unless it already does.
    pub fn ensure_trailing_newline(&mut self)
        requires
            state_inv(old(self)@),
        ensures
            final(self)@ == end_line(old(self)@),
            state_inv(final(self)@),
    {
        if self.trailing_newlines == 0 {
            self.write_newline();
        }
    }

    /// Formats the source file at the root of `t` and returns the text.
    pub fn format_node(self, t: &SyntaxTree) -> (r: String)
        requires
            t.wf(),
            self@ == initial(),
        ensures
            r@ == format_tree(*t),
            r@.len() > 0,
            r@.last() == '\n',
    {
        let mut f = self;
        format_source_file(&mut f, t, t.root);
        f.ensure_trailing_newline();
        f.output
    }
}

// ── Reading the tree ────────────────────────────────────────────

/// A child of node `n` that the tree can hold.
pub open spec fn elem_ok(t: SyntaxTree, n: int, e: Elem) -> bool {
    match e {
        Elem::Node(c) => c < n,
        Elem::Token(k) => k < t.tokens@.len(),
    }
}

/// The children of a well-formed tree refer to earlier nodes and to tokens
/// that exist.
proof fn lemma_kid_ok(t: SyntaxTree, n: int, i: int)
    requires
        t.wf(),
        0 <= n < t.nodes@.len(),
        0 <= i < kids(t, n).len(),
    ensures
        elem_ok(t, n, kids(t, n)[i]),
        kids(t, n)[i] == t.nodes@[n].children@[i],
        kids(t, n).len() == t.nodes@[n].children@.len(),
{
    assert(t.node_views()[n] == t.nodes@[n]@);
    assert(crate::tree::refs_valid(t.node_views()[n].children, n, t.tokens@.len() as int));
    assert(t.token_views().len() == t.tokens@.len());
}

/// Whether `kind` is an operator that a `BinaryExpr` spaces out.
pub fn is_binary_operator(kind: SyntaxKind) -> (b: bool)
    ensures
        b == spec_is_binary_operator(kind),
{
    matches!(
        kind,
        SyntaxKind::Plus | SyntaxKind::Minus | SyntaxKind::Star | SyntaxKind::Slash | SyntaxKind::Percent
            | SyntaxKind::EqEq | SyntaxKind::BangEq | SyntaxKind::Lt | SyntaxKind::LtEq | SyntaxKind::Gt
            | SyntaxKind::GtEq | SyntaxKind::AmpAmp | SyntaxKind::PipePipe | SyntaxKind::Pipe
            | SyntaxKind::StringConcat
    )
}

fn is_pattern_kind(kind: SyntaxKind) -> (b: bool)
    ensures
        b == crate::format_spec::is_pattern_kind(kind),
{
    matches!(
        kind,
        SyntaxKind::WildcardPat | SyntaxKind::IdentPat | SyntaxKind::LiteralPat | SyntaxKind::ConstructorPat
            | SyntaxKind::ListPat | SyntaxKind::TuplePat
    )
}

/// The rule for a node kind.
pub fn how_of(kind: SyntaxKind) -> (h: How)
    ensures
        h == spec_how_of(kind),
        !(h is Node),
{
    match kind {
        SyntaxKind::FnDef => How::Walk(Walk::FnDef),
        SyntaxKind::TypeDef => How::TypeDef,
        SyntaxKind::ImportStmt => How::Walk(Walk::Import),
        SyntaxKind::FromPythonImportStmt => How::Walk(Walk::FromImport),
        SyntaxKind::LetStmt => How::Walk(Walk::Let),
        SyntaxKind::BlockExpr => How::Block,
        SyntaxKind::LiteralExpr => How::Walk(Walk::Tokens),
        SyntaxKind::IdentExpr => How::Walk(Walk::FirstIdent),
        SyntaxKind::CallExpr => How::Walk(Walk::Call),
        SyntaxKind::PipelineExpr => How::Walk(Walk::Pipeline),
        SyntaxKind::BinaryExpr => How::Walk(Walk::Binary),
        SyntaxKind::FieldAccessExpr => How::Walk(Walk::FieldAccess),
        SyntaxKind::IfExpr => How::Walk(Walk::If),
        SyntaxKind::MatchExpr => How::Walk(Walk::Match),
        SyntaxKind::MatchArm => How::Walk(Walk::MatchArm),
        SyntaxKind::LambdaExpr => How::Walk(Walk::Lambda),
        SyntaxKind::ParenExpr => How::Paren,
        SyntaxKind::TryExpr => How::Try,
        SyntaxKind::ListExpr => How::ListExpr,
        SyntaxKind::TupleExpr => How::Tuple,
        SyntaxKind::StringConcat => How::Walk(Walk::Concat),
        SyntaxKind::WildcardPat => How::Wildcard,
        SyntaxKind::IdentPat => How::Walk(Walk::FirstIdent),
        SyntaxKind::LiteralPat => How::Walk(Walk::Tokens),
        SyntaxKind::ConstructorPat => How::Walk(Walk::ConstructorPat),
        SyntaxKind::ListPat => How::ListPat,
        SyntaxKind::TuplePat => How::Tuple,
        _ => How::Walk(Walk::Verbatim),
    }
}

/// Whether node `n` has a token child of kind `kind`.
fn has_token_child(t: &SyntaxTree, n: usize, kind: SyntaxKind) -> (b: bool)
    requires
        t.wf(),
        n < t.nodes@.len(),
    ensures
        b == crate::format_spec::has_token(*t, n as int, kind),
{
    let ghost ks = kids(*t, n as int);
    proof {
        assert(t.node_views()[n as int] == t.nodes@[n as int]@);
    }
    let len = t.nodes[n].children.len();
    let mut i: usize = 0;
    while i < len
        invariant
            t.wf(),
            n < t.nodes@.len(),
            len == ks.len(),
            ks == kids(*t, n as int),
            i <= len,
            forall|j: int|
                0 <= j < i ==> !(#[trigger] ks[j] matches Elem::Token(k) && t.token_views()[k as int].kind
                    == kind),
        decreases len - i,
    {
        proof {
            lemma_kid_ok(*t, n as int, i as int);
        }
        if let Elem::Token(k) = t.nodes[n].children[i] {
            if t.tokens[k].kind == kind {
                assert(ks[i as int] matches Elem::Token(k) && t.token_views()[k as int].kind == kind);
                return true;
            }
        }
        i += 1;
    }
    false
}

/// Whether node `n` has a node child of kind `kind`.
fn has_node_child(t: &SyntaxTree, n: usize, kind: SyntaxKind) -> (b: bool)
    requires
        t.wf(),
        n < t.nodes@.len(),
    ensures
        b == crate::format_spec::has_node(*t, n as int, kind),
{
    let ghost ks = kids(*t, n as int);
    proof {
        assert(t.node_views()[n as int] == t.nodes@[n as int]@);
    }
    let len = t.nodes[n].children.len();
    let mut i: usize = 0;
    while i < len
        invariant
            t.wf(),
            n < t.nodes@.len(),
            len == ks.len(),
            ks == kids(*t, n as int),
            i <= len,
            forall|j: int|
                0 <= j < i ==> !(#[trigger] ks[j] matches Elem::Node(c) && t.node_views()[c as int].kind
                    == kind),
        decreases len - i,
    {
        proof {
            lemma_kid_ok(*t, n as int, i as int);
        }
        if let Elem::Node(c) = t.nodes[n].children[i] {
            assert(t.node_views()[c as int] == t.nodes@[c as int]@);
            if t.nodes[c].kind == kind {
                assert(ks[i as int] matches Elem::Node(c) && t.node_views()[c as int].kind == kind);
                return true;
            }
        }
        i += 1;
    }
    false
}

/// Token indices as integers.
pub open spec fn ints(v: Seq<usize>) -> Seq<int> {
    v.map_values(|k: usize| k as int)
}

/// All indices refer to tokens of `t`.
pub open spec fn toks_ok(t: SyntaxTree, v: Seq<usize>) -> bool {
    forall|j: int| 0 <= j < v.len() ==> (#[trigger] v[j]) < t.tokens@.len()
}

proof fn lemma_ints_push(v: Seq<usize>, k: usize)
    ensures
        ints(v.push(k)) == ints(v).push(k as int),
{
    assert(ints(v.push(k)) =~= ints(v).push(k as int));
}

/// The comments leading node `n`, from child `i` on, after those in `acc`.
fn lead_rec(t: &SyntaxTree, n: usize, found: Vec<usize>) -> (r: Vec<usize>)
    requires
        t.wf(),
        n < t.nodes@.len(),
        toks_ok(*t, found@),
    ensures
        ints(r@) == lead_from(*t, n as int, 0, ints(found@)),
        toks_ok(*t, r@),
    decreases n,
{
    let mut acc = found;
    let ghost acc0 = ints(found@);
    let len = t.nodes[n].children.len();
    let mut i: usize = 0;
    proof {
        if len > 0 {
            lemma_kid_ok(*t, n as int, 0);
        }
        assert(t.node_views()[n as int] == t.nodes@[n as int]@);
    }
    while i < len
        invariant
            t.wf(),
            n < t.nodes@.len(),
            len == kids(*t, n as int).len(),
            i <= len,
            toks_ok(*t, acc@),
            acc0 == ints(found@),
            lead_from(*t, n as int, 0, acc0) == lead_from(*t, n as int, i as int, ints(acc@)),
        decreases len - i,
    {
        proof {
            lemma_kid_ok(*t, n as int, i as int);
        }
        match t.nodes[n].children[i] {
            Elem::Token(k) => {
                proof {
                    assert(t.token_views()[k as int] == t.tokens@[k as int]@);
                }
                let kind = t.tokens[k].kind;
                if kind == SyntaxKind::Comment {
                    proof {
                        lemma_ints_push(acc@, k);
                    }
                    acc.push(k);
                } else if !kind.is_trivia() {
                    assert(lead_from(*t, n as int, i as int, ints(acc@)) == ints(acc@));
                    return acc;
                }
            },
            Elem::Node(c) => {
                assert(lead_from(*t, n as int, i as int, ints(acc@)) == lead_from(*t, c as int, 0, ints(acc@)));
                return lead_rec(t, c, acc);
            },
        }
        i += 1;
    }
    acc
}

/// The comments leading node `n`.
fn leading(t: &SyntaxTree, n: usize) -> (r: Vec<usize>)
    requires
        t.wf(),
        n < t.nodes@.len(),
    ensures
        ints(r@) == leading_comments(*t, n as int),
        toks_ok(*t, r@),
{
    let acc: Vec<usize> = Vec::new();
    assert(ints(acc@) =~= Seq::<int>::empty());
    lead_rec(t, n, acc)
}

/// The comments after the last non-trivia child of node `n`.
fn trailing(t: &SyntaxTree, n: usize) -> (r: Vec<usize>)
    requires
        t.wf(),
        n < t.nodes@.len(),
    ensures
        ints(r@) == trail_from(*t, n as int, 0, Seq::empty()),
        toks_ok(*t, r@),
{
    let mut acc: Vec<usize> = Vec::new();
    assert(ints(acc@) =~= Seq::<int>::empty());
    let len = t.nodes[n].children.len();
    proof {
        assert(t.node_views()[n as int] == t.nodes@[n as int]@);
    }
    let mut i: usize = 0;
    while i < len
        invariant
            t.wf(),
            n < t.nodes@.len(),
            len == kids(*t, n as int).len(),
            i <= len,
            toks_ok(*t, acc@),
            trail_from(*t, n as int, 0, Seq::empty()) == trail_from(*t, n as int, i as int, ints(acc@)),
        decreases len - i,
    {
        proof {
            lemma_kid_ok(*t, n as int, i as int);
        }
        match t.nodes[n].children[i] {
            Elem::Token(k) => {
                proof {
                    assert(t.token_views()[k as int] == t.tokens@[k as int]@);
                }
                let kind = t.tokens[k].kind;
                if kind == SyntaxKind::Comment {
                    proof {
                        lemma_ints_push(acc@, k);
                    }
                    acc.push(k);
                } else if !kind.is_trivia() {
                    acc = Vec::new();
                    assert(ints(acc@) =~= Seq::<int>::empty());
                }
            },
            Elem::Node(_) => {
                acc = Vec::new();
                assert(ints(acc@) =~= Seq::<int>::empty());
            },
        }
        i += 1;
    }
    acc
}

/// The comments directly before the first `closer` token child of `n`.
fn before_closer(t: &SyntaxTree, n: usize, closer: SyntaxKind) -> (r: Vec<usize>)
    requires
        t.wf(),
        n < t.nodes@.len(),
    ensures
        ints(r@) == closer_from(*t, n as int, closer, 0, Seq::empty()),
        toks_ok(*t, r@),
{
    let mut acc: Vec<usize> = Vec::new();
    assert(ints(acc@) =~= Seq::<int>::empty());
    let len = t.nodes[n].children.len();
    proof {
        assert(t.node_views()[n as int] == t.nodes@[n as int]@);
    }
    let mut i: usize = 0;
    while i < len
        invariant
            t.wf(),
            n < t.nodes@.len(),
            len == kids(*t, n as int).len(),
            i <= len,
            toks_ok(*t, acc@),
            closer_from(*t, n as int, closer, 0, Seq::empty()) == closer_from(
                *t,
                n as int,
                closer,
                i as int,
                ints(acc@),
            ),
        decreases len - i,
    {
        proof {
            lemma_kid_ok(*t, n as int, i as int);
        }
        match t.nodes[n].children[i] {
            Elem::Token(k) => {
                proof {
                    assert(t.token_views()[k as int] == t.tokens@[k as int]@);
                }
                let kind = t.tokens[k].kind;
                if kind == closer {
                    return acc;
                } else if kind == SyntaxKind::Comment {
                    proof {
                        lemma_ints_push(acc@, k);
                    }
                    acc.push(k);
                } else if !kind.is_trivia() {
                    acc = Vec::new();
                    assert(ints(acc@) =~= Seq::<int>::empty());
                }
            },
            Elem::Node(_) => {
                acc = Vec::new();
                assert(ints(acc@) =~= Seq::<int>::empty());
            },
        }
        i += 1;
    }
    let none: Vec<usize> = Vec::new();
    assert(ints(none@) =~= Seq::<int>::empty());
    none
}

/// Writes each comment of `ks` on a line of its own.
fn write_comments(f: &mut Formatter, t: &SyntaxTree, ks: &Vec<usize>, indented: bool)
    requires
        state_inv(old(f)@),
        toks_ok(*t, ks@),
    ensures
        final(f)@ == put_comments(old(f)@, *t, ints(ks@), indented),
        final(f)@.indent == old(f)@.indent,
        state_inv(final(f)@),
{
    let ghost s0 = f@;
    let mut j: usize = 0;
    assert(ints(ks@).take(0) =~= Seq::<int>::empty());
    while j < ks.len()
        invariant
            j <= ks@.len(),
            toks_ok(*t, ks@),
            state_inv(f@),
            f@.indent == s0.indent,
            f@ == put_comments(s0, *t, ints(ks@).take(j as int), indented),
        decreases ks@.len() - j,
    {
        let k = ks[j];
        if indented {
            f.write_indent();
        }
        f.write_token(t, k);
        f.write_newline();
        proof {
            let p = ints(ks@).take(j + 1);
            assert(p.drop_last() =~= ints(ks@).take(j as int));
            assert(p.last() == k as int);
        }
        j += 1;
    }
    assert(ints(ks@).take(ks@.len() as int) =~= ints(ks@));
}

// ── The rules ───────────────────────────────────────────────────

/// Formats node `n` the way `how` says.
fn format(f: &mut Formatter, t: &SyntaxTree, n: usize, how: How)
    requires
        t.wf(),
        n < t.nodes@.len(),
        old(f)@.indent + n < t.nodes@.len(),
        state_inv(old(f)@),
    ensures
        final(f)@ == fmt(old(f)@, *t, n as int, how),
        final(f)@.indent == old(f)@.indent,
        state_inv(final(f)@),
    decreases n, how_rank(how),
{
    proof {
        assert(t.node_views()[n as int] == t.nodes@[n as int]@);
        assert(t.nodes.len() == t.nodes@.len());
    }
    match how {
        How::Node => {
            let h = how_of(t.nodes[n].kind);
            format(f, t, n, h);
        },
        How::Walk(r) => {
            walk_children(f, t, n, r);
        },
        How::Block => {
            f.write_str("{");
            f.write_newline();
            f.indent();
            list_children(f, t, n, Sel::BlockItems);
            let cs = before_closer(t, n, SyntaxKind::RBrace);
            write_comments(f, t, &cs, true);
            f.dedent();
            f.write_indent();
            f.write_str("}");
        },
        How::ParamList => {
            f.write_str("(");
            list_children(f, t, n, Sel::Params);
            f.write_str(")");
        },
        How::ReturnType => {
            f.write_str("->");
            f.write_space();
            walk_children(f, t, n, Walk::ReturnType);
        },
        How::VariantField => {
            if has_token_child(t, n, SyntaxKind::Colon) {
                walk_children(f, t, n, Walk::Labelled);
            } else {
                walk_children(f, t, n, Walk::PositionalField);
            }
        },
        How::ArgList => {
            f.write_str("(");
            list_children(f, t, n, Sel::CommaNodes);
            f.write_str(")");
        },
        How::TypeDef => {
            walk_children(f, t, n, Walk::TypeDefHeader);
            if has_token_child(t, n, SyntaxKind::LBrace) {
                f.write_space();
                f.write_str("{");
                f.write_newline();
                f.indent();
                let sel = if !has_node_child(t, n, SyntaxKind::Variant) && has_node_child(
                    t,
                    n,
                    SyntaxKind::Field,
                ) {
                    Sel::RecordBody
                } else {
                    Sel::VariantBody
                };
                list_children(f, t, n, sel);
                f.dedent();
                f.write_indent();
                f.write_str("}");
            }
        },
        How::Paren => {
            f.write_str("(");
            list_children(f, t, n, Sel::AllNodes);
            f.write_str(")");
        },
        How::Try => {
            f.write_str("try");
            f.write_space();
            list_children(f, t, n, Sel::AllNodes);
        },
        How::ListExpr => {
            f.write_str("[");
            list_children(f, t, n, Sel::CommaNodes);
            f.write_str("]");
        },
        How::Tuple => {
            f.write_str("#(");
            list_children(f, t, n, Sel::CommaNodes);
            f.write_str(")");
        },
        How::Wildcard => {
            f.write_str("_");
        },
        How::ListPat => {
            f.write_str("[");
            walk_children(f, t, n, Walk::ListPat);
            f.write_str("]");
        },
    }
}

/// Runs rule `r` over the children of node `n`.
fn walk_children(f: &mut Formatter, t: &SyntaxTree, n: usize, r: Walk) -> (flag: bool)
    requires
        t.wf(),
        n < t.nodes@.len(),
        old(f)@.indent + n < t.nodes@.len(),
        state_inv(old(f)@),
    ensures
        (final(f)@, flag) == walk(old(f)@, *t, n as int, r, kids(*t, n as int).len() as int),
        final(f)@.indent == old(f)@.indent,
        state_inv(final(f)@),
    decreases n, 5int,
{
    let ghost s0 = f@;
    proof {
        assert(t.node_views()[n as int] == t.nodes@[n as int]@);
    }
    let len = t.nodes[n].children.len();
    let mut flag = match r {
        Walk::ListPat => true,
        _ => false,
    };
    let mut i: usize = 0;
    while i < len
        invariant
            t.wf(),
            n < t.nodes@.len(),
            s0.indent + n < t.nodes@.len(),
            len == kids(*t, n as int).len(),
            i <= len,
            (f@, flag) == walk(s0, *t, n as int, r, i as int),
            f@.indent == s0.indent,
            state_inv(f@),
        decreases len - i,
    {
        proof {
            lemma_kid_ok(*t, n as int, i as int);
        }
        let e = t.nodes[n].children[i];
        flag = step_child(f, t, n, r, e, flag);
        i += 1;
    }
    flag
}

/// What rule `r` writes for child `e` of node `n`; returns the next flag.
#[verifier::rlimit(50)]
fn step_child(f: &mut Formatter, t: &SyntaxTree, n: usize, r: Walk, e: Elem, flag: bool) -> (nf: bool)
    requires
        t.wf(),
        n < t.nodes@.len(),
        old(f)@.indent + n < t.nodes@.len(),
        state_inv(old(f)@),
        elem_ok(*t, n as int, e),
    ensures
        (final(f)@, nf) == step(old(f)@, *t, n as int, r, e, flag),
        final(f)@.indent == old(f)@.indent,
        state_inv(final(f)@),
    decreases n, 4int,
{
    proof {
        assert(t.token_views().len() == t.tokens@.len());
        assert(t.nodes.len() == t.nodes@.len());
    }
    match e {
        Elem::Token(k) => {
            proof {
                assert(t.token_views()[k as int] == t.tokens@[k as int]@);
            }
            let kind = t.tokens[k].kind;
            if kind.is_trivia() {
                if (r == Walk::Pipeline || r == Walk::Concat) && kind == SyntaxKind::Newline {
                    return true;
                }
                return flag;
            }
            step_token(f, t, n, r, k, flag)
        },
        Elem::Node(c) => {
            proof {
                assert(t.node_views()[c as int] == t.nodes@[c as int]@);
            }
            step_node(f, t, n, r, c, flag)
        },
    }
}

/// What rule `r` writes for a non-trivia token child `k` of node `n`.
#[verifier::rlimit(80)]
fn step_token(f: &mut Formatter, t: &SyntaxTree, n: usize, r: Walk, k: usize, flag: bool) -> (nf: bool)
    requires
        t.wf(),
        n < t.nodes@.len(),
        old(f)@.indent + n < t.nodes@.len(),
        state_inv(old(f)@),
        k < t.tokens@.len(),
        !t.token_views()[k as int].kind.spec_is_trivia(),
    ensures
        (final(f)@, nf) == step_tok(old(f)@, *t, n as int, r, k as int, flag),
        final(f)@.indent == old(f)@.indent,
        state_inv(final(f)@),
    decreases n, 3int,
{
    proof {
        assert(t.token_views()[k as int] == t.tokens@[k as int]@);
        assert(t.nodes.len() == t.nodes@.len());
    }
    let kind = t.tokens[k].kind;
    match r {
        Walk::Verbatim | Walk::Tokens | Walk::Call | Walk::MatchArm | Walk::Guard => {
            if r == Walk::Guard && kind == SyntaxKind::IfKw {
                f.write_word("if");
            } else if r == Walk::MatchArm && kind == SyntaxKind::Arrow {
                f.write_space();
                f.write_word("->");
            } else {
                f.write_token(t, k);
            }
            flag
        },
        Walk::FnDef => {
            if kind == SyntaxKind::FnKw {
                f.write_word("fn");
                true
            } else if kind == SyntaxKind::Ident && !flag {
                f.write_token(t, k);
                f.write_space();
                flag
            } else {
                f.write_token(t, k);
                flag
            }
        },
        Walk::Labelled => {
            if kind == SyntaxKind::Ident && !flag {
                f.write_token(t, k);
                true
            } else if kind == SyntaxKind::Colon {
                f.write_word(":");
                flag
            } else {
                flag
            }
        },
        Walk::TypeExpr => {
            if kind == SyntaxKind::Ident && !flag {
                f.write_token(t, k);
                true
            } else {
                if kind == SyntaxKind::LParen {
                    f.write_str("(");
                } else if kind == SyntaxKind::RParen {
                    f.write_str(")");
                } else if kind == SyntaxKind::Comma {
                    f.write_word(",");
                }
                flag
            }
        },
        Walk::TypeDefHeader => {
            if kind == SyntaxKind::TypeKw {
                f.write_word("type");
            } else if kind == SyntaxKind::Ident {
                f.write_token(t, k);
            } else if kind == SyntaxKind::LParen {
                f.write_str("(");
            } else if kind == SyntaxKind::RParen {
                f.write_str(")");
            } else if kind == SyntaxKind::Comma {
                f.write_word(",");
            }
            flag
        },
        Walk::FirstIdent => {
            if kind == SyntaxKind::Ident && !flag {
                f.write_token(t, k);
                true
            } else {
                flag
            }
        },
        Walk::Variant => {
            if kind == SyntaxKind::Ident && !flag {
                f.write_token(t, k);
                true
            } else {
                if kind == SyntaxKind::LParen {
                    f.write_str("(");
                    list_children(f, t, n, Sel::Fields);
                } else if kind == SyntaxKind::RParen {
                    f.write_str(")");
                }
                flag
            }
        },
        Walk::Import | Walk::FromImport => {
            if kind == SyntaxKind::ImportKw {
                f.write_word("import");
            } else if kind == SyntaxKind::Ident {
                f.write_token(t, k);
            } else if kind == SyntaxKind::AsKw {
                f.write_space();
                f.write_word("as");
            } else if r == Walk::Import && kind == SyntaxKind::Dot {
                f.write_str(".");
            } else if r == Walk::FromImport && kind == SyntaxKind::FromKw {
                f.write_word("from");
            } else if r == Walk::FromImport && kind == SyntaxKind::PythonKw {
                f.write_word("python");
            }
            flag
        },
        Walk::Let => {
            if kind == SyntaxKind::LetKw {
                f.write_word("let");
            } else if kind == SyntaxKind::Ident {
                f.write_token(t, k);
            } else if kind == SyntaxKind::Eq {
                f.write_space();
                f.write_word("=");
            }
            flag
        },
        Walk::Pipeline | Walk::Concat => {
            if kind == SyntaxKind::Pipe || kind == SyntaxKind::StringConcat {
                let op = if r == Walk::Pipeline {
                    "|>"
                } else {
                    "<>"
                };
                if flag {
                    f.write_newline();
                    f.write_indent();
                } else {
                    f.write_space();
                }
                f.write_word(op);
            } else {
                f.write_token(t, k);
            }
            false
        },
        Walk::Binary => {
            if is_binary_operator(kind) {
                f.write_space();
                f.write_token(t, k);
                f.write_space();
            } else {
                if flag {
                    f.write_space();
                }
                f.write_token(t, k);
            }
            true
        },
        Walk::FieldAccess => {
            if kind == SyntaxKind::Dot {
                f.write_str(".");
            } else if kind == SyntaxKind::Ident {
                f.write_token(t, k);
            }
            flag
        },
        Walk::If => {
            if kind == SyntaxKind::IfKw {
                f.write_word("if");
            } else if kind == SyntaxKind::ElseKw {
                f.write_space();
                f.write_word("else");
            }
            flag
        },
        Walk::Match => {
            if kind == SyntaxKind::MatchKw {
                f.write_word("match");
            } else if kind == SyntaxKind::LBrace {
                f.write_space();
                f.write_str("{");
                f.write_newline();
                f.indent();
                list_children(f, t, n, Sel::Arms);
                let cs = before_closer(t, n, SyntaxKind::RBrace);
                write_comments(f, t, &cs, true);
                f.dedent();
                f.write_indent();
            } else if kind == SyntaxKind::RBrace {
                f.write_str("}");
            }
            flag
        },
        Walk::Lambda => {
            if kind == SyntaxKind::FnKw {
                f.write_str("fn");
            }
            flag
        },
        Walk::ConstructorPat => {
            if kind == SyntaxKind::Ident && !flag {
                f.write_token(t, k);
                true
            } else {
                if kind == SyntaxKind::LParen {
                    f.write_str("(");
                    list_children(f, t, n, Sel::Patterns);
                } else if kind == SyntaxKind::RParen {
                    f.write_str(")");
                }
                flag
            }
        },
        Walk::ListPat => {
            if kind == SyntaxKind::Comma {
                f.write_word(",");
                false
            } else {
                if kind == SyntaxKind::DotDot {
                    if !flag {
                        f.write_word(",");
                    }
                    f.write_str("..");
                } else if kind == SyntaxKind::Ident {
                    f.write_token(t, k);
                }
                flag
            }
        },
        Walk::ReturnType | Walk::PositionalField => flag,
    }
}

/// What rule `r` writes for child node `c` of node `n`.
#[verifier::rlimit(100)]
#[verifier::spinoff_prover]
fn step_node(f: &mut Formatter, t: &SyntaxTree, n: usize, r: Walk, c: usize, flag: bool) -> (nf: bool)
    requires
        t.wf(),
        n < t.nodes@.len(),
        old(f)@.indent + n < t.nodes@.len(),
        state_inv(old(f)@),
        c < n,
    ensures
        (final(f)@, nf) == step_nd(old(f)@, *t, n as int, r, c as int, flag),
        final(f)@.indent == old(f)@.indent,
        state_inv(final(f)@),
    decreases n, 3int,
{
    proof {
        assert(t.node_views()[c as int] == t.nodes@[c as int]@);
    }
    let kind = t.nodes[c].kind;
    match r {
        Walk::Verbatim | Walk::Let | Walk::Guard | Walk::FieldAccess => {
            format(f, t, c, How::Node);
            flag
        },
        Walk::Tokens | Walk::FirstIdent | Walk::Import | Walk::FromImport | Walk::Variant => flag,
        Walk::FnDef | Walk::Lambda => {
            if r == Walk::FnDef && kind == SyntaxKind::Visibility {
                f.write_word("pub");
            } else if kind == SyntaxKind::ParamList {
                format(f, t, c, How::ParamList);
            } else if kind == SyntaxKind::ReturnType {
                f.write_space();
                format(f, t, c, How::ReturnType);
            } else if kind == SyntaxKind::BlockExpr {
                f.write_space();
                format(f, t, c, How::Block);
            } else if r == Walk::FnDef {
                format(f, t, c, How::Node);
            }
            flag
        },
        Walk::Labelled | Walk::TypeExpr | Walk::PositionalField => {
            if kind == SyntaxKind::TypeExpr {
                format(f, t, c, How::Walk(Walk::TypeExpr));
            }
            flag
        },
        Walk::ReturnType => {
            if kind == SyntaxKind::TypeExpr && !flag {
                format(f, t, c, How::Walk(Walk::TypeExpr));
                true
            } else {
                flag
            }
        },
        Walk::TypeDefHeader => {
            if kind == SyntaxKind::Visibility {
                f.write_word("pub");
            } else if kind == SyntaxKind::TypeParam {
                format(f, t, c, How::Walk(Walk::FirstIdent));
            }
            flag
        },
        Walk::Call => {
            if kind == SyntaxKind::ArgList {
                format(f, t, c, How::ArgList);
            } else {
                format(f, t, c, How::Node);
            }
            flag
        },
        Walk::Pipeline | Walk::Concat => {
            format(f, t, c, How::Node);
            false
        },
        Walk::Binary => {
            format(f, t, c, How::Node);
            true
        },
        Walk::If => {
            if kind == SyntaxKind::BlockExpr {
                f.write_space();
                format(f, t, c, How::Block);
            } else if kind == SyntaxKind::IfExpr {
                format(f, t, c, How::Walk(Walk::If));
            } else {
                format(f, t, c, How::Node);
            }
            flag
        },
        Walk::Match => {
            if kind != SyntaxKind::MatchArm {
                format(f, t, c, How::Node);
            }
            flag
        },
        Walk::MatchArm => {
            if kind == SyntaxKind::Guard {
                f.write_space();
                format(f, t, c, How::Walk(Walk::Guard));
            } else {
                format(f, t, c, How::Node);
            }
            flag
        },
        Walk::ConstructorPat => {
            if !has_token_child(t, n, SyntaxKind::LParen) {
                format(f, t, c, How::Node);
            }
            flag
        },
        Walk::ListPat => {
            format(f, t, c, How::Node);
            false
        },
    }
}

/// Whether list `sel` takes child node `c`.
fn selects_node(t: &SyntaxTree, sel: Sel, c: usize) -> (b: bool)
    requires
        c < t.nodes@.len(),
    ensures
        b == selects(*t, sel, Elem::Node(c)),
{
    proof {
        assert(t.node_views()[c as int] == t.nodes@[c as int]@);
    }
    let kind = t.nodes[c].kind;
    match sel {
        Sel::CommaNodes | Sel::AllNodes | Sel::BlockItems => true,
        Sel::Params => kind == SyntaxKind::Param,
        Sel::Fields | Sel::RecordBody => kind == SyntaxKind::Field,
        Sel::Patterns => is_pattern_kind(kind),
        Sel::Arms => kind == SyntaxKind::MatchArm,
        Sel::VariantBody => kind == SyntaxKind::Variant,
    }
}

/// Writes the child nodes of `n` that list `sel` takes; returns whether it took one.
fn list_children(f: &mut Formatter, t: &SyntaxTree, n: usize, sel: Sel) -> (any: bool)
    requires
        t.wf(),
        n < t.nodes@.len(),
        old(f)@.indent + n <= t.nodes@.len(),
        state_inv(old(f)@),
    ensures
        (final(f)@, any) == list(old(f)@, *t, n as int, sel, kids(*t, n as int).len() as int),
        final(f)@.indent == old(f)@.indent,
        state_inv(final(f)@),
    decreases n, 2int,
{
    let ghost s0 = f@;
    proof {
        assert(t.node_views()[n as int] == t.nodes@[n as int]@);
    }
    let len = t.nodes[n].children.len();
    let mut any = false;
    let mut i: usize = 0;
    while i < len
        invariant
            t.wf(),
            n < t.nodes@.len(),
            s0.indent + n <= t.nodes@.len(),
            len == kids(*t, n as int).len(),
            i <= len,
            (f@, any) == list(s0, *t, n as int, sel, i as int),
            f@.indent == s0.indent,
            state_inv(f@),
        decreases len - i,
    {
        proof {
            lemma_kid_ok(*t, n as int, i as int);
        }
        if let Elem::Node(c) = t.nodes[n].children[i] {
            if selects_node(t, sel, c) {
                list_item(f, t, n, c, sel, any);
                any = true;
            }
        }
        i += 1;
    }
    any
}

/// Writes child node `c` of `n` as an item of list `sel`.
fn list_item(f: &mut Formatter, t: &SyntaxTree, n: usize, c: usize, sel: Sel, any: bool)
    requires
        t.wf(),
        n < t.nodes@.len(),
        c < n,
        old(f)@.indent + n <= t.nodes@.len(),
        state_inv(old(f)@),
    ensures
        final(f)@ == item(old(f)@, *t, n as int, c as int, sel, any),
        final(f)@.indent == old(f)@.indent,
        state_inv(final(f)@),
    decreases n, 1int,
{
    proof {
    }
    match sel {
        Sel::CommaNodes | Sel::Patterns | Sel::Params | Sel::Fields => {
            if any {
                f.write_word(",");
            }
            let how = match sel {
                Sel::Params => How::Walk(Walk::Labelled),
                Sel::Fields => How::VariantField,
                _ => How::Node,
            };
            format(f, t, c, how);
        },
        Sel::AllNodes => {
            format(f, t, c, How::Node);
        },
        Sel::BlockItems | Sel::Arms => {
            let cs = leading(t, c);
            write_comments(f, t, &cs, true);
            f.write_indent();
            let how = match sel {
                Sel::Arms => How::Walk(Walk::MatchArm),
                _ => How::Node,
            };
            format(f, t, c, how);
            f.write_newline();
        },
        Sel::RecordBody | Sel::VariantBody => {
            f.write_indent();
            let how = match sel {
                Sel::RecordBody => How::Walk(Walk::Labelled),
                _ => How::Walk(Walk::Variant),
            };
            format(f, t, c, how);
            f.write_newline();
        },
    }
}

// ── The source file ─────────────────────────────────────────────

/// Formats the source file node `n`: its items separated by empty lines,
/// each after its leading comments, then the trailing comments.
fn format_source_file(f: &mut Formatter, t: &SyntaxTree, n: usize)
    requires
        t.wf(),
        n < t.nodes@.len(),
        old(f)@.indent == 0,
        state_inv(old(f)@),
    ensures
        end_line(final(f)@) == fmt_source_file(old(f)@, *t, n as int),
        final(f)@.indent == 0,
        state_inv(final(f)@),
{
    let ghost s0 = f@;
    proof {
        assert(t.node_views()[n as int] == t.nodes@[n as int]@);
    }
    let len = t.nodes[n].children.len();
    let mut any = false;
    let mut i: usize = 0;
    while i < len
        invariant
            t.wf(),
            n < t.nodes@.len(),
            len == kids(*t, n as int).len(),
            i <= len,
            (f@, any) == src_items(s0, *t, n as int, i as int),
            f@.indent == 0,
            state_inv(f@),
        decreases len - i,
    {
        proof {
            lemma_kid_ok(*t, n as int, i as int);
        }
        if let Elem::Node(c) = t.nodes[n].children[i] {
            proof {
                assert(t.node_views()[c as int] == t.nodes@[c as int]@);
            }
            if t.nodes[c].kind != SyntaxKind::NodeError {
                if any {
                    f.write_blank_line();
                }
                let cs = leading(t, c);
                write_comments(f, t, &cs, false);
                format(f, t, c, How::Node);
                any = true;
            }
        }
        i += 1;
    }
    let tc = trailing(t, n);
    if tc.len() > 0 {
        if any {
            f.write_blank_line();
        }
        write_comments(f, t, &tc, false);
    }
}

/// Lays out a parse of `source`: `source` itself, flagged, when the parse
/// reported an error; otherwise the canonical layout of the parsed tree,
/// ending with a newline.
pub fn format_parsed(source: &str, parsed: &ParseResult) -> (r: FormatResult)
    requires
        parses_to(parsed.spec_tree(), FileId(0), source@),
    ensures
        r.has_parse_errors == any_error(parsed.spec_diagnostics()),
        r.has_parse_errors ==> r.formatted@ == source@,
        !r.has_parse_errors ==> r.formatted@ == format_tree(parsed.spec_tree()),
        !r.has_parse_errors ==> r.formatted@.len() > 0 && r.formatted@.last() == '\n',
{
    if parsed.has_errors() {
        return FormatResult { formatted: String::from_str(source), has_parse_errors: true };
    }
    let formatted = Formatter::new().format_node(parsed.tree());
    FormatResult { formatted, has_parse_errors: false }
}

/// Formats `source` into its canonical layout.
///
/// `source` is parsed, and the result is what `format_parsed` makes of that
/// parse. Exactly when `source` has an invalid character or its tokens are
/// not a program of the grammar (`has_parse_error`), it comes back
/// unchanged with `has_parse_errors` set; otherwise the result is the
/// canonical layout of the parsed tree, ending with a newline.
pub fn format_source(source: &str) -> (r: FormatResult)
    requires
        byte_len(source@) <= u32::MAX,
    ensures
        exists|t: SyntaxTree, ds: Seq<DiagnosticView>|
            #[trigger] parse_ok(t, ds, FileId(0), source@) && r.has_parse_errors == any_error(ds) && (
            r.has_parse_errors ==> r.formatted@ == source@) && (!r.has_parse_errors ==> r.formatted@
                == format_tree(t)),
        r.has_parse_errors == has_parse_error(source@, FileId(0)),
        any_error(lex_diagnostics(lex_spec(source@, FileId(0)))) ==> r.has_parse_errors,
        !r.has_parse_errors ==> r.formatted@.len() > 0 && r.formatted@.last() == '\n',
{
    let result = parse(FileId(0), source);
    let r = format_parsed(source, &result);
    proof {
        let ld = lex_diagnostics(lex_spec(source@, FileId(0)));
        let ds = result.spec_diagnostics();
        if any_error(ld) {
            let i = choose|i: int| 0 <= i < ld.len() && (#[trigger] ld[i]).severity == crate::diagnostic::Severity::Error;
            assert(ds.subrange(0, ld.len() as int)[i] == ld[i]);
            assert(ds[i].severity == crate::diagnostic::Severity::Error);
        }
        assert(parse_ok(result.spec_tree(), ds, FileId(0), source@));
    }
    r
}

} // verus!
