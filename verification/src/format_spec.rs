//! The canonical layout of Asatsuyu source, as functions from a syntax tree
//! to text. The formatter in `format` computes exactly these.
//!
//! The layout is produced by a writer with three pieces of state: the text
//! written so far, the indentation level (two spaces per level) and how many
//! newlines end the text (none, one, or two and more). Each node kind has a
//! rule; most rules read the node's children in order and write something
//! for each, carrying one flag along (whether a name was written yet, whether
//! a newline preceded an operator, and so on).
use crate::syntax_kind::SyntaxKind;
use crate::tree::{Elem, SyntaxTree};
use vstd::prelude::*;

verus! {

/// The writer's state.
pub struct FmtState {
    pub out: Seq<char>,
    pub indent: nat,
    /// Newlines ending `out`, counted up to two.
    pub nl: nat,
}

/// The state the formatter starts from.
pub open spec fn initial() -> FmtState {
    FmtState { out: Seq::empty(), indent: 0, nl: 0 }
}

/// The writer's invariant: the newline count is at most two, and when it is
/// not zero the text ends with a newline.
pub open spec fn state_inv(s: FmtState) -> bool {
    &&& s.nl <= 2
    &&& s.nl > 0 ==> s.out.len() > 0 && s.out.last() == '\n'
}

// ── Primitive writes ────────────────────────────────────────────

/// Writes `x`; an empty `x` changes nothing.
pub open spec fn put(s: FmtState, x: Seq<char>) -> FmtState {
    if x.len() == 0 {
        s
    } else {
        FmtState { out: s.out + x, nl: 0, ..s }
    }
}
pub open spec fn space(s: FmtState) -> FmtState {
    FmtState { out: s.out + " "@, nl: 0, ..s }
}
pub open spec fn newline(s: FmtState) -> FmtState {
    FmtState { out: s.out + "\n"@, nl: if s.nl < 2 { s.nl + 1 } else { 2 }, ..s }
}

/// Ends the text with an empty line, unless it already does.
pub open spec fn blank_line(s: FmtState) -> FmtState {
    if s.nl >= 2 {
        s
    } else if s.nl == 1 {
        newline(s)
    } else {
        newline(newline(s))
    }
}

/// Two spaces per level.
pub open spec fn indent_text(k: nat) -> Seq<char>
    decreases k,
{
    if k == 0 {
        Seq::empty()
    } else {
        indent_text((k - 1) as nat) + "  "@
    }
}
pub open spec fn put_indent(s: FmtState) -> FmtState {
    FmtState { out: s.out + indent_text(s.indent), nl: if s.indent > 0 { 0 } else { s.nl }, ..s }
}
pub open spec fn deeper(s: FmtState) -> FmtState {
    FmtState { indent: s.indent + 1, ..s }
}
pub open spec fn shallower(s: FmtState) -> FmtState {
    FmtState { indent: if s.indent > 0 { (s.indent - 1) as nat } else { 0 }, ..s }
}

/// Ends the text with a newline, unless it already does.
pub open spec fn end_line(s: FmtState) -> FmtState {
    if s.nl == 0 {
        newline(s)
    } else {
        s
    }
}

// ── Reading the tree ────────────────────────────────────────────
pub open spec fn kids(t: SyntaxTree, n: int) -> Seq<Elem> {
    t.node_views()[n].children
}
pub open spec fn node_kind(t: SyntaxTree, c: int) -> SyntaxKind {
    t.node_views()[c].kind
}
pub open spec fn tok_kind(t: SyntaxTree, k: int) -> SyntaxKind {
    t.token_views()[k].kind
}
pub open spec fn tok_text(t: SyntaxTree, k: int) -> Seq<char> {
    t.token_views()[k].text
}

/// Whether node `n` has a token child of kind `kind`.
pub open spec fn has_token(t: SyntaxTree, n: int, kind: SyntaxKind) -> bool {
    exists|i: int|
        0 <= i < kids(t, n).len() && (#[trigger] kids(t, n)[i] matches Elem::Token(k) && tok_kind(t, k as int) == kind)
}

/// Whether node `n` has a node child of kind `kind`.
pub open spec fn has_node(t: SyntaxTree, n: int, kind: SyntaxKind) -> bool {
    exists|i: int|
        0 <= i < kids(t, n).len() && (#[trigger] kids(t, n)[i] matches Elem::Node(c) && node_kind(t, c as int) == kind)
}

/// The binary operators that a `BinaryExpr` spaces out.
pub open spec fn spec_is_binary_operator(k: SyntaxKind) -> bool {
    matches!(
        k,
        SyntaxKind::Plus | SyntaxKind::Minus | SyntaxKind::Star | SyntaxKind::Slash | SyntaxKind::Percent
            | SyntaxKind::EqEq | SyntaxKind::BangEq | SyntaxKind::Lt | SyntaxKind::LtEq | SyntaxKind::Gt
            | SyntaxKind::GtEq | SyntaxKind::AmpAmp | SyntaxKind::PipePipe | SyntaxKind::Pipe
            | SyntaxKind::StringConcat
    )
}

/// The pattern node kinds.
pub open spec fn is_pattern_kind(k: SyntaxKind) -> bool {
    matches!(
        k,
        SyntaxKind::WildcardPat | SyntaxKind::IdentPat | SyntaxKind::LiteralPat | SyntaxKind::ConstructorPat
            | SyntaxKind::ListPat | SyntaxKind::TuplePat
    )
}

// ── Comments ────────────────────────────────────────────────────

/// The comments leading node `n` from child `i` on: comment tokens among
/// the leading trivia, continuing into the first child node, down the tree,
/// until the first other token. `acc` holds those found above.
pub open spec fn lead_from(t: SyntaxTree, n: int, i: int, acc: Seq<int>) -> Seq<int>
    decreases n, kids(t, n).len() - i,
{
    if 0 <= n < t.node_views().len() && 0 <= i < kids(t, n).len() {
        match kids(t, n)[i] {
            Elem::Token(k) => if tok_kind(t, k as int) == SyntaxKind::Comment {
                lead_from(t, n, i + 1, acc.push(k as int))
            } else if tok_kind(t, k as int).spec_is_trivia() {
                lead_from(t, n, i + 1, acc)
            } else {
                acc
            },
            Elem::Node(c) => if c < n {
                lead_from(t, c as int, 0, acc)
            } else {
                acc
            },
        }
    } else {
        acc
    }
}

/// The comments leading node `n`.
pub open spec fn leading_comments(t: SyntaxTree, n: int) -> Seq<int> {
    lead_from(t, n, 0, Seq::empty())
}

/// The comments after the last non-trivia child of `n`, from child `i` on.
pub open spec fn trail_from(t: SyntaxTree, n: int, i: int, acc: Seq<int>) -> Seq<int>
    decreases kids(t, n).len() - i,
{
    if 0 <= i < kids(t, n).len() {
        match kids(t, n)[i] {
            Elem::Token(k) => if tok_kind(t, k as int) == SyntaxKind::Comment {
                trail_from(t, n, i + 1, acc.push(k as int))
            } else if tok_kind(t, k as int).spec_is_trivia() {
                trail_from(t, n, i + 1, acc)
            } else {
                trail_from(t, n, i + 1, Seq::empty())
            },
            Elem::Node(_) => trail_from(t, n, i + 1, Seq::empty()),
        }
    } else {
        acc
    }
}

/// The comments directly before the first `closer` token child of `n`, from
/// child `i` on; none when there is no such token.
pub open spec fn closer_from(t: SyntaxTree, n: int, closer: SyntaxKind, i: int, acc: Seq<int>) -> Seq<int>
    decreases kids(t, n).len() - i,
{
    if 0 <= i < kids(t, n).len() {
        match kids(t, n)[i] {
            Elem::Token(k) => if tok_kind(t, k as int) == closer {
                acc
            } else if tok_kind(t, k as int) == SyntaxKind::Comment {
                closer_from(t, n, closer, i + 1, acc.push(k as int))
            } else if tok_kind(t, k as int).spec_is_trivia() {
                closer_from(t, n, closer, i + 1, acc)
            } else {
                closer_from(t, n, closer, i + 1, Seq::empty())
            },
            Elem::Node(_) => closer_from(t, n, closer, i + 1, Seq::empty()),
        }
    } else {
        Seq::empty()
    }
}

/// Writes each comment of `ks` on a line of its own, indented or not.
pub open spec fn put_comments(s: FmtState, t: SyntaxTree, ks: Seq<int>, indented: bool) -> FmtState
    decreases ks.len(),
{
    if ks.len() == 0 {
        s
    } else {
        let s1 = put_comments(s, t, ks.drop_last(), indented);
        let s2 = if indented { put_indent(s1) } else { s1 };
        newline(put(s2, tok_text(t, ks.last())))
    }
}

// ── Rules ───────────────────────────────────────────────────────

/// The rules that walk a node's children one by one.
#[derive(Debug, Clone, Copy, PartialEq, Eq, Structural)]
pub enum Walk {
    Verbatim,
    FnDef,
    Labelled,
    ReturnType,
    TypeExpr,
    TypeDefHeader,
    FirstIdent,
    Variant,
    PositionalField,
    Import,
    FromImport,
    Let,
    Tokens,
    Call,
    Pipeline,
    Concat,
    Binary,
    FieldAccess,
    If,
    Match,
    MatchArm,
    Guard,
    Lambda,
    ConstructorPat,
    ListPat,
}

/// How a node is formatted.
#[derive(Debug, Clone, Copy, PartialEq, Eq, Structural)]
pub enum How {
    /// By the rule for its kind.
    Node,
    Walk(Walk),
    Block,
    ParamList,
    ReturnType,
    VariantField,
    ArgList,
    TypeDef,
    Paren,
    Try,
    ListExpr,
    Tuple,
    Wildcard,
    ListPat,
}

/// The lists of child nodes that rules write one after another.
#[derive(Debug, Clone, Copy, PartialEq, Eq, Structural)]
pub enum Sel {
    /// All child nodes, separated by commas.
    CommaNodes,
    /// All child nodes, side by side.
    AllNodes,
    /// `Param` nodes, separated by commas.
    Params,
    /// `Field` nodes of a variant, separated by commas.
    Fields,
    /// Pattern nodes, separated by commas.
    Patterns,
    /// All child nodes, each on a line of its own after its comments.
    BlockItems,
    /// `MatchArm` nodes, each on a line of its own after its comments.
    Arms,
    /// `Field` nodes of a record, each on a line of its own.
    RecordBody,
    /// `Variant` nodes, each on a line of its own.
    VariantBody,
}

/// The rule for a node kind.
pub open spec fn spec_how_of(k: SyntaxKind) -> How {
    match k {
        SyntaxKind::FnDef => How::Walk(Walk::FnDef),
        SyntaxKind::TypeDef => How::TypeDef,
        SyntaxKind::ImportStmt => How::Walk(Walk::Import),
        SyntaxKind::FromPythonImportStmt => How::Walk(Walk::FromImport),
        SyntaxKind::LetStmt => How::Walk(Walk::Let),
        SyntaxKind::BlockExpr => How::Block,
        SyntaxKind::LiteralExpr => How::Walk(Walk::Tokens),
        SyntaxKind::IdentExpr => How::Walk(Walk::FirstIdent),
        SyntaxKind::CallExpr => How::Walk(Walk::Call),
        SyntaxKind::PipelineExpr => How::Walk(Walk::Pipeline),
        SyntaxKind::BinaryExpr => How::Walk(Walk::Binary),
        SyntaxKind::FieldAccessExpr => How::Walk(Walk::FieldAccess),
        SyntaxKind::IfExpr => How::Walk(Walk::If),
        SyntaxKind::MatchExpr => How::Walk(Walk::Match),
        SyntaxKind::MatchArm => How::Walk(Walk::MatchArm),
        SyntaxKind::LambdaExpr => How::Walk(Walk::Lambda),
        SyntaxKind::ParenExpr => How::Paren,
        SyntaxKind::TryExpr => How::Try,
        SyntaxKind::ListExpr => How::ListExpr,
        SyntaxKind::TupleExpr => How::Tuple,
        SyntaxKind::StringConcat => How::Walk(Walk::Concat),
        SyntaxKind::WildcardPat => How::Wildcard,
        SyntaxKind::IdentPat => How::Walk(Walk::FirstIdent),
        SyntaxKind::LiteralPat => How::Walk(Walk::Tokens),
        SyntaxKind::ConstructorPat => How::Walk(Walk::ConstructorPat),
        SyntaxKind::ListPat => How::ListPat,
        SyntaxKind::TuplePat => How::Tuple,
        _ => How::Walk(Walk::Verbatim),
    }
}

/// Ranks that order the rules for termination: a rule on a node only calls
/// lower ranks on the same node, and anything on the node's children.
pub open spec fn how_rank(h: How) -> int {
    match h {
        How::Node => 7,
        _ => 6,
    }
}

/// The flag a walk starts with.
pub open spec fn walk_start(r: Walk) -> bool {
    match r {
        Walk::ListPat => true,
        _ => false,
    }
}

/// Formats node `n` the way `how` says.
pub open spec fn fmt(s: FmtState, t: SyntaxTree, n: int, how: How) -> FmtState
    decreases n, how_rank(how), 0int,
{
    match how {
        How::Node => fmt(s, t, n, spec_how_of(node_kind(t, n))),
        How::Walk(r) => walk(s, t, n, r, kids(t, n).len() as int).0,
        How::Block => {
            let s1 = deeper(newline(put(s, "{"@)));
            let s2 = list(s1, t, n, Sel::BlockItems, kids(t, n).len() as int).0;
            let s3 = put_comments(s2, t, closer_from(t, n, SyntaxKind::RBrace, 0, Seq::empty()), true);
            put(put_indent(shallower(s3)), "}"@)
        },
        How::ParamList => put(list(put(s, "("@), t, n, Sel::Params, kids(t, n).len() as int).0, ")"@),
        How::ReturnType => walk(space(put(s, "->"@)), t, n, Walk::ReturnType, kids(t, n).len() as int).0,
        How::VariantField => if has_token(t, n, SyntaxKind::Colon) {
            walk(s, t, n, Walk::Labelled, kids(t, n).len() as int).0
        } else {
            walk(s, t, n, Walk::PositionalField, kids(t, n).len() as int).0
        },
        How::ArgList => put(list(put(s, "("@), t, n, Sel::CommaNodes, kids(t, n).len() as int).0, ")"@),
        How::TypeDef => {
            let s1 = walk(s, t, n, Walk::TypeDefHeader, kids(t, n).len() as int).0;
            if has_token(t, n, SyntaxKind::LBrace) {
                let s2 = deeper(newline(put(space(s1), "{"@)));
                let sel = if !has_node(t, n, SyntaxKind::Variant) && has_node(t, n, SyntaxKind::Field) {
                    Sel::RecordBody
                } else {
                    Sel::VariantBody
                };
                let s3 = list(s2, t, n, sel, kids(t, n).len() as int).0;
                put(put_indent(shallower(s3)), "}"@)
            } else {
                s1
            }
        },
        How::Paren => put(list(put(s, "("@), t, n, Sel::AllNodes, kids(t, n).len() as int).0, ")"@),
        How::Try => list(space(put(s, "try"@)), t, n, Sel::AllNodes, kids(t, n).len() as int).0,
        How::ListExpr => put(list(put(s, "["@), t, n, Sel::CommaNodes, kids(t, n).len() as int).0, "]"@),
        How::Tuple => put(list(put(s, "#("@), t, n, Sel::CommaNodes, kids(t, n).len() as int).0, ")"@),
        How::Wildcard => put(s, "_"@),
        How::ListPat => put(walk(put(s, "["@), t, n, Walk::ListPat, kids(t, n).len() as int).0, "]"@),
    }
}

/// Formats child node `c` of `n` the way `how` says.
pub open spec fn fmt_child(s: FmtState, t: SyntaxTree, n: int, c: int, how: How) -> FmtState
    decreases n, 0int, 0int,
{
    if 0 <= c < n {
        fmt(s, t, c, how)
    } else {
        s
    }
}

/// The state after rule `r` has read the first `i` children of `n`, with its flag.
pub open spec fn walk(s: FmtState, t: SyntaxTree, n: int, r: Walk, i: int) -> (FmtState, bool)
    decreases n, 5int, i,
{
    if i <= 0 || i > kids(t, n).len() {
        (s, walk_start(r))
    } else {
        let (s1, flag) = walk(s, t, n, r, i - 1);
        step(s1, t, n, r, kids(t, n)[i - 1], flag)
    }
}

/// Writes `text` then a space.
pub open spec fn word(s: FmtState, text: Seq<char>) -> FmtState {
    space(put(s, text))
}

/// What rule `r` writes for child `e` of `n`, and its next flag.
pub open spec fn step(s: FmtState, t: SyntaxTree, n: int, r: Walk, e: Elem, flag: bool) -> (FmtState, bool)
    decreases n, 4int, 0int,
{
    match e {
        Elem::Token(k) => {
            let kind = tok_kind(t, k as int);
            if kind.spec_is_trivia() {
                if (r == Walk::Pipeline || r == Walk::Concat) && kind == SyntaxKind::Newline {
                    (s, true)
                } else {
                    (s, flag)
                }
            } else {
                step_tok(s, t, n, r, k as int, flag)
            }
        },
        Elem::Node(c) => step_nd(s, t, n, r, c as int, flag),
    }
}

/// What rule `r` writes for the non-trivia token `k`, a child of `n`.
pub open spec fn step_tok(s: FmtState, t: SyntaxTree, n: int, r: Walk, k: int, flag: bool) -> (FmtState, bool)
    decreases n, 3int, 0int,
{
    let kind = tok_kind(t, k);
    let text = tok_text(t, k);
    match r {
        Walk::Verbatim | Walk::Tokens | Walk::Call | Walk::MatchArm | Walk::Guard => {
            if r == Walk::Guard && kind == SyntaxKind::IfKw {
                (word(s, "if"@), flag)
            } else if r == Walk::MatchArm && kind == SyntaxKind::Arrow {
                (word(space(s), "->"@), flag)
            } else {
                (put(s, text), flag)
            }
        },
        Walk::FnDef => if kind == SyntaxKind::FnKw {
            (word(s, "fn"@), true)
        } else if kind == SyntaxKind::Ident && !flag {
            (space(put(s, text)), flag)
        } else {
            (put(s, text), flag)
        },
        Walk::Labelled => if kind == SyntaxKind::Ident && !flag {
            (put(s, text), true)
        } else if kind == SyntaxKind::Colon {
            (word(s, ":"@), flag)
        } else {
            (s, flag)
        },
        Walk::TypeExpr => if kind == SyntaxKind::Ident && !flag {
            (put(s, text), true)
        } else if kind == SyntaxKind::LParen {
            (put(s, "("@), flag)
        } else if kind == SyntaxKind::RParen {
            (put(s, ")"@), flag)
        } else if kind == SyntaxKind::Comma {
            (word(s, ","@), flag)
        } else {
            (s, flag)
        },
        Walk::TypeDefHeader => if kind == SyntaxKind::TypeKw {
            (word(s, "type"@), flag)
        } else if kind == SyntaxKind::Ident {
            (put(s, text), flag)
        } else if kind == SyntaxKind::LParen {
            (put(s, "("@), flag)
        } else if kind == SyntaxKind::RParen {
            (put(s, ")"@), flag)
        } else if kind == SyntaxKind::Comma {
            (word(s, ","@), flag)
        } else {
            (s, flag)
        },
        Walk::FirstIdent => if kind == SyntaxKind::Ident && !flag {
            (put(s, text), true)
        } else {
            (s, flag)
        },
        Walk::Variant => if kind == SyntaxKind::Ident && !flag {
            (put(s, text), true)
        } else if kind == SyntaxKind::LParen {
            (list(put(s, "("@), t, n, Sel::Fields, kids(t, n).len() as int).0, flag)
        } else if kind == SyntaxKind::RParen {
            (put(s, ")"@), flag)
        } else {
            (s, flag)
        },
        Walk::Import | Walk::FromImport => if kind == SyntaxKind::ImportKw {
            (word(s, "import"@), flag)
        } else if kind == SyntaxKind::Ident {
            (put(s, text), flag)
        } else if kind == SyntaxKind::AsKw {
            (word(space(s), "as"@), flag)
        } else if r == Walk::Import && kind == SyntaxKind::Dot {
            (put(s, "."@), flag)
        } else if r == Walk::FromImport && kind == SyntaxKind::FromKw {
            (word(s, "from"@), flag)
        } else if r == Walk::FromImport && kind == SyntaxKind::PythonKw {
            (word(s, "python"@), flag)
        } else {
            (s, flag)
        },
        Walk::Let => if kind == SyntaxKind::LetKw {
            (word(s, "let"@), flag)
        } else if kind == SyntaxKind::Ident {
            (put(s, text), flag)
        } else if kind == SyntaxKind::Eq {
            (word(space(s), "="@), flag)
        } else {
            (s, flag)
        },
        Walk::Pipeline | Walk::Concat => if kind == SyntaxKind::Pipe || kind
            == SyntaxKind::StringConcat {
            let op = if r == Walk::Pipeline { "|>"@ } else { "<>"@ };
            if flag {
                (word(put_indent(newline(s)), op), false)
            } else {
                (word(space(s), op), false)
            }
        } else {
            (put(s, text), false)
        },
        Walk::Binary => if spec_is_binary_operator(kind) {
            (space(put(space(s), text)), true)
        } else if flag {
            (put(space(s), text), true)
        } else {
            (put(s, text), true)
        },
        Walk::FieldAccess => if kind == SyntaxKind::Dot {
            (put(s, "."@), flag)
        } else if kind == SyntaxKind::Ident {
            (put(s, text), flag)
        } else {
            (s, flag)
        },
        Walk::If => if kind == SyntaxKind::IfKw {
            (word(s, "if"@), flag)
        } else if kind == SyntaxKind::ElseKw {
            (word(space(s), "else"@), flag)
        } else {
            (s, flag)
        },
        Walk::Match => if kind == SyntaxKind::MatchKw {
            (word(s, "match"@), flag)
        } else if kind == SyntaxKind::LBrace {
            let s1 = deeper(newline(put(space(s), "{"@)));
            let s2 = list(s1, t, n, Sel::Arms, kids(t, n).len() as int).0;
            let s3 = put_comments(s2, t, closer_from(t, n, SyntaxKind::RBrace, 0, Seq::empty()), true);
            (put_indent(shallower(s3)), flag)
        } else if kind == SyntaxKind::RBrace {
            (put(s, "}"@), flag)
        } else {
            (s, flag)
        },
        Walk::Lambda => if kind == SyntaxKind::FnKw {
            (put(s, "fn"@), flag)
        } else {
            (s, flag)
        },
        Walk::ConstructorPat => if kind == SyntaxKind::Ident && !flag {
            (put(s, text), true)
        } else if kind == SyntaxKind::LParen {
            (list(put(s, "("@), t, n, Sel::Patterns, kids(t, n).len() as int).0, flag)
        } else if kind == SyntaxKind::RParen {
            (put(s, ")"@), flag)
        } else {
            (s, flag)
        },
        Walk::ListPat => if kind == SyntaxKind::Comma {
            (word(s, ","@), false)
        } else if kind == SyntaxKind::DotDot {
            (put(if !flag { word(s, ","@) } else { s }, ".."@), flag)
        } else if kind == SyntaxKind::Ident {
            (put(s, text), flag)
        } else {
            (s, flag)
        },
        Walk::ReturnType | Walk::PositionalField => (s, flag),
    }
}

/// What rule `r` writes for child node `c` of `n`.
pub open spec fn step_nd(s: FmtState, t: SyntaxTree, n: int, r: Walk, c: int, flag: bool) -> (FmtState, bool)
    decreases n, 3int, 0int,
{
    let kind = node_kind(t, c);
    match r {
        Walk::Verbatim | Walk::Let | Walk::Guard | Walk::FieldAccess => (
            fmt_child(s, t, n, c, How::Node),
            flag,
        ),
        Walk::Tokens | Walk::FirstIdent | Walk::Import | Walk::FromImport => (s, flag),
        Walk::FnDef => if kind == SyntaxKind::Visibility {
            (word(s, "pub"@), flag)
        } else if kind == SyntaxKind::ParamList {
            (fmt_child(s, t, n, c, How::ParamList), flag)
        } else if kind == SyntaxKind::ReturnType {
            (fmt_child(space(s), t, n, c, How::ReturnType), flag)
        } else if kind == SyntaxKind::BlockExpr {
            (fmt_child(space(s), t, n, c, How::Block), flag)
        } else {
            (fmt_child(s, t, n, c, How::Node), flag)
        },
        Walk::Labelled | Walk::TypeExpr | Walk::PositionalField => if kind == SyntaxKind::TypeExpr {
            (fmt_child(s, t, n, c, How::Walk(Walk::TypeExpr)), flag)
        } else {
            (s, flag)
        },
        Walk::ReturnType => if kind == SyntaxKind::TypeExpr && !flag {
            (fmt_child(s, t, n, c, How::Walk(Walk::TypeExpr)), true)
        } else {
            (s, flag)
        },
        Walk::TypeDefHeader => if kind == SyntaxKind::Visibility {
            (word(s, "pub"@), flag)
        } else if kind == SyntaxKind::TypeParam {
            (fmt_child(s, t, n, c, How::Walk(Walk::FirstIdent)), flag)
        } else {
            (s, flag)
        },
        Walk::Variant => (s, flag),
        Walk::Call => if kind == SyntaxKind::ArgList {
            (fmt_child(s, t, n, c, How::ArgList), flag)
        } else {
            (fmt_child(s, t, n, c, How::Node), flag)
        },
        Walk::Pipeline | Walk::Concat => (fmt_child(s, t, n, c, How::Node), false),
        Walk::Binary => (fmt_child(s, t, n, c, How::Node), true),
        Walk::If => if kind == SyntaxKind::BlockExpr {
            (fmt_child(space(s), t, n, c, How::Block), flag)
        } else if kind == SyntaxKind::IfExpr {
            (fmt_child(s, t, n, c, How::Walk(Walk::If)), flag)
        } else {
            (fmt_child(s, t, n, c, How::Node), flag)
        },
        Walk::Match => if kind == SyntaxKind::MatchArm {
            (s, flag)
        } else {
            (fmt_child(s, t, n, c, How::Node), flag)
        },
        Walk::MatchArm => if kind == SyntaxKind::Guard {
            (fmt_child(space(s), t, n, c, How::Walk(Walk::Guard)), flag)
        } else {
            (fmt_child(s, t, n, c, How::Node), flag)
        },
        Walk::Lambda => if kind == SyntaxKind::ParamList {
            (fmt_child(s, t, n, c, How::ParamList), flag)
        } else if kind == SyntaxKind::ReturnType {
            (fmt_child(space(s), t, n, c, How::ReturnType), flag)
        } else if kind == SyntaxKind::BlockExpr {
            (fmt_child(space(s), t, n, c, How::Block), flag)
        } else {
            (s, flag)
        },
        Walk::ConstructorPat => if has_token(t, n, SyntaxKind::LParen) {
            (s, flag)
        } else {
            (fmt_child(s, t, n, c, How::Node), flag)
        },
        Walk::ListPat => (fmt_child(s, t, n, c, How::Node), false),
    }
}

/// Whether list `sel` takes child `e`.
pub open spec fn selects(t: SyntaxTree, sel: Sel, e: Elem) -> bool {
    match e {
        Elem::Token(_) => false,
        Elem::Node(c) => {
            let kind = node_kind(t, c as int);
            match sel {
                Sel::CommaNodes | Sel::AllNodes | Sel::BlockItems => true,
                Sel::Params => kind == SyntaxKind::Param,
                Sel::Fields | Sel::RecordBody => kind == SyntaxKind::Field,
                Sel::Patterns => is_pattern_kind(kind),
                Sel::Arms => kind == SyntaxKind::MatchArm,
                Sel::VariantBody => kind == SyntaxKind::Variant,
            }
        },
    }
}

/// The state after list `sel` has read the first `i` children of `n`, and
/// whether it took one.
pub open spec fn list(s: FmtState, t: SyntaxTree, n: int, sel: Sel, i: int) -> (FmtState, bool)
    decreases n, 2int, i,
{
    if i <= 0 || i > kids(t, n).len() {
        (s, false)
    } else {
        let (s1, any) = list(s, t, n, sel, i - 1);
        let e = kids(t, n)[i - 1];
        if selects(t, sel, e) {
            (item(s1, t, n, e->Node_0 as int, sel, any), true)
        } else {
            (s1, any)
        }
    }
}

/// Writes child node `c` of `n` as an item of list `sel`; `any` says
/// whether an item came before.
pub open spec fn item(s: FmtState, t: SyntaxTree, n: int, c: int, sel: Sel, any: bool) -> FmtState
    decreases n, 1int, 0int,
{
    let sep = if any { word(s, ","@) } else { s };
    match sel {
        Sel::CommaNodes | Sel::Patterns => fmt_child(sep, t, n, c, How::Node),
        Sel::AllNodes => fmt_child(s, t, n, c, How::Node),
        Sel::Params => fmt_child(sep, t, n, c, How::Walk(Walk::Labelled)),
        Sel::Fields => fmt_child(sep, t, n, c, How::VariantField),
        Sel::BlockItems => {
            let s1 = put_indent(put_comments(s, t, leading_comments(t, c), true));
            newline(fmt_child(s1, t, n, c, How::Node))
        },
        Sel::Arms => {
            let s1 = put_indent(put_comments(s, t, leading_comments(t, c), true));
            newline(fmt_child(s1, t, n, c, How::Walk(Walk::MatchArm)))
        },
        Sel::RecordBody => newline(fmt_child(put_indent(s), t, n, c, How::Walk(Walk::Labelled))),
        Sel::VariantBody => newline(fmt_child(put_indent(s), t, n, c, How::Walk(Walk::Variant))),
    }
}

// ── The source file ─────────────────────────────────────────────

/// The state after the first `i` children of the source file node `n`:
/// each item other than an error node, after an empty line when an item came
/// before, and after its leading comments. Also whether an item was written.
pub open spec fn src_items(s: FmtState, t: SyntaxTree, n: int, i: int) -> (FmtState, bool)
    decreases i,
{
    if i <= 0 || i > kids(t, n).len() {
        (s, false)
    } else {
        let (s1, any) = src_items(s, t, n, i - 1);
        match kids(t, n)[i - 1] {
            Elem::Node(c) => if node_kind(t, c as int) != SyntaxKind::NodeError {
                let s2 = if any { blank_line(s1) } else { s1 };
                let s3 = put_comments(s2, t, leading_comments(t, c as int), false);
                (fmt(s3, t, c as int, How::Node), true)
            } else {
                (s1, any)
            },
            Elem::Token(_) => (s1, any),
        }
    }
}

/// The formatted text of the source file node `n`: its items, then the
/// comments after the last of them, then a final newline if none ends it.
pub open spec fn fmt_source_file(s: FmtState, t: SyntaxTree, n: int) -> FmtState {
    let (s1, any) = src_items(s, t, n, kids(t, n).len() as int);
    let tc = trail_from(t, n, 0, Seq::empty());
    let s2 = if tc.len() > 0 {
        put_comments(if any { blank_line(s1) } else { s1 }, t, tc, false)
    } else {
        s1
    };
    end_line(s2)
}

/// The canonical text of a tree.
pub open spec fn format_tree(t: SyntaxTree) -> Seq<char> {
    fmt_source_file(initial(), t, t.root as int).out
}

} // verus!
