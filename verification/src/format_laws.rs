//! What the canonical layout keeps: text once written is never taken
//! back, so the comments written before and between top-level items, and
//! after the last one, all appear in the formatted text; and wherever a
//! block or a match is formatted, the comments before its items or arms and
//! before its closing brace appear in what is written.
use crate::format_spec::{
    blank_line, closer_from, deeper, end_line, fmt, fmt_child, fmt_source_file, format_tree, how_rank, initial,
    item, kids, leading_comments, list, newline, node_kind, put, put_comments, put_indent, shallower, space,
    spec_how_of, spec_is_binary_operator, src_items, step, step_nd, step_tok, tok_kind, tok_text, trail_from, walk, word, FmtState, How, Sel,
    Walk,
};
use crate::syntax_kind::SyntaxKind;
use crate::tree::{Elem, SyntaxTree};
use vstd::prelude::*;

verus! {

/// `b` starts with `a`.
pub open spec fn grows(a: Seq<char>, b: Seq<char>) -> bool {
    a.len() <= b.len() && forall|i: int| 0 <= i < a.len() ==> #[trigger] b[i] == a[i]
}

/// `x` stands in `out` at position `p`.
pub open spec fn occurs_at(out: Seq<char>, p: int, x: Seq<char>) -> bool {
    0 <= p && p + x.len() <= out.len() && out.subrange(p, p + x.len()) == x
}

proof fn lemma_occurs_grows(a: Seq<char>, b: Seq<char>, p: int, x: Seq<char>)
    requires
        grows(a, b),
        occurs_at(a, p, x),
    ensures
        occurs_at(b, p, x),
{
    assert(b.subrange(p, p + x.len()) =~= a.subrange(p, p + x.len()));
}

proof fn lemma_put_grows(s: FmtState, x: Seq<char>)
    ensures
        grows(s.out, put(s, x).out),
{
}

proof fn lemma_put_comments_grows(s: FmtState, t: SyntaxTree, ks: Seq<int>, indented: bool)
    ensures
        grows(s.out, put_comments(s, t, ks, indented).out),
    decreases ks.len(),
{
    if ks.len() > 0 {
        lemma_put_comments_grows(s, t, ks.drop_last(), indented);
    }
}

proof fn lemma_fmt_grows(s: FmtState, t: SyntaxTree, n: int, how: How)
    ensures
        grows(s.out, fmt(s, t, n, how).out),
    decreases n, how_rank(how), 0int,
{
    let len = kids(t, n).len() as int;
    match how {
        How::Node => {
            lemma_fmt_grows(s, t, n, spec_how_of(node_kind(t, n)));
        },
        How::Walk(r) => {
            lemma_walk_grows(s, t, n, r, len);
        },
        How::Block => {
            let s1 = deeper(newline(put(s, "{"@)));
            lemma_list_grows(s1, t, n, Sel::BlockItems, len);
            let s2 = list(s1, t, n, Sel::BlockItems, len).0;
            lemma_put_comments_grows(s2, t, closer_from(t, n, SyntaxKind::RBrace, 0, Seq::empty()), true);
        },
        How::ParamList => {
            lemma_list_grows(put(s, "("@), t, n, Sel::Params, len);
        },
        How::ReturnType => {
            lemma_walk_grows(space(put(s, "->"@)), t, n, Walk::ReturnType, len);
        },
        How::VariantField => {
            lemma_walk_grows(s, t, n, Walk::Labelled, len);
            lemma_walk_grows(s, t, n, Walk::PositionalField, len);
        },
        How::ArgList => {
            lemma_list_grows(put(s, "("@), t, n, Sel::CommaNodes, len);
        },
        How::TypeDef => {
            lemma_walk_grows(s, t, n, Walk::TypeDefHeader, len);
            let s1 = walk(s, t, n, Walk::TypeDefHeader, len).0;
            let s2 = deeper(newline(put(space(s1), "{"@)));
            lemma_list_grows(s2, t, n, Sel::RecordBody, len);
            lemma_list_grows(s2, t, n, Sel::VariantBody, len);
        },
        How::Paren => {
            lemma_list_grows(put(s, "("@), t, n, Sel::AllNodes, len);
        },
        How::Try => {
            lemma_list_grows(space(put(s, "try"@)), t, n, Sel::AllNodes, len);
        },
        How::ListExpr => {
            lemma_list_grows(put(s, "["@), t, n, Sel::CommaNodes, len);
        },
        How::Tuple => {
            lemma_list_grows(put(s, "#("@), t, n, Sel::CommaNodes, len);
        },
        How::Wildcard => {},
        How::ListPat => {
            lemma_walk_grows(put(s, "["@), t, n, Walk::ListPat, len);
        },
    }
}

proof fn lemma_fmt_child_grows(s: FmtState, t: SyntaxTree, n: int, c: int, how: How)
    ensures
        grows(s.out, fmt_child(s, t, n, c, how).out),
    decreases n, 0int, 0int,
{
    if 0 <= c < n {
        lemma_fmt_grows(s, t, c, how);
    }
}

proof fn lemma_walk_grows(s: FmtState, t: SyntaxTree, n: int, r: Walk, i: int)
    ensures
        grows(s.out, walk(s, t, n, r, i).0.out),
    decreases n, 5int, i,
{
    if 0 < i <= kids(t, n).len() {
        lemma_walk_grows(s, t, n, r, i - 1);
        let (s1, flag) = walk(s, t, n, r, i - 1);
        lemma_step_grows(s1, t, n, r, kids(t, n)[i - 1], flag);
    }
}

proof fn lemma_step_grows(s: FmtState, t: SyntaxTree, n: int, r: Walk, e: Elem, flag: bool)
    ensures
        grows(s.out, step(s, t, n, r, e, flag).0.out),
    decreases n, 4int, 0int,
{
    match e {
        Elem::Token(k) => {
            lemma_step_tok_grows(s, t, n, r, k as int, flag);
        },
        Elem::Node(c) => {
            lemma_step_nd_grows(s, t, n, r, c as int, flag);
        },
    }
}

#[verifier::spinoff_prover]
#[verifier::rlimit(60)]
proof fn lemma_step_tok_grows(s: FmtState, t: SyntaxTree, n: int, r: Walk, k: int, flag: bool)
    ensures
        grows(s.out, step_tok(s, t, n, r, k, flag).0.out),
    decreases n, 3int, 0int,
{
    let len = kids(t, n).len() as int;
    match r {
        Walk::Variant => {
            lemma_list_grows(put(s, "("@), t, n, Sel::Fields, len);
        },
        Walk::Match => {
            let s1 = deeper(newline(put(space(s), "{"@)));
            lemma_list_grows(s1, t, n, Sel::Arms, len);
            let s2 = list(s1, t, n, Sel::Arms, len).0;
            lemma_put_comments_grows(s2, t, closer_from(t, n, SyntaxKind::RBrace, 0, Seq::empty()), true);
        },
        Walk::ConstructorPat => {
            lemma_list_grows(put(s, "("@), t, n, Sel::Patterns, len);
        },
        Walk::Pipeline | Walk::Concat => {
            let op = if r == Walk::Pipeline {
                "|>"@
            } else {
                "<>"@
            };
            lemma_put_grows(put_indent(newline(s)), op);
            lemma_put_grows(space(s), op);
        },
        Walk::Verbatim => {
            assert(grows(s.out, step_tok(s, t, n, r, k, flag).0.out));
        },
        Walk::Tokens => {
            assert(grows(s.out, step_tok(s, t, n, r, k, flag).0.out));
        },
        Walk::Call => {
            assert(grows(s.out, step_tok(s, t, n, r, k, flag).0.out));
        },
        Walk::MatchArm => {
            assert(grows(s.out, step_tok(s, t, n, r, k, flag).0.out));
        },
        Walk::Guard => {
            assert(grows(s.out, step_tok(s, t, n, r, k, flag).0.out));
        },
        Walk::FnDef => {
            assert(grows(s.out, step_tok(s, t, n, r, k, flag).0.out));
        },
        Walk::Labelled => {
            assert(grows(s.out, step_tok(s, t, n, r, k, flag).0.out));
        },
        Walk::TypeExpr => {
            assert(grows(s.out, step_tok(s, t, n, r, k, flag).0.out));
        },
        Walk::TypeDefHeader => {
            assert(grows(s.out, step_tok(s, t, n, r, k, flag).0.out));
        },
        Walk::FirstIdent => {
            assert(grows(s.out, step_tok(s, t, n, r, k, flag).0.out));
        },
        Walk::Import => {
            assert(grows(s.out, step_tok(s, t, n, r, k, flag).0.out));
        },
        Walk::FromImport => {
            assert(grows(s.out, step_tok(s, t, n, r, k, flag).0.out));
        },
        Walk::Let => {
            assert(grows(s.out, step_tok(s, t, n, r, k, flag).0.out));
        },
        Walk::Binary => {
            assert(grows(s.out, step_tok(s, t, n, r, k, flag).0.out));
        },
        Walk::FieldAccess => {
            assert(grows(s.out, step_tok(s, t, n, r, k, flag).0.out));
        },
        Walk::If => {
            assert(grows(s.out, step_tok(s, t, n, r, k, flag).0.out));
        },
        Walk::Lambda => {
            assert(grows(s.out, step_tok(s, t, n, r, k, flag).0.out));
        },
        Walk::ListPat => {
            assert(grows(s.out, step_tok(s, t, n, r, k, flag).0.out));
        },
        Walk::ReturnType => {
            assert(grows(s.out, step_tok(s, t, n, r, k, flag).0.out));
        },
        Walk::PositionalField => {
            assert(grows(s.out, step_tok(s, t, n, r, k, flag).0.out));
        },
    }
}

proof fn lemma_step_nd_grows(s: FmtState, t: SyntaxTree, n: int, r: Walk, c: int, flag: bool)
    ensures
        grows(s.out, step_nd(s, t, n, r, c, flag).0.out),
    decreases n, 3int, 0int,
{
    lemma_fmt_child_grows(s, t, n, c, How::Node);
    lemma_fmt_child_grows(s, t, n, c, How::ParamList);
    lemma_fmt_child_grows(space(s), t, n, c, How::ReturnType);
    lemma_fmt_child_grows(space(s), t, n, c, How::Block);
    lemma_fmt_child_grows(s, t, n, c, How::Walk(Walk::TypeExpr));
    lemma_fmt_child_grows(s, t, n, c, How::Walk(Walk::FirstIdent));
    lemma_fmt_child_grows(s, t, n, c, How::ArgList);
    lemma_fmt_child_grows(s, t, n, c, How::Walk(Walk::If));
    lemma_fmt_child_grows(space(s), t, n, c, How::Walk(Walk::Guard));
}

proof fn lemma_list_grows(s: FmtState, t: SyntaxTree, n: int, sel: Sel, i: int)
    ensures
        grows(s.out, list(s, t, n, sel, i).0.out),
    decreases n, 2int, i,
{
    if 0 < i <= kids(t, n).len() {
        lemma_list_grows(s, t, n, sel, i - 1);
        let (s1, any) = list(s, t, n, sel, i - 1);
        let e = kids(t, n)[i - 1];
        if e is Node {
            lemma_item_grows(s1, t, n, e->Node_0 as int, sel, any);
        }
    }
}

proof fn lemma_item_grows(s: FmtState, t: SyntaxTree, n: int, c: int, sel: Sel, any: bool)
    ensures
        grows(s.out, item(s, t, n, c, sel, any).out),
    decreases n, 1int, 0int,
{
    let sep = if any {
        word(s, ","@)
    } else {
        s
    };
    match sel {
        Sel::CommaNodes | Sel::Patterns => {
            lemma_fmt_child_grows(sep, t, n, c, How::Node);
        },
        Sel::AllNodes => {
            lemma_fmt_child_grows(s, t, n, c, How::Node);
        },
        Sel::Params => {
            lemma_fmt_child_grows(sep, t, n, c, How::Walk(Walk::Labelled));
        },
        Sel::Fields => {
            lemma_fmt_child_grows(sep, t, n, c, How::VariantField);
        },
        Sel::BlockItems => {
            lemma_put_comments_grows(s, t, leading_comments(t, c), true);
            let s1 = put_indent(put_comments(s, t, leading_comments(t, c), true));
            lemma_fmt_child_grows(s1, t, n, c, How::Node);
        },
        Sel::Arms => {
            lemma_put_comments_grows(s, t, leading_comments(t, c), true);
            let s1 = put_indent(put_comments(s, t, leading_comments(t, c), true));
            lemma_fmt_child_grows(s1, t, n, c, How::Walk(Walk::MatchArm));
        },
        Sel::RecordBody => {
            lemma_fmt_child_grows(put_indent(s), t, n, c, How::Walk(Walk::Labelled));
        },
        Sel::VariantBody => {
            lemma_fmt_child_grows(put_indent(s), t, n, c, How::Walk(Walk::Variant));
        },
    }
}

proof fn lemma_put_comments_writes(s: FmtState, t: SyntaxTree, ks: Seq<int>, indented: bool, j: int)
    requires
        0 <= j < ks.len(),
    ensures
        exists|p: int| occurs_at(put_comments(s, t, ks, indented).out, p, tok_text(t, ks[j])),
    decreases ks.len(),
{
    let s1 = put_comments(s, t, ks.drop_last(), indented);
    let s2 = if indented {
        put_indent(s1)
    } else {
        s1
    };
    let x = tok_text(t, ks.last());
    let out = put_comments(s, t, ks, indented).out;
    if j == ks.len() - 1 {
        if x.len() == 0 {
            assert(occurs_at(out, 0, x)) by {
                assert(out.subrange(0, 0) =~= x);
            }
        } else {
            let p = s2.out.len() as int;
            assert(out =~= s2.out + x + "\n"@);
            assert(occurs_at(out, p, x)) by {
                assert(out.subrange(p, p + x.len()) =~= x);
            }
        }
    } else {
        lemma_put_comments_writes(s, t, ks.drop_last(), indented, j);
        let p = choose|p: int| occurs_at(s1.out, p, tok_text(t, ks.drop_last()[j]));
        assert(grows(s1.out, out));
        lemma_occurs_grows(s1.out, out, p, tok_text(t, ks[j]));
    }
}

proof fn lemma_src_items_grows(s: FmtState, t: SyntaxTree, n: int, i: int)
    requires
        0 < i <= kids(t, n).len(),
    ensures
        grows(src_items(s, t, n, i - 1).0.out, src_items(s, t, n, i).0.out),
{
    let (s1, any) = src_items(s, t, n, i - 1);
    match kids(t, n)[i - 1] {
        Elem::Node(c) => {
            if node_kind(t, c as int) != SyntaxKind::NodeError {
                let s2 = if any {
                    blank_line(s1)
                } else {
                    s1
                };
                lemma_put_comments_grows(s2, t, leading_comments(t, c as int), false);
                let s3 = put_comments(s2, t, leading_comments(t, c as int), false);
                lemma_fmt_grows(s3, t, c as int, How::Node);
            }
        },
        Elem::Token(_) => {},
    }
}

proof fn lemma_src_items_keeps(s: FmtState, t: SyntaxTree, n: int, i: int, m: int, c: usize, j: int)
    requires
        0 <= m < i <= kids(t, n).len(),
        kids(t, n)[m] == Elem::Node(c),
        node_kind(t, c as int) != SyntaxKind::NodeError,
        0 <= j < leading_comments(t, c as int).len(),
    ensures
        exists|p: int| occurs_at(src_items(s, t, n, i).0.out, p, tok_text(t, leading_comments(t, c as int)[j])),
    decreases i,
{
    let x = tok_text(t, leading_comments(t, c as int)[j]);
    let out = src_items(s, t, n, i).0.out;
    if m == i - 1 {
        let (s1, any) = src_items(s, t, n, i - 1);
        let s2 = if any {
            blank_line(s1)
        } else {
            s1
        };
        lemma_put_comments_writes(s2, t, leading_comments(t, c as int), false, j);
        let s3 = put_comments(s2, t, leading_comments(t, c as int), false);
        let p = choose|p: int| occurs_at(s3.out, p, x);
        lemma_fmt_grows(s3, t, c as int, How::Node);
        lemma_occurs_grows(s3.out, out, p, x);
    } else {
        lemma_src_items_keeps(s, t, n, i - 1, m, c, j);
        let before = src_items(s, t, n, i - 1).0.out;
        let p = choose|p: int| occurs_at(before, p, x);
        lemma_src_items_grows(s, t, n, i);
        lemma_occurs_grows(before, out, p, x);
    }
}

proof fn lemma_source_file_grows(s: FmtState, t: SyntaxTree, n: int)
    ensures
        grows(src_items(s, t, n, kids(t, n).len() as int).0.out, fmt_source_file(s, t, n).out),
{
    let (s1, any) = src_items(s, t, n, kids(t, n).len() as int);
    let tc = trail_from(t, n, 0, Seq::empty());
    let s0 = if any {
        blank_line(s1)
    } else {
        s1
    };
    lemma_put_comments_grows(s0, t, tc, false);
}

/// Formatting keeps the comments that lead a top-level item: each comment
/// before an item other than an error node appears in the formatted text.
pub proof fn lemma_format_keeps_item_comments(t: SyntaxTree, m: int, c: usize, j: int)
    requires
        0 <= m < kids(t, t.root as int).len(),
        kids(t, t.root as int)[m] == Elem::Node(c),
        node_kind(t, c as int) != SyntaxKind::NodeError,
        0 <= j < leading_comments(t, c as int).len(),
    ensures
        exists|p: int| occurs_at(format_tree(t), p, tok_text(t, leading_comments(t, c as int)[j])),
{
    let n = t.root as int;
    let x = tok_text(t, leading_comments(t, c as int)[j]);
    lemma_src_items_keeps(initial(), t, n, kids(t, n).len() as int, m, c, j);
    let items = src_items(initial(), t, n, kids(t, n).len() as int).0.out;
    let p = choose|p: int| occurs_at(items, p, x);
    lemma_source_file_grows(initial(), t, n);
    lemma_occurs_grows(items, format_tree(t), p, x);
}

/// Formatting keeps the comments after the last top-level item: each of
/// them appears in the formatted text.
pub proof fn lemma_format_keeps_trailing_comments(t: SyntaxTree, j: int)
    requires
        0 <= j < trail_from(t, t.root as int, 0, Seq::empty()).len(),
    ensures
        exists|p: int| occurs_at(format_tree(t), p, tok_text(t, trail_from(t, t.root as int, 0, Seq::empty())[j])),
{
    let n = t.root as int;
    let (s1, any) = src_items(initial(), t, n, kids(t, n).len() as int);
    let tc = trail_from(t, n, 0, Seq::empty());
    let s0 = if any {
        blank_line(s1)
    } else {
        s1
    };
    lemma_put_comments_writes(s0, t, tc, false, j);
    let s2 = put_comments(s0, t, tc, false);
    let x = tok_text(t, tc[j]);
    let p = choose|p: int| occurs_at(s2.out, p, x);
    assert(fmt_source_file(initial(), t, n) == end_line(s2));
    lemma_occurs_grows(s2.out, end_line(s2).out, p, x);
    assert(occurs_at(format_tree(t), p, x));
}

proof fn lemma_list_keeps(s: FmtState, t: SyntaxTree, n: int, i: int, m: int, c: usize, j: int)
    requires
        0 <= m < i <= kids(t, n).len(),
        kids(t, n)[m] == Elem::Node(c),
        0 <= j < leading_comments(t, c as int).len(),
    ensures
        exists|p: int|
            occurs_at(list(s, t, n, Sel::BlockItems, i).0.out, p, tok_text(t, leading_comments(t, c as int)[j])),
    decreases i,
{
    let x = tok_text(t, leading_comments(t, c as int)[j]);
    let out = list(s, t, n, Sel::BlockItems, i).0.out;
    let (s1, any) = list(s, t, n, Sel::BlockItems, i - 1);
    if m == i - 1 {
        lemma_put_comments_writes(s1, t, leading_comments(t, c as int), true, j);
        let s2 = put_comments(s1, t, leading_comments(t, c as int), true);
        let p = choose|p: int| occurs_at(s2.out, p, x);
        lemma_fmt_child_grows(put_indent(s2), t, n, c as int, How::Node);
        assert(crate::format_spec::selects(t, Sel::BlockItems, kids(t, n)[i - 1]));
        assert(list(s, t, n, Sel::BlockItems, i).0 == item(s1, t, n, c as int, Sel::BlockItems, any));
        assert(out == newline(fmt_child(put_indent(s2), t, n, c as int, How::Node)).out);
        lemma_occurs_grows(s2.out, out, p, x);
    } else {
        lemma_list_keeps(s, t, n, i - 1, m, c, j);
        let p = choose|p: int| occurs_at(s1.out, p, x);
        lemma_list_grows(s, t, n, Sel::BlockItems, i);
        let e = kids(t, n)[i - 1];
        if e is Node {
            lemma_item_grows(s1, t, n, e->Node_0 as int, Sel::BlockItems, any);
        }
        lemma_occurs_grows(s1.out, out, p, x);
    }
}

proof fn lemma_fn_walk_keeps(s: FmtState, t: SyntaxTree, f: int, i: int, q: int, b: usize, r: int, c: usize, j: int)
    requires
        0 <= q < i <= kids(t, f).len(),
        kids(t, f)[q] == Elem::Node(b),
        node_kind(t, b as int) == SyntaxKind::BlockExpr,
        0 <= b < f,
        0 <= r < kids(t, b as int).len(),
        kids(t, b as int)[r] == Elem::Node(c),
        0 <= j < leading_comments(t, c as int).len(),
    ensures
        exists|p: int| occurs_at(walk(s, t, f, Walk::FnDef, i).0.out, p, tok_text(t, leading_comments(t, c as int)[j])),
    decreases i,
{
    let x = tok_text(t, leading_comments(t, c as int)[j]);
    let out = walk(s, t, f, Walk::FnDef, i).0.out;
    let (s1, flag) = walk(s, t, f, Walk::FnDef, i - 1);
    if q == i - 1 {
        let sb = deeper(newline(put(space(s1), "{"@)));
        let nb = kids(t, b as int).len() as int;
        lemma_list_keeps(sb, t, b as int, nb, r, c, j);
        let l = list(sb, t, b as int, Sel::BlockItems, nb).0;
        let p = choose|p: int| occurs_at(l.out, p, x);
        let s3 = put_comments(l, t, closer_from(t, b as int, SyntaxKind::RBrace, 0, Seq::empty()), true);
        lemma_put_comments_grows(l, t, closer_from(t, b as int, SyntaxKind::RBrace, 0, Seq::empty()), true);
        let blk = fmt(space(s1), t, b as int, How::Block);
        assert(blk == put(put_indent(shallower(s3)), "}"@));
        assert(step(s1, t, f, Walk::FnDef, Elem::Node(b), flag).0 == blk);
        assert(grows(l.out, blk.out));
        lemma_occurs_grows(l.out, out, p, x);
    } else {
        lemma_fn_walk_keeps(s, t, f, i - 1, q, b, r, c, j);
        let p = choose|p: int| occurs_at(s1.out, p, x);
        lemma_step_grows(s1, t, f, Walk::FnDef, kids(t, f)[i - 1], flag);
        lemma_occurs_grows(s1.out, out, p, x);
    }
}

/// Formatting keeps the comments inside the bodies of top-level
/// functions: each comment that leads an item of a top-level function's
/// body block appears in the formatted text.
pub proof fn lemma_format_keeps_fn_body_comments(
    t: SyntaxTree,
    m: int,
    f: usize,
    q: int,
    b: usize,
    r: int,
    c: usize,
    j: int,
)
    requires
        t.wf(),
        0 <= m < kids(t, t.root as int).len(),
        kids(t, t.root as int)[m] == Elem::Node(f),
        node_kind(t, f as int) == SyntaxKind::FnDef,
        0 <= q < kids(t, f as int).len(),
        kids(t, f as int)[q] == Elem::Node(b),
        node_kind(t, b as int) == SyntaxKind::BlockExpr,
        0 <= r < kids(t, b as int).len(),
        kids(t, b as int)[r] == Elem::Node(c),
        0 <= j < leading_comments(t, c as int).len(),
    ensures
        exists|p: int| occurs_at(format_tree(t), p, tok_text(t, leading_comments(t, c as int)[j])),
{
    let n = t.root as int;
    let x = tok_text(t, leading_comments(t, c as int)[j]);
    assert(crate::tree::refs_valid(t.node_views()[n].children, n, t.tokens@.len() as int));
    assert(kids(t, n)[m] == Elem::Node(f));
    assert(f < n);
    assert(crate::tree::refs_valid(t.node_views()[f as int].children, f as int, t.tokens@.len() as int));
    assert(kids(t, f as int)[q] == Elem::Node(b));
    assert(b < f);
    let (s1, any) = src_items(initial(), t, n, m);
    let s2 = if any {
        blank_line(s1)
    } else {
        s1
    };
    let s3 = put_comments(s2, t, leading_comments(t, f as int), false);
    lemma_fn_walk_keeps(s3, t, f as int, kids(t, f as int).len() as int, q, b, r, c, j);
    let w = walk(s3, t, f as int, Walk::FnDef, kids(t, f as int).len() as int).0;
    let p = choose|p: int| occurs_at(w.out, p, x);
    assert(spec_how_of(SyntaxKind::FnDef) == How::Walk(Walk::FnDef));
    assert(fmt(s3, t, f as int, How::Walk(Walk::FnDef)) == w);
    assert(fmt(s3, t, f as int, How::Node) == w);
    assert(src_items(initial(), t, n, m + 1).0 == w);
    let total = kids(t, n).len() as int;
    lemma_src_items_grows_to(initial(), t, n, m + 1, total);
    lemma_source_file_grows(initial(), t, n);
    lemma_occurs_grows(w.out, src_items(initial(), t, n, total).0.out, p, x);
    lemma_occurs_grows(src_items(initial(), t, n, total).0.out, format_tree(t), p, x);
}

proof fn lemma_src_items_grows_to(s: FmtState, t: SyntaxTree, n: int, i: int, k: int)
    requires
        0 <= i <= k <= kids(t, n).len(),
    ensures
        grows(src_items(s, t, n, i).0.out, src_items(s, t, n, k).0.out),
    decreases k - i,
{
    if i < k {
        lemma_src_items_grows_to(s, t, n, i, k - 1);
        lemma_src_items_grows(s, t, n, k);
    }
}

proof fn lemma_arms_keeps(s: FmtState, t: SyntaxTree, n: int, i: int, m: int, c: usize, j: int)
    requires
        0 <= m < i <= kids(t, n).len(),
        kids(t, n)[m] == Elem::Node(c),
        node_kind(t, c as int) == SyntaxKind::MatchArm,
        0 <= j < leading_comments(t, c as int).len(),
    ensures
        exists|p: int| occurs_at(list(s, t, n, Sel::Arms, i).0.out, p, tok_text(t, leading_comments(t, c as int)[j])),
    decreases i,
{
    let x = tok_text(t, leading_comments(t, c as int)[j]);
    let out = list(s, t, n, Sel::Arms, i).0.out;
    let (s1, any) = list(s, t, n, Sel::Arms, i - 1);
    if m == i - 1 {
        lemma_put_comments_writes(s1, t, leading_comments(t, c as int), true, j);
        let s2 = put_comments(s1, t, leading_comments(t, c as int), true);
        let p = choose|p: int| occurs_at(s2.out, p, x);
        lemma_fmt_child_grows(put_indent(s2), t, n, c as int, How::Walk(Walk::MatchArm));
        assert(crate::format_spec::selects(t, Sel::Arms, kids(t, n)[i - 1]));
        assert(list(s, t, n, Sel::Arms, i).0 == item(s1, t, n, c as int, Sel::Arms, any));
        assert(out == newline(fmt_child(put_indent(s2), t, n, c as int, How::Walk(Walk::MatchArm))).out);
        lemma_occurs_grows(s2.out, out, p, x);
    } else {
        lemma_arms_keeps(s, t, n, i - 1, m, c, j);
        let p = choose|p: int| occurs_at(s1.out, p, x);
        lemma_list_grows(s, t, n, Sel::Arms, i);
        let e = kids(t, n)[i - 1];
        if e is Node {
            lemma_item_grows(s1, t, n, e->Node_0 as int, Sel::Arms, any);
        }
        lemma_occurs_grows(s1.out, out, p, x);
    }
}

proof fn lemma_walk_grows_to(s: FmtState, t: SyntaxTree, n: int, r: Walk, i: int, k: int)
    requires
        0 <= i <= k <= kids(t, n).len(),
    ensures
        grows(walk(s, t, n, r, i).0.out, walk(s, t, n, r, k).0.out),
    decreases k - i,
{
    if i < k {
        lemma_walk_grows_to(s, t, n, r, i, k - 1);
        let (s1, flag) = walk(s, t, n, r, k - 1);
        lemma_step_grows(s1, t, n, r, kids(t, n)[k - 1], flag);
    }
}

/// Formatting a block keeps the comments that lead its items: wherever a
/// block is formatted, each comment before one of its items appears in
/// what is written.
pub proof fn lemma_format_block_keeps_item_comments(s: FmtState, t: SyntaxTree, b: int, r: int, c: usize, j: int)
    requires
        0 <= r < kids(t, b).len(),
        kids(t, b)[r] == Elem::Node(c),
        0 <= j < leading_comments(t, c as int).len(),
    ensures
        exists|p: int| occurs_at(fmt(s, t, b, How::Block).out, p, tok_text(t, leading_comments(t, c as int)[j])),
{
    let x = tok_text(t, leading_comments(t, c as int)[j]);
    let sb = deeper(newline(put(s, "{"@)));
    let nb = kids(t, b).len() as int;
    lemma_list_keeps(sb, t, b, nb, r, c, j);
    let l = list(sb, t, b, Sel::BlockItems, nb).0;
    let p = choose|p: int| occurs_at(l.out, p, x);
    let closer = closer_from(t, b, SyntaxKind::RBrace, 0, Seq::empty());
    lemma_put_comments_grows(l, t, closer, true);
    let blk = fmt(s, t, b, How::Block);
    assert(blk == put(put_indent(shallower(put_comments(l, t, closer, true))), "}"@));
    assert(grows(l.out, blk.out));
    lemma_occurs_grows(l.out, blk.out, p, x);
}

/// Formatting a block keeps the comments before its closing brace.
pub proof fn lemma_format_block_keeps_closing_comments(s: FmtState, t: SyntaxTree, b: int, j: int)
    requires
        0 <= j < closer_from(t, b, SyntaxKind::RBrace, 0, Seq::empty()).len(),
    ensures
        exists|p: int|
            occurs_at(
                fmt(s, t, b, How::Block).out,
                p,
                tok_text(t, closer_from(t, b, SyntaxKind::RBrace, 0, Seq::empty())[j]),
            ),
{
    let closer = closer_from(t, b, SyntaxKind::RBrace, 0, Seq::empty());
    let x = tok_text(t, closer[j]);
    let sb = deeper(newline(put(s, "{"@)));
    let l = list(sb, t, b, Sel::BlockItems, kids(t, b).len() as int).0;
    lemma_put_comments_writes(l, t, closer, true, j);
    let s3 = put_comments(l, t, closer, true);
    let p = choose|p: int| occurs_at(s3.out, p, x);
    let blk = fmt(s, t, b, How::Block);
    assert(blk == put(put_indent(shallower(s3)), "}"@));
    assert(grows(s3.out, blk.out));
    lemma_occurs_grows(s3.out, blk.out, p, x);
}

/// The state right after the `{` of match node `m`, at child `q`, has
/// been written: the arms, then the comments before `}`.
proof fn lemma_match_brace(s: FmtState, t: SyntaxTree, m: int, q: int, k: usize)
    requires
        node_kind(t, m) == SyntaxKind::MatchExpr,
        0 <= q < kids(t, m).len(),
        kids(t, m)[q] == Elem::Token(k),
        tok_kind(t, k as int) == SyntaxKind::LBrace,
    ensures
        ({
            let sq = walk(s, t, m, Walk::Match, q).0;
            let s1 = deeper(newline(put(space(sq), "{"@)));
            let s2 = list(s1, t, m, Sel::Arms, kids(t, m).len() as int).0;
            let s3 = put_comments(s2, t, closer_from(t, m, SyntaxKind::RBrace, 0, Seq::empty()), true);
            &&& walk(s, t, m, Walk::Match, q + 1).0 == put_indent(shallower(s3))
            &&& grows(s3.out, fmt(s, t, m, How::Node).out)
            &&& grows(s2.out, s3.out)
        }),
{
    let len = kids(t, m).len() as int;
    let (sq, flag) = walk(s, t, m, Walk::Match, q);
    let s1 = deeper(newline(put(space(sq), "{"@)));
    let s2 = list(s1, t, m, Sel::Arms, len).0;
    let closer = closer_from(t, m, SyntaxKind::RBrace, 0, Seq::empty());
    let s3 = put_comments(s2, t, closer, true);
    assert(!tok_kind(t, k as int).spec_is_trivia());
    assert(walk(s, t, m, Walk::Match, q + 1) == step(sq, t, m, Walk::Match, Elem::Token(k), flag));
    assert(walk(s, t, m, Walk::Match, q + 1).0 == put_indent(shallower(s3)));
    lemma_put_comments_grows(s2, t, closer, true);
    lemma_walk_grows_to(s, t, m, Walk::Match, q + 1, len);
    assert(spec_how_of(SyntaxKind::MatchExpr) == How::Walk(Walk::Match));
    assert(fmt(s, t, m, How::Node) == fmt(s, t, m, How::Walk(Walk::Match)));
}

/// Formatting a match expression keeps the comments that lead its arms:
/// wherever a match with an opening brace is formatted, each comment
/// before one of its arms appears in what is written.
pub proof fn lemma_format_match_keeps_arm_comments(
    s: FmtState,
    t: SyntaxTree,
    m: int,
    q: int,
    k: usize,
    r: int,
    c: usize,
    j: int,
)
    requires
        node_kind(t, m) == SyntaxKind::MatchExpr,
        0 <= q < kids(t, m).len(),
        kids(t, m)[q] == Elem::Token(k),
        tok_kind(t, k as int) == SyntaxKind::LBrace,
        0 <= r < kids(t, m).len(),
        kids(t, m)[r] == Elem::Node(c),
        node_kind(t, c as int) == SyntaxKind::MatchArm,
        0 <= j < leading_comments(t, c as int).len(),
    ensures
        exists|p: int| occurs_at(fmt(s, t, m, How::Node).out, p, tok_text(t, leading_comments(t, c as int)[j])),
{
    let x = tok_text(t, leading_comments(t, c as int)[j]);
    let len = kids(t, m).len() as int;
    let sq = walk(s, t, m, Walk::Match, q).0;
    let s1 = deeper(newline(put(space(sq), "{"@)));
    lemma_arms_keeps(s1, t, m, len, r, c, j);
    let s2 = list(s1, t, m, Sel::Arms, len).0;
    let p = choose|p: int| occurs_at(s2.out, p, x);
    lemma_match_brace(s, t, m, q, k);
    let s3 = put_comments(s2, t, closer_from(t, m, SyntaxKind::RBrace, 0, Seq::empty()), true);
    lemma_occurs_grows(s2.out, s3.out, p, x);
    lemma_occurs_grows(s3.out, fmt(s, t, m, How::Node).out, p, x);
}

/// Formatting a match expression keeps the comments before its closing
/// brace.
pub proof fn lemma_format_match_keeps_closing_comments(s: FmtState, t: SyntaxTree, m: int, q: int, k: usize, j: int)
    requires
        node_kind(t, m) == SyntaxKind::MatchExpr,
        0 <= q < kids(t, m).len(),
        kids(t, m)[q] == Elem::Token(k),
        tok_kind(t, k as int) == SyntaxKind::LBrace,
        0 <= j < closer_from(t, m, SyntaxKind::RBrace, 0, Seq::empty()).len(),
    ensures
        exists|p: int|
            occurs_at(
                fmt(s, t, m, How::Node).out,
                p,
                tok_text(t, closer_from(t, m, SyntaxKind::RBrace, 0, Seq::empty())[j]),
            ),
{
    let closer = closer_from(t, m, SyntaxKind::RBrace, 0, Seq::empty());
    let x = tok_text(t, closer[j]);
    let len = kids(t, m).len() as int;
    let sq = walk(s, t, m, Walk::Match, q).0;
    let s1 = deeper(newline(put(space(sq), "{"@)));
    let s2 = list(s1, t, m, Sel::Arms, len).0;
    lemma_put_comments_writes(s2, t, closer, true, j);
    let s3 = put_comments(s2, t, closer, true);
    let p = choose|p: int| occurs_at(s3.out, p, x);
    lemma_match_brace(s, t, m, q, k);
    lemma_occurs_grows(s3.out, fmt(s, t, m, How::Node).out, p, x);
}

// ── Imports keep their words ────────────────────────────────────

/// `x` without its spaces.
pub open spec fn without_spaces(x: Seq<char>) -> Seq<char>
    decreases x.len(),
{
    if x.len() == 0 {
        x
    } else if x.last() == ' ' {
        without_spaces(x.drop_last())
    } else {
        without_spaces(x.drop_last()).push(x.last())
    }
}

proof fn lemma_without_spaces_concat(a: Seq<char>, b: Seq<char>)
    ensures
        without_spaces(a + b) == without_spaces(a) + without_spaces(b),
    decreases b.len(),
{
    if b.len() == 0 {
        assert(a + b =~= a);
        assert(without_spaces(b) =~= Seq::<char>::empty());
        assert(without_spaces(a) + Seq::<char>::empty() =~= without_spaces(a));
    } else {
        assert((a + b).drop_last() =~= a + b.drop_last());
        assert((a + b).last() == b.last());
        lemma_without_spaces_concat(a, b.drop_last());
        if b.last() != ' ' {
            assert(without_spaces(a) + without_spaces(b.drop_last()).push(b.last()) =~= (without_spaces(a)
                + without_spaces(b.drop_last())).push(b.last()));
        }
    }
}

proof fn lemma_without_spaces_none(x: Seq<char>)
    requires
        forall|i: int| 0 <= i < x.len() ==> x[i] != ' ',
    ensures
        without_spaces(x) == x,
    decreases x.len(),
{
    if x.len() > 0 {
        lemma_without_spaces_none(x.drop_last());
        assert(x.drop_last().push(x.last()) =~= x);
    }
}

proof fn lemma_without_one_space()
    ensures
        without_spaces(" "@) == Seq::<char>::empty(),
{
    reveal_strlit(" ");
    assert(" "@.len() == 1);
    assert(" "@.last() == ' ');
    assert(" "@.drop_last() =~= Seq::<char>::empty());
    assert(without_spaces(" "@) == without_spaces(" "@.drop_last()));
}

/// The texts of the non-trivia tokens among the first `i` children of `n`,
/// joined in order.
pub open spec fn token_texts(t: SyntaxTree, n: int, i: int) -> Seq<char>
    decreases i,
{
    if i <= 0 || i > kids(t, n).len() {
        Seq::empty()
    } else {
        token_texts(t, n, i - 1) + match kids(t, n)[i - 1] {
            Elem::Token(k) => if tok_kind(t, k as int).spec_is_trivia() {
                Seq::empty()
            } else {
                tok_text(t, k as int)
            },
            Elem::Node(_) => Seq::empty(),
        }
    }
}

/// The token kinds an import is made of, each spelled as its text.
pub open spec fn import_word(r: Walk, k: SyntaxKind, text: Seq<char>) -> bool {
    ||| k == SyntaxKind::Ident && (forall|i: int| 0 <= i < text.len() ==> text[i] != ' ')
    ||| k == SyntaxKind::ImportKw && text == "import"@
    ||| k == SyntaxKind::AsKw && text == "as"@
    ||| r == Walk::Import && k == SyntaxKind::Dot && text == "."@
    ||| r == Walk::FromImport && k == SyntaxKind::FromKw && text == "from"@
    ||| r == Walk::FromImport && k == SyntaxKind::PythonKw && text == "python"@
}

/// An import node made of tokens only, its non-trivia tokens being words
/// of an import (`import`, `from`, `python`, `as`, names and, in an
/// `import`, dots).
pub open spec fn import_node(t: SyntaxTree, n: int, r: Walk) -> bool {
    &&& (r == Walk::Import && node_kind(t, n) == SyntaxKind::ImportStmt) || (r == Walk::FromImport && node_kind(t, n)
        == SyntaxKind::FromPythonImportStmt)
    &&& forall|i: int|
        0 <= i < kids(t, n).len() ==> (#[trigger] kids(t, n)[i] matches Elem::Token(k) && (!tok_kind(
            t,
            k as int,
        ).spec_is_trivia() ==> import_word(r, tok_kind(t, k as int), tok_text(t, k as int))))
}

/// The words of import tokens carry no spaces.
proof fn lemma_import_words_unspaced()
    ensures
        without_spaces("import"@) == "import"@,
        without_spaces("as"@) == "as"@,
        without_spaces("."@) == "."@,
        without_spaces("from"@) == "from"@,
        without_spaces("python"@) == "python"@,
        without_spaces(" "@) == Seq::<char>::empty(),
{
    reveal_strlit("import");
    reveal_strlit("as");
    reveal_strlit(".");
    reveal_strlit("from");
    reveal_strlit("python");
    lemma_without_spaces_none("import"@);
    lemma_without_spaces_none("as"@);
    lemma_without_spaces_none("."@);
    lemma_without_spaces_none("from"@);
    lemma_without_spaces_none("python"@);
    lemma_without_one_space();
}

/// One child of an import node adds, spaces aside, its text when it is
/// not trivia, and nothing else.
#[verifier::rlimit(40)]
proof fn lemma_import_step(s1: FmtState, t: SyntaxTree, n: int, r: Walk, e: Elem, flag: bool)
    requires
        r == Walk::Import || r == Walk::FromImport,
        e matches Elem::Token(k) && (!tok_kind(t, k as int).spec_is_trivia() ==> import_word(
            r,
            tok_kind(t, k as int),
            tok_text(t, k as int),
        )),
    ensures
        ({
            let out = step(s1, t, n, r, e, flag).0.out;
            let k = e->Token_0 as int;
            let w = out.subrange(s1.out.len() as int, out.len() as int);
            &&& out == s1.out + w
            &&& without_spaces(w) == if tok_kind(t, k).spec_is_trivia() {
                Seq::<char>::empty()
            } else {
                tok_text(t, k)
            }
        }),
{
    let k = e->Token_0 as int;
    let kind = tok_kind(t, k);
    let text = tok_text(t, k);
    let out = step(s1, t, n, r, e, flag).0.out;
    let w = out.subrange(s1.out.len() as int, out.len() as int);
    lemma_import_words_unspaced();
    if kind.spec_is_trivia() {
        assert(out == s1.out);
        assert(w =~= Seq::<char>::empty());
    } else if kind == SyntaxKind::ImportKw {
        assert(out == s1.out + "import"@ + " "@);
        assert(w =~= "import"@ + " "@);
        lemma_without_spaces_concat("import"@, " "@);
        assert("import"@ + Seq::<char>::empty() =~= "import"@);
    } else if kind == SyntaxKind::Ident {
        lemma_without_spaces_none(text);
        if text.len() == 0 {
            assert(w =~= Seq::<char>::empty());
        } else {
            assert(w =~= text);
        }
    } else if kind == SyntaxKind::AsKw {
        assert(w =~= " "@ + "as"@ + " "@);
        lemma_without_spaces_concat(" "@ + "as"@, " "@);
        lemma_without_spaces_concat(" "@, "as"@);
        assert(Seq::<char>::empty() + "as"@ =~= "as"@);
        assert("as"@ + Seq::<char>::empty() =~= "as"@);
    } else if kind == SyntaxKind::Dot {
        assert(w =~= "."@);
    } else if kind == SyntaxKind::FromKw {
        assert(w =~= "from"@ + " "@);
        lemma_without_spaces_concat("from"@, " "@);
        assert("from"@ + Seq::<char>::empty() =~= "from"@);
    } else {
        assert(kind == SyntaxKind::PythonKw);
        assert(w =~= "python"@ + " "@);
        lemma_without_spaces_concat("python"@, " "@);
        assert("python"@ + Seq::<char>::empty() =~= "python"@);
    }
}

proof fn lemma_import_walk(s: FmtState, t: SyntaxTree, n: int, r: Walk, i: int)
    requires
        import_node(t, n, r),
        0 <= i <= kids(t, n).len(),
    ensures
        ({
            let out = walk(s, t, n, r, i).0.out;
            &&& s.out.len() <= out.len()
            &&& out.subrange(0, s.out.len() as int) == s.out
            &&& without_spaces(out.subrange(s.out.len() as int, out.len() as int)) == token_texts(t, n, i)
        }),
    decreases i,
{
    if i == 0 {
        assert(walk(s, t, n, r, 0).0 == s);
        assert(s.out.subrange(0, s.out.len() as int) =~= s.out);
        assert(s.out.subrange(s.out.len() as int, s.out.len() as int) =~= Seq::<char>::empty());
    } else {
        lemma_import_walk(s, t, n, r, i - 1);
        let (s1, flag) = walk(s, t, n, r, i - 1);
        let e = kids(t, n)[i - 1];
        assert(walk(s, t, n, r, i) == step(s1, t, n, r, e, flag));
        lemma_import_step(s1, t, n, r, e, flag);
        let s2 = step(s1, t, n, r, e, flag).0;
        let x1 = s1.out.subrange(s.out.len() as int, s1.out.len() as int);
        let w = s2.out.subrange(s1.out.len() as int, s2.out.len() as int);
        let x2 = s2.out.subrange(s.out.len() as int, s2.out.len() as int);
        assert(x2 =~= x1 + w);
        lemma_without_spaces_concat(x1, w);
        assert(s2.out.subrange(0, s.out.len() as int) =~= s1.out.subrange(0, s.out.len() as int));
    }
}

/// Formatting an import keeps its words: what it writes is, spaces aside,
/// the texts of its non-trivia tokens in order (`import app.utils as u`
/// keeps `import`, `app`, `.`, `utils`, `as` and `u`).
pub proof fn lemma_import_keeps_tokens(s: FmtState, t: SyntaxTree, n: int, r: Walk)
    requires
        import_node(t, n, r),
    ensures
        ({
            let out = fmt(s, t, n, How::Node).out;
            &&& s.out.len() <= out.len()
            &&& out.subrange(0, s.out.len() as int) == s.out
            &&& without_spaces(out.subrange(s.out.len() as int, out.len() as int)) == token_texts(
                t,
                n,
                kids(t, n).len() as int,
            )
        }),
{
    assert(spec_how_of(node_kind(t, n)) == How::Walk(r));
    assert(fmt(s, t, n, How::Node) == fmt(s, t, n, How::Walk(r)));
    assert(fmt(s, t, n, How::Walk(r)) == walk(s, t, n, r, kids(t, n).len() as int).0);
    lemma_import_walk(s, t, n, r, kids(t, n).len() as int);
}

// ── Literals are written as they stand ──────────────────────────

/// The children of `n` are all tokens.
pub open spec fn tokens_only(t: SyntaxTree, n: int) -> bool {
    forall|i: int| 0 <= i < kids(t, n).len() ==> (#[trigger] kids(t, n)[i]) is Token
}

proof fn lemma_token_walk(s: FmtState, t: SyntaxTree, n: int, r: Walk, i: int)
    requires
        r == Walk::Tokens || r == Walk::Verbatim,
        tokens_only(t, n),
        0 <= i <= kids(t, n).len(),
    ensures
        walk(s, t, n, r, i).0.out == s.out + token_texts(t, n, i),
    decreases i,
{
    if i == 0 {
        assert(s.out + token_texts(t, n, 0) =~= s.out);
    } else {
        lemma_token_walk(s, t, n, r, i - 1);
        let (s1, flag) = walk(s, t, n, r, i - 1);
        let e = kids(t, n)[i - 1];
        assert(e is Token);
        let k = e->Token_0 as int;
        assert(walk(s, t, n, r, i) == step(s1, t, n, r, e, flag));
        if tok_kind(t, k).spec_is_trivia() {
            assert(token_texts(t, n, i) =~= token_texts(t, n, i - 1));
        } else {
            assert(step(s1, t, n, r, e, flag).0 == put(s1, tok_text(t, k)));
            assert(token_texts(t, n, i) =~= token_texts(t, n, i - 1) + tok_text(t, k));
            assert(s.out + token_texts(t, n, i) =~= s1.out + tok_text(t, k));
        }
    }
}

/// A literal, in an expression or a pattern, is written exactly as it
/// stands: formatting it appends the texts of its non-trivia tokens, in
/// order, and nothing else (`"a  b"` stays `"a  b"`, `3.50` stays `3.50`).
/// So is any node of a kind the formatter copies verbatim, when it is made
/// of tokens only.
pub proof fn lemma_literal_written_verbatim(s: FmtState, t: SyntaxTree, n: int)
    requires
        tokens_only(t, n),
        node_kind(t, n) == SyntaxKind::LiteralExpr || node_kind(t, n) == SyntaxKind::LiteralPat || spec_how_of(
            node_kind(t, n),
        ) == How::Walk(Walk::Verbatim),
    ensures
        fmt(s, t, n, How::Node).out == s.out + token_texts(t, n, kids(t, n).len() as int),
{
    let r = if node_kind(t, n) == SyntaxKind::LiteralExpr || node_kind(t, n) == SyntaxKind::LiteralPat {
        Walk::Tokens
    } else {
        Walk::Verbatim
    };
    assert(spec_how_of(node_kind(t, n)) == How::Walk(r));
    assert(fmt(s, t, n, How::Node) == fmt(s, t, n, How::Walk(r)));
    lemma_token_walk(s, t, n, r, kids(t, n).len() as int);
}

// ── Every rule keeps the tokens it spells ───────────────────────

/// The fixed spelling of the keyword and punctuation tokens the formatter
/// writes by name.
pub open spec fn spelling(k: SyntaxKind) -> Option<Seq<char>> {
    match k {
        SyntaxKind::ImportKw => Some("import"@),
        SyntaxKind::AsKw => Some("as"@),
        SyntaxKind::FromKw => Some("from"@),
        SyntaxKind::PythonKw => Some("python"@),
        SyntaxKind::LetKw => Some("let"@),
        SyntaxKind::Eq => Some("="@),
        SyntaxKind::Dot => Some("."@),
        SyntaxKind::IfKw => Some("if"@),
        SyntaxKind::ElseKw => Some("else"@),
        SyntaxKind::FnKw => Some("fn"@),
        SyntaxKind::Arrow => Some("->"@),
        _ => None,
    }
}

/// The tokens rule `r` keeps: for the rules of literals, calls, match arms,
/// guards, function headers and binary expressions every non-trivia token;
/// for the others the ones that make up their syntax.
pub open spec fn keeps_token(r: Walk, k: SyntaxKind) -> bool {
    match r {
        Walk::Verbatim | Walk::Tokens | Walk::Call | Walk::MatchArm | Walk::Guard | Walk::FnDef | Walk::Binary => true,
        Walk::Import => k == SyntaxKind::ImportKw || k == SyntaxKind::Ident || k == SyntaxKind::AsKw || k
            == SyntaxKind::Dot,
        Walk::FromImport => k == SyntaxKind::ImportKw || k == SyntaxKind::Ident || k == SyntaxKind::AsKw || k
            == SyntaxKind::FromKw || k == SyntaxKind::PythonKw,
        Walk::Let => k == SyntaxKind::LetKw || k == SyntaxKind::Ident || k == SyntaxKind::Eq,
        Walk::FieldAccess => k == SyntaxKind::Dot || k == SyntaxKind::Ident,
        Walk::If => k == SyntaxKind::IfKw || k == SyntaxKind::ElseKw,
        Walk::Lambda => k == SyntaxKind::FnKw,
        _ => false,
    }
}

/// `x` holds no space.
pub open spec fn unspaced(x: Seq<char>) -> bool {
    forall|i: int| 0 <= i < x.len() ==> x[i] != ' '
}

/// A word between optional spaces is the word, spaces aside.
proof fn lemma_padded_word(a: Seq<char>, x: Seq<char>, b: Seq<char>)
    requires
        a == Seq::<char>::empty() || a == " "@,
        b == Seq::<char>::empty() || b == " "@,
        unspaced(x),
    ensures
        without_spaces(a + x + b) == x,
{
    lemma_without_one_space();
    lemma_without_spaces_none(x);
    lemma_without_spaces_concat(a + x, b);
    lemma_without_spaces_concat(a, x);
    assert(Seq::<char>::empty() + x =~= x);
    assert(x + Seq::<char>::empty() =~= x);
    assert(without_spaces(Seq::<char>::empty()) == Seq::<char>::empty());
}

/// The spellings hold no space.
proof fn lemma_spellings_unspaced(k: SyntaxKind)
    ensures
        spelling(k) matches Some(w) ==> unspaced(w),
        " "@ == seq![' '],
{
    reveal_strlit(" ");
    reveal_strlit("import");
    reveal_strlit("as");
    reveal_strlit("from");
    reveal_strlit("python");
    reveal_strlit("let");
    reveal_strlit("=");
    reveal_strlit(".");
    reveal_strlit("if");
    reveal_strlit("else");
    reveal_strlit("fn");
    reveal_strlit("->");
    assert(" "@ =~= seq![' ']);
}

/// Each rule keeps the tokens it spells, at their place: where rule `r`
/// meets a non-trivia token it keeps (a binary operator, the dot of a field
/// access or of an import path, the `=` of a `let`, a name, a literal...),
/// spelled as usual and holding no space, what it writes extends the text
/// so far by that token's text, spaces aside.
#[verifier::rlimit(60)]
pub proof fn lemma_rules_keep_tokens(s: FmtState, t: SyntaxTree, n: int, r: Walk, k: int, flag: bool)
    requires
        !tok_kind(t, k).spec_is_trivia(),
        keeps_token(r, tok_kind(t, k)),
        unspaced(tok_text(t, k)),
        spelling(tok_kind(t, k)) matches Some(w) ==> tok_text(t, k) == w,
    ensures
        ({
            let out = step_tok(s, t, n, r, k, flag).0.out;
            &&& s.out.len() <= out.len()
            &&& out.subrange(0, s.out.len() as int) == s.out
            &&& without_spaces(out.subrange(s.out.len() as int, out.len() as int)) == tok_text(t, k)
        }),
{
    let kind = tok_kind(t, k);
    let text = tok_text(t, k);
    let st = step_tok(s, t, n, r, k, flag).0;
    let out = st.out;
    let e = Seq::<char>::empty();
    let sp = " "@;
    lemma_spellings_unspaced(kind);
    // What the rule appends: the text, with a space before, after, both or
    // neither.
    let (a, b): (Seq<char>, Seq<char>) = if r == Walk::Binary {
        if spec_is_binary_operator(kind) {
            assert(st == space(put(space(s), text)));
            (sp, sp)
        } else if flag {
            assert(st == put(space(s), text));
            (sp, e)
        } else {
            assert(st == put(s, text));
            (e, e)
        }
    } else if r == Walk::FnDef {
        if kind == SyntaxKind::FnKw {
            assert(st == word(s, "fn"@));
            (e, sp)
        } else if kind == SyntaxKind::Ident && !flag {
            assert(st == space(put(s, text)));
            (e, sp)
        } else {
            assert(st == put(s, text));
            (e, e)
        }
    } else if r == Walk::Verbatim || r == Walk::Tokens || r == Walk::Call || r == Walk::MatchArm || r
        == Walk::Guard {
        if r == Walk::Guard && kind == SyntaxKind::IfKw {
            assert(st == word(s, "if"@));
            (e, sp)
        } else if r == Walk::MatchArm && kind == SyntaxKind::Arrow {
            assert(st == word(space(s), "->"@));
            (sp, sp)
        } else {
            assert(st == put(s, text));
            (e, e)
        }
    } else if r == Walk::Import || r == Walk::FromImport {
        lemma_import_step_shape(s, t, n, r, k, flag)
    } else if r == Walk::Let {
        if kind == SyntaxKind::LetKw {
            assert(st == word(s, "let"@));
            (e, sp)
        } else if kind == SyntaxKind::Ident {
            assert(st == put(s, text));
            (e, e)
        } else {
            assert(st == word(space(s), "="@));
            (sp, sp)
        }
    } else if r == Walk::FieldAccess {
        if kind == SyntaxKind::Dot {
            assert(st == put(s, "."@));
        } else {
            assert(st == put(s, text));
        }
        (e, e)
    } else if r == Walk::If {
        if kind == SyntaxKind::IfKw {
            assert(st == word(s, "if"@));
            (e, sp)
        } else {
            assert(st == word(space(s), "else"@));
            (sp, sp)
        }
    } else {
        assert(r == Walk::Lambda);
        assert(st == put(s, "fn"@));
        (e, e)
    };
    lemma_put_out(s, text);
    lemma_put_out(space(s), text);
    assert(out =~= s.out + (a + text + b));
    lemma_padded_word(a, text, b);
    assert(out.subrange(s.out.len() as int, out.len() as int) =~= a + text + b);
    assert(out.subrange(0, s.out.len() as int) =~= s.out);
}

/// Writing `x` appends it.
proof fn lemma_put_out(s: FmtState, x: Seq<char>)
    ensures
        put(s, x).out == s.out + x,
{
    if x.len() == 0 {
        assert(s.out + x =~= s.out);
    }
}

/// What the import rules append for a token they keep, as the spaces
/// before and after its text.
proof fn lemma_import_step_shape(s: FmtState, t: SyntaxTree, n: int, r: Walk, k: int, flag: bool) -> (ab: (
    Seq<char>,
    Seq<char>,
))
    requires
        r == Walk::Import || r == Walk::FromImport,
        !tok_kind(t, k).spec_is_trivia(),
        keeps_token(r, tok_kind(t, k)),
        spelling(tok_kind(t, k)) matches Some(w) ==> tok_text(t, k) == w,
    ensures
        ab.0 == Seq::<char>::empty() || ab.0 == " "@,
        ab.1 == Seq::<char>::empty() || ab.1 == " "@,
        step_tok(s, t, n, r, k, flag).0.out == s.out + (ab.0 + tok_text(t, k) + ab.1),
{
    let kind = tok_kind(t, k);
    let text = tok_text(t, k);
    let st = step_tok(s, t, n, r, k, flag).0;
    let e = Seq::<char>::empty();
    let sp = " "@;
    lemma_put_out(s, text);
    lemma_put_out(space(s), text);
    if kind == SyntaxKind::ImportKw || kind == SyntaxKind::FromKw || kind == SyntaxKind::PythonKw {
        assert(st == space(put(s, text)));
        assert(st.out =~= s.out + (e + text + sp));
        (e, sp)
    } else if kind == SyntaxKind::AsKw {
        assert(st == space(put(space(s), text)));
        assert(st.out =~= s.out + (sp + text + sp));
        (sp, sp)
    } else {
        assert(st == put(s, text));
        assert(st.out =~= s.out + (e + text + e));
        (e, e)
    }
}

} // verus!
