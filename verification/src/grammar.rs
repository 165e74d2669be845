//! Recursive descent grammar rules.
//!
//! Each `parse_*` function corresponds to a grammar production and builds a
//! subtree through the [`Parser`]. Every rule keeps the parser invariant and
//! only ever adds to the node under construction; rules that start by
//! consuming a token always make progress, which is what bounds the loops and
//! the recursion. A rule that builds a node adds exactly one node of its kind,
//! well shaped: every node below it sits under a parent of a kind that the
//! grammar nests it in (`child_kind_ok`).

use crate::parser::{
    added_shaped, child_kind_ok, is_item_kind, keeps_under, lemma_evolves_refl, lemma_evolves_trans, lemma_wrap,
    lemma_wrap_shaped, shape_ok, top_ok, is_expr_kind, is_pattern_node_kind, Parser, adds_only,
    lemma_adds_only_node, lemma_adds_only_tokens, kind_at, added_node, next_nontrivia, nth_nontrivia,
};
use crate::lexer::TokenView;
use crate::tree::NodeView;
use crate::syntax_kind::SyntaxKind;
use crate::text::str_eq;
use vstd::prelude::*;

verus! {

broadcast use {lemma_evolves_trans, lemma_evolves_refl};

/// Starts of top-level items; loops inside a type body stop there.
pub open spec fn top_level_start(k: SyntaxKind) -> bool {
    matches!(
        k,
        SyntaxKind::FnKw | SyntaxKind::PubKw | SyntaxKind::TypeKw | SyntaxKind::ImportKw | SyntaxKind::FromKw
    )
}

fn at_top_level_start(p: &Parser) -> (b: bool)
    requires
        p.inv(),
    ensures
        b == top_level_start(p.spec_current()),
{
    let k = p.current();
    matches!(
        k,
        SyntaxKind::FnKw | SyntaxKind::PubKw | SyntaxKind::TypeKw | SyntaxKind::ImportKw | SyntaxKind::FromKw
    )
}

/// The kind of the last child of the node under construction.
pub open spec fn last_child_kind(p: Parser) -> SyntaxKind {
    p.builder().node_views()[p.builder().top_view().children.last()->Node_0 as int].kind
}

/// The function modifiers `pure` and `async`, written before `fn`.
pub open spec fn is_fn_modifier(t: Seq<char>) -> bool {
    t == "pure"@ || t == "async"@
}

/// Returns `true` if the current token is a function modifier.
fn at_fn_modifier(p: &Parser) -> (b: bool)
    requires
        p.inv(),
    ensures
        b == (p.spec_current() == SyntaxKind::Ident && is_fn_modifier(p.spec_current_text())),
{
    p.at(SyntaxKind::Ident) && (str_eq(p.current_text(), "pure") || str_eq(p.current_text(), "async"))
}

/// ```text
/// SourceFile = TopLevel*
/// ```
pub fn parse_source_file(p: &mut Parser)
    requires
        old(p).inv(),
    ensures
        final(p).inv(),
        final(p).toks() == old(p).toks(),
        final(p).spec_current() == SyntaxKind::Eof,
        final(p).pos() == next_eof(*final(p)),
        final(p).builder().depth() == old(p).builder().depth(),
        final(p).builder().frame_views() == old(p).builder().frame_views(),
        final(p).builder().top_view().children == old(p).builder().top_view().children.push(
            crate::tree::Elem::Node(final(p).builder().top_view().children.last()->Node_0),
        ),
        final(p).builder().node_views()[final(p).builder().top_view().children.last()->Node_0 as int].kind
            == SyntaxKind::SourceFile,
        shape_ok(final(p).builder().node_views(), final(p).builder().top_view().children.last()->Node_0 as int),
        clean(*final(p), *old(p)) == (s_items(old(p).toks(), old(p).pos()) is Some),
{
    let ghost s0 = *p;
    let ghost t = p.toks();
    p.start_node(SyntaxKind::SourceFile);
    let ghost s1 = *p;
    while !p.at_eof()
        invariant
            p.inv(),
            p.evolves(s1),
            top_ok(*p, SyntaxKind::SourceFile),
            t == p.toks(),
            s1.diags() == s0.diags(),
            clean(*p, s0) ==> s_items(t, s0.pos()) == s_items(t, p.pos()),
            !clean(*p, s0) ==> s_items(t, s0.pos()) is None,
        decreases p.remaining(),
    {
        parse_top_level(p);
    }
    // Trailing trivia belongs to the source file.
    p.eat_trivia();
    let ghost s2 = *p;
    p.finish_node();
    proof {
        lemma_wrap(s0, s1, s2, *p);
        lemma_wrap_shaped(s0, s1, s2, *p);
        assert(s2.builder().top_view().kind == SyntaxKind::SourceFile);
        s2.builder().lemma_node_count_fits();
        assert(p.builder().node_views()[s2.builder().node_views().len() as int] == s2.builder().top_view());
    }
}

/// The position of the `Eof` token.
pub open spec fn next_eof(p: Parser) -> int {
    p.toks().len() - 1
}

/// Dispatches a top-level item.
fn parse_top_level(p: &mut Parser)
    requires
        old(p).inv(),
        old(p).spec_current() != SyntaxKind::Eof,
    ensures
        final(p).inv(),
        final(p).evolves(*old(p)),
        final(p).pos() > old(p).pos(),
        is_item_kind(last_child_kind(*final(p))),
        keeps_under(*final(p), *old(p), last_child_kind(*final(p))),
        added_shaped(*final(p), *old(p), last_child_kind(*final(p))),
        reads(*final(p), *old(p), s_top_level(old(p).toks(), old(p).pos())),
{
    let k = p.current();
    match k {
        SyntaxKind::FnKw => parse_fn_def(p),
        SyntaxKind::TypeKw => parse_type_def(p),
        SyntaxKind::PubKw => {
            if p.nth(1) == SyntaxKind::TypeKw {
                parse_type_def(p)
            } else {
                parse_fn_def(p)
            }
        },
        SyntaxKind::ImportKw => parse_import(p),
        SyntaxKind::FromKw => parse_from_python_import(p),
        SyntaxKind::LetKw => p.error_recover("not yet implemented"),
        _ => {
            if at_fn_modifier(p) {
                parse_fn_def(p)
            } else {
                p.error_recover("expected item definition")
            }
        },
    }
}


/// A node holding just the current token: `Kind = TOKEN`.
fn parse_single(p: &mut Parser, kind: SyntaxKind)
    requires
        old(p).inv(),
        old(p).spec_current() != SyntaxKind::Eof,
        !is_operator_kind(kind),
    ensures
        final(p).inv(),
        final(p).evolves(*old(p)),
        final(p).pos() > old(p).pos(),
        reads(*final(p), *old(p), Some(after(old(p).toks(), old(p).pos()))),
        keeps_under(*final(p), *old(p), kind),
        added_shaped(*final(p), *old(p), kind),
{
    let ghost s0 = *p;
    p.start_node(kind);
    let ghost s1 = *p;
    p.bump();
    let ghost s2 = *p;
    p.finish_node();
    proof {
        lemma_wrap(s0, s1, s2, *p);
        lemma_wrap_shaped(s0, s1, s2, *p);
    }
}

/// ```text
/// FnDef = Visibility? Modifier* 'fn' IDENT ParamList ReturnType? BlockExpr
/// Modifier = 'pure' | 'async'
/// ```
fn parse_fn_def(p: &mut Parser)
    requires
        old(p).inv(),
        old(p).spec_current() == SyntaxKind::FnKw || old(p).spec_current() == SyntaxKind::PubKw || (
        old(p).spec_current() == SyntaxKind::Ident && is_fn_modifier(old(p).spec_current_text())),
    ensures
        final(p).inv(),
        final(p).evolves(*old(p)),
        final(p).pos() > old(p).pos(),
        keeps_under(*final(p), *old(p), SyntaxKind::FnDef),
        added_shaped(*final(p), *old(p), SyntaxKind::FnDef),
        reads(*final(p), *old(p), s_fn_def(old(p).toks(), old(p).pos())),
{
    let ghost s0 = *p;
    let ghost t = p.toks();
    p.start_node(SyntaxKind::FnDef);
    let ghost s1 = *p;
    let ghost mut moved = false;
    // Optional visibility: `pub`
    if p.at(SyntaxKind::PubKw) {
        parse_visibility(p);
        proof {
            moved = true;
        }
    }
    let ghost q1 = p.pos();
    // Modifiers: `pure`, `async`
    while at_fn_modifier(p)
        invariant
            top_ok(*p, SyntaxKind::FnDef),
            p.inv(),
            p.evolves(s1),
            moved ==> p.pos() > s1.pos(),
            !moved ==> p.pos() == s1.pos(),
            !moved ==> s1.spec_current() != SyntaxKind::PubKw,
            t == p.toks(),
            p.diags().len() == s0.diags().len(),
            skip_modifiers(t, q1) == skip_modifiers(t, p.pos()),
        decreases p.remaining(),
    {
        p.bump();
        proof {
            moved = true;
        }
    }
    // `fn` keyword
    let found_fn = p.expect(SyntaxKind::FnKw);
    proof {
        if found_fn {
            moved = true;
        }
        assert(moved);
    }
    // Function name; recover towards `(` if missing.
    if p.at(SyntaxKind::Ident) {
        p.bump();
    } else {
        p.error_recover_until(
            "expected function name",
            &[SyntaxKind::LParen, SyntaxKind::LBrace, SyntaxKind::Arrow],
        );
    }
    // Parameter list; recover towards `{` or `->` if `(` is missing.
    if p.at(SyntaxKind::LParen) {
        parse_param_list(p);
    } else {
        p.error_recover_until("expected parameter list", &[SyntaxKind::LBrace, SyntaxKind::Arrow]);
    }
    // Optional return type: `-> Type`
    if p.at(SyntaxKind::Arrow) {
        parse_return_type(p);
    }
    // Body block.
    if p.at(SyntaxKind::LBrace) {
        parse_block_expr(p);
    } else {
        p.error_recover_until("expected function body", &[]);
    }
    let ghost s2 = *p;
    p.finish_node();
    proof {
        lemma_wrap(s0, s1, s2, *p);
        lemma_wrap_shaped(s0, s1, s2, *p);
    }
}

/// ```text
/// Visibility = 'pub'
/// ```
fn parse_visibility(p: &mut Parser)
    requires
        old(p).inv(),
        old(p).spec_current() != SyntaxKind::Eof,
    ensures
        final(p).inv(),
        final(p).evolves(*old(p)),
        final(p).pos() > old(p).pos(),
        keeps_under(*final(p), *old(p), SyntaxKind::Visibility),
        added_shaped(*final(p), *old(p), SyntaxKind::Visibility),
        reads(*final(p), *old(p), Some(after(old(p).toks(), old(p).pos()))),
{
    parse_single(p, SyntaxKind::Visibility);
}

// ── Type definitions ────────────────────────────────────────────

/// ```text
/// TypeDef = Visibility? 'type' IDENT TypeParams? '{' TypeBody '}'
/// ```
fn parse_type_def(p: &mut Parser)
    requires
        old(p).inv(),
        old(p).spec_current() == SyntaxKind::TypeKw || old(p).spec_current() == SyntaxKind::PubKw,
    ensures
        final(p).inv(),
        final(p).evolves(*old(p)),
        final(p).pos() > old(p).pos(),
        keeps_under(*final(p), *old(p), SyntaxKind::TypeDef),
        added_shaped(*final(p), *old(p), SyntaxKind::TypeDef),
        reads(*final(p), *old(p), s_type_def(old(p).toks(), old(p).pos())),
{
    let ghost s0 = *p;
    p.start_node(SyntaxKind::TypeDef);
    let ghost s1 = *p;
    if p.at(SyntaxKind::PubKw) {
        parse_visibility(p);
    }
    p.expect(SyntaxKind::TypeKw);
    assert(p.pos() > s0.pos());
    p.expect(SyntaxKind::Ident);
    if p.at(SyntaxKind::LParen) {
        parse_type_param_list(p);
    }
    if p.at(SyntaxKind::LBrace) {
        p.bump();
        parse_type_body(p);
        p.expect(SyntaxKind::RBrace);
    } else {
        p.error_recover_until("expected type body", &[]);
    }
    let ghost s2 = *p;
    p.finish_node();
    proof {
        lemma_wrap(s0, s1, s2, *p);
        lemma_wrap_shaped(s0, s1, s2, *p);
    }
}

/// ```text
/// TypeParams = '(' TypeParam (',' TypeParam)* ','? ')'
/// ```
fn parse_type_param_list(p: &mut Parser)
    requires
        top_ok(*old(p), SyntaxKind::TypeDef),
        old(p).inv(),
        old(p).spec_current() != SyntaxKind::Eof,
    ensures
        final(p).inv(),
        final(p).evolves(*old(p)),
        top_ok(*final(p), SyntaxKind::TypeDef),
        final(p).pos() > old(p).pos(),
        adds_only(*final(p), *old(p), SyntaxKind::TypeParam, SyntaxKind::TypeParam),
        reads(*final(p), *old(p), s_type_param_list(old(p).toks(), old(p).pos())),
{
    let ghost s0 = *p;
    let ghost t = p.toks();
    p.bump();
    let ghost q1 = p.pos();
    let ghost mut r: Option<int> = Some(q1);
    proof {
        lemma_adds_only_tokens(s0, s0, *p, SyntaxKind::TypeParam, SyntaxKind::TypeParam);
    }
    if !p.at(SyntaxKind::RParen) && !p.at_eof() {
        let ghost m = *p;
        parse_type_param(p);
        let ghost m2 = p.pos();
        proof {
            lemma_adds_only_node(s0, m, *p, SyntaxKind::TypeParam, SyntaxKind::TypeParam, SyntaxKind::TypeParam);
        }
        while p.at(SyntaxKind::Comma)
            invariant
                top_ok(*p, SyntaxKind::TypeDef),
                p.inv(),
                p.evolves(s0),
                p.evolves(m),
                p.pos() > s0.pos(),
                adds_only(*p, s0, SyntaxKind::TypeParam, SyntaxKind::TypeParam),
                t == p.toks(),
                clean(*p, m) ==> s_expect(t, q1, SyntaxKind::Ident) == Some(m2) && s_type_params_rest(t, m2)
                    == s_type_params_rest(t, p.pos()),
                !clean(*p, m) ==> (s_expect(t, q1, SyntaxKind::Ident) is None || s_type_params_rest(t, m2) is None),
            ensures
                top_ok(*p, SyntaxKind::TypeDef),
                p.inv(),
                p.evolves(s0),
                p.evolves(m),
                p.pos() > s0.pos(),
                adds_only(*p, s0, SyntaxKind::TypeParam, SyntaxKind::TypeParam),
                clean(*p, m) ==> s_expect(t, q1, SyntaxKind::Ident) == Some(m2) && s_type_params_rest(t, m2)
                    == Some(p.pos()),
                !clean(*p, m) ==> (s_expect(t, q1, SyntaxKind::Ident) is None || s_type_params_rest(t, m2) is None),
            decreases p.remaining(),
        {
            let ghost m1 = *p;
            p.bump();
            proof {
                lemma_adds_only_tokens(s0, m1, *p, SyntaxKind::TypeParam, SyntaxKind::TypeParam);
            }
            if p.at(SyntaxKind::RParen) {
                break;
            }
            let ghost m3 = *p;
            parse_type_param(p);
            proof {
                lemma_adds_only_node(s0, m3, *p, SyntaxKind::TypeParam, SyntaxKind::TypeParam, SyntaxKind::TypeParam);
            }
        }
        proof {
            r = match s_expect(t, q1, SyntaxKind::Ident) {
                None => None,
                Some(q2) => s_type_params_rest(t, q2),
            };
        }
    }
    assert(clean(*p, s0) == (r is Some) && (clean(*p, s0) ==> p.pos() == r->0));
    let ghost m = *p;
    p.expect(SyntaxKind::RParen);
    proof {
        lemma_adds_only_tokens(s0, m, *p, SyntaxKind::TypeParam, SyntaxKind::TypeParam);
    }
}

/// ```text
/// TypeParam = IDENT
/// ```
fn parse_type_param(p: &mut Parser)
    requires
        old(p).inv(),
    ensures
        final(p).inv(),
        final(p).evolves(*old(p)),
        keeps_under(*final(p), *old(p), SyntaxKind::TypeParam),
        added_shaped(*final(p), *old(p), SyntaxKind::TypeParam),
        reads(*final(p), *old(p), s_expect(old(p).toks(), old(p).pos(), SyntaxKind::Ident)),
{
    let ghost s0 = *p;
    p.start_node(SyntaxKind::TypeParam);
    let ghost s1 = *p;
    p.expect(SyntaxKind::Ident);
    let ghost s2 = *p;
    p.finish_node();
    proof {
        lemma_wrap(s0, s1, s2, *p);
        lemma_wrap_shaped(s0, s1, s2, *p);
    }
}

/// Where a type body ends: at `}`, at the end of input, or where a
/// top-level item starts.
pub open spec fn type_body_end(k: SyntaxKind) -> bool {
    k == SyntaxKind::RBrace || k == SyntaxKind::Eof || top_level_start(k)
}

/// Type body: record fields when the first token is `IDENT :`, otherwise
/// variants. It reads up to where the body ends, adding field nodes (for a
/// record) or variant nodes, and error nodes around what is neither.
fn parse_type_body(p: &mut Parser)
    requires
        top_ok(*old(p), SyntaxKind::TypeDef),
        old(p).inv(),
    ensures
        final(p).inv(),
        final(p).evolves(*old(p)),
        top_ok(*final(p), SyntaxKind::TypeDef),
        type_body_end(final(p).spec_current()),
        !type_body_end(old(p).spec_current()) ==> final(p).pos() > old(p).pos(),
        adds_only(*final(p), *old(p), SyntaxKind::Field, SyntaxKind::NodeError) || adds_only(
            *final(p),
            *old(p),
            SyntaxKind::Variant,
            SyntaxKind::NodeError,
        ),
        reads(*final(p), *old(p), s_type_body(old(p).toks(), old(p).pos())),
{
    let ghost s0 = *p;
    let ghost t = p.toks();
    proof {
        lemma_adds_only_tokens(s0, s0, s0, SyntaxKind::Field, SyntaxKind::NodeError);
        lemma_adds_only_tokens(s0, s0, s0, SyntaxKind::Variant, SyntaxKind::NodeError);
    }
    if p.at(SyntaxKind::RBrace) {
        return;
    }
    let is_record = p.at(SyntaxKind::Ident) && p.nth(1) == SyntaxKind::Colon;
    let ghost (fa, fb) = if is_record {
        (SyntaxKind::Field, SyntaxKind::NodeError)
    } else {
        (SyntaxKind::Variant, SyntaxKind::NodeError)
    };
    let ghost mut moved = false;
    while !p.at(SyntaxKind::RBrace) && !p.at_eof() && !at_top_level_start(p)
        invariant
            top_ok(*p, SyntaxKind::TypeDef),
            p.inv(),
            p.evolves(s0),
            adds_only(*p, s0, fa, fb),
            fb == SyntaxKind::NodeError,
            is_record ==> fa == SyntaxKind::Field,
            !is_record ==> fa == SyntaxKind::Variant,
            moved ==> p.pos() > s0.pos(),
            !moved ==> p.pos() == s0.pos(),
            t == p.toks(),
            clean(*p, s0) ==> s_type_body(t, s0.pos()) == s_type_items(t, p.pos(), is_record),
            !clean(*p, s0) ==> s_type_body(t, s0.pos()) is None,
        decreases p.remaining(),
    {
        let ghost m = *p;
        if p.at(SyntaxKind::Ident) {
            if is_record {
                parse_record_field(p);
                proof {
                    lemma_adds_only_node(s0, m, *p, fa, fb, SyntaxKind::Field);
                }
            } else {
                parse_variant(p);
                proof {
                    lemma_adds_only_node(s0, m, *p, fa, fb, SyntaxKind::Variant);
                }
            }
        } else {
            let message = if is_record {
                "expected field definition"
            } else {
                "expected variant definition"
            };
            p.error_and_bump(message);
            proof {
                lemma_adds_only_node(s0, m, *p, fa, fb, SyntaxKind::NodeError);
            }
        }
        proof {
            moved = true;
        }
    }
}

/// ```text
/// Field = IDENT ':' TypeExpr
/// ```
fn parse_record_field(p: &mut Parser)
    requires
        old(p).inv(),
    ensures
        final(p).inv(),
        final(p).evolves(*old(p)),
        old(p).spec_current() == SyntaxKind::Ident ==> final(p).pos() > old(p).pos(),
        keeps_under(*final(p), *old(p), SyntaxKind::Field),
        added_shaped(*final(p), *old(p), SyntaxKind::Field),
        reads(*final(p), *old(p), s_record_field(old(p).toks(), old(p).pos())),
{
    let ghost s0 = *p;
    p.start_node(SyntaxKind::Field);
    let ghost s1 = *p;
    p.expect(SyntaxKind::Ident);
    p.expect(SyntaxKind::Colon);
    parse_type_expr(p);
    let ghost s2 = *p;
    p.finish_node();
    proof {
        lemma_wrap(s0, s1, s2, *p);
        lemma_wrap_shaped(s0, s1, s2, *p);
    }
}

/// ```text
/// Variant = IDENT VariantArgs?
/// VariantArgs = '(' VarField (',' VarField)* ','? ')'
/// ```
fn parse_variant(p: &mut Parser)
    requires
        old(p).inv(),
    ensures
        final(p).inv(),
        final(p).evolves(*old(p)),
        old(p).spec_current() == SyntaxKind::Ident ==> final(p).pos() > old(p).pos(),
        keeps_under(*final(p), *old(p), SyntaxKind::Variant),
        added_shaped(*final(p), *old(p), SyntaxKind::Variant),
        reads(*final(p), *old(p), s_variant(old(p).toks(), old(p).pos())),
{
    let ghost s0 = *p;
    let ghost t = p.toks();
    p.start_node(SyntaxKind::Variant);
    let ghost s1 = *p;
    p.expect(SyntaxKind::Ident);
    let ghost q1 = p.pos();
    if p.at(SyntaxKind::LParen) {
        p.bump();
        let ghost q2 = p.pos();
        let ghost mut r: Option<int> = Some(q2);
        let ghost m0 = *p;
        if !p.at(SyntaxKind::RParen) && !p.at_eof() {
            parse_variant_field(p);
            let ghost m = p.pos();
            while p.at(SyntaxKind::Comma)
                invariant
                    top_ok(*p, SyntaxKind::Variant),
                    p.inv(),
                    p.evolves(s1),
                    p.evolves(m0),
                    s0.spec_current() == SyntaxKind::Ident ==> p.pos() > s0.pos(),
                    t == p.toks(),
                    m >= q2,
                    clean(*p, m0) ==> s_variant_field(t, q2) == Some(m) && s_variant_fields_rest(t, m)
                        == s_variant_fields_rest(t, p.pos()),
                    !clean(*p, m0) ==> (s_variant_field(t, q2) is None || s_variant_fields_rest(t, m) is None),
                ensures
                    top_ok(*p, SyntaxKind::Variant),
                    p.inv(),
                    p.evolves(s1),
                    p.evolves(m0),
                    s0.spec_current() == SyntaxKind::Ident ==> p.pos() > s0.pos(),
                    clean(*p, m0) ==> s_variant_field(t, q2) == Some(m) && s_variant_fields_rest(t, m) == Some(
                        p.pos(),
                    ),
                    !clean(*p, m0) ==> (s_variant_field(t, q2) is None || s_variant_fields_rest(t, m) is None),
                decreases p.remaining(),
            {
                p.bump();
                if p.at(SyntaxKind::RParen) {
                    break;
                }
                parse_variant_field(p);
            }
            proof {
                r = match s_variant_field(t, q2) {
                    None => None,
                    Some(e) => s_variant_fields_rest(t, clamp(e, q2)),
                };
            }
        }
        assert(clean(*p, m0) == (r is Some) && (clean(*p, m0) ==> p.pos() == r->0));
        p.expect(SyntaxKind::RParen);
    }
    let ghost s2 = *p;
    p.finish_node();
    proof {
        lemma_wrap(s0, s1, s2, *p);
        lemma_wrap_shaped(s0, s1, s2, *p);
    }
}

/// ```text
/// VarField = (IDENT ':')? TypeExpr
/// ```
fn parse_variant_field(p: &mut Parser)
    requires
        old(p).inv(),
    ensures
        final(p).inv(),
        final(p).evolves(*old(p)),
        keeps_under(*final(p), *old(p), SyntaxKind::Field),
        added_shaped(*final(p), *old(p), SyntaxKind::Field),
        reads(*final(p), *old(p), s_variant_field(old(p).toks(), old(p).pos())),
{
    let ghost s0 = *p;
    p.start_node(SyntaxKind::Field);
    let ghost s1 = *p;
    if p.at(SyntaxKind::Ident) && p.nth(1) == SyntaxKind::Colon {
        let ghost before = *p;
        p.bump();
        proof {
            crate::parser::lemma_nth1(before, *p);
        }
        p.bump();
    }
    parse_type_expr(p);
    let ghost s2 = *p;
    p.finish_node();
    proof {
        lemma_wrap(s0, s1, s2, *p);
        lemma_wrap_shaped(s0, s1, s2, *p);
    }
}

/// ```text
/// TypeExpr = IDENT TypeArgs?
/// TypeArgs = '(' TypeExpr (',' TypeExpr)* ','? ')'
/// ```
fn parse_type_expr(p: &mut Parser)
    requires
        old(p).inv(),
    ensures
        final(p).inv(),
        final(p).evolves(*old(p)),
        old(p).spec_current() == SyntaxKind::Ident ==> final(p).pos() > old(p).pos(),
        keeps_under(*final(p), *old(p), SyntaxKind::TypeExpr),
        added_shaped(*final(p), *old(p), SyntaxKind::TypeExpr),
        reads(*final(p), *old(p), s_type_expr(old(p).toks(), old(p).pos())),
    decreases old(p).remaining(),
{
    let ghost s0 = *p;
    let ghost t = p.toks();
    let ghost q = p.pos();
    p.start_node(SyntaxKind::TypeExpr);
    let ghost s1 = *p;
    proof {
        lemma_nn_ge(t, q);
    }
    p.expect(SyntaxKind::Ident);
    let ghost q1 = p.pos();
    if p.at(SyntaxKind::LParen) {
        p.bump();
        let ghost q2 = p.pos();
        let ghost mut r: Option<int> = Some(q2);
        let ghost m0 = *p;
        if !p.at(SyntaxKind::RParen) && !p.at_eof() {
            parse_type_expr(p);
            let ghost m = p.pos();
            while p.at(SyntaxKind::Comma)
                invariant
                    top_ok(*p, SyntaxKind::TypeExpr),
                    p.inv(),
                    p.evolves(s1),
                    p.evolves(m0),
                    p.pos() > s0.pos(),
                    p.remaining() < old(p).remaining(),
                    t == p.toks(),
                    m >= q2,
                    clean(*p, m0) ==> s_type_expr(t, q2) == Some(m) && s_type_args(t, m) == s_type_args(t, p.pos()),
                    !clean(*p, m0) ==> (s_type_expr(t, q2) is None || s_type_args(t, m) is None),
                ensures
                    p.inv(),
                    p.evolves(m0),
                    top_ok(*p, SyntaxKind::TypeExpr),
                    p.evolves(s1),
                    p.pos() > s0.pos(),
                    clean(*p, m0) ==> s_type_expr(t, q2) == Some(m) && s_type_args(t, m) == Some(p.pos()),
                    !clean(*p, m0) ==> (s_type_expr(t, q2) is None || s_type_args(t, m) is None),
                decreases p.remaining(),
            {
                p.bump();
                if p.at(SyntaxKind::RParen) {
                    break;
                }
                parse_type_expr(p);
            }
            proof {
                r = match s_type_expr(t, q2) {
                    None => None,
                    Some(e) => s_type_args(t, clamp(e, q2)),
                };
            }
        }
        assert(clean(*p, m0) == (r is Some) && (clean(*p, m0) ==> p.pos() == r->0));
        p.expect(SyntaxKind::RParen);
        proof {
            assert(cur(t, q1) == SyntaxKind::LParen);
        }
    }
    let ghost s2 = *p;
    p.finish_node();
    proof {
        lemma_wrap(s0, s1, s2, *p);
        lemma_wrap_shaped(s0, s1, s2, *p);
    }
}

// ── Imports ─────────────────────────────────────────────────────

/// ```text
/// ImportStmt = 'import' IDENT ('.' IDENT)* ('as' IDENT)?
/// ```
fn parse_import(p: &mut Parser)
    requires
        old(p).inv(),
        old(p).spec_current() != SyntaxKind::Eof,
    ensures
        final(p).inv(),
        final(p).evolves(*old(p)),
        final(p).pos() > old(p).pos(),
        keeps_under(*final(p), *old(p), SyntaxKind::ImportStmt),
        added_shaped(*final(p), *old(p), SyntaxKind::ImportStmt),
        reads(*final(p), *old(p), s_import(old(p).toks(), old(p).pos())),
{
    let ghost s0 = *p;
    let ghost t = p.toks();
    p.start_node(SyntaxKind::ImportStmt);
    let ghost s1 = *p;
    p.bump();
    let mut failed = false;
    if !p.expect(SyntaxKind::Ident) {
        p.error_recover_until("expected module name", &[]);
        failed = true;
    }
    let ghost q2 = p.pos();
    if !failed {
        while p.at(SyntaxKind::Dot)
            invariant
                top_ok(*p, SyntaxKind::ImportStmt),
                p.inv(),
                p.evolves(s1),
                p.pos() > s0.pos(),
                t == p.toks(),
                s1.diags().len() == s0.diags().len(),
                !failed ==> clean(*p, s0) && s_import_path(t, q2) == s_import_path(t, p.pos()),
                failed ==> !clean(*p, s0) && s_import_path(t, q2) is None,
                s_expect(t, after(t, s0.pos()), SyntaxKind::Ident) == Some(q2),
            ensures
                top_ok(*p, SyntaxKind::ImportStmt),
                p.inv(),
                p.evolves(s1),
                p.pos() > s0.pos(),
                !failed ==> clean(*p, s0) && s_import_path(t, q2) == Some(p.pos()),
                failed ==> !clean(*p, s0) && s_import_path(t, q2) is None,
            decreases p.remaining(),
        {
            let ghost c = p.pos();
            proof {
                lemma_nn_ge(t, c);
            }
            p.bump();
            if !p.expect(SyntaxKind::Ident) {
                p.error_recover_until("expected module name after `.`", &[]);
                failed = true;
                break;
            }
            assert(s_import_path(t, c) == s_import_path(t, p.pos()));
        }
    }
    if !failed && p.at(SyntaxKind::AsKw) {
        p.bump();
        if !p.expect(SyntaxKind::Ident) {
            p.error_recover_until("expected alias name after `as`", &[]);
        }
    }
    let ghost s2 = *p;
    p.finish_node();
    proof {
        lemma_wrap(s0, s1, s2, *p);
        lemma_wrap_shaped(s0, s1, s2, *p);
    }
}

/// ```text
/// FromPythonImportStmt = 'from' 'python' 'import' IDENT ('as' IDENT)?
/// ```
fn parse_from_python_import(p: &mut Parser)
    requires
        old(p).inv(),
        old(p).spec_current() != SyntaxKind::Eof,
    ensures
        final(p).inv(),
        final(p).evolves(*old(p)),
        final(p).pos() > old(p).pos(),
        keeps_under(*final(p), *old(p), SyntaxKind::FromPythonImportStmt),
        added_shaped(*final(p), *old(p), SyntaxKind::FromPythonImportStmt),
        reads(*final(p), *old(p), s_from_import(old(p).toks(), old(p).pos())),
{
    let ghost s0 = *p;
    p.start_node(SyntaxKind::FromPythonImportStmt);
    let ghost s1 = *p;
    p.bump();
    if !p.at(SyntaxKind::PythonKw) {
        p.error_recover_until("expected `python` after `from`", &[]);
    } else {
        p.bump();
        if !p.expect(SyntaxKind::ImportKw) {
            p.error_recover_until("expected `import` after `from python`", &[]);
        } else if !p.expect(SyntaxKind::Ident) {
            p.error_recover_until("expected module name after `import`", &[]);
        } else if p.at(SyntaxKind::AsKw) {
            p.bump();
            if !p.expect(SyntaxKind::Ident) {
                p.error_recover_until("expected alias name after `as`", &[]);
            }
        }
    }
    let ghost s2 = *p;
    p.finish_node();
    proof {
        lemma_wrap(s0, s1, s2, *p);
        lemma_wrap_shaped(s0, s1, s2, *p);
    }
}

// ── Parameters and return types ─────────────────────────────────

/// ```text
/// ParamList = '(' (Param (',' Param)* ','?)? ')'
/// ```
fn parse_param_list(p: &mut Parser)
    requires
        old(p).inv(),
        old(p).spec_current() != SyntaxKind::Eof,
    ensures
        final(p).inv(),
        final(p).evolves(*old(p)),
        final(p).pos() > old(p).pos(),
        keeps_under(*final(p), *old(p), SyntaxKind::ParamList),
        added_shaped(*final(p), *old(p), SyntaxKind::ParamList),
        reads(*final(p), *old(p), s_param_list(old(p).toks(), old(p).pos(), true)),
{
    parse_param_list_with_mode(p, true);
}

/// Lambda parameters, whose type annotations are optional.
fn parse_lambda_param_list(p: &mut Parser)
    requires
        old(p).inv(),
        old(p).spec_current() != SyntaxKind::Eof,
    ensures
        final(p).inv(),
        final(p).evolves(*old(p)),
        final(p).pos() > old(p).pos(),
        keeps_under(*final(p), *old(p), SyntaxKind::ParamList),
        added_shaped(*final(p), *old(p), SyntaxKind::ParamList),
        reads(*final(p), *old(p), s_param_list(old(p).toks(), old(p).pos(), false)),
{
    parse_param_list_with_mode(p, false);
}

fn parse_param_list_with_mode(p: &mut Parser, require_type_ann: bool)
    requires
        old(p).inv(),
        old(p).spec_current() != SyntaxKind::Eof,
    ensures
        final(p).inv(),
        final(p).evolves(*old(p)),
        final(p).pos() > old(p).pos(),
        keeps_under(*final(p), *old(p), SyntaxKind::ParamList),
        added_shaped(*final(p), *old(p), SyntaxKind::ParamList),
        reads(*final(p), *old(p), s_param_list(old(p).toks(), old(p).pos(), require_type_ann)),
{
    let ghost s0 = *p;
    let ghost t = p.toks();
    p.start_node(SyntaxKind::ParamList);
    let ghost s1 = *p;
    p.bump();
    let ghost q1 = p.pos();
    let ghost sb = *p;
    while !p.at(SyntaxKind::RParen) && !p.at_eof()
        invariant_except_break
            clean(*p, sb) ==> s_params(t, q1, require_type_ann) == s_params(t, p.pos(), require_type_ann),
        invariant
            top_ok(*p, SyntaxKind::ParamList),
            p.inv(),
            p.evolves(s1),
            p.evolves(sb),
            p.pos() > s0.pos(),
            t == p.toks(),
            !clean(*p, sb) ==> s_params(t, q1, require_type_ann) is None,
        ensures
            top_ok(*p, SyntaxKind::ParamList),
            p.inv(),
            p.evolves(s1),
            p.evolves(sb),
            p.pos() > s0.pos(),
            clean(*p, sb) ==> (s_params(t, q1, require_type_ann) == Some(p.pos())) || (s_params(
                t,
                q1,
                require_type_ann,
            ) is None && p.spec_current() != SyntaxKind::RParen),
            !clean(*p, sb) ==> s_params(t, q1, require_type_ann) is None,
        decreases p.remaining(),
    {
        let prev = p.position();
        parse_param(p, require_type_ann);
        if p.at(SyntaxKind::Comma) {
            p.bump();
        } else if !p.at(SyntaxKind::RParen) {
            if p.position() == prev {
                p.error_and_bump("unexpected token in parameter list");
            }
            break;
        }
    }
    p.expect(SyntaxKind::RParen);
    let ghost s2 = *p;
    p.finish_node();
    proof {
        lemma_wrap(s0, s1, s2, *p);
        lemma_wrap_shaped(s0, s1, s2, *p);
    }
}

/// ```text
/// Param = IDENT (':' TypeExpr)?
/// ```
fn parse_param(p: &mut Parser, require_type_ann: bool)
    requires
        old(p).inv(),
    ensures
        final(p).inv(),
        final(p).evolves(*old(p)),
        keeps_under(*final(p), *old(p), SyntaxKind::Param),
        added_shaped(*final(p), *old(p), SyntaxKind::Param),
        reads(*final(p), *old(p), s_param(old(p).toks(), old(p).pos(), require_type_ann)),
{
    let ghost s0 = *p;
    p.start_node(SyntaxKind::Param);
    let ghost s1 = *p;
    if !p.expect(SyntaxKind::Ident) {
        p.error_recover_until(
            "expected parameter name",
            &[SyntaxKind::Comma, SyntaxKind::RParen, SyntaxKind::LBrace],
        );
    } else if p.at(SyntaxKind::Colon) {
        p.bump();
        if p.at(SyntaxKind::Ident) {
            parse_type_expr(p);
        } else {
            p.error_recover_until(
                "expected parameter type",
                &[SyntaxKind::Comma, SyntaxKind::RParen, SyntaxKind::LBrace],
            );
        }
    } else if require_type_ann {
        p.error_recover_until(
            "expected `:` (Colon) after parameter name",
            &[SyntaxKind::Comma, SyntaxKind::RParen, SyntaxKind::LBrace],
        );
    }
    let ghost s2 = *p;
    p.finish_node();
    proof {
        lemma_wrap(s0, s1, s2, *p);
        lemma_wrap_shaped(s0, s1, s2, *p);
    }
}

/// ```text
/// ReturnType = '->' TypeExpr
/// ```
fn parse_return_type(p: &mut Parser)
    requires
        old(p).inv(),
        old(p).spec_current() != SyntaxKind::Eof,
    ensures
        final(p).inv(),
        final(p).evolves(*old(p)),
        final(p).pos() > old(p).pos(),
        keeps_under(*final(p), *old(p), SyntaxKind::ReturnType),
        added_shaped(*final(p), *old(p), SyntaxKind::ReturnType),
        reads(*final(p), *old(p), s_return_type(old(p).toks(), old(p).pos())),
{
    let ghost s0 = *p;
    p.start_node(SyntaxKind::ReturnType);
    let ghost s1 = *p;
    p.bump();
    if p.at(SyntaxKind::Ident) {
        parse_type_expr(p);
    } else {
        p.error_recover_until("expected return type", &[SyntaxKind::LBrace]);
    }
    let ghost s2 = *p;
    p.finish_node();
    proof {
        lemma_wrap(s0, s1, s2, *p);
        lemma_wrap_shaped(s0, s1, s2, *p);
    }
}


// ── Expressions ─────────────────────────────────────────────────

/// ```text
/// BlockExpr = '{' (LetStmt | Expr)* '}'
/// ```
fn parse_block_expr(p: &mut Parser)
    requires
        old(p).inv(),
        old(p).spec_current() != SyntaxKind::Eof,
    ensures
        final(p).inv(),
        final(p).evolves(*old(p)),
        final(p).pos() > old(p).pos(),
        keeps_under(*final(p), *old(p), SyntaxKind::BlockExpr),
        added_shaped(*final(p), *old(p), SyntaxKind::BlockExpr),
        reads(*final(p), *old(p), s_block(old(p).toks(), old(p).pos())),
    decreases old(p).remaining(), 1nat,
{
    let ghost s0 = *p;
    let ghost t = p.toks();
    p.start_node(SyntaxKind::BlockExpr);
    let ghost s1 = *p;
    p.bump();
    let ghost q1 = p.pos();
    let ghost sb = *p;
    while !p.at(SyntaxKind::RBrace) && !p.at_eof() && !at_named_fn(p)
        invariant
            top_ok(*p, SyntaxKind::BlockExpr),
            p.inv(),
            p.evolves(s1),
            p.evolves(sb),
            p.pos() > s0.pos(),
            p.remaining() < old(p).remaining(),
            t == p.toks(),
            clean(*p, sb) ==> s_block_items(t, q1) == s_block_items(t, p.pos()),
            !clean(*p, sb) ==> s_block_items(t, q1) is None,
        decreases p.remaining(),
    {
        let prev = p.position();
        if p.at(SyntaxKind::LetKw) {
            parse_let_stmt(p);
        } else {
            parse_expr(p);
        }
        if p.position() == prev {
            p.error_and_bump("unexpected token in block");
        }
    }
    p.expect(SyntaxKind::RBrace);
    let ghost s2 = *p;
    p.finish_node();
    proof {
        lemma_wrap(s0, s1, s2, *p);
        lemma_wrap_shaped(s0, s1, s2, *p);
    }
}

/// Whether the parser is at `fn name`: a function definition, which cannot
/// stand inside a block, so the block ends there unclosed.
fn at_named_fn(p: &Parser) -> (b: bool)
    requires
        p.inv(),
    ensures
        b == (p.spec_current() == SyntaxKind::FnKw && p.spec_nth(1) == SyntaxKind::Ident),
{
    p.at(SyntaxKind::FnKw) && p.nth(1) == SyntaxKind::Ident
}

/// ```text
/// LetStmt = 'let' IDENT '=' Expr
/// ```
fn parse_let_stmt(p: &mut Parser)
    requires
        old(p).inv(),
        old(p).spec_current() != SyntaxKind::Eof,
    ensures
        final(p).inv(),
        final(p).evolves(*old(p)),
        final(p).pos() > old(p).pos(),
        keeps_under(*final(p), *old(p), SyntaxKind::LetStmt),
        added_shaped(*final(p), *old(p), SyntaxKind::LetStmt),
        reads(*final(p), *old(p), s_let(old(p).toks(), old(p).pos())),
    decreases old(p).remaining(), 1nat,
{
    let ghost s0 = *p;
    p.start_node(SyntaxKind::LetStmt);
    let ghost s1 = *p;
    p.bump();
    if p.at(SyntaxKind::Ident) {
        p.bump();
    } else {
        p.error_recover_until("expected binding name", &[SyntaxKind::Eq, SyntaxKind::RBrace]);
    }
    p.expect(SyntaxKind::Eq);
    parse_expr(p);
    let ghost s2 = *p;
    p.finish_node();
    proof {
        lemma_wrap(s0, s1, s2, *p);
        lemma_wrap_shaped(s0, s1, s2, *p);
    }
}

/// ```text
/// LambdaExpr = 'fn' ParamList ReturnType? BlockExpr
/// ```
fn parse_lambda_expr(p: &mut Parser)
    requires
        old(p).inv(),
        old(p).spec_current() != SyntaxKind::Eof,
    ensures
        final(p).inv(),
        final(p).evolves(*old(p)),
        final(p).pos() > old(p).pos(),
        keeps_under(*final(p), *old(p), SyntaxKind::LambdaExpr),
        added_shaped(*final(p), *old(p), SyntaxKind::LambdaExpr),
        reads(*final(p), *old(p), s_lambda(old(p).toks(), old(p).pos())),
    decreases old(p).remaining(), 1nat,
{
    let ghost s0 = *p;
    p.start_node(SyntaxKind::LambdaExpr);
    let ghost s1 = *p;
    p.bump();
    if p.at(SyntaxKind::LParen) {
        parse_lambda_param_list(p);
    } else {
        p.error_recover_until("expected parameter list", &[SyntaxKind::LBrace, SyntaxKind::Arrow]);
    }
    if p.at(SyntaxKind::Arrow) {
        parse_return_type(p);
    }
    if p.at(SyntaxKind::LBrace) {
        parse_block_expr(p);
    } else {
        p.error_recover_until("expected lambda body", &[]);
    }
    let ghost s2 = *p;
    p.finish_node();
    proof {
        lemma_wrap(s0, s1, s2, *p);
        lemma_wrap_shaped(s0, s1, s2, *p);
    }
}

/// ```text
/// Expr = Atom | PrefixExpr | InfixExpr | PostfixExpr | IfExpr
/// ```
fn parse_expr(p: &mut Parser)
    requires
        old(p).inv(),
    ensures
        final(p).inv(),
        final(p).evolves(*old(p)),
        old(p).spec_current() != SyntaxKind::Eof ==> final(p).pos() > old(p).pos(),
        is_expr_kind(last_child_kind(*final(p))),
        keeps_under(*final(p), *old(p), last_child_kind(*final(p))),
        added_shaped(*final(p), *old(p), last_child_kind(*final(p))),
        reads(*final(p), *old(p), s_expr_bp(old(p).toks(), old(p).pos(), 0)),
    decreases old(p).remaining(), 3nat,
{
    parse_expr_bp(p, 0);
}

/// Binding powers of the infix operators, lowest first.
pub open spec fn spec_infix_binding_power(op: SyntaxKind) -> Option<(u8, u8)> {
    match op {
        SyntaxKind::PipePipe => Some((1, 2)),
        SyntaxKind::AmpAmp => Some((3, 4)),
        SyntaxKind::EqEq | SyntaxKind::BangEq | SyntaxKind::Lt | SyntaxKind::LtEq | SyntaxKind::Gt
        | SyntaxKind::GtEq => Some((5, 6)),
        SyntaxKind::Pipe | SyntaxKind::Plus | SyntaxKind::Minus | SyntaxKind::StringConcat => Some((7, 8)),
        SyntaxKind::Star | SyntaxKind::Slash | SyntaxKind::Percent => Some((9, 10)),
        _ => None,
    }
}

/// Binding power of the prefix operators `-` and `!`.
pub open spec fn spec_prefix_binding_power(op: SyntaxKind) -> Option<u8> {
    match op {
        SyntaxKind::Minus | SyntaxKind::Bang => Some(11),
        _ => None,
    }
}

/// Binding power of the postfix operators: call, and the tighter field access.
pub open spec fn spec_postfix_binding_power(op: SyntaxKind) -> Option<u8> {
    match op {
        SyntaxKind::LParen => Some(13),
        SyntaxKind::Dot => Some(15),
        _ => None,
    }
}

/// Binding power for infix binary operators: `Some((left, right))`; left
/// associative operators have `right == left + 1`.
pub fn infix_binding_power(op: SyntaxKind) -> (r: Option<(u8, u8)>)
    ensures
        r == spec_infix_binding_power(op),
{
    match op {
        SyntaxKind::PipePipe => Some((1, 2)),
        SyntaxKind::AmpAmp => Some((3, 4)),
        SyntaxKind::EqEq | SyntaxKind::BangEq | SyntaxKind::Lt | SyntaxKind::LtEq | SyntaxKind::Gt
        | SyntaxKind::GtEq => Some((5, 6)),
        SyntaxKind::Pipe | SyntaxKind::Plus | SyntaxKind::Minus | SyntaxKind::StringConcat => Some((7, 8)),
        SyntaxKind::Star | SyntaxKind::Slash | SyntaxKind::Percent => Some((9, 10)),
        _ => None,
    }
}

/// Binding power for prefix unary operators.
pub fn prefix_binding_power(op: SyntaxKind) -> (r: Option<u8>)
    ensures
        r == spec_prefix_binding_power(op),
{
    match op {
        SyntaxKind::Minus | SyntaxKind::Bang => Some(11),
        _ => None,
    }
}

/// Binding power for postfix operators (call and field access).
pub fn postfix_binding_power(op: SyntaxKind) -> (r: Option<u8>)
    ensures
        r == spec_postfix_binding_power(op),
{
    match op {
        SyntaxKind::LParen => Some(13),
        SyntaxKind::Dot => Some(15),
        _ => None,
    }
}

/// Infix operators bind left to right, tighter operators bind tighter than
/// looser ones, and prefix and postfix operators bind tighter than every
/// infix operator.
pub proof fn binding_powers_are_ordered(op: SyntaxKind)
    ensures
        spec_infix_binding_power(op) matches Some((l, r)) ==> {
            &&& r == l + 1
            &&& l < 11
        },
        spec_prefix_binding_power(op) matches Some(b) ==> b == 11,
        spec_postfix_binding_power(op) matches Some(b) ==> b > 11,
{
}

/// The node the parser last added under the node being built.
pub open spec fn last_node(p: Parser) -> int {
    p.builder().top_view().children.last()->Node_0 as int
}

/// Infix expression nodes: binary operators and the pipeline.
pub open spec fn is_infix_node(k: SyntaxKind) -> bool {
    k == SyntaxKind::BinaryExpr || k == SyntaxKind::PipelineExpr
}

/// The kind of the token just before the last child of `n`: the operator of
/// an infix or prefix expression node.
pub open spec fn operator_of(toks: Seq<TokenView>, n: NodeView) -> SyntaxKind {
    kind_at(toks, n.children[n.children.len() - 2]->Token_0 as int)
}

/// The binding power with which `k` continues an expression to its left:
/// that of a postfix or an infix operator.
pub open spec fn continue_bp(k: SyntaxKind) -> Option<u8> {
    match spec_postfix_binding_power(k) {
        Some(l) => Some(l),
        None => match spec_infix_binding_power(k) {
            Some((l, _)) => Some(l),
            None => None,
        },
    }
}

/// `k` does not continue an expression whose operators bind at least as
/// tightly as `min_bp`.
pub open spec fn declines(k: SyntaxKind, min_bp: u8) -> bool {
    continue_bp(k) matches Some(l) ==> l < min_bp
}

/// For an infix or prefix node `x` whose last operand is an expression (not
/// an error), the binding power that operand was parsed with: it took every
/// operator binding at least that tightly and stopped before the others.
pub open spec fn operand_floor(toks: Seq<TokenView>, nv: Seq<NodeView>, x: int) -> Option<u8> {
    let n = nv[x];
    if is_infix_node(n.kind) || n.kind == SyntaxKind::UnaryExpr {
        if n.children.len() >= 1 && n.children.last() is Node && nv[n.children.last()->Node_0 as int].kind
            != SyntaxKind::NodeError {
            if is_infix_node(n.kind) {
                match spec_infix_binding_power(operator_of(toks, n)) {
                    Some((_, r)) => Some(r),
                    None => None,
                }
            } else {
                spec_prefix_binding_power(operator_of(toks, n))
            }
        } else {
            None
        }
    } else {
        None
    }
}

/// Node `x` is the binding-power tree of its operators: an infix node holds
/// its left operand, its operator token and its right operand; a right
/// operand that is itself infix has an operator whose left binding power is
/// at least the right binding power of the node's operator (so `a - b - c`
/// groups as `(a - b) - c`), and a left operand that ended before the
/// node's operator did so because that operator binds less tightly than the
/// operand's own (so `a + b |> f` groups as `(a + b) |> f`). A prefix node
/// holds its operator and an operand with no looser infix operator at its
/// top, and a call or field access applies to an operand that no infix or
/// prefix operator left open. The same holds all the way down.
pub open spec fn bp_tree(toks: Seq<TokenView>, nv: Seq<NodeView>, x: int) -> bool
    decreases x,
{
    if x < 0 || x >= nv.len() {
        false
    } else {
        let n = nv[x];
        let len = n.children.len();
        if is_infix_node(n.kind) {
            &&& len >= 3
            &&& n.children[0] is Node
            &&& n.children[len - 2] is Token
            &&& n.children[len - 1] is Node
            &&& n.children[0]->Node_0 < x
            &&& n.children[len - 1]->Node_0 < x
            &&& spec_infix_binding_power(operator_of(toks, n)) matches Some((l, r))
            &&& {
                let lhs = n.children[0]->Node_0 as int;
                let rhs = n.children[len - 1]->Node_0 as int;
                &&& is_infix_node(nv[rhs].kind) ==> (spec_infix_binding_power(operator_of(toks, nv[rhs]))
                    matches Some((l2, _)) && l2 >= r)
                &&& operand_floor(toks, nv, lhs) matches Some(f) ==> l < f
                &&& bp_tree(toks, nv, lhs)
                &&& bp_tree(toks, nv, rhs)
            }
        } else if n.kind == SyntaxKind::UnaryExpr {
            &&& len >= 2
            &&& n.children[len - 2] is Token
            &&& n.children[len - 1] is Node
            &&& n.children[len - 1]->Node_0 < x
            &&& spec_prefix_binding_power(operator_of(toks, n)) matches Some(b)
            &&& {
                let operand = n.children[len - 1]->Node_0 as int;
                &&& is_infix_node(nv[operand].kind) ==> (spec_infix_binding_power(
                    operator_of(toks, nv[operand]),
                ) matches Some((l2, _)) && l2 >= b)
                &&& bp_tree(toks, nv, operand)
            }
        } else if n.kind == SyntaxKind::FieldAccessExpr || n.kind == SyntaxKind::CallExpr {
            let op = if n.kind == SyntaxKind::FieldAccessExpr {
                SyntaxKind::Dot
            } else {
                SyntaxKind::LParen
            };
            &&& len >= 1
            &&& n.children[0] is Node
            &&& n.children[0]->Node_0 < x
            &&& (operand_floor(toks, nv, n.children[0]->Node_0 as int) matches Some(f)
                ==> continue_bp(op) matches Some(l) && l < f)
            &&& bp_tree(toks, nv, n.children[0]->Node_0 as int)
        } else {
            true
        }
    }
}

/// The kinds of node built around operators: infix, prefix, call and
/// field access.
pub open spec fn is_operator_kind(k: SyntaxKind) -> bool {
    ||| is_infix_node(k)
    ||| k == SyntaxKind::UnaryExpr
    ||| k == SyntaxKind::FieldAccessExpr
    ||| k == SyntaxKind::CallExpr
}

/// Every node of the arena is a binding-power tree (which says something
/// only of the nodes built around operators).
pub open spec fn nests_by_binding_power(toks: Seq<TokenView>, nv: Seq<NodeView>) -> bool {
    forall|x: int| 0 <= x < nv.len() ==> #[trigger] bp_tree(toks, nv, x)
}

/// Appending a node that is a binding-power tree keeps every node one.
pub proof fn lemma_nests_push(toks: Seq<TokenView>, nv: Seq<NodeView>, top: NodeView)
    requires
        nests_by_binding_power(toks, nv),
        is_operator_kind(top.kind) ==> bp_tree(toks, nv.push(top), nv.len() as int),
    ensures
        nests_by_binding_power(toks, nv.push(top)),
{
    let nv2 = nv.push(top);
    assert(nv2.subrange(0, nv.len() as int) =~= nv);
    assert forall|x: int| 0 <= x < nv2.len() implies #[trigger] bp_tree(toks, nv2, x) by {
        if x < nv.len() {
            lemma_bp_tree_extends(toks, nv, nv2, x);
        } else {
            assert(nv2[x] == top);
        }
    }
}

/// A binding-power tree stays one as the arena grows.
proof fn lemma_bp_tree_extends(toks: Seq<TokenView>, nv: Seq<NodeView>, nv2: Seq<NodeView>, x: int)
    requires
        nv.len() <= nv2.len(),
        nv2.subrange(0, nv.len() as int) == nv,
        bp_tree(toks, nv, x),
    ensures
        bp_tree(toks, nv2, x),
        operand_floor(toks, nv2, x) == operand_floor(toks, nv, x),
    decreases x,
{
    assert(nv2[x] == nv2.subrange(0, nv.len() as int)[x]);
    let n = nv[x];
    let len = n.children.len();
    if is_infix_node(n.kind) {
        let lhs = n.children[0]->Node_0 as int;
        let rhs = n.children[len - 1]->Node_0 as int;
        assert(nv2[lhs] == nv2.subrange(0, nv.len() as int)[lhs]);
        assert(nv2[rhs] == nv2.subrange(0, nv.len() as int)[rhs]);
        lemma_bp_tree_extends(toks, nv, nv2, lhs);
        lemma_bp_tree_extends(toks, nv, nv2, rhs);
    } else if n.kind == SyntaxKind::UnaryExpr {
        let operand = n.children[len - 1]->Node_0 as int;
        assert(nv2[operand] == nv2.subrange(0, nv.len() as int)[operand]);
        lemma_bp_tree_extends(toks, nv, nv2, operand);
    } else if n.kind == SyntaxKind::FieldAccessExpr || n.kind == SyntaxKind::CallExpr {
        let lhs = n.children[0]->Node_0 as int;
        assert(nv2[lhs] == nv2.subrange(0, nv.len() as int)[lhs]);
        lemma_bp_tree_extends(toks, nv, nv2, lhs);
    }
}

/// The precedence of the infix operators, loosest first: `||`, then `&&`,
/// then the comparisons, then `+ - |> <>`, then `* / %`; 0 for a token
/// that is no infix operator.
pub open spec fn precedence_level(op: SyntaxKind) -> int {
    match op {
        SyntaxKind::PipePipe => 1,
        SyntaxKind::AmpAmp => 2,
        SyntaxKind::EqEq | SyntaxKind::BangEq | SyntaxKind::Lt | SyntaxKind::LtEq | SyntaxKind::Gt
        | SyntaxKind::GtEq => 3,
        SyntaxKind::Pipe | SyntaxKind::Plus | SyntaxKind::Minus | SyntaxKind::StringConcat => 4,
        SyntaxKind::Star | SyntaxKind::Slash | SyntaxKind::Percent => 5,
        _ => 0,
    }
}

/// The binding powers follow the precedence table: exactly the operators
/// of the table are infix; one of a looser level gives up its right operand
/// to one of a tighter level (`a || b && c` groups as `a || (b && c)`, and
/// `a && b || c` as `(a && b) || c`); and operators of one level group to
/// the left.
pub proof fn lemma_precedence_order(a: SyntaxKind, b: SyntaxKind)
    ensures
        (spec_infix_binding_power(a) is Some) == (precedence_level(a) > 0),
        precedence_level(a) > 0 && precedence_level(b) > 0 ==> ({
            let (la, ra) = spec_infix_binding_power(a)->0;
            let (lb, rb) = spec_infix_binding_power(b)->0;
            &&& precedence_level(a) < precedence_level(b) ==> ra <= lb && la < lb
            &&& precedence_level(a) == precedence_level(b) ==> la < rb && la == lb
        }),
{
}

/// The prefix operators are exactly `-` and `!`, and bind tighter than every
/// infix operator (`-a * b` groups as `(-a) * b`); the postfix operators are
/// exactly a call `(` and a field access `.`, both tighter than any prefix
/// operator (`-f(x)` negates the call), and a field access binds tighter
/// than a call.
pub proof fn lemma_prefix_postfix_table(a: SyntaxKind, b: SyntaxKind)
    ensures
        (spec_prefix_binding_power(a) is Some) == (a == SyntaxKind::Minus || a == SyntaxKind::Bang),
        (spec_postfix_binding_power(a) is Some) == (a == SyntaxKind::LParen || a == SyntaxKind::Dot),
        spec_postfix_binding_power(SyntaxKind::LParen)->0 < spec_postfix_binding_power(SyntaxKind::Dot)->0,
        spec_prefix_binding_power(a) matches Some(p) ==> ({
            &&& spec_infix_binding_power(b) matches Some((l, _)) ==> l < p
            &&& spec_postfix_binding_power(b) matches Some(q) ==> p < q
        }),
{
}

/// Wraps what was emitted since `c` (taken at `base`) in a node of `kind`
/// holding the current token and the expression after it.
fn wrap_infix(p: &mut Parser, c: crate::tree::Checkpoint, kind: SyntaxKind, right_bp: u8, Ghost(base): Ghost<Parser>)
    requires
        old(p).inv(),
        old(p).evolves(base),
        old(p).pos() > base.pos(),
        old(p).spec_current() != SyntaxKind::Eof,
        c.depth == base.builder().depth(),
        c.children == base.builder().top_view().children.len(),
        kind == SyntaxKind::BinaryExpr || kind == SyntaxKind::PipelineExpr,
        base.inv(),
        added_shaped(*old(p), base, last_child_kind(*old(p))),
        is_expr_kind(last_child_kind(*old(p))),
        spec_infix_binding_power(old(p).spec_current()) matches Some((_, r)) && r == right_bp,
        bp_tree(old(p).toks(), old(p).builder().node_views(), last_node(*old(p))),
        operand_floor(old(p).toks(), old(p).builder().node_views(), last_node(*old(p))) matches Some(f)
            ==> declines(old(p).spec_current(), f),
    ensures
        final(p).inv(),
        final(p).evolves(base),
        final(p).pos() > old(p).pos(),
        added_shaped(*final(p), base, kind),
        bp_tree(final(p).toks(), final(p).builder().node_views(), last_node(*final(p))),
        operator_of(final(p).toks(), final(p).builder().node_views()[last_node(*final(p))]) == old(p).spec_current(),
        operand_floor(final(p).toks(), final(p).builder().node_views(), last_node(*final(p))) matches Some(f)
            ==> declines(final(p).spec_current(), f),
        reads(*final(p), *old(p), s_expr_bp(old(p).toks(), after(old(p).toks(), old(p).pos()), right_bp)),
        final(p).pos() >= after(old(p).toks(), old(p).pos()),
        final(p).diags().len() >= old(p).diags().len(),
    decreases old(p).remaining(), 0nat,
{
    let ghost s0 = *p;
    p.start_node_at(c, kind);
    let ghost s1 = *p;
    proof {
        assert(s0.builder().top_view().children.subrange(0, c.children as int) =~= base.builder().top_view().children);
        lemma_wrapped_lhs(base, s0, s1, kind);
        assert(s1.builder().top_view().children =~= seq![s0.builder().top_view().children.last()]);
    }
    p.bump();
    let ghost sb = *p;
    parse_expr_bp(p, right_bp);
    let ghost s2 = *p;
    proof {
        lemma_infix_built(s0, s1, sb, s2, kind, right_bp);
    }
    p.finish_node();
    proof {
        crate::parser::lemma_wrap_at(base, s0, s1, s2, *p);
        lemma_finish_wrapped(base, s0, s1, s2, *p);
        p.builder().lemma_node_count_fits();
        assert(last_node(*p) == s2.builder().node_views().len());
    }
}

/// The infix node that `wrap_infix` builds from the states it passes
/// through is a binding-power tree with the operator it consumed.
proof fn lemma_infix_built(s0: Parser, s1: Parser, sb: Parser, s2: Parser, kind: SyntaxKind, right_bp: u8)
    requires
        s0.inv(),
        s0.builder().top_view().children.len() >= 1,
        s0.builder().top_view().children.last() is Node,
        last_node(s0) < s0.builder().node_views().len(),
        s1.toks() == s0.toks(),
        s1.pos() == s0.pos(),
        s1.builder().node_views() == s0.builder().node_views(),
        s1.builder().top_view().kind == kind,
        s1.builder().top_view().children == seq![s0.builder().top_view().children.last()],
        sb.evolves(s1),
        sb.builder().top_view().children.len() > s1.builder().top_view().children.len(),
        sb.builder().top_view().children.last() == crate::tree::Elem::Token(
            next_nontrivia(s1.toks(), s1.pos()) as usize,
        ),
        sb.inv(),
        sb.pos() == next_nontrivia(s1.toks(), s1.pos()) + 1,
        0 <= next_nontrivia(s1.toks(), s1.pos()) < usize::MAX,
        s2.evolves(sb),
        added_node(s2, sb, last_child_kind(s2)),
        bp_tree(s2.toks(), s2.builder().node_views(), last_node(s2)),
        is_infix_node(last_child_kind(s2)) ==> (spec_infix_binding_power(
            operator_of(s2.toks(), s2.builder().node_views()[last_node(s2)]),
        ) matches Some((l, _)) && l >= right_bp),
        last_child_kind(s2) != SyntaxKind::NodeError ==> declines(s2.spec_current(), right_bp),
        is_infix_node(kind),
        spec_infix_binding_power(s0.spec_current()) matches Some((_, r)) && r == right_bp,
        bp_tree(s0.toks(), s0.builder().node_views(), last_node(s0)),
        operand_floor(s0.toks(), s0.builder().node_views(), last_node(s0)) matches Some(f)
            ==> declines(s0.spec_current(), f),
    ensures
        ({
            let nv3 = s2.builder().node_views().push(s2.builder().top_view());
            let x = s2.builder().node_views().len() as int;
            &&& bp_tree(s2.toks(), nv3, x)
            &&& operator_of(s2.toks(), nv3[x]) == s0.spec_current()
            &&& operand_floor(s2.toks(), nv3, x) matches Some(f) ==> declines(s2.spec_current(), f)
        }),
{
    let toks = s0.toks();
    let nv0 = s0.builder().node_views();
    let nvb = sb.builder().node_views();
    let nv2 = s2.builder().node_views();
    let nv3 = nv2.push(s2.builder().top_view());
    let x = nv2.len() as int;
    let lhs = last_node(s0);
    let rhs = last_node(s2);
    let ch1 = s1.builder().top_view().children;
    let chb = sb.builder().top_view().children;
    let ch2 = s2.builder().top_view().children;
    assert(nvb.subrange(0, nv0.len() as int) == nv0);
    assert(nv2.subrange(0, nv0.len() as int) =~= nv0) by {
        assert(nv2.subrange(0, nvb.len() as int) == nvb);
        assert(nv2.subrange(0, nv0.len() as int) =~= nvb.subrange(0, nv0.len() as int));
    }
    assert(nv3.subrange(0, nv2.len() as int) =~= nv2);
    assert(nv3.subrange(0, nv0.len() as int) =~= nv0) by {
        assert(nv3.subrange(0, nv0.len() as int) =~= nv2.subrange(0, nv0.len() as int));
    }
    assert(chb.subrange(0, ch1.len() as int) == ch1);
    assert(chb[0] == ch1[0]);
    assert(ch2.drop_last() == chb);
    let n = nv3[x];
    assert(n == s2.builder().top_view());
    assert(n.children == ch2);
    assert(n.children[0] == chb[0]);
    assert(n.children[n.children.len() - 2] == chb.last());
    let j = next_nontrivia(toks, s0.pos());
    assert(kind_at(toks, j) == s0.spec_current());
    assert(operator_of(toks, n) == s0.spec_current());
    lemma_bp_tree_extends(toks, nv0, nv3, lhs);
    lemma_bp_tree_extends(toks, nv2, nv3, rhs);
    assert(nv3[rhs] == nv2[rhs]);
    assert(nv3[lhs] == nv0[lhs]);
    assert(bp_tree(toks, nv3, x));
}

/// Right after a node of kind `kind` has taken over the expression parsed
/// since `base`, what it holds is well shaped.
proof fn lemma_wrapped_lhs(base: Parser, s0: Parser, s1: Parser, kind: SyntaxKind)
    requires
        added_shaped(s0, base, last_child_kind(s0)),
        is_expr_kind(last_child_kind(s0)),
        child_kind_ok(kind, last_child_kind(s0)),
        s1.builder().node_views() == s0.builder().node_views(),
        s1.builder().top_view().children == s0.builder().top_view().children.subrange(
            base.builder().top_view().children.len() as int,
            s0.builder().top_view().children.len() as int,
        ),
    ensures
        top_ok(s1, kind),
{
    let ch0 = s0.builder().top_view().children;
    assert(s1.builder().top_view().children =~= seq![ch0.last()]);
}

/// Finishing a node that wraps the expression parsed since `base` adds one
/// well-shaped node under the node `base` was building.
proof fn lemma_finish_wrapped(base: Parser, s0: Parser, s1: Parser, s2: Parser, s3: Parser)
    requires
        base.inv(),
        s0.evolves(base),
        s1.builder().node_views() == s0.builder().node_views(),
        s1.builder().frame_views() == base.builder().frame_views().push(base.builder().top_view()),
        s2.evolves(s1),
        s3.builder().top_view().children == s2.builder().frame_views().last().children.push(
            crate::tree::Elem::Node(s2.builder().node_views().len() as usize),
        ),
        s3.builder().node_views() == s2.builder().node_views().push(s2.builder().top_view()),
        top_ok(s2, s1.builder().top_view().kind),
    ensures
        added_shaped(s3, base, s1.builder().top_view().kind),
{
    crate::parser::lemma_wrap_at_shaped(base, s0, s1, s2, s3);
    s3.builder().lemma_node_count_fits();
    let ch = s3.builder().top_view().children;
    assert(ch.drop_last() =~= base.builder().top_view().children);
    assert(ch.last()->Node_0 as int == s2.builder().node_views().len());
    assert(s3.builder().node_views()[s2.builder().node_views().len() as int] == s2.builder().top_view());
}

/// The prefix node built from the states of the prefix branch of
/// `parse_expr_bp` is a binding-power tree.
proof fn lemma_prefix_built(a0: Parser, a1: Parser, ab: Parser, a2: Parser)
    requires
        a0.inv(),
        spec_prefix_binding_power(a0.spec_current()) is Some,
        a1.toks() == a0.toks(),
        a1.pos() == a0.pos(),
        a1.builder().node_views() == a0.builder().node_views(),
        a1.builder().top_view().kind == SyntaxKind::UnaryExpr,
        ab.evolves(a1),
        ab.builder().top_view().children.len() > a1.builder().top_view().children.len(),
        ab.builder().top_view().children.last() == crate::tree::Elem::Token(
            next_nontrivia(a1.toks(), a1.pos()) as usize,
        ),
        ab.inv(),
        ab.pos() == next_nontrivia(a1.toks(), a1.pos()) + 1,
        0 <= next_nontrivia(a1.toks(), a1.pos()) < usize::MAX,
        a2.evolves(ab),
        added_node(a2, ab, last_child_kind(a2)),
        bp_tree(a2.toks(), a2.builder().node_views(), last_node(a2)),
        is_infix_node(last_child_kind(a2)) ==> (spec_infix_binding_power(
            operator_of(a2.toks(), a2.builder().node_views()[last_node(a2)]),
        ) matches Some((l, _)) && l >= 11),
        last_child_kind(a2) != SyntaxKind::NodeError ==> declines(a2.spec_current(), 11),
        a2.builder().top_view().kind == SyntaxKind::UnaryExpr,
    ensures
        ({
            let nv3 = a2.builder().node_views().push(a2.builder().top_view());
            let x = a2.builder().node_views().len() as int;
            &&& bp_tree(a2.toks(), nv3, x)
            &&& operand_floor(a2.toks(), nv3, x) matches Some(f) ==> declines(a2.spec_current(), f)
        }),
{
    let toks = a0.toks();
    let nv2 = a2.builder().node_views();
    let nv3 = nv2.push(a2.builder().top_view());
    let x = nv2.len() as int;
    let operand = last_node(a2);
    let chb = ab.builder().top_view().children;
    let ch2 = a2.builder().top_view().children;
    assert(nv3.subrange(0, nv2.len() as int) =~= nv2);
    assert(ch2.drop_last() == chb);
    let n = nv3[x];
    assert(n == a2.builder().top_view());
    assert(n.children[n.children.len() - 2] == chb.last());
    assert(operator_of(toks, n) == a0.spec_current());
    lemma_bp_tree_extends(toks, nv2, nv3, operand);
    assert(nv3[operand] == nv2[operand]);
    assert(bp_tree(toks, nv3, x));
}

/// The call or field access node built around the expression parsed so far
/// is a binding-power tree when the postfix operator was not declined by an
/// operand left open.
proof fn lemma_postfix_built(a0: Parser, a1: Parser, a2: Parser, op: SyntaxKind)
    requires
        a0.inv(),
        a0.builder().top_view().children.len() >= 1,
        a0.builder().top_view().children.last() is Node,
        last_node(a0) < a0.builder().node_views().len(),
        op == SyntaxKind::Dot || op == SyntaxKind::LParen,
        bp_tree(a0.toks(), a0.builder().node_views(), last_node(a0)),
        operand_floor(a0.toks(), a0.builder().node_views(), last_node(a0)) matches Some(f) ==> declines(op, f),
        a1.builder().node_views() == a0.builder().node_views(),
        a1.builder().top_view().children == seq![a0.builder().top_view().children.last()],
        a2.evolves(a1),
        a2.toks() == a0.toks(),
        a2.builder().top_view().kind == (if op == SyntaxKind::Dot {
            SyntaxKind::FieldAccessExpr
        } else {
            SyntaxKind::CallExpr
        }),
    ensures
        ({
            let nv3 = a2.builder().node_views().push(a2.builder().top_view());
            let x = a2.builder().node_views().len() as int;
            &&& bp_tree(a2.toks(), nv3, x)
            &&& operand_floor(a2.toks(), nv3, x) is None
        }),
{
    let toks = a0.toks();
    let nv0 = a0.builder().node_views();
    let nv2 = a2.builder().node_views();
    let nv3 = nv2.push(a2.builder().top_view());
    let x = nv2.len() as int;
    let lhs = last_node(a0);
    let ch1 = a1.builder().top_view().children;
    let ch2 = a2.builder().top_view().children;
    assert(nv3.subrange(0, nv2.len() as int) =~= nv2);
    assert(nv3.subrange(0, nv0.len() as int) =~= nv0) by {
        assert(nv2.subrange(0, nv0.len() as int) == nv0);
        assert(nv3.subrange(0, nv0.len() as int) =~= nv2.subrange(0, nv0.len() as int));
    }
    assert(ch2.subrange(0, ch1.len() as int) == ch1);
    assert(ch2[0] == ch1[0]);
    let n = nv3[x];
    assert(n == a2.builder().top_view());
    lemma_bp_tree_extends(toks, nv0, nv3, lhs);
    assert(bp_tree(toks, nv3, x));
}

/// Parses an expression whose operators bind at least as tightly as `min_bp`:
/// an atom or prefix expression, then postfix and infix operators as long as
/// their binding power is at least `min_bp`.
///
/// The node it adds is the binding-power tree of what it read (`bp_tree`);
/// an infix operator at its top binds at least as tightly as `min_bp`; and
/// unless it had to report a missing expression, it stopped at a token that
/// continues no expression at `min_bp`, so it took every operator it could.
fn parse_expr_bp(p: &mut Parser, min_bp: u8)
    requires
        old(p).inv(),
    ensures
        final(p).inv(),
        final(p).evolves(*old(p)),
        old(p).spec_current() != SyntaxKind::Eof ==> final(p).pos() > old(p).pos(),
        is_expr_kind(last_child_kind(*final(p))),
        keeps_under(*final(p), *old(p), last_child_kind(*final(p))),
        added_shaped(*final(p), *old(p), last_child_kind(*final(p))),
        bp_tree(final(p).toks(), final(p).builder().node_views(), last_node(*final(p))),
        is_infix_node(last_child_kind(*final(p))) ==> (spec_infix_binding_power(
            operator_of(final(p).toks(), final(p).builder().node_views()[last_node(*final(p))]),
        ) matches Some((l, _)) && l >= min_bp),
        last_child_kind(*final(p)) != SyntaxKind::NodeError ==> declines(final(p).spec_current(), min_bp),
        reads(*final(p), *old(p), s_expr_bp(old(p).toks(), old(p).pos(), min_bp)),
    decreases old(p).remaining(), 2nat,
{
    let ghost s0 = *p;
    let checkpoint = p.checkpoint();
    let k = p.current();
    // ── Prefix / atom ──
    if prefix_binding_power(k).is_some() {
        let right_bp: u8 = 11;
        let ghost a0 = *p;
        p.start_node(SyntaxKind::UnaryExpr);
        let ghost a1 = *p;
        p.bump();
        let ghost ab = *p;
        parse_expr_bp(p, right_bp);
        let ghost a2 = *p;
        proof {
            lemma_prefix_built(a0, a1, ab, a2);
        }
        p.finish_node();
        proof {
            lemma_wrap(a0, a1, a2, *p);
            lemma_wrap_shaped(a0, a1, a2, *p);
            p.builder().lemma_node_count_fits();
            assert(last_node(*p) == a2.builder().node_views().len());
        }
    } else if k == SyntaxKind::LParen {
        let ghost a0 = *p;
        p.start_node(SyntaxKind::ParenExpr);
        let ghost a1 = *p;
        p.bump();
        parse_expr_bp(p, 0);
        p.expect(SyntaxKind::RParen);
        let ghost a2 = *p;
        p.finish_node();
        proof {
            lemma_wrap(a0, a1, a2, *p);
            lemma_wrap_shaped(a0, a1, a2, *p);
        }
    } else if k == SyntaxKind::IfKw {
        parse_if_expr(p);
    } else if k == SyntaxKind::MatchKw {
        parse_match_expr(p);
    } else if k == SyntaxKind::FnKw {
        parse_lambda_expr(p);
    } else if k == SyntaxKind::LBracket {
        parse_list_expr(p);
    } else if k == SyntaxKind::TryKw {
        parse_try_expr(p);
    } else if k == SyntaxKind::IntLit || k == SyntaxKind::FloatLit || k == SyntaxKind::StringLit
        || k == SyntaxKind::TrueKw || k == SyntaxKind::FalseKw {
        parse_single(p, SyntaxKind::LiteralExpr);
    } else if k == SyntaxKind::Ident {
        parse_single(p, SyntaxKind::IdentExpr);
    } else {
        p.error_and_bump("expected expression");
        return;
    }
    // ── Postfix and infix operators ──
    loop
        invariant
            p.inv(),
            p.evolves(s0),
            p.pos() > s0.pos(),
            p.remaining() < old(p).remaining(),
            checkpoint.depth == s0.builder().depth(),
            checkpoint.children == s0.builder().top_view().children.len(),
            added_shaped(*p, s0, last_child_kind(*p)),
            is_expr_kind(last_child_kind(*p)),
            s0.inv(),
            bp_tree(p.toks(), p.builder().node_views(), last_node(*p)),
            operand_floor(p.toks(), p.builder().node_views(), last_node(*p)) matches Some(f)
                ==> declines(p.spec_current(), f),
            is_infix_node(last_child_kind(*p)) ==> (spec_infix_binding_power(
                operator_of(p.toks(), p.builder().node_views()[last_node(*p)]),
            ) matches Some((l, _)) && l >= min_bp),
            last_child_kind(*p) != SyntaxKind::NodeError,
            p.toks() == s0.toks(),
            clean(*p, s0) ==> s_expr_bp(s0.toks(), s0.pos(), min_bp) == s_bp_loop(s0.toks(), p.pos(), min_bp),
            !clean(*p, s0) ==> s_expr_bp(s0.toks(), s0.pos(), min_bp) is None,
        ensures
            declines(p.spec_current(), min_bp),
            clean(*p, s0) ==> s_expr_bp(s0.toks(), s0.pos(), min_bp) == Some(p.pos()),
            !clean(*p, s0) ==> s_expr_bp(s0.toks(), s0.pos(), min_bp) is None,
        decreases p.remaining(),
    {
        let ghost c = p.pos();
        let ghost t = p.toks();
        let ghost sc = *p;
        proof {
            lemma_nn_ge(t, c);
        }
        let op = p.current();
        if let Some(left_bp) = postfix_binding_power(op) {
            if left_bp < min_bp {
                break;
            }
            if op == SyntaxKind::Dot {
                let ghost a0 = *p;
                p.start_node_at(checkpoint, SyntaxKind::FieldAccessExpr);
                let ghost a1 = *p;
                proof {
                    assert(a0.builder().top_view().children.subrange(0, checkpoint.children as int)
                        =~= s0.builder().top_view().children);
                    lemma_wrapped_lhs(s0, a0, a1, SyntaxKind::FieldAccessExpr);
                }
                p.bump();
                p.expect(SyntaxKind::Ident);
                let ghost a2 = *p;
                proof {
                    assert(s_bp_loop(t, c, min_bp) == (match s_expect(t, after(t, c), SyntaxKind::Ident) {
                        None => None,
                        Some(e) => s_bp_loop(t, clamp(e, c + 1), min_bp),
                    }));
                }
                proof {
                    assert(a1.builder().top_view().children =~= seq![a0.builder().top_view().children.last()]);
                    lemma_postfix_built(a0, a1, a2, op);
                }
                p.finish_node();
                proof {
                    crate::parser::lemma_wrap_at(s0, a0, a1, a2, *p);
                    lemma_finish_wrapped(s0, a0, a1, a2, *p);
                    p.builder().lemma_node_count_fits();
                    assert(last_node(*p) == a2.builder().node_views().len());
                    assert(clean(*p, sc) ==> s_bp_loop(t, c, min_bp) == s_bp_loop(t, p.pos(), min_bp));
                    assert(!clean(*p, sc) ==> s_bp_loop(t, c, min_bp) is None);
                    assert(p.diags().len() >= sc.diags().len());
                }
            } else {
                let ghost a0 = *p;
                p.start_node_at(checkpoint, SyntaxKind::CallExpr);
                let ghost a1 = *p;
                proof {
                    assert(a0.builder().top_view().children.subrange(0, checkpoint.children as int)
                        =~= s0.builder().top_view().children);
                    lemma_wrapped_lhs(s0, a0, a1, SyntaxKind::CallExpr);
                }
                parse_arg_list(p);
                let ghost a2 = *p;
                proof {
                    assert(s_bp_loop(t, c, min_bp) == (match s_delim(t, c, SyntaxKind::RParen) {
                        None => None,
                        Some(e) => s_bp_loop(t, clamp(e, c + 1), min_bp),
                    }));
                }
                proof {
                    assert(a1.builder().top_view().children =~= seq![a0.builder().top_view().children.last()]);
                    lemma_postfix_built(a0, a1, a2, op);
                }
                p.finish_node();
                proof {
                    crate::parser::lemma_wrap_at(s0, a0, a1, a2, *p);
                    lemma_finish_wrapped(s0, a0, a1, a2, *p);
                    p.builder().lemma_node_count_fits();
                    assert(last_node(*p) == a2.builder().node_views().len());
                    assert(clean(*p, sc) ==> s_bp_loop(t, c, min_bp) == s_bp_loop(t, p.pos(), min_bp));
                    assert(!clean(*p, sc) ==> s_bp_loop(t, c, min_bp) is None);
                    assert(p.diags().len() >= sc.diags().len());
                }
            }
        } else if let Some((left_bp, right_bp)) = infix_binding_power(op) {
            if left_bp < min_bp {
                break;
            }
            let node_kind = if op == SyntaxKind::Pipe {
                SyntaxKind::PipelineExpr
            } else {
                SyntaxKind::BinaryExpr
            };
            wrap_infix(p, checkpoint, node_kind, right_bp, Ghost(s0));
            proof {
                assert(s_bp_loop(t, c, min_bp) == (match s_expr_bp(t, after(t, c), right_bp) {
                    None => None,
                    Some(e) => s_bp_loop(t, clamp(e, after(t, c)), min_bp),
                }));
                assert(clean(*p, sc) ==> s_bp_loop(t, c, min_bp) == s_bp_loop(t, p.pos(), min_bp));
                assert(!clean(*p, sc) ==> s_bp_loop(t, c, min_bp) is None);
                assert(p.diags().len() >= sc.diags().len());
            }
        } else {
            break;
        }
    }
    proof {
        crate::parser::lemma_added_keeps(*p, s0, last_child_kind(*p));
    }
}

/// ```text
/// ArgList = '(' (Expr (',' Expr)* ','?)? ')'
/// ```
fn parse_arg_list(p: &mut Parser)
    requires
        old(p).inv(),
        old(p).spec_current() != SyntaxKind::Eof,
    ensures
        final(p).inv(),
        final(p).evolves(*old(p)),
        final(p).pos() > old(p).pos(),
        keeps_under(*final(p), *old(p), SyntaxKind::ArgList),
        added_shaped(*final(p), *old(p), SyntaxKind::ArgList),
        reads(*final(p), *old(p), s_delim(old(p).toks(), old(p).pos(), SyntaxKind::RParen)),
    decreases old(p).remaining(), 1nat,
{
    parse_delimited_exprs(p, SyntaxKind::ArgList, SyntaxKind::RParen, "unexpected token in argument list");
}

/// ```text
/// ListExpr = '[' (Expr (',' Expr)* ','?)? ']'
/// ```
fn parse_list_expr(p: &mut Parser)
    requires
        old(p).inv(),
        old(p).spec_current() != SyntaxKind::Eof,
    ensures
        final(p).inv(),
        final(p).evolves(*old(p)),
        final(p).pos() > old(p).pos(),
        keeps_under(*final(p), *old(p), SyntaxKind::ListExpr),
        added_shaped(*final(p), *old(p), SyntaxKind::ListExpr),
        reads(*final(p), *old(p), s_delim(old(p).toks(), old(p).pos(), SyntaxKind::RBracket)),
    decreases old(p).remaining(), 1nat,
{
    parse_delimited_exprs(p, SyntaxKind::ListExpr, SyntaxKind::RBracket, "unexpected token in list");
}

/// An opening delimiter, comma-separated expressions, and a closing delimiter,
/// all in a node of `kind`.
fn parse_delimited_exprs(p: &mut Parser, kind: SyntaxKind, close: SyntaxKind, message: &str)
    requires
        old(p).inv(),
        kind == SyntaxKind::ArgList || kind == SyntaxKind::ListExpr,
        old(p).spec_current() != SyntaxKind::Eof,
    ensures
        final(p).inv(),
        final(p).evolves(*old(p)),
        final(p).pos() > old(p).pos(),
        keeps_under(*final(p), *old(p), kind),
        added_shaped(*final(p), *old(p), kind),
        reads(*final(p), *old(p), s_delim(old(p).toks(), old(p).pos(), close)),
    decreases old(p).remaining(), 0nat,
{
    let ghost s0 = *p;
    let ghost t = p.toks();
    p.start_node(kind);
    let ghost s1 = *p;
    p.bump();
    let ghost q1 = p.pos();
    let ghost sb = *p;
    while !p.at(close) && !p.at_eof()
        invariant_except_break
            clean(*p, sb) ==> s_exprs(t, q1, close) == s_exprs(t, p.pos(), close),
        invariant
            top_ok(*p, kind),
            kind == SyntaxKind::ArgList || kind == SyntaxKind::ListExpr,
            p.inv(),
            p.evolves(s1),
            p.evolves(sb),
            p.pos() > s0.pos(),
            p.remaining() < old(p).remaining(),
            t == p.toks(),
            !clean(*p, sb) ==> s_exprs(t, q1, close) is None,
        ensures
            top_ok(*p, kind),
            p.inv(),
            p.evolves(s1),
            p.evolves(sb),
            p.pos() > s0.pos(),
            clean(*p, sb) ==> (s_exprs(t, q1, close) == Some(p.pos())) || (s_exprs(t, q1, close) is None
                && p.spec_current() != close),
            !clean(*p, sb) ==> s_exprs(t, q1, close) is None,
        decreases p.remaining(),
    {
        let prev = p.position();
        parse_expr_bp(p, 0);
        if p.at(SyntaxKind::Comma) {
            p.bump();
        } else if !p.at(close) {
            if p.position() == prev {
                p.error_and_bump(message);
            }
            break;
        }
    }
    p.expect(close);
    let ghost s2 = *p;
    p.finish_node();
    proof {
        lemma_wrap(s0, s1, s2, *p);
        lemma_wrap_shaped(s0, s1, s2, *p);
    }
}

/// ```text
/// TryExpr = 'try' Expr
/// ```
fn parse_try_expr(p: &mut Parser)
    requires
        old(p).inv(),
        old(p).spec_current() != SyntaxKind::Eof,
    ensures
        final(p).inv(),
        final(p).evolves(*old(p)),
        final(p).pos() > old(p).pos(),
        keeps_under(*final(p), *old(p), SyntaxKind::TryExpr),
        added_shaped(*final(p), *old(p), SyntaxKind::TryExpr),
        reads(*final(p), *old(p), s_try(old(p).toks(), old(p).pos())),
    decreases old(p).remaining(), 1nat,
{
    let ghost s0 = *p;
    p.start_node(SyntaxKind::TryExpr);
    let ghost s1 = *p;
    p.bump();
    parse_expr_bp(p, 11);
    let ghost s2 = *p;
    p.finish_node();
    proof {
        lemma_wrap(s0, s1, s2, *p);
        lemma_wrap_shaped(s0, s1, s2, *p);
    }
}

/// ```text
/// IfExpr = 'if' Expr BlockExpr ('else' (IfExpr | BlockExpr))?
/// ```
fn parse_if_expr(p: &mut Parser)
    requires
        old(p).inv(),
        old(p).spec_current() != SyntaxKind::Eof,
    ensures
        final(p).inv(),
        final(p).evolves(*old(p)),
        final(p).pos() > old(p).pos(),
        keeps_under(*final(p), *old(p), SyntaxKind::IfExpr),
        added_shaped(*final(p), *old(p), SyntaxKind::IfExpr),
        reads(*final(p), *old(p), s_if(old(p).toks(), old(p).pos())),
    decreases old(p).remaining(), 1nat,
{
    let ghost s0 = *p;
    p.start_node(SyntaxKind::IfExpr);
    let ghost s1 = *p;
    p.bump();
    parse_expr_bp(p, 0);
    if p.at(SyntaxKind::LBrace) {
        parse_block_expr(p);
    } else {
        p.error_recover_until("expected block after `if` condition", &[SyntaxKind::ElseKw]);
    }
    if p.at(SyntaxKind::ElseKw) {
        p.bump();
        if p.at(SyntaxKind::IfKw) {
            parse_if_expr(p);
        } else if p.at(SyntaxKind::LBrace) {
            parse_block_expr(p);
        } else {
            p.error_recover_until("expected block or `if` after `else`", &[]);
        }
    }
    let ghost s2 = *p;
    p.finish_node();
    proof {
        lemma_wrap(s0, s1, s2, *p);
        lemma_wrap_shaped(s0, s1, s2, *p);
    }
}

// ── Match expressions and patterns ──────────────────────────────

/// Tokens that can start a pattern.
pub open spec fn pattern_start(k: SyntaxKind) -> bool {
    matches!(
        k,
        SyntaxKind::Underscore | SyntaxKind::IntLit | SyntaxKind::FloatLit | SyntaxKind::StringLit
            | SyntaxKind::TrueKw | SyntaxKind::FalseKw | SyntaxKind::Ident | SyntaxKind::LBracket
    )
}

/// Returns `true` if the current token can start a pattern.
fn at_pattern_start(p: &Parser) -> (b: bool)
    requires
        p.inv(),
    ensures
        b == pattern_start(p.spec_current()),
{
    let k = p.current();
    matches!(
        k,
        SyntaxKind::Underscore | SyntaxKind::IntLit | SyntaxKind::FloatLit | SyntaxKind::StringLit
            | SyntaxKind::TrueKw | SyntaxKind::FalseKw | SyntaxKind::Ident | SyntaxKind::LBracket
    )
}

/// Returns `true` if the text starts with an uppercase letter (identifiers are ASCII).
fn starts_uppercase(t: &str) -> (b: bool)
    ensures
        b == (t@.len() > 0 && 'A' <= t@[0] && t@[0] <= 'Z'),
{
    if t.unicode_len() == 0 {
        return false;
    }
    let c = t.get_char(0);
    'A' <= c && c <= 'Z'
}

/// ```text
/// Pattern = WildcardPat | LiteralPat | ConstructorPat | IdentPat | ListPat
/// ```
fn parse_pattern(p: &mut Parser)
    requires
        old(p).inv(),
    ensures
        final(p).inv(),
        final(p).evolves(*old(p)),
        old(p).spec_current() != SyntaxKind::Eof ==> final(p).pos() > old(p).pos(),
        is_pattern_node_kind(last_child_kind(*final(p))),
        keeps_under(*final(p), *old(p), last_child_kind(*final(p))),
        added_shaped(*final(p), *old(p), last_child_kind(*final(p))),
        reads(*final(p), *old(p), s_pattern(old(p).toks(), old(p).pos())),
    decreases old(p).remaining(), 1nat,
{
    let k = p.current();
    if k == SyntaxKind::Underscore {
        parse_single(p, SyntaxKind::WildcardPat);
    } else if k == SyntaxKind::IntLit || k == SyntaxKind::FloatLit || k == SyntaxKind::StringLit
        || k == SyntaxKind::TrueKw || k == SyntaxKind::FalseKw {
        parse_single(p, SyntaxKind::LiteralPat);
    } else if k == SyntaxKind::Ident {
        if p.nth(1) == SyntaxKind::LParen {
            parse_constructor_pat(p);
        } else if starts_uppercase(p.current_text()) {
            // Nullary constructor, e.g. `None`.
            parse_single(p, SyntaxKind::ConstructorPat);
        } else {
            parse_single(p, SyntaxKind::IdentPat);
        }
    } else if k == SyntaxKind::LBracket {
        parse_list_pat(p);
    } else {
        p.error_and_bump("expected pattern");
    }
}

/// ```text
/// ConstructorPat = IDENT '(' (Pattern (',' Pattern)* ','?)? ')'
/// ```
fn parse_constructor_pat(p: &mut Parser)
    requires
        old(p).inv(),
        old(p).spec_current() == SyntaxKind::Ident,
        old(p).spec_nth(1) == SyntaxKind::LParen,
    ensures
        final(p).inv(),
        final(p).evolves(*old(p)),
        final(p).pos() > old(p).pos(),
        keeps_under(*final(p), *old(p), SyntaxKind::ConstructorPat),
        added_shaped(*final(p), *old(p), SyntaxKind::ConstructorPat),
        reads(*final(p), *old(p), s_ctor_pat(old(p).toks(), old(p).pos())),
    decreases old(p).remaining(), 0nat,
{
    let ghost s0 = *p;
    let ghost t = p.toks();
    p.start_node(SyntaxKind::ConstructorPat);
    let ghost s1 = *p;
    p.bump();
    proof {
        crate::parser::lemma_nth1(s1, *p);
    }
    p.bump();
    let ghost q1 = p.pos();
    let ghost sb = *p;
    while !p.at(SyntaxKind::RParen) && !p.at_eof()
        invariant_except_break
            clean(*p, sb) ==> s_patterns(t, q1, SyntaxKind::RParen) == s_patterns(t, p.pos(), SyntaxKind::RParen),
        invariant
            top_ok(*p, SyntaxKind::ConstructorPat),
            p.inv(),
            p.evolves(s1),
            p.evolves(sb),
            p.pos() > s0.pos(),
            p.remaining() < old(p).remaining(),
            t == p.toks(),
            !clean(*p, sb) ==> s_patterns(t, q1, SyntaxKind::RParen) is None,
        ensures
            top_ok(*p, SyntaxKind::ConstructorPat),
            p.inv(),
            p.evolves(s1),
            p.evolves(sb),
            p.pos() > s0.pos(),
            clean(*p, sb) ==> (s_patterns(t, q1, SyntaxKind::RParen) == Some(p.pos())) || (s_patterns(
                t,
                q1,
                SyntaxKind::RParen,
            ) is None && p.spec_current() != SyntaxKind::RParen),
            !clean(*p, sb) ==> s_patterns(t, q1, SyntaxKind::RParen) is None,
        decreases p.remaining(),
    {
        let prev = p.position();
        parse_pattern(p);
        if p.at(SyntaxKind::Comma) {
            p.bump();
        } else if !p.at(SyntaxKind::RParen) {
            if p.position() == prev {
                p.error_and_bump("unexpected token in constructor pattern");
            }
            break;
        }
    }
    p.expect(SyntaxKind::RParen);
    let ghost s2 = *p;
    p.finish_node();
    proof {
        lemma_wrap(s0, s1, s2, *p);
        lemma_wrap_shaped(s0, s1, s2, *p);
    }
}

/// ```text
/// ListPat = '[' (Pattern (',' Pattern)* ','?)? ('..' IDENT?)? ']'
/// ```
fn parse_list_pat(p: &mut Parser)
    requires
        old(p).inv(),
        old(p).spec_current() != SyntaxKind::Eof,
    ensures
        final(p).inv(),
        final(p).evolves(*old(p)),
        final(p).pos() > old(p).pos(),
        keeps_under(*final(p), *old(p), SyntaxKind::ListPat),
        added_shaped(*final(p), *old(p), SyntaxKind::ListPat),
        reads(*final(p), *old(p), s_list_pat(old(p).toks(), old(p).pos())),
    decreases old(p).remaining(), 0nat,
{
    let ghost s0 = *p;
    let ghost t = p.toks();
    p.start_node(SyntaxKind::ListPat);
    let ghost s1 = *p;
    p.bump();
    let ghost q1 = p.pos();
    let ghost sb = *p;
    while !p.at(SyntaxKind::RBracket) && !p.at(SyntaxKind::DotDot) && !p.at_eof()
        invariant_except_break
            clean(*p, sb) ==> s_patterns(t, q1, SyntaxKind::RBracket) == s_patterns(
                t,
                p.pos(),
                SyntaxKind::RBracket,
            ),
        invariant
            top_ok(*p, SyntaxKind::ListPat),
            p.inv(),
            p.evolves(s1),
            p.evolves(sb),
            p.pos() > s0.pos(),
            p.remaining() < old(p).remaining(),
            t == p.toks(),
            !clean(*p, sb) ==> s_patterns(t, q1, SyntaxKind::RBracket) is None,
        ensures
            top_ok(*p, SyntaxKind::ListPat),
            p.inv(),
            p.evolves(s1),
            p.evolves(sb),
            p.pos() > s0.pos(),
            clean(*p, sb) ==> (s_patterns(t, q1, SyntaxKind::RBracket) == Some(p.pos())) || (s_patterns(
                t,
                q1,
                SyntaxKind::RBracket,
            ) is None && p.spec_current() != SyntaxKind::RBracket && p.spec_current() != SyntaxKind::DotDot),
            !clean(*p, sb) ==> s_patterns(t, q1, SyntaxKind::RBracket) is None,
        decreases p.remaining(),
    {
        let prev = p.position();
        parse_pattern(p);
        if p.at(SyntaxKind::Comma) {
            p.bump();
        } else if !p.at(SyntaxKind::RBracket) && !p.at(SyntaxKind::DotDot) {
            if p.position() == prev {
                p.error_and_bump("unexpected token in list pattern");
            }
            break;
        }
    }
    // Optional rest pattern: `..` or `..rest`
    if p.at(SyntaxKind::DotDot) {
        p.bump();
        if p.at(SyntaxKind::Ident) {
            p.bump();
        }
    }
    p.expect(SyntaxKind::RBracket);
    let ghost s2 = *p;
    p.finish_node();
    proof {
        lemma_wrap(s0, s1, s2, *p);
        lemma_wrap_shaped(s0, s1, s2, *p);
    }
}

/// ```text
/// Guard = 'if' Expr
/// ```
fn parse_guard(p: &mut Parser)
    requires
        old(p).inv(),
        old(p).spec_current() != SyntaxKind::Eof,
    ensures
        final(p).inv(),
        final(p).evolves(*old(p)),
        final(p).pos() > old(p).pos(),
        keeps_under(*final(p), *old(p), SyntaxKind::Guard),
        added_shaped(*final(p), *old(p), SyntaxKind::Guard),
        reads(*final(p), *old(p), s_guard(old(p).toks(), old(p).pos())),
    decreases old(p).remaining(), 1nat,
{
    let ghost s0 = *p;
    p.start_node(SyntaxKind::Guard);
    let ghost s1 = *p;
    p.bump();
    parse_expr_bp(p, 0);
    let ghost s2 = *p;
    p.finish_node();
    proof {
        lemma_wrap(s0, s1, s2, *p);
        lemma_wrap_shaped(s0, s1, s2, *p);
    }
}

/// ```text
/// MatchArm = Pattern Guard? '->' Expr
/// ```
fn parse_match_arm(p: &mut Parser)
    requires
        old(p).inv(),
        old(p).spec_current() != SyntaxKind::Eof,
    ensures
        final(p).inv(),
        final(p).evolves(*old(p)),
        final(p).pos() > old(p).pos(),
        keeps_under(*final(p), *old(p), SyntaxKind::MatchArm),
        added_shaped(*final(p), *old(p), SyntaxKind::MatchArm),
        reads(*final(p), *old(p), s_match_arm(old(p).toks(), old(p).pos())),
    decreases old(p).remaining(), 1nat,
{
    let ghost s0 = *p;
    p.start_node(SyntaxKind::MatchArm);
    let ghost s1 = *p;
    parse_pattern(p);
    if p.at(SyntaxKind::IfKw) {
        parse_guard(p);
    }
    let found_arrow = if p.at(SyntaxKind::Arrow) {
        p.bump();
        true
    } else {
        p.error_recover_until("expected `->` after pattern", &[SyntaxKind::Arrow]);
        if p.at(SyntaxKind::Arrow) {
            p.bump();
            true
        } else {
            false
        }
    };
    if found_arrow {
        parse_expr_bp(p, 0);
    }
    let ghost s2 = *p;
    p.finish_node();
    proof {
        lemma_wrap(s0, s1, s2, *p);
        lemma_wrap_shaped(s0, s1, s2, *p);
    }
}

/// ```text
/// MatchExpr = 'match' Expr '{' MatchArm* '}'
/// ```
fn parse_match_expr(p: &mut Parser)
    requires
        old(p).inv(),
        old(p).spec_current() != SyntaxKind::Eof,
    ensures
        final(p).inv(),
        final(p).evolves(*old(p)),
        final(p).pos() > old(p).pos(),
        keeps_under(*final(p), *old(p), SyntaxKind::MatchExpr),
        added_shaped(*final(p), *old(p), SyntaxKind::MatchExpr),
        reads(*final(p), *old(p), s_match(old(p).toks(), old(p).pos())),
    decreases old(p).remaining(), 1nat,
{
    let ghost s0 = *p;
    p.start_node(SyntaxKind::MatchExpr);
    let ghost s1 = *p;
    p.bump();
    let ghost q1 = p.pos();
    parse_expr_bp(p, 0);
    let ghost q2 = p.pos();
    if p.at(SyntaxKind::LBrace) {
        p.bump();
    } else {
        let span = p.current_span();
        p.push_diagnostic(
            crate::diagnostic::Diagnostic::error("expected block after match subject", span).with_label(
                span,
                "expected `{`",
            ),
        );
    }
    let ghost q3 = p.pos();
    let ghost sb = *p;
    while !p.at(SyntaxKind::RBrace) && !p.at_eof()
        invariant
            top_ok(*p, SyntaxKind::MatchExpr),
            p.inv(),
            p.evolves(s1),
            p.evolves(sb),
            p.pos() > s0.pos(),
            p.remaining() < old(p).remaining(),
            p.toks() == s0.toks(),
            clean(*p, sb) ==> s_arms(s0.toks(), q3) == s_arms(s0.toks(), p.pos()),
            !clean(*p, sb) ==> s_arms(s0.toks(), q3) is None,
        ensures
            top_ok(*p, SyntaxKind::MatchExpr),
            p.inv(),
            p.evolves(s1),
            p.evolves(sb),
            p.pos() > s0.pos(),
            clean(*p, sb) ==> s_arms(s0.toks(), q3) == Some(p.pos()),
            !clean(*p, sb) ==> s_arms(s0.toks(), q3) is None,
        decreases p.remaining(),
    {
        let prev = p.position();
        if at_pattern_start(p) {
            parse_match_arm(p);
        } else {
            p.error_and_bump("expected pattern");
        }
        if p.position() == prev {
            p.error_and_bump("unexpected token in match");
            break;
        }
    }
    p.expect(SyntaxKind::RBrace);
    let ghost s2 = *p;
    p.finish_node();
    proof {
        lemma_wrap(s0, s1, s2, *p);
        lemma_wrap_shaped(s0, s1, s2, *p);
    }
}

// ── The grammar as a recognizer ─────────────────────────────────
//
// Each `s_*` function below reads the token stream `t` from position `q`
// the way the rule of the same name does, and gives the position where
// the rule stops when it reads a well-formed construct, or `None` where
// the rule reports an error. Every rule reports an error exactly where its
// recognizer gives `None`.

/// No diagnostic was reported between `old` and `new`.
pub open spec fn clean(new: Parser, old: Parser) -> bool {
    new.diags().len() == old.diags().len()
}

/// Going from `old` to `new`, the parser reported no diagnostic exactly
/// when the recognizer's result `r` is a position, and then stopped there.
pub open spec fn reads(new: Parser, old: Parser, r: Option<int>) -> bool {
    &&& clean(new, old) == (r is Some)
    &&& clean(new, old) ==> new.pos() == r->0
}

/// The kind of the non-trivia token at or after `q`.
pub open spec fn cur(t: Seq<TokenView>, q: int) -> SyntaxKind {
    kind_at(t, next_nontrivia(t, q))
}

/// The position just after the non-trivia token at or after `q`.
pub open spec fn after(t: Seq<TokenView>, q: int) -> int {
    next_nontrivia(t, q) + 1
}

/// The kind of the second non-trivia token at or after `q`.
pub open spec fn cur2(t: Seq<TokenView>, q: int) -> SyntaxKind {
    kind_at(t, nth_nontrivia(t, q, 1))
}

/// What remains to read from `q`, for termination.
pub open spec fn meas(t: Seq<TokenView>, q: int) -> int {
    if 0 <= q < t.len() {
        t.len() - q
    } else {
        0
    }
}

/// `e`, or `lo` when `e` is below it.
pub open spec fn clamp(e: int, lo: int) -> int {
    if e >= lo {
        e
    } else {
        lo
    }
}

/// A token of kind `k` at `q`.
pub open spec fn s_expect(t: Seq<TokenView>, q: int, k: SyntaxKind) -> Option<int> {
    if cur(t, q) == k {
        if k == SyntaxKind::Eof {
            Some(q)
        } else {
            Some(after(t, q))
        }
    } else {
        None
    }
}

pub proof fn lemma_nn_ge(t: Seq<TokenView>, q: int)
    ensures
        next_nontrivia(t, q) >= q,
    decreases t.len() - q,
{
    if 0 <= q < t.len() && t[q].kind.spec_is_trivia() {
        lemma_nn_ge(t, q + 1);
    }
}

/// `TypeExpr = IDENT ('(' TypeExpr (',' TypeExpr)* ','? ')')?`
pub open spec fn s_type_expr(t: Seq<TokenView>, q: int) -> Option<int>
    decreases meas(t, q), 1int,
{
    if !(0 <= q < t.len()) {
        None
    } else {
        proof {
            lemma_nn_ge(t, q);
        }
        match s_expect(t, q, SyntaxKind::Ident) {
            None => None,
            Some(q1) => if cur(t, q1) == SyntaxKind::LParen {
                proof {
                    lemma_nn_ge(t, q1);
                }
                let q2 = after(t, q1);
                let r = if cur(t, q2) != SyntaxKind::RParen && cur(t, q2) != SyntaxKind::Eof {
                    match s_type_expr(t, q2) {
                        None => None,
                        Some(e) => s_type_args(t, clamp(e, q2)),
                    }
                } else {
                    Some(q2)
                };
                match r {
                    None => None,
                    Some(q3) => s_expect(t, q3, SyntaxKind::RParen),
                }
            } else {
                Some(q1)
            },
        }
    }
}

/// `(',' TypeExpr)* ','?` inside type arguments.
pub open spec fn s_type_args(t: Seq<TokenView>, q: int) -> Option<int>
    decreases meas(t, q), 0int,
{
    if !(0 <= q < t.len()) {
        None
    } else if cur(t, q) == SyntaxKind::Comma {
        proof {
            lemma_nn_ge(t, q);
        }
        let q1 = after(t, q);
        if cur(t, q1) == SyntaxKind::RParen {
            Some(q1)
        } else {
            match s_type_expr(t, q1) {
                None => None,
                Some(e) => s_type_args(t, clamp(e, q1)),
            }
        }
    } else {
        Some(q)
    }
}

/// `(',' TypeParam)* ','?` inside type parameters.
pub open spec fn s_type_params_rest(t: Seq<TokenView>, q: int) -> Option<int>
    decreases meas(t, q),
{
    if !(0 <= q < t.len()) {
        None
    } else if cur(t, q) == SyntaxKind::Comma {
        proof {
            lemma_nn_ge(t, q);
        }
        let q1 = after(t, q);
        if cur(t, q1) == SyntaxKind::RParen {
            Some(q1)
        } else {
            match s_expect(t, q1, SyntaxKind::Ident) {
                None => None,
                Some(q2) => {
                    proof {
                        lemma_nn_ge(t, q1);
                    }
                    s_type_params_rest(t, q2)
                },
            }
        }
    } else {
        Some(q)
    }
}

/// `TypeParams = '(' TypeParam (',' TypeParam)* ','? ')'`
pub open spec fn s_type_param_list(t: Seq<TokenView>, q: int) -> Option<int> {
    let q1 = after(t, q);
    let r = if cur(t, q1) != SyntaxKind::RParen && cur(t, q1) != SyntaxKind::Eof {
        match s_expect(t, q1, SyntaxKind::Ident) {
            None => None,
            Some(q2) => s_type_params_rest(t, q2),
        }
    } else {
        Some(q1)
    };
    match r {
        None => None,
        Some(q3) => s_expect(t, q3, SyntaxKind::RParen),
    }
}

/// `Field = IDENT ':' TypeExpr`
pub open spec fn s_record_field(t: Seq<TokenView>, q: int) -> Option<int> {
    match s_expect(t, q, SyntaxKind::Ident) {
        None => None,
        Some(q1) => match s_expect(t, q1, SyntaxKind::Colon) {
            None => None,
            Some(q2) => s_type_expr(t, q2),
        },
    }
}

/// `VarField = (IDENT ':')? TypeExpr`
pub open spec fn s_variant_field(t: Seq<TokenView>, q: int) -> Option<int> {
    if cur(t, q) == SyntaxKind::Ident && cur2(t, q) == SyntaxKind::Colon {
        s_type_expr(t, after(t, after(t, q)))
    } else {
        s_type_expr(t, q)
    }
}

/// `(',' VarField)* ','?` inside variant arguments.
pub open spec fn s_variant_fields_rest(t: Seq<TokenView>, q: int) -> Option<int>
    decreases meas(t, q),
{
    if !(0 <= q < t.len()) {
        None
    } else if cur(t, q) == SyntaxKind::Comma {
        proof {
            lemma_nn_ge(t, q);
        }
        let q1 = after(t, q);
        if cur(t, q1) == SyntaxKind::RParen {
            Some(q1)
        } else {
            match s_variant_field(t, q1) {
                None => None,
                Some(e) => s_variant_fields_rest(t, clamp(e, q1)),
            }
        }
    } else {
        Some(q)
    }
}

/// `Variant = IDENT ('(' VarField (',' VarField)* ','? ')')?`
pub open spec fn s_variant(t: Seq<TokenView>, q: int) -> Option<int> {
    match s_expect(t, q, SyntaxKind::Ident) {
        None => None,
        Some(q1) => if cur(t, q1) == SyntaxKind::LParen {
            let q2 = after(t, q1);
            let r = if cur(t, q2) != SyntaxKind::RParen && cur(t, q2) != SyntaxKind::Eof {
                match s_variant_field(t, q2) {
                    None => None,
                    Some(e) => s_variant_fields_rest(t, clamp(e, q2)),
                }
            } else {
                Some(q2)
            };
            match r {
                None => None,
                Some(q3) => s_expect(t, q3, SyntaxKind::RParen),
            }
        } else {
            Some(q1)
        },
    }
}

/// The fields or variants of a type body, up to where it ends.
pub open spec fn s_type_items(t: Seq<TokenView>, q: int, record: bool) -> Option<int>
    decreases meas(t, q),
{
    if !(0 <= q < t.len()) {
        None
    } else if type_body_end(cur(t, q)) {
        Some(q)
    } else if cur(t, q) == SyntaxKind::Ident {
        let r = if record {
            s_record_field(t, q)
        } else {
            s_variant(t, q)
        };
        match r {
            None => None,
            Some(e) => s_type_items(t, clamp(e, q + 1), record),
        }
    } else {
        None
    }
}

/// A type body: nothing before `}`, else record fields when it starts
/// with `IDENT :`, else variants.
pub open spec fn s_type_body(t: Seq<TokenView>, q: int) -> Option<int> {
    if cur(t, q) == SyntaxKind::RBrace {
        Some(q)
    } else {
        s_type_items(t, q, cur(t, q) == SyntaxKind::Ident && cur2(t, q) == SyntaxKind::Colon)
    }
}

/// `TypeDef = Visibility? 'type' IDENT TypeParams? '{' TypeBody '}'`
pub open spec fn s_type_def(t: Seq<TokenView>, q: int) -> Option<int> {
    let q1 = if cur(t, q) == SyntaxKind::PubKw {
        after(t, q)
    } else {
        q
    };
    match s_expect(t, q1, SyntaxKind::TypeKw) {
        None => None,
        Some(q2) => match s_expect(t, q2, SyntaxKind::Ident) {
            None => None,
            Some(q3) => {
                let r = if cur(t, q3) == SyntaxKind::LParen {
                    s_type_param_list(t, q3)
                } else {
                    Some(q3)
                };
                match r {
                    None => None,
                    Some(q4) => if cur(t, clamp(q4, q3)) == SyntaxKind::LBrace {
                        match s_type_body(t, after(t, clamp(q4, q3))) {
                            None => None,
                            Some(q6) => s_expect(t, q6, SyntaxKind::RBrace),
                        }
                    } else {
                        None
                    },
                }
            },
        },
    }
}

/// `('.' IDENT)*` in an import path.
pub open spec fn s_import_path(t: Seq<TokenView>, q: int) -> Option<int>
    decreases meas(t, q),
{
    if !(0 <= q < t.len()) {
        None
    } else if cur(t, q) == SyntaxKind::Dot {
        proof {
            lemma_nn_ge(t, q);
            lemma_nn_ge(t, after(t, q));
        }
        match s_expect(t, after(t, q), SyntaxKind::Ident) {
            None => None,
            Some(q2) => s_import_path(t, q2),
        }
    } else {
        Some(q)
    }
}

/// `ImportStmt = 'import' IDENT ('.' IDENT)* ('as' IDENT)?`
pub open spec fn s_import(t: Seq<TokenView>, q: int) -> Option<int> {
    match s_expect(t, after(t, q), SyntaxKind::Ident) {
        None => None,
        Some(q2) => match s_import_path(t, q2) {
            None => None,
            Some(q3) => if cur(t, q3) == SyntaxKind::AsKw {
                s_expect(t, after(t, q3), SyntaxKind::Ident)
            } else {
                Some(q3)
            },
        },
    }
}

/// `FromPythonImportStmt = 'from' 'python' 'import' IDENT ('as' IDENT)?`
pub open spec fn s_from_import(t: Seq<TokenView>, q: int) -> Option<int> {
    let q1 = after(t, q);
    if cur(t, q1) != SyntaxKind::PythonKw {
        None
    } else {
        match s_expect(t, after(t, q1), SyntaxKind::ImportKw) {
            None => None,
            Some(q3) => match s_expect(t, q3, SyntaxKind::Ident) {
                None => None,
                Some(q4) => if cur(t, q4) == SyntaxKind::AsKw {
                    s_expect(t, after(t, q4), SyntaxKind::Ident)
                } else {
                    Some(q4)
                },
            },
        }
    }
}

/// `Param = IDENT (':' TypeExpr)?`, the annotation required when `req`.
pub open spec fn s_param(t: Seq<TokenView>, q: int, req: bool) -> Option<int> {
    match s_expect(t, q, SyntaxKind::Ident) {
        None => None,
        Some(q1) => if cur(t, q1) == SyntaxKind::Colon {
            let q2 = after(t, q1);
            if cur(t, q2) == SyntaxKind::Ident {
                s_type_expr(t, q2)
            } else {
                None
            }
        } else if req {
            None
        } else {
            Some(q1)
        },
    }
}

/// The parameters of a parameter list, up to its `)`.
pub open spec fn s_params(t: Seq<TokenView>, q: int, req: bool) -> Option<int>
    decreases meas(t, q),
{
    if !(0 <= q < t.len()) {
        None
    } else if cur(t, q) == SyntaxKind::RParen || cur(t, q) == SyntaxKind::Eof {
        Some(q)
    } else {
        match s_param(t, q, req) {
            None => None,
            Some(e) => {
                let e1 = clamp(e, q);
                proof {
                    lemma_nn_ge(t, e1);
                }
                if cur(t, e1) == SyntaxKind::Comma {
                    s_params(t, after(t, e1), req)
                } else if cur(t, e1) == SyntaxKind::RParen {
                    Some(e1)
                } else {
                    None
                }
            },
        }
    }
}

/// `ParamList = '(' (Param (',' Param)* ','?)? ')'`
pub open spec fn s_param_list(t: Seq<TokenView>, q: int, req: bool) -> Option<int> {
    match s_params(t, after(t, q), req) {
        None => None,
        Some(q2) => s_expect(t, q2, SyntaxKind::RParen),
    }
}

/// `ReturnType = '->' TypeExpr`
pub open spec fn s_return_type(t: Seq<TokenView>, q: int) -> Option<int> {
    let q1 = after(t, q);
    if cur(t, q1) == SyntaxKind::Ident {
        s_type_expr(t, q1)
    } else {
        None
    }
}

/// Past the function modifiers `pure` and `async` at `q`.
pub open spec fn skip_modifiers(t: Seq<TokenView>, q: int) -> int
    decreases meas(t, q),
{
    if !(0 <= q < t.len()) {
        q
    } else if cur(t, q) == SyntaxKind::Ident && is_fn_modifier(t[next_nontrivia(t, q)].text) {
        proof {
            lemma_nn_ge(t, q);
        }
        skip_modifiers(t, after(t, q))
    } else {
        q
    }
}

/// `Pattern = WildcardPat | LiteralPat | ConstructorPat | IdentPat | ListPat`
pub open spec fn s_pattern(t: Seq<TokenView>, q: int) -> Option<int>
    decreases meas(t, q), 1int,
{
    if !(0 <= q < t.len()) {
        None
    } else {
        let k = cur(t, q);
        if k == SyntaxKind::Underscore || k == SyntaxKind::IntLit || k == SyntaxKind::FloatLit || k
            == SyntaxKind::StringLit || k == SyntaxKind::TrueKw || k == SyntaxKind::FalseKw {
            Some(after(t, q))
        } else if k == SyntaxKind::Ident {
            if cur2(t, q) == SyntaxKind::LParen {
                s_ctor_pat(t, q)
            } else {
                Some(after(t, q))
            }
        } else if k == SyntaxKind::LBracket {
            s_list_pat(t, q)
        } else {
            None
        }
    }
}

/// `ConstructorPat = IDENT '(' (Pattern (',' Pattern)* ','?)? ')'`
pub open spec fn s_ctor_pat(t: Seq<TokenView>, q: int) -> Option<int>
    decreases meas(t, q), 0int,
{
    if !(0 <= q < t.len()) {
        None
    } else {
        proof {
            lemma_nn_ge(t, q);
            lemma_nn_ge(t, after(t, q));
        }
        match s_patterns(t, after(t, after(t, q)), SyntaxKind::RParen) {
            None => None,
            Some(q3) => s_expect(t, q3, SyntaxKind::RParen),
        }
    }
}

/// The patterns inside a constructor (up to `)`) or a list pattern (up
/// to `]` or `..`).
pub open spec fn s_patterns(t: Seq<TokenView>, q: int, close: SyntaxKind) -> Option<int>
    decreases meas(t, q), 2int,
{
    if !(0 <= q < t.len()) {
        None
    } else if cur(t, q) == close || cur(t, q) == SyntaxKind::Eof || (close == SyntaxKind::RBracket && cur(t, q)
        == SyntaxKind::DotDot) {
        Some(q)
    } else {
        match s_pattern(t, q) {
            None => None,
            Some(e) => {
                let e1 = clamp(e, q);
                proof {
                    lemma_nn_ge(t, e1);
                }
                if cur(t, e1) == SyntaxKind::Comma {
                    s_patterns(t, after(t, e1), close)
                } else if cur(t, e1) == close || (close == SyntaxKind::RBracket && cur(t, e1) == SyntaxKind::DotDot) {
                    Some(e1)
                } else {
                    None
                }
            },
        }
    }
}

/// `ListPat = '[' (Pattern (',' Pattern)* ','?)? ('..' IDENT?)? ']'`
pub open spec fn s_list_pat(t: Seq<TokenView>, q: int) -> Option<int>
    decreases meas(t, q), 0int,
{
    if !(0 <= q < t.len()) {
        None
    } else {
        proof {
            lemma_nn_ge(t, q);
        }
        match s_patterns(t, after(t, q), SyntaxKind::RBracket) {
            None => None,
            Some(q2) => {
                let q4 = if cur(t, q2) == SyntaxKind::DotDot {
                    if cur(t, after(t, q2)) == SyntaxKind::Ident {
                        after(t, after(t, q2))
                    } else {
                        after(t, q2)
                    }
                } else {
                    q2
                };
                s_expect(t, q4, SyntaxKind::RBracket)
            },
        }
    }
}

/// `Expr` at binding power `min_bp`: an atom or prefix expression, then the
/// operators that bind at least that tightly.
pub open spec fn s_expr_bp(t: Seq<TokenView>, q: int, min_bp: u8) -> Option<int>
    decreases meas(t, q), 3int,
{
    if !(0 <= q < t.len()) {
        None
    } else {
        proof {
            lemma_nn_ge(t, q);
        }
        let k = cur(t, q);
        let q1 = after(t, q);
        let r = if spec_prefix_binding_power(k) is Some {
            match s_expr_bp(t, q1, 11) {
                None => None,
                Some(e) => Some(clamp(e, q1)),
            }
        } else if k == SyntaxKind::LParen {
            match s_expr_bp(t, q1, 0) {
                None => None,
                Some(e) => s_expect(t, clamp(e, q1), SyntaxKind::RParen),
            }
        } else if k == SyntaxKind::IfKw {
            s_if(t, q)
        } else if k == SyntaxKind::MatchKw {
            s_match(t, q)
        } else if k == SyntaxKind::FnKw {
            s_lambda(t, q)
        } else if k == SyntaxKind::LBracket {
            s_delim(t, q, SyntaxKind::RBracket)
        } else if k == SyntaxKind::TryKw {
            s_try(t, q)
        } else if k == SyntaxKind::IntLit || k == SyntaxKind::FloatLit || k == SyntaxKind::StringLit || k
            == SyntaxKind::TrueKw || k == SyntaxKind::FalseKw || k == SyntaxKind::Ident {
            Some(q1)
        } else {
            None
        };
        match r {
            None => None,
            Some(e) => s_bp_loop(t, clamp(e, q + 1), min_bp),
        }
    }
}

/// The postfix and infix operators after an operand, as long as they bind
/// at least as tightly as `min_bp`.
pub open spec fn s_bp_loop(t: Seq<TokenView>, q: int, min_bp: u8) -> Option<int>
    decreases meas(t, q), 2int,
{
    if !(0 <= q < t.len()) {
        None
    } else {
        proof {
            lemma_nn_ge(t, q);
        }
        let op = cur(t, q);
        match spec_postfix_binding_power(op) {
            Some(l) => if l < min_bp {
                Some(q)
            } else if op == SyntaxKind::Dot {
                match s_expect(t, after(t, q), SyntaxKind::Ident) {
                    None => None,
                    Some(e) => s_bp_loop(t, clamp(e, q + 1), min_bp),
                }
            } else {
                match s_delim(t, q, SyntaxKind::RParen) {
                    None => None,
                    Some(e) => s_bp_loop(t, clamp(e, q + 1), min_bp),
                }
            },
            None => match spec_infix_binding_power(op) {
                Some((l, r)) => if l < min_bp {
                    Some(q)
                } else {
                    match s_expr_bp(t, after(t, q), r) {
                        None => None,
                        Some(e) => s_bp_loop(t, clamp(e, after(t, q)), min_bp),
                    }
                },
                None => Some(q),
            },
        }
    }
}

/// An opening delimiter, comma-separated expressions, and `close`.
pub open spec fn s_delim(t: Seq<TokenView>, q: int, close: SyntaxKind) -> Option<int>
    decreases meas(t, q), 0int,
{
    if !(0 <= q < t.len()) {
        None
    } else {
        proof {
            lemma_nn_ge(t, q);
        }
        match s_exprs(t, after(t, q), close) {
            None => None,
            Some(q2) => s_expect(t, q2, close),
        }
    }
}

/// Comma-separated expressions up to `close`.
pub open spec fn s_exprs(t: Seq<TokenView>, q: int, close: SyntaxKind) -> Option<int>
    decreases meas(t, q), 4int,
{
    if !(0 <= q < t.len()) {
        None
    } else if cur(t, q) == close || cur(t, q) == SyntaxKind::Eof {
        Some(q)
    } else {
        match s_expr_bp(t, q, 0) {
            None => None,
            Some(e) => {
                let e1 = clamp(e, q);
                proof {
                    lemma_nn_ge(t, e1);
                }
                if cur(t, e1) == SyntaxKind::Comma {
                    s_exprs(t, after(t, e1), close)
                } else if cur(t, e1) == close {
                    Some(e1)
                } else {
                    None
                }
            },
        }
    }
}

/// `TryExpr = 'try' Expr`
pub open spec fn s_try(t: Seq<TokenView>, q: int) -> Option<int>
    decreases meas(t, q), 1int,
{
    if !(0 <= q < t.len()) {
        None
    } else {
        proof {
            lemma_nn_ge(t, q);
        }
        s_expr_bp(t, after(t, q), 11)
    }
}

/// `Guard = 'if' Expr`
pub open spec fn s_guard(t: Seq<TokenView>, q: int) -> Option<int>
    decreases meas(t, q), 1int,
{
    if !(0 <= q < t.len()) {
        None
    } else {
        proof {
            lemma_nn_ge(t, q);
        }
        s_expr_bp(t, after(t, q), 0)
    }
}

/// `IfExpr = 'if' Expr BlockExpr ('else' (IfExpr | BlockExpr))?`
pub open spec fn s_if(t: Seq<TokenView>, q: int) -> Option<int>
    decreases meas(t, q), 1int,
{
    if !(0 <= q < t.len()) {
        None
    } else {
        proof {
            lemma_nn_ge(t, q);
        }
        let q1 = after(t, q);
        match s_expr_bp(t, q1, 0) {
            None => None,
            Some(e) => {
                let q2 = clamp(e, q1);
                if cur(t, q2) != SyntaxKind::LBrace {
                    None
                } else {
                    match s_block(t, q2) {
                        None => None,
                        Some(e3) => {
                            let q3 = clamp(e3, q2);
                            proof {
                                lemma_nn_ge(t, q3);
                            }
                            if cur(t, q3) == SyntaxKind::ElseKw {
                                let q4 = after(t, q3);
                                if cur(t, q4) == SyntaxKind::IfKw {
                                    s_if(t, q4)
                                } else if cur(t, q4) == SyntaxKind::LBrace {
                                    s_block(t, q4)
                                } else {
                                    None
                                }
                            } else {
                                Some(q3)
                            }
                        },
                    }
                }
            },
        }
    }
}

/// `BlockExpr = '{' (LetStmt | Expr)* '}'`
pub open spec fn s_block(t: Seq<TokenView>, q: int) -> Option<int>
    decreases meas(t, q), 1int,
{
    if !(0 <= q < t.len()) {
        None
    } else {
        proof {
            lemma_nn_ge(t, q);
        }
        match s_block_items(t, after(t, q)) {
            None => None,
            Some(q2) => s_expect(t, q2, SyntaxKind::RBrace),
        }
    }
}

/// The statements of a block, up to `}`, the end of input, or a named
/// function.
pub open spec fn s_block_items(t: Seq<TokenView>, q: int) -> Option<int>
    decreases meas(t, q), 5int,
{
    if !(0 <= q < t.len()) {
        None
    } else if cur(t, q) == SyntaxKind::RBrace || cur(t, q) == SyntaxKind::Eof || (cur(t, q) == SyntaxKind::FnKw
        && cur2(t, q) == SyntaxKind::Ident) {
        Some(q)
    } else {
        let r = if cur(t, q) == SyntaxKind::LetKw {
            s_let(t, q)
        } else {
            s_expr_bp(t, q, 0)
        };
        match r {
            None => None,
            Some(e) => if e > q {
                s_block_items(t, e)
            } else {
                None
            },
        }
    }
}

/// `LetStmt = 'let' IDENT '=' Expr`
pub open spec fn s_let(t: Seq<TokenView>, q: int) -> Option<int>
    decreases meas(t, q), 1int,
{
    if !(0 <= q < t.len()) {
        None
    } else {
        proof {
            lemma_nn_ge(t, q);
        }
        let q1 = after(t, q);
        if cur(t, q1) != SyntaxKind::Ident {
            None
        } else {
            proof {
                lemma_nn_ge(t, q1);
                lemma_nn_ge(t, after(t, q1));
            }
            match s_expect(t, after(t, q1), SyntaxKind::Eq) {
                None => None,
                Some(q3) => s_expr_bp(t, q3, 0),
            }
        }
    }
}

/// `LambdaExpr = 'fn' ParamList ReturnType? BlockExpr`
pub open spec fn s_lambda(t: Seq<TokenView>, q: int) -> Option<int>
    decreases meas(t, q), 1int,
{
    if !(0 <= q < t.len()) {
        None
    } else {
        proof {
            lemma_nn_ge(t, q);
        }
        let q1 = after(t, q);
        let r = if cur(t, q1) == SyntaxKind::LParen {
            s_param_list(t, q1, false)
        } else {
            None
        };
        match r {
            None => None,
            Some(e) => {
                let q2 = clamp(e, q1);
                let r2 = if cur(t, q2) == SyntaxKind::Arrow {
                    s_return_type(t, q2)
                } else {
                    Some(q2)
                };
                match r2 {
                    None => None,
                    Some(e2) => {
                        let q3 = clamp(e2, q2);
                        if cur(t, q3) == SyntaxKind::LBrace {
                            s_block(t, q3)
                        } else {
                            None
                        }
                    },
                }
            },
        }
    }
}

/// `MatchArm = Pattern Guard? '->' Expr`
pub open spec fn s_match_arm(t: Seq<TokenView>, q: int) -> Option<int>
    decreases meas(t, q), 1int,
{
    if !(0 <= q < t.len()) {
        None
    } else {
        match s_pattern(t, q) {
            None => None,
            Some(e) => {
                let q1 = clamp(e, q + 1);
                let r = if cur(t, q1) == SyntaxKind::IfKw {
                    s_guard(t, q1)
                } else {
                    Some(q1)
                };
                match r {
                    None => None,
                    Some(e2) => {
                        let q2 = clamp(e2, q1);
                        proof {
                            lemma_nn_ge(t, q2);
                        }
                        if cur(t, q2) == SyntaxKind::Arrow {
                            s_expr_bp(t, after(t, q2), 0)
                        } else {
                            None
                        }
                    },
                }
            },
        }
    }
}

/// `MatchExpr = 'match' Expr '{' MatchArm* '}'`
pub open spec fn s_match(t: Seq<TokenView>, q: int) -> Option<int>
    decreases meas(t, q), 1int,
{
    if !(0 <= q < t.len()) {
        None
    } else {
        proof {
            lemma_nn_ge(t, q);
        }
        let q1 = after(t, q);
        match s_expr_bp(t, q1, 0) {
            None => None,
            Some(e) => {
                let q2 = clamp(e, q1);
                proof {
                    lemma_nn_ge(t, q2);
                }
                if cur(t, q2) != SyntaxKind::LBrace {
                    None
                } else {
                    match s_arms(t, after(t, q2)) {
                        None => None,
                        Some(q4) => s_expect(t, q4, SyntaxKind::RBrace),
                    }
                }
            },
        }
    }
}

/// The arms of a match, up to `}` or the end of input.
pub open spec fn s_arms(t: Seq<TokenView>, q: int) -> Option<int>
    decreases meas(t, q), 2int,
{
    if !(0 <= q < t.len()) {
        None
    } else if cur(t, q) == SyntaxKind::RBrace || cur(t, q) == SyntaxKind::Eof {
        Some(q)
    } else if pattern_start(cur(t, q)) {
        match s_match_arm(t, q) {
            None => None,
            Some(e) => if e > q {
                s_arms(t, e)
            } else {
                None
            },
        }
    } else {
        None
    }
}

/// `FnDef = Visibility? Modifier* 'fn' IDENT ParamList ReturnType? BlockExpr`
pub open spec fn s_fn_def(t: Seq<TokenView>, q: int) -> Option<int> {
    let q1 = if cur(t, q) == SyntaxKind::PubKw {
        after(t, q)
    } else {
        q
    };
    match s_expect(t, skip_modifiers(t, q1), SyntaxKind::FnKw) {
        None => None,
        Some(q3) => if cur(t, q3) != SyntaxKind::Ident {
            None
        } else {
            let q4 = after(t, q3);
            if cur(t, q4) != SyntaxKind::LParen {
                None
            } else {
                match s_param_list(t, q4, true) {
                    None => None,
                    Some(e5) => {
                        let q5 = clamp(e5, q4);
                        let r = if cur(t, q5) == SyntaxKind::Arrow {
                            s_return_type(t, q5)
                        } else {
                            Some(q5)
                        };
                        match r {
                            None => None,
                            Some(e6) => {
                                let q6 = clamp(e6, q5);
                                if cur(t, q6) == SyntaxKind::LBrace {
                                    s_block(t, q6)
                                } else {
                                    None
                                }
                            },
                        }
                    },
                }
            }
        },
    }
}

/// A top-level item: a function, a type, an import, or a Python import.
pub open spec fn s_top_level(t: Seq<TokenView>, q: int) -> Option<int> {
    let k = cur(t, q);
    if k == SyntaxKind::FnKw {
        s_fn_def(t, q)
    } else if k == SyntaxKind::TypeKw {
        s_type_def(t, q)
    } else if k == SyntaxKind::PubKw {
        if cur2(t, q) == SyntaxKind::TypeKw {
            s_type_def(t, q)
        } else {
            s_fn_def(t, q)
        }
    } else if k == SyntaxKind::ImportKw {
        s_import(t, q)
    } else if k == SyntaxKind::FromKw {
        s_from_import(t, q)
    } else if k == SyntaxKind::Ident && is_fn_modifier(t[next_nontrivia(t, q)].text) {
        s_fn_def(t, q)
    } else {
        None
    }
}

/// The items of a source file from `q` to the end of input.
pub open spec fn s_items(t: Seq<TokenView>, q: int) -> Option<int>
    decreases meas(t, q),
{
    if !(0 <= q < t.len()) {
        None
    } else if cur(t, q) == SyntaxKind::Eof {
        Some(q)
    } else {
        match s_top_level(t, q) {
            None => None,
            Some(e) => s_items(t, clamp(e, q + 1)),
        }
    }
}

/// The token stream `t` is a program of the grammar: read item by item
/// from its start, no rule meets a token it cannot take. This is exactly
/// when the parser reports no error.
pub open spec fn grammatical(t: Seq<TokenView>) -> bool {
    s_items(t, 0) is Some
}

} // verus!


