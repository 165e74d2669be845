//! The lexer: source text to a lossless token stream.
//!
//! Trivia (whitespace, newlines, comments) is kept as tokens so that the
//! parser can build a lossless syntax tree. Tokens are recognised by longest
//! match; a keyword wins over an identifier of the same length, and a lone
//! `_` is an underscore, not an identifier.

use crate::diagnostic::{fresh_diagnostic, Diagnostic, DiagnosticView, LabelStyle, LabelView};
use crate::keyword::spec_kind_of_text;
use crate::span::{FileId, Span};
use crate::syntax_kind::SyntaxKind;
use crate::text::{byte_len, lemma_byte_len_ends, lemma_chars_le_bytes, char_width, lemma_byte_len_mono, lemma_byte_len_take, utf8_width};
use vstd::prelude::*;
use vstd::std_specs::iter::IteratorSpec;

verus! {

// ── Character classes ───────────────────────────────────────────

pub open spec fn is_ws_char(c: char) -> bool {
    c == ' ' || c == '\t' || c == '\r'
}

pub open spec fn is_digit_char(c: char) -> bool {
    '0' <= c && c <= '9'
}

pub open spec fn is_ident_start_char(c: char) -> bool {
    ('a' <= c && c <= 'z') || ('A' <= c && c <= 'Z') || c == '_'
}

pub open spec fn is_ident_char(c: char) -> bool {
    is_ident_start_char(c) || is_digit_char(c)
}

// ── Maximal runs ────────────────────────────────────────────────

/// End of the run of whitespace characters starting at `i`.
pub open spec fn ws_end(s: Seq<char>, i: int) -> int
    decreases s.len() - i,
{
    if 0 <= i < s.len() && is_ws_char(s[i]) {
        ws_end(s, i + 1)
    } else {
        i
    }
}

/// End of the run of decimal digits starting at `i`.
pub open spec fn digits_end(s: Seq<char>, i: int) -> int
    decreases s.len() - i,
{
    if 0 <= i < s.len() && is_digit_char(s[i]) {
        digits_end(s, i + 1)
    } else {
        i
    }
}

/// End of the run of identifier characters starting at `i`.
pub open spec fn ident_end(s: Seq<char>, i: int) -> int
    decreases s.len() - i,
{
    if 0 <= i < s.len() && is_ident_char(s[i]) {
        ident_end(s, i + 1)
    } else {
        i
    }
}

/// End of the line starting at `i`: the next newline, or the end of input.
pub open spec fn line_end(s: Seq<char>, i: int) -> int
    decreases s.len() - i,
{
    if 0 <= i < s.len() && s[i] != '\n' {
        line_end(s, i + 1)
    } else {
        i
    }
}

/// The index of the next `"` at or after `i`, or the end of input.
pub open spec fn quote_end(s: Seq<char>, i: int) -> int
    decreases s.len() - i,
{
    if 0 <= i < s.len() && s[i] != '"' {
        quote_end(s, i + 1)
    } else {
        i
    }
}

/// The keyword kinds the lexer recognises: every keyword except the
/// reserved ones, which lex as identifiers.
pub open spec fn lexer_keyword(t: Seq<char>) -> Option<SyntaxKind> {
    match spec_kind_of_text(t) {
        Some(k) => if k == SyntaxKind::MutKw || k == SyntaxKind::AsyncKw || k == SyntaxKind::AwaitKw {
            None
        } else {
            Some(k)
        },
        None => None,
    }
}

/// The character at `i`, or `'\0'` past the end (used for one-character lookahead).
pub open spec fn at(s: Seq<char>, i: int) -> char {
    if 0 <= i < s.len() {
        s[i]
    } else {
        '\0'
    }
}

/// The kind and end of the operator or punctuation token starting at `i`.
#[verifier::opaque]
pub open spec fn punct_token(s: Seq<char>, i: int) -> (SyntaxKind, int) {
    let c = s[i];
    let n = at(s, i + 1);
    if c == '|' {
        if n == '>' {
            (SyntaxKind::Pipe, i + 2)
        } else if n == '|' {
            (SyntaxKind::PipePipe, i + 2)
        } else {
            (SyntaxKind::PipeSingle, i + 1)
        }
    } else if c == '=' {
        if n == '>' {
            (SyntaxKind::FatArrow, i + 2)
        } else if n == '=' {
            (SyntaxKind::EqEq, i + 2)
        } else {
            (SyntaxKind::Eq, i + 1)
        }
    } else if c == '<' {
        if n == '>' {
            (SyntaxKind::StringConcat, i + 2)
        } else if n == '=' {
            (SyntaxKind::LtEq, i + 2)
        } else {
            (SyntaxKind::Lt, i + 1)
        }
    } else if c == '>' {
        if n == '=' {
            (SyntaxKind::GtEq, i + 2)
        } else {
            (SyntaxKind::Gt, i + 1)
        }
    } else if c == '!' {
        if n == '=' {
            (SyntaxKind::BangEq, i + 2)
        } else {
            (SyntaxKind::Bang, i + 1)
        }
    } else if c == '&' {
        if n == '&' {
            (SyntaxKind::AmpAmp, i + 2)
        } else {
            (SyntaxKind::Ampersand, i + 1)
        }
    } else if c == '.' {
        if n == '.' {
            (SyntaxKind::DotDot, i + 2)
        } else {
            (SyntaxKind::Dot, i + 1)
        }
    } else if c == '-' {
        if n == '>' {
            (SyntaxKind::Arrow, i + 2)
        } else {
            (SyntaxKind::Minus, i + 1)
        }
    } else if c == '+' {
        (SyntaxKind::Plus, i + 1)
    } else if c == '*' {
        (SyntaxKind::Star, i + 1)
    } else if c == '%' {
        (SyntaxKind::Percent, i + 1)
    } else if c == '(' {
        (SyntaxKind::LParen, i + 1)
    } else if c == ')' {
        (SyntaxKind::RParen, i + 1)
    } else if c == '{' {
        (SyntaxKind::LBrace, i + 1)
    } else if c == '}' {
        (SyntaxKind::RBrace, i + 1)
    } else if c == '[' {
        (SyntaxKind::LBracket, i + 1)
    } else if c == ']' {
        (SyntaxKind::RBracket, i + 1)
    } else if c == ',' {
        (SyntaxKind::Comma, i + 1)
    } else if c == ':' {
        (SyntaxKind::Colon, i + 1)
    } else if c == ';' {
        (SyntaxKind::Semicolon, i + 1)
    } else {
        (SyntaxKind::Error, i + 1)
    }
}

/// The kind and end of the longest token starting at `i` (for `i` inside the input).
///
/// An unterminated string literal is one error token up to the end of input;
/// any other character that starts no token is a one-character error token.
#[verifier::opaque]
pub open spec fn next_token(s: Seq<char>, i: int) -> (SyntaxKind, int) {
    let c = s[i];
    if is_ws_char(c) {
        (SyntaxKind::Whitespace, ws_end(s, i))
    } else if c == '\n' {
        (SyntaxKind::Newline, i + 1)
    } else if c == '/' {
        if at(s, i + 1) == '/' {
            (SyntaxKind::Comment, line_end(s, i + 2))
        } else {
            (SyntaxKind::Slash, i + 1)
        }
    } else if is_digit_char(c) {
        let d = digits_end(s, i);
        if at(s, d) == '.' && is_digit_char(at(s, d + 1)) {
            (SyntaxKind::FloatLit, digits_end(s, d + 1))
        } else {
            (SyntaxKind::IntLit, d)
        }
    } else if c == '"' {
        let q = quote_end(s, i + 1);
        if q < s.len() {
            (SyntaxKind::StringLit, q + 1)
        } else {
            (SyntaxKind::Error, s.len() as int)
        }
    } else if is_ident_start_char(c) {
        let e = ident_end(s, i);
        if e == i + 1 && c == '_' {
            (SyntaxKind::Underscore, e)
        } else {
            match lexer_keyword(s.subrange(i, e)) {
                Some(k) => (k, e),
                None => (SyntaxKind::Ident, e),
            }
        }
    } else {
        punct_token(s, i)
    }
}

/// The mathematical form of a token.
pub struct TokenView {
    pub kind: SyntaxKind,
    pub span: Span,
    pub text: Seq<char>,
}

/// The byte offset of character index `i`.
pub open spec fn byte_pos(s: Seq<char>, i: int) -> int {
    byte_len(s.take(i)) as int
}

/// The token stream of `s` from character index `i` on, ending with `Eof`.
#[verifier::opaque]
pub open spec fn lex_from(s: Seq<char>, file_id: FileId, i: int) -> Seq<TokenView>
    decreases s.len() - i,
{
    if 0 <= i < s.len() {
        let (kind, e) = next_token(s, i);
        if i < e <= s.len() {
            seq![
                TokenView {
                    kind,
                    span: Span { file_id, start: byte_pos(s, i) as u32, end: byte_pos(s, e) as u32 },
                    text: s.subrange(i, e),
                },
            ] + lex_from(s, file_id, e)
        } else {
            Seq::empty()
        }
    } else {
        let b = byte_pos(s, s.len() as int) as u32;
        seq![TokenView { kind: SyntaxKind::Eof, span: Span { file_id, start: b, end: b }, text: Seq::empty() }]
    }
}

/// The token stream of a whole source text.
pub open spec fn lex_spec(s: Seq<char>, file_id: FileId) -> Seq<TokenView> {
    lex_from(s, file_id, 0)
}

/// The diagnostic reported for an error token.
pub open spec fn error_token_diagnostic(t: TokenView) -> DiagnosticView {
    let d = fresh_diagnostic(crate::diagnostic::Severity::Error, "unexpected character"@, t.span);
    DiagnosticView {
        labels: d.labels.push(LabelView { span: t.span, message: "invalid token"@, style: LabelStyle::Primary }),
        ..d
    }
}

/// One diagnostic per error token, in order.
pub open spec fn lex_diagnostics(toks: Seq<TokenView>) -> Seq<DiagnosticView>
    decreases toks.len(),
{
    if toks.len() == 0 {
        Seq::empty()
    } else {
        let rest = lex_diagnostics(toks.drop_last());
        if toks.last().kind == SyntaxKind::Error {
            rest.push(error_token_diagnostic(toks.last()))
        } else {
            rest
        }
    }
}

/// The concatenated texts of a token sequence.
pub open spec fn concat_texts(toks: Seq<TokenView>) -> Seq<char>
    decreases toks.len(),
{
    if toks.len() == 0 {
        Seq::empty()
    } else {
        toks[0].text + concat_texts(toks.drop_first())
    }
}

/// A single token produced by the lexer.
#[derive(Debug, Clone, PartialEq, Eq)]
pub struct Token {
    pub kind: SyntaxKind,
    pub span: Span,
    pub text: String,
}

impl View for Token {
    type V = TokenView;

    open spec fn view(&self) -> TokenView {
        TokenView { kind: self.kind, span: self.span, text: self.text@ }
    }
}

// ── Lemmas about the runs ───────────────────────────────────────

proof fn lemma_ws_end(s: Seq<char>, i: int)
    requires
        0 <= i <= s.len(),
    ensures
        i <= ws_end(s, i) <= s.len(),
        forall|j: int| i <= j < ws_end(s, i) ==> is_ws_char(#[trigger] s[j]),
        ws_end(s, i) == s.len() || !is_ws_char(s[ws_end(s, i)]),
    decreases s.len() - i,
{
    if i < s.len() && is_ws_char(s[i]) {
        lemma_ws_end(s, i + 1);
    }
}

proof fn lemma_digits_end(s: Seq<char>, i: int)
    requires
        0 <= i <= s.len(),
    ensures
        i <= digits_end(s, i) <= s.len(),
        forall|j: int| i <= j < digits_end(s, i) ==> is_digit_char(#[trigger] s[j]),
        digits_end(s, i) == s.len() || !is_digit_char(s[digits_end(s, i)]),
    decreases s.len() - i,
{
    if i < s.len() && is_digit_char(s[i]) {
        lemma_digits_end(s, i + 1);
    }
}

proof fn lemma_ident_end(s: Seq<char>, i: int)
    requires
        0 <= i <= s.len(),
    ensures
        i <= ident_end(s, i) <= s.len(),
        forall|j: int| i <= j < ident_end(s, i) ==> is_ident_char(#[trigger] s[j]),
        ident_end(s, i) == s.len() || !is_ident_char(s[ident_end(s, i)]),
    decreases s.len() - i,
{
    if i < s.len() && is_ident_char(s[i]) {
        lemma_ident_end(s, i + 1);
    }
}

proof fn lemma_line_end(s: Seq<char>, i: int)
    requires
        0 <= i <= s.len(),
    ensures
        i <= line_end(s, i) <= s.len(),
        forall|j: int| i <= j < line_end(s, i) ==> #[trigger] s[j] != '\n',
        line_end(s, i) == s.len() || s[line_end(s, i)] == '\n',
    decreases s.len() - i,
{
    if i < s.len() && s[i] != '\n' {
        lemma_line_end(s, i + 1);
    }
}

proof fn lemma_quote_end(s: Seq<char>, i: int)
    requires
        0 <= i <= s.len(),
    ensures
        i <= quote_end(s, i) <= s.len(),
        forall|j: int| i <= j < quote_end(s, i) ==> #[trigger] s[j] != '"',
        quote_end(s, i) == s.len() || s[quote_end(s, i)] == '"',
    decreases s.len() - i,
{
    if i < s.len() && s[i] != '"' {
        lemma_quote_end(s, i + 1);
    }
}

/// Every token starting inside the input is non-empty and ends inside the input.
pub proof fn lemma_next_token_progress(s: Seq<char>, i: int)
    requires
        0 <= i < s.len(),
    ensures
        i < next_token(s, i).1 <= s.len(),
        next_token(s, i).0 != SyntaxKind::Eof,
{
    reveal(next_token);
    reveal(punct_token);
    lemma_ws_end(s, i);
    lemma_digits_end(s, i);
    lemma_ident_end(s, i);
    if i + 2 <= s.len() {
        lemma_line_end(s, i + 2);
    }
    lemma_quote_end(s, i + 1);
    let d = digits_end(s, i);
    if d + 1 <= s.len() {
        lemma_digits_end(s, d + 1);
    }
}


// ── Laws of the token stream ────────────────────────────────────

proof fn lemma_lex_from_concat(s: Seq<char>, f: FileId, i: int)
    requires
        0 <= i <= s.len(),
    ensures
        concat_texts(lex_from(s, f, i)) == s.subrange(i, s.len() as int),
    decreases s.len() - i,
{
    reveal(lex_from);
    if i < s.len() {
        lemma_next_token_progress(s, i);
        let e = next_token(s, i).1;
        lemma_lex_from_concat(s, f, e);
        let all = lex_from(s, f, i);
        assert(all.drop_first() =~= lex_from(s, f, e));
        assert(all[0].text == s.subrange(i, e));
        assert(concat_texts(all) == all[0].text + concat_texts(all.drop_first()));
        assert(s.subrange(i, s.len() as int) =~= s.subrange(i, e) + s.subrange(e, s.len() as int));
    } else {
        let all = lex_from(s, f, i);
        assert(all.drop_first() =~= Seq::<TokenView>::empty());
        assert(concat_texts(Seq::<TokenView>::empty()) =~= Seq::<char>::empty());
        assert(concat_texts(all) == all[0].text + concat_texts(all.drop_first()));
        assert(all[0].text =~= Seq::<char>::empty());
        assert(s.subrange(i, s.len() as int) =~= Seq::<char>::empty());
    }
}

proof fn lemma_lex_from(s: Seq<char>, f: FileId, i: int)
    requires
        0 <= i <= s.len(),
    ensures
        lex_from(s, f, i).len() >= 1,
        lex_from(s, f, i).last().kind == SyntaxKind::Eof,
        lex_from(s, f, i).last().text.len() == 0,
        lex_from(s, f, i)[0].span.start == byte_pos(s, i) as u32,
        lex_from(s, f, i).last().span.start == byte_pos(s, s.len() as int) as u32,
        lex_from(s, f, i).last().span.end == byte_pos(s, s.len() as int) as u32,
        forall|k: int| 0 <= k < lex_from(s, f, i).len() - 1 ==> {
            &&& (#[trigger] lex_from(s, f, i)[k]).kind != SyntaxKind::Eof
            &&& lex_from(s, f, i)[k].text.len() > 0
        },
        forall|k: int, j: int|
            #![trigger lex_from(s, f, i)[k], lex_from(s, f, i)[j]]
            0 <= k && j == k + 1 && j < lex_from(s, f, i).len() ==> lex_from(s, f, i)[k].span.end == lex_from(s, f, i)[j].span.start,
    decreases s.len() - i,
{
    reveal(lex_from);
    if i < s.len() {
        lemma_next_token_progress(s, i);
        let e = next_token(s, i).1;
        lemma_lex_from(s, f, e);
        let rest = lex_from(s, f, e);
        let all = lex_from(s, f, i);
        assert(all.len() == rest.len() + 1);
        assert forall|k: int| 0 <= k < all.len() - 1 implies {
            &&& (#[trigger] all[k]).kind != SyntaxKind::Eof
            &&& all[k].text.len() > 0
        } by {
            if k > 0 {
                assert(all[k] == rest[k - 1]);
            }
        }
        assert forall|k: int, j: int|
            #![trigger all[k], all[j]]
            0 <= k && j == k + 1 && j < all.len() implies all[k].span.end == all[j].span.start by {
            assert(all[j] == rest[k]);
            if k > 0 {
                assert(all[k] == rest[k - 1]);
                assert(rest[k - 1].span.end == rest[k].span.start);
            }
        }
        assert(all.last() == rest.last());
    }
}

/// The lexer is lossless and its spans tile the source: the token texts
/// concatenate to the source, the first token starts at byte 0, each token
/// ends where the next begins, and the stream ends with exactly one empty
/// `Eof` token at the source's byte length; every other token is non-empty.
#[verifier::spinoff_prover]
pub proof fn lex_is_lossless(s: Seq<char>, f: FileId)
    requires
        byte_len(s) <= u32::MAX,
    ensures
        concat_texts(lex_spec(s, f)) == s,
        lex_spec(s, f).len() >= 1,
        lex_spec(s, f)[0].span.start == 0,
        lex_spec(s, f).last().kind == SyntaxKind::Eof,
        lex_spec(s, f).last().text.len() == 0,
        lex_spec(s, f).last().span.start == byte_len(s),
        lex_spec(s, f).last().span.end == byte_len(s),
        forall|k: int| 0 <= k < lex_spec(s, f).len() - 1 ==> {
            &&& (#[trigger] lex_spec(s, f)[k]).kind != SyntaxKind::Eof
            &&& lex_spec(s, f)[k].text.len() > 0
        },
        forall|k: int, j: int|
            #![trigger lex_spec(s, f)[k], lex_spec(s, f)[j]]
            0 <= k && j == k + 1 && j < lex_spec(s, f).len() ==> lex_spec(s, f)[k].span.end == lex_spec(s, f)[j].span.start,
{
    lemma_lex_from(s, f, 0);
    lemma_lex_from_concat(s, f, 0);
    assert(s.subrange(0, s.len() as int) =~= s);
    lemma_byte_len_ends(s);
}

proof fn lemma_lex_from_file(s: Seq<char>, f: FileId, i: int)
    requires
        0 <= i <= s.len(),
    ensures
        forall|k: int| 0 <= k < lex_from(s, f, i).len() ==> (#[trigger] lex_from(s, f, i)[k]).span.file_id == f,
    decreases s.len() - i,
{
    reveal(lex_from);
    if i < s.len() {
        lemma_next_token_progress(s, i);
        let e = next_token(s, i).1;
        lemma_lex_from_file(s, f, e);
        let all = lex_from(s, f, i);
        let rest = lex_from(s, f, e);
        assert forall|k: int| 0 <= k < all.len() implies (#[trigger] all[k]).span.file_id == f by {
            if k > 0 {
                assert(all[k] == rest[k - 1]);
            }
        }
    }
}

/// The lexer's diagnostics are one per `Error` token, in order: an error
/// `unexpected character` at that token's span, labelled `invalid token`.
pub proof fn lemma_lex_diagnostics_per_error(toks: Seq<TokenView>)
    ensures
        lex_diagnostics(toks) == toks.filter(|t: TokenView| t.kind == SyntaxKind::Error).map_values(
            |t: TokenView| error_token_diagnostic(t),
        ),
        forall|k: int|
            0 <= k < lex_diagnostics(toks).len() ==> {
                &&& (#[trigger] lex_diagnostics(toks)[k]).severity == crate::diagnostic::Severity::Error
                &&& lex_diagnostics(toks)[k].message == "unexpected character"@
            },
    decreases toks.len(),
{
    reveal(Seq::filter);
    let pred = |t: TokenView| t.kind == SyntaxKind::Error;
    let mk = |t: TokenView| error_token_diagnostic(t);
    if toks.len() > 0 {
        lemma_lex_diagnostics_per_error(toks.drop_last());
        let sub = toks.drop_last().filter(pred);
        if toks.last().kind == SyntaxKind::Error {
            assert(sub.push(toks.last()).map_values(mk) =~= sub.map_values(mk).push(mk(toks.last())));
        }
    } else {
        assert(toks.filter(pred) =~= Seq::<TokenView>::empty());
        assert(toks.filter(pred).map_values(mk) =~= Seq::<DiagnosticView>::empty());
    }
}

/// Every token of a source, the final `Eof` among them, carries the file
/// id the source was lexed with.
pub proof fn lemma_lex_tokens_carry_file(s: Seq<char>, f: FileId)
    ensures
        forall|k: int| 0 <= k < lex_spec(s, f).len() ==> (#[trigger] lex_spec(s, f)[k]).span.file_id == f,
{
    lemma_lex_from_file(s, f, 0);
}

// ── Executable scanning ─────────────────────────────────────────

fn is_ws(c: char) -> (b: bool)
    ensures
        b == is_ws_char(c),
{
    c == ' ' || c == '\t' || c == '\r'
}

fn is_digit(c: char) -> (b: bool)
    ensures
        b == is_digit_char(c),
{
    '0' <= c && c <= '9'
}

fn is_ident_start(c: char) -> (b: bool)
    ensures
        b == is_ident_start_char(c),
{
    ('a' <= c && c <= 'z') || ('A' <= c && c <= 'Z') || c == '_'
}

fn is_ident(c: char) -> (b: bool)
    ensures
        b == is_ident_char(c),
{
    is_ident_start(c) || is_digit(c)
}

fn scan_ws_end(chars: &Vec<char>, i: usize) -> (r: usize)
    requires
        i <= chars@.len(),
        chars@.len() <= u32::MAX,
    ensures
        r == ws_end(chars@, i as int),
        i <= r <= chars@.len(),
{
    let mut j = i;
    while j < chars.len() && is_ws(chars[j])
        invariant
            i <= j <= chars@.len(),
            ws_end(chars@, j as int) == ws_end(chars@, i as int),
        decreases chars@.len() - j,
    {
        j += 1;
    }
    j
}

fn scan_digits_end(chars: &Vec<char>, i: usize) -> (r: usize)
    requires
        i <= chars@.len(),
        chars@.len() <= u32::MAX,
    ensures
        r == digits_end(chars@, i as int),
        i <= r <= chars@.len(),
{
    let mut j = i;
    while j < chars.len() && is_digit(chars[j])
        invariant
            i <= j <= chars@.len(),
            digits_end(chars@, j as int) == digits_end(chars@, i as int),
        decreases chars@.len() - j,
    {
        j += 1;
    }
    j
}

fn scan_ident_end(chars: &Vec<char>, i: usize) -> (r: usize)
    requires
        i <= chars@.len(),
        chars@.len() <= u32::MAX,
    ensures
        r == ident_end(chars@, i as int),
        i <= r <= chars@.len(),
{
    let mut j = i;
    while j < chars.len() && is_ident(chars[j])
        invariant
            i <= j <= chars@.len(),
            ident_end(chars@, j as int) == ident_end(chars@, i as int),
        decreases chars@.len() - j,
    {
        j += 1;
    }
    j
}

fn scan_line_end(chars: &Vec<char>, i: usize) -> (r: usize)
    requires
        i <= chars@.len(),
        chars@.len() <= u32::MAX,
    ensures
        r == line_end(chars@, i as int),
        i <= r <= chars@.len(),
{
    let mut j = i;
    while j < chars.len() && chars[j] != '\n'
        invariant
            i <= j <= chars@.len(),
            line_end(chars@, j as int) == line_end(chars@, i as int),
        decreases chars@.len() - j,
    {
        j += 1;
    }
    j
}

fn scan_quote_end(chars: &Vec<char>, i: usize) -> (r: usize)
    requires
        i <= chars@.len(),
        chars@.len() <= u32::MAX,
    ensures
        r == quote_end(chars@, i as int),
        i <= r <= chars@.len(),
{
    let mut j = i;
    while j < chars.len() && chars[j] != '"'
        invariant
            i <= j <= chars@.len(),
            quote_end(chars@, j as int) == quote_end(chars@, i as int),
        decreases chars@.len() - j,
    {
        j += 1;
    }
    j
}

/// The character at `i`, or `'\0'` past the end.
fn char_at(chars: &Vec<char>, i: usize) -> (c: char)
    ensures
        c == at(chars@, i as int),
{
    if i < chars.len() {
        chars[i]
    } else {
        '\0'
    }
}

fn scan_punct(chars: &Vec<char>, i: usize) -> (r: (SyntaxKind, usize))
    requires
        i < chars@.len(),
        chars@.len() <= u32::MAX,
    ensures
        r.0 == punct_token(chars@, i as int).0,
        r.1 == punct_token(chars@, i as int).1,
        r.0 != SyntaxKind::Ident,
{
    reveal(punct_token);
    let c = chars[i];
    let n = char_at(chars, i + 1);
    if c == '|' {
        if n == '>' {
            (SyntaxKind::Pipe, i + 2)
        } else if n == '|' {
            (SyntaxKind::PipePipe, i + 2)
        } else {
            (SyntaxKind::PipeSingle, i + 1)
        }
    } else if c == '=' {
        if n == '>' {
            (SyntaxKind::FatArrow, i + 2)
        } else if n == '=' {
            (SyntaxKind::EqEq, i + 2)
        } else {
            (SyntaxKind::Eq, i + 1)
        }
    } else if c == '<' {
        if n == '>' {
            (SyntaxKind::StringConcat, i + 2)
        } else if n == '=' {
            (SyntaxKind::LtEq, i + 2)
        } else {
            (SyntaxKind::Lt, i + 1)
        }
    } else if c == '>' {
        if n == '=' {
            (SyntaxKind::GtEq, i + 2)
        } else {
            (SyntaxKind::Gt, i + 1)
        }
    } else if c == '!' {
        if n == '=' {
            (SyntaxKind::BangEq, i + 2)
        } else {
            (SyntaxKind::Bang, i + 1)
        }
    } else if c == '&' {
        if n == '&' {
            (SyntaxKind::AmpAmp, i + 2)
        } else {
            (SyntaxKind::Ampersand, i + 1)
        }
    } else if c == '.' {
        if n == '.' {
            (SyntaxKind::DotDot, i + 2)
        } else {
            (SyntaxKind::Dot, i + 1)
        }
    } else if c == '-' {
        if n == '>' {
            (SyntaxKind::Arrow, i + 2)
        } else {
            (SyntaxKind::Minus, i + 1)
        }
    } else if c == '+' {
        (SyntaxKind::Plus, i + 1)
    } else if c == '*' {
        (SyntaxKind::Star, i + 1)
    } else if c == '%' {
        (SyntaxKind::Percent, i + 1)
    } else if c == '(' {
        (SyntaxKind::LParen, i + 1)
    } else if c == ')' {
        (SyntaxKind::RParen, i + 1)
    } else if c == '{' {
        (SyntaxKind::LBrace, i + 1)
    } else if c == '}' {
        (SyntaxKind::RBrace, i + 1)
    } else if c == '[' {
        (SyntaxKind::LBracket, i + 1)
    } else if c == ']' {
        (SyntaxKind::RBracket, i + 1)
    } else if c == ',' {
        (SyntaxKind::Comma, i + 1)
    } else if c == ':' {
        (SyntaxKind::Colon, i + 1)
    } else if c == ';' {
        (SyntaxKind::Semicolon, i + 1)
    } else {
        (SyntaxKind::Error, i + 1)
    }
}

/// Scans the token starting at `i`. Identifiers come back as `Ident`; the
/// caller tells keywords apart, since that needs the token text.
fn scan_token(chars: &Vec<char>, i: usize) -> (r: (SyntaxKind, usize))
    requires
        i < chars@.len(),
        chars@.len() <= u32::MAX,
    ensures
        r.1 == next_token(chars@, i as int).1,
        r.0 == SyntaxKind::Ident ==> is_ident_start_char(chars@[i as int]) && !(r.1 == i + 1
            && chars@[i as int] == '_'),
        r.0 != SyntaxKind::Ident ==> r.0 == next_token(chars@, i as int).0,
        is_ident_start_char(chars@[i as int]) && !(r.1 == i + 1 && chars@[i as int] == '_')
            ==> r.0 == SyntaxKind::Ident,
{
    reveal(next_token);
    let c = chars[i];
    if is_ws(c) {
        (SyntaxKind::Whitespace, scan_ws_end(chars, i))
    } else if c == '\n' {
        (SyntaxKind::Newline, i + 1)
    } else if c == '/' {
        if char_at(chars, i + 1) == '/' {
            (SyntaxKind::Comment, scan_line_end(chars, i + 2))
        } else {
            (SyntaxKind::Slash, i + 1)
        }
    } else if is_digit(c) {
        let d = scan_digits_end(chars, i);
        if char_at(chars, d) == '.' && is_digit(char_at(chars, d + 1)) {
            (SyntaxKind::FloatLit, scan_digits_end(chars, d + 1))
        } else {
            (SyntaxKind::IntLit, d)
        }
    } else if c == '"' {
        let q = scan_quote_end(chars, i + 1);
        if q < chars.len() {
            (SyntaxKind::StringLit, q + 1)
        } else {
            (SyntaxKind::Error, chars.len())
        }
    } else if is_ident_start(c) {
        let e = scan_ident_end(chars, i);
        if e == i + 1 && c == '_' {
            (SyntaxKind::Underscore, e)
        } else {
            (SyntaxKind::Ident, e)
        }
    } else {
        scan_punct(chars, i)
    }
}

/// The characters of a string, in order.
pub fn source_chars(source: &str) -> (v: Vec<char>)
    ensures
        v@ == source@,
{
    let mut it = source.chars();
    let mut v: Vec<char> = Vec::new();
    loop
        invariant
            v@ + it.remaining() == source@,
        decreases source@.len() - v@.len(),
    {
        let ghost before = it.remaining();
        match it.next() {
            Some(c) => {
                v.push(c);
                assert(v@ + it.remaining() =~= source@);
            },
            None => {
                assert(v@ =~= source@);
                return v;
            },
        }
    }
}

/// Tokenizes `source` into tokens and diagnostics for invalid input.
///
/// All trivia is kept as tokens, and an `Eof` token is always appended at the
/// end. The source must fit in `u32` byte offsets.
pub fn lex(source: &str, file_id: FileId) -> (r: (Vec<Token>, Vec<Diagnostic>))
    requires
        byte_len(source@) <= u32::MAX,
    ensures
        r.0@.map_values(|t: Token| t@) == lex_spec(source@, file_id),
        r.1@.map_values(|d: Diagnostic| d@) == lex_diagnostics(lex_spec(source@, file_id)),
{
    let chars = source_chars(source);
    let n = chars.len();
    let ghost s = source@;
    proof {
        lemma_chars_le_bytes(s);
        lemma_byte_len_ends(s);
    }
    let mut tokens: Vec<Token> = Vec::new();
    let mut diagnostics: Vec<Diagnostic> = Vec::new();
    let mut i: usize = 0;
    let mut b: u32 = 0;
    assert(tokens@.map_values(|t: Token| t@) + lex_from(s, file_id, 0) =~= lex_spec(s, file_id));
    while i < n
        invariant
            chars@ == s,
            s == source@,
            n == s.len(),
            n <= u32::MAX,
            byte_len(s) <= u32::MAX,
            0 <= i <= n,
            b == byte_pos(s, i as int),
            tokens@.map_values(|t: Token| t@) + lex_from(s, file_id, i as int) == lex_spec(s, file_id),
            diagnostics@.map_values(|d: Diagnostic| d@) == lex_diagnostics(tokens@.map_values(|t: Token| t@)),
        decreases n - i,
    {
        proof {
            lemma_next_token_progress(s, i as int);
            reveal(next_token);
        }
        let (k0, e) = scan_token(&chars, i);
        let text = source.substring_char(i, e);
        let kind = if k0 == SyntaxKind::Ident {
            match crate::keyword::kind_of_text(text) {
                Some(k) => if k == SyntaxKind::MutKw || k == SyntaxKind::AsyncKw || k == SyntaxKind::AwaitKw {
                    SyntaxKind::Ident
                } else {
                    k
                },
                None => SyntaxKind::Ident,
            }
        } else {
            k0
        };
        assert(kind == next_token(s, i as int).0);
        // Byte offset of the token's end.
        let mut be: u32 = b;
        let mut j: usize = i;
        while j < e
            invariant
                chars@ == s,
                n == s.len(),
                byte_len(s) <= u32::MAX,
                i <= j <= e <= n,
                be == byte_pos(s, j as int),
            decreases e - j,
        {
            proof {
                lemma_byte_len_take(s, j as int);
                lemma_byte_len_mono(s, j as int + 1, n as int);
                lemma_byte_len_ends(s);
            }
            be = be + utf8_width(chars[j]);
            j = j + 1;
        }
        proof {
            lemma_byte_len_mono(s, i as int, e as int);
        }
        let span = Span::new(file_id, b, be);
        let tok = Token { kind, span, text: String::from_str(text) };
        let ghost old_views = tokens@.map_values(|t: Token| t@);
        if kind == SyntaxKind::Error {
            diagnostics.push(Diagnostic::error("unexpected character", span).with_label(span, "invalid token"));
        }
        tokens.push(tok);
        proof {
            reveal(lex_from);
            let new_views = tokens@.map_values(|t: Token| t@);
            assert(new_views =~= old_views.push(tok@));
            assert(new_views.drop_last() =~= old_views);
            assert(lex_from(s, file_id, i as int) =~= seq![tok@] + lex_from(s, file_id, e as int));
            assert(new_views + lex_from(s, file_id, e as int) =~= old_views + lex_from(s, file_id, i as int));
            if kind == SyntaxKind::Error {
                assert(diagnostics@.map_values(|d: Diagnostic| d@) =~= lex_diagnostics(old_views).push(
                    error_token_diagnostic(tok@),
                ));
            } else {
                assert(diagnostics@.map_values(|d: Diagnostic| d@) =~= lex_diagnostics(old_views));
            }
        }
        i = e;
        b = be;
    }
    let eof = Token { kind: SyntaxKind::Eof, span: Span::new(file_id, b, b), text: String::new() };
    let ghost old_views = tokens@.map_values(|t: Token| t@);
    tokens.push(eof);
    proof {
        reveal(lex_from);
        let new_views = tokens@.map_values(|t: Token| t@);
        assert(new_views =~= old_views.push(eof@));
        assert(new_views.drop_last() =~= old_views);
        assert(lex_from(s, file_id, n as int) =~= seq![eof@]);
        assert(new_views =~= lex_spec(s, file_id));
        assert(diagnostics@.map_values(|d: Diagnostic| d@) =~= lex_diagnostics(new_views));
    }
    (tokens, diagnostics)
}

} // verus!
