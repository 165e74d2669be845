use asatsuyu::diagnostic::{Diagnostic, DiagnosticCode, LabelStyle, Severity};
use asatsuyu::keyword::{class_of, keywords, kind_of_text, text_of, KeywordClass};
use asatsuyu::span::{FileId, LineCol, LineIndex, Span};
use asatsuyu::syntax_kind::{SyntaxKind, KIND_COUNT};

// ── keywords ────────────────────────────────────────────────────

#[test]
fn keywords_table_has_17_entries() {
    assert_eq!(keywords().len(), 17);
}

#[test]
fn all_keyword_kinds_are_keywords() {
    for spec in keywords() {
        assert!(spec.kind.is_keyword(), "{:?} should be a keyword", spec.kind);
    }
}

#[test]
fn no_duplicate_kinds() {
    let table = keywords();
    for (i, a) in table.iter().enumerate() {
        for (j, b) in table.iter().enumerate() {
            if i != j {
                assert_ne!(a.kind, b.kind);
            }
        }
    }
}

#[test]
fn no_duplicate_texts() {
    let table = keywords();
    for (i, a) in table.iter().enumerate() {
        for (j, b) in table.iter().enumerate() {
            if i != j {
                assert_ne!(a.text, b.text);
            }
        }
    }
}

#[test]
fn class_of_hard_keywords() {
    assert_eq!(class_of(SyntaxKind::FnKw), Some(KeywordClass::Hard));
    assert_eq!(class_of(SyntaxKind::LetKw), Some(KeywordClass::Hard));
    assert_eq!(class_of(SyntaxKind::MatchKw), Some(KeywordClass::Hard));
    assert_eq!(class_of(SyntaxKind::IfKw), Some(KeywordClass::Hard));
    assert_eq!(class_of(SyntaxKind::TryKw), Some(KeywordClass::Hard));
}

#[test]
fn class_of_literal_keywords() {
    assert_eq!(class_of(SyntaxKind::TrueKw), Some(KeywordClass::Literal));
    assert_eq!(class_of(SyntaxKind::FalseKw), Some(KeywordClass::Literal));
}

#[test]
fn class_of_contextual_keywords() {
    assert_eq!(class_of(SyntaxKind::PythonKw), Some(KeywordClass::Contextual));
    assert_eq!(class_of(SyntaxKind::AsKw), Some(KeywordClass::Contextual));
}

#[test]
fn class_of_reserved_keywords() {
    assert_eq!(class_of(SyntaxKind::MutKw), Some(KeywordClass::Reserved));
    assert_eq!(class_of(SyntaxKind::AsyncKw), Some(KeywordClass::Reserved));
    assert_eq!(class_of(SyntaxKind::AwaitKw), Some(KeywordClass::Reserved));
}

#[test]
fn class_of_non_keyword_returns_none() {
    assert_eq!(class_of(SyntaxKind::Ident), None);
    assert_eq!(class_of(SyntaxKind::Plus), None);
    assert_eq!(class_of(SyntaxKind::LParen), None);
    assert_eq!(class_of(SyntaxKind::SourceFile), None);
}

#[test]
fn text_of_keywords() {
    assert_eq!(text_of(SyntaxKind::FnKw), Some("fn"));
    assert_eq!(text_of(SyntaxKind::TrueKw), Some("True"));
    assert_eq!(text_of(SyntaxKind::PythonKw), Some("python"));
    assert_eq!(text_of(SyntaxKind::AsKw), Some("as"));
    assert_eq!(text_of(SyntaxKind::MutKw), Some("mut"));
    assert_eq!(text_of(SyntaxKind::AsyncKw), Some("async"));
    assert_eq!(text_of(SyntaxKind::AwaitKw), Some("await"));
}

#[test]
fn text_of_non_keyword_returns_none() {
    assert_eq!(text_of(SyntaxKind::Ident), None);
    assert_eq!(text_of(SyntaxKind::Plus), None);
}

#[test]
fn kind_of_text_keywords() {
    assert_eq!(kind_of_text("fn"), Some(SyntaxKind::FnKw));
    assert_eq!(kind_of_text("True"), Some(SyntaxKind::TrueKw));
    assert_eq!(kind_of_text("python"), Some(SyntaxKind::PythonKw));
    assert_eq!(kind_of_text("await"), Some(SyntaxKind::AwaitKw));
}

#[test]
fn kind_of_text_non_keyword_returns_none() {
    assert_eq!(kind_of_text("main"), None);
    assert_eq!(kind_of_text("value"), None);
}

#[test]
fn keyword_text_and_kind_round_trip() {
    for spec in keywords() {
        assert_eq!(kind_of_text(spec.text), Some(spec.kind));
        assert_eq!(text_of(spec.kind), Some(spec.text));
        assert_eq!(class_of(spec.kind), Some(spec.class));
    }
}

// ── spans and line index ────────────────────────────────────────

#[test]
fn line_index_single_line() {
    let idx = LineIndex::new("hello");
    assert_eq!(idx.line_col(0), Some(LineCol { line: 1, column: 1 }));
    assert_eq!(idx.line_col(4), Some(LineCol { line: 1, column: 5 }));
}

#[test]
fn line_index_multi_line() {
    let idx = LineIndex::new("ab\ncd\nef");
    assert_eq!(idx.line_col(0), Some(LineCol { line: 1, column: 1 }));
    assert_eq!(idx.line_col(2), Some(LineCol { line: 1, column: 3 }));
    assert_eq!(idx.line_col(3), Some(LineCol { line: 2, column: 1 }));
    assert_eq!(idx.line_col(6), Some(LineCol { line: 3, column: 1 }));
    assert_eq!(idx.line_col(7), Some(LineCol { line: 3, column: 2 }));
}

#[test]
fn line_index_empty() {
    let idx = LineIndex::new("");
    assert_eq!(idx.line_col(0), Some(LineCol { line: 1, column: 1 }));
}

#[test]
fn line_index_trailing_newline() {
    let idx = LineIndex::new("abc\n");
    assert_eq!(idx.line_col(3), Some(LineCol { line: 1, column: 4 }));
    assert_eq!(idx.line_col(4), Some(LineCol { line: 2, column: 1 }));
}

#[test]
fn line_index_out_of_range() {
    let idx = LineIndex::new("hi");
    assert_eq!(idx.line_col(2), Some(LineCol { line: 1, column: 3 }));
    assert_eq!(idx.line_col(100), None);
}

#[test]
fn line_index_counts_bytes_of_wide_characters() {
    // "é" is two bytes in UTF-8: the next line starts at byte 3.
    let idx = LineIndex::new("é\nx");
    assert_eq!(idx.line_col(2), Some(LineCol { line: 1, column: 3 }));
    assert_eq!(idx.line_col(3), Some(LineCol { line: 2, column: 1 }));
    assert_eq!(idx.line_col(5), None);
}

#[test]
fn span_new() {
    let span = Span::new(FileId(1), 10, 20);
    assert_eq!(span.file_id, FileId(1));
    assert_eq!(span.start, 10);
    assert_eq!(span.end, 20);
    assert_eq!(span.len(), 10);
    assert!(!span.is_empty());
}

#[test]
fn span_dummy() {
    let span = Span::dummy();
    assert_eq!(span.file_id, FileId(0));
    assert_eq!(span.start, 0);
    assert_eq!(span.end, 0);
    assert!(span.is_empty());
    assert_eq!(span.len(), 0);
}

#[test]
fn span_contains() {
    let span = Span::new(FileId(0), 5, 15);
    assert!(!span.contains(4));
    assert!(span.contains(5));
    assert!(span.contains(10));
    assert!(span.contains(14));
    assert!(!span.contains(15));
}

// ── syntax kinds ────────────────────────────────────────────────

#[test]
fn syntax_kind_u16_roundtrip() {
    for raw in 0..KIND_COUNT {
        let kind = SyntaxKind::from_raw(raw);
        assert_eq!(kind.to_raw(), raw);
    }
}

#[test]
fn trivia_classification() {
    assert!(SyntaxKind::Whitespace.is_trivia());
    assert!(SyntaxKind::Newline.is_trivia());
    assert!(SyntaxKind::Comment.is_trivia());
    assert!(!SyntaxKind::Ident.is_trivia());
    assert!(!SyntaxKind::FnKw.is_trivia());
}

#[test]
fn keyword_classification() {
    let keywords = [
        SyntaxKind::FnKw,
        SyntaxKind::PubKw,
        SyntaxKind::LetKw,
        SyntaxKind::TypeKw,
        SyntaxKind::MatchKw,
        SyntaxKind::IfKw,
        SyntaxKind::ElseKw,
        SyntaxKind::ImportKw,
        SyntaxKind::FromKw,
        SyntaxKind::PythonKw,
        SyntaxKind::AsKw,
        SyntaxKind::TrueKw,
        SyntaxKind::FalseKw,
        SyntaxKind::TryKw,
        SyntaxKind::MutKw,
        SyntaxKind::AsyncKw,
        SyntaxKind::AwaitKw,
    ];
    for kw in keywords {
        assert!(kw.is_keyword(), "{kw:?} should be a keyword");
    }
    assert!(!SyntaxKind::Ident.is_keyword());
    assert!(!SyntaxKind::LParen.is_keyword());
    assert!(!SyntaxKind::Plus.is_keyword());
}

#[test]
fn token_vs_node_classification() {
    assert!(SyntaxKind::FnKw.is_token());
    assert!(SyntaxKind::LetKw.is_token());
    assert!(SyntaxKind::Ident.is_token());
    assert!(SyntaxKind::LParen.is_token());
    assert!(SyntaxKind::Plus.is_token());
    assert!(SyntaxKind::Pipe.is_token());
    assert!(SyntaxKind::AmpAmp.is_token());
    assert!(SyntaxKind::PipePipe.is_token());
    assert!(SyntaxKind::FloatLit.is_token());
    assert!(SyntaxKind::Eof.is_token());
    assert!(SyntaxKind::Error.is_token());
    assert!(!SyntaxKind::FnKw.is_node());

    assert!(SyntaxKind::SourceFile.is_node());
    assert!(SyntaxKind::FnDef.is_node());
    assert!(SyntaxKind::TypeDef.is_node());
    assert!(SyntaxKind::MatchExpr.is_node());
    assert!(SyntaxKind::BlockExpr.is_node());
    assert!(SyntaxKind::WildcardPat.is_node());
    assert!(SyntaxKind::MatchArm.is_node());
    assert!(SyntaxKind::ParenExpr.is_node());
    assert!(SyntaxKind::NodeError.is_node());
    assert!(!SyntaxKind::SourceFile.is_token());

    assert!(!SyntaxKind::__LAST.is_node());
}

// ── diagnostics ─────────────────────────────────────────────────

#[test]
fn diagnostic_error() {
    let span = Span::new(FileId(0), 10, 20);
    let diag = Diagnostic::error("unexpected token", span);
    assert_eq!(diag.severity, Severity::Error);
    assert_eq!(diag.code, None);
    assert_eq!(diag.message, "unexpected token");
    assert_eq!(diag.span, span);
    assert!(diag.labels.is_empty());
    assert!(diag.hints.is_empty());
    assert!(diag.notes.is_empty());
}

#[test]
fn diagnostic_warning() {
    let diag = Diagnostic::warning("unused variable", Span::dummy());
    assert_eq!(diag.severity, Severity::Warning);
}

#[test]
fn diagnostic_note() {
    let diag = Diagnostic::note("type was inferred here", Span::dummy());
    assert_eq!(diag.severity, Severity::Note);
}

#[test]
fn diagnostic_builder() {
    let file = FileId(0);
    let diag = Diagnostic::error("type mismatch", Span::new(file, 10, 15))
        .with_code(DiagnosticCode::E0200)
        .with_label(Span::new(file, 10, 15), "expected Int")
        .with_secondary_label(Span::new(file, 30, 40), "this is String")
        .with_hint("try converting with `to_int`")
        .with_note("Int and String are not compatible");

    assert_eq!(diag.code, Some(DiagnosticCode::E0200));
    assert_eq!(diag.labels.len(), 2);
    assert_eq!(diag.labels[0].style, LabelStyle::Primary);
    assert_eq!(diag.labels[0].message, "expected Int");
    assert_eq!(diag.labels[1].style, LabelStyle::Secondary);
    assert_eq!(diag.hints.len(), 1);
    assert_eq!(diag.notes.len(), 1);
}

#[test]
fn diagnostic_code_display() {
    assert_eq!(DiagnosticCode::E0001.to_code_string(), "E0001");
    assert_eq!(DiagnosticCode::E0050.to_code_string(), "E0050");
    assert_eq!(DiagnosticCode::E0200.to_code_string(), "E0200");
    assert_eq!(DiagnosticCode::E0300.to_code_string(), "E0300");
}

#[test]
fn diagnostic_code_repr_matches_display() {
    assert_eq!(DiagnosticCode::E0001.number(), 1);
    assert_eq!(DiagnosticCode::E0200.number(), 200);
    assert_eq!(DiagnosticCode::E0304.number(), 304);
}
