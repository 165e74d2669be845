//! Compiler diagnostics: codes, severities, labels and messages.

use crate::span::Span;
use vstd::prelude::*;

verus! {

/// Machine-readable diagnostic codes.
///
/// Convention: `E` followed by a 4-digit number, grouped by compiler phase.
/// - E0001–E0049: lexer errors
/// - E0050–E0099: parser errors
/// - E0100–E0149: AST lowering errors
/// - E0150–E0199: name resolution / HIR errors
/// - E0200–E0299: type checking errors
/// - E0300–E0399: match / pattern errors
/// - E0400–E0499: backend errors (reserved)
///
/// Codes are stable: once assigned, the meaning of a code never changes.
#[derive(Debug, Clone, Copy, PartialEq, Eq, Structural)]
pub enum DiagnosticCode {
    // ── Lexer ─────────────────────────────────────────────────────────
    /// Unexpected character.
    E0001,

    // ── Parser ────────────────────────────────────────────────────────
    /// Expected a specific token (generic `expect()` failure).
    E0050,
    /// Expected an item definition at top level.
    E0051,
    /// Expected function name.
    E0052,
    /// Expected parameter (name, list, or type).
    E0053,
    /// Expected function or lambda body.
    E0054,
    /// Expected expression.
    E0055,
    /// Expected pattern.
    E0056,
    /// Unexpected token in context (block, parameter list, argument list, etc.).
    E0057,
    /// Expected type body.
    E0058,
    /// Expected return type.
    E0059,
    /// Expected block after condition or match subject.
    E0060,
    /// Expected import path component.
    E0061,
    /// Feature not yet implemented (e.g. top-level `let`).
    E0062,
    /// Expected assignment value (right-hand side of `=`).
    E0063,

    // ── AST lowering ──────────────────────────────────────────────────
    /// Unexpected syntax (`NodeError` encountered during CST → AST lowering).
    E0100,
    /// Empty import path.
    E0101,
    /// Missing module name in Python import.
    E0102,
    /// Missing function body.
    E0103,
    /// Incomplete binary expression.
    E0104,
    /// Incomplete pipeline expression.
    E0105,
    /// Unsupported pattern kind.
    E0106,

    // ── HIR / name resolution ─────────────────────────────────────────
    /// Duplicate binding in the same scope.
    E0150,
    /// Duplicate definition at module level.
    E0151,
    /// Unresolved name.
    E0152,
    /// Unresolved constructor.
    E0153,
    /// A function declared `pure` reaches an effect.
    E0154,
    /// A function declared both `pure` and `async`.
    E0155,

    // ── Type checking ─────────────────────────────────────────────────
    /// Type mismatch: expected vs found.
    E0200,
    /// Infinite type (occurs check failure).
    E0201,
    /// Unknown type annotation.
    E0202,
    /// Argument count mismatch.
    E0203,
    /// Expected function, found non-callable type.
    E0204,
    /// Arithmetic operator requires numeric type.
    E0205,
    /// Negation requires numeric type.
    E0206,
    /// Logical operator requires Bool.
    E0207,
    /// Unknown Python module in FFI import.
    E0208,
    /// Field access on opaque FFI type.
    E0209,
    /// Field access on type that does not support it.
    E0210,
    /// Unknown member on FFI module or class.
    E0211,
    /// `try` expression outside a function returning `Result`.
    E0212,
    /// `try` expression in a position the backend cannot lower safely.
    E0213,
    /// `match` subject is an opaque FFI type.
    E0214,
    /// Cannot assign to immutable binding (missing `mut`).
    E0215,
    /// Cannot reassign a function parameter.
    E0216,
    /// Assignment type mismatch: value type differs from binding type.
    E0217,
    /// Cannot assign to a variable captured from an outer scope inside a lambda.
    E0218,

    // ── Match / pattern ───────────────────────────────────────────────
    /// Non-exhaustive match.
    E0300,
    /// Unreachable match arm.
    E0301,
    /// Unknown constructor in pattern.
    E0302,
    /// Constructor pattern field count mismatch.
    E0303,
    /// Unsupported pattern kind.
    E0304,}

/// The number of a diagnostic code (`E0200` has number 200).
pub open spec fn code_number(code: DiagnosticCode) -> u16 {
    match code {
        DiagnosticCode::E0001 => 1,
        DiagnosticCode::E0050 => 50,
        DiagnosticCode::E0051 => 51,
        DiagnosticCode::E0052 => 52,
        DiagnosticCode::E0053 => 53,
        DiagnosticCode::E0054 => 54,
        DiagnosticCode::E0055 => 55,
        DiagnosticCode::E0056 => 56,
        DiagnosticCode::E0057 => 57,
        DiagnosticCode::E0058 => 58,
        DiagnosticCode::E0059 => 59,
        DiagnosticCode::E0060 => 60,
        DiagnosticCode::E0061 => 61,
        DiagnosticCode::E0062 => 62,
        DiagnosticCode::E0063 => 63,
        DiagnosticCode::E0100 => 100,
        DiagnosticCode::E0101 => 101,
        DiagnosticCode::E0102 => 102,
        DiagnosticCode::E0103 => 103,
        DiagnosticCode::E0104 => 104,
        DiagnosticCode::E0105 => 105,
        DiagnosticCode::E0106 => 106,
        DiagnosticCode::E0150 => 150,
        DiagnosticCode::E0151 => 151,
        DiagnosticCode::E0152 => 152,
        DiagnosticCode::E0153 => 153,
        DiagnosticCode::E0154 => 154,
        DiagnosticCode::E0155 => 155,
        DiagnosticCode::E0200 => 200,
        DiagnosticCode::E0201 => 201,
        DiagnosticCode::E0202 => 202,
        DiagnosticCode::E0203 => 203,
        DiagnosticCode::E0204 => 204,
        DiagnosticCode::E0205 => 205,
        DiagnosticCode::E0206 => 206,
        DiagnosticCode::E0207 => 207,
        DiagnosticCode::E0208 => 208,
        DiagnosticCode::E0209 => 209,
        DiagnosticCode::E0210 => 210,
        DiagnosticCode::E0211 => 211,
        DiagnosticCode::E0212 => 212,
        DiagnosticCode::E0213 => 213,
        DiagnosticCode::E0214 => 214,
        DiagnosticCode::E0215 => 215,
        DiagnosticCode::E0216 => 216,
        DiagnosticCode::E0217 => 217,
        DiagnosticCode::E0218 => 218,
        DiagnosticCode::E0300 => 300,
        DiagnosticCode::E0301 => 301,
        DiagnosticCode::E0302 => 302,
        DiagnosticCode::E0303 => 303,
        DiagnosticCode::E0304 => 304,
    }
}

/// The decimal digit character for a value below ten.
pub open spec fn digit_char(d: int) -> char {
    if d == 0 { '0' } else if d == 1 { '1' } else if d == 2 { '2' } else if d == 3 { '3' }
    else if d == 4 { '4' } else if d == 5 { '5' } else if d == 6 { '6' } else if d == 7 { '7' }
    else if d == 8 { '8' } else { '9' }
}

/// The display form of a code number: `E` and the number in four zero-padded digits.
pub open spec fn code_text(n: int) -> Seq<char> {
    seq!['E', digit_char((n / 1000) % 10), digit_char((n / 100) % 10), digit_char((n / 10) % 10), digit_char(n % 10)]
}

/// Appends the decimal digit of a value below ten.
fn push_digit(s: &mut String, d: u16)
    requires
        d < 10,
    ensures
        final(s)@ == old(s)@.push(digit_char(d as int)),
{
    let t: &str = match d {
        0 => "0",
        1 => "1",
        2 => "2",
        3 => "3",
        4 => "4",
        5 => "5",
        6 => "6",
        7 => "7",
        8 => "8",
        _ => "9",
    };
    proof {
        reveal_strlit("0");
        reveal_strlit("1");
        reveal_strlit("2");
        reveal_strlit("3");
        reveal_strlit("4");
        reveal_strlit("5");
        reveal_strlit("6");
        reveal_strlit("7");
        reveal_strlit("8");
        reveal_strlit("9");
    }
    s.append(t);
    assert(s@ =~= old(s)@.push(digit_char(d as int)));
}

impl DiagnosticCode {
    /// Returns the number of this code.
    pub fn number(self) -> (n: u16)
        ensures
            n == code_number(self),
            n < 10000,
    {
        match self {
            DiagnosticCode::E0001 => 1,
            DiagnosticCode::E0050 => 50,
            DiagnosticCode::E0051 => 51,
            DiagnosticCode::E0052 => 52,
            DiagnosticCode::E0053 => 53,
            DiagnosticCode::E0054 => 54,
            DiagnosticCode::E0055 => 55,
            DiagnosticCode::E0056 => 56,
            DiagnosticCode::E0057 => 57,
            DiagnosticCode::E0058 => 58,
            DiagnosticCode::E0059 => 59,
            DiagnosticCode::E0060 => 60,
            DiagnosticCode::E0061 => 61,
            DiagnosticCode::E0062 => 62,
            DiagnosticCode::E0063 => 63,
            DiagnosticCode::E0100 => 100,
            DiagnosticCode::E0101 => 101,
            DiagnosticCode::E0102 => 102,
            DiagnosticCode::E0103 => 103,
            DiagnosticCode::E0104 => 104,
            DiagnosticCode::E0105 => 105,
            DiagnosticCode::E0106 => 106,
            DiagnosticCode::E0150 => 150,
            DiagnosticCode::E0151 => 151,
            DiagnosticCode::E0152 => 152,
            DiagnosticCode::E0153 => 153,
            DiagnosticCode::E0154 => 154,
            DiagnosticCode::E0155 => 155,
            DiagnosticCode::E0200 => 200,
            DiagnosticCode::E0201 => 201,
            DiagnosticCode::E0202 => 202,
            DiagnosticCode::E0203 => 203,
            DiagnosticCode::E0204 => 204,
            DiagnosticCode::E0205 => 205,
            DiagnosticCode::E0206 => 206,
            DiagnosticCode::E0207 => 207,
            DiagnosticCode::E0208 => 208,
            DiagnosticCode::E0209 => 209,
            DiagnosticCode::E0210 => 210,
            DiagnosticCode::E0211 => 211,
            DiagnosticCode::E0212 => 212,
            DiagnosticCode::E0213 => 213,
            DiagnosticCode::E0214 => 214,
            DiagnosticCode::E0215 => 215,
            DiagnosticCode::E0216 => 216,
            DiagnosticCode::E0217 => 217,
            DiagnosticCode::E0218 => 218,
            DiagnosticCode::E0300 => 300,
            DiagnosticCode::E0301 => 301,
            DiagnosticCode::E0302 => 302,
            DiagnosticCode::E0303 => 303,
            DiagnosticCode::E0304 => 304,
        }
    }

    /// Renders the code as `E` followed by four digits, e.g. `E0050`.
    pub fn to_code_string(self) -> (s: String)
        ensures
            s@ == code_text(code_number(self) as int),
    {
        let n = self.number();
        let mut s = String::new();
        proof { reveal_strlit("E"); }
        s.append("E");
        push_digit(&mut s, (n / 1000) % 10);
        push_digit(&mut s, (n / 100) % 10);
        push_digit(&mut s, (n / 10) % 10);
        push_digit(&mut s, n % 10);
        assert(s@ =~= code_text(n as int));
        s
    }
}

/// Severity level of a diagnostic message.
#[derive(Debug, Clone, Copy, PartialEq, Eq, Structural)]
pub enum Severity {
    Error,
    Warning,
    /// Informational note, typically attached to a related diagnostic.
    Note,
}

/// Visual style of a source label in diagnostic output.
#[derive(Debug, Clone, Copy, PartialEq, Eq, Structural)]
pub enum LabelStyle {
    /// The primary label, pointing to the main source of the diagnostic.
    Primary,
    /// A secondary label providing additional context.
    Secondary,
}

/// A labeled source span within a diagnostic.
#[derive(Debug, Clone)]
pub struct Label {
    pub span: Span,
    pub message: String,
    pub style: LabelStyle,
}

/// The mathematical form of a label.
pub struct LabelView {
    pub span: Span,
    pub message: Seq<char>,
    pub style: LabelStyle,
}

impl View for Label {
    type V = LabelView;

    open spec fn view(&self) -> LabelView {
        LabelView { span: self.span, message: self.message@, style: self.style }
    }
}

/// A compiler diagnostic (error, warning, or note) with source location and context.
///
/// Labels: at most one primary label pointing at the exact source of the
/// problem, any number of secondary labels for related context. Hints are
/// actionable suggestions; notes explain why the problem exists.
#[derive(Debug, Clone)]
pub struct Diagnostic {
    pub severity: Severity,
    pub code: Option<DiagnosticCode>,
    pub message: String,
    pub span: Span,
    pub labels: Vec<Label>,
    pub hints: Vec<String>,
    pub notes: Vec<String>,
}

/// The mathematical form of a diagnostic.
pub struct DiagnosticView {
    pub severity: Severity,
    pub code: Option<DiagnosticCode>,
    pub message: Seq<char>,
    pub span: Span,
    pub labels: Seq<LabelView>,
    pub hints: Seq<Seq<char>>,
    pub notes: Seq<Seq<char>>,
}

impl View for Diagnostic {
    type V = DiagnosticView;

    open spec fn view(&self) -> DiagnosticView {
        DiagnosticView {
            severity: self.severity,
            code: self.code,
            message: self.message@,
            span: self.span,
            labels: self.labels@.map_values(|l: Label| l@),
            hints: self.hints@.map_values(|h: String| h@),
            notes: self.notes@.map_values(|n: String| n@),
        }
    }
}

/// A fresh diagnostic with no code, labels, hints or notes.
pub open spec fn fresh_diagnostic(severity: Severity, message: Seq<char>, span: Span) -> DiagnosticView {
    DiagnosticView {
        severity,
        code: None,
        message,
        span,
        labels: Seq::empty(),
        hints: Seq::empty(),
        notes: Seq::empty(),
    }
}

impl Diagnostic {
    fn with_severity(severity: Severity, message: &str, span: Span) -> (d: Diagnostic)
        ensures
            d@ == fresh_diagnostic(severity, message@, span),
    {
        let d = Diagnostic {
            severity,
            code: None,
            message: String::from_str(message),
            span,
            labels: Vec::new(),
            hints: Vec::new(),
            notes: Vec::new(),
        };
        assert(d@.labels =~= Seq::<LabelView>::empty());
        assert(d@.hints =~= Seq::<Seq<char>>::empty());
        assert(d@.notes =~= Seq::<Seq<char>>::empty());
        d
    }

    /// Creates an error diagnostic at the given span.
    pub fn error(message: &str, span: Span) -> (d: Diagnostic)
        ensures
            d@ == fresh_diagnostic(Severity::Error, message@, span),
    {
        Self::with_severity(Severity::Error, message, span)
    }

    /// Creates a warning diagnostic at the given span.
    pub fn warning(message: &str, span: Span) -> (d: Diagnostic)
        ensures
            d@ == fresh_diagnostic(Severity::Warning, message@, span),
    {
        Self::with_severity(Severity::Warning, message, span)
    }

    /// Creates an informational note diagnostic at the given span.
    pub fn note(message: &str, span: Span) -> (d: Diagnostic)
        ensures
            d@ == fresh_diagnostic(Severity::Note, message@, span),
    {
        Self::with_severity(Severity::Note, message, span)
    }

    /// Sets the diagnostic code.
    pub fn with_code(self, code: DiagnosticCode) -> (d: Diagnostic)
        ensures
            d@ == (DiagnosticView { code: Some(code), ..self@ }),
    {
        let mut d = self;
        d.code = Some(code);
        d
    }

    /// Adds a primary label at the given span.
    pub fn with_label(self, span: Span, message: &str) -> (d: Diagnostic)
        ensures
            d@ == (DiagnosticView {
                labels: self@.labels.push(LabelView { span, message: message@, style: LabelStyle::Primary }),
                ..self@
            }),
    {
        let mut d = self;
        d.labels.push(Label { span, message: String::from_str(message), style: LabelStyle::Primary });
        assert(d@.labels =~= self@.labels.push(LabelView { span, message: message@, style: LabelStyle::Primary }));
        d
    }

    /// Adds a secondary label at the given span.
    pub fn with_secondary_label(self, span: Span, message: &str) -> (d: Diagnostic)
        ensures
            d@ == (DiagnosticView {
                labels: self@.labels.push(LabelView { span, message: message@, style: LabelStyle::Secondary }),
                ..self@
            }),
    {
        let mut d = self;
        d.labels.push(Label { span, message: String::from_str(message), style: LabelStyle::Secondary });
        assert(d@.labels =~= self@.labels.push(LabelView { span, message: message@, style: LabelStyle::Secondary }));
        d
    }

    /// Adds a hint (suggested fix) to this diagnostic.
    pub fn with_hint(self, hint: &str) -> (d: Diagnostic)
        ensures
            d@ == (DiagnosticView { hints: self@.hints.push(hint@), ..self@ }),
    {
        let mut d = self;
        d.hints.push(String::from_str(hint));
        assert(d@.hints =~= self@.hints.push(hint@));
        d
    }

    /// Adds a note (additional context) to this diagnostic.
    pub fn with_note(self, note: &str) -> (d: Diagnostic)
        ensures
            d@ == (DiagnosticView { notes: self@.notes.push(note@), ..self@ }),
    {
        let mut d = self;
        d.notes.push(String::from_str(note));
        assert(d@.notes =~= self@.notes.push(note@));
        d
    }
}

} // verus!
