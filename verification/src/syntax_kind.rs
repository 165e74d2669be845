//! Token and node kinds of the concrete syntax tree.

use vstd::prelude::*;

verus! {

/// All syntactic element kinds of the language: tokens (lexical elements)
/// and nodes (syntax tree elements).
///
/// Each kind has a raw `u16` number, its position in this list; all token
/// kinds come before [`Eof`](Self::Eof) and all node kinds after it, which
/// is what [`is_token`](Self::is_token) relies on.
#[derive(Debug, Clone, Copy, PartialEq, Eq, Structural, PartialOrd, Ord, Hash)]
#[allow(non_camel_case_types)]
pub enum SyntaxKind {

    // === Tokens: Keywords ===
    FnKw,
    PubKw,
    LetKw,
    TypeKw,
    MatchKw,
    IfKw,
    ElseKw,
    ImportKw,
    FromKw,
    PythonKw,
    AsKw,
    TrueKw,
    FalseKw,
    TryKw,
    /// Reserved for future use (Phase 3-1: scoped mutability).
    MutKw,
    /// Reserved for future use (Phase 3-2: async functions).
    AsyncKw,
    /// Reserved for future use (Phase 3-2: await expressions).
    AwaitKw,

    // === Tokens: Literals ===
    IntLit,
    FloatLit,
    StringLit,

    // === Tokens: Identifiers ===
    Ident,

    // === Tokens: Operators ===
    /// `+`
    Plus,
    /// `-`
    Minus,
    /// `*`
    Star,
    /// `/`
    Slash,
    /// `%`
    Percent,
    /// `=`
    Eq,
    /// `==`
    EqEq,
    /// `!=`
    BangEq,
    /// `<`
    Lt,
    /// `<=`
    LtEq,
    /// `>`
    Gt,
    /// `>=`
    GtEq,
    /// `!`
    Bang,
    /// `&`
    Ampersand,
    /// `|`
    PipeSingle,
    /// `&&`
    AmpAmp,
    /// `||`
    PipePipe,
    /// `|>`
    Pipe,
    /// `<>`
    StringConcat,
    /// `=>`
    FatArrow,

    // === Tokens: Delimiters & Punctuation ===
    /// `(`
    LParen,
    /// `)`
    RParen,
    /// `{`
    LBrace,
    /// `}`
    RBrace,
    /// `[`
    LBracket,
    /// `]`
    RBracket,
    /// `,`
    Comma,
    /// `:`
    Colon,
    /// `;`
    Semicolon,
    /// `.`
    Dot,
    /// `..`
    DotDot,
    /// `->`
    Arrow,
    /// `_`
    Underscore,

    // === Tokens: Trivia ===
    Whitespace,
    Newline,
    Comment,

    // === Tokens: Special ===
    /// Invalid or unrecognized token.
    Error,
    /// End of file.
    Eof,

    // ─── Node kinds (after Eof) ─────────────────────────────────────

    // === Nodes: Top-level ===
    /// Root node of a source file.
    SourceFile,
    /// Function definition: `pub fn name(params) -> ReturnType { body }`
    FnDef,
    /// Type definition: `type Name { Variant1, Variant2 }`
    TypeDef,
    /// Import statement: `import foo.bar`
    ImportStmt,
    /// Python FFI import: `from python import pathlib`
    FromPythonImportStmt,
    /// Let binding: `let x = expr`
    LetStmt,

    // === Nodes: Expressions ===
    /// Literal expression: `42`, `"hello"`, `True`
    LiteralExpr,
    /// Identifier expression: `foo`
    IdentExpr,
    /// Function call: `f(a, b)`
    CallExpr,
    /// Pipeline expression: `x |> f |> g`
    PipelineExpr,
    /// Match expression: `match x { ... }`
    MatchExpr,
    /// If expression: `if cond { ... } else { ... }`
    IfExpr,
    /// Lambda expression: `fn(x) { x + 1 }`
    LambdaExpr,
    /// Block expression: `{ expr1; expr2 }`
    BlockExpr,
    /// Binary expression: `a + b`
    BinaryExpr,
    /// Unary expression: `!x`
    UnaryExpr,
    /// Field access: `record.field`
    FieldAccessExpr,
    /// List literal: `[1, 2, 3]`
    ListExpr,
    /// Tuple literal: `#(1, 2)`
    TupleExpr,
    /// Record literal: `Name { field: value }`
    RecordExpr,
    /// Parenthesized expression: `(expr)`
    ParenExpr,
    /// Try expression: `try expr`
    TryExpr,

    // === Nodes: Patterns ===
    /// Wildcard pattern: `_`
    WildcardPat,
    /// Identifier pattern: `x`
    IdentPat,
    /// Literal pattern: `42`, `"hello"`
    LiteralPat,
    /// Constructor pattern: `Some(x)`
    ConstructorPat,
    /// List pattern: `[x, ..rest]`
    ListPat,
    /// Tuple pattern: `#(a, b)`
    TuplePat,

    // === Nodes: Types ===
    /// Type expression: `Int`, `List(Int)`
    TypeExpr,
    /// Type parameter: `a` in `type Box(a)`
    TypeParam,

    // === Nodes: ADT ===
    /// ADT variant: `Some(Int)`
    Variant,
    /// Record field: `name: Type`
    Field,

    // === Nodes: Match ===
    /// Match arm: `pattern -> expr`
    MatchArm,
    /// Guard clause: `if condition`
    Guard,

    // === Nodes: Parameters ===
    /// Function parameter: `name: Type`
    Param,
    /// Parameter list: `(param1, param2)`
    ParamList,
    /// Argument list: `(arg1, arg2)`
    ArgList,

    // === Nodes: Other ===
    /// Return type annotation: `-> Type`
    ReturnType,
    /// Visibility modifier: `pub`
    Visibility,
    /// Qualified path: `module.name`
    Path,
    /// Error node inserted by parser recovery.
    NodeError,

    __LAST,
}

/// Number of kinds, which is also the raw number of the `__LAST` marker.
pub const KIND_COUNT: u16 = 100;

/// The raw number of a kind: its position in the declaration of [`SyntaxKind`].
pub open spec fn raw_of(kind: SyntaxKind) -> u16 {
        match kind {
            SyntaxKind::FnKw => 0,
            SyntaxKind::PubKw => 1,
            SyntaxKind::LetKw => 2,
            SyntaxKind::TypeKw => 3,
            SyntaxKind::MatchKw => 4,
            SyntaxKind::IfKw => 5,
            SyntaxKind::ElseKw => 6,
            SyntaxKind::ImportKw => 7,
            SyntaxKind::FromKw => 8,
            SyntaxKind::PythonKw => 9,
            SyntaxKind::AsKw => 10,
            SyntaxKind::TrueKw => 11,
            SyntaxKind::FalseKw => 12,
            SyntaxKind::TryKw => 13,
            SyntaxKind::MutKw => 14,
            SyntaxKind::AsyncKw => 15,
            SyntaxKind::AwaitKw => 16,
            SyntaxKind::IntLit => 17,
            SyntaxKind::FloatLit => 18,
            SyntaxKind::StringLit => 19,
            SyntaxKind::Ident => 20,
            SyntaxKind::Plus => 21,
            SyntaxKind::Minus => 22,
            SyntaxKind::Star => 23,
            SyntaxKind::Slash => 24,
            SyntaxKind::Percent => 25,
            SyntaxKind::Eq => 26,
            SyntaxKind::EqEq => 27,
            SyntaxKind::BangEq => 28,
            SyntaxKind::Lt => 29,
            SyntaxKind::LtEq => 30,
            SyntaxKind::Gt => 31,
            SyntaxKind::GtEq => 32,
            SyntaxKind::Bang => 33,
            SyntaxKind::Ampersand => 34,
            SyntaxKind::PipeSingle => 35,
            SyntaxKind::AmpAmp => 36,
            SyntaxKind::PipePipe => 37,
            SyntaxKind::Pipe => 38,
            SyntaxKind::StringConcat => 39,
            SyntaxKind::FatArrow => 40,
            SyntaxKind::LParen => 41,
            SyntaxKind::RParen => 42,
            SyntaxKind::LBrace => 43,
            SyntaxKind::RBrace => 44,
            SyntaxKind::LBracket => 45,
            SyntaxKind::RBracket => 46,
            SyntaxKind::Comma => 47,
            SyntaxKind::Colon => 48,
            SyntaxKind::Semicolon => 49,
            SyntaxKind::Dot => 50,
            SyntaxKind::DotDot => 51,
            SyntaxKind::Arrow => 52,
            SyntaxKind::Underscore => 53,
            SyntaxKind::Whitespace => 54,
            SyntaxKind::Newline => 55,
            SyntaxKind::Comment => 56,
            SyntaxKind::Error => 57,
            SyntaxKind::Eof => 58,
            SyntaxKind::SourceFile => 59,
            SyntaxKind::FnDef => 60,
            SyntaxKind::TypeDef => 61,
            SyntaxKind::ImportStmt => 62,
            SyntaxKind::FromPythonImportStmt => 63,
            SyntaxKind::LetStmt => 64,
            SyntaxKind::LiteralExpr => 65,
            SyntaxKind::IdentExpr => 66,
            SyntaxKind::CallExpr => 67,
            SyntaxKind::PipelineExpr => 68,
            SyntaxKind::MatchExpr => 69,
            SyntaxKind::IfExpr => 70,
            SyntaxKind::LambdaExpr => 71,
            SyntaxKind::BlockExpr => 72,
            SyntaxKind::BinaryExpr => 73,
            SyntaxKind::UnaryExpr => 74,
            SyntaxKind::FieldAccessExpr => 75,
            SyntaxKind::ListExpr => 76,
            SyntaxKind::TupleExpr => 77,
            SyntaxKind::RecordExpr => 78,
            SyntaxKind::ParenExpr => 79,
            SyntaxKind::TryExpr => 80,
            SyntaxKind::WildcardPat => 81,
            SyntaxKind::IdentPat => 82,
            SyntaxKind::LiteralPat => 83,
            SyntaxKind::ConstructorPat => 84,
            SyntaxKind::ListPat => 85,
            SyntaxKind::TuplePat => 86,
            SyntaxKind::TypeExpr => 87,
            SyntaxKind::TypeParam => 88,
            SyntaxKind::Variant => 89,
            SyntaxKind::Field => 90,
            SyntaxKind::MatchArm => 91,
            SyntaxKind::Guard => 92,
            SyntaxKind::Param => 93,
            SyntaxKind::ParamList => 94,
            SyntaxKind::ArgList => 95,
            SyntaxKind::ReturnType => 96,
            SyntaxKind::Visibility => 97,
            SyntaxKind::Path => 98,
            SyntaxKind::NodeError => 99,
            SyntaxKind::__LAST => 100,
        }
}

/// Distinct kinds have distinct raw numbers.
pub proof fn lemma_raw_injective(a: SyntaxKind, b: SyntaxKind)
    ensures
        raw_of(a) == raw_of(b) <==> a == b,
{
}

impl SyntaxKind {
    /// Trivia: whitespace, newlines and comments.
    pub open spec fn spec_is_trivia(self) -> bool {
        self == SyntaxKind::Whitespace || self == SyntaxKind::Newline || self == SyntaxKind::Comment
    }

    /// The keyword tokens.
    pub open spec fn spec_is_keyword(self) -> bool {
        matches!(
            self,
            SyntaxKind::FnKw
                | SyntaxKind::PubKw
                | SyntaxKind::LetKw
                | SyntaxKind::TypeKw
                | SyntaxKind::MatchKw
                | SyntaxKind::IfKw
                | SyntaxKind::ElseKw
                | SyntaxKind::ImportKw
                | SyntaxKind::FromKw
                | SyntaxKind::PythonKw
                | SyntaxKind::AsKw
                | SyntaxKind::TrueKw
                | SyntaxKind::FalseKw
                | SyntaxKind::TryKw
                | SyntaxKind::MutKw
                | SyntaxKind::AsyncKw
                | SyntaxKind::AwaitKw
        )
    }

    /// Tokens are the kinds numbered up to and including `Eof`.
    pub open spec fn spec_is_token(self) -> bool {
        raw_of(self) <= raw_of(SyntaxKind::Eof)
    }

    /// Nodes are the kinds after `Eof`, except the `__LAST` marker.
    pub open spec fn spec_is_node(self) -> bool {
        !self.spec_is_token() && self != SyntaxKind::__LAST
    }

    /// Returns the raw number of this kind.
    pub fn to_raw(self) -> (r: u16)
        ensures
            r == raw_of(self),
            r <= KIND_COUNT,
    {
        match self {
            SyntaxKind::FnKw => 0,
            SyntaxKind::PubKw => 1,
            SyntaxKind::LetKw => 2,
            SyntaxKind::TypeKw => 3,
            SyntaxKind::MatchKw => 4,
            SyntaxKind::IfKw => 5,
            SyntaxKind::ElseKw => 6,
            SyntaxKind::ImportKw => 7,
            SyntaxKind::FromKw => 8,
            SyntaxKind::PythonKw => 9,
            SyntaxKind::AsKw => 10,
            SyntaxKind::TrueKw => 11,
            SyntaxKind::FalseKw => 12,
            SyntaxKind::TryKw => 13,
            SyntaxKind::MutKw => 14,
            SyntaxKind::AsyncKw => 15,
            SyntaxKind::AwaitKw => 16,
            SyntaxKind::IntLit => 17,
            SyntaxKind::FloatLit => 18,
            SyntaxKind::StringLit => 19,
            SyntaxKind::Ident => 20,
            SyntaxKind::Plus => 21,
            SyntaxKind::Minus => 22,
            SyntaxKind::Star => 23,
            SyntaxKind::Slash => 24,
            SyntaxKind::Percent => 25,
            SyntaxKind::Eq => 26,
            SyntaxKind::EqEq => 27,
            SyntaxKind::BangEq => 28,
            SyntaxKind::Lt => 29,
            SyntaxKind::LtEq => 30,
            SyntaxKind::Gt => 31,
            SyntaxKind::GtEq => 32,
            SyntaxKind::Bang => 33,
            SyntaxKind::Ampersand => 34,
            SyntaxKind::PipeSingle => 35,
            SyntaxKind::AmpAmp => 36,
            SyntaxKind::PipePipe => 37,
            SyntaxKind::Pipe => 38,
            SyntaxKind::StringConcat => 39,
            SyntaxKind::FatArrow => 40,
            SyntaxKind::LParen => 41,
            SyntaxKind::RParen => 42,
            SyntaxKind::LBrace => 43,
            SyntaxKind::RBrace => 44,
            SyntaxKind::LBracket => 45,
            SyntaxKind::RBracket => 46,
            SyntaxKind::Comma => 47,
            SyntaxKind::Colon => 48,
            SyntaxKind::Semicolon => 49,
            SyntaxKind::Dot => 50,
            SyntaxKind::DotDot => 51,
            SyntaxKind::Arrow => 52,
            SyntaxKind::Underscore => 53,
            SyntaxKind::Whitespace => 54,
            SyntaxKind::Newline => 55,
            SyntaxKind::Comment => 56,
            SyntaxKind::Error => 57,
            SyntaxKind::Eof => 58,
            SyntaxKind::SourceFile => 59,
            SyntaxKind::FnDef => 60,
            SyntaxKind::TypeDef => 61,
            SyntaxKind::ImportStmt => 62,
            SyntaxKind::FromPythonImportStmt => 63,
            SyntaxKind::LetStmt => 64,
            SyntaxKind::LiteralExpr => 65,
            SyntaxKind::IdentExpr => 66,
            SyntaxKind::CallExpr => 67,
            SyntaxKind::PipelineExpr => 68,
            SyntaxKind::MatchExpr => 69,
            SyntaxKind::IfExpr => 70,
            SyntaxKind::LambdaExpr => 71,
            SyntaxKind::BlockExpr => 72,
            SyntaxKind::BinaryExpr => 73,
            SyntaxKind::UnaryExpr => 74,
            SyntaxKind::FieldAccessExpr => 75,
            SyntaxKind::ListExpr => 76,
            SyntaxKind::TupleExpr => 77,
            SyntaxKind::RecordExpr => 78,
            SyntaxKind::ParenExpr => 79,
            SyntaxKind::TryExpr => 80,
            SyntaxKind::WildcardPat => 81,
            SyntaxKind::IdentPat => 82,
            SyntaxKind::LiteralPat => 83,
            SyntaxKind::ConstructorPat => 84,
            SyntaxKind::ListPat => 85,
            SyntaxKind::TuplePat => 86,
            SyntaxKind::TypeExpr => 87,
            SyntaxKind::TypeParam => 88,
            SyntaxKind::Variant => 89,
            SyntaxKind::Field => 90,
            SyntaxKind::MatchArm => 91,
            SyntaxKind::Guard => 92,
            SyntaxKind::Param => 93,
            SyntaxKind::ParamList => 94,
            SyntaxKind::ArgList => 95,
            SyntaxKind::ReturnType => 96,
            SyntaxKind::Visibility => 97,
            SyntaxKind::Path => 98,
            SyntaxKind::NodeError => 99,
            SyntaxKind::__LAST => 100,
        }
    }

    /// Returns the kind with the given raw number.
    ///
    /// The raw number must name a real kind (not the `__LAST` marker).
    pub fn from_raw(raw: u16) -> (k: SyntaxKind)
        requires
            raw < KIND_COUNT,
        ensures
            raw_of(k) == raw,
    {
        match raw {
            0 => SyntaxKind::FnKw,
            1 => SyntaxKind::PubKw,
            2 => SyntaxKind::LetKw,
            3 => SyntaxKind::TypeKw,
            4 => SyntaxKind::MatchKw,
            5 => SyntaxKind::IfKw,
            6 => SyntaxKind::ElseKw,
            7 => SyntaxKind::ImportKw,
            8 => SyntaxKind::FromKw,
            9 => SyntaxKind::PythonKw,
            10 => SyntaxKind::AsKw,
            11 => SyntaxKind::TrueKw,
            12 => SyntaxKind::FalseKw,
            13 => SyntaxKind::TryKw,
            14 => SyntaxKind::MutKw,
            15 => SyntaxKind::AsyncKw,
            16 => SyntaxKind::AwaitKw,
            17 => SyntaxKind::IntLit,
            18 => SyntaxKind::FloatLit,
            19 => SyntaxKind::StringLit,
            20 => SyntaxKind::Ident,
            21 => SyntaxKind::Plus,
            22 => SyntaxKind::Minus,
            23 => SyntaxKind::Star,
            24 => SyntaxKind::Slash,
            25 => SyntaxKind::Percent,
            26 => SyntaxKind::Eq,
            27 => SyntaxKind::EqEq,
            28 => SyntaxKind::BangEq,
            29 => SyntaxKind::Lt,
            30 => SyntaxKind::LtEq,
            31 => SyntaxKind::Gt,
            32 => SyntaxKind::GtEq,
            33 => SyntaxKind::Bang,
            34 => SyntaxKind::Ampersand,
            35 => SyntaxKind::PipeSingle,
            36 => SyntaxKind::AmpAmp,
            37 => SyntaxKind::PipePipe,
            38 => SyntaxKind::Pipe,
            39 => SyntaxKind::StringConcat,
            40 => SyntaxKind::FatArrow,
            41 => SyntaxKind::LParen,
            42 => SyntaxKind::RParen,
            43 => SyntaxKind::LBrace,
            44 => SyntaxKind::RBrace,
            45 => SyntaxKind::LBracket,
            46 => SyntaxKind::RBracket,
            47 => SyntaxKind::Comma,
            48 => SyntaxKind::Colon,
            49 => SyntaxKind::Semicolon,
            50 => SyntaxKind::Dot,
            51 => SyntaxKind::DotDot,
            52 => SyntaxKind::Arrow,
            53 => SyntaxKind::Underscore,
            54 => SyntaxKind::Whitespace,
            55 => SyntaxKind::Newline,
            56 => SyntaxKind::Comment,
            57 => SyntaxKind::Error,
            58 => SyntaxKind::Eof,
            59 => SyntaxKind::SourceFile,
            60 => SyntaxKind::FnDef,
            61 => SyntaxKind::TypeDef,
            62 => SyntaxKind::ImportStmt,
            63 => SyntaxKind::FromPythonImportStmt,
            64 => SyntaxKind::LetStmt,
            65 => SyntaxKind::LiteralExpr,
            66 => SyntaxKind::IdentExpr,
            67 => SyntaxKind::CallExpr,
            68 => SyntaxKind::PipelineExpr,
            69 => SyntaxKind::MatchExpr,
            70 => SyntaxKind::IfExpr,
            71 => SyntaxKind::LambdaExpr,
            72 => SyntaxKind::BlockExpr,
            73 => SyntaxKind::BinaryExpr,
            74 => SyntaxKind::UnaryExpr,
            75 => SyntaxKind::FieldAccessExpr,
            76 => SyntaxKind::ListExpr,
            77 => SyntaxKind::TupleExpr,
            78 => SyntaxKind::RecordExpr,
            79 => SyntaxKind::ParenExpr,
            80 => SyntaxKind::TryExpr,
            81 => SyntaxKind::WildcardPat,
            82 => SyntaxKind::IdentPat,
            83 => SyntaxKind::LiteralPat,
            84 => SyntaxKind::ConstructorPat,
            85 => SyntaxKind::ListPat,
            86 => SyntaxKind::TuplePat,
            87 => SyntaxKind::TypeExpr,
            88 => SyntaxKind::TypeParam,
            89 => SyntaxKind::Variant,
            90 => SyntaxKind::Field,
            91 => SyntaxKind::MatchArm,
            92 => SyntaxKind::Guard,
            93 => SyntaxKind::Param,
            94 => SyntaxKind::ParamList,
            95 => SyntaxKind::ArgList,
            96 => SyntaxKind::ReturnType,
            97 => SyntaxKind::Visibility,
            98 => SyntaxKind::Path,
            99 => SyntaxKind::NodeError,
            _ => SyntaxKind::NodeError,
        }
    }

    /// Returns `true` if this kind represents trivia (whitespace, newlines, comments).
    #[verifier::when_used_as_spec(spec_is_trivia)]
    pub fn is_trivia(self) -> (b: bool)
        ensures
            b == self.spec_is_trivia(),
    {
        matches!(self, SyntaxKind::Whitespace | SyntaxKind::Newline | SyntaxKind::Comment)
    }

    /// Returns `true` if this kind represents a keyword token.
    #[verifier::when_used_as_spec(spec_is_keyword)]
    pub fn is_keyword(self) -> (b: bool)
        ensures
            b == self.spec_is_keyword(),
    {
        matches!(
            self,
            SyntaxKind::FnKw
            | SyntaxKind::PubKw
            | SyntaxKind::LetKw
            | SyntaxKind::TypeKw
            | SyntaxKind::MatchKw
            | SyntaxKind::IfKw
            | SyntaxKind::ElseKw
            | SyntaxKind::ImportKw
            | SyntaxKind::FromKw
            | SyntaxKind::PythonKw
            | SyntaxKind::AsKw
            | SyntaxKind::TrueKw
            | SyntaxKind::FalseKw
            | SyntaxKind::TryKw
            | SyntaxKind::MutKw
            | SyntaxKind::AsyncKw
            | SyntaxKind::AwaitKw
        )
    }

    /// Returns `true` if this kind represents a token (as opposed to a node).
    #[verifier::when_used_as_spec(spec_is_token)]
    pub fn is_token(self) -> (b: bool)
        ensures
            b == self.spec_is_token(),
    {
        self.to_raw() <= SyntaxKind::Eof.to_raw()
    }

    /// Returns `true` if this kind represents a syntax tree node.
    #[verifier::when_used_as_spec(spec_is_node)]
    pub fn is_node(self) -> (b: bool)
        ensures
            b == self.spec_is_node(),
    {
        !self.is_token() && self != SyntaxKind::__LAST
    }
}

} // verus!

verus! {

impl SyntaxKind {
    /// The name of this kind, as written in its declaration.
    pub open spec fn spec_name(self) -> Seq<char> {
        match self {
            SyntaxKind::FnKw => "FnKw"@,
            SyntaxKind::PubKw => "PubKw"@,
            SyntaxKind::LetKw => "LetKw"@,
            SyntaxKind::TypeKw => "TypeKw"@,
            SyntaxKind::MatchKw => "MatchKw"@,
            SyntaxKind::IfKw => "IfKw"@,
            SyntaxKind::ElseKw => "ElseKw"@,
            SyntaxKind::ImportKw => "ImportKw"@,
            SyntaxKind::FromKw => "FromKw"@,
            SyntaxKind::PythonKw => "PythonKw"@,
            SyntaxKind::AsKw => "AsKw"@,
            SyntaxKind::TrueKw => "TrueKw"@,
            SyntaxKind::FalseKw => "FalseKw"@,
            SyntaxKind::TryKw => "TryKw"@,
            SyntaxKind::MutKw => "MutKw"@,
            SyntaxKind::AsyncKw => "AsyncKw"@,
            SyntaxKind::AwaitKw => "AwaitKw"@,
            SyntaxKind::IntLit => "IntLit"@,
            SyntaxKind::FloatLit => "FloatLit"@,
            SyntaxKind::StringLit => "StringLit"@,
            SyntaxKind::Ident => "Ident"@,
            SyntaxKind::Plus => "Plus"@,
            SyntaxKind::Minus => "Minus"@,
            SyntaxKind::Star => "Star"@,
            SyntaxKind::Slash => "Slash"@,
            SyntaxKind::Percent => "Percent"@,
            SyntaxKind::Eq => "Eq"@,
            SyntaxKind::EqEq => "EqEq"@,
            SyntaxKind::BangEq => "BangEq"@,
            SyntaxKind::Lt => "Lt"@,
            SyntaxKind::LtEq => "LtEq"@,
            SyntaxKind::Gt => "Gt"@,
            SyntaxKind::GtEq => "GtEq"@,
            SyntaxKind::Bang => "Bang"@,
            SyntaxKind::Ampersand => "Ampersand"@,
            SyntaxKind::PipeSingle => "PipeSingle"@,
            SyntaxKind::AmpAmp => "AmpAmp"@,
            SyntaxKind::PipePipe => "PipePipe"@,
            SyntaxKind::Pipe => "Pipe"@,
            SyntaxKind::StringConcat => "StringConcat"@,
            SyntaxKind::FatArrow => "FatArrow"@,
            SyntaxKind::LParen => "LParen"@,
            SyntaxKind::RParen => "RParen"@,
            SyntaxKind::LBrace => "LBrace"@,
            SyntaxKind::RBrace => "RBrace"@,
            SyntaxKind::LBracket => "LBracket"@,
            SyntaxKind::RBracket => "RBracket"@,
            SyntaxKind::Comma => "Comma"@,
            SyntaxKind::Colon => "Colon"@,
            SyntaxKind::Semicolon => "Semicolon"@,
            SyntaxKind::Dot => "Dot"@,
            SyntaxKind::DotDot => "DotDot"@,
            SyntaxKind::Arrow => "Arrow"@,
            SyntaxKind::Underscore => "Underscore"@,
            SyntaxKind::Whitespace => "Whitespace"@,
            SyntaxKind::Newline => "Newline"@,
            SyntaxKind::Comment => "Comment"@,
            SyntaxKind::Error => "Error"@,
            SyntaxKind::Eof => "Eof"@,
            SyntaxKind::SourceFile => "SourceFile"@,
            SyntaxKind::FnDef => "FnDef"@,
            SyntaxKind::TypeDef => "TypeDef"@,
            SyntaxKind::ImportStmt => "ImportStmt"@,
            SyntaxKind::FromPythonImportStmt => "FromPythonImportStmt"@,
            SyntaxKind::LetStmt => "LetStmt"@,
            SyntaxKind::LiteralExpr => "LiteralExpr"@,
            SyntaxKind::IdentExpr => "IdentExpr"@,
            SyntaxKind::CallExpr => "CallExpr"@,
            SyntaxKind::PipelineExpr => "PipelineExpr"@,
            SyntaxKind::MatchExpr => "MatchExpr"@,
            SyntaxKind::IfExpr => "IfExpr"@,
            SyntaxKind::LambdaExpr => "LambdaExpr"@,
            SyntaxKind::BlockExpr => "BlockExpr"@,
            SyntaxKind::BinaryExpr => "BinaryExpr"@,
            SyntaxKind::UnaryExpr => "UnaryExpr"@,
            SyntaxKind::FieldAccessExpr => "FieldAccessExpr"@,
            SyntaxKind::ListExpr => "ListExpr"@,
            SyntaxKind::TupleExpr => "TupleExpr"@,
            SyntaxKind::RecordExpr => "RecordExpr"@,
            SyntaxKind::ParenExpr => "ParenExpr"@,
            SyntaxKind::TryExpr => "TryExpr"@,
            SyntaxKind::WildcardPat => "WildcardPat"@,
            SyntaxKind::IdentPat => "IdentPat"@,
            SyntaxKind::LiteralPat => "LiteralPat"@,
            SyntaxKind::ConstructorPat => "ConstructorPat"@,
            SyntaxKind::ListPat => "ListPat"@,
            SyntaxKind::TuplePat => "TuplePat"@,
            SyntaxKind::TypeExpr => "TypeExpr"@,
            SyntaxKind::TypeParam => "TypeParam"@,
            SyntaxKind::Variant => "Variant"@,
            SyntaxKind::Field => "Field"@,
            SyntaxKind::MatchArm => "MatchArm"@,
            SyntaxKind::Guard => "Guard"@,
            SyntaxKind::Param => "Param"@,
            SyntaxKind::ParamList => "ParamList"@,
            SyntaxKind::ArgList => "ArgList"@,
            SyntaxKind::ReturnType => "ReturnType"@,
            SyntaxKind::Visibility => "Visibility"@,
            SyntaxKind::Path => "Path"@,
            SyntaxKind::NodeError => "NodeError"@,
            SyntaxKind::__LAST => "__LAST"@,
        }
    }

    /// The name of this kind, as written in its declaration.
    pub fn name(self) -> (r: &'static str)
        ensures
            r@ == self.spec_name(),
    {
        match self {
            SyntaxKind::FnKw => "FnKw",
            SyntaxKind::PubKw => "PubKw",
            SyntaxKind::LetKw => "LetKw",
            SyntaxKind::TypeKw => "TypeKw",
            SyntaxKind::MatchKw => "MatchKw",
            SyntaxKind::IfKw => "IfKw",
            SyntaxKind::ElseKw => "ElseKw",
            SyntaxKind::ImportKw => "ImportKw",
            SyntaxKind::FromKw => "FromKw",
            SyntaxKind::PythonKw => "PythonKw",
            SyntaxKind::AsKw => "AsKw",
            SyntaxKind::TrueKw => "TrueKw",
            SyntaxKind::FalseKw => "FalseKw",
            SyntaxKind::TryKw => "TryKw",
            SyntaxKind::MutKw => "MutKw",
            SyntaxKind::AsyncKw => "AsyncKw",
            SyntaxKind::AwaitKw => "AwaitKw",
            SyntaxKind::IntLit => "IntLit",
            SyntaxKind::FloatLit => "FloatLit",
            SyntaxKind::StringLit => "StringLit",
            SyntaxKind::Ident => "Ident",
            SyntaxKind::Plus => "Plus",
            SyntaxKind::Minus => "Minus",
            SyntaxKind::Star => "Star",
            SyntaxKind::Slash => "Slash",
            SyntaxKind::Percent => "Percent",
            SyntaxKind::Eq => "Eq",
            SyntaxKind::EqEq => "EqEq",
            SyntaxKind::BangEq => "BangEq",
            SyntaxKind::Lt => "Lt",
            SyntaxKind::LtEq => "LtEq",
            SyntaxKind::Gt => "Gt",
            SyntaxKind::GtEq => "GtEq",
            SyntaxKind::Bang => "Bang",
            SyntaxKind::Ampersand => "Ampersand",
            SyntaxKind::PipeSingle => "PipeSingle",
            SyntaxKind::AmpAmp => "AmpAmp",
            SyntaxKind::PipePipe => "PipePipe",
            SyntaxKind::Pipe => "Pipe",
            SyntaxKind::StringConcat => "StringConcat",
            SyntaxKind::FatArrow => "FatArrow",
            SyntaxKind::LParen => "LParen",
            SyntaxKind::RParen => "RParen",
            SyntaxKind::LBrace => "LBrace",
            SyntaxKind::RBrace => "RBrace",
            SyntaxKind::LBracket => "LBracket",
            SyntaxKind::RBracket => "RBracket",
            SyntaxKind::Comma => "Comma",
            SyntaxKind::Colon => "Colon",
            SyntaxKind::Semicolon => "Semicolon",
            SyntaxKind::Dot => "Dot",
            SyntaxKind::DotDot => "DotDot",
            SyntaxKind::Arrow => "Arrow",
            SyntaxKind::Underscore => "Underscore",
            SyntaxKind::Whitespace => "Whitespace",
            SyntaxKind::Newline => "Newline",
            SyntaxKind::Comment => "Comment",
            SyntaxKind::Error => "Error",
            SyntaxKind::Eof => "Eof",
            SyntaxKind::SourceFile => "SourceFile",
            SyntaxKind::FnDef => "FnDef",
            SyntaxKind::TypeDef => "TypeDef",
            SyntaxKind::ImportStmt => "ImportStmt",
            SyntaxKind::FromPythonImportStmt => "FromPythonImportStmt",
            SyntaxKind::LetStmt => "LetStmt",
            SyntaxKind::LiteralExpr => "LiteralExpr",
            SyntaxKind::IdentExpr => "IdentExpr",
            SyntaxKind::CallExpr => "CallExpr",
            SyntaxKind::PipelineExpr => "PipelineExpr",
            SyntaxKind::MatchExpr => "MatchExpr",
            SyntaxKind::IfExpr => "IfExpr",
            SyntaxKind::LambdaExpr => "LambdaExpr",
            SyntaxKind::BlockExpr => "BlockExpr",
            SyntaxKind::BinaryExpr => "BinaryExpr",
            SyntaxKind::UnaryExpr => "UnaryExpr",
            SyntaxKind::FieldAccessExpr => "FieldAccessExpr",
            SyntaxKind::ListExpr => "ListExpr",
            SyntaxKind::TupleExpr => "TupleExpr",
            SyntaxKind::RecordExpr => "RecordExpr",
            SyntaxKind::ParenExpr => "ParenExpr",
            SyntaxKind::TryExpr => "TryExpr",
            SyntaxKind::WildcardPat => "WildcardPat",
            SyntaxKind::IdentPat => "IdentPat",
            SyntaxKind::LiteralPat => "LiteralPat",
            SyntaxKind::ConstructorPat => "ConstructorPat",
            SyntaxKind::ListPat => "ListPat",
            SyntaxKind::TuplePat => "TuplePat",
            SyntaxKind::TypeExpr => "TypeExpr",
            SyntaxKind::TypeParam => "TypeParam",
            SyntaxKind::Variant => "Variant",
            SyntaxKind::Field => "Field",
            SyntaxKind::MatchArm => "MatchArm",
            SyntaxKind::Guard => "Guard",
            SyntaxKind::Param => "Param",
            SyntaxKind::ParamList => "ParamList",
            SyntaxKind::ArgList => "ArgList",
            SyntaxKind::ReturnType => "ReturnType",
            SyntaxKind::Visibility => "Visibility",
            SyntaxKind::Path => "Path",
            SyntaxKind::NodeError => "NodeError",
            SyntaxKind::__LAST => "__LAST",
        }
    }
}

} // verus!
