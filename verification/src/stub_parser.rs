//! The public API of a Python `.pyi` stub or typed `.py` source, read off
//! its syntax tree: functions, classes, methods, properties, constants and
//! overloads.
//!
//! The tree is the part of Python's syntax this reading looks at; anything
//! else is `Other`. No semantic analysis is attempted: a construct that is
//! not understood is skipped, symbol by symbol, and an annotation that is
//! not understood reads as `Any`.
use crate::api_index::{
    first_symbol, method_views, property_views, sig_views, symbol_views, PythonClassInfo, PythonClassInfoView,
    PythonFunctionInfo, PythonMethodInfo, PythonMethodInfoView, PythonModuleInfo, PythonModuleInfoView,
    PythonSymbolInfo, PythonSymbolInfoView, PythonSymbolKind, PythonSymbolKindView,
};
use crate::ffi_model::{type_view, type_views, FfiParam, FfiParamView, FfiSignature, FfiSignatureView, FfiType, FfiTypeView};
use crate::ffi_source::{ResolvedTypeSource, TypeSourceKind};
use crate::text::str_eq;
use vstd::prelude::*;

verus! {

// ── The syntax tree ─────────────────────────────────────────────

/// An expression.
#[derive(Debug)]
pub enum PyExpr {
    /// `name`
    Name(String),
    /// `value.attr`
    Attribute(Box<PyExpr>, String),
    /// `value[slice, ...]`
    Subscript(Box<PyExpr>, Vec<PySlice>),
    /// `left | right`
    BitOr(Box<PyExpr>, Box<PyExpr>),
    /// Any other binary operation.
    OtherBinary,
    /// `...`
    Ellipsis,
    /// A simple string literal, as written, quotes and prefix included.
    Str(String),
    /// `[a, b]`
    List(Vec<PyElement>),
    /// `(a, b)`
    Tuple(Vec<PyElement>),
    /// Anything else.
    Other,
}

/// One element of a subscript.
#[derive(Debug)]
pub enum PySlice {
    /// `x[e]`
    Index(PyExpr),
    /// `x[a:b]`
    Range,
}

/// One element of a list or tuple display.
#[derive(Debug)]
pub enum PyElement {
    /// A plain element.
    Simple(PyExpr),
    /// `*e`
    Starred,
}

/// The target of an assignment.
#[derive(Debug)]
pub enum PyTarget {
    /// A plain name.
    Name(String),
    /// Anything else (attribute, subscript, tuple...).
    Other,
}

/// A parameter.
#[derive(Debug)]
pub struct PyParam {
    pub name: String,
    pub annotation: Option<PyExpr>,
    pub has_default: bool,
}

/// `[async] def name(params, *, kwonly_params) -> returns`
#[derive(Debug)]
pub struct PyFunctionDef {
    pub name: String,
    pub decorators: Vec<PyExpr>,
    pub is_async: bool,
    /// The positional parameters.
    pub params: Vec<PyParam>,
    /// The keyword-only parameters (after `*`).
    pub kwonly_params: Vec<PyParam>,
    pub returns: Option<PyExpr>,
}

/// A statement that fits on one logical line.
#[derive(Debug)]
pub enum PySmall {
    /// `target: annotation [= value]`
    AnnAssign { target: PyTarget, annotation: PyExpr },
    /// `target = ... = value`
    Assign { targets: Vec<PyTarget>, value: PyExpr },
    /// Anything else.
    Other,
}

/// An indented block, or statements on the header's line.
#[derive(Debug)]
pub enum PySuite {
    Block(Vec<PyStmt>),
    Simple(Vec<PySmall>),
}

/// `class name: body`
#[derive(Debug)]
pub struct PyClassDef {
    pub name: String,
    pub body: PySuite,
}

/// `if ...: body` with its `elif` / `else`.
#[derive(Debug)]
pub struct PyIf {
    pub body: PySuite,
    pub orelse: Option<Box<PyOrElse>>,
}

/// What follows an `if` body.
#[derive(Debug)]
pub enum PyOrElse {
    Elif(PyIf),
    Else(PySuite),
}

/// A statement.
#[derive(Debug)]
pub enum PyStmt {
    /// Small statements separated by `;`.
    Simple(Vec<PySmall>),
    FunctionDef(PyFunctionDef),
    ClassDef(PyClassDef),
    If(PyIf),
    /// Any other compound statement.
    OtherCompound,
}

/// A source file.
#[derive(Debug)]
pub struct PyModule {
    pub body: Vec<PyStmt>,
}

/// A stub that could not be read at all.
#[derive(Debug, Clone)]
pub enum StubParseError {
    /// The file could not be parsed.
    SyntaxError(String),
}

impl StubParseError {
    /// The error as a message: `stub parse error: ` and the parser's words.
    pub fn describe(&self) -> (r: String)
        ensures
            r@ == match self {
                StubParseError::SyntaxError(m) => "stub parse error: "@ + m@,
            },
    {
        match self {
            StubParseError::SyntaxError(m) => {
                let mut r = String::from_str("stub parse error: ");
                r.append(m.as_str());
                r
            },
        }
    }
}

// ── Annotations as types ────────────────────────────────────────

/// `name` with a prefix of `_`.
pub open spec fn is_private_name(n: Seq<char>) -> bool {
    n.len() > 0 && n[0] == '_'
}

/// `name` with a prefix of `__`.
pub open spec fn is_dunder_name(n: Seq<char>) -> bool {
    n.len() > 1 && n[0] == '_' && n[1] == '_'
}

/// The type a bare name stands for; an unknown name is a named type of
/// no module.
pub open spec fn name_type(n: Seq<char>) -> FfiTypeView {
    if n == "int"@ {
        FfiTypeView::Int
    } else if n == "float"@ || n == "SupportsFloat"@ {
        FfiTypeView::Float
    } else if n == "str"@ || n == "LiteralString"@ {
        FfiTypeView::Str
    } else if n == "bool"@ || n == "SupportsInt"@ {
        FfiTypeView::Bool
    } else if n == "None"@ || n == "NoneType"@ {
        FfiTypeView::NoneType
    } else if n == "bytes"@ || n == "bytearray"@ || n == "ReadableBuffer"@ || n == "WriteableBuffer"@ {
        FfiTypeView::Bytes
    } else if n == "Any"@ || n == "object"@ || n == "NoReturn"@ || n == "Never"@ {
        FfiTypeView::Any
    } else {
        FfiTypeView::Named { module: Seq::empty(), name: n }
    }
}

/// The dotted name an expression spells (`a.b.c`), if it is one.
pub open spec fn dotted_name(e: PyExpr) -> Option<Seq<char>>
    decreases e,
{
    match e {
        PyExpr::Name(n) => Some(n@),
        PyExpr::Attribute(v, a) => match dotted_name(*v) {
            Some(p) => Some(p + "."@ + a@),
            None => None,
        },
        _ => None,
    }
}

/// The first of `args`, or `Any`.
pub open spec fn first_or_any(args: Seq<FfiTypeView>) -> FfiTypeView {
    if args.len() > 0 {
        args[0]
    } else {
        FfiTypeView::Any
    }
}

/// The type of `base[args]`.
pub open spec fn subscript_type(base: Seq<char>, args: Seq<FfiTypeView>) -> FfiTypeView {
    if base == "list"@ || base == "List"@ || base == "Sequence"@ || base == "Iterable"@ || base == "Iterator"@
        || base == "Set"@ || base == "set"@ || base == "FrozenSet"@ || base == "frozenset"@ {
        FfiTypeView::List(Box::new(first_or_any(args)))
    } else if base == "dict"@ || base == "Dict"@ {
        FfiTypeView::Dict(
            Box::new(first_or_any(args)),
            Box::new(
                if args.len() > 1 {
                    args[1]
                } else {
                    FfiTypeView::Any
                },
            ),
        )
    } else if base == "tuple"@ || base == "Tuple"@ {
        FfiTypeView::Tuple(args)
    } else if base == "Optional"@ {
        FfiTypeView::Optional(Box::new(first_or_any(args)))
    } else if base == "Union"@ {
        FfiTypeView::Union(args)
    } else if base == "ClassVar"@ || base == "Final"@ || base == "Type"@ || base == "type"@ {
        first_or_any(args)
    } else if base == "Callable"@ {
        FfiTypeView::Any
    } else {
        FfiTypeView::Named { module: Seq::empty(), name: base }
    }
}

/// The type an annotation expression denotes; `None` where the
/// expression cannot be a type at all.
pub open spec fn type_of(e: PyExpr) -> Option<FfiTypeView>
    decreases e, 0int,
{
    match e {
        PyExpr::Name(n) => Some(name_type(n@)),
        PyExpr::Attribute(v, a) => match dotted_name(*v) {
            Some(m) => Some(FfiTypeView::Named { module: m, name: a@ }),
            None => None,
        },
        PyExpr::Subscript(v, slices) => match dotted_name(*v) {
            Some(base) => Some(subscript_type(base, slice_types(slices@, slices@.len() as int))),
            None => None,
        },
        PyExpr::BitOr(l, r) => match (type_of(*l), type_of(*r)) {
            (Some(lt), Some(rt)) => if rt == FfiTypeView::NoneType {
                Some(FfiTypeView::Optional(Box::new(lt)))
            } else if lt == FfiTypeView::NoneType {
                Some(FfiTypeView::Optional(Box::new(rt)))
            } else {
                Some(FfiTypeView::Union(seq![lt, rt]))
            },
            _ => None,
        },
        PyExpr::OtherBinary => None,
        _ => Some(FfiTypeView::Any),
    }
}

/// The types of the first `k` index elements of a subscript, skipping
/// ranges and elements that are no type.
pub open spec fn slice_types(ss: Seq<PySlice>, k: int) -> Seq<FfiTypeView>
    decreases ss, k,
{
    if k <= 0 || k > ss.len() {
        Seq::empty()
    } else {
        slice_types(ss, k - 1) + match ss[k - 1] {
            PySlice::Index(e) => match type_of(e) {
                Some(t) => seq![t],
                None => Seq::empty(),
            },
            PySlice::Range => Seq::empty(),
        }
    }
}

/// The sequence-like containers of Python's typing, which the FFI model
/// reads as lists.
pub open spec fn is_list_like_container(n: Seq<char>) -> bool {
    ||| n == "list"@
    ||| n == "List"@
    ||| n == "Sequence"@
    ||| n == "Iterable"@
    ||| n == "Iterator"@
    ||| n == "set"@
    ||| n == "Set"@
    ||| n == "frozenset"@
    ||| n == "FrozenSet"@
}

/// An annotation `C[T]`, for a sequence-like container `C` named by a bare
/// name, reads as a list of what `T` reads as; `C[]` as a list of `Any`.
pub proof fn lemma_list_like_annotation(e: PyExpr)
    requires
        e matches PyExpr::Subscript(v, slices) && (*v matches PyExpr::Name(n) && is_list_like_container(n@)),
    ensures
        ({
            let slices = e->Subscript_1@;
            &&& slices.len() == 1 && (slices[0] matches PySlice::Index(x) && type_of(x) is Some)
                ==> type_of(e) == Some(FfiTypeView::List(Box::new(type_of(slices[0]->Index_0)->0)))
            &&& slices.len() == 0 ==> type_of(e) == Some(FfiTypeView::List(Box::new(FfiTypeView::Any)))
        }),
{
    let slices = e->Subscript_1@;
    let v = *e->Subscript_0;
    let base = v->Name_0@;
    assert(dotted_name(v) == Some(base));
    assert(type_of(e) == Some(subscript_type(base, slice_types(slices, slices.len() as int))));
    if slices.len() == 0 {
        assert(slice_types(slices, 0) =~= Seq::<FfiTypeView>::empty());
    }
    if slices.len() == 1 {
        assert(slice_types(slices, 0) =~= Seq::<FfiTypeView>::empty());
        match slices[0] {
            PySlice::Index(x) => {
                if type_of(x) is Some {
                    assert(slice_types(slices, 1) =~= seq![type_of(x)->0]);
                }
            },
            PySlice::Range => {},
        }
    }
}

/// The names of typing's generic forms that an annotation `C[...]` can use
/// for something other than a named type.
pub open spec fn is_typing_generic(n: Seq<char>) -> bool {
    ||| is_list_like_container(n)
    ||| n == "dict"@
    ||| n == "Dict"@
    ||| n == "tuple"@
    ||| n == "Tuple"@
    ||| n == "Optional"@
    ||| n == "Union"@
    ||| n == "ClassVar"@
    ||| n == "Final"@
    ||| n == "Type"@
    ||| n == "type"@
    ||| n == "Callable"@
}

/// The bare names that read as a type of Python's own.
pub open spec fn is_builtin_type_name(n: Seq<char>) -> bool {
    ||| n == "int"@
    ||| n == "float"@
    ||| n == "SupportsFloat"@
    ||| n == "str"@
    ||| n == "LiteralString"@
    ||| n == "bool"@
    ||| n == "SupportsInt"@
    ||| n == "None"@
    ||| n == "NoneType"@
    ||| n == "bytes"@
    ||| n == "bytearray"@
    ||| n == "ReadableBuffer"@
    ||| n == "WriteableBuffer"@
    ||| n == "Any"@
    ||| n == "object"@
    ||| n == "NoReturn"@
    ||| n == "Never"@
}

/// A bare name reads as the type it names: `int` as `Int`, `float` and
/// `SupportsFloat` as `Float`, `str` and `LiteralString` as `Str`, `bool`
/// and `SupportsInt` as `Bool`, `None` and `NoneType` as `NoneType`, the
/// byte buffers as `Bytes`, `Any`, `object`, `NoReturn` and `Never` as
/// `Any`, and any other name as a named type of no module.
pub proof fn lemma_name_annotation(e: PyExpr)
    requires
        e is Name,
    ensures
        ({
            let n = e->Name_0@;
            &&& n == "int"@ ==> type_of(e) == Some(FfiTypeView::Int)
            &&& (n == "float"@ || n == "SupportsFloat"@) ==> type_of(e) == Some(FfiTypeView::Float)
            &&& (n == "str"@ || n == "LiteralString"@) ==> type_of(e) == Some(FfiTypeView::Str)
            &&& (n == "bool"@ || n == "SupportsInt"@) ==> type_of(e) == Some(FfiTypeView::Bool)
            &&& (n == "None"@ || n == "NoneType"@) ==> type_of(e) == Some(FfiTypeView::NoneType)
            &&& (n == "bytes"@ || n == "bytearray"@ || n == "ReadableBuffer"@ || n == "WriteableBuffer"@)
                ==> type_of(e) == Some(FfiTypeView::Bytes)
            &&& (n == "Any"@ || n == "object"@ || n == "NoReturn"@ || n == "Never"@) ==> type_of(e) == Some(
                FfiTypeView::Any,
            )
            &&& !is_builtin_type_name(n) ==> type_of(e) == Some(
                FfiTypeView::Named { module: Seq::empty(), name: n },
            )
        }),
{
    let n = e->Name_0@;
    assert(type_of(e) == Some(name_type(n)));
    lemma_builtin_names_spelled();
}

/// The typing forms with one argument `T`: `Optional[T]` reads as
/// `Optional(T)`; `ClassVar[T]`, `Final[T]`, `Type[T]` and `type[T]` as `T`
/// itself; `Callable[...]` as `Any`; `dict[K]` as a dict from `K` to `Any`;
/// `tuple[T]` and `Union[T]` as the tuple and union of `T` alone; and a
/// generic of any other bare name `G` as the named type `G`.
pub proof fn lemma_one_argument_annotation(e: PyExpr)
    requires
        e matches PyExpr::Subscript(v, slices) && (*v is Name) && slices@.len() == 1 && (
        slices@[0] matches PySlice::Index(x) && type_of(x) is Some),
    ensures
        ({
            let b = e->Subscript_0->Name_0@;
            let x = type_of(e->Subscript_1@[0]->Index_0)->0;
            &&& b == "Optional"@ ==> type_of(e) == Some(FfiTypeView::Optional(Box::new(x)))
            &&& (b == "ClassVar"@ || b == "Final"@ || b == "Type"@ || b == "type"@) ==> type_of(e) == Some(x)
            &&& b == "Callable"@ ==> type_of(e) == Some(FfiTypeView::Any)
            &&& (b == "dict"@ || b == "Dict"@) ==> type_of(e) == Some(
                FfiTypeView::Dict(Box::new(x), Box::new(FfiTypeView::Any)),
            )
            &&& (b == "tuple"@ || b == "Tuple"@) ==> type_of(e) == Some(FfiTypeView::Tuple(seq![x]))
            &&& b == "Union"@ ==> type_of(e) == Some(FfiTypeView::Union(seq![x]))
            &&& !is_typing_generic(b) ==> type_of(e) == Some(
                FfiTypeView::Named { module: Seq::empty(), name: b },
            )
        }),
{
    let slices = e->Subscript_1@;
    let v = *e->Subscript_0;
    let b = v->Name_0@;
    let x = type_of(slices[0]->Index_0)->0;
    assert(dotted_name(v) == Some(b));
    assert(slice_types(slices, 0) =~= Seq::<FfiTypeView>::empty());
    assert(slice_types(slices, 1) =~= seq![x]);
    assert(type_of(e) == Some(subscript_type(b, seq![x])));
    lemma_typing_names_spelled();
}

/// The typing forms with two arguments `K`, `V`: `dict[K, V]` reads as a
/// dict from `K` to `V`, `tuple[K, V]` as the pair type, `Union[K, V]` as
/// the union of the two.
pub proof fn lemma_two_argument_annotation(e: PyExpr)
    requires
        e matches PyExpr::Subscript(v, slices) && (*v is Name) && slices@.len() == 2 && (
        slices@[0] matches PySlice::Index(x) && type_of(x) is Some) && (slices@[1] matches PySlice::Index(
            y,
        ) && type_of(y) is Some),
    ensures
        ({
            let b = e->Subscript_0->Name_0@;
            let x = type_of(e->Subscript_1@[0]->Index_0)->0;
            let y = type_of(e->Subscript_1@[1]->Index_0)->0;
            &&& (b == "dict"@ || b == "Dict"@) ==> type_of(e) == Some(
                FfiTypeView::Dict(Box::new(x), Box::new(y)),
            )
            &&& (b == "tuple"@ || b == "Tuple"@) ==> type_of(e) == Some(FfiTypeView::Tuple(seq![x, y]))
            &&& b == "Union"@ ==> type_of(e) == Some(FfiTypeView::Union(seq![x, y]))
        }),
{
    let slices = e->Subscript_1@;
    let v = *e->Subscript_0;
    let b = v->Name_0@;
    let x = type_of(slices[0]->Index_0)->0;
    let y = type_of(slices[1]->Index_0)->0;
    assert(dotted_name(v) == Some(b));
    assert(slice_types(slices, 0) =~= Seq::<FfiTypeView>::empty());
    assert(slice_types(slices, 1) =~= seq![x]);
    assert(slice_types(slices, 2) =~= seq![x, y]);
    assert(type_of(e) == Some(subscript_type(b, seq![x, y])));
    lemma_typing_names_spelled();
}

/// `T | None` and `None | T` read as `Optional(T)`; a union `A | B` of two
/// types that are not `None` reads as the union of `A` and `B`.
pub proof fn lemma_bar_annotation(e: PyExpr)
    requires
        e matches PyExpr::BitOr(l, r) && type_of(*l) is Some && type_of(*r) is Some,
    ensures
        ({
            let a = type_of(*e->BitOr_0)->0;
            let c = type_of(*e->BitOr_1)->0;
            &&& c == FfiTypeView::NoneType ==> type_of(e) == Some(FfiTypeView::Optional(Box::new(a)))
            &&& a == FfiTypeView::NoneType ==> type_of(e) == Some(FfiTypeView::Optional(Box::new(c)))
            &&& (a != FfiTypeView::NoneType && c != FfiTypeView::NoneType) ==> type_of(e) == Some(
                FfiTypeView::Union(seq![a, c]),
            )
        }),
{
}

/// A dotted annotation `a.b.C` reads as the type `C` of module `a.b`; an
/// annotation that is neither a name, a dotted name, a subscript nor a
/// binary operation (`...`, a string, anything else) reads as `Any`; and a
/// binary operation other than `|` is no type at all.
pub proof fn lemma_other_annotations(e: PyExpr)
    ensures
        (e matches PyExpr::Attribute(v, a) && *v is Name) ==> type_of(e) == Some(
            FfiTypeView::Named { module: e->Attribute_0->Name_0@, name: e->Attribute_1@ },
        ),
        (e matches PyExpr::Attribute(v, a) && (*v matches PyExpr::Attribute(w, b) && *w is Name)) ==> type_of(e)
            == Some(
            FfiTypeView::Named {
                module: e->Attribute_0->Attribute_0->Name_0@ + "."@ + e->Attribute_0->Attribute_1@,
                name: e->Attribute_1@,
            },
        ),
        (e is Ellipsis || e is Str || e is List || e is Tuple || e is Other) ==> type_of(e) == Some(
            FfiTypeView::Any,
        ),
        e is OtherBinary ==> type_of(e) is None,
{
    if let PyExpr::Attribute(v, _) = e {
        // The prefix `a.b` is itself a dotted name.
        assert(dotted_name(*v) == match *v {
            PyExpr::Name(n) => Some(n@),
            PyExpr::Attribute(w, b) => match dotted_name(*w) {
                Some(p) => Some(p + "."@ + b@),
                None => None,
            },
            _ => None,
        });
    }
}

/// The spelling of the names of typing's forms, enough to tell them apart.
proof fn lemma_typing_names_spelled()
    ensures
        "list"@.len() == 4 && "list"@[0] == 'l' && "list"@[1] == 'i' && "list"@[2] == 's',
        "List"@.len() == 4 && "List"@[0] == 'L' && "List"@[1] == 'i' && "List"@[2] == 's',
        "Sequence"@.len() == 8 && "Sequence"@[0] == 'S' && "Sequence"@[1] == 'e' && "Sequence"@[2] == 'q',
        "Iterable"@.len() == 8 && "Iterable"@[0] == 'I' && "Iterable"@[1] == 't' && "Iterable"@[2] == 'e',
        "Iterator"@.len() == 8 && "Iterator"@[0] == 'I' && "Iterator"@[1] == 't' && "Iterator"@[2] == 'e',
        "set"@.len() == 3 && "set"@[0] == 's' && "set"@[1] == 'e' && "set"@[2] == 't',
        "Set"@.len() == 3 && "Set"@[0] == 'S' && "Set"@[1] == 'e' && "Set"@[2] == 't',
        "frozenset"@.len() == 9 && "frozenset"@[0] == 'f' && "frozenset"@[1] == 'r' && "frozenset"@[2] == 'o',
        "FrozenSet"@.len() == 9 && "FrozenSet"@[0] == 'F' && "FrozenSet"@[1] == 'r' && "FrozenSet"@[2] == 'o',
        "dict"@.len() == 4 && "dict"@[0] == 'd' && "dict"@[1] == 'i' && "dict"@[2] == 'c',
        "Dict"@.len() == 4 && "Dict"@[0] == 'D' && "Dict"@[1] == 'i' && "Dict"@[2] == 'c',
        "tuple"@.len() == 5 && "tuple"@[0] == 't' && "tuple"@[1] == 'u' && "tuple"@[2] == 'p',
        "Tuple"@.len() == 5 && "Tuple"@[0] == 'T' && "Tuple"@[1] == 'u' && "Tuple"@[2] == 'p',
        "Optional"@.len() == 8 && "Optional"@[0] == 'O' && "Optional"@[1] == 'p' && "Optional"@[2] == 't',
        "Union"@.len() == 5 && "Union"@[0] == 'U' && "Union"@[1] == 'n' && "Union"@[2] == 'i',
        "ClassVar"@.len() == 8 && "ClassVar"@[0] == 'C' && "ClassVar"@[1] == 'l' && "ClassVar"@[2] == 'a',
        "Final"@.len() == 5 && "Final"@[0] == 'F' && "Final"@[1] == 'i' && "Final"@[2] == 'n',
        "Type"@.len() == 4 && "Type"@[0] == 'T' && "Type"@[1] == 'y' && "Type"@[2] == 'p',
        "type"@.len() == 4 && "type"@[0] == 't' && "type"@[1] == 'y' && "type"@[2] == 'p',
        "Callable"@.len() == 8 && "Callable"@[0] == 'C' && "Callable"@[1] == 'a' && "Callable"@[2] == 'l',
{
    reveal_strlit("list");
    reveal_strlit("List");
    reveal_strlit("Sequence");
    reveal_strlit("Iterable");
    reveal_strlit("Iterator");
    reveal_strlit("set");
    reveal_strlit("Set");
    reveal_strlit("frozenset");
    reveal_strlit("FrozenSet");
    reveal_strlit("dict");
    reveal_strlit("Dict");
    reveal_strlit("tuple");
    reveal_strlit("Tuple");
    reveal_strlit("Optional");
    reveal_strlit("Union");
    reveal_strlit("ClassVar");
    reveal_strlit("Final");
    reveal_strlit("Type");
    reveal_strlit("type");
    reveal_strlit("Callable");
}

/// The spelling of the builtin type names, enough to tell them apart.
proof fn lemma_builtin_names_spelled()
    ensures
        "int"@.len() == 3 && "int"@[0] == 'i' && "int"@[1] == 'n' && "int"@[2] == 't',
        "float"@.len() == 5 && "float"@[0] == 'f' && "float"@[1] == 'l' && "float"@[2] == 'o',
        "SupportsFloat"@.len() == 13 && "SupportsFloat"@[0] == 'S' && "SupportsFloat"@[1] == 'u' && "SupportsFloat"@[2] == 'p',
        "str"@.len() == 3 && "str"@[0] == 's' && "str"@[1] == 't' && "str"@[2] == 'r',
        "LiteralString"@.len() == 13 && "LiteralString"@[0] == 'L' && "LiteralString"@[1] == 'i' && "LiteralString"@[2] == 't',
        "bool"@.len() == 4 && "bool"@[0] == 'b' && "bool"@[1] == 'o' && "bool"@[2] == 'o',
        "SupportsInt"@.len() == 11 && "SupportsInt"@[0] == 'S' && "SupportsInt"@[1] == 'u' && "SupportsInt"@[2] == 'p',
        "None"@.len() == 4 && "None"@[0] == 'N' && "None"@[1] == 'o' && "None"@[2] == 'n',
        "NoneType"@.len() == 8 && "NoneType"@[0] == 'N' && "NoneType"@[1] == 'o' && "NoneType"@[2] == 'n',
        "bytes"@.len() == 5 && "bytes"@[0] == 'b' && "bytes"@[1] == 'y' && "bytes"@[2] == 't',
        "bytearray"@.len() == 9 && "bytearray"@[0] == 'b' && "bytearray"@[1] == 'y' && "bytearray"@[2] == 't',
        "ReadableBuffer"@.len() == 14 && "ReadableBuffer"@[0] == 'R' && "ReadableBuffer"@[1] == 'e' && "ReadableBuffer"@[2] == 'a',
        "WriteableBuffer"@.len() == 15 && "WriteableBuffer"@[0] == 'W' && "WriteableBuffer"@[1] == 'r' && "WriteableBuffer"@[2] == 'i',
        "Any"@.len() == 3 && "Any"@[0] == 'A' && "Any"@[1] == 'n' && "Any"@[2] == 'y',
        "object"@.len() == 6 && "object"@[0] == 'o' && "object"@[1] == 'b' && "object"@[2] == 'j',
        "NoReturn"@.len() == 8 && "NoReturn"@[0] == 'N' && "NoReturn"@[1] == 'o' && "NoReturn"@[2] == 'R',
        "Never"@.len() == 5 && "Never"@[0] == 'N' && "Never"@[1] == 'e' && "Never"@[2] == 'v',
{
    reveal_strlit("int");
    reveal_strlit("float");
    reveal_strlit("SupportsFloat");
    reveal_strlit("str");
    reveal_strlit("LiteralString");
    reveal_strlit("bool");
    reveal_strlit("SupportsInt");
    reveal_strlit("None");
    reveal_strlit("NoneType");
    reveal_strlit("bytes");
    reveal_strlit("bytearray");
    reveal_strlit("ReadableBuffer");
    reveal_strlit("WriteableBuffer");
    reveal_strlit("Any");
    reveal_strlit("object");
    reveal_strlit("NoReturn");
    reveal_strlit("Never");
}

/// The type of an optional annotation, with a default for a missing or
/// unreadable one.
pub open spec fn annotation_or(a: Option<PyExpr>, default: FfiTypeView) -> FfiTypeView {
    match a {
        Some(e) => match type_of(e) {
            Some(t) => t,
            None => default,
        },
        None => default,
    }
}

fn name_to_ffi_type(name: &String) -> (t: FfiType)
    ensures
        t@ == name_type(name@),
{
    let n = name.as_str();
    proof {
        reveal_strlit("int");
        reveal_strlit("float");
        reveal_strlit("SupportsFloat");
        reveal_strlit("str");
        reveal_strlit("LiteralString");
        reveal_strlit("bool");
        reveal_strlit("SupportsInt");
        reveal_strlit("None");
        reveal_strlit("NoneType");
        reveal_strlit("bytes");
        reveal_strlit("bytearray");
        reveal_strlit("ReadableBuffer");
        reveal_strlit("WriteableBuffer");
        reveal_strlit("Any");
        reveal_strlit("object");
        reveal_strlit("NoReturn");
        reveal_strlit("Never");
    }
    if str_eq(n, "int") {
        FfiType::Int
    } else if str_eq(n, "float") || str_eq(n, "SupportsFloat") {
        FfiType::Float
    } else if str_eq(n, "str") || str_eq(n, "LiteralString") {
        FfiType::Str
    } else if str_eq(n, "bool") || str_eq(n, "SupportsInt") {
        FfiType::Bool
    } else if str_eq(n, "None") || str_eq(n, "NoneType") {
        FfiType::NoneType
    } else if str_eq(n, "bytes") || str_eq(n, "bytearray") || str_eq(n, "ReadableBuffer") || str_eq(
        n,
        "WriteableBuffer",
    ) {
        FfiType::Bytes
    } else if str_eq(n, "Any") || str_eq(n, "object") || str_eq(n, "NoReturn") || str_eq(n, "Never") {
        FfiType::Any
    } else {
        FfiType::Named { module: String::new(), name: name.clone() }
    }
}

fn dotted_name_of(e: &PyExpr) -> (r: Option<String>)
    ensures
        match r {
            Some(s) => dotted_name(*e) == Some(s@),
            None => dotted_name(*e) is None,
        },
    decreases e,
{
    match e {
        PyExpr::Name(n) => Some(n.clone()),
        PyExpr::Attribute(v, a) => match dotted_name_of(v) {
            Some(p) => {
                let mut s = p;
                s.append(".");
                s.append(a.as_str());
                Some(s)
            },
            None => None,
        },
        _ => None,
    }
}

/// The view of an optional type.
pub open spec fn opt_type_view(t: Option<FfiType>) -> Option<FfiTypeView> {
    match t {
        Some(x) => Some(x@),
        None => None,
    }
}

fn first_or_any_of(args: &Vec<FfiType>) -> (t: FfiType)
    ensures
        t@ == first_or_any(type_views(args@, args@.len() as int)),
{
    proof {
        crate::ffi_model::lemma_type_views(args@, args@.len() as int);
    }
    if args.len() > 0 {
        args[0].duplicate()
    } else {
        FfiType::Any
    }
}

fn subscript_to_ffi_type(base: &String, args: Vec<FfiType>) -> (t: FfiType)
    ensures
        t@ == subscript_type(base@, type_views(args@, args@.len() as int)),
{
    let b = base.as_str();
    proof {
        crate::ffi_model::lemma_type_views(args@, args@.len() as int);
        reveal_strlit("list");
        reveal_strlit("List");
        reveal_strlit("Sequence");
        reveal_strlit("Iterable");
        reveal_strlit("Iterator");
        reveal_strlit("Set");
        reveal_strlit("set");
        reveal_strlit("FrozenSet");
        reveal_strlit("frozenset");
        reveal_strlit("dict");
        reveal_strlit("Dict");
        reveal_strlit("tuple");
        reveal_strlit("Tuple");
        reveal_strlit("Optional");
        reveal_strlit("Union");
        reveal_strlit("ClassVar");
        reveal_strlit("Final");
        reveal_strlit("Type");
        reveal_strlit("type");
        reveal_strlit("Callable");
    }
    if str_eq(b, "list") || str_eq(b, "List") || str_eq(b, "Sequence") || str_eq(b, "Iterable") || str_eq(
        b,
        "Iterator",
    ) || str_eq(b, "Set") || str_eq(b, "set") || str_eq(b, "FrozenSet") || str_eq(b, "frozenset") {
        FfiType::List(Box::new(first_or_any_of(&args)))
    } else if str_eq(b, "dict") || str_eq(b, "Dict") {
        let key = first_or_any_of(&args);
        let val = if args.len() > 1 {
            args[1].duplicate()
        } else {
            FfiType::Any
        };
        FfiType::Dict(Box::new(key), Box::new(val))
    } else if str_eq(b, "tuple") || str_eq(b, "Tuple") {
        FfiType::Tuple(args)
    } else if str_eq(b, "Optional") {
        FfiType::Optional(Box::new(first_or_any_of(&args)))
    } else if str_eq(b, "Union") {
        FfiType::Union(args)
    } else if str_eq(b, "ClassVar") || str_eq(b, "Final") || str_eq(b, "Type") || str_eq(b, "type") {
        first_or_any_of(&args)
    } else if str_eq(b, "Callable") {
        FfiType::Any
    } else {
        FfiType::Named { module: String::new(), name: base.clone() }
    }
}

/// The type an annotation expression denotes.
fn expr_to_ffi_type(e: &PyExpr) -> (r: Option<FfiType>)
    ensures
        opt_type_view(r) == type_of(*e),
    decreases e, 0int,
{
    match e {
        PyExpr::Name(n) => Some(name_to_ffi_type(n)),
        PyExpr::Attribute(v, a) => match dotted_name_of(v) {
            Some(m) => Some(FfiType::Named { module: m, name: a.clone() }),
            None => None,
        },
        PyExpr::Subscript(v, slices) => match dotted_name_of(v) {
            Some(base) => {
                let args = slice_types_of(slices);
                Some(subscript_to_ffi_type(&base, args))
            },
            None => None,
        },
        PyExpr::BitOr(l, r) => {
            let lt = expr_to_ffi_type(l);
            let rt = expr_to_ffi_type(r);
            match (lt, rt) {
                (Some(lt), Some(rt)) => {
                    if rt.same_as(&FfiType::NoneType) {
                        Some(FfiType::Optional(Box::new(lt)))
                    } else if lt.same_as(&FfiType::NoneType) {
                        Some(FfiType::Optional(Box::new(rt)))
                    } else {
                        let ghost lv = lt@;
                        let ghost rv = rt@;
                        let v = vec![lt, rt];
                        proof {
                            crate::ffi_model::lemma_type_views(v@, 2);
                            assert(type_views(v@, 2) =~= seq![lv, rv]);
                        }
                        Some(FfiType::Union(v))
                    }
                },
                _ => None,
            }
        },
        PyExpr::OtherBinary => None,
        _ => Some(FfiType::Any),
    }
}

fn slice_types_of(ss: &Vec<PySlice>) -> (r: Vec<FfiType>)
    ensures
        type_views(r@, r@.len() as int) == slice_types(ss@, ss@.len() as int),
    decreases ss, 0int,
{
    let mut r: Vec<FfiType> = Vec::new();
    let mut k: usize = 0;
    while k < ss.len()
        invariant
            k <= ss@.len(),
            type_views(r@, r@.len() as int) == slice_types(ss@, k as int),
        decreases ss@.len() - k,
    {
        proof {
            assert(decreases_to!(ss => ss@[k as int]));
        }
        match &ss[k] {
            PySlice::Index(e) => {
                proof {
                    assert(decreases_to!(ss@[k as int] => *e));
                }
                match expr_to_ffi_type(e) {
                    Some(t) => {
                        let ghost before = r@;
                        r.push(t);
                        proof {
                            crate::ffi_model::lemma_type_views(before, before.len() as int);
                            crate::ffi_model::lemma_type_views(r@, r@.len() as int);
                            assert(type_views(r@, r@.len() as int) =~= type_views(before, before.len() as int).push(
                                r@[before.len() as int]@,
                            ));
                        }
                    },
                    None => {},
                }
            },
            PySlice::Range => {},
        }
        k += 1;
    }
    r
}

/// The type of an optional annotation, `default` when missing or no type.
fn annotation_type_or(a: &Option<PyExpr>, default: FfiType) -> (t: FfiType)
    ensures
        t@ == annotation_or(*a, default@),
{
    match a {
        Some(e) => match expr_to_ffi_type(e) {
            Some(t) => t,
            None => default,
        },
        None => default,
    }
}

// ── What a stub declares ────────────────────────────────────────

/// Decorator `d` is `name` or `something.name`.
pub open spec fn decorator_is(d: PyExpr, name: Seq<char>) -> bool {
    match d {
        PyExpr::Name(n) => n@ == name,
        PyExpr::Attribute(_, a) => a@ == name,
        _ => false,
    }
}

/// Some decorator is `name`.
pub open spec fn has_decorator(ds: Seq<PyExpr>, name: Seq<char>) -> bool {
    exists|i: int| 0 <= i < ds.len() && decorator_is(#[trigger] ds[i], name)
}

/// The first `k` parameters; with `skip_receiver`, `self` and `cls` are
/// left out. A missing or unreadable annotation is `Any`.
pub open spec fn params_of(ps: Seq<PyParam>, skip_receiver: bool, k: int) -> Seq<FfiParamView>
    decreases k,
{
    if k <= 0 || k > ps.len() {
        Seq::empty()
    } else {
        let prev = params_of(ps, skip_receiver, k - 1);
        let p = ps[k - 1];
        if skip_receiver && (p.name@ == "self"@ || p.name@ == "cls"@) {
            prev
        } else {
            prev.push(
                FfiParamView {
                    name: p.name@,
                    ty: annotation_or(p.annotation, FfiTypeView::Any),
                    has_default: p.has_default,
                },
            )
        }
    }
}

/// The signature of a function: positional parameters without the
/// receiver, then keyword-only ones; a missing return type is `None`.
pub open spec fn signature_of(f: PyFunctionDef, is_async: bool) -> FfiSignatureView {
    FfiSignatureView {
        params: params_of(f.params@, true, f.params@.len() as int) + params_of(
            f.kwonly_params@,
            false,
            f.kwonly_params@.len() as int,
        ),
        return_ty: annotation_or(f.returns, FfiTypeView::NoneType),
        is_async,
    }
}

/// A name that is public: no leading `_`, unless it is a dunder.
pub open spec fn is_public_name(n: Seq<char>) -> bool {
    !is_private_name(n) || is_dunder_name(n)
}

/// A module-level `name: T` declares a constant, when the name has no
/// leading `_` and `T` is a type.
pub open spec fn add_constant(syms: Seq<PythonSymbolInfoView>, s: PySmall, prov: TypeSourceKind) -> Seq<
    PythonSymbolInfoView,
> {
    match s {
        PySmall::AnnAssign { target: PyTarget::Name(n), annotation } => if !is_private_name(n@) && type_of(
            annotation,
        ) is Some {
            syms.push(
                PythonSymbolInfoView {
                    name: n@,
                    kind: PythonSymbolKindView::Constant(type_of(annotation)->Some_0),
                    doc: None,
                    is_async: false,
                    provenance: prov,
                },
            )
        } else {
            syms
        },
        _ => syms,
    }
}

/// The first `k` small statements read at module level.
pub open spec fn add_smalls(syms: Seq<PythonSymbolInfoView>, ss: Seq<PySmall>, k: int, prov: TypeSourceKind) -> Seq<
    PythonSymbolInfoView,
>
    decreases k,
{
    if k <= 0 || k > ss.len() {
        syms
    } else {
        add_constant(add_smalls(syms, ss, k - 1, prov), ss[k - 1], prov)
    }
}

/// A public module-level function: an `@overload` of a function already
/// read adds a signature to it; anything else is a new symbol.
pub open spec fn add_function(syms: Seq<PythonSymbolInfoView>, f: PyFunctionDef, prov: TypeSourceKind) -> Seq<
    PythonSymbolInfoView,
> {
    if !is_public_name(f.name@) {
        syms
    } else {
        let sig = signature_of(f, f.is_async);
        let j = first_symbol(syms, f.name@, 0);
        if has_decorator(f.decorators@, "overload"@) && 0 <= j < syms.len() && syms[j].kind is Function {
            syms.update(
                j,
                PythonSymbolInfoView {
                    kind: PythonSymbolKindView::Function(syms[j].kind->Function_0.push(sig)),
                    ..syms[j]
                },
            )
        } else {
            syms.push(
                PythonSymbolInfoView {
                    name: f.name@,
                    kind: PythonSymbolKindView::Function(seq![sig]),
                    doc: None,
                    is_async: f.is_async,
                    provenance: prov,
                },
            )
        }
    }
}

/// A class-level `name: T` declares a property, when the name has no
/// leading `_` and `T` is a type.
pub open spec fn add_property(c: PythonClassInfoView, s: PySmall) -> PythonClassInfoView {
    match s {
        PySmall::AnnAssign { target: PyTarget::Name(n), annotation } => if !is_private_name(n@) && type_of(
            annotation,
        ) is Some {
            PythonClassInfoView { properties: c.properties.push((n@, type_of(annotation)->Some_0)), ..c }
        } else {
            c
        },
        _ => c,
    }
}

/// The first `k` small statements read in a class body.
pub open spec fn class_smalls(c: PythonClassInfoView, ss: Seq<PySmall>, k: int) -> PythonClassInfoView
    decreases k,
{
    if k <= 0 || k > ss.len() {
        c
    } else {
        add_property(class_smalls(c, ss, k - 1), ss[k - 1])
    }
}

/// A method added to a list: an `@overload` of a method already there
/// adds its signatures to it.
pub open spec fn add_method_to(ms: Seq<PythonMethodInfoView>, m: PythonMethodInfoView, overload: bool) -> Seq<
    PythonMethodInfoView,
> {
    let j = crate::api_index::first_method(ms, m.name, 0);
    if overload && 0 <= j < ms.len() {
        ms.update(j, PythonMethodInfoView { signatures: ms[j].signatures + m.signatures, ..ms[j] })
    } else {
        ms.push(m)
    }
}

/// A function in a class body: `__init__` is the constructor, a public
/// `@property` a property typed by its return annotation, any other
/// public one a class, static or instance method.
pub open spec fn add_class_function(c: PythonClassInfoView, f: PyFunctionDef) -> PythonClassInfoView {
    let n = f.name@;
    let ds = f.decorators@;
    if n == "__init__"@ {
        PythonClassInfoView { constructor: Some(signature_of(f, false)), ..c }
    } else if !is_public_name(n) {
        c
    } else if has_decorator(ds, "property"@) {
        PythonClassInfoView { properties: c.properties.push((n, annotation_or(f.returns, FfiTypeView::Any))), ..c }
    } else {
        let m = PythonMethodInfoView { name: n, signatures: seq![signature_of(f, f.is_async)], is_async: f.is_async };
        let overload = has_decorator(ds, "overload"@);
        if has_decorator(ds, "classmethod"@) {
            PythonClassInfoView { class_methods: add_method_to(c.class_methods, m, overload), ..c }
        } else if has_decorator(ds, "staticmethod"@) {
            PythonClassInfoView { static_methods: add_method_to(c.static_methods, m, overload), ..c }
        } else {
            PythonClassInfoView { methods: add_method_to(c.methods, m, overload), ..c }
        }
    }
}

/// A statement in a class body; both branches of an `if` count.
pub open spec fn class_stmt(c: PythonClassInfoView, st: PyStmt) -> PythonClassInfoView
    decreases st, 0int,
{
    match st {
        PyStmt::Simple(ss) => class_smalls(c, ss@, ss@.len() as int),
        PyStmt::FunctionDef(f) => add_class_function(c, f),
        PyStmt::If(i) => class_if(c, i),
        _ => c,
    }
}

/// The first `k` statements of a class body.
pub open spec fn class_stmts(c: PythonClassInfoView, ss: Seq<PyStmt>, k: int) -> PythonClassInfoView
    decreases ss, k,
{
    if k <= 0 || k > ss.len() {
        c
    } else {
        class_stmt(class_stmts(c, ss, k - 1), ss[k - 1])
    }
}

/// A suite of a class body.
pub open spec fn class_suite(c: PythonClassInfoView, s: PySuite) -> PythonClassInfoView
    decreases s, 0int,
{
    match s {
        PySuite::Block(ss) => class_stmts(c, ss@, ss@.len() as int),
        PySuite::Simple(ss) => class_smalls(c, ss@, ss@.len() as int),
    }
}

/// An `if` in a class body: its body, then its `elif` or `else`.
pub open spec fn class_if(c: PythonClassInfoView, i: PyIf) -> PythonClassInfoView
    decreases i, 0int,
{
    let c1 = class_suite(c, i.body);
    match i.orelse {
        Some(b) => match *b {
            PyOrElse::Elif(e) => class_if(c1, e),
            PyOrElse::Else(s) => class_suite(c1, s),
        },
        None => c1,
    }
}

/// Methods of the same name gathered into the first of them, which
/// collects all their signatures in order.
pub open spec fn gather_overloads(ms: Seq<PythonMethodInfoView>, k: int) -> Seq<PythonMethodInfoView>
    decreases k,
{
    if k <= 0 || k > ms.len() {
        Seq::empty()
    } else {
        let prev = gather_overloads(ms, k - 1);
        let m = ms[k - 1];
        let j = crate::api_index::first_method(prev, m.name, 0);
        if 0 <= j < prev.len() {
            prev.update(j, PythonMethodInfoView { signatures: prev[j].signatures + m.signatures, ..prev[j] })
        } else {
            prev.push(m)
        }
    }
}

/// A class declared by `c`, its overloads gathered.
pub open spec fn class_of(c: PyClassDef) -> PythonClassInfoView {
    let body = class_suite(
        PythonClassInfoView {
            name: c.name@,
            constructor: None,
            methods: Seq::empty(),
            properties: Seq::empty(),
            class_methods: Seq::empty(),
            static_methods: Seq::empty(),
        },
        c.body,
    );
    PythonClassInfoView {
        methods: gather_overloads(body.methods, body.methods.len() as int),
        class_methods: gather_overloads(body.class_methods, body.class_methods.len() as int),
        static_methods: gather_overloads(body.static_methods, body.static_methods.len() as int),
        ..body
    }
}

/// A public class is a new symbol.
pub open spec fn add_class(syms: Seq<PythonSymbolInfoView>, c: PyClassDef, prov: TypeSourceKind) -> Seq<
    PythonSymbolInfoView,
> {
    if !is_public_name(c.name@) {
        syms
    } else {
        syms.push(
            PythonSymbolInfoView {
                name: c.name@,
                kind: PythonSymbolKindView::Class(class_of(c)),
                doc: None,
                is_async: false,
                provenance: prov,
            },
        )
    }
}

/// A module-level statement; both branches of an `if` count.
pub open spec fn module_stmt(syms: Seq<PythonSymbolInfoView>, st: PyStmt, prov: TypeSourceKind) -> Seq<
    PythonSymbolInfoView,
>
    decreases st, 0int,
{
    match st {
        PyStmt::Simple(ss) => add_smalls(syms, ss@, ss@.len() as int, prov),
        PyStmt::FunctionDef(f) => add_function(syms, f, prov),
        PyStmt::ClassDef(c) => add_class(syms, c, prov),
        PyStmt::If(i) => module_if(syms, i, prov),
        PyStmt::OtherCompound => syms,
    }
}

/// The first `k` module-level statements.
pub open spec fn module_stmts(syms: Seq<PythonSymbolInfoView>, ss: Seq<PyStmt>, k: int, prov: TypeSourceKind) -> Seq<
    PythonSymbolInfoView,
>
    decreases ss, k,
{
    if k <= 0 || k > ss.len() {
        syms
    } else {
        module_stmt(module_stmts(syms, ss, k - 1, prov), ss[k - 1], prov)
    }
}

/// A module-level suite.
pub open spec fn module_suite(syms: Seq<PythonSymbolInfoView>, s: PySuite, prov: TypeSourceKind) -> Seq<
    PythonSymbolInfoView,
>
    decreases s, 0int,
{
    match s {
        PySuite::Block(ss) => module_stmts(syms, ss@, ss@.len() as int, prov),
        PySuite::Simple(ss) => add_smalls(syms, ss@, ss@.len() as int, prov),
    }
}

/// A module-level `if`: its body, then its `elif` or `else`.
pub open spec fn module_if(syms: Seq<PythonSymbolInfoView>, i: PyIf, prov: TypeSourceKind) -> Seq<
    PythonSymbolInfoView,
>
    decreases i, 0int,
{
    let s1 = module_suite(syms, i.body, prov);
    match i.orelse {
        Some(b) => match *b {
            PyOrElse::Elif(e) => module_if(s1, e, prov),
            PyOrElse::Else(s) => module_suite(s1, s, prov),
        },
        None => s1,
    }
}

// ── `__all__` ───────────────────────────────────────────────────

/// The text of a string literal quoted with `"` or `'` at both ends.
pub open spec fn string_value(e: PyExpr) -> Option<Seq<char>> {
    match e {
        PyExpr::Str(raw) => {
            let r = raw@;
            if r.len() >= 2 && ((r[0] == '"' && r[r.len() - 1] == '"') || (r[0] == '\'' && r[r.len() - 1]
                == '\'')) {
                Some(r.subrange(1, r.len() - 1))
            } else {
                None
            }
        },
        _ => None,
    }
}

/// The string values among the first `k` elements.
pub open spec fn element_strings(es: Seq<PyElement>, k: int) -> Seq<Seq<char>>
    decreases k,
{
    if k <= 0 || k > es.len() {
        Seq::empty()
    } else {
        element_strings(es, k - 1) + match es[k - 1] {
            PyElement::Simple(e) => match string_value(e) {
                Some(v) => seq![v],
                None => Seq::empty(),
            },
            PyElement::Starred => Seq::empty(),
        }
    }
}

/// The strings of a list or tuple display.
pub open spec fn string_list(e: PyExpr) -> Option<Seq<Seq<char>>> {
    match e {
        PyExpr::List(es) => Some(element_strings(es@, es@.len() as int)),
        PyExpr::Tuple(es) => Some(element_strings(es@, es@.len() as int)),
        _ => None,
    }
}

/// The target is the name `__all__`.
pub open spec fn target_is_all(t: PyTarget) -> bool {
    match t {
        PyTarget::Name(n) => n@ == "__all__"@,
        PyTarget::Other => false,
    }
}

/// Some target is the name `__all__`.
pub open spec fn targets_all(ts: Seq<PyTarget>) -> bool {
    exists|i: int| 0 <= i < ts.len() && target_is_all(#[trigger] ts[i])
}

/// The first assignment to `__all__` among small statements `i..`: the
/// strings it lists, if it lists any.
pub open spec fn all_in_smalls(ss: Seq<PySmall>, i: int) -> Option<Option<Seq<Seq<char>>>>
    decreases ss.len() - i,
{
    if i < 0 || i >= ss.len() {
        None
    } else {
        match ss[i] {
            PySmall::Assign { targets, value } => if targets_all(targets@) {
                Some(string_list(value))
            } else {
                all_in_smalls(ss, i + 1)
            },
            _ => all_in_smalls(ss, i + 1),
        }
    }
}

/// The first assignment to `__all__` among top-level statements `i..`.
pub open spec fn all_in_stmts(ss: Seq<PyStmt>, i: int) -> Option<Option<Seq<Seq<char>>>>
    decreases ss.len() - i,
{
    if i < 0 || i >= ss.len() {
        None
    } else {
        match ss[i] {
            PyStmt::Simple(sm) => match all_in_smalls(sm@, 0) {
                Some(r) => Some(r),
                None => all_in_stmts(ss, i + 1),
            },
            _ => all_in_stmts(ss, i + 1),
        }
    }
}

/// The names a module exports by `__all__`, when its first top-level
/// assignment to `__all__` lists strings.
pub open spec fn declared_all(m: PyModule) -> Option<Seq<Seq<char>>> {
    match all_in_stmts(m.body@, 0) {
        Some(r) => r,
        None => None,
    }
}

/// The first `k` symbols whose names are listed, in order.
pub open spec fn keep_listed(syms: Seq<PythonSymbolInfoView>, names: Seq<Seq<char>>, k: int) -> Seq<
    PythonSymbolInfoView,
>
    decreases k,
{
    if k <= 0 || k > syms.len() {
        Seq::empty()
    } else {
        keep_listed(syms, names, k - 1) + if names.contains(syms[k - 1].name) {
            seq![syms[k - 1]]
        } else {
            Seq::empty()
        }
    }
}

/// The symbols a stub declares: read in order, then filtered by
/// `__all__` when it lists names.
pub open spec fn stub_symbols(m: PyModule, prov: TypeSourceKind) -> Seq<PythonSymbolInfoView> {
    let all = module_stmts(Seq::empty(), m.body@, m.body@.len() as int, prov);
    match declared_all(m) {
        Some(names) => keep_listed(all, names, all.len() as int),
        None => all,
    }
}

// ── Reading a stub ──────────────────────────────────────────────

pub open spec fn param_views(s: Seq<FfiParam>) -> Seq<FfiParamView> {
    s.map_values(|p: FfiParam| p@)
}

fn decorator_named(ds: &Vec<PyExpr>, name: &str) -> (b: bool)
    ensures
        b == has_decorator(ds@, name@),
{
    let mut i: usize = 0;
    while i < ds.len()
        invariant
            i <= ds@.len(),
            forall|j: int| 0 <= j < i ==> !decorator_is(#[trigger] ds@[j], name@),
        decreases ds@.len() - i,
    {
        let hit = match &ds[i] {
            PyExpr::Name(n) => str_eq(n.as_str(), name),
            PyExpr::Attribute(_, a) => str_eq(a.as_str(), name),
            _ => false,
        };
        if hit {
            assert(decorator_is(ds@[i as int], name@));
            return true;
        }
        i += 1;
    }
    false
}

fn push_params(out: &mut Vec<FfiParam>, ps: &Vec<PyParam>, skip_receiver: bool)
    ensures
        param_views(final(out)@) == param_views(old(out)@) + params_of(ps@, skip_receiver, ps@.len() as int),
{
    let ghost start = param_views(old(out)@);
    proof {
        reveal_strlit("self");
        reveal_strlit("cls");
    }
    let mut k: usize = 0;
    while k < ps.len()
        invariant
            k <= ps@.len(),
            param_views(out@) == start + params_of(ps@, skip_receiver, k as int),
        decreases ps@.len() - k,
    {
        let p = &ps[k];
        let receiver = str_eq(p.name.as_str(), "self") || str_eq(p.name.as_str(), "cls");
        if !(skip_receiver && receiver) {
            let ghost before = param_views(out@);
            let ty = annotation_type_or(&p.annotation, FfiType::Any);
            out.push(FfiParam { name: p.name.clone(), ty, has_default: p.has_default });
            assert(param_views(out@) =~= before.push(out@[out@.len() - 1]@));
        }
        k += 1;
    }
}

fn signature_from(f: &PyFunctionDef, is_async: bool) -> (sig: FfiSignature)
    ensures
        sig@ == signature_of(*f, is_async),
{
    let mut params: Vec<FfiParam> = Vec::new();
    assert(param_views(params@) =~= Seq::<FfiParamView>::empty());
    push_params(&mut params, &f.params, true);
    push_params(&mut params, &f.kwonly_params, false);
    let return_ty = annotation_type_or(&f.returns, FfiType::NoneType);
    let sig = FfiSignature { params, return_ty, is_async };
    assert(sig@.params =~= signature_of(*f, is_async).params);
    sig
}

fn starts_private(n: &String) -> (b: bool)
    ensures
        b == is_private_name(n@),
{
    let s = n.as_str();
    s.unicode_len() > 0 && s.get_char(0) == '_'
}

fn public_name(n: &String) -> (b: bool)
    ensures
        b == is_public_name(n@),
{
    let s = n.as_str();
    let len = s.unicode_len();
    let private = len > 0 && s.get_char(0) == '_';
    let dunder = len > 1 && s.get_char(0) == '_' && s.get_char(1) == '_';
    !private || dunder
}

fn add_constant_to(syms: &mut Vec<PythonSymbolInfo>, s: &PySmall, prov: TypeSourceKind)
    ensures
        symbol_views(final(syms)@) == add_constant(symbol_views(old(syms)@), *s, prov),
{
    if let PySmall::AnnAssign { target: PyTarget::Name(n), annotation } = s {
        if !starts_private(n) {
            if let Some(ty) = expr_to_ffi_type(annotation) {
                let ghost before = symbol_views(syms@);
                let sym = PythonSymbolInfo {
                    name: n.clone(),
                    kind: PythonSymbolKind::Constant(ty),
                    doc: None,
                    is_async: false,
                    provenance: prov,
                };
                syms.push(sym);
                assert(symbol_views(syms@) =~= before.push(syms@[syms@.len() - 1]@));
            }
        }
    }
}

fn add_smalls_to(syms: &mut Vec<PythonSymbolInfo>, ss: &Vec<PySmall>, prov: TypeSourceKind)
    ensures
        symbol_views(final(syms)@) == add_smalls(symbol_views(old(syms)@), ss@, ss@.len() as int, prov),
{
    let ghost start = symbol_views(old(syms)@);
    let mut k: usize = 0;
    while k < ss.len()
        invariant
            k <= ss@.len(),
            symbol_views(syms@) == add_smalls(start, ss@, k as int, prov),
        decreases ss@.len() - k,
    {
        add_constant_to(syms, &ss[k], prov);
        k += 1;
    }
}

fn add_function_to(syms: &mut Vec<PythonSymbolInfo>, f: &PyFunctionDef, prov: TypeSourceKind)
    ensures
        symbol_views(final(syms)@) == add_function(symbol_views(old(syms)@), *f, prov),
{
    proof {
        reveal_strlit("overload");
    }
    if !public_name(&f.name) {
        return;
    }
    let overload = decorator_named(&f.decorators, "overload");
    let sig = signature_from(f, f.is_async);
    let ghost before = symbol_views(syms@);
    if overload {
        if let Some(j) = crate::api_index::find_symbol(syms, &f.name) {
            if let PythonSymbolKind::Function(info) = &mut syms[j].kind {
                let ghost sv = sig@;
                info.add_overload(sig);
                assert(symbol_views(syms@) =~= before.update(
                    j as int,
                    PythonSymbolInfoView {
                        kind: PythonSymbolKindView::Function(before[j as int].kind->Function_0.push(sv)),
                        ..before[j as int]
                    },
                ));
                return;
            }
        }
    }
    let sym = PythonSymbolInfo {
        name: f.name.clone(),
        kind: PythonSymbolKind::Function(PythonFunctionInfo::single(sig)),
        doc: None,
        is_async: f.is_async,
        provenance: prov,
    };
    syms.push(sym);
    assert(symbol_views(syms@) =~= before.push(syms@[syms@.len() - 1]@));
}

fn add_property_to(c: &mut PythonClassInfo, s: &PySmall)
    ensures
        final(c)@ == add_property(old(c)@, *s),
{
    if let PySmall::AnnAssign { target: PyTarget::Name(n), annotation } = s {
        if !starts_private(n) {
            if let Some(ty) = expr_to_ffi_type(annotation) {
                let ghost before = property_views(c.properties@);
                let ghost tv = ty@;
                c.properties.push((n.clone(), ty));
                assert(property_views(c.properties@) =~= before.push((n@, tv)));
            }
        }
    }
}

fn class_smalls_into(c: &mut PythonClassInfo, ss: &Vec<PySmall>)
    ensures
        final(c)@ == class_smalls(old(c)@, ss@, ss@.len() as int),
{
    let ghost start = old(c)@;
    let mut k: usize = 0;
    while k < ss.len()
        invariant
            k <= ss@.len(),
            c@ == class_smalls(start, ss@, k as int),
        decreases ss@.len() - k,
    {
        add_property_to(c, &ss[k]);
        k += 1;
    }
}

fn add_method_into(ms: &mut Vec<PythonMethodInfo>, m: PythonMethodInfo, overload: bool)
    ensures
        method_views(final(ms)@) == add_method_to(method_views(old(ms)@), m@, overload),
{
    let ghost before = method_views(ms@);
    let ghost mv = m@;
    if overload {
        if let Some(j) = crate::api_index::find_method(ms, &m.name) {
            let mut extra = m.signatures;
            let ghost es = sig_views(extra@);
            let ghost cur = sig_views(ms@[j as int].signatures@);
            ms[j].signatures.append(&mut extra);
            assert(sig_views(ms@[j as int].signatures@) =~= cur + es);
            assert(method_views(ms@) =~= before.update(
                j as int,
                PythonMethodInfoView { signatures: before[j as int].signatures + mv.signatures, ..before[j as int] },
            ));
            return;
        }
    }
    ms.push(m);
    assert(method_views(ms@) =~= before.push(mv));
}

fn add_class_function_to(c: &mut PythonClassInfo, f: &PyFunctionDef)
    ensures
        final(c)@ == add_class_function(old(c)@, *f),
{
    proof {
        reveal_strlit("__init__");
        reveal_strlit("property");
        reveal_strlit("overload");
        reveal_strlit("classmethod");
        reveal_strlit("staticmethod");
    }
    if str_eq(f.name.as_str(), "__init__") {
        c.constructor = Some(signature_from(f, false));
        return;
    }
    if !public_name(&f.name) {
        return;
    }
    if decorator_named(&f.decorators, "property") {
        let ty = annotation_type_or(&f.returns, FfiType::Any);
        let ghost before = property_views(c.properties@);
        let ghost tv = ty@;
        c.properties.push((f.name.clone(), ty));
        assert(property_views(c.properties@) =~= before.push((f.name@, tv)));
        return;
    }
    let sig = signature_from(f, f.is_async);
    let ghost sv = sig@;
    let m = PythonMethodInfo { name: f.name.clone(), signatures: vec![sig], is_async: f.is_async };
    assert(m@.signatures =~= seq![sv]);
    let overload = decorator_named(&f.decorators, "overload");
    if decorator_named(&f.decorators, "classmethod") {
        add_method_into(&mut c.class_methods, m, overload);
    } else if decorator_named(&f.decorators, "staticmethod") {
        add_method_into(&mut c.static_methods, m, overload);
    } else {
        add_method_into(&mut c.methods, m, overload);
    }
}

fn class_stmt_into(c: &mut PythonClassInfo, st: &PyStmt)
    ensures
        final(c)@ == class_stmt(old(c)@, *st),
    decreases st, 0int,
{
    match st {
        PyStmt::Simple(ss) => class_smalls_into(c, ss),
        PyStmt::FunctionDef(f) => add_class_function_to(c, f),
        PyStmt::If(i) => class_if_into(c, i),
        _ => {},
    }
}

fn class_stmts_into(c: &mut PythonClassInfo, ss: &Vec<PyStmt>)
    ensures
        final(c)@ == class_stmts(old(c)@, ss@, ss@.len() as int),
    decreases ss, 0int,
{
    let ghost start = old(c)@;
    let mut k: usize = 0;
    while k < ss.len()
        invariant
            k <= ss@.len(),
            c@ == class_stmts(start, ss@, k as int),
        decreases ss@.len() - k,
    {
        proof {
            assert(decreases_to!(ss => ss@[k as int]));
        }
        class_stmt_into(c, &ss[k]);
        k += 1;
    }
}

fn class_suite_into(c: &mut PythonClassInfo, s: &PySuite)
    ensures
        final(c)@ == class_suite(old(c)@, *s),
    decreases s, 0int,
{
    match s {
        PySuite::Block(ss) => class_stmts_into(c, ss),
        PySuite::Simple(ss) => class_smalls_into(c, ss),
    }
}

fn class_if_into(c: &mut PythonClassInfo, i: &PyIf)
    ensures
        final(c)@ == class_if(old(c)@, *i),
    decreases i, 0int,
{
    class_suite_into(c, &i.body);
    match &i.orelse {
        Some(b) => match &**b {
            PyOrElse::Elif(e) => class_if_into(c, e),
            PyOrElse::Else(s) => class_suite_into(c, s),
        },
        None => {},
    }
}

fn gather(ms: &Vec<PythonMethodInfo>) -> (r: Vec<PythonMethodInfo>)
    ensures
        method_views(r@) == gather_overloads(method_views(ms@), ms@.len() as int),
{
    let mut r: Vec<PythonMethodInfo> = Vec::new();
    assert(method_views(r@) =~= Seq::<PythonMethodInfoView>::empty());
    let mut k: usize = 0;
    while k < ms.len()
        invariant
            k <= ms@.len(),
            method_views(r@) == gather_overloads(method_views(ms@), k as int),
        decreases ms@.len() - k,
    {
        let ghost before = method_views(r@);
        let m = &ms[k];
        match crate::api_index::find_method(&r, &m.name) {
            Some(j) => {
                let ghost cur = sig_views(r@[j as int].signatures@);
                let mut extra = crate::api_index::duplicate_signatures(&m.signatures);
                r[j].signatures.append(&mut extra);
                assert(sig_views(r@[j as int].signatures@) =~= cur + sig_views(m.signatures@));
                assert(method_views(r@) =~= before.update(
                    j as int,
                    PythonMethodInfoView { signatures: before[j as int].signatures + m@.signatures, ..before[j as int] },
                ));
            },
            None => {
                r.push(m.duplicate());
                assert(method_views(r@) =~= before.push(m@));
            },
        }
        k += 1;
    }
    r
}

fn class_from(cdef: &PyClassDef) -> (c: PythonClassInfo)
    ensures
        c@ == class_of(*cdef),
{
    let mut body = PythonClassInfo::new(cdef.name.clone());
    class_suite_into(&mut body, &cdef.body);
    let methods = gather(&body.methods);
    let class_methods = gather(&body.class_methods);
    let static_methods = gather(&body.static_methods);
    PythonClassInfo {
        name: body.name,
        constructor: body.constructor,
        methods,
        properties: body.properties,
        class_methods,
        static_methods,
    }
}

fn add_class_to(syms: &mut Vec<PythonSymbolInfo>, c: &PyClassDef, prov: TypeSourceKind)
    ensures
        symbol_views(final(syms)@) == add_class(symbol_views(old(syms)@), *c, prov),
{
    if !public_name(&c.name) {
        return;
    }
    let ghost before = symbol_views(syms@);
    let info = class_from(c);
    syms.push(
        PythonSymbolInfo {
            name: c.name.clone(),
            kind: PythonSymbolKind::Class(info),
            doc: None,
            is_async: false,
            provenance: prov,
        },
    );
    assert(symbol_views(syms@) =~= before.push(syms@[syms@.len() - 1]@));
}

fn module_stmt_into(syms: &mut Vec<PythonSymbolInfo>, st: &PyStmt, prov: TypeSourceKind)
    ensures
        symbol_views(final(syms)@) == module_stmt(symbol_views(old(syms)@), *st, prov),
    decreases st, 0int,
{
    match st {
        PyStmt::Simple(ss) => add_smalls_to(syms, ss, prov),
        PyStmt::FunctionDef(f) => add_function_to(syms, f, prov),
        PyStmt::ClassDef(c) => add_class_to(syms, c, prov),
        PyStmt::If(i) => module_if_into(syms, i, prov),
        PyStmt::OtherCompound => {},
    }
}

fn module_stmts_into(syms: &mut Vec<PythonSymbolInfo>, ss: &Vec<PyStmt>, prov: TypeSourceKind)
    ensures
        symbol_views(final(syms)@) == module_stmts(symbol_views(old(syms)@), ss@, ss@.len() as int, prov),
    decreases ss, 0int,
{
    let ghost start = symbol_views(old(syms)@);
    let mut k: usize = 0;
    while k < ss.len()
        invariant
            k <= ss@.len(),
            symbol_views(syms@) == module_stmts(start, ss@, k as int, prov),
        decreases ss@.len() - k,
    {
        proof {
            assert(decreases_to!(ss => ss@[k as int]));
        }
        module_stmt_into(syms, &ss[k], prov);
        k += 1;
    }
}

fn module_suite_into(syms: &mut Vec<PythonSymbolInfo>, s: &PySuite, prov: TypeSourceKind)
    ensures
        symbol_views(final(syms)@) == module_suite(symbol_views(old(syms)@), *s, prov),
    decreases s, 0int,
{
    match s {
        PySuite::Block(ss) => module_stmts_into(syms, ss, prov),
        PySuite::Simple(ss) => add_smalls_to(syms, ss, prov),
    }
}

fn module_if_into(syms: &mut Vec<PythonSymbolInfo>, i: &PyIf, prov: TypeSourceKind)
    ensures
        symbol_views(final(syms)@) == module_if(symbol_views(old(syms)@), *i, prov),
    decreases i, 0int,
{
    module_suite_into(syms, &i.body, prov);
    match &i.orelse {
        Some(b) => match &**b {
            PyOrElse::Elif(e) => module_if_into(syms, e, prov),
            PyOrElse::Else(s) => module_suite_into(syms, s, prov),
        },
        None => {},
    }
}

fn string_value_of(e: &PyExpr) -> (r: Option<String>)
    ensures
        match r {
            Some(v) => string_value(*e) == Some(v@),
            None => string_value(*e) is None,
        },
{
    match e {
        PyExpr::Str(raw) => {
            let t = raw.as_str();
            let n = t.unicode_len();
            if n >= 2 {
                let first = t.get_char(0);
                let last = t.get_char(n - 1);
                if (first == '"' && last == '"') || (first == '\'' && last == '\'') {
                    return Some(String::from_str(t.substring_char(1, n - 1)));
                }
            }
            None
        },
        _ => None,
    }
}

fn element_strings_of(es: &Vec<PyElement>) -> (r: Vec<String>)
    ensures
        crate::api_index::string_views(r@) == element_strings(es@, es@.len() as int),
{
    let mut r: Vec<String> = Vec::new();
    assert(crate::api_index::string_views(r@) =~= Seq::<Seq<char>>::empty());
    let mut k: usize = 0;
    while k < es.len()
        invariant
            k <= es@.len(),
            crate::api_index::string_views(r@) == element_strings(es@, k as int),
        decreases es@.len() - k,
    {
        let ghost before = crate::api_index::string_views(r@);
        if let PyElement::Simple(e) = &es[k] {
            if let Some(v) = string_value_of(e) {
                r.push(v);
                assert(crate::api_index::string_views(r@) =~= before + seq![r@[r@.len() - 1]@]);
            } else {
                assert(before + Seq::<Seq<char>>::empty() =~= before);
            }
        } else {
            assert(before + Seq::<Seq<char>>::empty() =~= before);
        }
        k += 1;
    }
    r
}

fn string_list_of(e: &PyExpr) -> (r: Option<Vec<String>>)
    ensures
        match r {
            Some(v) => string_list(*e) == Some(crate::api_index::string_views(v@)),
            None => string_list(*e) is None,
        },
{
    match e {
        PyExpr::List(es) => Some(element_strings_of(es)),
        PyExpr::Tuple(es) => Some(element_strings_of(es)),
        _ => None,
    }
}

fn assigns_all(ts: &Vec<PyTarget>) -> (b: bool)
    ensures
        b == targets_all(ts@),
{
    proof {
        reveal_strlit("__all__");
    }
    let mut i: usize = 0;
    while i < ts.len()
        invariant
            i <= ts@.len(),
            forall|j: int| 0 <= j < i ==> !target_is_all(#[trigger] ts@[j]),
        decreases ts@.len() - i,
    {
        if let PyTarget::Name(n) = &ts[i] {
            if str_eq(n.as_str(), "__all__") {
                assert(target_is_all(ts@[i as int]));
                return true;
            }
        }
        i += 1;
    }
    false
}

/// The view of what an `__all__` search found.
pub open spec fn found_view(r: Option<Option<Vec<String>>>) -> Option<Option<Seq<Seq<char>>>> {
    match r {
        Some(Some(v)) => Some(Some(crate::api_index::string_views(v@))),
        Some(None) => Some(None),
        None => None,
    }
}

fn all_in_smalls_of(ss: &Vec<PySmall>) -> (r: Option<Option<Vec<String>>>)
    ensures
        found_view(r) == all_in_smalls(ss@, 0),
{
    let mut i: usize = 0;
    while i < ss.len()
        invariant
            i <= ss@.len(),
            all_in_smalls(ss@, 0) == all_in_smalls(ss@, i as int),
        decreases ss@.len() - i,
    {
        if let PySmall::Assign { targets, value } = &ss[i] {
            if assigns_all(targets) {
                return Some(string_list_of(value));
            }
        }
        i += 1;
    }
    None
}

fn declared_all_of(m: &PyModule) -> (r: Option<Vec<String>>)
    ensures
        match r {
            Some(v) => declared_all(*m) == Some(crate::api_index::string_views(v@)),
            None => declared_all(*m) is None,
        },
{
    let ss = &m.body;
    let mut i: usize = 0;
    while i < ss.len()
        invariant
            i <= ss@.len(),
            ss@ == m.body@,
            all_in_stmts(ss@, 0) == all_in_stmts(ss@, i as int),
        decreases ss@.len() - i,
    {
        if let PyStmt::Simple(sm) = &ss[i] {
            match all_in_smalls_of(sm) {
                Some(found) => {
                    return found;
                },
                None => {},
            }
        }
        i += 1;
    }
    None
}

fn keep_listed_of(syms: Vec<PythonSymbolInfo>, names: &Vec<String>) -> (r: Vec<PythonSymbolInfo>)
    ensures
        symbol_views(r@) == keep_listed(symbol_views(syms@), crate::api_index::string_views(names@), syms@.len() as int),
{
    let ghost sv = symbol_views(syms@);
    let ghost nv = crate::api_index::string_views(names@);
    let mut r: Vec<PythonSymbolInfo> = Vec::new();
    assert(symbol_views(r@) =~= Seq::<PythonSymbolInfoView>::empty());
    let mut k: usize = 0;
    while k < syms.len()
        invariant
            k <= syms@.len(),
            sv == symbol_views(syms@),
            nv == crate::api_index::string_views(names@),
            symbol_views(r@) == keep_listed(sv, nv, k as int),
        decreases syms@.len() - k,
    {
        let ghost before = symbol_views(r@);
        if crate::api_index::contains_string(names, &syms[k].name) {
            r.push(syms[k].duplicate());
            assert(symbol_views(r@) =~= before + seq![sv[k as int]]);
        } else {
            assert(before + Seq::<PythonSymbolInfoView>::empty() =~= before);
        }
        k += 1;
    }
    r
}

/// The API a Python source declares, read off its syntax tree `module`,
/// under the name and source of `resolved`.
pub fn read_type_source(resolved: &ResolvedTypeSource, module: &PyModule) -> (r: PythonModuleInfo)
    ensures
        r@ == (PythonModuleInfoView {
            name: resolved.module_name@,
            source: resolved@,
            symbols: stub_symbols(*module, resolved.source_kind),
            submodules: Seq::empty(),
        }),
{
    let mut syms: Vec<PythonSymbolInfo> = Vec::new();
    assert(symbol_views(syms@) =~= Seq::<PythonSymbolInfoView>::empty());
    module_stmts_into(&mut syms, &module.body, resolved.source_kind);
    let symbols = match declared_all_of(module) {
        Some(names) => keep_listed_of(syms, &names),
        None => syms,
    };
    let mut info = PythonModuleInfo::new(resolved.module_name.clone(), resolved.duplicate());
    info.symbols = symbols;
    info
}

/// The API a stub declares for `module_name`, found as `source_kind`.
pub fn read_stub(module_name: &str, module: &PyModule, source_kind: TypeSourceKind) -> (r: PythonModuleInfo)
    ensures
        r@.name == module_name@,
        r@.source.module_name == module_name@,
        r@.source.source_kind == source_kind,
        r@.source.paths.len() == 0,
        !r@.source.is_partial,
        r@.symbols == stub_symbols(*module, source_kind),
        r@.submodules.len() == 0,
{
    let resolved = ResolvedTypeSource {
        module_name: String::from_str(module_name),
        source_kind,
        paths: Vec::new(),
        is_partial: false,
    };
    read_type_source(&resolved, module)
}

} // verus!
