//! The exception categories of the Python runtime boundary: a Python
//! exception is filed under the first category whose base class it is an
//! instance of, in a fixed order, so that the runtime module and generated
//! Python code agree on every exception.
use vstd::prelude::*;

verus! {

/// The base classes an exception is an instance of, among those the
/// categories are defined by.
#[derive(Debug, Clone, Copy, PartialEq, Eq, Structural)]
pub struct ExceptionBases {
    /// `OSError`
    pub os_error: bool,
    /// `ValueError`
    pub value_error: bool,
    /// `TypeError`
    pub type_error: bool,
    /// `KeyError`
    pub key_error: bool,
    /// `AttributeError`
    pub attribute_error: bool,
    /// `ImportError`
    pub import_error: bool,
    /// `ArithmeticError`
    pub arithmetic_error: bool,
    /// `RuntimeError`
    pub runtime_error: bool,
}

/// The exception categories.
#[derive(Debug, Clone, Copy, PartialEq, Eq, Structural)]
pub enum ExceptionCategory {
    IoError,
    ValueError,
    TypeError,
    KeyError,
    AttributeError,
    ImportError,
    ArithmeticError,
    RuntimeError,
    Other,
}

/// The category of an exception with bases `b`: the first that applies,
/// in the order the fields of `ExceptionBases` are listed; `Other` when
/// none does.
pub open spec fn category_of(b: ExceptionBases) -> ExceptionCategory {
    if b.os_error {
        ExceptionCategory::IoError
    } else if b.value_error {
        ExceptionCategory::ValueError
    } else if b.type_error {
        ExceptionCategory::TypeError
    } else if b.key_error {
        ExceptionCategory::KeyError
    } else if b.attribute_error {
        ExceptionCategory::AttributeError
    } else if b.import_error {
        ExceptionCategory::ImportError
    } else if b.arithmetic_error {
        ExceptionCategory::ArithmeticError
    } else if b.runtime_error {
        ExceptionCategory::RuntimeError
    } else {
        ExceptionCategory::Other
    }
}

/// Files an exception under its category.
pub fn classify_exception(bases: ExceptionBases) -> (c: ExceptionCategory)
    ensures
        c == category_of(bases),
{
    if bases.os_error {
        ExceptionCategory::IoError
    } else if bases.value_error {
        ExceptionCategory::ValueError
    } else if bases.type_error {
        ExceptionCategory::TypeError
    } else if bases.key_error {
        ExceptionCategory::KeyError
    } else if bases.attribute_error {
        ExceptionCategory::AttributeError
    } else if bases.import_error {
        ExceptionCategory::ImportError
    } else if bases.arithmetic_error {
        ExceptionCategory::ArithmeticError
    } else if bases.runtime_error {
        ExceptionCategory::RuntimeError
    } else {
        ExceptionCategory::Other
    }
}

/// The name of a category, as the generated Python code spells it.
pub open spec fn category_name(c: ExceptionCategory) -> Seq<char> {
    match c {
        ExceptionCategory::IoError => "IoError"@,
        ExceptionCategory::ValueError => "ValueError"@,
        ExceptionCategory::TypeError => "TypeError"@,
        ExceptionCategory::KeyError => "KeyError"@,
        ExceptionCategory::AttributeError => "AttributeError"@,
        ExceptionCategory::ImportError => "ImportError"@,
        ExceptionCategory::ArithmeticError => "ArithmeticError"@,
        ExceptionCategory::RuntimeError => "RuntimeError"@,
        ExceptionCategory::Other => "Other"@,
    }
}

impl ExceptionCategory {
    /// The category's name.
    pub fn name(self) -> (s: &'static str)
        ensures
            s@ == category_name(self),
    {
        match self {
            ExceptionCategory::IoError => "IoError",
            ExceptionCategory::ValueError => "ValueError",
            ExceptionCategory::TypeError => "TypeError",
            ExceptionCategory::KeyError => "KeyError",
            ExceptionCategory::AttributeError => "AttributeError",
            ExceptionCategory::ImportError => "ImportError",
            ExceptionCategory::ArithmeticError => "ArithmeticError",
            ExceptionCategory::RuntimeError => "RuntimeError",
            ExceptionCategory::Other => "Other",
        }
    }
}

/// Distinct categories have distinct names, so a name identifies its
/// category.
pub proof fn lemma_category_names_distinct(a: ExceptionCategory, b: ExceptionCategory)
    requires
        a != b,
    ensures
        category_name(a) != category_name(b),
{
    reveal_strlit("IoError");
    reveal_strlit("ValueError");
    reveal_strlit("TypeError");
    reveal_strlit("KeyError");
    reveal_strlit("AttributeError");
    reveal_strlit("ImportError");
    reveal_strlit("ArithmeticError");
    reveal_strlit("RuntimeError");
    reveal_strlit("Other");
    let x = category_name(a);
    let y = category_name(b);
    if x.len() == y.len() {
        assert(x[0] != y[0] || x[1] != y[1]);
    }
}

} // verus!
