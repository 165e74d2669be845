use asatsuyu::exception_kind::{classify_exception, ExceptionBases, ExceptionCategory};

fn none() -> ExceptionBases {
    ExceptionBases {
        os_error: false,
        value_error: false,
        type_error: false,
        key_error: false,
        attribute_error: false,
        import_error: false,
        arithmetic_error: false,
        runtime_error: false,
    }
}

#[test]
fn category_strings_match_prelude() {
    assert_eq!(ExceptionCategory::IoError.name(), "IoError");
    assert_eq!(ExceptionCategory::ValueError.name(), "ValueError");
    assert_eq!(ExceptionCategory::TypeError.name(), "TypeError");
    assert_eq!(ExceptionCategory::KeyError.name(), "KeyError");
    assert_eq!(ExceptionCategory::AttributeError.name(), "AttributeError");
    assert_eq!(ExceptionCategory::ImportError.name(), "ImportError");
    assert_eq!(ExceptionCategory::ArithmeticError.name(), "ArithmeticError");
    assert_eq!(ExceptionCategory::RuntimeError.name(), "RuntimeError");
    assert_eq!(ExceptionCategory::Other.name(), "Other");
}

#[test]
fn an_exception_with_no_listed_base_is_other() {
    assert_eq!(classify_exception(none()), ExceptionCategory::Other);
}

#[test]
fn the_first_listed_base_decides() {
    // UnicodeDecodeError is a ValueError; ModuleNotFoundError an ImportError.
    assert_eq!(classify_exception(ExceptionBases { value_error: true, ..none() }), ExceptionCategory::ValueError);
    assert_eq!(classify_exception(ExceptionBases { import_error: true, ..none() }), ExceptionCategory::ImportError);
    // An exception that is both an OSError and a ValueError counts as IoError.
    assert_eq!(
        classify_exception(ExceptionBases { os_error: true, value_error: true, ..none() }),
        ExceptionCategory::IoError
    );
    assert_eq!(
        classify_exception(ExceptionBases { arithmetic_error: true, runtime_error: true, ..none() }),
        ExceptionCategory::ArithmeticError
    );
    assert_eq!(classify_exception(ExceptionBases { runtime_error: true, ..none() }), ExceptionCategory::RuntimeError);
}
