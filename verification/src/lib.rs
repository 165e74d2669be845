//! Front end of the Asatsuyu language: syntax kinds, keywords, spans and
//! diagnostics, the lexer, the lossless parser and the formatter.

pub mod keyword;
pub mod syntax_kind;
pub mod text;
pub mod span;
pub mod diagnostic;
pub mod lexer;
pub mod tree;
pub mod parser;
pub mod grammar;
pub mod parse;
pub mod format_spec;
pub mod format;
pub mod format_laws;
pub mod ffi_source;
pub mod ffi_model;
pub mod admissibility;
pub mod builtins;
pub mod api_index;
pub mod stub_parser;
pub mod index_cache;
pub mod exception_kind;
pub mod hir;
pub mod ast;
pub mod purity;
pub mod scope;
pub mod lower;
