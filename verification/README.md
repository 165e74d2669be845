# asatsuyu

The front end of the Asatsuyu language — lexer, lossless parser, formatter,
HIR, purity analysis — and its Python FFI model, written in Verus. The
functions of the library carry contracts that Verus proves; how far each
contract goes is in its doc comment. The parser's contract fixes a lossless,
grammar-shaped tree whose operator expressions are nested by binding power,
and exactly when it reports an error: when the lexer meets an invalid
character or the tokens are not a program of the grammar, written out as a
recognizer (`grammatical`). The formatter's result is tied to that rule; which
tree a grammatical source gets, and so the formatted text itself, is stated
relative to the parse it is handed (`format_parsed`).

## Layout

- `src/` — the verified library.
  - `keyword`, `syntax_kind`, `span`, `text`, `diagnostic` — the shared
    vocabulary: keywords, syntax kinds, spans and line/column lookup,
    diagnostics and their codes.
  - `lexer` — source text to tokens; the token texts always spell the
    source back.
  - `tree`, `parser`, `grammar`, `parse` — the recursive-descent parser and
    the arena syntax tree it builds; the tree is lossless.
  - `format_spec`, `format`, `format_laws` — the canonical layout as
    functions on trees, the formatter that computes it, and what the layout
    keeps.
  - `ast`, `hir`, `scope`, `lower`, `purity` — the abstract syntax tree,
    the resolved program, lexical scopes, name resolution from the one to
    the other, and the purity analysis with its `pure` check.
  - `ffi_model`, `admissibility`, `builtins` — the FFI model, the trust
    check, and the hand-written module tables.
  - `ffi_source`, `api_index`, `stub_parser`, `index_cache` — where a
    Python module's types come from, the rich API index, reading stubs off
    their syntax trees, and the cache of parsed modules.
  - `exception_kind` — the exception categories of the Python runtime.
- `app/` — what touches the outside world: the rowan view of syntax trees,
  file system facts for the PEP 561 lookup (the order itself is in
  `ffi_source`), parsing Python with libcst, the resolver
  chain, and the `_asatsuyu_runtime` extension module (pyo3).
- `tests/` — tests of the library.
