# rrrrr_rs

The front end of a small Scheme compiler, written in Verus: each function
carries a contract that Verus proves.

Layout (`src/compile/`):

- `span.rs`, `source_loc.rs`, `src_loc.rs`, `compilation_error.rs`: source
  positions, errors, and the error report shown against the source text.
- `read/`: the lexer (`lex.rs`, `token.rs`) and the reader (`parse.rs`), from
  text to tokens to data.
- `sexpr.rs`, `util.rs`, `syntax.rs`: s-expressions, list helpers, scopes on
  identifiers.
- `ident.rs`, `bindings.rs`, `gensym.rs`, `expand.rs`: identifiers, binding
  resolution by scope sets, fresh names, the expansion context.
- `pass/expand/transformer.rs`: `syntax-rules` transformers: pattern checks,
  matching with ellipses and literals, template rendering.
- `alpha_reduce.rs`: identifiers resolved to their bindings.
- `core_expr.rs`, `pass/lower.rs`: the core language and the lowering of
  expanded forms into it.
- `anf.rs`, `anf_print.rs`, `pass/a_normalization.rs`, `census.rs`,
  `pass/census_collection.rs`: A-normal form, its printer, the conversion into
  it, and the use counts of variables.
- `pass/beta_reduction.rs`, `pass/beta_contraction.rs`, `pass/dce.rs`: inlining
  of procedures used once, and dead code elimination.
- `symbol_map.rs`, `pass/aliasing.rs`, `pass/copy_propagation.rs`,
  `pass/eta_reduction.rs`, `pass/const_propagation.rs`: maps keyed by symbols,
  and the passes that redirect references to copies, to eta-reducible
  procedures and to constants.

`app/main.rs` is an interactive reader built on the library; `tests/` holds the
tests.

Not in the library: macro expansion (the expander that turns `define`,
`define-syntax`, `let-syntax`, quasiquote and bodies with definitions into
core forms), the alpha conversion that follows it, and the session that runs
the whole pipeline. The passes from `alpha_reduce.rs` on take forms that are
already expanded. Numbers are kept as the text they were written with, so
`1` and `1.0` are different literals.
