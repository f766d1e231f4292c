# yutu

A linter for Lua source code, written in Verus. The lexer, the semantic checks,
the control-flow graphs and the configuration carry `requires` / `ensures`
contracts that Verus proves. The lexer's lints, the control-flow lints and the
configuration are stated exactly; for the semantic checks the contracts state
each expression's own reports, the parameter, statement and `break` reports of
a block, and that a block ends with the reports of its closing scope, a scope
that declares the block's parameters and locals, while which uses each
variable records is left to the code.

## Layout

- `src/` — the verified library.
  - `lexer.rs`: tokens, the tokenizer, and the checks on string literals,
    whitespace and invisible characters.
  - `parser.rs`: the concrete syntax tree (`Cst`) and its spans.
  - `ast.rs`: typed views of the tree's nodes.
  - `scopes.rs`: lexical scopes and name bindings.
  - `sema.rs`: the semantic checks (`Checks`), numerals, labels, complexity.
  - `cfg.rs`: control-flow graphs of function bodies and reachability.
  - `lints.rs`: the catalogue of lints, their levels and documentation.
  - `config.rs`: `yutu.toml` settings and their validation.
  - `errors.rs`, `report.rs`: diagnostics and their rendering data.
- `tests/` — tests of the library on concrete inputs.
- `app/` — the command-line program: arguments, file reading, threads,
  float parsing of numerals and terminal output. It has no Lua parser, so it
  reports only the lints of the token stream; the checks on a syntax tree are
  in the library for a caller that builds the tree.

Run Verus on `src/lib.rs` to check the proofs.
