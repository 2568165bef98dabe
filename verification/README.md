# bsol

BSOL (Beskid Structured Object Language) is a block-based configuration language. This crate
parses BSOL documents, loads schema profiles, composes them (`extends`, `mixes`, imports,
profile extensions), validates documents against them, resolves cross-block references and
migrates documents between profile versions. The functions in `src/` are verified with Verus
against a mathematical model of their input and output; the one exception is `debug_str` in
`src/sources.rs`, which formats a string with std's `Debug` and whose contract is trusted.

## Layout

- `src/scanner.rs`, `src/grammar.rs`, `src/parser.rs`, `src/ast.rs`: the byte-level grammar as
  spec functions and the parser proved equal to it.
- `src/schema.rs`, `src/schema_view.rs`: profile types and their models.
- `src/loader.rs`, `src/decode.rs`, `src/profile_spec.rs`, `src/value_type.rs`: loading profile
  documents.
- `src/compose.rs`: rule inheritance and profile merging, with their laws.
- `src/coerce.rs`, `src/validate_field.rs`, `src/validate_spec.rs`, `src/validate.rs`,
  `src/validated.rs`: validation.
- `src/resolver.rs`, `src/sources.rs`: import resolution and schema sources.
- `src/semantic.rs`, `src/migrate.rs`, `src/session.rs`, `src/observer.rs`,
  `src/diagnostics.rs`: reference checks, migrations, the analysis pipeline and editor
  diagnostics.
- `src/embedded.rs`: the built-in profiles.
- `app/`: file-system sources, the analysis session with its closure registry, and the language
  server.
