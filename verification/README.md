# psc

A compiler for PSeInt, the Spanish teaching pseudocode, whose front end,
tree optimiser and lowering to machine instructions are verified with Verus.

## Layout

- `src/` — the verified library.
  - `lexer.rs` — tokens by longest match (keywords without regard to case).
  - `parser.rs` — the grammar as a parsing expression grammar over tokens.
  - `ast.rs` — the syntax tree and its mathematical model.
  - `symbols.rs`, `sema.rs` — the symbol table and the semantic checks,
    with the exact error messages.
  - `optimizer.rs` — constant folding, strength reduction, dead code
    elimination and constant propagation. Operations on real numbers are
    answered by the caller through a table of results.
  - `codegen.rs` — the facts the code generator needs: array parameters,
    constant array sizes, native function signatures.
  - `lower.rs` — the lowering of expressions, statements and functions to
    a list of machine instructions in static single assignment form, and
    the proof that the row-major position of an array element lies inside
    the array.
  - `values.rs` — the value of integer and logical expressions, and the
    proof that folding and strength reduction keep it.
  - `runtime.rs` — the decisions of the runtime library (random numbers,
    text functions, clock codes).
  - `lib.rs` — the pipeline `front_end` / `compile`.
- `app/` — the command line program: reading files, error reports,
  floating-point answers for the optimiser, one Cranelift builder call per
  instruction of the library's lowering (JIT or object file and linking),
  and the runtime routines that compiled programs call.
- `tests/` — tests of the library.
