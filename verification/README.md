# ocelot

A small scripting language toolchain — lexer, parser, resolver with effect
inference, tree-walking interpreter, formatter and test runner — written in Verus,
with every function of the library verified against its contract.

Layout:

- `src/lexer`, `src/parser`: tokens and the recursive-descent parser, each specified by
  a grammar of spec functions over token sequences.
- `src/resolver`: declaration indexing, module validation, name resolution, effect
  inference (a least fixed point) and the whole-program pipeline.
- `src/interpreter.rs`: evaluation, specified by a fuel-indexed semantics.
- `src/formatter.rs`: the formatter, specified as a function from syntax trees to text.
- `src/engine.rs`, `src/engine_worker.rs`: loading the files of a program, running a
  script, a module's `main`, one test or every test.
- `app/`: the file-system side (walking directories, reading files, printing output).
- `tests/`: tests of the library.
