# lib — a verified front and middle end for a small Lua-like language

The library in `src/` is written in Verus, and Verus proves each function
against its contract. Most contracts tie the result to a spec function that
says what the stage computes; where a contract says less, its doc comment
says what is left open.

- `source`, `text`, `diagnostics`: source files, line/column lookup, text
  helpers and rendered diagnostics.
- `lexer`, `parser`, `ast`: tokens and the syntax tree. Each lexing step,
  and the grammar of expressions, statements, types and whole programs
  (with the diagnostics that error recovery adds), is written as spec
  functions over the token sequence, and the lexer and parser are proved
  to compute exactly those.
- `hir`: lowering of the syntax tree to a typed high-level representation,
  its validator, printer and optimizer (constant propagation, boolean and
  string folding, dead and unreachable code removal).
- `mir`: the mid-level representation, its builder from the HIR, control
  flow graphs with dominators, validation, optimization, printing and the
  preparation for static single assignment form.
- `pipeline`: the stages chained for the `check`, `build` and `run`
  commands — a source file lexed and parsed into a checked tree (refused
  with the parser's first error), and a tree lowered through HIR and MIR to
  LLVM IR, each failed lowering reported with its error as a note.
- `runtime`: the native build — the IR retargeted to the toolchain's
  triple, and, between the toolchain steps the driver runs, which stage is
  recorded with which status and message and whether the build goes on.
- `llvm`, `optimization`, `context`, `cli`: IR text generation, compiler
  options and command-line parsing.

`tests/` exercises the library from outside; `app/` is the command-line
driver: it reads files, runs the toolchain commands of a native build, and
prints results around the library.
