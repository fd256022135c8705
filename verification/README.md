# kangc

The front end of the Kang compiler, its runtime's value conversions and
allocator bookkeeping, and a stand-alone grammar checker, written in Verus
with their behaviour stated as contracts and proved.

## Layout

- `src/` — the verified library
  - `lexer.rs`, `parser.rs`, `ast.rs`: source text to tokens to syntax tree;
    the token language and the grammar are spec functions, and the lexer and
    parser are proved to compute them exactly.
  - `semantic/`: scopes, types, the checker and the control-flow analysis,
    with the laws they keep (a declared name is found, leaving a loop scope
    hides its variable, checking only ever adds errors, ...), and the two
    texts of a typed program: its S-expression and its debug dump.
  - `lib.rs`: the pipeline that stops at a chosen stage, and the target
    triple helpers.
  - `imports.rs`: the files a multi-file build compiles, breadth first and
    each once.
  - `host.rs`: the directories a built program is never run from and the
    ones a linker is trusted in.
  - `repl.rs`: the REPL session as a state machine from line to action.
  - `lowering.rs`: what code generation decides from types alone: the
    runtime name of an overloaded conversion, and storage sizes and
    alignments.
  - `ir.rs`: the block structure code generation emits for a function's
    body, `return`, `if`, `for`, string comparison, checked integer division, the
    logical operators and the index check, as plain data, with a semantics
    of blocks and laws on what each fragment does when it runs (a check
    stops the program exactly when its condition fails, division gives the
    quotient rounded toward zero, string comparison is byte-wise equality,
    a loop turn is test, body, step).
  - `runtime.rs`, `arena.rs`: the runtime library's conversions between
    values and text, and the bump allocator's decisions with memory seen as
    addresses.
  - `validator/`: a recogniser of the grammar that reports the first error
    of each file.
  - `text.rs`, `stats.rs`, `error.rs`: shared helpers, statistics, errors.
- `tests/` — the tests, run against the compiled library.
- `app/` — the command line, file and process I/O, diagnostics rendering,
  JSON statistics, and LLVM code generation through `inkwell`, which lowers
  the fragments of `ir.rs` block by block.
