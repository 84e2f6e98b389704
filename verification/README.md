# neap

Neap is a small ML-style language for the shell: it lexes, parses, type checks
(Hindley–Milner with type classes), lowers to an ANF intermediate form, optimises,
and either interprets the program or compiles it to zsh.

## Layout

- `src/` — the verified library (Verus):
  - `syntax/` lexer and parser; `Lexer::tokenize` is specified by `lex_from`, and
    the expression parser by the precedence reading `spec_operand`.
  - `types/` types, substitutions, unification, the environment and the checker.
  - `ir/` the intermediate form, lowering and the optimiser.
  - `codegen/` the zsh code generator; `program_code` gives the script for programs
    whose expressions need no temporaries.
  - `vm/` runtime errors and the primitive operations on integers, characters,
    booleans and strings, including string length, substrings, character access and
    string ordering (`vm::primitive`).
  - `repl/` REPL commands, responses and the REPL session state machine.
- `app/` — the command-line program, the REPL loop and the interpreter: its
  evaluator, runtime values (which hold floating-point numbers), environments and
  pattern matching, list primitives, float arithmetic, input and output and shell
  commands. It hands every other primitive operation to `vm::primitive`.
- `tests/` — tests of the library.

## Design notes

- **Fresh type variables.** Instead of a process-wide counter, every function that
  makes fresh type variables takes a `TypeVarSupply` (the checker holds one). A
  checker built over an existing environment (`TypeChecker::with_env`) starts its
  supply above every variable that the environment's bindings mention, so
  instantiating their schemes never meets a quantified variable.
- **Floats as text.** The library holds no floating-point numbers: a float literal
  is kept as the text it was written with, in tokens, the syntax tree and the
  intermediate form, and the code generator writes that text. Float arithmetic and
  conversions to and from floats happen in `app/`; the optimiser does not fold float
  constants.
- **Name tables.** Maps keyed by names are `NameTable`s: a vector of entries with
  distinct names, viewed as a `Map`. Substitutions are vectors of entries with
  distinct variables, and sets of variables are vectors without repeats; each is
  viewed as the mathematical map or set it stands for.
