# ogre

An all-in-one brainfuck toolkit with its logic verified by Verus: an
interpreter, a preprocessor for the brainfunct macros (`@fn`, `@call`,
`@import`, `@const`, `@use`, `@doc`) with a small standard library, a formatter,
static analysis and linting, code generators (C, WebAssembly text, LLVM IR),
dialect conversion, a test runner, a profiler, an interactive REPL and a
debugger.

## Layout

- `src/` is the library. Every function in it is verified: its contract states
  what it returns or how it changes its arguments, in terms of spec functions
  over `Seq`, `Map` and integers. The REPL and the debugger are written as
  functions from a state and an input line to a new state and a reply, so that
  their decisions are verified too.
- `src/` also holds laws: public proof functions that relate several calls,
  such as that formatting keeps a program's commands and is idempotent, that a
  program converted to a dialect and back gives its commands, that the code
  generated to print a text prints it, and that a debugger breakpoint set and
  then deleted leaves the debugger as it was.
- `tests/` runs the library on concrete values.
- `app/` is the command-line program around the library: argument handling,
  files, the terminal, the line editor and file watching.

## Trusted calls

The few calls into std and outside crates (`similar` for diffs, `regex` for
expected-output patterns, `colored` for terminal colours, and some std text and
path functions) sit behind small wrappers whose contracts are stated in their
doc comments and taken on trust.
