# tbx — a verified Tiny BASIC interpreter

TBX combines the statement syntax of Tiny BASIC with Forth-style
extensibility: programs define new words with `DEF` .. `END`, words can be
made `IMMEDIATE` and then run at compile time, and the structured control
words (`IF`, `WHILE`, `SELECT`, `LET`) are themselves immediate words built
on a small set of compile-stack primitives.

The library is written in Verus. Every function in `src/` is verified, but
for a few small trusted wrappers around `std` and `rand` whose contracts
state what those calls do: arithmetic is free of overflow and no call
panics. The contracts state what each primitive, each compile-time word,
one step and a whole run of the inner interpreter, and one statement of
the outer interpreter do; for a line, a source text or a whole program
they state the error and state cases listed there, not the combined
effect of all the statements.

## Layout

- `src/text.rs` — decimal and hexadecimal rendering, integer parsing,
  case mapping and trimming, with their specifications.
- `src/lexer.rs`, `src/reader.rs` — tokens and logical statements.
- `src/cell.rs`, `src/dict.rs`, `src/vm.rs` — values, word headers and the
  virtual machine state, with its well-formedness invariant.
- `src/expr.rs` — infix expressions to reverse Polish code.
- `src/exec.rs` — the inner interpreter.
- `src/words.rs` — the table of system words.
- `src/primitives/` — the native words (stacks, arithmetic, text I/O,
  compile-time words, control structures, arrays).
- `src/interpreter.rs` — the outer interpreter: lines, sources, programs,
  `USE`.
- `src/random.rs` — the random number generator (from `rand`).
- `app/main.rs` — the command-line program: runs a file or reads lines from
  standard input, and reads the files that `USE` asks for.
- `tests/` — the test suite.

The library does no I/O: output is collected in the VM and taken with
`take_output`, input is handed over with `set_input`, and the text of files
loaded with `USE` is handed over with `add_source_file`.
