# toast

The front end and interpreters of ToastScript, a PostScript-inspired,
stack-based language, written in Verus with its behaviour stated in contracts
and proved.

## Layout

- `src/chars.rs`, `src/stream.rs`, `src/text.rs`: characters and their Unicode
  properties, a character stream with one character of look-ahead, and the
  decimal and quoted text that the debugging output writes.
- `src/definitions.rs`: the table of definitions that both interpreters keep.
- `src/repl/`: the interactive language: tokens, the tokenizer (brackets,
  numbers in several radixes with fractions, negative numbers, identifiers,
  strings), the adapters it reads through, expressions and the interpreter.
- `src/compiler/`: the compiler's language: integer readers for every integer
  type, tokens with their source locations, the token scanner, the richer and
  the reduced token sets, expressions, the interpreter (which resolves chains
  of definitions), the prompt state of an interactive session, and the
  command-line arguments as values.
- `tests/`: the test suites.
- `app/`: the command-line program (argument parsing with clap), the prompter
  that reads lines from a terminal, and the conversion of numbers to `f64`.

The interpreters' semantics are given as spec functions over an abstract
machine (`Machine`: stack, definitions, printed values); the executable
interpreters are proved to follow them, and laws such as "a definition
followed by its name pushes the value" are proved over them.
