# Wirthian

An interpreter for Wirthian, a small imperative language in the style of
Niklaus Wirth's languages: `integer`, `string` and `boolean` variables,
assignments, `if`/`elif`/`else`, counted `for` loops with `break` and
`continue`, `print`, and line-based input with `readint`, `readstr` and
`readbool`.

The library is written in Verus and proved against its contracts.

## Layout

- `src/text.rs` — characters and text: whitespace, trimming, decimal
  numbers, the escapes of string literals.
- `src/lexer.rs` — the tokens, and the lexer (longest match first, byte
  ranges in the source).
- `src/syntax.rs` — the grammar, as relations between token runs and trees.
- `src/parsing.rs` — the parser's rules as spec functions: the tree, or the
  error, that each rule yields at a token.
- `src/grammar.rs` — the recursive-descent parser, proved to compute exactly
  what those rules yield, and to build only trees that the grammar derives.
- `src/completeness.rs` — the parser finds every tree that the grammar
  derives: it fails only on token runs that derive no program.
- `src/checker.rs` — the semantic checker: declarations, types, `break` and
  `continue` outside loops, every error with its labelled spans.
- `src/semantics.rs` — what programs mean, as spec functions.
- `src/interp.rs` — the interpreter, proved to compute exactly that meaning.
- `src/soundness.rs` — what the checker guarantees: an accepted program
  names only declared variables and never stops on a type mismatch.
- `src/acceptance.rs` — the checker's rules as laws, and what it accepts:
  exactly the programs with distinct declarations and well-typed
  instructions.
- `src/reading.rs` — what a run reads: a run that finds a line at every
  read ends the same on any longer input, so a program can run on the input
  seen so far and run again when it asks for more.
- `src/highlighter.rs` — syntax highlighting of source lines.
- `src/session.rs` — parse, check and run a source text.
- `app/` — the command-line runner and the miette glue for error reports.
- `tests/` — tests of the whole library.
