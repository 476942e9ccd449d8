# bias

A lexer, a parser and an interpreter for the small `bias` language, with
their behaviour stated as Verus contracts and proved.

- `src/lexer.rs`: text to tokens (`tokenize`), and the predicates that
  classify a piece of text (literals, identifiers, numbers).
- `src/numeric.rs`: the grammars of Rust's integer and float literals.
- `src/parser.rs`: tokens to a syntax tree (`parse`), a Pratt parser for
  expressions.
- `src/semantics.rs`: what running a syntax tree does, as spec functions,
  and the properties proved of it.
- `src/interpreter.rs`: the interpreter, proved to follow `semantics.rs`.
- `src/table.rs`: the name-to-value table that holds variables and
  functions.
- `src/text.rs`, `src/error.rs`: characters and strings; the errors.
- `app/main.rs`: the command line program: reads a file, prints its tokens
  and its syntax tree.

Floating-point arithmetic is left to the caller of the interpreter: a run
takes the answers to the float operations it needs, in order, and stops with
a `FloatRequest` for the next one when they run out. The caller computes it,
adds the answer and runs again from a fresh interpreter.
