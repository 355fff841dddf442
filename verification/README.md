# tem_core

The core of `tem`, a small toy language: a character-level tokenizer, an
evaluator with variables, functions, `if`/`else`, `repet` and `prnt`, the
calculators it relies on, and a few helpers. Every function of the library is
written in Verus and proved against a contract.

Layout:

- `src/` — the verified library.
  - `token.rs`, `value.rs`, `env.rs`, `class.rs`: tokens and their models,
    equality, substitution, the variable map and the classes of values.
  - `tokenizer.rs`, `basic.rs`: the tokenizer of the language and a plain
    tokenizer for numbers, words and operators.
  - `semantics.rs`: the meaning of evaluation as spec functions;
    `unfold.rs` unfolds them one step; `interp.rs` and `calc.rs` hold the
    evaluator and calculators that are proved to follow them.
  - `properties.rs`, `fuel.rs`: laws of the library (output is only appended to,
    variables are never unbound, a `repet` body runs as often as its count
    says, a bound key is found again, splitting at commas is undone by
    joining, number text parses back, more fuel never changes a finished
    run, and more).
  - `float.rs`: floating point values are held as bit patterns; every
    operation on them is asked of a *float kernel*, a closure that the caller
    supplies and that must answer equal questions equally.
- `tests/` — tests that run the library with an `f64` kernel.
- `app/` — the command-line program: it reads `test/main.tem`, runs it and
  prints what it prints, or the error line.

Evaluation takes a `fuel` argument: each evaluation nested inside another
uses one unit, and a run that nests deeper than its fuel stops with
`Exhausted` instead of overflowing the stack. Where the language formats a
value with `{}` (an assignment's name, what `prnt` prints, a class), the
formatting never returns, and such a run stops with `Stuck`.
