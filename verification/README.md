# DreamBerd "noodles" interpreter

An interpreter for the DreamBerd programming language, with its core written in
Verus and proved against its specifications.

## Layout

- `src/` – the verified library
  - `interpreter/parsers` – source positions, whitespace and comments, identifiers,
    life times, integers and the end of a statement; the lines of a program and where
    it goes on after `reverse!`
  - `interpreter/static_analysis` – finds the declarations whose life time hoists them
  - `interpreter/evaluators` – statements: operators and the building of expression
    trees (whitespace decides which operation applies first), declarations and
    assignments, functions, block bodies and scopes, `reverse!`, `if` and `when`
    statements and what a watcher reacts to
  - `interpreter/runtime` – errors, literal values, symbols, array keys and the text of
    objects, which comparison `==` and the ordering operators make for two kinds of
    value, the decisions of the standard library, and the variable scopes of a running
    program, generic over the kind of value
  - `interpreter/ast` – strings decided at runtime
  - `cli.rs`, `prelude.rs` – command line arguments, a new-type wrapper
- `app/` – the `dreamberd` program: command line, prompt, runtime values (floating
  point numbers), evaluation and the standard library, built on the library
- `tests/` – tests of the library
