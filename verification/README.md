# lumi

A small functional language compiled to C, with memory managed by Perceus
reference counting and allocation reuse, written in Verus: every function of
the library carries a contract that Verus proves.

Pipeline: source `Expr` (`ast`) → `perceus::transform` inserts Dup, Drop and
reuse tokens (`rc`) → `simplify::simplify` removes redundant RC operations →
`codegen` writes a C compilation unit.  `parser` reads the text syntax.

## Layout

- `src/ast` — source expressions, builders, and their text renderings.
- `src/liveness.rs`, `src/names.rs` — free variables and use counts over
  ordered name sets.
- `src/perceus.rs` — RC insertion; `src/ownership.rs` proves that it only
  duplicates and drops owned references, and that every bound variable is
  released exactly once on every path through its scope, for every input.  A
  match arm whose pattern rebinds a variable that another arm uses gets a
  renamed binding, bound back to its name after the arm drops the outer
  variable; a compound scrutinee is bound to a name the arms do not use.
- `src/rc` — the RC-annotated expressions and their renderings;
  `src/rc_ast.rs` is the earlier RC form without captures.
- `src/simplify.rs` — the rewrite to a fixpoint, with its laws (fixpoint,
  no growth, only RC operations change).  A Dup/Drop pair cancels before
  the inner node is rewritten; a Dup whose body uses the variable at most once
  is removed.
- `src/codegen` — the C generator, modelled in `codegen/model.rs`.
- `src/parser` — lexer and recursive-descent parser.
- `app/` — writing programs to disk and calling the C compiler.

The C runtime header is not part of this repository; `app/` takes its path
after `--build` and copies it next to the program it writes.
