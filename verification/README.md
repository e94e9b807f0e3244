# mdt

A Turing machine simulator written in Verus.

A program is a list of rules `(state, read, next state, write, direction)`.
Fields may hold lists — `[...]` and `{...}`, with `a..z` ranges and `^`
complements — so that one rule stands for a family of rules; `-` is the blank
and `\` escapes a character. The source is upper-cased before it is read.

- `src/syntax.rs` — the grammar, as functions on characters, and its parser.
- `src/expand.rs` — ranges and complements of symbol lists.
- `src/parser.rs` — from parsed rules to families of transition rules.
- `src/table.rs` — the rule table keyed by read symbol and state.
- `src/machine.rs` — the machine: tape, head, state, step and run.
- `src/rule.rs` — rules and directions, and how they are shown.
- `src/text.rs`, `src/pattern.rs` — standard-library and `regex` calls, with
  the contracts the rest is proved against.
- `src/laws.rs` — properties of the rule table, the machine and symbol lists.
- `app/main.rs` — runs a sample program and prints the result.
