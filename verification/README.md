# rylang

A small statement-oriented scripting language with CSV helpers, written in
Verus. Programs are sequences of statements ended by `;`: `let` declarations,
assignments whose right-hand side is an operand, `a op b`, or a fully
parenthesised expression such as `(H * T1) + ((1.0 - H) * (T1 + T2))`,
`print`, `read`/`write` calls, `label`/`branch` jumps (`label name:` may
stand before the statement it labels) and `if (condition) branch label`.

## Layout

- `src/` — the verified library.
  - `text`, `numbers`, `utf8_text`, `binary64`: characters, trimming,
    integer text, the syntax `f64` parsing accepts, UTF-8 decoding, and the
    binary64 bits of integers, all computed with integers.
  - `environment`: types, variables stored as typed byte payloads, and how
    they read back and print.
  - `syntax`, `pattern`, `parser`: bracket/quote balance, argument lists,
    the regular expressions (matched by the `regex` crate) and statement
    splitting.
  - `csv`, `operations`: tables, column type inference, the printed table,
    and adding to a numeric column.
  - `compiler`, `interpreter`: the two front ends. The interpreter runs one
    statement per call of `Interpreter::go`; what needs floating point
    (parsing a float, arithmetic on floats, printing one) is asked of the
    caller as a `FloatRequest` and answered with a `FloatAnswer`, and
    reading files and printing are asked for the same way.
- `app/` — the program around it: reads the source file and the CSV files,
  does the floating point, prints.
- `tests/` — tests of the library.
