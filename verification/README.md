# rkg

A record/grid text processor driven by a small DSL (`r.p:1,3`, `g.t.rt:r`,
`r.g:1,s:2 | g.t`), written in Verus: the parser, the record and grid
operations and the statement/pipeline engine are proved against
specifications over sequences of characters.

## Layout

- `src/text.rs`, `src/num.rs`, `src/table.rs`: characters, numbers, lines and
  rows, with their specifications.
- `src/lexer.rs`, `src/parser.rs`: top-level scanning and the DSL parser;
  `parse_program` returns exactly the programs the grammar relations
  (`program_from`, `statement_from`, `call_from`, ...) describe.
- `src/record/`: record mode (`fs`, `rs`, `ofs`, `ors`, select, replace,
  enum, explode, implode, groupby, reshape, flatten).
- `src/grid/`: grid mode (transpose, rotate, reverse, align, pad, get, set,
  line, mark) and `grid/laws.rs` with the laws these operations obey.
- `src/engine.rs`: sources, record addresses, statements, pipelines and
  programs.
- `src/pattern.rs`: the `regex` crate behind a few trusted wrappers.
- `app/main.rs`: the command-line program (argument parsing, standard input
  and output, and the floating-point aggregates used by `groupby`).

Numeric aggregates (`sum`, `min`, `max`, `avg`, `median`) are computed in
floating point by an implementation of `record::aggs::NumberFold` that the
caller supplies; the library verifies everything around them.
