# wacc_32

The front end of a compiler for WACC, a small imperative language with
integers, booleans, characters, strings, arrays, pairs, structs and
functions, together with the parts of its ARM back end that stand on their
own. The library's functions are verified with Verus against their
contracts; the one call into std that vstd does not specify,
`String::push`, stands behind a trusted wrapper (`text::push_char`).

## Layout

- `src/parser/`: the grammar, as spec functions on the input's characters
  (`type_spec`, `expr_spec`, `stat_spec`, `program_spec`, ...), and the
  parsers, each proved to return exactly what its spec function says.
- `src/analyser/`: the typing rules (`expr_type`, `stat_spec`,
  `program_check`) and the analysis that checks a program against them,
  fills in the types the tree keeps and renames variables by scope
  (`expr_analysed`, `stat_analysed`, `program_analysed`).
- `src/generator/`: ARM instructions and their text, the runtime routines
  a program may need, a control flow graph of instructions, liveness,
  interference, register colouring, and writing a graph out with the
  registers and stack slots the colouring gave (`CFG::save`).
- `src/listing.rs`: a plain form of ARM instructions and their listing.
- `src/lib.rs`: the report of a compilation's front end (`front_end`).
- `app/`: the command line program, which reads the source file and prints
  the report.

## Design notes

- The blocks of a control flow graph live in a `Vec` and name each other
  by their place in it, not by references into an arena of shared cells:
  Verus reasons about a `Vec` of plain values, not about shared mutable
  cells.
- Tables keyed by names (`IdentMap`) are lists of entries with distinct
  keys: with a `String` key, `HashMap` gives Verus nothing to prove that a
  lookup finds what an insert stored.
- When a second round of colouring spills more values, their stack slots
  follow those of the first round, so that no two spilled values share a
  slot.
