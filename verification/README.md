# veritool-core

A SystemVerilog/Verilog static-analysis library with a command-line front
end (`veritool`): module ports and signals, flip-flop estimates over an
instance hierarchy, the hierarchy itself, and top-module detection.

The library in `src/` is verified with Verus; each public function states
its result in its contract, and `src/laws.rs` holds the properties of the
library as a whole (widths and FF counts and their independence of the
order of bounds and dimensions, the FF hierarchy, top modules, the cycle
cut of the hierarchy, FF de-duplication, parameter overrides and
evaluation order).

- `text`, `literal`, `lexer`, `expr`, `env`, `params`: constant expressions
  (literals, operators, `$clog2`) against parameter environments.
- `design`, `visit`: the design model, and the walk events that build it.
- `width`, `ff`: bit widths and FF counts with parameters passed down.
- `analyze::hierarchy`, `args`, `format`, `report`, `loader`: the hierarchy
  tree and its lines, command-line model, report rows and lines, filelists.

`app/` is the program around it: argument parsing (clap), reading files,
parsing sources with sv-parser and walking the syntax tree into events,
and printing tables, JSON, Markdown and CSV.
