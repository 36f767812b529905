# Blocko

A visual programming editor: programs are node graphs (numbers, arithmetic,
comparisons, variables, loops, functions, groups), compiled through one
language-independent IR to Python, Rust, JavaScript and C++.

- `src/` is the verified library (Verus): graphs and their editing
  operations, grouping and functions, the compiler to the IR and the four
  emitters, AI-graph import, quick search, syntax highlighting, layered
  layout, and the control of the step debugger and of program runs. The
  laws of the library are proof functions in `laws.rs`, `layer_laws.rs`,
  `scope_laws.rs`, `name_laws.rs`, `highlight.rs`, `debugger.rs`,
  `runner.rs`, `node.rs` and `search.rs`.
- `app/` is the egui window around it: drawing, files, JSON, and the
  floating-point evaluation of node values.
- `tests/` exercises the library on concrete graphs.
