# althread

Verified building blocks of the althread language tools.

- `src/error.rs`: errors, their kinds, and the text of their reports.
- `src/text.rs`: decimal numbers, runs of spaces, and the lines of a text.
- `src/parse.rs`: the parse tree that the library reads (`ParseNode`), with
  places computed by pest, and the "unexpected rule" errors.
- `src/interpreter/`: the syntax tree (`Ast`) built from a parse tree, the
  statements it knows (assignments, loops), and the compiler steps around
  them (loop jumps, program and function code, `always` conditions).
  `src/interpreter/ast/project.rs` compiles a whole program (`Ast::compile`)
  over a `ProgramCompiler` that the caller provides for statements, blocks,
  expressions and the analysis of function bodies: the `shared` values, the
  functions, the code of each program and the `always` conditions. What it
  gives is `compile_spec`, each stage from the state the one before left.
  `src/interpreter/ast/display.rs` gives the lines that show the tree, over a
  `TreeDisplay` that shows the nodes inside it.
- `src/ast/`, `src/env/`, `src/runtime/`: checking the statements of
  programs, starting programs, and running `if` statements, over an
  `Environment` that the caller provides. Each service of an `Environment`
  is described by a spec function that the implementing type defines, and
  the contracts of the checks and of `if` are stated over them.
- `src/entries.rs`: tables as lists of entries with unique keys.
- `app/`: reading pest pairs into parse nodes, and printing reports.
