# Kria

Kria is a small dynamically typed language: `.krx` sources are tokenized, parsed, compiled
to a flat bytecode and run on a stack machine. This crate is its verified core.

## Layout

- `src/` — the library, verified with Verus.
  - `text`, `show`, `lexer`, `parser`, `ast`: the front end, each stated against a
    specification of what it computes on character sequences.
  - `compiler`, `compile_spec`, `compile_expr`, `compile_stmt`, `compile_loops`,
    `compile_api`, `compile_opt`: code generation, proved equal to a functional
    specification of the emitted bytecode.
  - `bytecode`, `optimizer`: the bytecode format, and a peephole pass that reads the code
    instruction by instruction, drops dead constant loads and jumps to the next
    instruction, and moves every jump target and function entry with the code.
  - `value`, `heap`, `render`, `vm`, `ops_*`, `machine`, `input`: the machine. Each
    instruction is specified by a function from machine state to the next state and the
    event it raises (print, read input, halt, error). The caller performs the event.
  - `modules`, `loader`, `project`: import resolution, a module loader that asks its
    caller for file system work, and compilation of a whole module graph.
  - `repl`: the interactive session and its helpers.
  - `laws`: properties that span operations (read-after-write of globals, array
    elements and properties, equality as an equivalence, export visibility, module
    order, and more).
- `tests/` — tests of the library on concrete programs.
- `app/` — the command-line program: file system access, standard input and output, and
  the line editor of the REPL.
