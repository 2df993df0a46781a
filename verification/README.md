# reqsh

A small interactive shell with built-in commands for saving and running
API checks (`savecheck`, `runcheck`, `listchecks`, `delcheck`).

- `src/` is the library, verified with Verus: the command-line scanner
  (`parser`), the checks file format (`checks`), completion (`completion`),
  the `history` builtin's decisions (`history`), and the other builtins
  (`builtins`). The laws it proves stand in `parser_laws` and `checks_laws`.
- `app/` is the program around it: the line editor, files, processes and
  printing.
- `tests/` runs the library on concrete inputs.
