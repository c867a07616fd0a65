# axes

A hierarchical development workflow orchestrator: projects are registered in a
global index as a tree, each with an `.axes/axes.toml` holding scripts,
variables, environment and options that children inherit from their parents.

- `src/` is the verified library: the template language and its compiler, the
  parameters of scripts, the index and its operations (registration, linking,
  renaming, removal, aliases), the resolution of contexts, the inheritance of
  configuration layers, the schedule of tasks, the shell sessions, the caches'
  framing, and what the commands show. Every function carries a contract proved
  by Verus; the laws of the library are public proof functions.
- `app/` is the `axes` command around it: argument parsing, files, processes,
  prompts and printing.
- `tests/` runs the library on concrete values.
