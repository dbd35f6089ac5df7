# appmanager

The logic of a handheld port and application manager, written with
`requires`/`ensures` contracts that are proved. Most functions state their
result exactly; the shell analyzer states the evaluation of individual
constructs over a syntax tree (literal words, variables and parameter
expansions, assignments and declarations, `cd`, redirections, string tests,
`&&`/`||` short circuits, budget and source limits) rather than the outcome of
a whole script, which goes through an outside parser; of a whole script it
states the input and size limits.

- `src/` is the library: archive recognition and validation, launcher
  analysis (a conservative shell evaluator over a bash syntax tree), install
  transactions and their crash recovery (`install_plan`, `journal`), runtime
  metadata and repair, storage roots, the web service's decisions and the
  device configuration.
- `app/` holds what performs I/O around the library: file system moves,
  archive reading, the HTTP listener and the runtime downloads.
- `tests/` exercises the library on concrete inputs.
