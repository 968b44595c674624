# PyPilot

PyPilot works out which Python version a project's dependencies can run on,
plans how to build the environment on it, and says which package set the limit.

The library in `src/` is verified with Verus: every function states what it
returns, and the public proof functions state what holds of the library as a
whole. The program in `app/` reads files, runs commands, talks to PyPI and to
the editor, and hands plain values to the library.

- `pypi/`: version sets, specifiers, wheel tags, release metadata, the disk
  cache's rules, and the compatibility report of a whole project.
- `engine/`: project files, probes, the solver that turns a report into findings,
  the import guardian, and the setup, install and re-pin flows. A flow is a state
  that names its next action and takes the answer; the program performs it.
- `matrix/`: GPU driver and framework tables, and the CUDA build that fits.
- `lsp/`, `cli/`, `extension`: what the language server, the commands and the
  editor extension decide and say.
- `settings`, `document`, `names`, `text`: settings layers, TOML and JSON trees,
  sets of names, and text.

The `toml` and `serde_json` crates read documents; `document` and `text` hold
every statement that is believed rather than proved, each beside the call it
describes.
