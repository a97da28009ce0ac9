# jupytypst

A Jupyter kernel and a terminal REPL for Typst. The crate is a Verus library
(`src/`) with a thin program around it (`app/`).

`src/` holds the decisions, each proved against its contract:

- `cell`, `notebook`: reading a cell's `// jupytypst:` directives (`format=` and
  the `mode=` dialect) and splitting off its body.
- `input`, `repl_session`: classifying an input as complete, unfinished or
  invalid from Typst's syntax errors; page setup options and setup code.
- `repl`: how REPL lines gather into a buffer and which commands do what.
- `kernel`: the reply to each shell request, tracebacks, error reports.
- `diagnostics`, `eval`: the registry of inputs and the mapping of spans back
  onto the user's text.
- `capture`: the walk over a cell's top-level expressions, with Typst's VM
  evaluating each one: which `set` and `show` rules are kept for later cells,
  which are only warned about, how each rule styles the rest of the cell.
- `persist`, `introspection`: which style properties persist, and the filter
  that keeps only those; the state and counter updates carried into later
  cells.
- `layout`: when layout stops.
- `output`, `testkit`: notebook HTML for SVG pages, and snapshot records.
- `text`, `modes`: characters, lines, trimming, numerals; the modes.

`app/` sets up Typst's engine and world and runs layout and rendering, the sockets of the
Jupyter protocol, the terminal, and the file system.
