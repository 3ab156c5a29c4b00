# rhdlc

Front end of a compiler for RHDL, a Rust-like hardware description language:
it reads a source tree (a top level file and the files of its out-of-line
modules), builds a graph of its scopes and items, and reports what is wrong
with it — missing or conflicting module files, names defined twice, `use`
items that lead nowhere or to private items, type paths that name nothing.

The library under `src/` is verified with Verus. Most public functions state
in their contracts exactly what they return or change. Type-path lookups,
glob imports included, are stated exactly. A lookup on a `use` path is
stated exactly when it traces no other `use` item on the way (the graph
grows while it does); otherwise its contract says what holds of every
outcome: what it finds is visible and continues the path, and each `use`
item traced meanwhile has added a leaf or an error. Building the graph
states the nodes each item adds with the nodes of the items written inside
it, one level down.

- `ast`, `ident`: the plain values the checks read (identifiers, paths,
  visibilities, `use` trees) and which identifiers may be raw.
- `find_file`: the graph of files of a tree, which module declarations lead
  to which file paths, and which file is taken.
- `resolution`: the resolution graph and its passes — building it from the
  items (`scope_builder`), visibility (`visibility`), `use` tracing (`uses`,
  `path`), name conflicts (`conflicts`, `name`) and type paths
  (`type_path`, `type_existence`).
- `error`: the diagnostics, each with the exact text it carries.
- `text`, `render`, `report`, `resolve`, `tree`: rustc-style rendering of
  located messages as styled text, and the errors met while pulling module
  files into one tree.
- `primitives`, `type_checker`: clock edges, 24-bit integers and the shapes
  of types.

`app/` is the command-line program: it reads files, parses them with `syn`,
hands the library plain values, and prints the diagnostics with
`codespan-reporting` (or colors the styled text with `colored`).
