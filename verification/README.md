# aether

The verified core of a semantic-graph IDE, written in Verus. Every function
under `src/` carries a `requires`/`ensures` contract that Verus proves; the
few calls into outside crates (tree-sitter, globset, sha2, serde_json) sit
behind small trusted wrappers whose doc comments say what they claim.

What the library holds:

- **Parsing and reading syntax trees** (`syntax`, `tree`, `edits`): source
  text parsed with tree-sitter and read into a plain `SyntaxNode` tree;
  highlight spans (`highlight`); whole-buffer edits for incremental reparse.
- **Per-file extraction for the graph builder**: call sites with receiver
  hints (`calls`, `rust_hints`, `py_receivers`, `py_scopes`, `py_hints`,
  `rust_calls`, `macro_scan`), Rust imports and method facts
  (`rust_imports`, `method_facts`), TypeScript definitions (`ts_defs`),
  module paths (`paths`, `ts_paths`, `go_paths`), candidate selection for
  call resolution (`candidates`, `aliases`, `method_rules`).
- **Incremental edit sync** (`sources`, `update_plan`): normalized source
  paths and the plan of an update batch: dirty files, rebuild reasons,
  reused and re-parsed files.
- **Time-travel debugger** (`lang`, `interp`, `trace`, `timeline`, `demo`,
  `pytrace`, `dap`): a recording interpreter over a small language, a
  branching timeline with what-if interventions, Python trace import, and
  debug-adapter framing.
- **Extensions** (`extension`, `recipe_rules`, `grant`, `marketplace`,
  `fields`, `digest`, `json`): declarative recipe validation, capability
  grants bound to SHA-256 digests, and a reviewed marketplace catalog.

`tests/` exercises the library on concrete inputs; `app/` is the thin
unverified shell around it (I/O, serde copies of library types).
