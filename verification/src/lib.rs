//! Aether: verified core logic of a semantic-graph IDE — a time-travel
//! debugger over a toy language, declarative extension validation, the
//! syntax-tree analyses of the graph builder (call sites with receiver
//! hints, TypeScript definitions, Rust method facts and imports, Python
//! scopes), source path and macro-text analysis, and debug-adapter
//! protocol helpers.

pub mod aliases;
pub mod dap;
pub mod demo;
pub mod digest;
pub mod extension;
pub mod fields;
pub mod go_paths;
pub mod grant;
pub mod highlight;
pub mod hints;
pub mod interp;
pub mod json;
pub mod lang;
pub mod macro_scan;
pub mod marketplace;
pub mod method_rules;
pub mod paths;
pub mod py_hints;
pub mod pytrace;
pub mod recipe_rules;
pub mod rust_types;
pub mod search;
pub mod sources;
pub mod text;
pub mod timeline;
pub mod words;
pub mod trace;
pub mod ts_paths;
pub mod strmap;
pub mod syntax;
pub mod tree;
pub mod rust_imports;
pub mod py_scopes;
pub mod rust_hints;
pub mod method_facts;
pub mod candidates;
pub mod edits;
pub mod py_receivers;
pub mod rust_calls;
pub mod calls;
pub mod ts_defs;
pub mod update_plan;
