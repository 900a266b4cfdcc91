//! Workspace symbol index: a fuzzy-searchable catalog of named declarations
//! collected from a resolved module tree, stored per scope as a symbol table
//! sorted by lowercased name together with a finite-state-transducer map
//! from each distinct lowercased name to its batch of records. Queries run
//! a subsequence automaton over the union of many such maps and filter the
//! matched batches.
pub mod collector;
pub mod index;
pub mod laws;
pub mod query;
pub mod semantics;
pub mod symbols;
pub mod text;
pub mod world;
