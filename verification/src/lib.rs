//! Static analysis of import usage in TypeScript/TSX modules.
//!
//! The crate models a parsed module as a tree of nodes, collects the
//! local names bound by import declarations, counts how often each bound
//! name occurs as an identifier, merges the per-file counts into a global
//! tally, and orders that tally for reporting. Parsing source text into
//! the tree is the caller's business; the analysis itself is verified.

pub mod aggregate;
pub mod analyzer;
pub mod ast;
pub mod report;
pub mod usage;
