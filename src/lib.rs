//! A small regular-expression engine: patterns are compiled into a graph of
//! nodes and labelled transitions, and an input is matched by a depth-first
//! search over that graph from its start node.
//!
//! Supported syntax: literal characters, `.`, grouping with `( )`,
//! alternation with `|`, and the quantifiers `*` and `+`.

pub mod graph;
pub mod text;
pub mod parser;
pub mod search;
pub mod regex;
