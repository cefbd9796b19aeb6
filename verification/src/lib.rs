//! A small developer tool library: a verified directory-tree renderer with
//! ignore filtering, plus the pure parts of a project scaffolder and its
//! command-line front end.

pub mod cli;
pub mod laws;
pub mod order;
pub mod render;
pub mod scaffold;
pub mod tree;

pub use tree::Entry;
