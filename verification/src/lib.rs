//! Front ends and import rules of a static taint analyzer.

pub mod assembles;
pub mod called;
pub mod carries;
pub mod classes;
pub mod cli;
pub mod collections;
pub mod commands;
pub mod construction;
pub mod cpp;
pub mod declares;
pub mod discovery;
pub mod dump;
pub mod edges;
pub mod entry;
pub mod error;
pub mod expressions;
pub mod externs;
pub mod function;
pub mod graph;
pub mod kinds;
pub mod labels;
pub mod lattice;
pub mod lives;
pub mod lowering;
pub mod makes;
pub mod members;
pub mod mir;
pub mod objects;
pub mod paths;
pub mod placing;
pub mod plan;
pub mod program;
pub mod reaches;
pub mod report;
pub mod scope;
pub mod shapes;
pub mod sources;
pub mod state;
pub mod statements;
pub mod steps;
pub mod syntax;
pub mod text;
pub mod trees;
pub mod units;
pub mod words;
pub mod xapk;
