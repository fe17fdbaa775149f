//! A small INI-like configuration format: named sections of key/value
//! properties, with triple-quoted multi-line values and diagnostics that
//! carry row/column ranges.

pub mod document;
pub mod laws;
pub mod parser;
pub mod position;
pub mod rwini;
pub mod text;
