//! A line-oriented text search engine: literal and regular-expression
//! matching over text, with a shared budget of lines to scan.

pub mod ascii;
pub mod config;
pub mod fold;
pub mod laws;
pub mod lines;
pub mod numbers;
pub mod pattern;
pub mod report;
pub mod scan;
pub mod search;
pub mod text;
