//! A log-analysis library: extracts structured entries from log lines that
//! match a fixed `YYYY-MM-DD HH:MM:SS [LEVEL] message` pattern, filters them
//! to error-level entries on demand, and renders the result as a bordered
//! text table, pretty-printed JSON, or naive CSV.

pub mod csv;
pub mod entry;
pub mod filter;
pub mod json;
pub mod parse;
pub mod render;
pub mod table;
pub mod text;
