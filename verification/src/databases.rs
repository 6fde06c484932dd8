//! Statements for the analytical engine that holds the staged rows.

pub mod duckdb_functions;
pub mod laws;
