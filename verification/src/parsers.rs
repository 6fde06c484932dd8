//! Parsers for the registry's text formats.

pub mod population;
