//! Ingestion of yearly population-registry extracts.
//!
//! * [`calendar`] turns a calendar year into the year that the registry
//!   counts by.
//! * [`fetch`] builds the address of a year's extract and reads what the
//!   answer to a request means.
//! * [`parsers`] turns the lines of an extract into records.
//! * [`store`] holds the records, at most one for each year and area, and
//!   writes them out as one partition per year.
//! * [`ingestion`] loads the lines of an extract into the store.
//! * [`pipeline`] runs the whole: which years are asked for, when the export
//!   may begin, and what is reported at the end.
//! * [`databases`] holds the statements for the analytical engine.
//! * [`numbers`] and [`text`] read and write numbers and split and trim
//!   text.
//!
//! The library neither fetches nor writes files. Its caller does, and hands
//! it what came back.

pub mod calendar;
pub mod databases;
pub mod fetch;
pub mod ingestion;
pub mod numbers;
pub mod parsers;
pub mod pipeline;
pub mod store;
pub mod text;
