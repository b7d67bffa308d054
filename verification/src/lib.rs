//! Aggregates movie genre tags by release year: parses per-movie fields,
//! builds a year/genre count table, reduces it to per-genre summary
//! statistics, and encodes the table in the delimited output format.

pub mod decimal;
pub mod fields;
pub mod trend;
pub mod summary;
pub mod output;
