//! Line, word, character, byte and widest-line counts over text sources,
//! with the rules for combining the counts of many sources into one total.
//!
//! `scan` counts one source line by line, `counts` merges the counts of many,
//! `sources` divides a list of sources into runs that are read alike, and
//! `orchestrate` sets the order of work over those runs. `manifest` reads a
//! list of source names, and `report` writes the lines that show the counts.

pub mod counts;
pub mod error;
pub mod manifest;
pub mod mode;
pub mod orchestrate;
pub mod report;
pub mod scan;
pub mod sources;
pub mod split;
pub mod text;
