//! Renders a set of file-metadata records as fixed-width ASCII timeline
//! lines: one header line per compaction level, one proportionally placed
//! bar line per file.

pub mod display;
pub mod files;
pub mod laws;
pub mod layout;
pub mod render;
pub mod textfmt;
