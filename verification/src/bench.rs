//! Benchmark report rendering: plain-text and Markdown renderers for headings,
//! property lists and tables.

pub mod renderer;
pub mod report;
pub mod comparison;
pub mod runtime_tuning;
pub mod runner;
