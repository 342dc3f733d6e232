//! Verified core of a real-time log monitor: severity detection, path
//! rendering, bounded search history, activity statistics and the decisions
//! of the interactive display loop.

pub mod text;
pub mod order;
pub mod level;
pub mod sums;
pub mod stats;
pub mod pattern;
pub mod history;
pub mod paths;
pub mod display;
pub mod report;
pub mod config;
pub mod output;
pub mod source;
