//! The salvage comparison lab: outcomes, scenarios, corruption models,
//! grouping and reports.
pub mod outcome;
pub mod counts;
pub mod classes;
pub mod terminal;
pub mod scenarios;
pub mod corruption;
pub mod groups;
pub mod summary;
pub mod markdown;
pub mod cli;
pub mod runs;
pub mod paths;
pub mod experiment;
pub mod analysis;
pub mod dictionary;
pub mod stats;
pub mod fixtures;
pub mod dict_metrics;
pub mod row_groups;
pub mod variants;
pub mod metric_rows;
pub mod format09;
pub mod transitions;
