//! The salvage planner: block candidate verification, metadata parsing and
//! verified file plans.
pub mod types;
pub mod cli;
pub mod candidates;
pub mod discovery;
pub mod metadata;
pub mod ledger;
pub mod records;
pub mod grouping;
pub mod planning;
pub mod identity;
pub mod manifest;
pub mod export;
pub mod scan;
pub mod sources;
pub mod order;
