//! Verified core of the crushr salvage tooling: structural and content
//! verification of BLK3 block candidates, metadata-driven salvage planning,
//! and the outcome bookkeeping of the salvage comparison lab.
pub mod command;
pub mod digest;
pub mod json;
pub mod lab;
pub mod salvage;
pub mod seqs;
pub mod text;
