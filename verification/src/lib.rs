//! Storage cleaner: the verified core of a disk-usage analyser.
pub mod config;
pub mod ranking;
pub mod tally;
pub mod text;
pub mod sizes;
pub mod paths;
pub mod scanner;
pub mod groups;
pub mod insights;
pub mod time;
pub mod textmap;
pub mod prefetch;
pub mod ai;
pub mod snapshot;
pub mod ipc;
pub mod selection;
pub mod clean;
pub mod mft;
pub mod analysis;
pub mod listing;
