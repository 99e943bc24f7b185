//! Matching engine for two folders: finds the files that are present, by
//! name, directly inside both, and pairs each with its size and modification
//! time on either side.

pub mod display;
pub mod engine;
pub mod entry;
pub mod listing;
pub mod ordinal;
pub mod resolve;
pub mod search;
pub mod session;
