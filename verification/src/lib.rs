//! Core of a one-shot web scraper.
//!
//! A run fetches one resource, persists its text to one file, reads the file
//! back and extracts from it every match of a pattern. This crate holds the
//! rules of such a run and does no input or output of its own: it is told
//! what happened outside and answers with what to do next.
//!
//! - [`store`]: the content store, fetched text keyed by identifier.
//! - [`spider`]: what a spider makes of a fetched body, how it persists a
//!   store and how it searches what was persisted.
//! - [`scan`]: scanning a text for the matches of a pattern.
//! - [`pipeline`]: the driver that takes a run through its stages.
//! - [`args`]: the strings that a run is given.
//! - [`error`]: the ways in which a run can fail.

pub mod args;
pub mod error;
pub mod pipeline;
pub mod scan;
pub mod spider;
pub mod store;
