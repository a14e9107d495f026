//! Line search: which lines of a text contain a query, with or without
//! regard to letter case, and the small argument model that configures
//! one such search.
//!
//! * [`lines`] says what the lines of a text are.
//! * [`matching`] says which lines a query selects, and proves what holds
//!   of that selection.
//! * [`strings`] holds what is taken on trust about `str`.
//! * [`matcher`] and [`config`] are the executable library.

pub mod config;
pub mod lines;
pub mod matcher;
pub mod matching;
pub mod strings;

pub use crate::config::Args;
pub use crate::matcher::{matches_survive_folding, run, search, search_case_insensitive};
