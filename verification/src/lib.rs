//! A verified core for an interactive repository-archiving tool.
//!
//! The library covers the parts of the tool where correctness matters:
//! parsing HTTP `Link` headers, following cursor-style pagination so that
//! a multi-page result set is collected completely and in order, and
//! validating numeric menu choices. The surrounding I/O (HTTP requests,
//! terminal prompts, spawning the clone command) lives in the thin
//! unverified front end that drives these functions.

pub mod client;
pub mod domain;
pub mod errors;
pub mod link;
pub mod menu;
pub mod pagination;
pub mod scan;
