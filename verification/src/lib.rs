//! Discovers the transitive dependency graph of a crates.io package and
//! cross-references each dependency's repository against GitHub sponsorship
//! data, producing a ranked report of projects and people one could fund.
//!
//! The crate holds the verified core: repository-URL parsing, the
//! depth-bounded dependency crawl, per-contributor funding aggregation, and
//! the ranking of the results.  Network clients, CLI parsing and terminal
//! output live outside the library and drive it through these types.

pub mod aggregate;
pub mod crawler;
pub mod funding;
pub mod locator;
pub mod rank;
