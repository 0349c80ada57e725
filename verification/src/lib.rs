//! Mneme: a local-first read-it-later library that grows a Markdown wiki of
//! sourced facts. This crate holds the verified core: text handling, the
//! entity-page writer, the Markdown page format, the vault listings and the
//! deterministic demo provider.

pub mod text;
pub mod hash;
pub mod domain;
pub mod page;
pub mod utf16;
pub mod order;
pub mod vault;
pub mod agent;
pub mod lines;
pub mod entity_md;
pub mod md_round_trip;
pub mod ai;
pub mod mock;
pub mod wire;
pub mod chat;
pub mod query;
pub mod wikify;
pub mod ingest;
pub mod fetch;
