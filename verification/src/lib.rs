//! A small key-value database whose values are JSON documents.
//!
//! The library holds the data model, the command rules, the expiry of values
//! and the line-based text protocol of the database, each with its contract.
//! Networking, the async runtime and logging belong to the server program.

pub mod protocol;
pub mod json;
pub mod store;
pub mod ttl;
pub mod text;
pub mod commands;
pub mod text_protocol;
pub mod laws;
pub mod cli;
