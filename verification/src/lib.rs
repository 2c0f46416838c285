//! Core logic of a single-page demo web server.
//!
//! The library holds everything the server decides or computes: rendering the
//! HTML page from a fixed template by placeholder substitution, turning the
//! request counter's value into decimal text, parsing the configured port,
//! choosing defaults for missing configuration, and the request-counter model
//! itself. The network, signal and environment plumbing around it lives in the
//! accompanying binary.

pub mod config;
pub mod counter;
pub mod numbers;
pub mod page;
pub mod text;
