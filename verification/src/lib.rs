//! An authoritative DNS server core for serving ACME DNS-01 challenge zones.
//!
//! The crate models the full request-processing pipeline of the server as
//! verified code over plain data: a zone tree holding the served zones, a
//! store of TSIG keys, the query and AXFR answering logic, the RFC 2136
//! dynamic-update processor, the TSIG authentication state machine, and the
//! reconciliation of both stores against the configuration file. Network and
//! file I/O, as well as the cryptographic and encoding primitives, live at
//! the edges: the crypto and base64 calls are wrapped in a handful of trusted
//! declarations, and everything else is proved.

pub mod config;
pub mod error;
pub mod key;
pub mod logger;
pub mod metric;
pub mod names;
pub mod service;
pub mod tsig;
pub mod update;
pub mod watcher;
pub mod zone;
