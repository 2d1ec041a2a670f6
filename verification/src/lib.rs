//! A split/forwarding DNS resolver core.
//!
//! The crate holds the verified logic of a forwarding resolver: parsing the
//! parts of the DNS wire format the resolver reads, classifying upstream
//! answers, arbitrating among them, caching the winner for a bounded time,
//! and deciding each receive/resolve/reply cycle. All functions work on plain
//! bytes and values; sockets, clocks and configuration files live outside.

pub mod cache;
pub mod config;
pub mod dns_server;
pub mod msg;
pub mod utils;
