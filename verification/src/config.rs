//! Plain configuration values handed to the core at startup.
//!
//! Argument parsing and configuration-file loading live outside the library;
//! they fill these structs and the core consumes them as plain values.

use vstd::prelude::*;

verus! {

/// Startup options: where to bind and how long cached answers live.
pub struct Args {
    /// Host to bind the listening socket to.
    pub host: String,
    /// Port to bind the listening socket to.
    pub port: u32,
    /// Time to live of a cached answer, in seconds.
    pub ttl: u32,
}

/// A named group of upstream resolvers from the static configuration.
pub struct ServerDefinition {
    /// Comma-separated upstream addresses.
    pub servers: String,
}

/// The static configuration: three groups of upstream resolvers.
pub struct Config {
    pub public: ServerDefinition,
    pub ezorg: ServerDefinition,
    pub domain: ServerDefinition,
}

} // verus!
