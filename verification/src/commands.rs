//! The command surface the store is driven by.
//!
//! Plain data: one value per command the caller can ask for. Parsing
//! command-line arguments into these values, and performing the I/O each
//! command needs, happens outside the crate.

use vstd::prelude::*;

verus! {

/// A parsed invocation.
pub struct Cli {
    pub command: Commands,
}

/// The commands the store supports being driven by.
pub enum Commands {
    /// Run the capture loop until the device read fails.
    Start,
    /// Stop capturing (no inter-process signalling is specified; this is a
    /// stub for the caller).
    Stop,
    /// Delete the whole base hierarchy.
    Clear,
    /// Export records as text, optionally one `YYYY-MM-DD` day, optionally
    /// to a named output file instead of the default sink.
    Dump { date: Option<String>, output: Option<String> },
    /// Report aggregate storage usage.
    Size,
}

} // verus!
