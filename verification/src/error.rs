//! Errors produced by the library's own logic.
//!
//! I/O, argument-parsing and process-separation failures are wrapped by the
//! surrounding daemon code in its own error type; the library only reports
//! what its verified logic can decide.

use vstd::prelude::*;

verus! {

/// Failures the library's logic reports.
#[derive(Debug, Clone)]
pub enum Error {
    /// A configuration text could not be expanded or parsed; the string
    /// carries a human-readable diagnostic with the offending context.
    ParserError(String),
    /// A structurally valid message carried an unexpected combination of
    /// kind and payload; fatal to the receiving role's processing loop.
    InvalidMessage,
    /// A peer channel closed while traffic was still expected; the string
    /// names the lost peer.
    Terminated(String),
}

impl Error {
    /// Whether this is a parse failure carrying the given diagnostic.
    pub open spec fn is_parser_error(self, msg: Seq<char>) -> bool {
        match self {
            Error::ParserError(m) => m@ == msg,
            _ => false,
        }
    }
}

} // verus!
