//! Client-side engine for a terminal multiplexer's line-oriented control
//! protocol.
//!
//! The library covers the control-channel engine: the command/response
//! vocabulary, the writer that assigns sequence numbers and frames outgoing
//! command lines, and the stanza-based stream parser that reconstructs
//! discrete output blocks from the multiplexer's output stream and matches
//! them against pending correlation records.
//!
//! Process supervision and the two live I/O loops live outside the library;
//! they hand lines and correlation records in as plain values and carry
//! populated responses back out.

use vstd::prelude::*;

pub mod command;
pub mod command_stream;

verus! {

/// A submitted command together with the reply destination for its one
/// caller. The destination type is opaque to the engine: it is carried
/// through unchanged and handed back with the populated response.
pub struct Pair<C, D>(pub C, pub D);

} // verus!
