//! Query engine for a game world's persisted save state.
//!
//! The library decodes binary entity and scoreboard records, joins scoreboard
//! rows to entities into a per-entity score index, and evaluates a textual
//! entity selector against each entity. All store access (the key-value
//! database, directory resolution, command-line handling) lives outside the
//! library; the functions here work on plain byte buffers and values.

pub mod bytes;
pub mod nbt;
pub mod scoreboard;
pub mod selector;
pub mod world;

use vstd::prelude::*;

verus! {

/// A fatal failure while decoding a binary record buffer.
#[derive(Debug, Clone, Copy, PartialEq, Eq, Structural)]
pub enum DecodeError {
    /// The buffer does not conform to the expected binary shape.
    Malformed,
    /// The buffer is longer than the decoder accepts.
    TooLarge,
}

/// A fatal failure while parsing a selector string.
#[derive(Debug, Clone, Copy, PartialEq, Eq, Structural)]
pub enum ParseError {
    /// The selector does not have the `@e[` ... `]` shape.
    BadShape,
    /// A filter that needs a value has no `=` part.
    MissingValue,
    /// A score range splits into more than two parts.
    BadRange,
}

} // verus!
