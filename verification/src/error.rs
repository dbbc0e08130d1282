//! The errors of the library.
use vstd::prelude::*;

use crate::uuid::Uuid;

verus! {

/// What went wrong.
#[derive(Debug)]
pub enum ModelError {
    /// A text is not base-58.
    Bs58DecodeError,
    /// A decoded identifier does not have 16 bytes; holds the count it has.
    UuidError(usize),
    /// No item with this key (the key as text).
    NoKey(String),
    /// No item with this identifier.
    NotFound(Uuid),
    /// A new item's identifier is taken already.
    Occupied,
    /// A playlist names a lyric that does not exist: playlist id, member id.
    PlaylistInvalidMember(String, String),
    /// A text could not be parsed; what was being parsed.
    Parse(String),
    /// A TOML document could not be read.
    TomlDeError,
    /// An argument is not understood.
    Argument(String),
}

} // verus!
