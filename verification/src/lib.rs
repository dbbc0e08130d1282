//! Lyrics and playlists: their text format, identifiers, and in-memory stores.
use vstd::prelude::*;

pub mod convert;
pub mod db;
pub mod disk_format;
pub mod error;
pub mod ext;
pub mod file_repo;
pub mod from_reader;
pub mod lyric_file;
pub mod memory;
pub mod model;
pub mod parts;
pub mod service;
pub mod stored_law;
pub mod tags;
pub mod text;
pub mod transaction;
pub mod uuid;

verus! {
} // verus!
