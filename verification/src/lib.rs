//! Parsers, serializers and merge logic for the binary metadata tags that the
//! Serato DJ software embeds in audio files.

pub mod container;
pub mod error;
pub mod tag;
pub mod util;
