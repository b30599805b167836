//! Conversion between the two forms of a content package: a pack, which is a
//! manifest document beside a flat repository of assets, and an archive, whose
//! entries follow the layout of a static file server.
//!
//! The library works on values in memory. Reading and writing the pack
//! directory and the archive file is left to its caller.

pub mod assoc;
pub mod category;
pub mod codec;
pub mod converter;
pub mod entry;
pub mod error;
pub mod item;
pub mod json;
pub mod layout;
pub mod names;
pub mod pack_archiver;
pub mod pack_extractor;
pub mod round_trip;
pub mod seqs;
pub mod text;
pub mod utils;

pub use converter::Converter;
pub use error::ScpError;
