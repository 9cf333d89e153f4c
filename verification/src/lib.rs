//! A packed-asset archive library.
//!
//! The centrepiece is a binary container format (one directory file plus
//! size-capped data chunks) holding many named blobs, exposed through a
//! uniform file-access vocabulary so callers can address loose disk files
//! and archive-packed files alike.  The directory codec, the checksum
//! engine, the chunk-capacity bookkeeping and the in-memory index are all
//! verified; the thin disk and window glue around them lives outside this
//! crate.

pub mod bytes;
pub mod codec;
pub mod crc;
pub mod dirs;
pub mod fs;
pub mod group;
pub mod index;
pub mod paths;
pub mod renderer;
pub mod strings;
pub mod util;
pub mod vpk;
