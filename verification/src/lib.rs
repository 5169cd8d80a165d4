//! Archive container engine for the "pak" packed-file format: a single blob
//! holding asset files, with an encrypted trailing header and file table.
//!
//! The library works on in-memory byte images of the container.  Callers read
//! the archive file into a `Vec<u8>`, hand it to [`pak::AAPak`], and write the
//! image back out when the container is closed.

pub mod codec;
pub mod crypto;
pub mod csv;
pub mod error;
pub mod file_info;
pub mod format_reader;
pub mod header;
pub mod pak;
pub mod pak_type;
pub mod progress;
pub mod sub_stream;
