//! A codec for PNG files seen as a signature followed by a sequence of chunks.
//! Chunks can be parsed, built, appended, looked up and removed by their
//! four-letter type, and the file is serialized back byte for byte.
pub mod checksum;
pub mod chunk;
pub mod chunk_type;
pub mod endian;
pub mod png;
pub mod text;
