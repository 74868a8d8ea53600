//! The parallel pipeline: ordered block compression and, for block-framed
//! formats, ordered block decompression.
pub mod compress;
pub mod decompress;
