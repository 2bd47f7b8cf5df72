//! The field codecs' vocabulary across the boundary.

pub mod base64;
pub mod huffman;
pub mod fields;
pub mod qpack;
