//! Failure and table vocabulary of the field codecs: base64, the HPACK and
//! QPACK Huffman code, and the HPACK primitives.

pub mod base64;
pub mod huffman;
pub mod fields;
