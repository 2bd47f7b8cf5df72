//! Wire vocabulary of the HTTP/2 and HTTP/3 framing layers.

pub mod h2;
pub mod h3;
