//! The framing layers' vocabulary across the boundary.

pub mod h1;
pub mod h2;
pub mod h3;
