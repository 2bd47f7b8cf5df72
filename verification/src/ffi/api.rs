//! The client and server entry points' vocabulary across the boundary.

pub mod client;
