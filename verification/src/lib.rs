//! HTTP/1/2/3 building blocks: cookies, TLS negotiation, admission control,
//! response finalisation and the C-facing vocabulary, each with its contract.

pub mod text;
pub mod models;
pub mod errors;
pub mod cookies;
pub mod cookie_laws;
pub mod tls;

pub mod finalizer;
pub mod hsts;
pub mod headers;
pub mod gate;
pub mod ffi;
pub mod protocol;
pub mod security;
pub mod helpers;
pub mod server;
pub mod client;
pub mod cookie_codec;
