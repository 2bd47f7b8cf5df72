//! The vocabulary of the C boundary: the octet views and enums that cross
//! it, and the conversions between them and the crate's own types.
//!
//! The views here hold what a C view points at as borrowed Rust slices; the
//! pointers themselves are made where the boundary is.

use vstd::prelude::*;
use vstd::string::StringSliceAdditionalSpecFns;

use crate::text::utf8_text;

pub mod errors;
pub mod models;
pub mod hsts;
pub mod protocol;
pub mod tls;
pub mod helpers;
pub mod websocket;
pub mod api;

verus! {

/// A borrowed view of octets, or of an absent value.
///
/// Absence is told apart from an empty value, which is how a lookup that
/// found nothing differs from one that found an empty value.
#[derive(Clone, Copy)]
pub struct Slice<'a> {
    /// The octets, or `None` when the value is absent.
    pub data: Option<&'a [u8]>,
    /// How many octets there are.
    pub len: usize,
}

impl<'a> Slice<'a> {
    /// A view of `octets`.
    pub fn new(octets: &'a [u8]) -> (slice: Slice<'a>)
        ensures
            slice.data == Some(octets),
            slice.len == octets@.len(),
    {
        Slice { data: Some(octets), len: octets.len() }
    }

    /// A view of the UTF-8 octets of `text`.
    pub fn text(text: &'a str) -> (slice: Slice<'a>)
        ensures
            slice.data is Some,
            slice.data.unwrap()@ == text.spec_bytes(),
            slice.len == text.spec_bytes().len(),
    {
        Slice::new(text.as_bytes())
    }

    /// A view of `text`, or the absent view when there is none.
    pub fn maybe(text: Option<&'a str>) -> (slice: Slice<'a>)
        ensures
            match text {
                Some(t) => slice.data is Some && slice.data.unwrap()@ == t.spec_bytes() && slice.len == t.spec_bytes().len(),
                None => slice.data is None && slice.len == 0,
            },
    {
        match text {
            Some(text) => Slice::text(text),
            None => Slice { data: None, len: 0 },
        }
    }

    /// Whether the value was absent.
    pub fn is_absent(&self) -> (absent: bool)
        ensures
            absent == self.data is None,
    {
        self.data.is_none()
    }
}

/// The text a view holds, when it is present and valid UTF-8.
pub open spec fn view_text(slice: Slice) -> Option<Seq<char>> {
    match slice.data {
        Some(bytes) => if vstd::utf8::valid_utf8(bytes@) { Some(vstd::utf8::decode_utf8(bytes@)) } else { None },
        None => None,
    }
}

/// Borrows the text a view holds: `None` when the view is absent or is not
/// UTF-8.
pub fn borrow_text<'a>(slice: Slice<'a>) -> (out: Option<&'a str>)
    ensures
        match view_text(slice) {
            Some(text) => out matches Some(s) && s@ == text,
            None => out is None,
        },
{
    match slice.data {
        Some(bytes) => utf8_text(bytes),
        None => None,
    }
}

/// Octets handed to the caller to own.
pub struct Buffer {
    /// The octets.
    pub data: Vec<u8>,
    /// How many octets there are.
    pub len: usize,
}

impl Buffer {
    /// Hands `octets` to the caller.
    pub fn new(octets: Vec<u8>) -> (buffer: Buffer)
        ensures
            buffer.data@ == octets@,
            buffer.len == octets@.len(),
    {
        let len = octets.len();
        Buffer { data: octets, len }
    }
}

} // verus!
