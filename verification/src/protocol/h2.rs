//! HTTP/2 frame types and connection settings.

use vstd::prelude::*;

verus! {

/// The HTTP/2 frame types, as the wire numbers them (0 to 9).
#[derive(Debug, Clone, Copy, PartialEq, Eq, Structural)]
pub enum FrameType {
    /// `DATA`: message body octets.
    Data,
    /// `HEADERS`: a compressed field section.
    Headers,
    /// `PRIORITY`: a priority hint.
    Priority,
    /// `RST_STREAM`: abandon one stream.
    RstStream,
    /// `SETTINGS`: connection parameters, or their acknowledgement.
    Settings,
    /// `PUSH_PROMISE`: a promised stream.
    PushPromise,
    /// `PING`: a liveness probe, or its acknowledgement.
    Ping,
    /// `GOAWAY`: no further streams will be accepted.
    GoAway,
    /// `WINDOW_UPDATE`: more flow control credit.
    WindowUpdate,
    /// `CONTINUATION`: more of the field section a `HEADERS` frame began.
    Continuation,
}

/// The connection parameters both ends of an HTTP/2 connection exchange.
#[derive(Debug, Clone, Copy, PartialEq, Eq, Structural)]
pub struct Settings {
    /// How large the peer may size its HPACK table.
    pub header_table_size: u32,
    /// Whether server push is allowed.
    pub enable_push: bool,
    /// How many streams may be open at once, if there is a ceiling.
    pub max_concurrent_streams: Option<u32>,
    /// The flow control window each new stream opens with.
    pub initial_window_size: u32,
    /// How large one frame's payload may be.
    pub max_frame_size: u32,
    /// How large one field section may be, if there is a ceiling.
    pub max_header_list_size: Option<u32>,
    /// Whether extended CONNECT is allowed, which WebSocket needs.
    pub enable_connect_protocol: bool,
}

} // verus!
