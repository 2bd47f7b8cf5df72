//! HTTP/2 across the boundary.

use vstd::prelude::*;

use crate::protocol::h2::{FrameType, Settings};

verus! {

/// The HTTP/2 error codes, as they travel in `RST_STREAM` and `GOAWAY`
/// (0x0 to 0xd in this order).
#[derive(Debug, Clone, Copy, PartialEq, Eq, Structural)]
pub enum ErrorCode {
    /// The stream or connection ended with nothing wrong.
    NoError,
    /// The peer broke the protocol.
    ProtocolError,
    /// This end could not carry on.
    InternalError,
    /// A flow control window was overrun.
    FlowControlError,
    /// Settings went unacknowledged for too long.
    SettingsTimeout,
    /// A frame arrived on a stream that is closed.
    StreamClosed,
    /// A frame's length is wrong for its kind.
    FrameSizeError,
    /// The stream was refused before anything was done with it.
    RefusedStream,
    /// The stream is no longer wanted.
    Cancel,
    /// The HPACK tables have diverged.
    CompressionError,
    /// A tunnelled connection failed.
    ConnectError,
    /// The peer is asking for too much, too fast.
    EnhanceYourCalm,
    /// The transport underneath is not secure enough.
    InadequateSecurity,
    /// The request must be retried over HTTP/1.1.
    HTTP11Required,
}

/// Which frame this is: the C half of [`FrameType`].
#[derive(Debug, Clone, Copy, PartialEq, Eq, Structural)]
pub enum Kind {
    /// `DATA`.
    Data,
    /// `HEADERS`.
    Headers,
    /// `PRIORITY`.
    Priority,
    /// `RST_STREAM`.
    RstStream,
    /// `SETTINGS`.
    Settings,
    /// `PUSH_PROMISE`.
    PushPromise,
    /// `PING`.
    Ping,
    /// `GOAWAY`.
    GoAway,
    /// `WINDOW_UPDATE`.
    WindowUpdate,
    /// `CONTINUATION`.
    Continuation,
}

/// The C half of a frame type.
pub open spec fn kind_of(kind: FrameType) -> Kind {
    match kind {
        FrameType::Data => Kind::Data,
        FrameType::Headers => Kind::Headers,
        FrameType::Priority => Kind::Priority,
        FrameType::RstStream => Kind::RstStream,
        FrameType::Settings => Kind::Settings,
        FrameType::PushPromise => Kind::PushPromise,
        FrameType::Ping => Kind::Ping,
        FrameType::GoAway => Kind::GoAway,
        FrameType::WindowUpdate => Kind::WindowUpdate,
        FrameType::Continuation => Kind::Continuation,
    }
}

impl Kind {
    /// The C half of `kind`.
    pub fn build(kind: FrameType) -> (out: Kind)
        ensures
            out == kind_of(kind),
    {
        match kind {
            FrameType::Data => Kind::Data,
            FrameType::Headers => Kind::Headers,
            FrameType::Priority => Kind::Priority,
            FrameType::RstStream => Kind::RstStream,
            FrameType::Settings => Kind::Settings,
            FrameType::PushPromise => Kind::PushPromise,
            FrameType::Ping => Kind::Ping,
            FrameType::GoAway => Kind::GoAway,
            FrameType::WindowUpdate => Kind::WindowUpdate,
            FrameType::Continuation => Kind::Continuation,
        }
    }
}

/// The head of a frame, as it sits on the wire.
#[derive(Debug, Clone, Copy, PartialEq, Eq, Structural)]
pub struct Header {
    /// How long the payload is.
    pub length: u32,
    /// Which frame this is.
    pub kind: Kind,
    /// The flags that go with it.
    pub flags: u8,
    /// The stream it names, or zero for the connection as a whole.
    pub stream_id: u64,
}

/// One settings parameter: an identifier and the value it is being set to.
#[derive(Debug, Clone, Copy, PartialEq, Eq, Structural)]
pub struct Parameter {
    /// Which parameter.
    pub id: u16,
    /// What it is being set to.
    pub value: u32,
}

/// The connection parameters both ends exchange: the C half of
/// [`Settings`], with the two that may be absent carried as `-1`.
#[derive(Debug, Clone, Copy, PartialEq, Eq, Structural)]
pub struct H2Settings {
    /// How large the peer may size its HPACK table.
    pub header_table_size: u32,
    /// Whether server push is allowed.
    pub enable_push: bool,
    /// How many streams may be open at once, or `-1` for no ceiling.
    pub max_concurrent_streams: i64,
    /// The flow control window each new stream opens with.
    pub initial_window_size: u32,
    /// How large one frame's payload may be.
    pub max_frame_size: u32,
    /// How large one field section may be, or `-1` for no ceiling.
    pub max_header_list_size: i64,
    /// Whether extended CONNECT is allowed, which WebSocket needs.
    pub enable_connect_protocol: bool,
}

/// An optional ceiling as it crosses: the value, or `-1` for none.
pub open spec fn ceiling_code(ceiling: Option<u32>) -> i64 {
    match ceiling {
        Some(value) => value as i64,
        None => -1i64,
    }
}

/// A crossed ceiling read back: the value when it fits in 32 bits, none
/// otherwise.
pub open spec fn ceiling_of(code: i64) -> Option<u32> {
    if 0 <= code <= u32::MAX { Some(code as u32) } else { None }
}

fn encode_ceiling(ceiling: Option<u32>) -> (code: i64)
    ensures
        code == ceiling_code(ceiling),
{
    match ceiling {
        Some(value) => value as i64,
        None => -1,
    }
}

fn decode_ceiling(code: i64) -> (ceiling: Option<u32>)
    ensures
        ceiling == ceiling_of(code),
{
    if 0 <= code && code <= 4294967295 { Some(code as u32) } else { None }
}

impl H2Settings {
    /// The C half of `settings`.
    pub fn build(settings: &Settings) -> (out: H2Settings)
        ensures
            out == (H2Settings {
                header_table_size: settings.header_table_size,
                enable_push: settings.enable_push,
                max_concurrent_streams: ceiling_code(settings.max_concurrent_streams),
                initial_window_size: settings.initial_window_size,
                max_frame_size: settings.max_frame_size,
                max_header_list_size: ceiling_code(settings.max_header_list_size),
                enable_connect_protocol: settings.enable_connect_protocol,
            }),
    {
        H2Settings {
            header_table_size: settings.header_table_size,
            enable_push: settings.enable_push,
            max_concurrent_streams: encode_ceiling(settings.max_concurrent_streams),
            initial_window_size: settings.initial_window_size,
            max_frame_size: settings.max_frame_size,
            max_header_list_size: encode_ceiling(settings.max_header_list_size),
            enable_connect_protocol: settings.enable_connect_protocol,
        }
    }

    /// The settings this stands for; a ceiling outside 32 bits, `-1` among
    /// them, reads as none.
    pub fn parse(&self) -> (settings: Settings)
        ensures
            settings == (Settings {
                header_table_size: self.header_table_size,
                enable_push: self.enable_push,
                max_concurrent_streams: ceiling_of(self.max_concurrent_streams),
                initial_window_size: self.initial_window_size,
                max_frame_size: self.max_frame_size,
                max_header_list_size: ceiling_of(self.max_header_list_size),
                enable_connect_protocol: self.enable_connect_protocol,
            }),
    {
        Settings {
            header_table_size: self.header_table_size,
            enable_push: self.enable_push,
            max_concurrent_streams: decode_ceiling(self.max_concurrent_streams),
            initial_window_size: self.initial_window_size,
            max_frame_size: self.max_frame_size,
            max_header_list_size: decode_ceiling(self.max_header_list_size),
            enable_connect_protocol: self.enable_connect_protocol,
        }
    }
}

/// Settings cross the boundary and come back unchanged.
pub proof fn law_h2_settings_round_trip(settings: Settings)
    ensures
        ceiling_of(ceiling_code(settings.max_concurrent_streams)) == settings.max_concurrent_streams,
        ceiling_of(ceiling_code(settings.max_header_list_size)) == settings.max_header_list_size,
{
}

} // verus!
