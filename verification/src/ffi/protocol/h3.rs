//! HTTP/3 across the boundary.

use vstd::prelude::*;

use crate::protocol::h3::{FrameType, Settings, StreamKind};

verus! {

/// What a stream announces itself as: the C half of [`StreamKind`],
/// numbered as the wire numbers the unidirectional kinds (0x00 to 0x03),
/// with 0x04 for a request stream.
#[derive(Debug, Clone, Copy, PartialEq, Eq, Structural)]
pub enum Kind {
    /// The control stream.
    Control,
    /// A push stream.
    Push,
    /// The QPACK encoder stream.
    QPACKEncoder,
    /// The QPACK decoder stream.
    QPACKDecoder,
    /// A bidirectional request stream.
    Request,
}

/// The C half of a stream kind.
pub open spec fn kind_of(kind: StreamKind) -> Kind {
    match kind {
        StreamKind::Control => Kind::Control,
        StreamKind::Push => Kind::Push,
        StreamKind::QPACKEncoder => Kind::QPACKEncoder,
        StreamKind::QPACKDecoder => Kind::QPACKDecoder,
        StreamKind::Request => Kind::Request,
    }
}

/// The stream kind a C half stands for.
pub open spec fn stream_kind_of(kind: Kind) -> StreamKind {
    match kind {
        Kind::Control => StreamKind::Control,
        Kind::Push => StreamKind::Push,
        Kind::QPACKEncoder => StreamKind::QPACKEncoder,
        Kind::QPACKDecoder => StreamKind::QPACKDecoder,
        Kind::Request => StreamKind::Request,
    }
}

impl Kind {
    /// The C half of `kind`.
    pub fn build(kind: StreamKind) -> (out: Kind)
        ensures
            out == kind_of(kind),
    {
        match kind {
            StreamKind::Control => Kind::Control,
            StreamKind::Push => Kind::Push,
            StreamKind::QPACKEncoder => Kind::QPACKEncoder,
            StreamKind::QPACKDecoder => Kind::QPACKDecoder,
            StreamKind::Request => Kind::Request,
        }
    }

    /// The stream kind this stands for.
    pub fn parse(self) -> (kind: StreamKind)
        ensures
            kind == stream_kind_of(self),
    {
        match self {
            Kind::Control => StreamKind::Control,
            Kind::Push => StreamKind::Push,
            Kind::QPACKEncoder => StreamKind::QPACKEncoder,
            Kind::QPACKDecoder => StreamKind::QPACKDecoder,
            Kind::Request => StreamKind::Request,
        }
    }
}

/// Which frame this is: the C half of [`FrameType`].
#[derive(Debug, Clone, Copy, PartialEq, Eq, Structural)]
pub enum FrameKind {
    /// `DATA`.
    Data,
    /// `HEADERS`.
    Headers,
    /// `CANCEL_PUSH`.
    CancelPush,
    /// `SETTINGS`.
    Settings,
    /// `PUSH_PROMISE`.
    PushPromise,
    /// `GOAWAY`.
    GoAway,
    /// `MAX_PUSH_ID`.
    MaxPushID,
}

/// The C half of a frame type.
pub open spec fn frame_kind_of(kind: FrameType) -> FrameKind {
    match kind {
        FrameType::Data => FrameKind::Data,
        FrameType::Headers => FrameKind::Headers,
        FrameType::CancelPush => FrameKind::CancelPush,
        FrameType::Settings => FrameKind::Settings,
        FrameType::PushPromise => FrameKind::PushPromise,
        FrameType::GoAway => FrameKind::GoAway,
        FrameType::MaxPushID => FrameKind::MaxPushID,
    }
}

impl FrameKind {
    /// The C half of `kind`.
    pub fn build(kind: FrameType) -> (out: FrameKind)
        ensures
            out == frame_kind_of(kind),
    {
        match kind {
            FrameType::Data => FrameKind::Data,
            FrameType::Headers => FrameKind::Headers,
            FrameType::CancelPush => FrameKind::CancelPush,
            FrameType::Settings => FrameKind::Settings,
            FrameType::PushPromise => FrameKind::PushPromise,
            FrameType::GoAway => FrameKind::GoAway,
            FrameType::MaxPushID => FrameKind::MaxPushID,
        }
    }
}

/// One settings parameter: an identifier and the value it is being set to.
#[derive(Debug, Clone, Copy, PartialEq, Eq, Structural)]
pub struct Parameter {
    /// Which parameter.
    pub id: u64,
    /// What it is being set to.
    pub value: u64,
}

/// The parameters one end of a connection has announced: the C half of
/// [`Settings`], with the one that may be absent carried as `-1`.
#[derive(Debug, Clone, Copy, PartialEq, Eq, Structural)]
pub struct H3Settings {
    /// The QPACK dynamic table capacity this end is willing to hold.
    pub qpack_max_table_capacity: u64,
    /// How many streams may be QPACK-blocked at once.
    pub qpack_blocked_streams: u64,
    /// How large one field section may be, or `-1` for no ceiling.
    pub max_field_section_size: i64,
    /// Whether extended CONNECT is allowed, which WebSocket needs.
    pub enable_connect_protocol: bool,
}

/// An optional ceiling as it crosses: the value reinterpreted as a signed
/// 64-bit number, or `-1` for none.
pub open spec fn ceiling_code(ceiling: Option<u64>) -> i64 {
    match ceiling {
        Some(value) => value as i64,
        None => -1i64,
    }
}

/// A crossed ceiling read back: the value when it is not negative, none
/// otherwise.
pub open spec fn ceiling_of(code: i64) -> Option<u64> {
    if code >= 0 { Some(code as u64) } else { None }
}

fn encode_ceiling(ceiling: Option<u64>) -> (code: i64)
    ensures
        code == ceiling_code(ceiling),
{
    match ceiling {
        Some(value) => value as i64,
        None => -1,
    }
}

fn decode_ceiling(code: i64) -> (ceiling: Option<u64>)
    ensures
        ceiling == ceiling_of(code),
{
    if code >= 0 { Some(code as u64) } else { None }
}

impl H3Settings {
    /// The C half of `settings`.
    pub fn build(settings: &Settings) -> (out: H3Settings)
        ensures
            out == (H3Settings {
                qpack_max_table_capacity: settings.qpack_max_table_capacity,
                qpack_blocked_streams: settings.qpack_blocked_streams,
                max_field_section_size: ceiling_code(settings.max_field_section_size),
                enable_connect_protocol: settings.enable_connect_protocol,
            }),
    {
        H3Settings {
            qpack_max_table_capacity: settings.qpack_max_table_capacity,
            qpack_blocked_streams: settings.qpack_blocked_streams,
            max_field_section_size: encode_ceiling(settings.max_field_section_size),
            enable_connect_protocol: settings.enable_connect_protocol,
        }
    }

    /// The settings this stands for; a negative ceiling reads as none.
    pub fn parse(&self) -> (settings: Settings)
        ensures
            settings == (Settings {
                qpack_max_table_capacity: self.qpack_max_table_capacity,
                qpack_blocked_streams: self.qpack_blocked_streams,
                max_field_section_size: ceiling_of(self.max_field_section_size),
                enable_connect_protocol: self.enable_connect_protocol,
            }),
    {
        Settings {
            qpack_max_table_capacity: self.qpack_max_table_capacity,
            qpack_blocked_streams: self.qpack_blocked_streams,
            max_field_section_size: decode_ceiling(self.max_field_section_size),
            enable_connect_protocol: self.enable_connect_protocol,
        }
    }
}

/// A stream kind crosses the boundary and comes back unchanged, and so does
/// a C half.
pub proof fn law_stream_kind_round_trip(kind: StreamKind, code: Kind)
    ensures
        stream_kind_of(kind_of(kind)) == kind,
        kind_of(stream_kind_of(code)) == code,
{
}

/// Settings cross the boundary and come back unchanged when the field
/// section ceiling is absent or fits in a signed 64-bit number.
pub proof fn law_h3_settings_round_trip(settings: Settings)
    requires
        settings.max_field_section_size matches Some(size) ==> size <= i64::MAX,
    ensures
        ceiling_of(ceiling_code(settings.max_field_section_size)) == settings.max_field_section_size,
{
}

} // verus!
