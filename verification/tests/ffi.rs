use soyokaze::errors::Error;
use soyokaze::ffi::api::client::role;
use soyokaze::ffi::errors::{ErrorHandle, Status};
use soyokaze::ffi::helpers::base64::DecodeError as Base64Error;
use soyokaze::ffi::helpers::fields::Error as FieldsError;
use soyokaze::ffi::helpers::huffman::{DecodeError as HuffmanError, Symbol, Transition};
use soyokaze::ffi::hsts::HSTSPolicy as CPolicy;
use soyokaze::ffi::models::{HeaderCase as CHeaderCase, TransportKind as CTransport};
use soyokaze::ffi::protocol::h2::{H2Settings, Kind as H2Kind};
use soyokaze::ffi::protocol::h3::{FrameKind, H3Settings, Kind as H3Kind};
use soyokaze::ffi::tls::{Format as CFormat, Security as CSecurity};
use soyokaze::ffi::{Buffer, Slice};
use soyokaze::helpers;
use soyokaze::hsts::HSTSPolicy;
use soyokaze::models::{HeaderCase, Method, Role, StreamID, TransportKind};
use soyokaze::protocol::{h2, h3};
use soyokaze::security::{Format, Security, TLSCipher, TLSGroup, TLSVersion};
use soyokaze::ffi::models::{Port as CPort, PortKind};
use soyokaze::models::Port;
use soyokaze::ffi::borrow_text;
use soyokaze::ffi::tls::TLSConfig;

#[test]
fn status_of_each_error() {
    assert_eq!(Status::of(&Error::Closed), Status::Closed);
    assert_eq!(Status::of(&Error::Protocol("x".into())), Status::Protocol);
    assert_eq!(Status::of(&Error::Limit("x".into())), Status::Limit);
    assert_eq!(Status::of(&Error::stream(StreamID(3), 8, "x".into())), Status::Stream);
    assert_eq!(Status::of(&Error::Timeout("x".into())), Status::Timeout);
    assert_eq!(Status::of(&Error::Tls("x".into())), Status::TLS);
    assert_eq!(Status::of(&Error::Version("x".into())), Status::Version);
    assert_eq!(Status::of(&Error::Io("x".into())), Status::IO);
}

#[test]
fn status_messages() {
    assert_eq!(Status::Success.message(), "ok");
    assert_eq!(Status::Version.message(), "version negotiation failed");
    assert_eq!(Status::Invalid.message(), "invalid argument");
    assert_eq!(Status::Runtime.message(), "runtime unavailable");
}

#[test]
fn error_handle_keeps_stream_details() {
    let handle = ErrorHandle::new(&Error::stream(StreamID(5), 8, "reset".into()));
    assert_eq!(handle.status, Status::Stream);
    assert_eq!(handle.message, "stream 5 failed with 0x8: reset");
    assert_eq!(handle.reason, "reset");
    assert_eq!(handle.stream_id, Some(StreamID(5)));
    assert_eq!(handle.code, Some(8));
}

#[test]
fn error_handle_reason_drops_prefix() {
    let handle = ErrorHandle::new(&Error::Protocol("bad frame".into()));
    assert_eq!(handle.message, "protocol violation: bad frame");
    assert_eq!(handle.reason, "bad frame");
    assert_eq!(handle.stream_id, None);
    assert_eq!(ErrorHandle::reason(&Error::Closed), "");
    assert_eq!(ErrorHandle::reason(&Error::Io("broken pipe".into())), "broken pipe");
}

#[test]
fn error_handle_build() {
    assert_eq!(ErrorHandle::build(Status::Success, "x".into()), Error::Closed);
    assert_eq!(ErrorHandle::build(Status::Invalid, "x".into()), Error::Protocol("x".into()));
    assert_eq!(ErrorHandle::build(Status::Runtime, "x".into()), Error::Protocol("x".into()));
    assert_eq!(ErrorHandle::build(Status::Stream, "x".into()), Error::stream(StreamID(0), 0, "x".into()));
    assert_eq!(ErrorHandle::build(Status::IO, "x".into()), Error::Io("x".into()));
    assert_eq!(ErrorHandle::build(Status::TLS, "x".into()), Error::Tls("x".into()));
}

#[test]
fn slices_and_buffers() {
    let octets = [1u8, 2, 3];
    let slice = Slice::new(&octets);
    assert_eq!(slice.len, 3);
    assert!(!slice.is_absent());
    assert_eq!(Slice::text("héllo").len, 6);
    assert!(Slice::maybe(None).is_absent());
    assert_eq!(Slice::maybe(Some("")).data, Some(&[][..]));
    let buffer = Buffer::new(vec![9, 8]);
    assert_eq!(buffer.len, 2);
    assert_eq!(buffer.data, vec![9, 8]);
}

#[test]
fn role_numbers() {
    assert_eq!(Role::build(Role::UserAgent), 0);
    assert_eq!(Role::build(Role::Tunnel), 4);
    assert_eq!(role(Role::Gateway), 3);
    assert_eq!(role(Role::Proxy), Role::build(Role::Proxy));
}

#[test]
fn method_codes() {
    assert_eq!(Method::from_code(0), Some(Method::GET));
    assert_eq!(Method::from_code(5), Some(Method::CONNECT));
    assert_eq!(Method::from_code(8), Some(Method::PATCH));
    assert_eq!(Method::from_code(9), None);
    assert_eq!(Method::from_code(-1), None);
}

#[test]
fn enum_halves() {
    assert_eq!(CTransport::build(TransportKind::QUIC), CTransport::QUIC);
    assert_eq!(CTransport::build(TransportKind::Stream), CTransport::Stream);
    assert_eq!(CHeaderCase::build(HeaderCase::Title), CHeaderCase::Title);
    assert_eq!(CHeaderCase::Lower.parse(), HeaderCase::Lower);
    assert_eq!(CFormat::build(Format::PEM), CFormat::PEM);
    assert_eq!(H2Kind::build(h2::FrameType::Continuation), H2Kind::Continuation);
    assert_eq!(H3Kind::build(h3::StreamKind::QPACKDecoder), H3Kind::QPACKDecoder);
    assert_eq!(H3Kind::Request.parse(), h3::StreamKind::Request);
    assert_eq!(FrameKind::build(h3::FrameType::MaxPushID), FrameKind::MaxPushID);
}

#[test]
fn hsts_policy_halves() {
    let policy = HSTSPolicy { max_age: 10, include_subdomains: true, preload: false };
    let c = CPolicy::build(&policy);
    assert_eq!(c, CPolicy { max_age: 10, include_subdomains: true, preload: false });
    assert_eq!(c.parse(), policy);
}

#[test]
fn h2_settings_cross_and_back() {
    let settings = h2::Settings {
        header_table_size: 4096,
        enable_push: false,
        max_concurrent_streams: None,
        initial_window_size: 65535,
        max_frame_size: 16384,
        max_header_list_size: Some(u32::MAX),
        enable_connect_protocol: true,
    };
    let c = H2Settings::build(&settings);
    assert_eq!(c.max_concurrent_streams, -1);
    assert_eq!(c.max_header_list_size, 4294967295);
    assert_eq!(c.parse(), settings);
    let odd = H2Settings { max_concurrent_streams: 1 << 40, max_header_list_size: -7, ..c };
    assert_eq!(odd.parse().max_concurrent_streams, None);
    assert_eq!(odd.parse().max_header_list_size, None);
}

#[test]
fn h3_settings_cross_and_back() {
    let settings = h3::Settings {
        qpack_max_table_capacity: 0,
        qpack_blocked_streams: 100,
        max_field_section_size: Some(16384),
        enable_connect_protocol: false,
    };
    let c = H3Settings::build(&settings);
    assert_eq!(c.max_field_section_size, 16384);
    assert_eq!(c.parse(), settings);
    let huge = h3::Settings { max_field_section_size: Some(u64::MAX), ..settings };
    assert_eq!(H3Settings::build(&huge).max_field_section_size, -1);
    assert_eq!(H3Settings::build(&huge).parse().max_field_section_size, None);
    let none = h3::Settings { max_field_section_size: None, ..settings };
    assert_eq!(H3Settings::build(&none).max_field_section_size, -1);
}

#[test]
fn security_crosses_and_back() {
    let security = Security {
        secure: true,
        early_data: false,
        tls: true,
        tls_version: Some(TLSVersion(0x0304)),
        tls_group: Some(TLSGroup(0x001d)),
        tls_cipher: Some(TLSCipher(0x1301)),
        quic: true,
        quic_version: Some(1),
    };
    let c = CSecurity::build(&security);
    assert_eq!(c.tls_version, 0x0304);
    assert_eq!(c.quic_version, 1);
    assert_eq!(c.parse(), security);
    let plain = Security { tls: false, tls_version: None, tls_group: None, tls_cipher: None, quic: false, quic_version: None, ..security };
    let c = CSecurity::build(&plain);
    assert_eq!((c.tls_version, c.tls_group, c.tls_cipher, c.quic_version), (-1, -1, -1, -1));
    assert_eq!(c.parse(), plain);
    let wide = CSecurity { tls_version: 70000, quic_version: 1 << 33, ..c };
    assert_eq!(wide.parse().tls_version, None);
    assert_eq!(wide.parse().quic_version, None);
}

#[test]
fn base64_error_codes() {
    assert_eq!(Base64Error::from_code(0), Some(Base64Error::Success));
    assert_eq!(Base64Error::from_code(3), Some(Base64Error::InvalidPadding));
    assert_eq!(Base64Error::from_code(5), None);
    assert_eq!(Base64Error::of(&helpers::base64::DecodeError::InvalidLength(7)), (Base64Error::InvalidLength, 7));
    assert_eq!(Base64Error::of(&helpers::base64::DecodeError::InvalidSymbol(b'*')), (Base64Error::InvalidSymbol, 42));
    assert_eq!(Base64Error::of(&helpers::base64::DecodeError::InvalidPadding), (Base64Error::InvalidPadding, 0));
    assert_eq!(Base64Error::InvalidLength.message(), "length is not a multiple of four");
}

#[test]
fn huffman_halves() {
    let symbol = Symbol::build(&helpers::huffman::Symbol { code: 0x1ff8, length: 13 });
    assert_eq!((symbol.code, symbol.length), (0x1ff8, 13));
    let step = Transition::build(&helpers::huffman::Transition { next: 7, symbol: b'a', flags: 1 });
    assert_eq!((step.next, step.symbol, step.flags), (7, b'a', 1));
    assert_eq!(HuffmanError::of(&helpers::huffman::DecodeError::UnknownSymbol), HuffmanError::UnknownSymbol);
    assert_eq!(HuffmanError::InvalidPadding.message(), "huffman padding is not all one-bits");
}

#[test]
fn fields_errors() {
    assert_eq!(FieldsError::of(&helpers::fields::Error::Incomplete), FieldsError::Incomplete);
    assert_eq!(
        FieldsError::of(&helpers::fields::Error::Huffman(helpers::huffman::DecodeError::InvalidPadding)),
        FieldsError::HuffmanInvalidPadding
    );
    assert_eq!(FieldsError::IntegerOverflow.message(), "integer representation overflowed");
    assert_eq!(FieldsError::Success.message(), "ok");
}

#[test]
fn ports_cross_and_read() {
    let absent = Slice::maybe(None);
    assert_eq!(CPort { kind: PortKind::TCP, number: 443, path: absent }.parse(), Some(Port::TCP(443)));
    assert_eq!(CPort { kind: PortKind::QUIC, number: 8443, path: absent }.parse(), Some(Port::QUIC(8443)));
    assert_eq!(CPort { kind: PortKind::UDS, number: 0, path: absent }.parse(), None);
    let path = Slice::text("/run/app.sock");
    assert_eq!(CPort { kind: PortKind::UDS, number: 0, path }.parse(), Some(Port::UDS("/run/app.sock".to_string())));
    let broken = [0xc0u8, 0x80];
    assert_eq!(CPort { kind: PortKind::UDS, number: 0, path: Slice::new(&broken) }.parse(), None);
}

#[test]
fn borrowed_text() {
    assert_eq!(borrow_text(Slice::text("héllo")), Some("héllo"));
    assert_eq!(borrow_text(Slice::maybe(None)), None);
    assert_eq!(borrow_text(Slice::new(&[0xed, 0xa0, 0x80])), None);
    assert_eq!(borrow_text(Slice::new(&[0xf4, 0x90, 0x80, 0x80])), None);
    assert_eq!(borrow_text(Slice::new(&[0xf0, 0x9f, 0x98, 0x80])), Some("\u{1f600}"));
}

#[test]
fn tls_config_reads_lists() {
    let config = TLSConfig {
        ciphers: Slice::text("ECDHE-ECDSA-AES128-GCM-SHA256"),
        groups: Slice::maybe(None),
        signature_algorithms: Slice::text(""),
        prefer_server_ciphers: true,
        session_tickets: false,
        early_data: true,
        certificate_compression: false,
    };
    let options = config.parse().unwrap();
    assert_eq!(options.ciphers.as_deref(), Some("ECDHE-ECDSA-AES128-GCM-SHA256"));
    assert_eq!(options.groups, None);
    assert_eq!(options.signature_algorithms.as_deref(), Some(""));
    assert!(options.prefer_server_ciphers && !options.session_tickets && options.early_data && !options.certificate_compression);
    let bad = [0xffu8];
    let broken = TLSConfig { groups: Slice::new(&bad), ..config };
    assert_eq!(broken.parse(), None);
}
