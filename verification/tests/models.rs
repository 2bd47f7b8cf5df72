use soyokaze::errors::Error;
use soyokaze::models::{Headers, StreamID, TransportKind, Url, Version};
use soyokaze::models::Port;
use soyokaze::server::{attach_versions, plan_workers, WorkerPlan};

#[test]
fn version_alpn_round_trip() {
    for version in [Version::V1_0, Version::V1_1, Version::V2_0, Version::V3_0] {
        assert_eq!(Version::from_alpn(&version.alpn()), Some(version));
    }
    assert_eq!(Version::from_alpn(b"spdy/3"), None);
    assert_eq!(Version::V2_0.major(), 2);
    assert_eq!(Version::V3_0.transport(), TransportKind::QUIC);
    assert_eq!(Version::V1_1.transport(), TransportKind::Stream);
}

#[test]
fn url_authority() {
    let url = Url { scheme: "https".into(), host: "example.com".into(), port: 443, target: "/".into() };
    assert!(url.secure());
    assert_eq!(url.authority(), "example.com");
    let url = Url { scheme: "http".into(), host: "example.com".into(), port: 8080, target: "/".into() };
    assert!(!url.secure());
    assert_eq!(url.authority(), "example.com:8080");
}

#[test]
fn headers_lookup_ignores_case() {
    let mut headers = Headers::new();
    headers.append_lowercase("accept", "a".to_string());
    headers.append_lowercase("accept", "b".to_string());
    assert!(headers.contains("Accept"));
    assert!(!headers.contains("host"));
    assert_eq!(headers.len(), 2);
    assert_eq!(headers.get_all("ACCEPT"), vec![vec!['a'], vec!['b']]);
}

#[test]
fn error_messages_and_streams() {
    assert_eq!(Error::Closed.message(), "connection closed");
    assert_eq!(Error::stream(StreamID(1), 255, "gone".into()).message(), "stream 1 failed with 0xff: gone");
    assert_eq!(
        Error::Limit("too big".into()).on_stream(StreamID(3), 7),
        Error::Stream { id: StreamID(3), code: 7, reason: "too big".into() }
    );
    assert_eq!(Error::Timeout("t".into()).on_stream(StreamID(3), 7), Error::Timeout("t".into()));
    assert_eq!(Error::Io("broken pipe".into()).message(), "io error: broken pipe");
}

#[test]
fn ports_carry_matching_versions() {
    let all = [Version::V3_0, Version::V2_0, Version::V1_1];
    assert_eq!(Port::TCP(443).offers(&all), vec![Version::V2_0, Version::V1_1]);
    assert_eq!(Port::QUIC(443).offers(&all), vec![Version::V3_0]);
    assert_eq!(Port::UDS("/s".into()).transport(), TransportKind::Stream);
    assert!(Port::QUIC(1).carries(Version::V3_0));
    assert!(!Port::QUIC(1).carries(Version::V1_0));
    assert_eq!(attach_versions(&Port::TCP(80), &all), Ok(vec![Version::V2_0, Version::V1_1]));
    assert_eq!(
        attach_versions(&Port::QUIC(443), &[Version::V1_1]),
        Err(Error::Version("no configured version runs over QUIC".to_string()))
    );
    assert_eq!(
        attach_versions(&Port::TCP(80), &[Version::V3_0]),
        Err(Error::Version("no configured version runs over Stream".to_string()))
    );
}

#[test]
fn worker_plans() {
    let ports = [Port::TCP(80), Port::UDS("/s".into()), Port::QUIC(443)];
    assert_eq!(plan_workers(&ports, 4, true), Ok(WorkerPlan { workers: 4, independent: vec![true, false, true] }));
    assert_eq!(plan_workers(&ports, 0, false), Ok(WorkerPlan { workers: 1, independent: vec![false, false, false] }));
    assert_eq!(
        plan_workers(&ports, 2, false),
        Err(Error::Io("a QUIC port needs reuseport to run on more than one worker".to_string()))
    );
    assert_eq!(plan_workers(&ports[..2], 2, false), Ok(WorkerPlan { workers: 2, independent: vec![false, false] }));
}
