use soyokaze::client::{apply_hsts, dial, learn_response, only_h3, prior_version, request_fields, Dial};
use soyokaze::cookies::CookieJar;
use soyokaze::models::{Headers, Url, Version};

fn link(scheme: &str, host: &str, port: u16, target: &str) -> Url {
    Url { scheme: scheme.to_string(), host: host.to_string(), port, target: target.to_string() }
}

#[test]
fn prior_version_pins_or_falls_back() {
    assert_eq!(prior_version(&[Version::V2_0]), Version::V2_0);
    assert_eq!(prior_version(&[Version::V1_0]), Version::V1_0);
    assert_eq!(prior_version(&[Version::V3_0]), Version::V1_1);
    assert_eq!(prior_version(&[Version::V1_0, Version::V2_0]), Version::V1_1);
    assert_eq!(prior_version(&[]), Version::V1_1);
}

#[test]
fn only_h3_needs_h3_alone() {
    assert!(only_h3(&[Version::V3_0]));
    assert!(only_h3(&[Version::V3_0, Version::V3_0]));
    assert!(!only_h3(&[Version::V3_0, Version::V2_0]));
    assert!(!only_h3(&[]));
}

#[test]
fn dial_by_scheme_and_versions() {
    let all = [Version::V3_0, Version::V2_0, Version::V1_1];
    assert_eq!(dial(&link("http", "a", 80, "/"), &all), Dial::Plain(Version::V1_1));
    assert_eq!(dial(&link("http", "a", 80, "/"), &[Version::V2_0]), Dial::Plain(Version::V2_0));
    assert_eq!(dial(&link("https", "a", 443, "/"), &[Version::V3_0]), Dial::QUIC);
    assert_eq!(dial(&link("https", "a", 443, "/"), &all), Dial::TLS);
    assert_eq!(dial(&link("wss", "a", 443, "/"), &[Version::V2_0]), Dial::TLS);
}

#[test]
fn hsts_upgrades_strict_hosts() {
    let mut plain = link("http", "a.example", 80, "/x");
    apply_hsts(&mut plain, true);
    assert_eq!((plain.scheme.as_str(), plain.port), ("https", 443));
    assert_eq!(plain.target, "/x");
    let mut socket = link("ws", "a.example", 8080, "/");
    apply_hsts(&mut socket, true);
    assert_eq!((socket.scheme.as_str(), socket.port), ("wss", 8080));
    let mut lax = link("http", "a.example", 80, "/");
    apply_hsts(&mut lax, false);
    assert_eq!((lax.scheme.as_str(), lax.port), ("http", 80));
    let mut secure = link("https", "a.example", 80, "/");
    apply_hsts(&mut secure, true);
    assert_eq!((secure.scheme.as_str(), secure.port), ("https", 80));
}

#[test]
fn request_fields_fill_host_and_cookie() {
    let target = link("https", "example.com", 8443, "/docs");
    let mut jar = CookieJar::new();
    jar.learn(&target, &["a=1", "b=2; Path=/other"], 0);
    let fields = request_fields(None, &target, Some(&jar), 0);
    assert_eq!(
        fields.fields,
        vec![("host".to_string(), "example.com:8443".to_string()), ("cookie".to_string(), "a=1".to_string())]
    );

    let mut given = Headers::new();
    given.append_lowercase("host", "override".to_string());
    given.append_lowercase("cookie", "mine=1".to_string());
    let fields = request_fields(Some(given), &target, Some(&jar), 0);
    assert_eq!(
        fields.fields,
        vec![("host".to_string(), "override".to_string()), ("cookie".to_string(), "mine=1".to_string())]
    );

    let empty = CookieJar::new();
    let fields = request_fields(None, &link("http", "example.com", 80, "/"), Some(&empty), 0);
    assert_eq!(fields.fields, vec![("host".to_string(), "example.com".to_string())]);
    let fields = request_fields(None, &link("http", "example.com", 80, "/"), None, 0);
    assert_eq!(fields.fields.len(), 1);
}

#[test]
fn responses_feed_the_jar() {
    let target = link("http", "example.com", 80, "/");
    let mut jar = CookieJar::new();
    let mut headers = Headers::new();
    headers.append_lowercase("set-cookie", "a=1".to_string());
    headers.append_lowercase("content-type", "text/plain".to_string());
    headers.append_lowercase("set-cookie", "b=2".to_string());
    learn_response(&mut jar, &target, Some(&headers), 0);
    assert_eq!(jar.cookie(&target, 0), Some("a=1; b=2".to_string()));
    learn_response(&mut jar, &target, None, 0);
    assert_eq!(jar.entries.len(), 2);
}
