use soyokaze::headers::{default_path, is_separator, keep_alive, path_matches};
use soyokaze::models::{Headers, Version};

fn connection(values: &[&str]) -> Headers {
    let mut headers = Headers::new();
    for value in values {
        headers.append_lowercase("connection", value.to_string());
    }
    headers
}

#[test]
fn keep_alive_defaults_by_version() {
    assert!(!keep_alive(None, Version::V1_0));
    assert!(keep_alive(None, Version::V1_1));
    assert!(keep_alive(None, Version::V2_0));
    assert!(keep_alive(None, Version::V3_0));
}

#[test]
fn keep_alive_close_wins() {
    let headers = connection(&["keep-alive, close"]);
    assert!(!keep_alive(Some(&headers), Version::V1_0));
    assert!(!keep_alive(Some(&headers), Version::V1_1));
    assert!(!keep_alive(Some(&headers), Version::V2_0));
}

#[test]
fn keep_alive_http10_needs_token() {
    let headers = connection(&[" Keep-Alive "]);
    assert!(keep_alive(Some(&headers), Version::V1_0));
    let other = connection(&["upgrade"]);
    assert!(!keep_alive(Some(&other), Version::V1_0));
}

#[test]
fn keep_alive_reads_every_field_and_token() {
    let headers = connection(&["upgrade", "foo,  CLOSE\t"]);
    assert!(!keep_alive(Some(&headers), Version::V1_1));
    let mut mixed = Headers::new();
    mixed.append_lowercase("connection", "keep-alive".to_string());
    mixed.append_lowercase("content-length", "0".to_string());
    assert!(keep_alive(Some(&mixed), Version::V1_0));
    let empty = Headers::new();
    assert!(!keep_alive(Some(&empty), Version::V1_0));
    assert!(keep_alive(Some(&empty), Version::V1_1));
}

#[test]
fn keep_alive_ignores_near_misses() {
    let headers = connection(&["closed", "keep-alive-ish"]);
    assert!(keep_alive(Some(&headers), Version::V1_1));
    assert!(!keep_alive(Some(&headers), Version::V1_0));
}

#[test]
fn free_cookie_helpers() {
    assert!(is_separator(b';'));
    assert!(is_separator(b' '));
    assert!(!is_separator(b'a'));
    assert!(path_matches("/docs/web", "/docs"));
    assert!(!path_matches("/docsweb", "/docs"));
    assert_eq!(default_path("/docs/web/page"), "/docs/web");
    assert_eq!(default_path("/page"), "/");
}
