use soyokaze::finalizer::{
    civil_from_days, finalize_request, finalize_response, finalize_response_at, http_date, two_digits,
    write_http_date, DateCache, DATE_LENGTH,
};
use soyokaze::hsts::HSTSPolicy;
use soyokaze::models::{Headers, Message, Method, Version};

fn response(status: u16, secure: bool) -> Message {
    Message { version: Version::V1_1, method: None, status_code: Some(status), target: None, secure, headers: None }
}

fn request(version: Version) -> Message {
    Message {
        version,
        method: Some(Method::GET),
        status_code: None,
        target: Some("/".to_string()),
        secure: false,
        headers: None,
    }
}

fn fields(message: &Message) -> Vec<(String, String)> {
    message.headers.as_ref().map(|h| h.fields.clone()).unwrap_or_default()
}

#[test]
fn civil_from_days_epoch() {
    assert_eq!(civil_from_days(0), (1970, 1, 1));
}

#[test]
fn civil_from_days_before_epoch() {
    assert_eq!(civil_from_days(-1), (1969, 12, 31));
    assert_eq!(civil_from_days(-719468), (0, 3, 1));
}

#[test]
fn civil_from_days_leap_day() {
    assert_eq!(civil_from_days(11016), (2000, 2, 29));
    assert_eq!(civil_from_days(11017), (2000, 3, 1));
    assert_eq!(civil_from_days(19723), (2024, 1, 1));
    assert_eq!(civil_from_days(47541), (2100, 3, 1));
    assert_eq!(civil_from_days(47540), (2100, 2, 28));
}

#[test]
fn civil_from_days_extremes() {
    let (year, month, day) = civil_from_days(i64::MAX - 719468);
    assert!(year > 25_000_000_000_000_000);
    assert!((1..=12).contains(&month) && (1..=31).contains(&day));
    let (year, month, day) = civil_from_days(i64::MIN);
    assert!(year < -25_000_000_000_000_000);
    assert!((1..=12).contains(&month) && (1..=31).contains(&day));
}

#[test]
fn two_digits_writes_last_two() {
    let mut out = [b'x'; 4];
    two_digits(7, &mut out);
    assert_eq!(&out, b"07xx");
    two_digits(1994, &mut out);
    assert_eq!(&out, b"94xx");
}

#[test]
fn http_date_rfc_example() {
    assert_eq!(http_date(784111777), "Sun, 06 Nov 1994 08:49:37 GMT");
}

#[test]
fn http_date_epoch() {
    assert_eq!(http_date(0), "Thu, 01 Jan 1970 00:00:00 GMT");
    assert_eq!(http_date(951782400), "Tue, 29 Feb 2000 00:00:00 GMT");
}

#[test]
fn write_http_date_clamps_year() {
    let mut out = [0u8; DATE_LENGTH];
    write_http_date(u64::MAX, &mut out);
    assert_eq!(out.len(), 29);
    assert_eq!(&out[12..16], b"9999");
    assert_eq!(&out[25..], b" GMT");
}

#[test]
fn date_cache_renders_requested_second() {
    let mut cache = DateCache::new();
    assert_eq!(cache.at(784111777), "Sun, 06 Nov 1994 08:49:37 GMT");
    assert_eq!(cache.at(784111777), "Sun, 06 Nov 1994 08:49:37 GMT");
    assert_eq!(cache.at(0), "Thu, 01 Jan 1970 00:00:00 GMT");
    let now = cache.now();
    assert_eq!(now.len(), 29);
    assert!(now.ends_with(" GMT"));
}

#[test]
fn finalize_response_adds_date_and_server() {
    let mut message = response(200, false);
    finalize_response_at(&mut message, "Thu, 01 Jan 1970 00:00:00 GMT".to_string(), None);
    assert_eq!(
        fields(&message),
        vec![
            ("date".to_string(), "Thu, 01 Jan 1970 00:00:00 GMT".to_string()),
            ("server".to_string(), "Soyokaze".to_string()),
        ]
    );
}

#[test]
fn finalize_response_keeps_existing_fields() {
    let mut message = response(404, false);
    let mut headers = Headers::new();
    headers.append_lowercase("server", "Other".to_string());
    message.headers = Some(headers);
    finalize_response_at(&mut message, "D".to_string(), None);
    assert_eq!(
        fields(&message),
        vec![("server".to_string(), "Other".to_string()), ("date".to_string(), "D".to_string())]
    );
}

#[test]
fn finalize_response_strict_transport_security_when_secure() {
    let policy = HSTSPolicy { max_age: 31536000, include_subdomains: true, preload: false };
    let mut message = response(200, true);
    finalize_response_at(&mut message, "D".to_string(), Some(&policy));
    let fields = fields(&message);
    assert_eq!(fields.len(), 3);
    assert_eq!(fields[2], ("strict-transport-security".to_string(), "max-age=31536000; includeSubDomains".to_string()));

    let mut plain = response(200, false);
    finalize_response_at(&mut plain, "D".to_string(), Some(&policy));
    assert_eq!(plain.headers.as_ref().unwrap().fields.len(), 2);
}

#[test]
fn finalize_response_skips_interim_and_requests() {
    let mut interim = response(101, false);
    finalize_response_at(&mut interim, "D".to_string(), None);
    assert!(interim.headers.is_none());
    let mut req = request(Version::V1_1);
    finalize_response_at(&mut req, "D".to_string(), None);
    assert!(req.headers.is_none());
}

#[test]
fn finalize_response_twice_adds_nothing() {
    let mut message = response(200, false);
    finalize_response_at(&mut message, "A".to_string(), None);
    let once = fields(&message);
    finalize_response_at(&mut message, "B".to_string(), None);
    assert_eq!(fields(&message), once);
}

#[test]
fn finalize_response_uses_clock() {
    let mut cache = DateCache::new();
    let mut message = response(200, false);
    finalize_response(&mut message, &mut cache, None);
    let fields = fields(&message);
    assert_eq!(fields[0].0, "date");
    assert_eq!(fields[0].1.len(), 29);
    assert_eq!(fields[1], ("server".to_string(), "Soyokaze".to_string()));
}

#[test]
fn finalize_request_adds_host_on_http1() {
    let mut message = request(Version::V1_1);
    finalize_request(&mut message, "example.com:8080");
    assert_eq!(fields(&message), vec![("host".to_string(), "example.com:8080".to_string())]);
    finalize_request(&mut message, "other");
    assert_eq!(fields(&message).len(), 1);
}

#[test]
fn finalize_request_leaves_http2_alone() {
    let mut message = request(Version::V2_0);
    finalize_request(&mut message, "example.com");
    assert!(message.headers.is_none());
    let mut reply = response(200, false);
    finalize_request(&mut reply, "example.com");
    assert!(reply.headers.is_none());
}

#[test]
fn hsts_policy_value() {
    let policy = HSTSPolicy { max_age: 0, include_subdomains: false, preload: false };
    assert_eq!(policy.build(), "max-age=0");
    let policy = HSTSPolicy { max_age: 63072000, include_subdomains: true, preload: true };
    assert_eq!(policy.build(), "max-age=63072000; includeSubDomains; preload");
    let policy = HSTSPolicy { max_age: -5, include_subdomains: false, preload: true };
    assert_eq!(policy.build(), "max-age=-5; preload");
}

#[test]
fn consecutive_days_name_different_dates() {
    let mut previous = civil_from_days(-800);
    for day in -799..800 {
        let date = civil_from_days(day);
        assert!(date > previous);
        previous = date;
    }
}
