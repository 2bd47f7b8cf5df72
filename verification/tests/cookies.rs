use soyokaze::cookies::{Cookie, CookieJar, CookieLimits, SameSite, SetCookie, StoredCookie};
use soyokaze::errors::Error;
use soyokaze::models::Url;

const SECOND: u64 = 1_000_000_000;

fn url(scheme: &str, host: &str, target: &str) -> Url {
    let port = if scheme == "https" { 443 } else { 80 };
    Url { scheme: scheme.to_string(), host: host.to_string(), port, target: target.to_string() }
}

#[test]
fn samesite_round_trip() {
    assert_eq!(SameSite::parse("STRICT"), Some(SameSite::Strict));
    assert_eq!(SameSite::parse("lax"), Some(SameSite::Lax));
    assert_eq!(SameSite::parse("None"), Some(SameSite::Unrestricted));
    assert_eq!(SameSite::parse("sometimes"), None);
    assert_eq!(SameSite::Unrestricted.as_str(), "None");
    assert_eq!(SameSite::Strict.as_str(), "Strict");
}

#[test]
fn cookie_parse_skips_and_unquotes() {
    let cookie = Cookie::parse("a=1; b=\"2\"; =3; c; a=4;  d = x y ");
    assert_eq!(
        cookie.pairs,
        vec![("a".to_string(), "1".to_string()), ("b".to_string(), "2".to_string()), ("d".to_string(), "x y".to_string())]
    );
    assert_eq!(cookie.get("a"), Some("1"));
    assert_eq!(cookie.get("c"), None);
    assert_eq!(cookie.build(), "a=1; b=2; d=x y");
}

#[test]
fn cookie_new_is_empty() {
    let cookie = Cookie::new();
    assert!(cookie.pairs.is_empty());
    assert_eq!(cookie.build(), "");
    assert!(Cookie::is_separator(b'='));
    assert!(!Cookie::is_separator(b'x'));
}

#[test]
fn set_cookie_parse_attributes() {
    let cookie = SetCookie::parse("id=abc; Max-Age=60; Path=/; Secure; HttpOnly; SameSite=Lax; Domain=.Example.com; Expires=Wed, 21 Oct 2015 07:28:00 GMT").unwrap();
    assert_eq!(cookie.name, "id");
    assert_eq!(cookie.value, "abc");
    assert_eq!(cookie.max_age, Some(60));
    assert_eq!(cookie.path.as_deref(), Some("/"));
    assert!(cookie.secure && cookie.httponly);
    assert_eq!(cookie.samesite, Some(SameSite::Lax));
    assert_eq!(cookie.domain.as_deref(), Some(".Example.com"));
    assert_eq!(cookie.expires.as_deref(), Some("Wed, 21 Oct 2015 07:28:00 GMT"));
}

#[test]
fn set_cookie_parse_without_pair_fails() {
    assert_eq!(SetCookie::parse("novalue; Secure"), Err(Error::Protocol("Set-Cookie has no name=value pair".to_string())));
}

#[test]
fn set_cookie_age_shapes() {
    assert_eq!(SetCookie::age("60"), Some(60));
    assert_eq!(SetCookie::age("-5"), Some(-5));
    assert_eq!(SetCookie::age("99999999999999999999"), Some(i64::MAX));
    assert_eq!(SetCookie::age("-99999999999999999999"), Some(-i64::MAX));
    assert_eq!(SetCookie::age(""), None);
    assert_eq!(SetCookie::age("-"), None);
    assert_eq!(SetCookie::age("1a"), None);
    assert_eq!(SetCookie::age("+1"), None);
}

#[test]
fn set_cookie_build_renders_attributes() {
    let mut cookie = SetCookie::new("id".to_string(), "abc".to_string());
    cookie.max_age = Some(60);
    cookie.path = Some("/".to_string());
    cookie.secure = true;
    cookie.httponly = true;
    cookie.samesite = Some(SameSite::Unrestricted);
    assert_eq!(cookie.build(), Ok("id=abc; Max-Age=60; Path=/; Secure; HttpOnly; SameSite=None".to_string()));
    cookie.expires = Some("never".to_string());
    cookie.domain = Some("example.com".to_string());
    cookie.max_age = Some(-1);
    assert_eq!(
        cookie.build(),
        Ok("id=abc; Expires=never; Max-Age=-1; Domain=example.com; Path=/; Secure; HttpOnly; SameSite=None".to_string())
    );
}

#[test]
fn set_cookie_build_refuses_bad_name_and_value() {
    let cookie = SetCookie::new("a b".to_string(), "v".to_string());
    assert_eq!(cookie.build(), Err(Error::Protocol("cookie name \"a b\" is not a token".to_string())));
    let cookie = SetCookie::new(String::new(), "v".to_string());
    assert_eq!(cookie.build(), Err(Error::Protocol("cookie name \"\" is not a token".to_string())));
    let cookie = SetCookie::new("id".to_string(), "a;b".to_string());
    assert_eq!(cookie.build(), Err(Error::Protocol("cookie value of \"id\" carries a forbidden octet".to_string())));
}

#[test]
fn set_cookie_round_trip() {
    let mut cookie = SetCookie::new("token".to_string(), "xyz".to_string());
    cookie.domain = Some("example.com".to_string());
    cookie.samesite = Some(SameSite::Strict);
    let text = cookie.build().unwrap();
    assert_eq!(SetCookie::parse(&text), Ok(cookie));
}

#[test]
fn stored_cookie_paths() {
    assert!(StoredCookie::path_matches("/docs", "/docs"));
    assert!(StoredCookie::path_matches("/docs/web?x=1", "/docs"));
    assert!(StoredCookie::path_matches("/docs/web", "/docs/"));
    assert!(!StoredCookie::path_matches("/documents", "/docs"));
    assert_eq!(StoredCookie::default_path("/docs/web"), "/docs");
    assert_eq!(StoredCookie::default_path("/"), "/");
    assert_eq!(StoredCookie::default_path("docs"), "/");
}

#[test]
fn stored_cookie_matches_domain_and_transport() {
    let stored = StoredCookie {
        name: "id".to_string(),
        value: "1".to_string(),
        domain: "example.com".to_string(),
        host_only: false,
        path: "/".to_string(),
        secure: true,
        expires: Some(10 * SECOND),
    };
    assert!(stored.matches(&url("https", "www.Example.com", "/a"), 0));
    assert!(!stored.matches(&url("http", "example.com", "/a"), 0));
    assert!(!stored.matches(&url("https", "badexample.com", "/a"), 0));
    assert!(!stored.matches(&url("https", "example.com", "/a"), 10 * SECOND));
}

#[test]
fn jar_learns_and_sends() {
    let mut jar = CookieJar::new();
    let site = url("https", "example.com", "/docs/page");
    jar.learn(&site, &["id=1", "lang=en; Path=/", "bad"], 0);
    assert_eq!(jar.entries.len(), 2);
    assert_eq!(jar.cookie(&site, 0), Some("id=1; lang=en".to_string()));
    assert_eq!(jar.cookie(&url("https", "example.com", "/other"), 0), Some("lang=en".to_string()));
    assert_eq!(jar.cookie(&url("https", "other.com", "/"), 0), None);
}

#[test]
fn jar_replaces_and_deletes() {
    let mut jar = CookieJar::new();
    let site = url("http", "example.com", "/");
    jar.learn(&site, &["id=1", "id=2"], 0);
    assert_eq!(jar.cookie(&site, 0), Some("id=2".to_string()));
    jar.learn(&site, &["id=3; Max-Age=0"], 0);
    assert_eq!(jar.cookie(&site, 0), None);
    assert!(jar.entries.is_empty());
}

#[test]
fn jar_expires_and_prunes() {
    let mut jar = CookieJar::new();
    let site = url("http", "example.com", "/");
    jar.learn(&site, &["id=1; Max-Age=5", "keep=1"], 0);
    assert_eq!(jar.cookie(&site, 4 * SECOND), Some("id=1; keep=1".to_string()));
    assert_eq!(jar.cookie(&site, 5 * SECOND), Some("keep=1".to_string()));
    jar.prune(5 * SECOND);
    assert_eq!(jar.entries.len(), 1);
}

#[test]
fn jar_evicts_oldest_per_domain() {
    let mut jar = CookieJar::new().with_limits(CookieLimits { max_cookies: 10, max_cookies_per_domain: 2 });
    let site = url("http", "example.com", "/");
    jar.learn(&site, &["a=1", "b=2", "c=3"], 0);
    assert_eq!(jar.cookie(&site, 0), Some("b=2; c=3".to_string()));
}

#[test]
fn jar_evicts_oldest_overall() {
    let mut jar = CookieJar::new().with_limits(CookieLimits { max_cookies: 2, max_cookies_per_domain: 10 });
    jar.learn(&url("http", "a.com", "/"), &["x=1"], 0);
    jar.learn(&url("http", "b.com", "/"), &["y=1"], 0);
    jar.learn(&url("http", "c.com", "/"), &["z=1"], 0);
    assert_eq!(jar.entries.len(), 2);
    assert_eq!(jar.entries[0].domain, "b.com");
    assert_eq!(jar.entries[1].domain, "c.com");
}

#[test]
fn cookie_limits_default() {
    let limits = CookieLimits::default();
    assert_eq!((limits.max_cookies, limits.max_cookies_per_domain), (3000, 50));
}

#[test]
fn cookie_round_trip() {
    let cookie = Cookie {
        pairs: vec![
            ("session".to_string(), "abc=def".to_string()),
            ("theme".to_string(), "dark mode".to_string()),
            ("empty".to_string(), String::new()),
        ],
    };
    assert_eq!(Cookie::parse(&cookie.build()), cookie);
}

#[test]
fn set_cookie_round_trip_every_attribute() {
    let cookie = SetCookie {
        name: "id".to_string(),
        value: "a1".to_string(),
        expires: Some("Wed, 21 Oct 2015 07:28:00 GMT".to_string()),
        max_age: Some(-30),
        domain: Some("example.com".to_string()),
        path: Some("/a=b".to_string()),
        secure: true,
        httponly: true,
        samesite: Some(SameSite::Lax),
    };
    assert_eq!(SetCookie::parse(&cookie.build().unwrap()), Ok(cookie));
    let mut saturated = SetCookie::new("id".to_string(), "v".to_string());
    saturated.max_age = Some(i64::MIN);
    assert_eq!(SetCookie::parse(&saturated.build().unwrap()).unwrap().max_age, Some(-i64::MAX));
}
