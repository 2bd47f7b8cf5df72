use soyokaze::errors::Error;
use soyokaze::models::Version;
use soyokaze::tls::{alpn, alpn_wire, negotiated, select_alpn, tls_error, EchConfigList, EchKeys, Identity, ECH_VERSION};

#[test]
fn alpn_names() {
    assert_eq!(alpn(&[Version::V1_1, Version::V2_0]), vec![b"http/1.1".to_vec(), b"h2".to_vec()]);
    assert_eq!(alpn(&[Version::V3_0, Version::V1_0]), vec![b"h3".to_vec(), b"http/1.0".to_vec()]);
}

#[test]
fn alpn_wire_prefixes_lengths() {
    let mut expected = vec![2u8];
    expected.extend_from_slice(b"h2");
    expected.push(8);
    expected.extend_from_slice(b"http/1.1");
    assert_eq!(alpn_wire(&[Version::V2_0, Version::V1_1]), expected);
    assert!(alpn_wire(&[]).is_empty());
}

#[test]
fn select_alpn_prefers_server_order() {
    let client = alpn_wire(&[Version::V1_1, Version::V2_0]);
    let offered = alpn(&[Version::V2_0, Version::V1_1]);
    assert_eq!(select_alpn(&offered, &client), Some(&b"h2"[..]));
    let only_h3 = alpn(&[Version::V3_0]);
    assert_eq!(select_alpn(&only_h3, &client), None);
    let truncated = [5u8, b'h', b'2'];
    assert_eq!(select_alpn(&alpn(&[Version::V2_0]), &truncated), None);
}

#[test]
fn negotiated_outcomes() {
    assert_eq!(negotiated(Some(b"h2"), &[Version::V1_1, Version::V2_0]), Ok(Version::V2_0));
    assert_eq!(negotiated(None, &[Version::V2_0, Version::V1_0, Version::V1_1]), Ok(Version::V1_0));
    assert_eq!(negotiated(None, &[Version::V2_0]), Err(Error::Version("the peer selected no protocol".to_string())));
    assert_eq!(negotiated(Some(b"h3"), &[Version::V2_0]), Err(Error::Version("the peer selected \"h3\"".to_string())));
    assert_eq!(negotiated(Some(b"spdy"), &[Version::V2_0]), Err(Error::Version("the peer selected \"spdy\"".to_string())));
}

#[test]
fn tls_error_wraps() {
    assert_eq!(tls_error("no certificate"), Error::Tls("no certificate".to_string()));
}

#[test]
fn identity_keeps_parts() {
    let identity = Identity::new(vec![vec![1, 2], vec![3]], vec![9]);
    assert_eq!(identity.certificates, vec![vec![1, 2], vec![3]]);
    assert_eq!(identity.key, vec![9]);
}

#[test]
fn ech_config_encodes_and_parses() {
    let key = [7u8; 32];
    let config = EchKeys::encode("public.example", 3, &key);
    assert_eq!(&config[..2], &ECH_VERSION.to_be_bytes());
    let keys = EchKeys { config: config.clone(), private_key: vec![1; 32] };
    let list = keys.config_list();
    assert_eq!(&list[..2], &(config.len() as u16).to_be_bytes());
    let parsed = EchConfigList::parse(&list).unwrap();
    assert_eq!(parsed.configs.len(), 1);
    assert_eq!(parsed.configs[0].version, ECH_VERSION);
    assert_eq!(parsed.configs[0].public_name, "public.example");
    assert_eq!(parsed.configs[0].maximum_name_length, 64);
}

#[test]
fn ech_config_list_errors() {
    assert_eq!(EchConfigList::parse(&[0]).err(), Some(Error::Tls("ECHConfigList is too short".to_string())));
    assert_eq!(EchConfigList::parse(&[0, 5, 1]).err(), Some(Error::Tls("ECHConfigList length does not match its contents".to_string())));
    assert_eq!(EchConfigList::parse(&[0, 4, 0xfe, 0x0d, 0, 9]).err(), Some(Error::Tls("an ECHConfig runs past the list".to_string())));
    assert_eq!(EchConfigList::parse(&[0, 4, 0xfe, 0x0a, 0, 0]).err(), Some(Error::Tls("ECHConfigList carries no supported ECHConfig".to_string())));
    assert_eq!(EchConfigList::contents(&[1, 2, 3]).err(), Some(Error::Tls("ECHConfig is too short".to_string())));
}

#[test]
fn negotiated_renders_invalid_octets() {
    assert_eq!(
        negotiated(Some(&[0xff, b'h']), &[Version::V2_0]),
        Err(Error::Version("the peer selected \"\u{fffd}h\"".to_string()))
    );
    assert_eq!(
        negotiated(Some(b"a\"b"), &[Version::V2_0]),
        Err(Error::Version("the peer selected \"a\\\"b\"".to_string()))
    );
}

#[test]
fn selected_protocol_negotiates() {
    let versions = [Version::V3_0, Version::V2_0, Version::V1_1];
    let client = alpn_wire(&[Version::V1_1, Version::V2_0]);
    let chosen = select_alpn(&alpn(&versions), &client);
    assert_eq!(chosen, Some(&b"h2"[..]));
    assert_eq!(negotiated(chosen, &versions), Ok(Version::V2_0));
}
