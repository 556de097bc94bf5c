//! The settings, their rows and their rules.

use std::collections::HashMap;

use smtpvoid::settings::{bytes_as_mib, mib_as_bytes, parse_domains, Settings};

#[test]
fn defaults_round_trip_through_pairs() {
    let d = Settings::default();
    let map: HashMap<String, String> = d
        .to_pairs()
        .into_iter()
        .map(|(k, v)| (k.to_string(), v))
        .collect();
    assert_eq!(Settings::from_pairs(&map), d);
}

#[test]
fn missing_keys_fall_back_to_defaults() {
    let map = HashMap::from([("hostname".to_string(), "mail.example.test".to_string())]);
    let s = Settings::from_pairs(&map);
    assert_eq!(s.hostname, "mail.example.test");
    assert_eq!(s.retention_secs, Settings::default().retention_secs);
}

#[test]
fn garbage_numbers_fall_back_instead_of_panicking() {
    let map = HashMap::from([("retention_secs".to_string(), "not-a-number".to_string())]);
    assert_eq!(
        Settings::from_pairs(&map).retention_secs,
        Settings::default().retention_secs
    );
}

#[test]
fn domain_lists_are_normalised() {
    assert_eq!(
        parse_domains(" Mail.Example.test., ,smtp.example.test\nother.test "),
        vec!["mail.example.test", "smtp.example.test", "other.test"]
    );
}

#[test]
fn defaults_validate() {
    assert!(Settings::default().validate().is_ok());
}

#[test]
fn listeners_may_not_collide() {
    let mut s = Settings::default();
    s.smtps_addr = s.smtp_addr.clone();
    assert!(s.validate().is_err());
}

#[test]
fn acme_requires_domains_and_tos() {
    let mut s = Settings { acme_enabled: true, ..Default::default() };
    assert!(s.validate().is_err(), "no domains");
    s.acme_domains = vec!["mail.example.test".into()];
    assert!(s.validate().is_err(), "terms not agreed");
    s.acme_tos_agreed = true;
    assert!(s.validate().is_ok());
}

#[test]
fn message_size_round_trips_through_the_mib_field() {
    for bytes in [1024_usize, 1_048_576, 1_572_864, 1_000_000, 256 * 1024 * 1024] {
        let shown = bytes_as_mib(bytes);
        assert_eq!(mib_as_bytes(&shown), Some(bytes), "{bytes} shown as {shown}");
    }
    assert_eq!(bytes_as_mib(1_048_576), "1");
    assert_eq!(bytes_as_mib(1_572_864), "1.5");
    assert_eq!(mib_as_bytes(" 2 "), Some(2 * 1024 * 1024));
    assert_eq!(mib_as_bytes("half a meg"), None);
    assert_eq!(mib_as_bytes("-1"), None);
}

#[test]
fn endpoint_pairs_the_hostname_with_the_listener_port() {
    let s = Settings {
        hostname: "mail.example.com".into(),
        smtp_addr: "0.0.0.0:587".into(),
        smtps_addr: "[::]:465".into(),
        ..Default::default()
    };
    assert_eq!(s.endpoint(&s.smtp_addr), "mail.example.com:587");
    assert_eq!(s.endpoint(&s.smtps_addr), "mail.example.com:465");
    // Nothing usable to append: better a bare hostname than "host:".
    assert_eq!(s.endpoint(""), "mail.example.com");
    assert_eq!(s.endpoint("0.0.0.0:0"), "mail.example.com");
}

#[test]
fn empty_https_addr_is_allowed_but_empty_smtp_is_not() {
    let mut s = Settings { https_addr: String::new(), ..Default::default() };
    assert!(s.validate().is_ok());
    s.smtp_addr = String::new();
    assert!(s.validate().is_err());
}
