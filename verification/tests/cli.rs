//! The command line.

use smtpvoid::cli::{SetDomain, SetPassword};
use smtpvoid::settings::{Settings, LETSENCRYPT_STAGING};

fn args(list: &[&str]) -> Vec<String> {
    list.iter().map(|s| s.to_string()).collect()
}

fn parse(list: &[&str]) -> Result<SetDomain, String> {
    SetDomain::parse(&args(list))
}

#[test]
fn domains_are_normalised_and_may_repeat() {
    let r = parse(&["Mail.Example.Test.", "smtp.example.test"]).unwrap();
    assert_eq!(r.domains, vec!["mail.example.test", "smtp.example.test"]);
}

#[test]
fn a_domain_is_required() {
    assert!(SetDomain::parse(&[]).is_err());
    assert!(parse(&["--letsencrypt", "--agree-tos"]).is_err());
}

#[test]
fn letsencrypt_needs_the_terms_accepted() {
    assert!(parse(&["a.test", "--letsencrypt"]).is_err());
    assert!(parse(&["a.test", "--letsencrypt", "--agree-tos"]).is_ok());
}

#[test]
fn options_need_their_values() {
    assert!(parse(&["a.test", "--email"]).is_err());
    assert!(parse(&["a.test", "--https-addr"]).is_err());
    assert!(parse(&["a.test", "--nope"]).is_err());
}

#[test]
fn the_first_domain_becomes_the_hostname() {
    let s = parse(&["a.test", "b.test"]).unwrap().apply(&Settings::default());
    assert_eq!(s.hostname, "a.test");
    // ACME is untouched while it is off and unconfigured.
    assert!(!s.acme_enabled);
    assert!(s.acme_domains.is_empty());
    assert_eq!(s.retention_secs, Settings::default().retention_secs);
}

#[test]
fn letsencrypt_configures_every_domain_field_at_once() {
    let s = parse(&[
        "a.test",
        "b.test",
        "--letsencrypt",
        "--agree-tos",
        "--staging",
        "--email",
        " ops@example.test ",
    ])
    .unwrap()
    .apply(&Settings::default());

    assert_eq!(s.hostname, "a.test");
    assert_eq!(s.acme_domains, vec!["a.test", "b.test"]);
    assert!(s.acme_enabled && s.acme_tos_agreed);
    assert_eq!(s.acme_directory, LETSENCRYPT_STAGING);
    assert_eq!(s.acme_contact_email, "ops@example.test");
    assert!(s.validate().is_ok());
}

#[test]
fn an_existing_acme_setup_follows_the_new_domain() {
    let old = Settings {
        acme_enabled: true,
        acme_tos_agreed: true,
        acme_domains: vec!["old.test".into()],
        ..Default::default()
    };
    let s = parse(&["new.test"]).unwrap().apply(&old);
    assert_eq!(s.acme_domains, vec!["new.test"]);
    assert_eq!(s.acme_directory, old.acme_directory);
}

#[test]
fn https_can_be_turned_on_and_off() {
    let on = parse(&["a.test", "--https-addr", "0.0.0.0:443"])
        .unwrap()
        .apply(&Settings::default());
    assert_eq!(on.https_addr, "0.0.0.0:443");
    let off = parse(&["a.test", "--https-addr", ""]).unwrap().apply(&on);
    assert_eq!(off.https_addr, "");
}

fn parse_pw(list: &[&str]) -> Result<SetPassword, String> {
    SetPassword::parse(&args(list))
}

#[test]
fn set_password_takes_a_username_and_an_admin_flag() {
    let r = parse_pw(&["--admin", "operator"]).unwrap();
    assert_eq!(r, SetPassword { username: "operator".into(), admin: true });
    let r = parse_pw(&["operator"]).unwrap();
    assert_eq!(r, SetPassword { username: "operator".into(), admin: false });
}

#[test]
fn set_password_rejects_no_username_and_two_usernames() {
    assert!(parse_pw(&[]).is_err());
    assert!(parse_pw(&["--admin"]).is_err());
    assert!(parse_pw(&["one", "two"]).is_err());
    assert!(parse_pw(&["--nope", "one"]).is_err());
}
