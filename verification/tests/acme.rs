//! When certificates are renewed and ordered.

use smtpvoid::acme::{
    certificate_still_good, issue_allowed, renew_threshold_secs, retry_delay, same_identifiers,
    CHECK_INTERVAL, ISSUE_WINDOW_CAP, RETRY_MIN,
};
use smtpvoid::settings::{Settings, LETSENCRYPT_PRODUCTION, LETSENCRYPT_STAGING};
use smtpvoid::tls::{CertInfo, CertSource};

const DAY: i64 = 86_400;

fn cert(source: CertSource, names: &[&str], issued_ago: i64, lifetime: i64) -> CertInfo {
    let now = 1_700_000_000;
    CertInfo {
        source,
        issuer: "test".into(),
        names: names.iter().map(|n| n.to_string()).collect(),
        not_before: now - issued_ago,
        not_after: now - issued_ago + lifetime,
    }
}

fn settings(directory: &str, domains: &[&str], renew_days: i64) -> Settings {
    Settings {
        acme_enabled: true,
        acme_directory: directory.to_string(),
        acme_domains: domains.iter().map(|d| d.to_string()).collect(),
        acme_renew_before_days: renew_days,
        ..Default::default()
    }
}

#[test]
fn a_fresh_production_certificate_is_left_alone() {
    let s = settings(LETSENCRYPT_PRODUCTION, &["mail.test"], 30);
    let info = cert(CertSource::Acme, &["mail.test"], DAY, 90 * DAY);
    assert!(certificate_still_good(&info, &s, 1_700_000_000));
}

#[test]
fn a_certificate_inside_its_renewal_window_is_replaced() {
    let s = settings(LETSENCRYPT_PRODUCTION, &["mail.test"], 30);
    let info = cert(CertSource::Acme, &["mail.test"], 65 * DAY, 90 * DAY);
    assert!(!certificate_still_good(&info, &s, 1_700_000_000));
}

#[test]
fn a_short_lived_certificate_does_not_sit_in_its_own_window() {
    // Six days of life against a thirty-day window: without the cap this
    // is renewed on every check, which is what burned the rate limit.
    let s = settings(LETSENCRYPT_PRODUCTION, &["mail.test"], 30);
    let fresh = cert(CertSource::Acme, &["mail.test"], 3600, 6 * DAY);
    assert!(certificate_still_good(&fresh, &s, 1_700_000_000));
    assert_eq!(renew_threshold_secs(&fresh, 30), 2 * DAY);
    let old = cert(CertSource::Acme, &["mail.test"], 5 * DAY, 6 * DAY);
    assert!(!certificate_still_good(&old, &s, 1_700_000_000));
}

#[test]
fn a_staging_certificate_does_not_satisfy_production() {
    let prod = settings(LETSENCRYPT_PRODUCTION, &["mail.test"], 30);
    let staging_cert = cert(CertSource::AcmeStaging, &["mail.test"], DAY, 90 * DAY);
    assert!(!certificate_still_good(&staging_cert, &prod, 1_700_000_000));

    let staging = settings(LETSENCRYPT_STAGING, &["mail.test"], 30);
    assert!(certificate_still_good(&staging_cert, &staging, 1_700_000_000));
    // ...and the other way round: a production certificate while testing.
    let prod_cert = cert(CertSource::Acme, &["mail.test"], DAY, 90 * DAY);
    assert!(!certificate_still_good(&prod_cert, &staging, 1_700_000_000));
}

#[test]
fn a_missing_domain_forces_a_new_certificate() {
    let s = settings(LETSENCRYPT_PRODUCTION, &["mail.test", "smtp.test"], 30);
    let info = cert(CertSource::Acme, &["mail.test"], DAY, 90 * DAY);
    assert!(!certificate_still_good(&info, &s, 1_700_000_000));
}

#[test]
fn ordering_waits_after_a_recent_issuance() {
    let now = 1_700_000_000;
    let recent = [now - 3 * 3600];
    assert!(issue_allowed(&recent, now, false, ISSUE_WINDOW_CAP).is_err());
    // The admin UI may cut the wait short, but not below an hour.
    assert!(issue_allowed(&recent, now, true, ISSUE_WINDOW_CAP).is_ok());
    assert!(issue_allowed(&[now - 60], now, true, ISSUE_WINDOW_CAP).is_err());
    assert!(issue_allowed(&[now - 2 * DAY], now, false, ISSUE_WINDOW_CAP).is_ok());
    assert!(issue_allowed(&[], now, false, ISSUE_WINDOW_CAP).is_ok());
}

#[test]
fn the_weekly_cap_stops_short_of_the_ca_limit() {
    let now = 1_700_000_000;
    let four: Vec<i64> = (1..=4).map(|d| now - d * DAY).rev().collect();
    let err = issue_allowed(&four, now, true, ISSUE_WINDOW_CAP).unwrap_err();
    assert!(err.contains("five per week"), "{err}");
    // Staging has no meaningful limit, so nothing is withheld there.
    assert!(issue_allowed(&four, now, false, usize::MAX).is_ok());
    // One order aged out of the window: room again.
    let three: Vec<i64> = (1..=3).map(|d| now - d * DAY).rev().collect();
    assert!(issue_allowed(&three, now, true, ISSUE_WINDOW_CAP).is_ok());
}

#[test]
fn identifier_sets_ignore_order_and_case() {
    let a = ["Mail.Test".to_string(), "smtp.test".to_string()];
    let b = ["smtp.test".to_string(), "mail.test".to_string()];
    assert!(same_identifiers(&a, &b));
    assert!(!same_identifiers(&a, &["mail.test".to_string()]));
}

#[test]
fn failures_back_off_up_to_the_check_interval() {
    assert_eq!(retry_delay(1), RETRY_MIN);
    assert_eq!(retry_delay(2), 30 * 60);
    assert_eq!(retry_delay(4), 2 * 3600);
    assert_eq!(retry_delay(9), 4 * 3600);
    assert!(retry_delay(50) <= CHECK_INTERVAL);
}
