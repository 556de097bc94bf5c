//! The settings form: what an admin typed, and what saving it sets off.

use vstd::prelude::*;
use vstd::string::*;

use crate::mib::{mib_as_bytes, mib_bytes};
use crate::settings::{
    acceptable, domains_in, parse_domains, settings_fault, validation_is_exact, Settings,
    SettingsView,
};
use crate::text::{
    ascii_lower, join, joined, parse_i64, parse_u32, parse_u64, parse_usize, same, same_list,
    signed_number, texts, to_ascii_lowercase, trim, trimmed, unsigned_number,
};
use crate::tls::{CertInfo, CertSource};
use crate::web::forms::{err_location, ok_location, redirect_err, redirect_ok};

verus! {

/// Every field arrives as a text; unchecked checkboxes are simply absent.
#[derive(Debug, Clone)]
pub struct SettingsForm {
    pub hostname: String,
    pub smtp_addr: String,
    pub smtps_addr: String,
    pub https_addr: String,
    pub retention_secs: String,
    pub mailbox_cap: String,
    pub max_message_size: String,
    pub max_credentials_per_user: String,
    pub cookie_secure: Option<String>,
    pub registration_open: Option<String>,
    pub registrations_per_hour: String,
    pub acme_enabled: Option<String>,
    pub acme_directory: String,
    pub acme_contact_email: String,
    pub acme_domains: String,
    pub acme_http_addr: String,
    pub acme_tos_agreed: Option<String>,
    pub acme_renew_before_days: String,
}

/// The number from 0 to `max` that was typed.
pub open spec fn typed_number(raw: Seq<char>, max: int) -> Option<nat> {
    match unsigned_number(trimmed(raw)) {
        Some(n) if n <= max => Some(n),
        _ => None,
    }
}

/// The signed number that was typed.
pub open spec fn typed_signed(raw: Seq<char>) -> Option<int> {
    match signed_number(trimmed(raw)) {
        Some(n) if i64::MIN <= n <= i64::MAX => Some(n),
        _ => None,
    }
}

/// What is said of a field that holds no number.
pub open spec fn not_a_number(label: Seq<char>) -> Seq<char> {
    label + " must be a whole number"@
}

fn number_error(label: &str) -> (r: String)
    ensures
        r@ == not_a_number(label@),
{
    let mut out = label.to_string();
    out.append(" must be a whole number");
    out
}

fn parse_u64_field(label: &str, raw: &str) -> (r: Result<u64, String>)
    ensures
        match typed_number(raw@, u64::MAX as int) {
            Some(n) => r is Ok && r->Ok_0 == n,
            None => r is Err && r->Err_0@ == not_a_number(label@),
        },
{
    match parse_u64(trim(raw).as_str()) {
        Some(n) => Ok(n),
        None => Err(number_error(label)),
    }
}

fn parse_usize_field(label: &str, raw: &str) -> (r: Result<usize, String>)
    ensures
        match typed_number(raw@, usize::MAX as int) {
            Some(n) => r is Ok && r->Ok_0 == n,
            None => r is Err && r->Err_0@ == not_a_number(label@),
        },
{
    match parse_usize(trim(raw).as_str()) {
        Some(n) => Ok(n),
        None => Err(number_error(label)),
    }
}

fn parse_u32_field(label: &str, raw: &str) -> (r: Result<u32, String>)
    ensures
        match typed_number(raw@, u32::MAX as int) {
            Some(n) => r is Ok && r->Ok_0 == n,
            None => r is Err && r->Err_0@ == not_a_number(label@),
        },
{
    match parse_u32(trim(raw).as_str()) {
        Some(n) => Ok(n),
        None => Err(number_error(label)),
    }
}

fn parse_i64_field(label: &str, raw: &str) -> (r: Result<i64, String>)
    ensures
        match typed_signed(raw@) {
            Some(n) => r is Ok && r->Ok_0 == n,
            None => r is Err && r->Err_0@ == not_a_number(label@),
        },
{
    match parse_i64(trim(raw).as_str()) {
        Some(n) => Ok(n),
        None => Err(number_error(label)),
    }
}

pub const SIZE_ERROR: &'static str = "Max message size must be a number of mebibytes";

impl SettingsForm {
    /// What is wrong with the first field that cannot be read.
    pub open spec fn fault(&self) -> Option<Seq<char>> {
        if typed_number(self.retention_secs@, u64::MAX as int) is None {
            Some(not_a_number("Retention"@))
        } else if typed_number(self.mailbox_cap@, usize::MAX as int) is None {
            Some(not_a_number("Mailbox capacity"@))
        } else if mib_bytes(self.max_message_size@) is None {
            Some(SIZE_ERROR@)
        } else if typed_signed(self.max_credentials_per_user@) is None {
            Some(not_a_number("Credentials per user"@))
        } else if typed_number(self.registrations_per_hour@, u32::MAX as int) is None {
            Some(not_a_number("Registrations per hour"@))
        } else if typed_signed(self.acme_renew_before_days@) is None {
            Some(not_a_number("Renewal window"@))
        } else {
            None
        }
    }

    /// The settings that a form without a fault stands for.
    pub open spec fn settings(&self) -> SettingsView {
        SettingsView {
            hostname: ascii_lower(trimmed(self.hostname@)),
            smtp_addr: trimmed(self.smtp_addr@),
            smtps_addr: trimmed(self.smtps_addr@),
            https_addr: trimmed(self.https_addr@),
            retention_secs: typed_number(self.retention_secs@, u64::MAX as int)->0 as u64,
            mailbox_cap: typed_number(self.mailbox_cap@, usize::MAX as int)->0 as usize,
            max_message_size: mib_bytes(self.max_message_size@)->0,
            max_credentials_per_user: typed_signed(self.max_credentials_per_user@)->0 as i64,
            cookie_secure: self.cookie_secure is Some,
            registration_open: self.registration_open is Some,
            registrations_per_hour: typed_number(
                self.registrations_per_hour@,
                u32::MAX as int,
            )->0 as u32,
            acme_enabled: self.acme_enabled is Some,
            acme_directory: trimmed(self.acme_directory@),
            acme_contact_email: trimmed(self.acme_contact_email@),
            acme_domains: domains_in(self.acme_domains@),
            acme_http_addr: trimmed(self.acme_http_addr@),
            acme_tos_agreed: self.acme_tos_agreed is Some,
            acme_renew_before_days: typed_signed(self.acme_renew_before_days@)->0 as i64,
        }
    }

    /// The settings that the form stands for, or what is wrong with its first
    /// field that cannot be read.
    pub fn into_settings(self) -> (r: Result<Settings, String>)
        ensures
            match self.fault() {
                Some(e) => r is Err && r->Err_0@ == e,
                None => r is Ok && r->Ok_0@ == self.settings(),
            },
    {
        let retention_secs = match parse_u64_field("Retention", self.retention_secs.as_str()) {
            Ok(n) => n,
            Err(e) => return Err(e),
        };
        let mailbox_cap = match parse_usize_field("Mailbox capacity", self.mailbox_cap.as_str()) {
            Ok(n) => n,
            Err(e) => return Err(e),
        };
        // The form field is in MiB; everything else here works in bytes.
        let max_message_size = match mib_as_bytes(self.max_message_size.as_str()) {
            Some(n) => n,
            None => return Err(SIZE_ERROR.to_string()),
        };
        let max_credentials_per_user = match parse_i64_field(
            "Credentials per user",
            self.max_credentials_per_user.as_str(),
        ) {
            Ok(n) => n,
            Err(e) => return Err(e),
        };
        let registrations_per_hour = match parse_u32_field(
            "Registrations per hour",
            self.registrations_per_hour.as_str(),
        ) {
            Ok(n) => n,
            Err(e) => return Err(e),
        };
        let acme_renew_before_days = match parse_i64_field(
            "Renewal window",
            self.acme_renew_before_days.as_str(),
        ) {
            Ok(n) => n,
            Err(e) => return Err(e),
        };
        Ok(
            Settings {
                hostname: to_ascii_lowercase(trim(self.hostname.as_str()).as_str()),
                smtp_addr: trim(self.smtp_addr.as_str()),
                smtps_addr: trim(self.smtps_addr.as_str()),
                https_addr: trim(self.https_addr.as_str()),
                retention_secs,
                mailbox_cap,
                max_message_size,
                max_credentials_per_user,
                cookie_secure: self.cookie_secure.is_some(),
                registration_open: self.registration_open.is_some(),
                registrations_per_hour,
                acme_enabled: self.acme_enabled.is_some(),
                acme_directory: trim(self.acme_directory.as_str()),
                acme_contact_email: trim(self.acme_contact_email.as_str()),
                acme_domains: parse_domains(self.acme_domains.as_str()),
                acme_http_addr: trim(self.acme_http_addr.as_str()),
                acme_tos_agreed: self.acme_tos_agreed.is_some(),
                acme_renew_before_days,
            },
        )
    }
}

// ---- saving ----

pub const SETTINGS_PAGE: &'static str = "/admin/settings";

/// Where a form goes instead of being saved.
pub open spec fn save_refusal(form: SettingsForm, old: SettingsView) -> Option<Seq<char>> {
    match form.fault() {
        Some(e) => Some(err_location(SETTINGS_PAGE@, e)),
        None => match settings_fault(form.settings()) {
            Some(e) => Some(err_location(SETTINGS_PAGE@, e)),
            None => if old == form.settings() {
                Some(ok_location(SETTINGS_PAGE@, "No changes to save"@))
            } else {
                None
            },
        },
    }
}

/// The settings to save, or where the request goes instead.
pub fn settings_save(form: SettingsForm, old: &Settings) -> (r: Result<Settings, String>)
    ensures
        match save_refusal(form, old@) {
            Some(to) => r is Err && r->Err_0@ == to,
            None => r is Ok && r->Ok_0@ == form.settings(),
        },
{
    let new = match form.into_settings() {
        Ok(s) => s,
        Err(e) => return Err(redirect_err(SETTINGS_PAGE, e.as_str())),
    };
    if let Err(e) = new.validate() {
        return Err(redirect_err(SETTINGS_PAGE, e.as_str()));
    }
    if old.same_as(&new) {
        return Err(redirect_ok(SETTINGS_PAGE, "No changes to save"));
    }
    Ok(new)
}

/// Where the request goes if the settings could not be written.
pub fn save_failed() -> (r: String)
    ensures
        r@ == err_location(SETTINGS_PAGE@, "Could not write the settings to the database"@),
{
    redirect_err(SETTINGS_PAGE, "Could not write the settings to the database")
}

/// What changed settings set off.
#[derive(Debug, Clone, Copy, PartialEq, Eq, Structural)]
pub struct Consequences {
    /// The self-signed certificate has to name the new hostname. A real
    /// certificate is left alone.
    pub reissue: bool,
    /// A certificate is wanted at once: Let's Encrypt was switched on or
    /// retargeted.
    pub order: bool,
}

pub open spec fn consequences_of(
    old: SettingsView,
    new: SettingsView,
    self_signed: bool,
) -> Consequences {
    Consequences {
        reissue: self_signed && !new.acme_enabled && new.hostname != old.hostname,
        order: new.acme_enabled && (!old.acme_enabled || old.acme_domains != new.acme_domains
            || old.acme_directory != new.acme_directory),
    }
}

/// What changed settings set off, given the certificate in use.
pub fn consequences(old: &Settings, new: &Settings, cert: &Option<CertInfo>) -> (r: Consequences)
    ensures
        r == consequences_of(
            old@,
            new@,
            *cert is Some && cert->0.source == CertSource::SelfSigned,
        ),
{
    let self_signed = match cert {
        Some(info) => info.source == CertSource::SelfSigned,
        None => false,
    };
    Consequences {
        reissue: self_signed && !new.acme_enabled && !same(
            new.hostname.as_str(),
            old.hostname.as_str(),
        ),
        order: new.acme_enabled && (!old.acme_enabled || !same_list(
            &old.acme_domains,
            &new.acme_domains,
        ) || !same(old.acme_directory.as_str(), new.acme_directory.as_str())),
    }
}

/// What is said of a certificate that was to be reissued, if one was.
pub open spec fn reissue_notes(hostname: Seq<char>, reissued: Option<bool>) -> Seq<Seq<char>> {
    match reissued {
        Some(true) => seq!["reissued the self-signed certificate for "@ + hostname],
        Some(false) => seq!["could not reissue the self-signed certificate"@],
        None => seq![],
    }
}

/// What is said of settings that were saved.
pub open spec fn save_notes(
    hostname: Seq<char>,
    reissued: Option<bool>,
    ordered: bool,
) -> Seq<Seq<char>> {
    if ordered {
        reissue_notes(hostname, reissued).push(
            "requesting a certificate from the CA in the background"@,
        )
    } else {
        reissue_notes(hostname, reissued)
    }
}

/// Where the request goes once the settings are saved and applied.
pub open spec fn saved_location(
    hostname: Seq<char>,
    reissued: Option<bool>,
    ordered: bool,
    problems: Seq<Seq<char>>,
) -> Seq<char> {
    let notes = save_notes(hostname, reissued, ordered);
    if problems.len() > 0 {
        err_location(SETTINGS_PAGE@, "Saved, but: "@ + joined(problems, "; "@))
    } else if notes.len() == 0 {
        ok_location(SETTINGS_PAGE@, "Settings saved and applied"@)
    } else {
        ok_location(SETTINGS_PAGE@, "Settings saved - "@ + joined(notes, "; "@))
    }
}

/// Where the request goes once the settings are saved: `reissued` says whether a
/// certificate that was to be reissued was, `problems` what the listeners had to
/// say.
pub fn saved(new: &Settings, reissued: Option<bool>, ordered: bool, problems: &Vec<String>) -> (r:
    String)
    ensures
        r@ == saved_location(new@.hostname, reissued, ordered, texts(problems@)),
{
    let mut notes: Vec<String> = Vec::new();
    if let Some(done) = reissued {
        if done {
            let mut note = "reissued the self-signed certificate for ".to_string();
            note.append(new.hostname.as_str());
            notes.push(note);
        } else {
            notes.push("could not reissue the self-signed certificate".to_string());
        }
    }
    assert(texts(notes@) =~= reissue_notes(new@.hostname, reissued));
    if ordered {
        notes.push("requesting a certificate from the CA in the background".to_string());
    }
    assert(texts(notes@) =~= save_notes(new@.hostname, reissued, ordered));
    if problems.len() > 0 {
        let mut msg = "Saved, but: ".to_string();
        msg.append(join(problems, "; ").as_str());
        return redirect_err(SETTINGS_PAGE, msg.as_str());
    }
    if notes.len() == 0 {
        redirect_ok(SETTINGS_PAGE, "Settings saved and applied")
    } else {
        let mut msg = "Settings saved - ".to_string();
        msg.append(join(&notes, "; ").as_str());
        redirect_ok(SETTINGS_PAGE, msg.as_str())
    }
}

// ---- certificates ----

/// Where a request for a certificate order goes, and whether the order starts.
pub fn tls_renew(acme_enabled: bool) -> (r: (bool, String))
    ensures
        r.0 == acme_enabled,
        r.1@ == (if acme_enabled {
            ok_location(
                SETTINGS_PAGE@,
                "Certificate order started - reload this page to follow it"@,
            )
        } else {
            err_location(SETTINGS_PAGE@, "Enable Let's Encrypt first"@)
        }),
{
    if acme_enabled {
        (
            true,
            redirect_ok(
                SETTINGS_PAGE,
                "Certificate order started - reload this page to follow it",
            ),
        )
    } else {
        (false, redirect_err(SETTINGS_PAGE, "Enable Let's Encrypt first"))
    }
}

/// Where a request for a self-signed certificate goes, given how making it went.
pub fn tls_self_signed(made: bool) -> (r: String)
    ensures
        r@ == (if made {
            ok_location(SETTINGS_PAGE@, "Self-signed certificate regenerated"@)
        } else {
            err_location(SETTINGS_PAGE@, "Could not generate a self-signed certificate"@)
        }),
{
    if made {
        redirect_ok(SETTINGS_PAGE, "Self-signed certificate regenerated")
    } else {
        redirect_err(SETTINGS_PAGE, "Could not generate a self-signed certificate")
    }
}

/// Only settings that are acceptable and differ from those in force are saved.
pub proof fn what_is_saved_is_valid_and_new(form: SettingsForm, old: SettingsView)
    requires
        save_refusal(form, old) is None,
    ensures
        form.fault() is None,
        acceptable(form.settings()),
        form.settings() != old,
{
    validation_is_exact(form.settings());
}

} // verus!
