//! The settings page: the form, the listeners, and the certificate.

use vstd::prelude::*;
use vstd::string::*;

use crate::acme::{AcmeStatus, AcmeStatusView};
use crate::config::{fmt_ts, time_text, Config};
use crate::listeners::{active_texts, Kind};
use crate::mib::{bytes_as_mib, mib_text};
use crate::mib_laws::an_unedited_size_comes_back;
use crate::settings::{is_clean_domain, joined_domains_read_back, Settings, SettingsView};
use crate::text::{
    all_digits, ascii_lower, decimal, decimal_reads_back, is_digit, is_white, join, joined,
    opt_text, show_i64, show_u64, show_usize, signed_decimal, signed_decimal_reads_back, texts,
    trimmed,
};
use crate::tls::{CertInfo, CertSource};
use crate::web::html::{esc, escaped};
use crate::web::settings_form::SettingsForm;

verus! {

// ---- the form ----

/// `acc` with an input field behind it.
pub open spec fn text_field(acc: Seq<char>, label: Seq<char>, name: Seq<char>, value: Seq<char>) -> Seq<char> {
    acc
        + "<label>"@
        + label
        + r#"</label><input type="text" name=""#@
        + name
        + r#"" value=""#@
        + escaped(value)
        + r#"">
"#@
}

fn add_text_field(out: &mut String, label: &str, name: &str, value: &str)
    ensures
        final(out)@ == text_field(old(out)@, label@, name@, value@),
{
    out.append("<label>");
    out.append(label);
    out.append(r#"</label><input type="text" name=""#);
    out.append(name);
    out.append(r#"" value=""#);
    out.append(esc(value).as_str());
    out.append(r#"">
"#);
}

pub open spec fn checked_text(on: bool) -> Seq<char> {
    if on {
        " checked"@
    } else {
        ""@
    }
}

/// `acc` with a checkbox behind it.
pub open spec fn switch_field(acc: Seq<char>, label: Seq<char>, name: Seq<char>, on: bool) -> Seq<char> {
    acc
        + r#"<label><input type="checkbox" name=""#@
        + name
        + r#"" value="1""#@
        + checked_text(on)
        + "> "@
        + label
        + r#"</label>
"#@
}

fn add_switch_field(out: &mut String, label: &str, name: &str, on: bool)
    ensures
        final(out)@ == switch_field(old(out)@, label@, name@, on),
{
    out.append(r#"<label><input type="checkbox" name=""#);
    out.append(name);
    out.append(r#"" value="1""#);
    out.append(if on {
        " checked"
    } else {
        ""
    });
    out.append("> ");
    out.append(label);
    out.append(r#"</label>
"#);
}

/// The fields on the server itself.
pub open spec fn server_fields(acc: Seq<char>, s: SettingsView) -> Seq<char> {
    let f1 = text_field(acc, "SMTP hostname"@, "hostname"@, s.hostname);
    let f2 = text_field(f1, "SMTP address"@, "smtp_addr"@, s.smtp_addr);
    let f3 = text_field(f2, "SMTPS address"@, "smtps_addr"@, s.smtps_addr);
    let f4 = text_field(f3, "HTTPS web UI address (empty disables it)"@, "https_addr"@, s.https_addr);
    let f5 = text_field(f4, "Retention (seconds)"@, "retention_secs"@, decimal(s.retention_secs as nat));
    let f6 = text_field(f5, "Messages per mailbox"@, "mailbox_cap"@, decimal(s.mailbox_cap as nat));
    let f7 = text_field(f6, "Max message size (MiB)"@, "max_message_size"@, mib_text(s.max_message_size));
    let f8 = text_field(f7, "SMTP credentials per user"@, "max_credentials_per_user"@, signed_decimal(s.max_credentials_per_user as int));
    let f9 = switch_field(f8, "Session cookie Secure"@, "cookie_secure"@, s.cookie_secure);
    let f10 = switch_field(f9, "Open registration"@, "registration_open"@, s.registration_open);
    text_field(f10, "Registrations per IP per hour"@, "registrations_per_hour"@, decimal(s.registrations_per_hour as nat))
}

fn add_server_fields(out: &mut String, s: &Settings)
    ensures
        final(out)@ == server_fields(old(out)@, s@),
{
    add_text_field(out, "SMTP hostname", "hostname", s.hostname.as_str());
    add_text_field(out, "SMTP address", "smtp_addr", s.smtp_addr.as_str());
    add_text_field(out, "SMTPS address", "smtps_addr", s.smtps_addr.as_str());
    add_text_field(out, "HTTPS web UI address (empty disables it)", "https_addr", s.https_addr.as_str());
    add_text_field(out, "Retention (seconds)", "retention_secs", show_u64(s.retention_secs).as_str());
    add_text_field(out, "Messages per mailbox", "mailbox_cap", show_usize(s.mailbox_cap).as_str());
    add_text_field(out, "Max message size (MiB)", "max_message_size", bytes_as_mib(s.max_message_size).as_str());
    add_text_field(out, "SMTP credentials per user", "max_credentials_per_user", show_i64(s.max_credentials_per_user).as_str());
    add_switch_field(out, "Session cookie Secure", "cookie_secure", s.cookie_secure);
    add_switch_field(out, "Open registration", "registration_open", s.registration_open);
    add_text_field(out, "Registrations per IP per hour", "registrations_per_hour", show_u64(s.registrations_per_hour as u64).as_str());
}

/// The fields on Let's Encrypt.
pub open spec fn acme_fields(acc: Seq<char>, s: SettingsView) -> Seq<char> {
    let f1 = switch_field(acc, "Use Let's Encrypt"@, "acme_enabled"@, s.acme_enabled);
    let f2 = text_field(f1, "ACME directory"@, "acme_directory"@, s.acme_directory);
    let f3 = text_field(f2, "Contact email"@, "acme_contact_email"@, s.acme_contact_email);
    let f4 = text_field(f3, "Domains"@, "acme_domains"@, joined(s.acme_domains, ","@));
    let f5 = text_field(f4, "Challenge address"@, "acme_http_addr"@, s.acme_http_addr);
    let f6 = switch_field(f5, "I agree to the CA's terms of service"@, "acme_tos_agreed"@, s.acme_tos_agreed);
    text_field(f6, "Renew when fewer days are left than"@, "acme_renew_before_days"@, signed_decimal(s.acme_renew_before_days as int))
}

fn add_acme_fields(out: &mut String, s: &Settings)
    ensures
        final(out)@ == acme_fields(old(out)@, s@),
{
    add_switch_field(out, "Use Let's Encrypt", "acme_enabled", s.acme_enabled);
    add_text_field(out, "ACME directory", "acme_directory", s.acme_directory.as_str());
    add_text_field(out, "Contact email", "acme_contact_email", s.acme_contact_email.as_str());
    add_text_field(out, "Domains", "acme_domains", join(&s.acme_domains, ",").as_str());
    add_text_field(out, "Challenge address", "acme_http_addr", s.acme_http_addr.as_str());
    add_switch_field(out, "I agree to the CA's terms of service", "acme_tos_agreed", s.acme_tos_agreed);
    add_text_field(out, "Renew when fewer days are left than", "acme_renew_before_days", show_i64(s.acme_renew_before_days).as_str());
}

// ---- the listeners ----

/// `acc` with a listener behind it.
pub open spec fn listener_row(acc: Seq<char>, kind: Kind, addr: Seq<char>) -> Seq<char> {
    acc
        + "<li>"@
        + kind.label_text()
        + ": <code>"@
        + escaped(addr)
        + "</code></li>"@
}

fn add_listener_row(out: &mut String, kind: Kind, addr: &str)
    ensures
        final(out)@ == listener_row(old(out)@, kind, addr@),
{
    out.append("<li>");
    out.append(kind.label());
    out.append(": <code>");
    out.append(esc(addr).as_str());
    out.append("</code></li>");
}

/// `acc` with the listeners behind it.
pub open spec fn listener_rows(acc: Seq<char>, active: Seq<(Kind, Seq<char>)>) -> Seq<char>
    decreases active.len(),
{
    if active.len() == 0 {
        acc
    } else {
        listener_row(
            listener_rows(acc, active.drop_last()),
            active.last().0,
            active.last().1,
        )
    }
}

fn add_listener_rows(out: &mut String, active: &Vec<(Kind, String)>)
    ensures
        final(out)@ == listener_rows(old(out)@, active_texts(active@)),
{
    let ghost all = active_texts(active@);
    let ghost start = out@;
    let mut i: usize = 0;
    assert(all.take(0) =~= Seq::empty());
    while i < active.len()
        invariant
            i <= active@.len(),
            all == active_texts(active@),
            out@ == listener_rows(start, all.take(i as int)),
        decreases active@.len() - i,
    {
        assert(all.take(i + 1).drop_last() =~= all.take(i as int));
        assert(all.take(i + 1).last() == (active@[i as int].0, active@[i as int].1@));
        add_listener_row(out, active[i].0, active[i].1.as_str());
        i += 1;
    }
    assert(all.take(all.len() as int) =~= all);
}

// ---- the certificate ----

/// What is said of where a certificate comes from.
pub open spec fn source_text(source: CertSource) -> Seq<char> {
    match source {
        CertSource::SelfSigned => "self-signed"@,
        CertSource::Acme => "Let's Encrypt"@,
        CertSource::AcmeStaging => "Let's Encrypt staging (untrusted)"@,
        CertSource::Operator => "installed by the operator"@,
    }
}

fn source_label(source: CertSource) -> (r: &'static str)
    ensures
        r@ == source_text(source),
{
    match source {
        CertSource::SelfSigned => "self-signed",
        CertSource::Acme => "Let's Encrypt",
        CertSource::AcmeStaging => "Let's Encrypt staging (untrusted)",
        CertSource::Operator => "installed by the operator",
    }
}

/// `acc` with the certificate in use behind it.
pub open spec fn certificate_panel(acc: Seq<char>, cert: Option<CertInfo>) -> Seq<char> {
    match cert {
        Some(c) => acc
        + r#"<div class="kv">
<dt>Source</dt><dd>"#@
        + source_text(c.source)
        + r#"</dd>
<dt>Issuer</dt><dd>"#@
        + escaped(c.issuer@)
        + r#"</dd>
<dt>Names</dt><dd><code>"#@
        + escaped(joined(texts(c.names@), ", "@))
        + r#"</code></dd>
<dt>Expires</dt><dd>"#@
        + time_text(c.not_after)
        + r#"</dd>
</div>
"#@,
        None => acc + r#"<p class="muted">No certificate is loaded.</p>
"#@,
    }
}

fn add_certificate_panel(out: &mut String, cert: &Option<CertInfo>)
    ensures
        final(out)@ == certificate_panel(old(out)@, *cert),
{
    match cert {
        Some(c) => {
            out.append(r#"<div class="kv">
<dt>Source</dt><dd>"#);
            out.append(source_label(c.source));
            out.append(r#"</dd>
<dt>Issuer</dt><dd>"#);
            out.append(esc(c.issuer.as_str()).as_str());
            out.append(r#"</dd>
<dt>Names</dt><dd><code>"#);
            out.append(esc(join(&c.names, ", ").as_str()).as_str());
            out.append(r#"</code></dd>
<dt>Expires</dt><dd>"#);
            out.append(fmt_ts(c.not_after).as_str());
            out.append(r#"</dd>
</div>
"#);
        },
        None => {
            out.append(r#"<p class="muted">No certificate is loaded.</p>
"#);
        },
    }
}

/// `acc` with a line of the order status behind it, if there is one to show.
pub open spec fn status_line(acc: Seq<char>, head: Seq<char>, t: Option<Seq<char>>) -> Seq<char> {
    match t {
        Some(t) => acc + head + escaped(t) + "</p>\n"@,
        None => acc,
    }
}

fn add_status_line(out: &mut String, head: &str, t: &Option<String>)
    ensures
        final(out)@ == status_line(old(out)@, head@, opt_text(*t)),
{
    if let Some(t) = t {
        out.append(head);
        out.append(esc(t.as_str()).as_str());
        out.append("</p>\n");
    }
}

/// `acc` with a time of the order status behind it, if there is one to show.
pub open spec fn status_time(acc: Seq<char>, head: Seq<char>, t: Option<i64>) -> Seq<char> {
    match t {
        Some(t) => acc + head + time_text(t) + "</p>\n"@,
        None => acc,
    }
}

fn add_status_time(out: &mut String, head: &str, t: &Option<i64>)
    ensures
        final(out)@ == status_time(old(out)@, head@, *t),
{
    if let Some(t) = t {
        out.append(head);
        out.append(fmt_ts(*t).as_str());
        out.append("</p>\n");
    }
}

/// `acc` with the status of certificate orders behind it.
pub open spec fn order_status(acc: Seq<char>, s: AcmeStatusView) -> Seq<char> {
    let l1 = status_line(acc, "<p>Order in progress: "@, s.stage);
    let l2 = status_line(l1, r#"<p class="muted">Ordering is on hold: "#@, s.hold);
    let l3 = status_line(l2, r#"<p class="err">Last order failed: "#@, s.last_error);
    let l4 = status_time(l3, r#"<p class="muted">Last attempt: "#@, s.last_attempt);
    status_time(l4, r#"<p class="muted">Last success: "#@, s.last_success)
}

fn add_order_status(out: &mut String, s: &AcmeStatus)
    ensures
        final(out)@ == order_status(old(out)@, s@),
{
    add_status_line(out, "<p>Order in progress: ", &s.stage);
    add_status_line(out, r#"<p class="muted">Ordering is on hold: "#, &s.hold);
    add_status_line(out, r#"<p class="err">Last order failed: "#, &s.last_error);
    add_status_time(out, r#"<p class="muted">Last attempt: "#, &s.last_attempt);
    add_status_time(out, r#"<p class="muted">Last success: "#, &s.last_success);
}

// ---- the page ----

/// The top of the page, down to the fields.
pub open spec fn settings_head(boot: Config) -> Seq<char> {
    r#"<h1>Settings</h1>
<p class="sub">Changes apply immediately. The plaintext web UI stays on <code>"#@
        + escaped(boot.http_addr@)
        + "</code>, and data lives in <code>"@
        + escaped(boot.data_dir@)
        + r#"</code>.</p>
<form method="post" action="/admin/settings"><div class="panel"><h2 style="margin-top:0">Server</h2>
"#@
}

fn show_settings_head(boot: &Config) -> (r: String)
    ensures
        r@ == settings_head(*boot),
{
    let mut out = r#"<h1>Settings</h1>
<p class="sub">Changes apply immediately. The plaintext web UI stays on <code>"#.to_string();
    out.append(esc(boot.http_addr.as_str()).as_str());
    out.append("</code>, and data lives in <code>");
    out.append(esc(boot.data_dir.as_str()).as_str());
    out.append(r#"</code>.</p>
<form method="post" action="/admin/settings"><div class="panel"><h2 style="margin-top:0">Server</h2>
"#);
    out
}

/// The settings page.
pub open spec fn settings_text(
    settings: SettingsView,
    boot: Config,
    cert: Option<CertInfo>,
    status: AcmeStatusView,
    active: Seq<(Kind, Seq<char>)>,
) -> Seq<char> {
    let server = server_fields(settings_head(boot), settings);
    let acme = acme_fields(server + r#"</div><div class="panel"><h2 style="margin-top:0">Let's Encrypt</h2>
"#@, settings);
    let listeners = listener_rows(acme + r#"</div><button>Save settings</button></form>
<h2>Listeners</h2><div class="panel"><ul>"#@, active);
    let panel = certificate_panel(listeners + r#"</ul></div>
<h2>Certificate</h2><div class="panel">"#@, cert);
    order_status(panel, status) + r#"<form class="inline" method="post" action="/admin/tls/renew"><button>Request / renew certificate now</button></form>
<form class="inline" method="post" action="/admin/tls/self-signed" onsubmit="return confirm('Replace the certificate in use?')"><button class="danger">Regenerate self-signed</button></form></div>"#@
}

/// The settings page: the form with what is in force, the addresses that are
/// being served, and the certificate in use with the result of the last order.
pub fn settings_page(
    settings: &Settings,
    boot: &Config,
    cert: &Option<CertInfo>,
    status: &AcmeStatus,
    active: &Vec<(Kind, String)>,
) -> (r: String)
    ensures
        r@ == settings_text(settings@, *boot, *cert, status@, active_texts(active@)),
{
    let mut out = show_settings_head(boot);
    add_server_fields(&mut out, settings);
    out.append(r#"</div><div class="panel"><h2 style="margin-top:0">Let's Encrypt</h2>
"#);
    add_acme_fields(&mut out, settings);
    out.append(r#"</div><button>Save settings</button></form>
<h2>Listeners</h2><div class="panel"><ul>"#);
    add_listener_rows(&mut out, active);
    out.append(r#"</ul></div>
<h2>Certificate</h2><div class="panel">"#);
    add_certificate_panel(&mut out, cert);
    add_order_status(&mut out, status);
    out.append(r#"<form class="inline" method="post" action="/admin/tls/renew"><button>Request / renew certificate now</button></form>
<form class="inline" method="post" action="/admin/tls/self-signed" onsubmit="return confirm('Replace the certificate in use?')"><button class="danger">Regenerate self-signed</button></form></div>"#);
    out
}

// ---- the form and back ----

/// Whether `form` is what the page shows of the settings `s`, sent unedited.
pub open spec fn is_unedited(form: SettingsForm, s: SettingsView) -> bool {
    &&& form.hostname@ == s.hostname
    &&& form.smtp_addr@ == s.smtp_addr
    &&& form.smtps_addr@ == s.smtps_addr
    &&& form.https_addr@ == s.https_addr
    &&& form.retention_secs@ == decimal(s.retention_secs as nat)
    &&& form.mailbox_cap@ == decimal(s.mailbox_cap as nat)
    &&& form.max_message_size@ == mib_text(s.max_message_size)
    &&& form.max_credentials_per_user@ == signed_decimal(s.max_credentials_per_user as int)
    &&& form.cookie_secure is Some == s.cookie_secure
    &&& form.registration_open is Some == s.registration_open
    &&& form.registrations_per_hour@ == decimal(s.registrations_per_hour as nat)
    &&& form.acme_enabled is Some == s.acme_enabled
    &&& form.acme_directory@ == s.acme_directory
    &&& form.acme_contact_email@ == s.acme_contact_email
    &&& form.acme_domains@ == joined(s.acme_domains, ","@)
    &&& form.acme_http_addr@ == s.acme_http_addr
    &&& form.acme_tos_agreed is Some == s.acme_tos_agreed
    &&& form.acme_renew_before_days@ == signed_decimal(s.acme_renew_before_days as int)
}

/// Whether settings are as a form gives them: texts without blanks round them,
/// names in lower case.
pub open spec fn is_tidy(s: SettingsView) -> bool {
    &&& ascii_lower(trimmed(s.hostname)) == s.hostname
    &&& trimmed(s.smtp_addr) == s.smtp_addr
    &&& trimmed(s.smtps_addr) == s.smtps_addr
    &&& trimmed(s.https_addr) == s.https_addr
    &&& trimmed(s.acme_directory) == s.acme_directory
    &&& trimmed(s.acme_contact_email) == s.acme_contact_email
    &&& trimmed(s.acme_http_addr) == s.acme_http_addr
    &&& forall|i: int|
        0 <= i < s.acme_domains.len() ==> is_clean_domain(#[trigger] s.acme_domains[i])
}

proof fn lemma_digits_are_trimmed(s: Seq<char>)
    requires
        s.len() > 0,
        all_digits(s.skip(1)),
        is_digit(s[0]) || s[0] == '-' && s.len() > 1,
    ensures
        trimmed(s) == s,
{
    assert(!is_white(s[0]));
    if s.len() > 1 {
        assert(s.last() == s.skip(1)[s.len() - 2]);
        assert(is_digit(s.last()));
    }
    assert(!is_white(s.last()));
}

proof fn lemma_decimal_is_trimmed(n: nat)
    ensures
        trimmed(decimal(n)) == decimal(n),
{
    decimal_reads_back(n);
    let s = decimal(n);
    assert(is_digit(s[0]));
    assert forall|i: int| 0 <= i < s.skip(1).len() implies is_digit(#[trigger] s.skip(1)[i]) by {
        assert(is_digit(s[i + 1]));
    }
    lemma_digits_are_trimmed(s);
}

proof fn lemma_signed_is_trimmed(n: int)
    ensures
        trimmed(signed_decimal(n)) == signed_decimal(n),
{
    reveal_strlit("-");
    let s = signed_decimal(n);
    if n < 0 {
        decimal_reads_back((-n) as nat);
        assert(s.skip(1) =~= decimal((-n) as nat));
        lemma_digits_are_trimmed(s);
    } else {
        lemma_decimal_is_trimmed(n as nat);
    }
}

/// A form that is sent unedited stands for the settings that it shows. Every size
/// that is valid is far below the 53 bits that a size field holds.
pub proof fn an_unedited_form_changes_nothing(form: SettingsForm, s: SettingsView)
    requires
        is_unedited(form, s),
        is_tidy(s),
        s.max_message_size < 0x20_0000_0000_0000,
    ensures
        form.fault() is None,
        form.settings() == s,
{
    decimal_reads_back(s.retention_secs as nat);
    decimal_reads_back(s.mailbox_cap as nat);
    decimal_reads_back(s.registrations_per_hour as nat);
    signed_decimal_reads_back(s.max_credentials_per_user as int);
    signed_decimal_reads_back(s.acme_renew_before_days as int);
    lemma_decimal_is_trimmed(s.retention_secs as nat);
    lemma_decimal_is_trimmed(s.mailbox_cap as nat);
    lemma_decimal_is_trimmed(s.registrations_per_hour as nat);
    lemma_signed_is_trimmed(s.max_credentials_per_user as int);
    lemma_signed_is_trimmed(s.acme_renew_before_days as int);
    joined_domains_read_back(s.acme_domains);
    an_unedited_size_comes_back(s.max_message_size);
}

} // verus!
