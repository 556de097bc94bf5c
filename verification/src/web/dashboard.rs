//! The dashboard: a user's SMTP credentials, mail API token and mailbox.

use std::sync::Arc;

use vstd::prelude::*;
use vstd::string::*;

use crate::config::{
    bytes_text, duration_text, fmt_duration, fmt_size, fmt_span, fmt_ts, now_unix, time_text,
};
use crate::db::{SmtpCredential, User};
use crate::mailstore::{EmailView, StoredEmail};
use crate::text::{decimal, join, joined, show_i64, show_usize, signed_decimal};
use crate::web::html::{badge, badge_text, esc, escaped};

verus! {

/// A time, or "never".
pub open spec fn time_or_never(t: Option<i64>) -> Seq<char> {
    match t {
        Some(at) => time_text(at),
        None => "never"@,
    }
}

/// A time, or "never".
pub fn fmt_ts_or_never(t: Option<i64>) -> (r: String)
    ensures
        r@ == time_or_never(t),
{
    match t {
        Some(at) => fmt_ts(at),
        None => "never".to_string(),
    }
}

/// A value to read off, with a button that copies it.
pub open spec fn copyable(value: Seq<char>) -> Seq<char> {
    "<code>"@
        + escaped(value)
        + r#"</code><button class="copy" type="button" data-copy=""#@
        + escaped(value)
        + r#"" onclick="navigator.clipboard.writeText(this.dataset.copy)">Copy</button>"#@
}

fn show_copyable(value: &str) -> (r: String)
    ensures
        r@ == copyable(value@),
{
    let mut out = "<code>".to_string();
    out.append(esc(value).as_str());
    out.append(r#"</code><button class="copy" type="button" data-copy=""#);
    out.append(esc(value).as_str());
    out.append(r#"" onclick="navigator.clipboard.writeText(this.dataset.copy)">Copy</button>"#);
    out
}

/// The top of the dashboard: who is signed in, and how to reach the server.
pub open spec fn dashboard_head(
    username: Seq<char>,
    smtp: Seq<char>,
    smtps: Seq<char>,
    hostname: Seq<char>,
    api_token: Seq<char>,
    retention_secs: int,
) -> Seq<char> {
    r#"<h1>Dashboard</h1><p class="sub">Signed in as <strong>"#@
        + escaped(username)
        + "</strong>. Messages vanish "@
        + duration_text(retention_secs)
        + r#" after arrival and are never delivered.</p><h2>SMTP server</h2><div class="panel"><div class="kv">
<dt>Server (plaintext/STARTTLS)</dt><dd><code>"#@
        + escaped(smtp)
        + r#"</code></dd>
<dt>Server (implicit TLS)</dt><dd><code>"#@
        + escaped(smtps)
        + r#"</code></dd>
<dt>Hostname</dt><dd><code>"#@
        + escaped(hostname)
        + r#"</code></dd>
<dt>Mechanisms</dt><dd><code>AUTH PLAIN</code>, <code>AUTH LOGIN</code></dd>
<dt>Mail API token</dt><dd>"#@
        + copyable(api_token)
        + r#" <details class="small"><summary>(i)</summary>
<p>Send the token as <code>Authorization: Bearer &lt;token&gt;</code> or <code>X-API-Token: &lt;token&gt;</code>.</p>
<p><code>GET /api/list</code> lists the mailbox, newest first; <code>GET /api/latest</code> gives the newest message; <code>GET /api/get/&lt;id&gt;</code> gives one message. <code>to</code>, <code>from</code> and <code>subject</code> filter, <code>limit</code> caps a listing.</p>
<form class="inline" method="post" action="/api-token/regenerate" onsubmit="return confirm('Replace the mail API token?')"><button class="danger">Regenerate</button></form></details></dd>
</div></div>"#@
}

fn show_head(
    user: &User,
    smtp_addr: &str,
    smtps_addr: &str,
    hostname: &str,
    api_token: &str,
    retention_secs: i64,
) -> (r: String)
    ensures
        r@ == dashboard_head(
            user.username@,
            smtp_addr@,
            smtps_addr@,
            hostname@,
            api_token@,
            retention_secs as int,
        ),
{
    let mut out = r#"<h1>Dashboard</h1><p class="sub">Signed in as <strong>"#.to_string();
    out.append(esc(user.username.as_str()).as_str());
    out.append("</strong>. Messages vanish ");
    out.append(fmt_duration(retention_secs).as_str());
    out.append(r#" after arrival and are never delivered.</p><h2>SMTP server</h2><div class="panel"><div class="kv">
<dt>Server (plaintext/STARTTLS)</dt><dd><code>"#);
    out.append(esc(smtp_addr).as_str());
    out.append(r#"</code></dd>
<dt>Server (implicit TLS)</dt><dd><code>"#);
    out.append(esc(smtps_addr).as_str());
    out.append(r#"</code></dd>
<dt>Hostname</dt><dd><code>"#);
    out.append(esc(hostname).as_str());
    out.append(r#"</code></dd>
<dt>Mechanisms</dt><dd><code>AUTH PLAIN</code>, <code>AUTH LOGIN</code></dd>
<dt>Mail API token</dt><dd>"#);
    out.append(show_copyable(api_token).as_str());
    out.append(r#" <details class="small"><summary>(i)</summary>
<p>Send the token as <code>Authorization: Bearer &lt;token&gt;</code> or <code>X-API-Token: &lt;token&gt;</code>.</p>
<p><code>GET /api/list</code> lists the mailbox, newest first; <code>GET /api/latest</code> gives the newest message; <code>GET /api/get/&lt;id&gt;</code> gives one message. <code>to</code>, <code>from</code> and <code>subject</code> filter, <code>limit</code> caps a listing.</p>
<form class="inline" method="post" action="/api-token/regenerate" onsubmit="return confirm('Replace the mail API token?')"><button class="danger">Regenerate</button></form></details></dd>
</div></div>"#);
    out
}

/// `acc` with the row of one credential behind it.
pub open spec fn credential_row(acc: Seq<char>, c: SmtpCredential) -> Seq<char> {
    acc
        + "<tr><td>"@
        + copyable(c.username@)
        + "</td><td>"@
        + copyable(c.password@)
        + "</td><td>"@
        + time_text(c.created_at)
        + "</td><td>"@
        + signed_decimal(c.total_messages as int)
        + "</td><td>"@
        + time_or_never(c.last_used_at)
        + r#"</td>
<td><form class="inline" method="post" action="/credentials/"#@
        + signed_decimal(c.id as int)
        + r#"/delete" onsubmit="return confirm('Delete this SMTP credential?')"><button class="danger">Delete</button></form></td></tr>"#@
}

/// `acc` with the rows of the credentials behind it.
pub open spec fn credential_rows(acc: Seq<char>, creds: Seq<SmtpCredential>) -> Seq<char>
    decreases creds.len(),
{
    if creds.len() == 0 {
        acc
    } else {
        credential_row(credential_rows(acc, creds.drop_last()), creds.last())
    }
}

/// `acc` with the list of the credentials behind it.
pub open spec fn credential_list(acc: Seq<char>, creds: Seq<SmtpCredential>) -> Seq<char> {
    let opened = acc + r#"<h2>SMTP credentials</h2><div class="panel">"#@;
    let listed = if creds.len() == 0 {
        opened + r#"<p class="muted">No SMTP credentials yet. Create one to start sending mail into the void.</p>"#@
    } else {
        credential_rows(
            opened + "<table><tr><th>Username</th><th>Password</th><th>Created</th><th>Messages received</th><th>Last used</th><th></th></tr>"@,
            creds,
        ) + "</table>"@
    };
    listed + r#"<form method="post" action="/credentials/create"><button class="primary">Create SMTP credential</button></form></div>"#@
}

fn add_credential_row(out: &mut String, c: &SmtpCredential)
    ensures
        final(out)@ == credential_row(old(out)@, *c),
{
    out.append("<tr><td>");
    out.append(show_copyable(c.username.as_str()).as_str());
    out.append("</td><td>");
    out.append(show_copyable(c.password.as_str()).as_str());
    out.append("</td><td>");
    out.append(fmt_ts(c.created_at).as_str());
    out.append("</td><td>");
    out.append(show_i64(c.total_messages).as_str());
    out.append("</td><td>");
    out.append(fmt_ts_or_never(c.last_used_at).as_str());
    out.append(r#"</td>
<td><form class="inline" method="post" action="/credentials/"#);
    out.append(show_i64(c.id).as_str());
    out.append(r#"/delete" onsubmit="return confirm('Delete this SMTP credential?')"><button class="danger">Delete</button></form></td></tr>"#);
}

fn add_credentials(out: &mut String, creds: &[SmtpCredential])
    ensures
        final(out)@ == credential_list(old(out)@, creds@),
{
    out.append(r#"<h2>SMTP credentials</h2><div class="panel">"#);
    if creds.len() == 0 {
        out.append(r#"<p class="muted">No SMTP credentials yet. Create one to start sending mail into the void.</p>"#);
    } else {
        out.append("<table><tr><th>Username</th><th>Password</th><th>Created</th><th>Messages received</th><th>Last used</th><th></th></tr>");
        let ghost start = out@;
        let mut i: usize = 0;
        assert(creds@.take(0) =~= Seq::empty());
        while i < creds.len()
            invariant
                i <= creds@.len(),
                out@ == credential_rows(start, creds@.take(i as int)),
            decreases creds@.len() - i,
        {
            assert(creds@.take(i + 1).drop_last() =~= creds@.take(i as int));
            assert(creds@.take(i + 1).last() == creds@[i as int]);
            add_credential_row(out, &creds[i]);
            i += 1;
        }
        assert(creds@.take(creds@.len() as int) =~= creds@);
        out.append("</table>");
    }
    out.append(r#"<form method="post" action="/credentials/create"><button class="primary">Create SMTP credential</button></form></div>"#);
}

/// The recipients of a message in a listing: all of one or two, else the first.
pub open spec fn shown_recipients(list: Seq<Seq<char>>) -> Seq<char> {
    if list.len() > 2 {
        escaped(list[0]) + " (+"@ + decimal((list.len() - 1) as nat) + " more)"@
    } else {
        escaped(joined(list, ", "@))
    }
}

fn show_recipients(list: &Vec<String>) -> (r: String)
    ensures
        r@ == shown_recipients(crate::text::texts(list@)),
{
    if list.len() > 2 {
        let mut out = esc(list[0].as_str());
        out.append(" (+");
        out.append(show_usize(list.len() - 1).as_str());
        out.append(" more)");
        out
    } else {
        esc(join(list, ", ").as_str())
    }
}

/// `acc` with the row of one message behind it.
pub open spec fn message_row(acc: Seq<char>, e: EmailView, now: int) -> Seq<char> {
    acc
        + r#"<tr class="rowlink" onclick="location.href='/mail/"#@
        + escaped(e.id)
        + r#"'"><td>"#@
        + time_text(e.received_at)
        + "</td><td>"@
        + escaped(e.from_header)
        + "</td><td>"@
        + shown_recipients(e.rcpt_to)
        + r#"</td><td><a href="/mail/"#@
        + escaped(e.id)
        + r#"">"#@
        + escaped(e.subject)
        + "</a></td><td>"@
        + badge_text(e.conn.kind)
        + "</td><td>"@
        + bytes_text(e.raw.len() as int)
        + "</td><td>"@
        + duration_text(e.expires_at - now)
        + "</td></tr>"@
}

/// `acc` with the rows of the messages behind it.
pub open spec fn message_rows(acc: Seq<char>, emails: Seq<Arc<StoredEmail>>, now: int) -> Seq<char>
    decreases emails.len(),
{
    if emails.len() == 0 {
        acc
    } else {
        message_row(message_rows(acc, emails.drop_last(), now), emails.last()@, now)
    }
}

/// `acc` with the mailbox behind it.
pub open spec fn mailbox_list(acc: Seq<char>, emails: Seq<Arc<StoredEmail>>, now: int) -> Seq<char> {
    let opened = acc + r#"<h2>Mailbox <span class="muted small">("#@ + decimal(emails.len())
        + r#" messages)</span></h2><div class="panel">"#@;
    let listed = if emails.len() == 0 {
        opened + r#"<p class="muted">The void is empty. Send a message using your SMTP credentials and it will appear here.</p>"#@
    } else {
        message_rows(
            opened + "<table><tr><th>Received</th><th>From</th><th>To</th><th>Subject</th><th>Connection</th><th>Size</th><th>Expires in</th></tr>"@,
            emails,
            now,
        ) + r#"</table><form method="post" action="/mailbox/clear" onsubmit="return confirm('Delete all messages in your mailbox?')"><button class="danger" style="margin-top:14px">Empty mailbox</button></form>"#@
    };
    listed + "</div>"@
}

fn add_message_row(out: &mut String, e: &StoredEmail, now: i64)
    ensures
        final(out)@ == message_row(old(out)@, e@, now as int),
{
    out.append(r#"<tr class="rowlink" onclick="location.href='/mail/"#);
    out.append(esc(e.id.as_str()).as_str());
    out.append(r#"'"><td>"#);
    out.append(fmt_ts(e.received_at).as_str());
    out.append("</td><td>");
    out.append(esc(e.from_header.as_str()).as_str());
    out.append("</td><td>");
    out.append(show_recipients(&e.rcpt_to).as_str());
    out.append(r#"</td><td><a href="/mail/"#);
    out.append(esc(e.id.as_str()).as_str());
    out.append(r#"">"#);
    out.append(esc(e.subject.as_str()).as_str());
    out.append("</a></td><td>");
    out.append(badge(e.conn.kind));
    out.append("</td><td>");
    out.append(fmt_size(e.raw.len() as u64).as_str());
    out.append("</td><td>");
    out.append(fmt_span(now, e.expires_at).as_str());
    out.append("</td></tr>");
}

fn add_mailbox(out: &mut String, emails: &[Arc<StoredEmail>], now: i64)
    ensures
        final(out)@ == mailbox_list(old(out)@, emails@, now as int),
{
    out.append(r#"<h2>Mailbox <span class="muted small">("#);
    out.append(show_usize(emails.len()).as_str());
    out.append(r#" messages)</span></h2><div class="panel">"#);
    if emails.len() == 0 {
        out.append(r#"<p class="muted">The void is empty. Send a message using your SMTP credentials and it will appear here.</p>"#);
    } else {
        out.append("<table><tr><th>Received</th><th>From</th><th>To</th><th>Subject</th><th>Connection</th><th>Size</th><th>Expires in</th></tr>");
        let ghost start = out@;
        let mut i: usize = 0;
        assert(emails@.take(0) =~= Seq::empty());
        while i < emails.len()
            invariant
                i <= emails@.len(),
                out@ == message_rows(start, emails@.take(i as int), now as int),
            decreases emails@.len() - i,
        {
            assert(emails@.take(i + 1).drop_last() =~= emails@.take(i as int));
            assert(emails@.take(i + 1).last() == emails@[i as int]);
            add_message_row(out, &emails[i], now);
            i += 1;
        }
        assert(emails@.take(emails@.len() as int) =~= emails@);
        out.append(r#"</table><form method="post" action="/mailbox/clear" onsubmit="return confirm('Delete all messages in your mailbox?')"><button class="danger" style="margin-top:14px">Empty mailbox</button></form>"#);
    }
    out.append("</div>");
}

/// Where the dashboard sends its reader: the addresses of the server.
pub struct Endpoints<'a> {
    pub smtp: &'a str,
    pub smtps: &'a str,
    pub hostname: &'a str,
}

/// The dashboard of a user, at `now`.
pub open spec fn dashboard_text(
    username: Seq<char>,
    creds: Seq<SmtpCredential>,
    emails: Seq<Arc<StoredEmail>>,
    endpoints: Endpoints,
    api_token: Seq<char>,
    retention_secs: int,
    now: int,
) -> Seq<char> {
    mailbox_list(
        credential_list(
            dashboard_head(
                username,
                endpoints.smtp@,
                endpoints.smtps@,
                endpoints.hostname@,
                api_token,
                retention_secs,
            ),
            creds,
        ),
        emails,
        now,
    )
}

/// The dashboard of a user, at `now`.
pub fn dashboard_page_at(
    user: &User,
    creds: &[SmtpCredential],
    emails: &[Arc<StoredEmail>],
    endpoints: &Endpoints,
    api_token: &str,
    retention_secs: i64,
    now: i64,
) -> (r: String)
    ensures
        r@ == dashboard_text(
            user.username@,
            creds@,
            emails@,
            *endpoints,
            api_token@,
            retention_secs as int,
            now as int,
        ),
{
    let mut out = show_head(
        user,
        endpoints.smtp,
        endpoints.smtps,
        endpoints.hostname,
        api_token,
        retention_secs,
    );
    add_credentials(&mut out, creds);
    add_mailbox(&mut out, emails, now);
    out
}

/// The dashboard of a user.
pub fn dashboard_page(
    user: &User,
    creds: &[SmtpCredential],
    emails: &[Arc<StoredEmail>],
    endpoints: &Endpoints,
    api_token: &str,
    retention_secs: i64,
) -> (r: String)
    ensures
        exists|now: i64|
            r@ == #[trigger] dashboard_text(
                user.username@,
                creds@,
                emails@,
                *endpoints,
                api_token@,
                retention_secs as int,
                now as int,
            ),
{
    dashboard_page_at(user, creds, emails, endpoints, api_token, retention_secs, now_unix())
}

} // verus!
