//! The page of one message.

use vstd::prelude::*;
use vstd::string::*;

use crate::config::{bytes_text, duration_text, fmt_size, fmt_span, fmt_ts, now_unix, time_text};
use crate::mailstore::{EmailView, StoredEmail};
use crate::mime::{attachment_count_of, body_html_of, body_text_of, parses, read_bodies, Bodies};
use crate::text::{
    before_text, decimal, first_place, from_utf8_lossy, lossy, opt_text, show_usize, texts,
};
use crate::web::html::{badge, badge_text, esc, escaped};

verus! {

/// A text as HTML, or `default` if there is none.
pub open spec fn escaped_or(t: Option<Seq<char>>, default: Seq<char>) -> Seq<char> {
    match t {
        Some(s) => escaped(s),
        None => default,
    }
}

fn esc_or(t: &Option<String>, default: &str) -> (r: String)
    ensures
        r@ == escaped_or(opt_text(*t), default@),
{
    match t {
        Some(s) => esc(s.as_str()),
        None => default.to_string(),
    }
}

/// The sender of an envelope, in angle brackets.
pub open spec fn envelope_sender(from: Seq<char>) -> Seq<char> {
    if from.len() == 0 {
        "&lt;&gt; (null sender)"@
    } else {
        "&lt;"@ + escaped(from) + "&gt;"@
    }
}

fn show_envelope_sender(from: &str) -> (r: String)
    ensures
        r@ == envelope_sender(from@),
{
    if from.is_empty() {
        "&lt;&gt; (null sender)".to_string()
    } else {
        let mut out = "&lt;".to_string();
        out.append(esc(from).as_str());
        out.append("&gt;");
        out
    }
}

/// The recipients of an envelope, with spaces between them.
pub open spec fn recipient_tags(list: Seq<Seq<char>>) -> Seq<char>
    decreases list.len(),
{
    if list.len() == 0 {
        ""@
    } else if list.len() == 1 {
        ""@ + "<code>"@ + escaped(list.last()) + "</code>"@
    } else {
        recipient_tags(list.drop_last()) + " "@ + "<code>"@ + escaped(list.last()) + "</code>"@
    }
}

fn show_recipient_tags(list: &Vec<String>) -> (r: String)
    ensures
        r@ == recipient_tags(texts(list@)),
{
    let ghost all = texts(list@);
    let mut out = "".to_string();
    let mut i: usize = 0;
    assert(all.take(0) =~= Seq::empty());
    while i < list.len()
        invariant
            i <= list@.len(),
            all == texts(list@),
            out@ == recipient_tags(all.take(i as int)),
        decreases list@.len() - i,
    {
        assert(all.take(i + 1).drop_last() =~= all.take(i as int));
        assert(all.take(i + 1).last() == list@[i as int]@);
        if i > 0 {
            out.append(" ");
        }
        out.append("<code>");
        out.append(esc(list[i].as_str()).as_str());
        out.append("</code>");
        i += 1;
    }
    assert(all.take(all.len() as int) =~= all);
    out
}

pub open spec fn protocol(esmtp: bool) -> Seq<char> {
    if esmtp {
        "ESMTP"@
    } else {
        "SMTP"@
    }
}

/// How a message arrived.
pub open spec fn delivery_details(e: EmailView, now: int) -> Seq<char> {
    r#"<div class="kv">
<dt>Connection</dt><dd>"#@
        + badge_text(e.conn.kind)
        + r#"</dd>
<dt>TLS version</dt><dd>"#@
        + escaped_or(e.conn.tls_version, "none (unencrypted)"@)
        + r#"</dd>
<dt>TLS cipher</dt><dd>"#@
        + escaped_or(e.conn.tls_cipher, "none"@)
        + r#"</dd>
<dt>Client address</dt><dd><code>"#@
        + escaped(e.conn.peer_addr)
        + r#"</code></dd>
<dt>HELO/EHLO</dt><dd><code>"#@
        + escaped(e.conn.helo)
        + "</code> ("@
        + protocol(e.conn.esmtp)
        + r#")</dd>
<dt>AUTH mechanism</dt><dd><code>"#@
        + escaped(e.conn.auth_mechanism)
        + r#"</code></dd>
<dt>SMTP credential</dt><dd><code>"#@
        + escaped(e.cred_username)
        + r#"</code></dd>
<dt>Envelope sender</dt><dd><code>"#@
        + envelope_sender(e.mail_from)
        + r#"</code></dd>
<dt>Envelope recipients</dt><dd>"#@
        + recipient_tags(e.rcpt_to)
        + r#"</dd>
<dt>Received</dt><dd>"#@
        + time_text(e.received_at)
        + r#"</dd>
<dt>Vanishes</dt><dd>"#@
        + time_text(e.expires_at)
        + " (in "@
        + duration_text(e.expires_at - now)
        + r#")</dd>
<dt>Size</dt><dd>"#@
        + bytes_text(e.raw.len() as int)
        + r#"</dd>
</div>"#@
}

fn show_details(e: &StoredEmail, now: i64) -> (r: String)
    ensures
        r@ == delivery_details(e@, now as int),
{
    let mut out = r#"<div class="kv">
<dt>Connection</dt><dd>"#.to_string();
    out.append(badge(e.conn.kind));
    out.append(r#"</dd>
<dt>TLS version</dt><dd>"#);
    out.append(esc_or(&e.conn.tls_version, "none (unencrypted)").as_str());
    out.append(r#"</dd>
<dt>TLS cipher</dt><dd>"#);
    out.append(esc_or(&e.conn.tls_cipher, "none").as_str());
    out.append(r#"</dd>
<dt>Client address</dt><dd><code>"#);
    out.append(esc(e.conn.peer_addr.as_str()).as_str());
    out.append(r#"</code></dd>
<dt>HELO/EHLO</dt><dd><code>"#);
    out.append(esc(e.conn.helo.as_str()).as_str());
    out.append("</code> (");
    out.append(if e.conn.esmtp {
        "ESMTP"
    } else {
        "SMTP"
    });
    out.append(r#")</dd>
<dt>AUTH mechanism</dt><dd><code>"#);
    out.append(esc(e.conn.auth_mechanism.as_str()).as_str());
    out.append(r#"</code></dd>
<dt>SMTP credential</dt><dd><code>"#);
    out.append(esc(e.cred_username.as_str()).as_str());
    out.append(r#"</code></dd>
<dt>Envelope sender</dt><dd><code>"#);
    out.append(show_envelope_sender(e.mail_from.as_str()).as_str());
    out.append(r#"</code></dd>
<dt>Envelope recipients</dt><dd>"#);
    out.append(show_recipient_tags(&e.rcpt_to).as_str());
    out.append(r#"</dd>
<dt>Received</dt><dd>"#);
    out.append(fmt_ts(e.received_at).as_str());
    out.append(r#"</dd>
<dt>Vanishes</dt><dd>"#);
    out.append(fmt_ts(e.expires_at).as_str());
    out.append(" (in ");
    out.append(fmt_span(now, e.expires_at).as_str());
    out.append(r#")</dd>
<dt>Size</dt><dd>"#);
    out.append(fmt_size(e.raw.len() as u64).as_str());
    out.append(r#"</dd>
</div>"#);
    out
}

/// The bodies of a message, as source.
pub open spec fn body_sections(
    parsed: bool,
    text: Option<Seq<char>>,
    html: Option<Seq<char>>,
    attachments: usize,
) -> Seq<char> {
    let with_text = match text {
        Some(t) => ""@ + "<h2>Text body</h2><pre>"@
        + escaped(t)
        + "</pre>"@,
        None => ""@,
    };
    let with_html = match html {
        Some(h) => with_text + r#"<h2>HTML body <span class="muted small">(shown as source, not rendered)</span></h2><pre>"#@
        + escaped(h)
        + "</pre>"@,
        None => with_text,
    };
    let all = if attachments > 0 {
        with_html + r#"<h2>Attachments</h2><p class="muted">"#@
        + decimal(attachments as nat)
        + " attachment(s) present in the raw message.</p>"@
    } else {
        with_html
    };
    if !parsed {
        r#"<p class="muted">Message could not be parsed; see raw source below.</p>"#@
    } else if all.len() == 0 {
        r#"<p class="muted">No decodable body parts.</p>"#@
    } else {
        all
    }
}

/// What is shown of the bodies that the parser found.
pub open spec fn bodies_text(bodies: Option<Bodies>) -> Seq<char> {
    match bodies {
        Some(b) => body_sections(true, opt_text(b.text), opt_text(b.html), b.attachments),
        None => body_sections(false, None, None, 0),
    }
}

fn show_bodies(bodies: &Option<Bodies>) -> (r: String)
    ensures
        r@ == bodies_text(*bodies),
{
    match bodies {
        Some(b) => {
            let mut out = "".to_string();
            if let Some(t) = &b.text {
                out.append("<h2>Text body</h2><pre>");
                out.append(esc(t.as_str()).as_str());
                out.append("</pre>");
            }
            if let Some(h) = &b.html {
                out.append(r#"<h2>HTML body <span class="muted small">(shown as source, not rendered)</span></h2><pre>"#);
                out.append(esc(h.as_str()).as_str());
                out.append("</pre>");
            }
            if b.attachments > 0 {
                out.append(r#"<h2>Attachments</h2><p class="muted">"#);
                out.append(show_usize(b.attachments).as_str());
                out.append(" attachment(s) present in the raw message.</p>");
            }
            if out.as_str().is_empty() {
                return r#"<p class="muted">No decodable body parts.</p>"#.to_string();
            }
            out
        },
        None => r#"<p class="muted">Message could not be parsed; see raw source below.</p>"#.to_string(),
    }
}

/// The headers of a message as they arrived: everything before the first blank
/// line.
pub open spec fn header_block(raw: Seq<u8>) -> Seq<char> {
    lossy(raw).take(first_place(lossy(raw), "\r\n\r\n"@))
}

/// The headers of a message as they arrived.
pub fn headers_of(raw: &[u8]) -> (r: String)
    ensures
        r@ == header_block(raw@),
{
    let text = from_utf8_lossy(raw);
    proof {
        reveal_strlit("\r\n\r\n");
    }
    before_text(text.as_str(), "\r\n\r\n")
}

/// The page of a message, with what is shown of its bodies, at `now`.
pub open spec fn mail_text(e: EmailView, bodies: Seq<char>, now: int) -> Seq<char> {
    r#"<p><a href="/dashboard">&larr; Back to mailbox</a></p>
<h1>"#@
        + escaped(e.subject)
        + r#"</h1>
<p class="sub">From "#@
        + escaped(e.from_header)
        + r#"</p>
<div class="panel"><h2 style="margin-top:0">Delivery details</h2>"#@
        + delivery_details(e, now)
        + r#"</div>
<div class="panel">"#@
        + bodies
        + r#"
<h2>Headers</h2><pre>"#@
        + escaped(header_block(e.raw))
        + r#"</pre>
<p><a class="btn" href="/mail/"#@
        + escaped(e.id)
        + r#"/raw">View raw message</a>
<form class="inline" method="post" action="/mail/"#@
        + escaped(e.id)
        + r#"/delete" onsubmit="return confirm('Delete this message?')"><button class="danger" style="margin-left:8px">Delete now</button></form></p>
</div>"#@
}

/// The page of a message at `now`, given what the parser found in it.
pub fn mail_page_at(e: &StoredEmail, bodies: &Option<Bodies>, now: i64) -> (r: String)
    ensures
        r@ == mail_text(e@, bodies_text(*bodies), now as int),
{
    let mut out = r#"<p><a href="/dashboard">&larr; Back to mailbox</a></p>
<h1>"#.to_string();
    out.append(esc(e.subject.as_str()).as_str());
    out.append(r#"</h1>
<p class="sub">From "#);
    out.append(esc(e.from_header.as_str()).as_str());
    out.append(r#"</p>
<div class="panel"><h2 style="margin-top:0">Delivery details</h2>"#);
    out.append(show_details(e, now).as_str());
    out.append(r#"</div>
<div class="panel">"#);
    out.append(show_bodies(bodies).as_str());
    out.append(r#"
<h2>Headers</h2><pre>"#);
    out.append(esc(headers_of(e.raw.as_slice()).as_str()).as_str());
    out.append(r#"</pre>
<p><a class="btn" href="/mail/"#);
    out.append(esc(e.id.as_str()).as_str());
    out.append(r#"/raw">View raw message</a>
<form class="inline" method="post" action="/mail/"#);
    out.append(esc(e.id.as_str()).as_str());
    out.append(r#"/delete" onsubmit="return confirm('Delete this message?')"><button class="danger" style="margin-left:8px">Delete now</button></form></p>
</div>"#);
    out
}

/// The page of a message.
pub fn mail_page(e: &StoredEmail) -> (r: String)
    ensures
        exists|now: i64|
            r@ == #[trigger] mail_text(
                e@,
                body_sections(
                    parses(e.raw@),
                    body_text_of(e.raw@),
                    body_html_of(e.raw@),
                    attachment_count_of(e.raw@),
                ),
                now as int,
            ),
{
    let bodies = read_bodies(e.raw.as_slice());
    let now = now_unix();
    let page = mail_page_at(e, &bodies, now);
    assert(bodies_text(bodies) == body_sections(
        parses(e.raw@),
        body_text_of(e.raw@),
        body_html_of(e.raw@),
        attachment_count_of(e.raw@),
    ));
    page
}

} // verus!
