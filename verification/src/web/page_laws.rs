//! What the pages of the web UI show.

use std::sync::Arc;

use vstd::prelude::*;

use crate::acme::AcmeStatusView;
use crate::config::{bytes_text, duration_text, time_text, Config};
use crate::db::{AdminUserRow, GlobalStats, SmtpCredential, User};
use crate::listeners::Kind;
use crate::mailstore::{ConnKind, EmailView, StoredEmail};
use crate::mib::mib_text;
use crate::mime::Bodies;
use crate::settings::SettingsView;
use crate::tally::{listed_total, listed_total_is_total};
use crate::text::{decimal, joined, occurs, opt_text, signed_decimal, texts};
use crate::text_laws::texts_are_joined_in_order;
use crate::tls::{CertInfo, CertSource};
use crate::web::admin::{
    admin_badge, admin_head, admin_text, bytes_held, delete_button, messages_of, usage_of,
    user_row, user_rows,
};
use crate::web::dashboard::{
    copyable, credential_list, credential_row, credential_rows, dashboard_head, dashboard_text,
    mailbox_list, message_row, message_rows, shown_recipients, time_or_never, Endpoints,
};
use crate::web::html::{
    account_text, admin_links, auth_text, badge_text, escaped, flash_text, index_text,
    layout_text, nav_text, register_link, user_nav, Nav, CSS,
};
use crate::web::mail_view::{
    bodies_text, body_sections, delivery_details, envelope_sender, escaped_or, header_block,
    mail_text, protocol, recipient_tags,
};
use crate::web::settings_page::{
    acme_fields, certificate_panel, checked_text, listener_row, listener_rows, order_status,
    server_fields, settings_head, settings_text, source_text, status_line, status_time,
    switch_field, text_field,
};

verus! {

// ---- parts of a page ----

/// The parts of a page, one after the other.
pub open spec fn laid_out(parts: Seq<Seq<char>>) -> Seq<char>
    decreases parts.len(),
{
    if parts.len() == 0 {
        Seq::empty()
    } else if parts.len() == 1 {
        parts[0]
    } else {
        laid_out(parts.drop_last()) + parts.last()
    }
}

broadcast proof fn lemma_one_more(parts: Seq<Seq<char>>, part: Seq<char>)
    ensures
        #[trigger] laid_out(parts.push(part)) == (if parts.len() == 0 {
            part
        } else {
            laid_out(parts) + part
        }),
{
    assert(parts.push(part).drop_last() =~= parts);
}

proof fn lemma_begins_with(parts: Seq<Seq<char>>)
    requires
        parts.len() > 0,
    ensures
        parts[0].is_prefix_of(laid_out(parts)),
    decreases parts.len(),
{
    if parts.len() > 1 {
        let less = parts.drop_last();
        lemma_begins_with(less);
        let s = laid_out(less);
        let n = parts[0].len() as int;
        assert(s.subrange(0, n) == parts[0]);
        assert((s + parts.last()).subrange(0, n) =~= s.subrange(0, n));
    } else {
        assert(parts[0].subrange(0, parts[0].len() as int) =~= parts[0]);
    }
}

/// Three parts that follow each other stand in the page.
proof fn lemma_three_stand(parts: Seq<Seq<char>>, i: int)
    requires
        0 <= i,
        i + 3 <= parts.len(),
    ensures
        occurs(parts[i] + parts[i + 1] + parts[i + 2], laid_out(parts)),
    decreases parts.len(),
{
    let piece = parts[i] + parts[i + 1] + parts[i + 2];
    let less = parts.drop_last();
    let page = laid_out(parts);
    let n = piece.len() as int;
    if i + 3 < parts.len() {
        lemma_three_stand(less, i);
        let before = laid_out(less);
        let k = choose|k: int|
            0 <= k <= before.len() - piece.len() && #[trigger] before.subrange(k, k + piece.len())
                == piece;
        assert(page.subrange(k, k + piece.len()) =~= before.subrange(k, k + piece.len()));
    } else {
        reveal_with_fuel(laid_out, 4);
        let two = less.drop_last();
        let one = two.drop_last();
        let head = laid_out(one);
        assert(page =~= (if i == 0 {
            Seq::empty()
        } else {
            head
        }) + piece);
        let k = page.len() - n;
        assert(page.subrange(k, k + piece.len()) =~= piece);
    }
}

/// Two parts that follow each other stand in the page.
proof fn lemma_two_stand(parts: Seq<Seq<char>>, i: int)
    requires
        0 <= i,
        i + 2 <= parts.len(),
    ensures
        occurs(parts[i] + parts[i + 1], laid_out(parts)),
    decreases parts.len(),
{
    let piece = parts[i] + parts[i + 1];
    let page = laid_out(parts);
    let before = laid_out(parts.drop_last());
    if i + 2 < parts.len() {
        lemma_two_stand(parts.drop_last(), i);
        let k = choose|k: int|
            0 <= k <= before.len() - piece.len() && #[trigger] before.subrange(k, k + piece.len())
                == piece;
        assert(page.subrange(k, k + piece.len()) =~= before.subrange(k, k + piece.len()));
    } else {
        reveal_with_fuel(laid_out, 3);
        let k = page.len() - piece.len();
        assert(page.subrange(k, k + piece.len()) =~= piece);
    }
}

/// Every part stands in the page.
proof fn lemma_part_stands(parts: Seq<Seq<char>>, i: int)
    requires
        0 <= i < parts.len(),
    ensures
        occurs(parts[i], laid_out(parts)),
    decreases parts.len(),
{
    let piece = parts[i];
    let page = laid_out(parts);
    let n = piece.len() as int;
    if parts.len() == 1 {
        let k: int = 0;
        assert(page.subrange(k, k + piece.len()) =~= piece);
    } else if i + 1 < parts.len() {
        let before = laid_out(parts.drop_last());
        lemma_part_stands(parts.drop_last(), i);
        let k = choose|k: int|
            0 <= k <= before.len() - piece.len() && #[trigger] before.subrange(k, k + piece.len())
                == piece;
        assert(page.subrange(k, k + piece.len()) =~= before.subrange(k, k + piece.len()));
    } else {
        let k = page.len() - n;
        assert(page.subrange(k, k + piece.len()) =~= piece);
    }
}

// ---- rows ----

/// The row of a message shows when it came, who sent it, to whom, what about, over
/// which connection, how large it is and for how long it stays, each in its column,
/// and leads to the message.
pub proof fn a_message_is_shown_in_its_row(acc: Seq<char>, e: EmailView, now: int)
    ensures
        ({
            let page = message_row(acc, e, now);
            &&& occurs(
                r#"<tr class="rowlink" onclick="location.href='/mail/"#@
                    + escaped(e.id)
                    + r#"'"><td>"#@,
                page,
            )
            &&& occurs(r#"'"><td>"#@ + time_text(e.received_at) + "</td><td>"@, page)
            &&& occurs("</td><td>"@ + escaped(e.from_header) + "</td><td>"@, page)
            &&& occurs(
                "</td><td>"@
                    + shown_recipients(e.rcpt_to)
                    + r#"</td><td><a href="/mail/"#@,
                page,
            )
            &&& occurs(r#"</td><td><a href="/mail/"#@ + escaped(e.id) + r#"">"#@, page)
            &&& occurs(r#"">"#@ + escaped(e.subject) + "</a></td><td>"@, page)
            &&& occurs("</a></td><td>"@ + badge_text(e.conn.kind) + "</td><td>"@, page)
            &&& occurs("</td><td>"@ + bytes_text(e.raw.len() as int) + "</td><td>"@, page)
            &&& occurs("</td><td>"@ + duration_text(e.expires_at - now) + "</td></tr>"@, page)
            &&& occurs(escaped(e.id) + r#"'"><td>"#@ + time_text(e.received_at), page)
            &&& occurs(time_text(e.received_at) + "</td><td>"@ + escaped(e.from_header), page)
            &&& occurs(escaped(e.from_header) + "</td><td>"@ + shown_recipients(e.rcpt_to), page)
            &&& occurs(
                shown_recipients(e.rcpt_to)
                    + r#"</td><td><a href="/mail/"#@
                    + escaped(e.id),
                page,
            )
            &&& occurs(escaped(e.id) + r#"">"#@ + escaped(e.subject), page)
            &&& occurs(escaped(e.subject) + "</a></td><td>"@ + badge_text(e.conn.kind), page)
            &&& occurs(
                badge_text(e.conn.kind)
                    + "</td><td>"@
                    + bytes_text(e.raw.len() as int),
                page,
            )
            &&& occurs(
                bytes_text(e.raw.len() as int)
                    + "</td><td>"@
                    + duration_text(e.expires_at - now),
                page,
            )
            &&& acc.is_prefix_of(page)
        }),
{
    broadcast use lemma_one_more;

    let parts = Seq::<Seq<char>>::empty()
        .push(acc)
        .push(r#"<tr class="rowlink" onclick="location.href='/mail/"#@)
        .push(escaped(e.id))
        .push(r#"'"><td>"#@)
        .push(time_text(e.received_at))
        .push("</td><td>"@)
        .push(escaped(e.from_header))
        .push("</td><td>"@)
        .push(shown_recipients(e.rcpt_to))
        .push(r#"</td><td><a href="/mail/"#@)
        .push(escaped(e.id))
        .push(r#"">"#@)
        .push(escaped(e.subject))
        .push("</a></td><td>"@)
        .push(badge_text(e.conn.kind))
        .push("</td><td>"@)
        .push(bytes_text(e.raw.len() as int))
        .push("</td><td>"@)
        .push(duration_text(e.expires_at - now))
        .push("</td></tr>"@);
    lemma_three_stand(parts, 1);
    lemma_three_stand(parts, 3);
    lemma_three_stand(parts, 5);
    lemma_three_stand(parts, 7);
    lemma_three_stand(parts, 9);
    lemma_three_stand(parts, 11);
    lemma_three_stand(parts, 13);
    lemma_three_stand(parts, 15);
    lemma_three_stand(parts, 17);
    lemma_three_stand(parts, 2);
    lemma_three_stand(parts, 4);
    lemma_three_stand(parts, 6);
    lemma_three_stand(parts, 8);
    lemma_three_stand(parts, 10);
    lemma_three_stand(parts, 12);
    lemma_three_stand(parts, 14);
    lemma_three_stand(parts, 16);
    lemma_begins_with(parts);
    assert(laid_out(parts) == message_row(acc, e, now));
}

/// The row of a credential shows its name, its password, when it was made, how many
/// messages it received and when it was used last, and deletes that credential.
pub proof fn a_credential_is_shown_in_its_row(acc: Seq<char>, c: SmtpCredential)
    ensures
        ({
            let page = credential_row(acc, c);
            &&& occurs("<tr><td>"@ + copyable(c.username@) + "</td><td>"@, page)
            &&& occurs("</td><td>"@ + copyable(c.password@) + "</td><td>"@, page)
            &&& occurs("</td><td>"@ + time_text(c.created_at) + "</td><td>"@, page)
            &&& occurs(
                "</td><td>"@
                    + signed_decimal(c.total_messages as int)
                    + "</td><td>"@,
                page,
            )
            &&& occurs("</td><td>"@ + time_or_never(c.last_used_at) + r#"</td>
<td><form class="inline" method="post" action="/credentials/"#@, page)
            &&& occurs(
                r#"</td>
<td><form class="inline" method="post" action="/credentials/"#@
                    + signed_decimal(c.id as int)
                    + r#"/delete" onsubmit="return confirm('Delete this SMTP credential?')"><button class="danger">Delete</button></form></td></tr>"#@,
                page,
            )
            &&& occurs(copyable(c.username@) + "</td><td>"@ + copyable(c.password@), page)
            &&& occurs(copyable(c.password@) + "</td><td>"@ + time_text(c.created_at), page)
            &&& occurs(
                time_text(c.created_at)
                    + "</td><td>"@
                    + signed_decimal(c.total_messages as int),
                page,
            )
            &&& occurs(
                signed_decimal(c.total_messages as int)
                    + "</td><td>"@
                    + time_or_never(c.last_used_at),
                page,
            )
            &&& occurs(
                time_or_never(c.last_used_at)
                    + r#"</td>
<td><form class="inline" method="post" action="/credentials/"#@
                    + signed_decimal(c.id as int),
                page,
            )
            &&& acc.is_prefix_of(page)
        }),
{
    broadcast use lemma_one_more;

    let parts = Seq::<Seq<char>>::empty()
        .push(acc)
        .push("<tr><td>"@)
        .push(copyable(c.username@))
        .push("</td><td>"@)
        .push(copyable(c.password@))
        .push("</td><td>"@)
        .push(time_text(c.created_at))
        .push("</td><td>"@)
        .push(signed_decimal(c.total_messages as int))
        .push("</td><td>"@)
        .push(time_or_never(c.last_used_at))
        .push(r#"</td>
<td><form class="inline" method="post" action="/credentials/"#@)
        .push(signed_decimal(c.id as int))
        .push(r#"/delete" onsubmit="return confirm('Delete this SMTP credential?')"><button class="danger">Delete</button></form></td></tr>"#@);
    lemma_three_stand(parts, 1);
    lemma_three_stand(parts, 3);
    lemma_three_stand(parts, 5);
    lemma_three_stand(parts, 7);
    lemma_three_stand(parts, 9);
    lemma_three_stand(parts, 11);
    lemma_three_stand(parts, 2);
    lemma_three_stand(parts, 4);
    lemma_three_stand(parts, 6);
    lemma_three_stand(parts, 8);
    lemma_three_stand(parts, 10);
    lemma_begins_with(parts);
    assert(laid_out(parts) == credential_row(acc, c));
}

/// The row of a user shows their name, when the account was made, and their numbers,
/// each in its column.
pub proof fn a_user_is_shown_in_their_row(acc: Seq<char>, u: AdminUserRow, live: (usize, usize))
    ensures
        ({
            let page = user_row(acc, u, live);
            &&& occurs("<tr><td><strong>"@ + escaped(u.username@) + "</strong>"@, page)
            &&& occurs("</strong>"@ + admin_badge(u.is_admin) + "</td><td>"@, page)
            &&& occurs("</td><td>"@ + time_text(u.created_at) + "</td><td>"@, page)
            &&& occurs("</td><td>"@ + signed_decimal(u.cred_count as int) + "</td><td>"@, page)
            &&& occurs(
                "</td><td>"@
                    + signed_decimal(u.total_messages as int)
                    + "</td><td>"@,
                page,
            )
            &&& occurs("</td><td>"@ + decimal(live.0 as nat) + " ("@, page)
            &&& occurs(" ("@ + bytes_text(live.1 as int) + ")</td><td>"@, page)
            &&& occurs(")</td><td>"@ + bytes_text(u.total_bytes as int) + "</td><td>"@, page)
            &&& occurs("</td><td>"@ + signed_decimal(u.count_plaintext as int) + " / "@, page)
            &&& occurs(" / "@ + signed_decimal(u.count_starttls as int) + " / "@, page)
            &&& occurs(" / "@ + signed_decimal(u.count_tls as int) + "</td><td>"@, page)
            &&& occurs("</td><td>"@ + time_or_never(u.last_message_at) + "</td><td>"@, page)
            &&& occurs("</td><td>"@ + delete_button(u) + "</td></tr>"@, page)
            &&& occurs(escaped(u.username@) + "</strong>"@ + admin_badge(u.is_admin), page)
            &&& occurs(admin_badge(u.is_admin) + "</td><td>"@ + time_text(u.created_at), page)
            &&& occurs(
                time_text(u.created_at)
                    + "</td><td>"@
                    + signed_decimal(u.cred_count as int),
                page,
            )
            &&& occurs(
                signed_decimal(u.cred_count as int)
                    + "</td><td>"@
                    + signed_decimal(u.total_messages as int),
                page,
            )
            &&& occurs(
                signed_decimal(u.total_messages as int)
                    + "</td><td>"@
                    + decimal(live.0 as nat),
                page,
            )
            &&& occurs(decimal(live.0 as nat) + " ("@ + bytes_text(live.1 as int), page)
            &&& occurs(
                bytes_text(live.1 as int)
                    + ")</td><td>"@
                    + bytes_text(u.total_bytes as int),
                page,
            )
            &&& occurs(
                bytes_text(u.total_bytes as int)
                    + "</td><td>"@
                    + signed_decimal(u.count_plaintext as int),
                page,
            )
            &&& occurs(
                signed_decimal(u.count_plaintext as int)
                    + " / "@
                    + signed_decimal(u.count_starttls as int),
                page,
            )
            &&& occurs(
                signed_decimal(u.count_starttls as int)
                    + " / "@
                    + signed_decimal(u.count_tls as int),
                page,
            )
            &&& occurs(
                signed_decimal(u.count_tls as int)
                    + "</td><td>"@
                    + time_or_never(u.last_message_at),
                page,
            )
            &&& occurs(time_or_never(u.last_message_at) + "</td><td>"@ + delete_button(u), page)
            &&& acc.is_prefix_of(page)
        }),
{
    broadcast use lemma_one_more;

    let parts = Seq::<Seq<char>>::empty()
        .push(acc)
        .push("<tr><td><strong>"@)
        .push(escaped(u.username@))
        .push("</strong>"@)
        .push(admin_badge(u.is_admin))
        .push("</td><td>"@)
        .push(time_text(u.created_at))
        .push("</td><td>"@)
        .push(signed_decimal(u.cred_count as int))
        .push("</td><td>"@)
        .push(signed_decimal(u.total_messages as int))
        .push("</td><td>"@)
        .push(decimal(live.0 as nat))
        .push(" ("@)
        .push(bytes_text(live.1 as int))
        .push(")</td><td>"@)
        .push(bytes_text(u.total_bytes as int))
        .push("</td><td>"@)
        .push(signed_decimal(u.count_plaintext as int))
        .push(" / "@)
        .push(signed_decimal(u.count_starttls as int))
        .push(" / "@)
        .push(signed_decimal(u.count_tls as int))
        .push("</td><td>"@)
        .push(time_or_never(u.last_message_at))
        .push("</td><td>"@)
        .push(delete_button(u))
        .push("</td></tr>"@);
    lemma_three_stand(parts, 1);
    lemma_three_stand(parts, 3);
    lemma_three_stand(parts, 5);
    lemma_three_stand(parts, 7);
    lemma_three_stand(parts, 9);
    lemma_three_stand(parts, 11);
    lemma_three_stand(parts, 13);
    lemma_three_stand(parts, 15);
    lemma_three_stand(parts, 17);
    lemma_three_stand(parts, 19);
    lemma_three_stand(parts, 21);
    lemma_three_stand(parts, 23);
    lemma_three_stand(parts, 25);
    lemma_three_stand(parts, 2);
    lemma_three_stand(parts, 4);
    lemma_three_stand(parts, 6);
    lemma_three_stand(parts, 8);
    lemma_three_stand(parts, 10);
    lemma_three_stand(parts, 12);
    lemma_three_stand(parts, 14);
    lemma_three_stand(parts, 16);
    lemma_three_stand(parts, 18);
    lemma_three_stand(parts, 20);
    lemma_three_stand(parts, 22);
    lemma_three_stand(parts, 24);
    lemma_begins_with(parts);
    assert(laid_out(parts) == user_row(acc, u, live));
}

/// The numbers of the server stand on the cards with their names.
pub proof fn every_number_has_its_card(
    stats: GlobalStats,
    live: (usize, usize),
    started_at: int,
    retention_secs: int,
    now: int,
)
    ensures
        ({
            let page = admin_head(stats, live, started_at, retention_secs, now);
            &&& occurs(
                r#"<h1>Admin</h1>
<p class="sub">User accounts and statistics. Message contents are private to their owners and not visible here.</p>
<div class="cards">
<div class="card"><div class="num">"#@
                    + signed_decimal(stats.total_users as int)
                    + r#"</div><div class="lbl">Users</div></div>
<div class="card"><div class="num">"#@,
                page,
            )
            &&& occurs(
                r#"</div><div class="lbl">Users</div></div>
<div class="card"><div class="num">"#@
                    + signed_decimal(stats.total_credentials as int)
                    + r#"</div><div class="lbl">SMTP credentials</div></div>
<div class="card"><div class="num">"#@,
                page,
            )
            &&& occurs(
                r#"</div><div class="lbl">SMTP credentials</div></div>
<div class="card"><div class="num">"#@
                    + signed_decimal(stats.total_messages as int)
                    + r#"</div><div class="lbl">Messages all-time</div></div>
<div class="card"><div class="num">"#@,
                page,
            )
            &&& occurs(
                r#"</div><div class="lbl">Messages all-time</div></div>
<div class="card"><div class="num">"#@
                    + decimal(live.0 as nat)
                    + r#"</div><div class="lbl">Messages in store</div></div>
<div class="card"><div class="num">"#@,
                page,
            )
            &&& occurs(
                r#"</div><div class="lbl">Messages in store</div></div>
<div class="card"><div class="num">"#@
                    + bytes_text(live.1 as int)
                    + r#"</div><div class="lbl">Store size</div></div>
<div class="card"><div class="num">"#@,
                page,
            )
            &&& occurs(
                r#"</div><div class="lbl">Store size</div></div>
<div class="card"><div class="num">"#@
                    + signed_decimal(stats.count_plaintext as int)
                    + r#"</div><div class="lbl">Plaintext</div></div>
<div class="card"><div class="num">"#@,
                page,
            )
            &&& occurs(
                r#"</div><div class="lbl">Plaintext</div></div>
<div class="card"><div class="num">"#@
                    + signed_decimal(stats.count_starttls as int)
                    + r#"</div><div class="lbl">STARTTLS</div></div>
<div class="card"><div class="num">"#@,
                page,
            )
            &&& occurs(
                r#"</div><div class="lbl">STARTTLS</div></div>
<div class="card"><div class="num">"#@
                    + signed_decimal(stats.count_tls as int)
                    + r#"</div><div class="lbl">Implicit TLS</div></div>
<div class="card"><div class="num">"#@,
                page,
            )
            &&& occurs(
                r#"</div><div class="lbl">Implicit TLS</div></div>
<div class="card"><div class="num">"#@
                    + duration_text(now - started_at)
                    + r#"</div><div class="lbl">Uptime</div></div>
<div class="card"><div class="num">"#@,
                page,
            )
            &&& occurs(r#"</div><div class="lbl">Uptime</div></div>
<div class="card"><div class="num">"#@ + duration_text(retention_secs), page)
        }),
{
    broadcast use lemma_one_more;

    let parts = Seq::<Seq<char>>::empty()
        .push(r#"<h1>Admin</h1>
<p class="sub">User accounts and statistics. Message contents are private to their owners and not visible here.</p>
<div class="cards">
<div class="card"><div class="num">"#@)
        .push(signed_decimal(stats.total_users as int))
        .push(r#"</div><div class="lbl">Users</div></div>
<div class="card"><div class="num">"#@)
        .push(signed_decimal(stats.total_credentials as int))
        .push(r#"</div><div class="lbl">SMTP credentials</div></div>
<div class="card"><div class="num">"#@)
        .push(signed_decimal(stats.total_messages as int))
        .push(r#"</div><div class="lbl">Messages all-time</div></div>
<div class="card"><div class="num">"#@)
        .push(decimal(live.0 as nat))
        .push(r#"</div><div class="lbl">Messages in store</div></div>
<div class="card"><div class="num">"#@)
        .push(bytes_text(live.1 as int))
        .push(r#"</div><div class="lbl">Store size</div></div>
<div class="card"><div class="num">"#@)
        .push(signed_decimal(stats.count_plaintext as int))
        .push(r#"</div><div class="lbl">Plaintext</div></div>
<div class="card"><div class="num">"#@)
        .push(signed_decimal(stats.count_starttls as int))
        .push(r#"</div><div class="lbl">STARTTLS</div></div>
<div class="card"><div class="num">"#@)
        .push(signed_decimal(stats.count_tls as int))
        .push(r#"</div><div class="lbl">Implicit TLS</div></div>
<div class="card"><div class="num">"#@)
        .push(duration_text(now - started_at))
        .push(r#"</div><div class="lbl">Uptime</div></div>
<div class="card"><div class="num">"#@)
        .push(duration_text(retention_secs))
        .push(r#"</div><div class="lbl">Retention</div></div>
</div>
<h2>Users</h2><div class="panel">
<table><tr><th>User</th><th>Created</th><th>Credentials</th><th>Messages all-time</th><th>In store</th>
<th>Bytes all-time</th><th>Plain / STARTTLS / TLS</th><th>Last message</th><th></th></tr>"#@);
    lemma_three_stand(parts, 0);
    lemma_three_stand(parts, 2);
    lemma_three_stand(parts, 4);
    lemma_three_stand(parts, 6);
    lemma_three_stand(parts, 8);
    lemma_three_stand(parts, 10);
    lemma_three_stand(parts, 12);
    lemma_three_stand(parts, 14);
    lemma_three_stand(parts, 16);
    lemma_two_stand(parts, 18);
    assert(laid_out(parts) == admin_head(stats, live, started_at, retention_secs, now));
}

/// The details of a delivery stand behind their names.
pub proof fn a_delivery_is_shown_in_detail(e: EmailView, now: int)
    ensures
        ({
            let page = delivery_details(e, now);
            &&& occurs(r#"<div class="kv">
<dt>Connection</dt><dd>"#@ + badge_text(e.conn.kind) + r#"</dd>
<dt>TLS version</dt><dd>"#@, page)
            &&& occurs(r#"</dd>
<dt>TLS version</dt><dd>"#@ + escaped_or(e.conn.tls_version, "none (unencrypted)"@) + r#"</dd>
<dt>TLS cipher</dt><dd>"#@, page)
            &&& occurs(r#"</dd>
<dt>TLS cipher</dt><dd>"#@ + escaped_or(e.conn.tls_cipher, "none"@) + r#"</dd>
<dt>Client address</dt><dd><code>"#@, page)
            &&& occurs(r#"</dd>
<dt>Client address</dt><dd><code>"#@ + escaped(e.conn.peer_addr) + r#"</code></dd>
<dt>HELO/EHLO</dt><dd><code>"#@, page)
            &&& occurs(r#"</code></dd>
<dt>HELO/EHLO</dt><dd><code>"#@ + escaped(e.conn.helo) + "</code> ("@, page)
            &&& occurs("</code> ("@ + protocol(e.conn.esmtp) + r#")</dd>
<dt>AUTH mechanism</dt><dd><code>"#@, page)
            &&& occurs(r#")</dd>
<dt>AUTH mechanism</dt><dd><code>"#@ + escaped(e.conn.auth_mechanism) + r#"</code></dd>
<dt>SMTP credential</dt><dd><code>"#@, page)
            &&& occurs(r#"</code></dd>
<dt>SMTP credential</dt><dd><code>"#@ + escaped(e.cred_username) + r#"</code></dd>
<dt>Envelope sender</dt><dd><code>"#@, page)
            &&& occurs(r#"</code></dd>
<dt>Envelope sender</dt><dd><code>"#@ + envelope_sender(e.mail_from) + r#"</code></dd>
<dt>Envelope recipients</dt><dd>"#@, page)
            &&& occurs(r#"</code></dd>
<dt>Envelope recipients</dt><dd>"#@ + recipient_tags(e.rcpt_to) + r#"</dd>
<dt>Received</dt><dd>"#@, page)
            &&& occurs(r#"</dd>
<dt>Received</dt><dd>"#@ + time_text(e.received_at) + r#"</dd>
<dt>Vanishes</dt><dd>"#@, page)
            &&& occurs(r#"</dd>
<dt>Vanishes</dt><dd>"#@ + time_text(e.expires_at) + " (in "@, page)
            &&& occurs(" (in "@ + duration_text(e.expires_at - now) + r#")</dd>
<dt>Size</dt><dd>"#@, page)
            &&& occurs(r#")</dd>
<dt>Size</dt><dd>"#@ + bytes_text(e.raw.len() as int) + r#"</dd>
</div>"#@, page)
        }),
{
    broadcast use lemma_one_more;

    let parts = Seq::<Seq<char>>::empty()
        .push(r#"<div class="kv">
<dt>Connection</dt><dd>"#@)
        .push(badge_text(e.conn.kind))
        .push(r#"</dd>
<dt>TLS version</dt><dd>"#@)
        .push(escaped_or(e.conn.tls_version, "none (unencrypted)"@))
        .push(r#"</dd>
<dt>TLS cipher</dt><dd>"#@)
        .push(escaped_or(e.conn.tls_cipher, "none"@))
        .push(r#"</dd>
<dt>Client address</dt><dd><code>"#@)
        .push(escaped(e.conn.peer_addr))
        .push(r#"</code></dd>
<dt>HELO/EHLO</dt><dd><code>"#@)
        .push(escaped(e.conn.helo))
        .push("</code> ("@)
        .push(protocol(e.conn.esmtp))
        .push(r#")</dd>
<dt>AUTH mechanism</dt><dd><code>"#@)
        .push(escaped(e.conn.auth_mechanism))
        .push(r#"</code></dd>
<dt>SMTP credential</dt><dd><code>"#@)
        .push(escaped(e.cred_username))
        .push(r#"</code></dd>
<dt>Envelope sender</dt><dd><code>"#@)
        .push(envelope_sender(e.mail_from))
        .push(r#"</code></dd>
<dt>Envelope recipients</dt><dd>"#@)
        .push(recipient_tags(e.rcpt_to))
        .push(r#"</dd>
<dt>Received</dt><dd>"#@)
        .push(time_text(e.received_at))
        .push(r#"</dd>
<dt>Vanishes</dt><dd>"#@)
        .push(time_text(e.expires_at))
        .push(" (in "@)
        .push(duration_text(e.expires_at - now))
        .push(r#")</dd>
<dt>Size</dt><dd>"#@)
        .push(bytes_text(e.raw.len() as int))
        .push(r#"</dd>
</div>"#@);
    lemma_three_stand(parts, 0);
    lemma_three_stand(parts, 2);
    lemma_three_stand(parts, 4);
    lemma_three_stand(parts, 6);
    lemma_three_stand(parts, 8);
    lemma_three_stand(parts, 10);
    lemma_three_stand(parts, 12);
    lemma_three_stand(parts, 14);
    lemma_three_stand(parts, 16);
    lemma_three_stand(parts, 18);
    lemma_three_stand(parts, 20);
    lemma_three_stand(parts, 22);
    lemma_three_stand(parts, 24);
    lemma_three_stand(parts, 26);
    assert(laid_out(parts) == delivery_details(e, now));
}

/// A field has its label, its name and the value of its setting.
pub proof fn a_setting_is_shown_in_its_field(acc: Seq<char>, label: Seq<char>, name: Seq<char>, value: Seq<char>)
    ensures
        ({
            let page = text_field(acc, label, name, value);
            &&& occurs("<label>"@ + label + r#"</label><input type="text" name=""#@, page)
            &&& occurs(r#"</label><input type="text" name=""#@ + name + r#"" value=""#@, page)
            &&& occurs(r#"" value=""#@ + escaped(value) + r#"">
"#@, page)
            &&& acc.is_prefix_of(page)
        }),
{
    broadcast use lemma_one_more;

    let parts = Seq::<Seq<char>>::empty()
        .push(acc)
        .push("<label>"@)
        .push(label)
        .push(r#"</label><input type="text" name=""#@)
        .push(name)
        .push(r#"" value=""#@)
        .push(escaped(value))
        .push(r#"">
"#@);
    lemma_three_stand(parts, 1);
    lemma_three_stand(parts, 3);
    lemma_three_stand(parts, 5);
    lemma_begins_with(parts);
    assert(laid_out(parts) == text_field(acc, label, name, value));
}

/// A switch has its name and its label, and is ticked if it is on.
pub proof fn a_switch_is_shown_in_its_field(acc: Seq<char>, label: Seq<char>, name: Seq<char>, on: bool)
    ensures
        ({
            let page = switch_field(acc, label, name, on);
            &&& occurs(
                r#"<label><input type="checkbox" name=""#@
                    + name
                    + r#"" value="1""#@,
                page,
            )
            &&& occurs(r#"" value="1""#@ + checked_text(on) + "> "@, page)
            &&& occurs("> "@ + label + r#"</label>
"#@, page)
            &&& acc.is_prefix_of(page)
        }),
{
    broadcast use lemma_one_more;

    let parts = Seq::<Seq<char>>::empty()
        .push(acc)
        .push(r#"<label><input type="checkbox" name=""#@)
        .push(name)
        .push(r#"" value="1""#@)
        .push(checked_text(on))
        .push("> "@)
        .push(label)
        .push(r#"</label>
"#@);
    lemma_three_stand(parts, 1);
    lemma_three_stand(parts, 3);
    lemma_three_stand(parts, 5);
    lemma_begins_with(parts);
    assert(laid_out(parts) == switch_field(acc, label, name, on));
}

/// A listener is shown with its address.
pub proof fn a_listener_is_shown_with_its_address(acc: Seq<char>, kind: Kind, addr: Seq<char>)
    ensures
        ({
            let page = listener_row(acc, kind, addr);
            &&& occurs("<li>"@ + kind.label_text() + ": <code>"@, page)
            &&& occurs(": <code>"@ + escaped(addr) + "</code></li>"@, page)
            &&& acc.is_prefix_of(page)
        }),
{
    broadcast use lemma_one_more;

    let parts = Seq::<Seq<char>>::empty()
        .push(acc)
        .push("<li>"@)
        .push(kind.label_text())
        .push(": <code>"@)
        .push(escaped(addr))
        .push("</code></li>"@);
    lemma_three_stand(parts, 1);
    lemma_three_stand(parts, 3);
    lemma_begins_with(parts);
    assert(laid_out(parts) == listener_row(acc, kind, addr));
}

/// The panel of a certificate shows where it is from, its names and when it expires.
pub proof fn a_certificate_is_shown_in_its_panel(acc: Seq<char>, c: CertInfo)
    ensures
        ({
            let page = certificate_panel(acc, Some(c));
            &&& occurs(r#"<div class="kv">
<dt>Source</dt><dd>"#@ + source_text(c.source) + r#"</dd>
<dt>Issuer</dt><dd>"#@, page)
            &&& occurs(r#"</dd>
<dt>Issuer</dt><dd>"#@ + escaped(c.issuer@) + r#"</dd>
<dt>Names</dt><dd><code>"#@, page)
            &&& occurs(r#"</dd>
<dt>Names</dt><dd><code>"#@ + escaped(joined(texts(c.names@), ", "@)) + r#"</code></dd>
<dt>Expires</dt><dd>"#@, page)
            &&& occurs(r#"</code></dd>
<dt>Expires</dt><dd>"#@ + time_text(c.not_after) + r#"</dd>
</div>
"#@, page)
            &&& acc.is_prefix_of(page)
        }),
{
    broadcast use lemma_one_more;

    let parts = Seq::<Seq<char>>::empty()
        .push(acc)
        .push(r#"<div class="kv">
<dt>Source</dt><dd>"#@)
        .push(source_text(c.source))
        .push(r#"</dd>
<dt>Issuer</dt><dd>"#@)
        .push(escaped(c.issuer@))
        .push(r#"</dd>
<dt>Names</dt><dd><code>"#@)
        .push(escaped(joined(texts(c.names@), ", "@)))
        .push(r#"</code></dd>
<dt>Expires</dt><dd>"#@)
        .push(time_text(c.not_after))
        .push(r#"</dd>
</div>
"#@);
    lemma_three_stand(parts, 1);
    lemma_three_stand(parts, 3);
    lemma_three_stand(parts, 5);
    lemma_three_stand(parts, 7);
    lemma_begins_with(parts);
    assert(laid_out(parts) == certificate_panel(acc, Some(c)));
}

/// A form for a name and a password has its title, its button and where it goes.
pub proof fn a_form_to_sign_in_goes_where_it_says(title: Seq<char>, action: Seq<char>, submit: Seq<char>, extra_field: Seq<char>)
    ensures
        ({
            let page = auth_text(title, action, submit, extra_field);
            &&& occurs(r#"<div class="narrow"><div class="panel">
<h1>"#@ + escaped(title) + r#"</h1>
<form method="post" action=""#@, page)
            &&& occurs(r#"</h1>
<form method="post" action=""#@ + escaped(action) + r#"">
"#@, page)
            &&& occurs(r#"">
"#@ + extra_field, page)
            &&& occurs(escaped(submit) + r#"</button>
</form>
</div></div>"#@, page)
        }),
{
    broadcast use lemma_one_more;

    let parts = Seq::<Seq<char>>::empty()
        .push(r#"<div class="narrow"><div class="panel">
<h1>"#@)
        .push(escaped(title))
        .push(r#"</h1>
<form method="post" action=""#@)
        .push(escaped(action))
        .push(r#"">
"#@)
        .push(extra_field)
        .push(r#"
<label for="username">Username</label>
<input type="text" id="username" name="username" required maxlength="32" autocomplete="username">
<label for="password">Password</label>
<input type="password" id="password" name="password" required minlength="8" maxlength="128" autocomplete="current-password">
<button class="primary" type="submit">"#@)
        .push(escaped(submit))
        .push(r#"</button>
</form>
</div></div>"#@);
    lemma_three_stand(parts, 0);
    lemma_three_stand(parts, 2);
    lemma_two_stand(parts, 4);
    lemma_two_stand(parts, 7);
    assert(laid_out(parts) == auth_text(title, action, submit, extra_field));
}

/// A page has its title, its navigation, its message and its content.
pub proof fn a_page_has_its_frame(title: Seq<char>, nav: Seq<char>, flash: Seq<char>, body: Seq<char>)
    ensures
        ({
            let page = layout_text(title, nav, flash, body);
            &&& occurs(r#"<!DOCTYPE html>
<html lang="en">
<head>
<meta charset="utf-8">
<meta name="viewport" content="width=device-width, initial-scale=1">
<title>"#@ + escaped(title) + r#" - SMTPVoid</title>
<style>"#@, page)
            &&& occurs(
                r#"</style>
</head>
<body>
<header><div class="hwrap"><a class="logo" href="/">SMTP<span>Void</span></a>"#@
                    + nav
                    + r#"</div></header>
<main>"#@,
                page,
            )
            &&& occurs(r#"</div></header>
<main>"#@ + flash, page)
            &&& occurs(
                body
                    + r#"</main>
<footer>SMTPVoid is an SMTP testing sink. Messages are held in memory for a limited time and are <strong>never delivered anywhere</strong>.</footer>
</body>
</html>"#@,
                page,
            )
        }),
{
    broadcast use lemma_one_more;

    let parts = Seq::<Seq<char>>::empty()
        .push(r#"<!DOCTYPE html>
<html lang="en">
<head>
<meta charset="utf-8">
<meta name="viewport" content="width=device-width, initial-scale=1">
<title>"#@)
        .push(escaped(title))
        .push(r#" - SMTPVoid</title>
<style>"#@)
        .push(CSS@)
        .push(r#"</style>
</head>
<body>
<header><div class="hwrap"><a class="logo" href="/">SMTP<span>Void</span></a>"#@)
        .push(nav)
        .push(r#"</div></header>
<main>"#@)
        .push(flash)
        .push(body)
        .push(r#"</main>
<footer>SMTPVoid is an SMTP testing sink. Messages are held in memory for a limited time and are <strong>never delivered anywhere</strong>.</footer>
</body>
</html>"#@);
    lemma_three_stand(parts, 0);
    lemma_three_stand(parts, 4);
    lemma_two_stand(parts, 6);
    lemma_two_stand(parts, 8);
    assert(laid_out(parts) == layout_text(title, nav, flash, body));
}

/// The page of a message shows its subject, its sender, its details, its bodies and
/// its headers, and leads to the raw message and to its deletion.
pub proof fn a_message_is_shown_on_its_page(e: EmailView, bodies: Seq<char>, now: int)
    ensures
        ({
            let page = mail_text(e, bodies, now);
            &&& occurs(r#"<p><a href="/dashboard">&larr; Back to mailbox</a></p>
<h1>"#@ + escaped(e.subject) + r#"</h1>
<p class="sub">From "#@, page)
            &&& occurs(r#"</h1>
<p class="sub">From "#@ + escaped(e.from_header) + r#"</p>
<div class="panel"><h2 style="margin-top:0">Delivery details</h2>"#@, page)
            &&& occurs(
                r#"</p>
<div class="panel"><h2 style="margin-top:0">Delivery details</h2>"#@
                    + delivery_details(e, now)
                    + r#"</div>
<div class="panel">"#@,
                page,
            )
            &&& occurs(r#"</div>
<div class="panel">"#@ + bodies + r#"
<h2>Headers</h2><pre>"#@, page)
            &&& occurs(r#"
<h2>Headers</h2><pre>"#@ + escaped(header_block(e.raw)) + r#"</pre>
<p><a class="btn" href="/mail/"#@, page)
            &&& occurs(r#"</pre>
<p><a class="btn" href="/mail/"#@ + escaped(e.id) + r#"/raw">View raw message</a>
<form class="inline" method="post" action="/mail/"#@, page)
            &&& occurs(
                r#"/raw">View raw message</a>
<form class="inline" method="post" action="/mail/"#@
                    + escaped(e.id)
                    + r#"/delete" onsubmit="return confirm('Delete this message?')"><button class="danger" style="margin-left:8px">Delete now</button></form></p>
</div>"#@,
                page,
            )
        }),
{
    broadcast use lemma_one_more;

    let parts = Seq::<Seq<char>>::empty()
        .push(r#"<p><a href="/dashboard">&larr; Back to mailbox</a></p>
<h1>"#@)
        .push(escaped(e.subject))
        .push(r#"</h1>
<p class="sub">From "#@)
        .push(escaped(e.from_header))
        .push(r#"</p>
<div class="panel"><h2 style="margin-top:0">Delivery details</h2>"#@)
        .push(delivery_details(e, now))
        .push(r#"</div>
<div class="panel">"#@)
        .push(bodies)
        .push(r#"
<h2>Headers</h2><pre>"#@)
        .push(escaped(header_block(e.raw)))
        .push(r#"</pre>
<p><a class="btn" href="/mail/"#@)
        .push(escaped(e.id))
        .push(r#"/raw">View raw message</a>
<form class="inline" method="post" action="/mail/"#@)
        .push(escaped(e.id))
        .push(r#"/delete" onsubmit="return confirm('Delete this message?')"><button class="danger" style="margin-left:8px">Delete now</button></form></p>
</div>"#@);
    lemma_three_stand(parts, 0);
    lemma_three_stand(parts, 2);
    lemma_three_stand(parts, 4);
    lemma_three_stand(parts, 6);
    lemma_three_stand(parts, 8);
    lemma_three_stand(parts, 10);
    lemma_three_stand(parts, 12);
    assert(laid_out(parts) == mail_text(e, bodies, now));
}

/// The front page says where mail is sent to, how long it stays, and how to register.
pub proof fn the_front_page_says_where_to_send_mail(smtp: Seq<char>, smtps: Seq<char>, retention_secs: int, open: bool)
    ensures
        ({
            let page = index_text(smtp, smtps, retention_secs, open);
            &&& occurs(
                duration_text(retention_secs)
                    + r#". Nothing is ever stored on disk or delivered to a real mailbox &mdash; this service cannot be used to send actual email.</li>
</ol>
</div>
<div class="panel">
<h2 style="margin-top:0">Endpoints</h2>
<div class="kv">
<dt>SMTP (plaintext + STARTTLS)</dt><dd><code>"#@,
                page,
            )
            &&& occurs(escaped(smtp) + r#"</code></dd>
<dt>SMTPS (implicit TLS)</dt><dd><code>"#@, page)
            &&& occurs(r#"</code></dd>
<dt>SMTPS (implicit TLS)</dt><dd><code>"#@ + escaped(smtps) + r#"</code></dd>
<dt>Authentication</dt><dd><code>AUTH PLAIN</code> and <code>AUTH LOGIN</code></dd>
</div>
</div>
<p>"#@, page)
            &&& occurs(r#"</code></dd>
<dt>Authentication</dt><dd><code>AUTH PLAIN</code> and <code>AUTH LOGIN</code></dd>
</div>
</div>
<p>"#@ + register_link(open) + r#"<a class="btn" href="/login">Sign in</a></p>"#@, page)
        }),
{
    broadcast use lemma_one_more;

    let parts = Seq::<Seq<char>>::empty()
        .push(r#"<h1>Send email into the void</h1>
<p class="sub">A free SMTP testing sink. Point your application at SMTPVoid, send mail to <em>any</em> address, and watch it arrive in your virtual mailbox instead of the real world.</p>
<div class="panel">
<h2 style="margin-top:0">How it works</h2>
<ol>
<li>Create a free account and generate SMTP credentials.</li>
<li>Configure your application to send mail through this server using those credentials.</li>
<li>Messages to any recipient are captured into your private virtual mailbox.</li>
<li>Each message shows how it arrived: <span class="badge b-plain">plaintext</span> <span class="badge b-starttls">STARTTLS</span> or <span class="badge b-tls">implicit TLS</span>, including TLS version and cipher.</li>
<li>Messages self-destruct after "#@)
        .push(duration_text(retention_secs))
        .push(r#". Nothing is ever stored on disk or delivered to a real mailbox &mdash; this service cannot be used to send actual email.</li>
</ol>
</div>
<div class="panel">
<h2 style="margin-top:0">Endpoints</h2>
<div class="kv">
<dt>SMTP (plaintext + STARTTLS)</dt><dd><code>"#@)
        .push(escaped(smtp))
        .push(r#"</code></dd>
<dt>SMTPS (implicit TLS)</dt><dd><code>"#@)
        .push(escaped(smtps))
        .push(r#"</code></dd>
<dt>Authentication</dt><dd><code>AUTH PLAIN</code> and <code>AUTH LOGIN</code></dd>
</div>
</div>
<p>"#@)
        .push(register_link(open))
        .push(r#"<a class="btn" href="/login">Sign in</a></p>"#@);
    lemma_two_stand(parts, 1);
    lemma_two_stand(parts, 3);
    lemma_three_stand(parts, 4);
    lemma_three_stand(parts, 6);
    assert(laid_out(parts) == index_text(smtp, smtps, retention_secs, open));
}

/// The account page is for the user who has signed in.
pub proof fn an_account_page_is_for_its_user(username: Seq<char>)
    ensures
        ({
            let page = account_text(username);
            &&& occurs(r#"<div class="narrow"><div class="panel">
<h1>Account</h1>
<p class="sub">Signed in as <strong>"#@ + escaped(username), page)
        }),
{
    broadcast use lemma_one_more;

    let parts = Seq::<Seq<char>>::empty()
        .push(r#"<div class="narrow"><div class="panel">
<h1>Account</h1>
<p class="sub">Signed in as <strong>"#@)
        .push(escaped(username))
        .push(r#"</strong>.</p>
<form method="post" action="/account/password">
<label for="current_password">Current password</label>
<input type="password" id="current_password" name="current_password" required maxlength="128" autocomplete="current-password">
<label for="new_password">New password</label>
<input type="password" id="new_password" name="new_password" required minlength="8" maxlength="128" autocomplete="new-password">
<label for="confirm_password">New password again</label>
<input type="password" id="confirm_password" name="confirm_password" required minlength="8" maxlength="128" autocomplete="new-password">
<button class="primary" type="submit">Change password</button>
</form>
<p class="muted small">Changing the password ends your other browser sessions. SMTP credentials have passwords of their own and keep working.</p>
</div></div>"#@);
    lemma_two_stand(parts, 0);
    assert(laid_out(parts) == account_text(username));
}

/// The dashboard says who has signed in, how long messages stay, where to connect and
/// with which token to read the mailbox.
pub proof fn the_dashboard_says_how_to_connect(
    username: Seq<char>,
    smtp: Seq<char>,
    smtps: Seq<char>,
    hostname: Seq<char>,
    api_token: Seq<char>,
    retention_secs: int,
)
    ensures
        ({
            let page = dashboard_head(username, smtp, smtps, hostname, api_token, retention_secs);
            &&& occurs(
                r#"<h1>Dashboard</h1><p class="sub">Signed in as <strong>"#@
                    + escaped(username)
                    + "</strong>. Messages vanish "@,
                page,
            )
            &&& occurs(
                "</strong>. Messages vanish "@
                    + duration_text(retention_secs)
                    + r#" after arrival and are never delivered.</p><h2>SMTP server</h2><div class="panel"><div class="kv">
<dt>Server (plaintext/STARTTLS)</dt><dd><code>"#@,
                page,
            )
            &&& occurs(
                r#" after arrival and are never delivered.</p><h2>SMTP server</h2><div class="panel"><div class="kv">
<dt>Server (plaintext/STARTTLS)</dt><dd><code>"#@
                    + escaped(smtp)
                    + r#"</code></dd>
<dt>Server (implicit TLS)</dt><dd><code>"#@,
                page,
            )
            &&& occurs(r#"</code></dd>
<dt>Server (implicit TLS)</dt><dd><code>"#@ + escaped(smtps) + r#"</code></dd>
<dt>Hostname</dt><dd><code>"#@, page)
            &&& occurs(r#"</code></dd>
<dt>Hostname</dt><dd><code>"#@ + escaped(hostname) + r#"</code></dd>
<dt>Mechanisms</dt><dd><code>AUTH PLAIN</code>, <code>AUTH LOGIN</code></dd>
<dt>Mail API token</dt><dd>"#@, page)
            &&& occurs(r#"</code></dd>
<dt>Mechanisms</dt><dd><code>AUTH PLAIN</code>, <code>AUTH LOGIN</code></dd>
<dt>Mail API token</dt><dd>"#@ + copyable(api_token), page)
        }),
{
    broadcast use lemma_one_more;

    let parts = Seq::<Seq<char>>::empty()
        .push(r#"<h1>Dashboard</h1><p class="sub">Signed in as <strong>"#@)
        .push(escaped(username))
        .push("</strong>. Messages vanish "@)
        .push(duration_text(retention_secs))
        .push(r#" after arrival and are never delivered.</p><h2>SMTP server</h2><div class="panel"><div class="kv">
<dt>Server (plaintext/STARTTLS)</dt><dd><code>"#@)
        .push(escaped(smtp))
        .push(r#"</code></dd>
<dt>Server (implicit TLS)</dt><dd><code>"#@)
        .push(escaped(smtps))
        .push(r#"</code></dd>
<dt>Hostname</dt><dd><code>"#@)
        .push(escaped(hostname))
        .push(r#"</code></dd>
<dt>Mechanisms</dt><dd><code>AUTH PLAIN</code>, <code>AUTH LOGIN</code></dd>
<dt>Mail API token</dt><dd>"#@)
        .push(copyable(api_token))
        .push(r#" <details class="small"><summary>(i)</summary>
<p>Send the token as <code>Authorization: Bearer &lt;token&gt;</code> or <code>X-API-Token: &lt;token&gt;</code>.</p>
<p><code>GET /api/list</code> lists the mailbox, newest first; <code>GET /api/latest</code> gives the newest message; <code>GET /api/get/&lt;id&gt;</code> gives one message. <code>to</code>, <code>from</code> and <code>subject</code> filter, <code>limit</code> caps a listing.</p>
<form class="inline" method="post" action="/api-token/regenerate" onsubmit="return confirm('Replace the mail API token?')"><button class="danger">Regenerate</button></form></details></dd>
</div></div>"#@);
    lemma_three_stand(parts, 0);
    lemma_three_stand(parts, 2);
    lemma_three_stand(parts, 4);
    lemma_three_stand(parts, 6);
    lemma_three_stand(parts, 8);
    lemma_two_stand(parts, 10);
    assert(laid_out(parts) == dashboard_head(username, smtp, smtps, hostname, api_token, retention_secs));
}

/// The settings page says where the plaintext web UI is and where data lives.
pub proof fn the_settings_say_where_data_lives(boot: Config)
    ensures
        ({
            let page = settings_head(boot);
            &&& occurs(
                r#"<h1>Settings</h1>
<p class="sub">Changes apply immediately. The plaintext web UI stays on <code>"#@
                    + escaped(boot.http_addr@)
                    + "</code>, and data lives in <code>"@,
                page,
            )
            &&& occurs(
                "</code>, and data lives in <code>"@
                    + escaped(boot.data_dir@)
                    + r#"</code>.</p>
<form method="post" action="/admin/settings"><div class="panel"><h2 style="margin-top:0">Server</h2>
"#@,
                page,
            )
        }),
{
    broadcast use lemma_one_more;

    let parts = Seq::<Seq<char>>::empty()
        .push(r#"<h1>Settings</h1>
<p class="sub">Changes apply immediately. The plaintext web UI stays on <code>"#@)
        .push(escaped(boot.http_addr@))
        .push("</code>, and data lives in <code>"@)
        .push(escaped(boot.data_dir@))
        .push(r#"</code>.</p>
<form method="post" action="/admin/settings"><div class="panel"><h2 style="margin-top:0">Server</h2>
"#@);
    lemma_three_stand(parts, 0);
    lemma_three_stand(parts, 2);
    assert(laid_out(parts) == settings_head(boot));
}

proof fn lemma_text_field_adds(
    acc: Seq<char>,
    label: Seq<char>,
    name: Seq<char>,
    value: Seq<char>,
)
    ensures
        text_field(acc, label, name, value) == acc + text_field(Seq::empty(), label, name, value),
{
    let field = text_field(Seq::empty(), label, name, value);
    assert(text_field(acc, label, name, value) =~= acc + field);
}

proof fn lemma_switch_field_adds(acc: Seq<char>, label: Seq<char>, name: Seq<char>, on: bool)
    ensures
        switch_field(acc, label, name, on) == acc + switch_field(Seq::empty(), label, name, on),
{
    let field = switch_field(Seq::empty(), label, name, on);
    assert(switch_field(acc, label, name, on) =~= acc + field);
}

/// The form has a field for every setting of the server, with its value.
pub proof fn every_server_setting_has_its_field(acc: Seq<char>, s: SettingsView)
    ensures
        occurs(
            text_field(Seq::empty(), "SMTP hostname"@, "hostname"@, s.hostname),
            server_fields(acc, s),
        ),
        occurs(
            text_field(Seq::empty(), "SMTP address"@, "smtp_addr"@, s.smtp_addr),
            server_fields(acc, s),
        ),
        occurs(
            text_field(Seq::empty(), "SMTPS address"@, "smtps_addr"@, s.smtps_addr),
            server_fields(acc, s),
        ),
        occurs(
            text_field(Seq::empty(), "HTTPS web UI address (empty disables it)"@, "https_addr"@, s.https_addr),
            server_fields(acc, s),
        ),
        occurs(
            text_field(Seq::empty(), "Retention (seconds)"@, "retention_secs"@, decimal(s.retention_secs as nat)),
            server_fields(acc, s),
        ),
        occurs(
            text_field(Seq::empty(), "Messages per mailbox"@, "mailbox_cap"@, decimal(s.mailbox_cap as nat)),
            server_fields(acc, s),
        ),
        occurs(
            text_field(Seq::empty(), "Max message size (MiB)"@, "max_message_size"@, mib_text(s.max_message_size)),
            server_fields(acc, s),
        ),
        occurs(
            text_field(Seq::empty(), "SMTP credentials per user"@, "max_credentials_per_user"@, signed_decimal(s.max_credentials_per_user as int)),
            server_fields(acc, s),
        ),
        occurs(
            switch_field(Seq::empty(), "Session cookie Secure"@, "cookie_secure"@, s.cookie_secure),
            server_fields(acc, s),
        ),
        occurs(
            switch_field(Seq::empty(), "Open registration"@, "registration_open"@, s.registration_open),
            server_fields(acc, s),
        ),
        occurs(
            text_field(Seq::empty(), "Registrations per IP per hour"@, "registrations_per_hour"@, decimal(s.registrations_per_hour as nat)),
            server_fields(acc, s),
        ),
{
    broadcast use lemma_one_more;

    let parts = Seq::<Seq<char>>::empty()
        .push(acc)
        .push(text_field(Seq::empty(), "SMTP hostname"@, "hostname"@, s.hostname))
        .push(text_field(Seq::empty(), "SMTP address"@, "smtp_addr"@, s.smtp_addr))
        .push(text_field(Seq::empty(), "SMTPS address"@, "smtps_addr"@, s.smtps_addr))
        .push(text_field(Seq::empty(), "HTTPS web UI address (empty disables it)"@, "https_addr"@, s.https_addr))
        .push(text_field(Seq::empty(), "Retention (seconds)"@, "retention_secs"@, decimal(s.retention_secs as nat)))
        .push(text_field(Seq::empty(), "Messages per mailbox"@, "mailbox_cap"@, decimal(s.mailbox_cap as nat)))
        .push(text_field(Seq::empty(), "Max message size (MiB)"@, "max_message_size"@, mib_text(s.max_message_size)))
        .push(text_field(Seq::empty(), "SMTP credentials per user"@, "max_credentials_per_user"@, signed_decimal(s.max_credentials_per_user as int)))
        .push(switch_field(Seq::empty(), "Session cookie Secure"@, "cookie_secure"@, s.cookie_secure))
        .push(switch_field(Seq::empty(), "Open registration"@, "registration_open"@, s.registration_open))
        .push(text_field(Seq::empty(), "Registrations per IP per hour"@, "registrations_per_hour"@, decimal(s.registrations_per_hour as nat)));
    lemma_text_field_adds(acc, "SMTP hostname"@, "hostname"@, s.hostname);
    let f1 = text_field(acc, "SMTP hostname"@, "hostname"@, s.hostname);
    lemma_text_field_adds(f1, "SMTP address"@, "smtp_addr"@, s.smtp_addr);
    let f2 = text_field(f1, "SMTP address"@, "smtp_addr"@, s.smtp_addr);
    lemma_text_field_adds(f2, "SMTPS address"@, "smtps_addr"@, s.smtps_addr);
    let f3 = text_field(f2, "SMTPS address"@, "smtps_addr"@, s.smtps_addr);
    lemma_text_field_adds(f3, "HTTPS web UI address (empty disables it)"@, "https_addr"@, s.https_addr);
    let f4 = text_field(f3, "HTTPS web UI address (empty disables it)"@, "https_addr"@, s.https_addr);
    lemma_text_field_adds(f4, "Retention (seconds)"@, "retention_secs"@, decimal(s.retention_secs as nat));
    let f5 = text_field(f4, "Retention (seconds)"@, "retention_secs"@, decimal(s.retention_secs as nat));
    lemma_text_field_adds(f5, "Messages per mailbox"@, "mailbox_cap"@, decimal(s.mailbox_cap as nat));
    let f6 = text_field(f5, "Messages per mailbox"@, "mailbox_cap"@, decimal(s.mailbox_cap as nat));
    lemma_text_field_adds(f6, "Max message size (MiB)"@, "max_message_size"@, mib_text(s.max_message_size));
    let f7 = text_field(f6, "Max message size (MiB)"@, "max_message_size"@, mib_text(s.max_message_size));
    lemma_text_field_adds(f7, "SMTP credentials per user"@, "max_credentials_per_user"@, signed_decimal(s.max_credentials_per_user as int));
    let f8 = text_field(f7, "SMTP credentials per user"@, "max_credentials_per_user"@, signed_decimal(s.max_credentials_per_user as int));
    lemma_switch_field_adds(f8, "Session cookie Secure"@, "cookie_secure"@, s.cookie_secure);
    let f9 = switch_field(f8, "Session cookie Secure"@, "cookie_secure"@, s.cookie_secure);
    lemma_switch_field_adds(f9, "Open registration"@, "registration_open"@, s.registration_open);
    let f10 = switch_field(f9, "Open registration"@, "registration_open"@, s.registration_open);
    lemma_text_field_adds(f10, "Registrations per IP per hour"@, "registrations_per_hour"@, decimal(s.registrations_per_hour as nat));
    let f11 = text_field(f10, "Registrations per IP per hour"@, "registrations_per_hour"@, decimal(s.registrations_per_hour as nat));
    lemma_part_stands(parts, 1);
    lemma_part_stands(parts, 2);
    lemma_part_stands(parts, 3);
    lemma_part_stands(parts, 4);
    lemma_part_stands(parts, 5);
    lemma_part_stands(parts, 6);
    lemma_part_stands(parts, 7);
    lemma_part_stands(parts, 8);
    lemma_part_stands(parts, 9);
    lemma_part_stands(parts, 10);
    lemma_part_stands(parts, 11);
    assert(laid_out(parts) == server_fields(acc, s));
}

/// The form has a field for every setting of the certificate, with its value.
pub proof fn every_certificate_setting_has_its_field(acc: Seq<char>, s: SettingsView)
    ensures
        occurs(
            switch_field(Seq::empty(), "Use Let's Encrypt"@, "acme_enabled"@, s.acme_enabled),
            acme_fields(acc, s),
        ),
        occurs(
            text_field(Seq::empty(), "ACME directory"@, "acme_directory"@, s.acme_directory),
            acme_fields(acc, s),
        ),
        occurs(
            text_field(Seq::empty(), "Contact email"@, "acme_contact_email"@, s.acme_contact_email),
            acme_fields(acc, s),
        ),
        occurs(
            text_field(Seq::empty(), "Domains"@, "acme_domains"@, joined(s.acme_domains, ","@)),
            acme_fields(acc, s),
        ),
        occurs(
            text_field(Seq::empty(), "Challenge address"@, "acme_http_addr"@, s.acme_http_addr),
            acme_fields(acc, s),
        ),
        occurs(
            switch_field(Seq::empty(), "I agree to the CA's terms of service"@, "acme_tos_agreed"@, s.acme_tos_agreed),
            acme_fields(acc, s),
        ),
        occurs(
            text_field(Seq::empty(), "Renew when fewer days are left than"@, "acme_renew_before_days"@, signed_decimal(s.acme_renew_before_days as int)),
            acme_fields(acc, s),
        ),
{
    broadcast use lemma_one_more;

    let parts = Seq::<Seq<char>>::empty()
        .push(acc)
        .push(switch_field(Seq::empty(), "Use Let's Encrypt"@, "acme_enabled"@, s.acme_enabled))
        .push(text_field(Seq::empty(), "ACME directory"@, "acme_directory"@, s.acme_directory))
        .push(text_field(Seq::empty(), "Contact email"@, "acme_contact_email"@, s.acme_contact_email))
        .push(text_field(Seq::empty(), "Domains"@, "acme_domains"@, joined(s.acme_domains, ","@)))
        .push(text_field(Seq::empty(), "Challenge address"@, "acme_http_addr"@, s.acme_http_addr))
        .push(switch_field(Seq::empty(), "I agree to the CA's terms of service"@, "acme_tos_agreed"@, s.acme_tos_agreed))
        .push(text_field(Seq::empty(), "Renew when fewer days are left than"@, "acme_renew_before_days"@, signed_decimal(s.acme_renew_before_days as int)));
    lemma_switch_field_adds(acc, "Use Let's Encrypt"@, "acme_enabled"@, s.acme_enabled);
    let f1 = switch_field(acc, "Use Let's Encrypt"@, "acme_enabled"@, s.acme_enabled);
    lemma_text_field_adds(f1, "ACME directory"@, "acme_directory"@, s.acme_directory);
    let f2 = text_field(f1, "ACME directory"@, "acme_directory"@, s.acme_directory);
    lemma_text_field_adds(f2, "Contact email"@, "acme_contact_email"@, s.acme_contact_email);
    let f3 = text_field(f2, "Contact email"@, "acme_contact_email"@, s.acme_contact_email);
    lemma_text_field_adds(f3, "Domains"@, "acme_domains"@, joined(s.acme_domains, ","@));
    let f4 = text_field(f3, "Domains"@, "acme_domains"@, joined(s.acme_domains, ","@));
    lemma_text_field_adds(f4, "Challenge address"@, "acme_http_addr"@, s.acme_http_addr);
    let f5 = text_field(f4, "Challenge address"@, "acme_http_addr"@, s.acme_http_addr);
    lemma_switch_field_adds(f5, "I agree to the CA's terms of service"@, "acme_tos_agreed"@, s.acme_tos_agreed);
    let f6 = switch_field(f5, "I agree to the CA's terms of service"@, "acme_tos_agreed"@, s.acme_tos_agreed);
    lemma_text_field_adds(f6, "Renew when fewer days are left than"@, "acme_renew_before_days"@, signed_decimal(s.acme_renew_before_days as int));
    let f7 = text_field(f6, "Renew when fewer days are left than"@, "acme_renew_before_days"@, signed_decimal(s.acme_renew_before_days as int));
    lemma_part_stands(parts, 1);
    lemma_part_stands(parts, 2);
    lemma_part_stands(parts, 3);
    lemma_part_stands(parts, 4);
    lemma_part_stands(parts, 5);
    lemma_part_stands(parts, 6);
    lemma_part_stands(parts, 7);
    assert(laid_out(parts) == acme_fields(acc, s));
}

/// A list has a row for every entry, in their order.
pub proof fn every_entry_has_its_row(
    acc: Seq<char>,
    creds: Seq<SmtpCredential>,
    c: SmtpCredential,
    emails: Seq<Arc<StoredEmail>>,
    e: Arc<StoredEmail>,
    users: Seq<AdminUserRow>,
    u: AdminUserRow,
    usage: Map<i64, (usize, usize)>,
    active: Seq<(Kind, Seq<char>)>,
    kind: Kind,
    addr: Seq<char>,
    now: int,
)
    ensures
        credential_rows(acc, Seq::empty()) == acc,
        credential_rows(acc, creds.push(c)) == credential_row(credential_rows(acc, creds), c),
        message_rows(acc, Seq::empty(), now) == acc,
        message_rows(acc, emails.push(e), now) == message_row(
            message_rows(acc, emails, now),
            e@,
            now,
        ),
        user_rows(acc, Seq::empty(), usage) == acc,
        user_rows(acc, users.push(u), usage) == user_row(
            user_rows(acc, users, usage),
            u,
            usage_of(usage, u.id),
        ),
        listener_rows(acc, Seq::empty()) == acc,
        listener_rows(acc, active.push((kind, addr))) == listener_row(
            listener_rows(acc, active),
            kind,
            addr,
        ),
        usage.dom().contains(u.id) ==> usage_of(usage, u.id) == usage[u.id],
        !usage.dom().contains(u.id) ==> usage_of(usage, u.id) == (0usize, 0usize),
{
    assert(creds.push(c).drop_last() =~= creds);
    assert(emails.push(e).drop_last() =~= emails);
    assert(users.push(u).drop_last() =~= users);
    assert(active.push((kind, addr)).drop_last() =~= active);
}

// ---- what is shown when ----

/// The links of an admin are for admins, an admin is not offered for deletion, and
/// anybody else is.
pub proof fn admins_are_shown_as_admins(u: AdminUserRow)
    ensures
        admin_links(true)
            == r#"<a href="/admin">Admin</a><a href="/admin/settings">Settings</a>"#@,
        admin_links(false) == ""@,
        admin_badge(true) == r#" <span class="badge b-admin">admin</span>"#@,
        admin_badge(false) == ""@,
        u.is_admin ==> delete_button(u) == ""@,
        !u.is_admin ==> delete_button(u)
            == r#"<form class="inline" method="post" action="/admin/users/"#@ + signed_decimal(
            u.id as int,
        )
            + r#"/delete" onsubmit="return confirm('Delete user, their credentials and mailbox?')"><button class="danger">Delete</button></form>"#@,
{
}

/// The dashboard has its head, the credentials and the mailbox of the user.
pub proof fn a_dashboard_is_its_users(
    username: Seq<char>,
    creds: Seq<SmtpCredential>,
    emails: Seq<Arc<StoredEmail>>,
    e: Endpoints,
    api_token: Seq<char>,
    retention_secs: int,
    now: int,
)
    ensures
        dashboard_text(username, creds, emails, e, api_token, retention_secs, now) == mailbox_list(
            credential_list(
                dashboard_head(
                    username,
                    e.smtp@,
                    e.smtps@,
                    e.hostname@,
                    api_token,
                    retention_secs,
                ),
                creds,
            ),
            emails,
            now,
        ),
{
}

/// The admin page adds up what all users have in the store, messages and bytes.
pub proof fn the_store_is_added_up(
    stats: GlobalStats,
    users: Seq<AdminUserRow>,
    usage: Map<i64, (usize, usize)>,
    ids: Seq<i64>,
    started_at: int,
    retention_secs: int,
    now: int,
)
    requires
        ids.no_duplicates(),
        ids.to_set() == usage.dom(),
        listed_total(ids, |u: i64| usage[u].0 as nat) <= usize::MAX,
        listed_total(ids, |u: i64| usage[u].1 as nat) <= usize::MAX,
    ensures
        admin_text(stats, users, usage, started_at, retention_secs, now) == user_rows(
            admin_head(
                stats,
                (
                    listed_total(ids, |u: i64| usage[u].0 as nat) as usize,
                    listed_total(ids, |u: i64| usage[u].1 as nat) as usize,
                ),
                started_at,
                retention_secs,
                now,
            ),
            users,
            usage,
        ) + "</table></div>"@,
{
    listed_total_is_total(ids, |u: i64| usage[u].0 as nat);
    listed_total_is_total(ids, |u: i64| usage[u].1 as nat);
    assert((|u: i64| usage[u].0 as nat) =~= messages_of(usage));
    assert((|u: i64| usage[u].1 as nat) =~= bytes_held(usage));
}

/// What is added up is the sum.
pub proof fn sums_go_one_by_one(ids: Seq<i64>, id: i64, weight: spec_fn(i64) -> nat)
    ensures
        listed_total(Seq::empty(), weight) == 0,
        listed_total(ids.push(id), weight) == listed_total(ids, weight) + weight(id),
{
    assert(ids.push(id).drop_last() =~= ids);
}

/// Registration is offered while it is open.
pub proof fn registration_is_offered_while_open()
    ensures
        register_link(true) == r#"<a class="btn" href="/register">Create an account</a> "#@,
        register_link(false) == ""@,
{
}

/// Whoever has signed in sees their name, and an admin the links of an admin.
pub proof fn a_user_is_shown_in_the_navigation(username: Seq<char>, admin: bool)
    ensures
        occurs(
            r#"<a class="who" href="/account">"#@ + escaped(username)
                + r#"</a>
                <form class="inline" method="post" action="/logout"><button style="margin:0;padding:4px 12px">Sign out</button></form></nav>"#@,
            user_nav(username, admin),
        ),
        occurs(
            r#"<nav><a href="/dashboard">Dashboard</a>"#@ + admin_links(admin)
                + r#"<a class="who" href="/account">"#@,
            user_nav(username, admin),
        ),
{
    broadcast use lemma_one_more;

    let parts = Seq::<Seq<char>>::empty()
        .push(r#"<nav><a href="/dashboard">Dashboard</a>"#@)
        .push(admin_links(admin))
        .push(r#"<a class="who" href="/account">"#@)
        .push(escaped(username))
        .push(r#"</a>
                <form class="inline" method="post" action="/logout"><button style="margin:0;padding:4px 12px">Sign out</button></form></nav>"#@);
    lemma_three_stand(parts, 0);
    lemma_three_stand(parts, 2);
    assert(laid_out(parts) == user_nav(username, admin));
}

/// Whoever has not signed in is offered to.
pub proof fn a_stranger_is_offered_to_sign_in(u: User)
    ensures
        nav_text(Nav::Anonymous)
            == r#"<nav><a href="/login">Sign in</a><a class="btn" style="margin:0" href="/register">Create account</a></nav>"#@,
        nav_text(Nav::User(&u)) == user_nav(u.username@, u.is_admin),
{
}

/// A message is flashed as what it is, and without one nothing is.
pub proof fn a_message_is_flashed(ok: Seq<char>, err: Seq<char>, other: Option<Seq<char>>)
    ensures
        flash_text(Some(ok), other) == r#"<div class="flash ok">"#@ + escaped(ok) + "</div>"@,
        flash_text(None, Some(err)) == r#"<div class="flash err">"#@ + escaped(err) + "</div>"@,
        flash_text(None, None) == ""@,
{
}

/// A connection is shown by its badge.
pub proof fn connections_have_their_badges()
    ensures
        badge_text(ConnKind::Plaintext) == r#"<span class="badge b-plain">plaintext</span>"#@,
        badge_text(ConnKind::StartTls) == r#"<span class="badge b-starttls">STARTTLS</span>"#@,
        badge_text(ConnKind::ImplicitTls)
            == r#"<span class="badge b-tls">implicit TLS</span>"#@,
{
}

/// Up to two recipients are shown, and of more the first and how many others.
pub proof fn recipients_are_shown(a: Seq<char>, b: Seq<char>, more: Seq<Seq<char>>)
    ensures
        shown_recipients(seq![a]) == escaped(a),
        shown_recipients(seq![a, b]) == escaped(a + ", "@ + b),
        more.len() >= 2 ==> shown_recipients(seq![a] + more) == escaped(a) + " (+"@ + decimal(
            more.len(),
        ) + " more)"@,
        shown_recipients(Seq::empty()) == escaped(Seq::empty()),
{
    texts_are_joined_in_order(a, seq![b], ", "@);
    texts_are_joined_in_order(b, seq![], ", "@);
    assert(seq![a] + seq![b] =~= seq![a, b]);
    assert((seq![a] + more)[0] == a);
}

/// The details show every recipient, the sender between brackets, and which
/// protocol was spoken.
pub proof fn an_envelope_is_shown(list: Seq<Seq<char>>, to: Seq<char>, from: Seq<char>)
    ensures
        recipient_tags(Seq::empty()) == ""@,
        recipient_tags(seq![to]) == ""@ + "<code>"@ + escaped(to) + "</code>"@,
        list.len() > 0 ==> recipient_tags(list.push(to)) == recipient_tags(list) + " "@ + "<code>"@
            + escaped(to) + "</code>"@,
        from.len() == 0 ==> envelope_sender(from) == "&lt;&gt; (null sender)"@,
        from.len() > 0 ==> envelope_sender(from) == "&lt;"@ + escaped(from) + "&gt;"@,
        protocol(true) == "ESMTP"@,
        protocol(false) == "SMTP"@,
        escaped_or(Some(to), from) == escaped(to),
        escaped_or(None, from) == from,
{
    assert(list.push(to).drop_last() =~= list);
}

/// The bodies of a message are shown as far as there are any; a message that cannot
/// be read, and one without any, is said to be so.
pub proof fn bodies_are_shown(text: Seq<char>, html: Seq<char>, n: usize)
    requires
        n > 0,
    ensures
        body_sections(false, None, None, 0)
            == r#"<p class="muted">Message could not be parsed; see raw source below.</p>"#@,
        body_sections(true, None, None, 0)
            == r#"<p class="muted">No decodable body parts.</p>"#@,
        body_sections(true, Some(text), None, 0) == "<h2>Text body</h2><pre>"@ + escaped(text)
            + "</pre>"@,
        body_sections(true, None, Some(html), 0)
            == r#"<h2>HTML body <span class="muted small">(shown as source, not rendered)</span></h2><pre>"#@
            + escaped(html) + "</pre>"@,
        body_sections(true, Some(text), Some(html), 0) == "<h2>Text body</h2><pre>"@ + escaped(text)
            + "</pre>"@
            + r#"<h2>HTML body <span class="muted small">(shown as source, not rendered)</span></h2><pre>"#@
            + escaped(html) + "</pre>"@,
        body_sections(true, Some(text), None, n) == "<h2>Text body</h2><pre>"@ + escaped(text)
            + "</pre>"@ + r#"<h2>Attachments</h2><p class="muted">"#@ + decimal(n as nat)
            + " attachment(s) present in the raw message.</p>"@,
{
    reveal_strlit("");
    reveal_strlit("<h2>Text body</h2><pre>");
    reveal_strlit("</pre>");
    assert(""@ =~= Seq::<char>::empty());
    assert(""@ + "<h2>Text body</h2><pre>"@ =~= "<h2>Text body</h2><pre>"@);
    let h = r#"<h2>HTML body <span class="muted small">(shown as source, not rendered)</span></h2><pre>"#@;
    assert(""@ + h =~= h);
    assert("</pre>"@.len() > 0);
}

/// The bodies that were found are the ones that are shown.
pub proof fn found_bodies_are_shown(b: Bodies)
    ensures
        bodies_text(Some(b)) == body_sections(
            true,
            opt_text(b.text),
            opt_text(b.html),
            b.attachments,
        ),
        bodies_text(None)
            == r#"<p class="muted">Message could not be parsed; see raw source below.</p>"#@,
{
}

/// A mailbox and a list of credentials say that there is nothing while there is
/// nothing, and how many messages there are.
pub proof fn empty_lists_say_so(acc: Seq<char>, creds: Seq<SmtpCredential>, emails: Seq<
    Arc<StoredEmail>,
>, now: int)
    ensures
        creds.len() == 0 ==> credential_list(acc, creds) == acc
            + r#"<h2>SMTP credentials</h2><div class="panel">"#@
            + r#"<p class="muted">No SMTP credentials yet. Create one to start sending mail into the void.</p>"#@
            + r#"<form method="post" action="/credentials/create"><button class="primary">Create SMTP credential</button></form></div>"#@,
        emails.len() == 0 ==> mailbox_list(acc, emails, now) == acc
            + r#"<h2>Mailbox <span class="muted small">("#@ + decimal(0)
            + r#" messages)</span></h2><div class="panel">"#@
            + r#"<p class="muted">The void is empty. Send a message using your SMTP credentials and it will appear here.</p>"#@
            + "</div>"@,
        emails.len() > 0 ==> mailbox_list(acc, emails, now) == message_rows(
            acc + r#"<h2>Mailbox <span class="muted small">("#@ + decimal(emails.len())
                + r#" messages)</span></h2><div class="panel">"#@
                + "<table><tr><th>Received</th><th>From</th><th>To</th><th>Subject</th><th>Connection</th><th>Size</th><th>Expires in</th></tr>"@,
            emails,
            now,
        )
            + r#"</table><form method="post" action="/mailbox/clear" onsubmit="return confirm('Delete all messages in your mailbox?')"><button class="danger" style="margin-top:14px">Empty mailbox</button></form>"#@
            + "</div>"@,
{
}

/// A value can be copied as it is shown.
pub proof fn a_value_is_copied_as_shown(value: Seq<char>, at: i64)
    ensures
        occurs("<code>"@ + escaped(value)
            + r#"</code><button class="copy" type="button" data-copy=""#@, copyable(value)),
        occurs(
            r#"</code><button class="copy" type="button" data-copy=""#@ + escaped(value)
                + r#"" onclick="navigator.clipboard.writeText(this.dataset.copy)">Copy</button>"#@,
            copyable(value),
        ),
        time_or_never(Some(at)) == time_text(at),
        time_or_never(None) == "never"@,
{
    broadcast use lemma_one_more;

    let parts = Seq::<Seq<char>>::empty()
        .push("<code>"@)
        .push(escaped(value))
        .push(r#"</code><button class="copy" type="button" data-copy=""#@)
        .push(escaped(value))
        .push(r#"" onclick="navigator.clipboard.writeText(this.dataset.copy)">Copy</button>"#@);
    lemma_three_stand(parts, 0);
    lemma_three_stand(parts, 2);
    assert(laid_out(parts) == copyable(value));
}

/// Escaping goes character by character: five characters are written as entities,
/// and every other one stands for itself.
pub proof fn escaping_goes_character_by_character(s: Seq<char>, c: char)
    ensures
        escaped(Seq::empty()) == Seq::<char>::empty(),
        escaped(s.push('&')) == escaped(s) + "&amp;"@,
        escaped(s.push('<')) == escaped(s) + "&lt;"@,
        escaped(s.push('>')) == escaped(s) + "&gt;"@,
        escaped(s.push('"')) == escaped(s) + "&quot;"@,
        escaped(s.push('\'')) == escaped(s) + "&#39;"@,
        c != '&' && c != '<' && c != '>' && c != '"' && c != '\'' ==> escaped(s.push(c)) == escaped(
            s,
        ).push(c),
{
    assert(s.push('&').drop_last() =~= s);
    assert(s.push('<').drop_last() =~= s);
    assert(s.push('>').drop_last() =~= s);
    assert(s.push('"').drop_last() =~= s);
    assert(s.push('\'').drop_last() =~= s);
    assert(s.push(c).drop_last() =~= s);
    if c != '&' && c != '<' && c != '>' && c != '"' && c != '\'' {
        assert(escaped(s.push(c)) =~= escaped(s).push(c));
    }
}

// ---- the settings page ----

/// The settings page has the fields of the server and of the certificate, the
/// listeners, the certificate in use and the status of its orders.
pub proof fn a_settings_page_has_its_panels(
    s: SettingsView,
    boot: Config,
    cert: Option<CertInfo>,
    status: AcmeStatusView,
    active: Seq<(Kind, Seq<char>)>,
)
    ensures
        ({
            let fields = server_fields(settings_head(boot), s);
            let acme = acme_fields(
                fields
                    + r#"</div><div class="panel"><h2 style="margin-top:0">Let's Encrypt</h2>
"#@,
                s,
            );
            let listeners = listener_rows(
                acme
                    + r#"</div><button>Save settings</button></form>
<h2>Listeners</h2><div class="panel"><ul>"#@,
                active,
            );
            let panel = certificate_panel(
                listeners
                    + r#"</ul></div>
<h2>Certificate</h2><div class="panel">"#@,
                cert,
            );
            order_status(panel, status).is_prefix_of(settings_text(s, boot, cert, status, active))
        }),
{
    let page = settings_text(s, boot, cert, status, active);
    let fields = server_fields(settings_head(boot), s);
    let acme = acme_fields(
        fields + r#"</div><div class="panel"><h2 style="margin-top:0">Let's Encrypt</h2>
"#@,
        s,
    );
    let listeners = listener_rows(
        acme + r#"</div><button>Save settings</button></form>
<h2>Listeners</h2><div class="panel"><ul>"#@,
        active,
    );
    let panel = certificate_panel(
        listeners + r#"</ul></div>
<h2>Certificate</h2><div class="panel">"#@,
        cert,
    );
    let head = order_status(panel, status);
    assert(page.subrange(0, head.len() as int) =~= head);
}

// ---- the certificate ----

/// The source of a certificate is named, and a panel without one says so.
pub proof fn a_certificate_is_named_by_its_source(acc: Seq<char>, on: bool)
    ensures
        source_text(CertSource::SelfSigned) == "self-signed"@,
        source_text(CertSource::Acme) == "Let's Encrypt"@,
        source_text(CertSource::AcmeStaging) == "Let's Encrypt staging (untrusted)"@,
        source_text(CertSource::Operator) == "installed by the operator"@,
        certificate_panel(acc, None) == acc
            + r#"<p class="muted">No certificate is loaded.</p>
"#@,
        on ==> checked_text(on) == " checked"@,
        !on ==> checked_text(on) == ""@,
{
}

/// The status of an order has a line for everything that there is to say, and none
/// for anything else.
pub proof fn an_order_is_shown_line_by_line(
    acc: Seq<char>,
    head: Seq<char>,
    t: Seq<char>,
    at: i64,
    s: AcmeStatusView,
)
    ensures
        status_line(acc, head, Some(t)) == acc + head + escaped(t) + "</p>\n"@,
        status_line(acc, head, None) == acc,
        status_time(acc, head, Some(at)) == acc + head + time_text(at) + "</p>\n"@,
        status_time(acc, head, None) == acc,
        s.stage is None && s.hold is None && s.last_error is None && s.last_attempt is None
            && s.last_success is None ==> order_status(acc, s) == acc,
        s.stage == Some(t) && s.hold is None && s.last_error is None && s.last_attempt is None
            && s.last_success is None ==> order_status(acc, s) == acc + "<p>Order in progress: "@
            + escaped(t) + "</p>\n"@,
        s.stage is None && s.hold == Some(t) && s.last_error is None && s.last_attempt is None
            && s.last_success is None ==> order_status(acc, s) == acc
            + r#"<p class="muted">Ordering is on hold: "#@ + escaped(t) + "</p>\n"@,
        s.stage is None && s.hold is None && s.last_error == Some(t) && s.last_attempt is None
            && s.last_success is None ==> order_status(acc, s) == acc
            + r#"<p class="err">Last order failed: "#@ + escaped(t) + "</p>\n"@,
        s.stage is None && s.hold is None && s.last_error is None && s.last_attempt == Some(at)
            && s.last_success is None ==> order_status(acc, s) == acc
            + r#"<p class="muted">Last attempt: "#@ + time_text(at) + "</p>\n"@,
        s.stage is None && s.hold is None && s.last_error is None && s.last_attempt is None
            && s.last_success == Some(at) ==> order_status(acc, s) == acc
            + r#"<p class="muted">Last success: "#@ + time_text(at) + "</p>\n"@,
{
}

} // verus!
