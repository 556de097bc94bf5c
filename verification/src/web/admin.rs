//! The admin page: accounts and statistics, and never anyone's mail.

use std::collections::HashMap;

use vstd::prelude::*;
use vstd::std_specs::iter::IteratorSpec;
use vstd::string::*;

use crate::config::{
    bytes_text, duration_text, fmt_bytes, fmt_duration, fmt_size, fmt_span, fmt_ts, now_unix,
    time_text,
};
use crate::db::{AdminUserRow, GlobalStats};
use crate::tally::{at_most_usize, listed_total, listed_total_is_total, total};
use crate::text::{decimal, show_i64, show_usize, signed_decimal};
use crate::web::dashboard::{fmt_ts_or_never, time_or_never};
use crate::web::html::{esc, escaped};

verus! {

broadcast use vstd::std_specs::hash::group_hash_axioms;

/// How many messages of a user are in store.
pub open spec fn messages_of(usage: Map<i64, (usize, usize)>) -> spec_fn(i64) -> nat {
    |u: i64| usage[u].0 as nat
}

/// How many bytes of a user are in store.
pub open spec fn bytes_held(usage: Map<i64, (usize, usize)>) -> spec_fn(i64) -> nat {
    |u: i64| usage[u].1 as nat
}

/// What is in store altogether: messages and bytes, up to the largest `usize`.
pub fn usage_totals(usage: &HashMap<i64, (usize, usize)>) -> (r: (usize, usize))
    ensures
        r.0 == at_most_usize(total(usage@.dom(), messages_of(usage@))),
        r.1 == at_most_usize(total(usage@.dom(), bytes_held(usage@))),
{
    let mut ids: Vec<i64> = Vec::new();
    let ghost keys = vstd::std_specs::hash::spec_keys_iter(usage).remaining();
    for k in it: usage.keys()
        invariant
            it.seq() == keys,
            ids@.len() == it.index(),
            forall|j: int| 0 <= j < ids@.len() ==> ids@[j] == *keys[j],
    {
        ids.push(*k);
    }
    proof {
        assert(ids@ =~= keys.unref());
        assert forall|a: int, b: int| 0 <= a < b < ids@.len() implies ids@[a] != ids@[b] by {
            assert(keys[a] != keys[b]);
        }
    }
    let mut messages: usize = 0;
    let mut bytes: usize = 0;
    let mut i: usize = 0;
    assert(ids@.take(0) =~= Seq::empty());
    while i < ids.len()
        invariant
            i <= ids@.len(),
            ids@.to_set() == usage@.dom(),
            messages == at_most_usize(listed_total(ids@.take(i as int), messages_of(usage@))),
            bytes == at_most_usize(listed_total(ids@.take(i as int), bytes_held(usage@))),
        decreases ids@.len() - i,
    {
        let u = ids[i];
        proof {
            assert(ids@.take(i + 1).drop_last() =~= ids@.take(i as int));
            assert(ids@.take(i + 1).last() == u);
            assert(ids@[i as int] == u);
            assert(ids@.to_set().contains(u));
        }
        if let Some(w) = usage.get(&u) {
            let (n, b) = *w;
            messages = if n <= usize::MAX - messages {
                messages + n
            } else {
                usize::MAX
            };
            bytes = if b <= usize::MAX - bytes {
                bytes + b
            } else {
                usize::MAX
            };
        }
        i += 1;
    }
    proof {
        assert(ids@.take(ids@.len() as int) =~= ids@);
        listed_total_is_total(ids@, messages_of(usage@));
        listed_total_is_total(ids@, bytes_held(usage@));
    }
    (messages, bytes)
}

/// The top of the admin page: the statistics, and what is in store now.
pub open spec fn admin_head(
    stats: GlobalStats,
    live: (usize, usize),
    started_at: int,
    retention_secs: int,
    now: int,
) -> Seq<char> {
    r#"<h1>Admin</h1>
<p class="sub">User accounts and statistics. Message contents are private to their owners and not visible here.</p>
<div class="cards">
<div class="card"><div class="num">"#@
        + signed_decimal(stats.total_users as int)
        + r#"</div><div class="lbl">Users</div></div>
<div class="card"><div class="num">"#@
        + signed_decimal(stats.total_credentials as int)
        + r#"</div><div class="lbl">SMTP credentials</div></div>
<div class="card"><div class="num">"#@
        + signed_decimal(stats.total_messages as int)
        + r#"</div><div class="lbl">Messages all-time</div></div>
<div class="card"><div class="num">"#@
        + decimal(live.0 as nat)
        + r#"</div><div class="lbl">Messages in store</div></div>
<div class="card"><div class="num">"#@
        + bytes_text(live.1 as int)
        + r#"</div><div class="lbl">Store size</div></div>
<div class="card"><div class="num">"#@
        + signed_decimal(stats.count_plaintext as int)
        + r#"</div><div class="lbl">Plaintext</div></div>
<div class="card"><div class="num">"#@
        + signed_decimal(stats.count_starttls as int)
        + r#"</div><div class="lbl">STARTTLS</div></div>
<div class="card"><div class="num">"#@
        + signed_decimal(stats.count_tls as int)
        + r#"</div><div class="lbl">Implicit TLS</div></div>
<div class="card"><div class="num">"#@
        + duration_text(now - started_at)
        + r#"</div><div class="lbl">Uptime</div></div>
<div class="card"><div class="num">"#@
        + duration_text(retention_secs)
        + r#"</div><div class="lbl">Retention</div></div>
</div>
<h2>Users</h2><div class="panel">
<table><tr><th>User</th><th>Created</th><th>Credentials</th><th>Messages all-time</th><th>In store</th>
<th>Bytes all-time</th><th>Plain / STARTTLS / TLS</th><th>Last message</th><th></th></tr>"#@
}

fn show_admin_head(
    stats: &GlobalStats,
    live: (usize, usize),
    started_at: i64,
    retention_secs: i64,
    now: i64,
) -> (r: String)
    ensures
        r@ == admin_head(*stats, live, started_at as int, retention_secs as int, now as int),
{
    let mut out = r#"<h1>Admin</h1>
<p class="sub">User accounts and statistics. Message contents are private to their owners and not visible here.</p>
<div class="cards">
<div class="card"><div class="num">"#.to_string();
    out.append(show_i64(stats.total_users).as_str());
    out.append(r#"</div><div class="lbl">Users</div></div>
<div class="card"><div class="num">"#);
    out.append(show_i64(stats.total_credentials).as_str());
    out.append(r#"</div><div class="lbl">SMTP credentials</div></div>
<div class="card"><div class="num">"#);
    out.append(show_i64(stats.total_messages).as_str());
    out.append(r#"</div><div class="lbl">Messages all-time</div></div>
<div class="card"><div class="num">"#);
    out.append(show_usize(live.0).as_str());
    out.append(r#"</div><div class="lbl">Messages in store</div></div>
<div class="card"><div class="num">"#);
    out.append(fmt_size(live.1 as u64).as_str());
    out.append(r#"</div><div class="lbl">Store size</div></div>
<div class="card"><div class="num">"#);
    out.append(show_i64(stats.count_plaintext).as_str());
    out.append(r#"</div><div class="lbl">Plaintext</div></div>
<div class="card"><div class="num">"#);
    out.append(show_i64(stats.count_starttls).as_str());
    out.append(r#"</div><div class="lbl">STARTTLS</div></div>
<div class="card"><div class="num">"#);
    out.append(show_i64(stats.count_tls).as_str());
    out.append(r#"</div><div class="lbl">Implicit TLS</div></div>
<div class="card"><div class="num">"#);
    out.append(fmt_span(started_at, now).as_str());
    out.append(r#"</div><div class="lbl">Uptime</div></div>
<div class="card"><div class="num">"#);
    out.append(fmt_duration(retention_secs).as_str());
    out.append(r#"</div><div class="lbl">Retention</div></div>
</div>
<h2>Users</h2><div class="panel">
<table><tr><th>User</th><th>Created</th><th>Credentials</th><th>Messages all-time</th><th>In store</th>
<th>Bytes all-time</th><th>Plain / STARTTLS / TLS</th><th>Last message</th><th></th></tr>"#);
    out
}

pub open spec fn admin_badge(admin: bool) -> Seq<char> {
    if admin {
        r#" <span class="badge b-admin">admin</span>"#@
    } else {
        ""@
    }
}

/// The button that deletes a user. Admin accounts have none.
pub open spec fn delete_button(u: AdminUserRow) -> Seq<char> {
    if u.is_admin {
        ""@
    } else {
        r#"<form class="inline" method="post" action="/admin/users/"#@
        + signed_decimal(u.id as int)
        + r#"/delete" onsubmit="return confirm('Delete user, their credentials and mailbox?')"><button class="danger">Delete</button></form>"#@
    }
}

fn show_delete_button(u: &AdminUserRow) -> (r: String)
    ensures
        r@ == delete_button(*u),
{
    if u.is_admin {
        return "".to_string();
    }
    let mut out = r#"<form class="inline" method="post" action="/admin/users/"#.to_string();
    out.append(show_i64(u.id).as_str());
    out.append(r#"/delete" onsubmit="return confirm('Delete user, their credentials and mailbox?')"><button class="danger">Delete</button></form>"#);
    out
}

/// What a user has in store.
pub open spec fn usage_of(usage: Map<i64, (usize, usize)>, user_id: i64) -> (usize, usize) {
    if usage.dom().contains(user_id) {
        usage[user_id]
    } else {
        (0usize, 0usize)
    }
}

/// `acc` with the row of one user behind it.
pub open spec fn user_row(acc: Seq<char>, u: AdminUserRow, live: (usize, usize)) -> Seq<char> {
    acc
        + "<tr><td><strong>"@
        + escaped(u.username@)
        + "</strong>"@
        + admin_badge(u.is_admin)
        + "</td><td>"@
        + time_text(u.created_at)
        + "</td><td>"@
        + signed_decimal(u.cred_count as int)
        + "</td><td>"@
        + signed_decimal(u.total_messages as int)
        + "</td><td>"@
        + decimal(live.0 as nat)
        + " ("@
        + bytes_text(live.1 as int)
        + ")</td><td>"@
        + bytes_text(u.total_bytes as int)
        + "</td><td>"@
        + signed_decimal(u.count_plaintext as int)
        + " / "@
        + signed_decimal(u.count_starttls as int)
        + " / "@
        + signed_decimal(u.count_tls as int)
        + "</td><td>"@
        + time_or_never(u.last_message_at)
        + "</td><td>"@
        + delete_button(u)
        + "</td></tr>"@
}

/// `acc` with the rows of the users behind it.
pub open spec fn user_rows(
    acc: Seq<char>,
    users: Seq<AdminUserRow>,
    usage: Map<i64, (usize, usize)>,
) -> Seq<char>
    decreases users.len(),
{
    if users.len() == 0 {
        acc
    } else {
        user_row(
            user_rows(acc, users.drop_last(), usage),
            users.last(),
            usage_of(usage, users.last().id),
        )
    }
}

fn add_user_row(out: &mut String, u: &AdminUserRow, live: (usize, usize))
    ensures
        final(out)@ == user_row(old(out)@, *u, live),
{
    out.append("<tr><td><strong>");
    out.append(esc(u.username.as_str()).as_str());
    out.append("</strong>");
    out.append(if u.is_admin {
        r#" <span class="badge b-admin">admin</span>"#
    } else {
        ""
    });
    out.append("</td><td>");
    out.append(fmt_ts(u.created_at).as_str());
    out.append("</td><td>");
    out.append(show_i64(u.cred_count).as_str());
    out.append("</td><td>");
    out.append(show_i64(u.total_messages).as_str());
    out.append("</td><td>");
    out.append(show_usize(live.0).as_str());
    out.append(" (");
    out.append(fmt_size(live.1 as u64).as_str());
    out.append(")</td><td>");
    out.append(fmt_bytes(u.total_bytes).as_str());
    out.append("</td><td>");
    out.append(show_i64(u.count_plaintext).as_str());
    out.append(" / ");
    out.append(show_i64(u.count_starttls).as_str());
    out.append(" / ");
    out.append(show_i64(u.count_tls).as_str());
    out.append("</td><td>");
    out.append(fmt_ts_or_never(u.last_message_at).as_str());
    out.append("</td><td>");
    out.append(show_delete_button(u).as_str());
    out.append("</td></tr>");
}

/// The admin page, at `now`.
pub open spec fn admin_text(
    stats: GlobalStats,
    users: Seq<AdminUserRow>,
    usage: Map<i64, (usize, usize)>,
    started_at: int,
    retention_secs: int,
    now: int,
) -> Seq<char> {
    let live = (
        at_most_usize(total(usage.dom(), messages_of(usage))),
        at_most_usize(total(usage.dom(), bytes_held(usage))),
    );
    user_rows(admin_head(stats, live, started_at, retention_secs, now), users, usage)
        + "</table></div>"@
}

/// The admin page, at `now`.
pub fn admin_page_at(
    stats: &GlobalStats,
    users: &[AdminUserRow],
    usage: &HashMap<i64, (usize, usize)>,
    started_at: i64,
    retention_secs: i64,
    now: i64,
) -> (r: String)
    ensures
        r@ == admin_text(
            *stats,
            users@,
            usage@,
            started_at as int,
            retention_secs as int,
            now as int,
        ),
{
    let live = usage_totals(usage);
    let mut out = show_admin_head(stats, live, started_at, retention_secs, now);
    let ghost start = out@;
    let mut i: usize = 0;
    assert(users@.take(0) =~= Seq::empty());
    while i < users.len()
        invariant
            i <= users@.len(),
            out@ == user_rows(start, users@.take(i as int), usage@),
        decreases users@.len() - i,
    {
        assert(users@.take(i + 1).drop_last() =~= users@.take(i as int));
        assert(users@.take(i + 1).last() == users@[i as int]);
        let held = match usage.get(&users[i].id) {
            Some(w) => *w,
            None => (0usize, 0usize),
        };
        add_user_row(&mut out, &users[i], held);
        i += 1;
    }
    assert(users@.take(users@.len() as int) =~= users@);
    out.append("</table></div>");
    out
}

/// The admin page.
pub fn admin_page(
    stats: &GlobalStats,
    users: &[AdminUserRow],
    usage: &HashMap<i64, (usize, usize)>,
    started_at: i64,
    retention_secs: i64,
) -> (r: String)
    ensures
        exists|now: i64|
            r@ == #[trigger] admin_text(
                *stats,
                users@,
                usage@,
                started_at as int,
                retention_secs as int,
                now as int,
            ),
{
    admin_page_at(stats, users, usage, started_at, retention_secs, now_unix())
}

} // verus!
