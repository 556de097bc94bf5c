//! What holds of sessions and registrations, of the counters and the listeners.

use vstd::prelude::*;

use crate::db::{column_of, deltas_of, stats_of, with_counter, GlobalStats};
use crate::listeners::{
    active_list, after_pass, bind_failure, desired_address, hint, is_privileged, needs_bind,
    needs_stop, reconciled, Kind, ListenersView,
};
use crate::mailstore::ConnKind;
use crate::settings::SettingsView;
use crate::state::{
    after_attempt, live_sessions, open_windows, refreshed, session_end, sessions_without, user_of,
    window_of, WebSession,
};
use crate::text::{decimal, decimal_reads_back, is_digit};
use crate::text_laws::the_last_place_is_the_last;

verus! {

// ---- sessions ----

/// A session is its user's while it lasts, and nobody's from then on. Other
/// sessions do not change that.
pub proof fn a_session_is_its_users(
    m: Map<Seq<char>, WebSession>,
    token: Seq<char>,
    session: WebSession,
    other: Seq<char>,
    now: i64,
)
    requires
        other != token,
    ensures
        session.expires_at > now ==> user_of(m.insert(token, session), token, now) == Some(
            session.user_id,
        ),
        session.expires_at <= now ==> user_of(m.insert(token, session), token, now) is None,
        user_of(m.insert(token, session), other, now) == user_of(m, other, now),
        user_of(m.remove(token), token, now) is None,
        user_of(m.remove(token), other, now) == user_of(m, other, now),
        !m.dom().contains(token) ==> user_of(m, token, now) is None,
{
}

/// Using a session makes it last for seven days from then on, and changes no other
/// session that lasts; what has ended goes.
pub proof fn using_a_session_prolongs_it(
    m: Map<Seq<char>, WebSession>,
    token: Seq<char>,
    other: Seq<char>,
    now: i64,
    later: i64,
)
    requires
        other != token,
        now <= later,
        now + 604_800 <= i64::MAX,
    ensures
        user_of(m, token, now) is Some ==> refreshed(m, token, now)[token] == (WebSession {
            user_id: m[token].user_id,
            expires_at: (now + 604_800) as i64,
        }),
        user_of(m, token, now) is Some ==> (user_of(refreshed(m, token, now), token, later)
            == user_of(m, token, now) <==> later < now + 604_800),
        user_of(m, token, now) is None ==> user_of(refreshed(m, token, now), token, later) is None,
        user_of(refreshed(m, token, now), other, later) == user_of(m, other, later),
        refreshed(m, token, now).dom().contains(other) <==> m.dom().contains(other)
            && m[other].expires_at > now,
        session_end(now) == now + 604_800,
{
}

/// What has ended is not live, and what is live is as it was.
pub proof fn live_sessions_are_as_they_were(
    m: Map<Seq<char>, WebSession>,
    token: Seq<char>,
    now: i64,
)
    ensures
        live_sessions(m, now).dom().contains(token) <==> m.dom().contains(token)
            && m[token].expires_at > now,
        live_sessions(m, now).dom().contains(token) ==> live_sessions(m, now)[token] == m[token],
{
}

/// Ending a user's sessions leaves the sessions of others, and the one to keep, as
/// they were.
pub proof fn other_sessions_stay_as_they_were(
    m: Map<Seq<char>, WebSession>,
    user_id: i64,
    keep: Seq<char>,
    token: Seq<char>,
)
    ensures
        m.dom().contains(token) && (m[token].user_id != user_id || token == keep)
            ==> sessions_without(m, user_id, Some(keep)).dom().contains(token)
            && sessions_without(m, user_id, Some(keep))[token] == m[token],
        m.dom().contains(token) && m[token].user_id == user_id && token != keep
            ==> !sessions_without(m, user_id, Some(keep)).dom().contains(token),
        sessions_without(m, user_id, None).dom().contains(token) <==> m.dom().contains(token)
            && m[token].user_id != user_id,
{
}

// ---- registrations ----

/// An attempt counts in its client's window of an hour, up to the limit; the window
/// starts with the first attempt in it.
pub proof fn an_attempt_counts_in_its_window(
    m: Map<Seq<char>, (i64, u32)>,
    client: Seq<char>,
    other: Seq<char>,
    limit: u32,
    start: i64,
    count: u32,
    now: i64,
)
    requires
        other != client,
    ensures
        m.dom().contains(client) && m[client] == (start, count) && now - start < 3600
            ==> window_of(m, client, now) == (start, count) && after_attempt(
            m,
            client,
            limit,
            now,
        )[client] == (
            start,
            if count < limit {
                (count + 1) as u32
            } else {
                count
            },
        ),
        !m.dom().contains(client) || now - m[client].0 >= 3600 ==> window_of(m, client, now) == (
            now,
            0u32,
        ) && after_attempt(m, client, limit, now)[client] == (
            now,
            if 0 < limit {
                1u32
            } else {
                0u32
            },
        ),
        window_of(after_attempt(m, client, limit, now), other, now) == window_of(m, other, now),
        open_windows(m, now).dom().contains(other) <==> m.dom().contains(other) && now - m[other].0
            < 3600,
{
}

// ---- counters ----

/// A counter is set by its name, and the others stay.
pub proof fn a_counter_is_set_by_its_name(s: GlobalStats, key: Seq<char>, value: i64)
    ensures
        with_counter(s, "total_messages"@, value) == (GlobalStats { total_messages: value, ..s }),
        with_counter(s, "total_bytes"@, value) == (GlobalStats { total_bytes: value, ..s }),
        with_counter(s, "count_plaintext"@, value) == (GlobalStats { count_plaintext: value, ..s
        }),
        with_counter(s, "count_starttls"@, value) == (GlobalStats { count_starttls: value, ..s }),
        with_counter(s, "count_tls"@, value) == (GlobalStats { count_tls: value, ..s }),
        key != "total_messages"@ && key != "total_bytes"@ && key != "count_plaintext"@ && key
            != "count_starttls"@ && key != "count_tls"@ ==> with_counter(s, key, value) == s,
        column_of(ConnKind::Plaintext) == "count_plaintext"@,
        column_of(ConnKind::StartTls) == "count_starttls"@,
        column_of(ConnKind::ImplicitTls) == "count_tls"@,
{
    reveal_strlit("total_messages");
    reveal_strlit("total_bytes");
    reveal_strlit("count_plaintext");
    reveal_strlit("count_starttls");
    reveal_strlit("count_tls");
    assert("total_messages"@.len() == 14 && "total_bytes"@.len() == 11);
    assert("count_plaintext"@.len() == 15 && "count_starttls"@.len() == 14);
    assert("count_tls"@.len() == 9);
    assert("total_messages"@[0] != "count_starttls"@[0]);
}

/// A message counts once in all, with its size, and once for its connection.
pub proof fn a_message_counts_once(size: i64, kind: ConnKind, key: Seq<char>, n: i64)
    ensures
        deltas_of(size, kind).contains((key, n)) <==> {
            ||| key == "total_messages"@ && n == 1
            ||| key == "total_bytes"@ && n == size
            ||| kind == ConnKind::Plaintext && key == "count_plaintext"@ && n == 1
            ||| kind == ConnKind::StartTls && key == "count_starttls"@ && n == 1
            ||| kind == ConnKind::ImplicitTls && key == "count_tls"@ && n == 1
        },
        deltas_of(size, kind).len() == 3,
{
    let d = deltas_of(size, kind);
    assert(d.contains(d[0]) && d.contains(d[1]) && d.contains(d[2]));
    if d.contains((key, n)) {
        let i = choose|i: int| 0 <= i < d.len() && d[i] == (key, n);
        assert(i == 0 || i == 1 || i == 2);
    }
}

/// The statistics hold the last value of every counter, and zero for one that has
/// none.
pub proof fn statistics_hold_the_last_values(
    users: i64,
    credentials: i64,
    rows: Seq<(String, i64)>,
    row: (String, i64),
)
    ensures
        stats_of(users, credentials, Seq::empty()) == (GlobalStats {
            total_users: users,
            total_credentials: credentials,
            total_messages: 0,
            total_bytes: 0,
            count_plaintext: 0,
            count_starttls: 0,
            count_tls: 0,
        }),
        stats_of(users, credentials, rows.push(row)) == with_counter(
            stats_of(users, credentials, rows),
            row.0@,
            row.1,
        ),
        stats_of(users, credentials, rows).total_users == users,
        stats_of(users, credentials, rows).total_credentials == credentials,
    decreases rows.len(),
{
    assert(rows.push(row).drop_last() =~= rows);
    if rows.len() > 0 {
        statistics_hold_the_last_values(users, credentials, rows.drop_last(), row);
    }
}

// ---- listeners ----

/// Each listener is wanted on the address of its setting, and the one for
/// challenges only while certificates are ordered.
pub proof fn listeners_are_wanted_where_configured(s: SettingsView)
    ensures
        desired_address(s, Kind::Smtp) == s.smtp_addr,
        desired_address(s, Kind::Smtps) == s.smtps_addr,
        desired_address(s, Kind::Https) == s.https_addr,
        s.acme_enabled ==> desired_address(s, Kind::AcmeHttp) == s.acme_http_addr,
        !s.acme_enabled ==> desired_address(s, Kind::AcmeHttp).len() == 0,
{
    reveal_strlit("");
}

/// A listener is stopped if it runs and is not wanted, bound if it is wanted where
/// it does not run, and left alone otherwise; a bind that fails changes nothing.
pub proof fn a_listener_goes_where_it_is_wanted(
    l: ListenersView,
    kind: Kind,
    addr: Seq<char>,
    works: bool,
)
    ensures
        addr.len() == 0 && l.at(kind) is Some && l.at(kind)->0.len() > 0 ==> reconciled(
            l,
            kind,
            addr,
            works,
        ).at(kind) is None && needs_stop(l.at(kind), addr),
        addr.len() > 0 && works ==> reconciled(l, kind, addr, works).at(kind) == Some(addr),
        addr.len() > 0 && !works ==> reconciled(l, kind, addr, works) == l,
        l.at(kind) == Some(addr) ==> reconciled(l, kind, addr, works) == l && !needs_stop(
            l.at(kind),
            addr,
        ) && !needs_bind(l.at(kind), addr),
        l.at(kind) is None && addr.len() == 0 ==> reconciled(l, kind, addr, works) == l,
        addr.len() > 0 && l.at(kind) != Some(addr) ==> needs_bind(l.at(kind), addr) && !needs_stop(
            l.at(kind),
            addr,
        ),
{
}

/// After a pass every listener that could be bound serves where it is configured,
/// and none serves where nothing is.
pub proof fn a_pass_sets_up_what_is_configured(
    l: ListenersView,
    s: SettingsView,
    free: Set<Kind>,
)
    ensures
        s.smtp_addr.len() > 0 && free.contains(Kind::Smtp) ==> after_pass(l, s, free).smtp == Some(
            s.smtp_addr,
        ),
        s.smtps_addr.len() > 0 && free.contains(Kind::Smtps) ==> after_pass(l, s, free).smtps
            == Some(s.smtps_addr),
        s.https_addr.len() > 0 && free.contains(Kind::Https) ==> after_pass(l, s, free).https
            == Some(s.https_addr),
        s.https_addr.len() == 0 && l.https is Some && l.https->0.len() > 0 ==> after_pass(
            l,
            s,
            free,
        ).https is None,
        s.acme_enabled && s.acme_http_addr.len() > 0 && free.contains(Kind::AcmeHttp)
            ==> after_pass(l, s, free).acme_http == Some(s.acme_http_addr),
        !s.acme_enabled && l.acme_http is Some && l.acme_http->0.len() > 0 ==> after_pass(
            l,
            s,
            free,
        ).acme_http is None,
{
    reveal_strlit("");
}

/// A bind that fails is explained: which listener, where, why, what to do about a
/// port that needs a privilege, and where it still serves.
pub proof fn a_failed_bind_is_explained(
    kind: Kind,
    host: Seq<char>,
    port: nat,
    error: Seq<char>,
    denied: bool,
    running: Seq<char>,
)
    ensures
        ({
            let addr = host + ":"@ + decimal(port);
            let message = "cannot bind "@ + kind.label_text() + " to "@ + addr + ": "@ + error + (
            if port < 1024 && denied {
                " (ports below 1024 need CAP_NET_BIND_SERVICE, a port redirect, or a higher port set at /admin/settings)"@
            } else {
                ""@
            });
            &&& bind_failure(kind, addr, error, denied, None) == message
            &&& bind_failure(kind, addr, error, denied, Some(running)) == message
                + " (still serving on "@ + running + ")"@
            &&& is_privileged(addr) <==> port < 1024
        }),
        Kind::Smtp.label_text() == "SMTP (plaintext + STARTTLS)"@,
        Kind::Smtps.label_text() == "SMTPS (implicit TLS)"@,
        Kind::Https.label_text() == "HTTPS web UI"@,
        Kind::AcmeHttp.label_text() == "ACME HTTP-01 challenge"@,
{
    reveal_strlit(":");
    let d = decimal(port);
    decimal_reads_back(port);
    assert forall|i: int| 0 <= i < d.len() implies #[trigger] d[i] != ':' by {
        assert(is_digit(d[i]));
    }
    assert(host + ":"@ + d =~= host + seq![':'] + d);
    the_last_place_is_the_last(host, ':', d);
    assert((host + ":"@ + d).skip(host.len() as int + 1) =~= d);
}

/// A hint is given exactly for a port below 1024 that was denied.
pub proof fn a_hint_is_for_privileged_ports(addr: Seq<char>, denied: bool)
    ensures
        !denied || !is_privileged(addr) ==> hint(addr, denied) == ""@,
        denied && is_privileged(addr) ==> hint(addr, denied)
            == " (ports below 1024 need CAP_NET_BIND_SERVICE, a port redirect, or a higher port set at /admin/settings)"@,
{
}

/// The list of listeners has those that run, with their addresses, always in the
/// same order.
pub proof fn running_listeners_are_listed(
    a: Seq<char>,
    b: Seq<char>,
    c: Seq<char>,
    d: Seq<char>,
)
    ensures
        active_list(
            ListenersView { smtp: Some(a), smtps: Some(b), https: Some(c), acme_http: Some(d) },
        ) == seq![(Kind::AcmeHttp, d), (Kind::Https, c), (Kind::Smtp, a), (Kind::Smtps, b)],
        active_list(ListenersView { smtp: Some(a), smtps: Some(b), https: None, acme_http: None })
            == seq![(Kind::Smtp, a), (Kind::Smtps, b)],
        active_list(ListenersView { smtp: None, smtps: None, https: None, acme_http: None })
            == Seq::<(Kind, Seq<char>)>::empty(),
        active_list(ListenersView { smtp: None, smtps: None, https: Some(c), acme_http: None })
            == seq![(Kind::Https, c)],
        active_list(ListenersView { smtp: None, smtps: None, https: None, acme_http: Some(d) })
            == seq![(Kind::AcmeHttp, d)],
{
}

} // verus!
