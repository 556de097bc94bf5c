//! The rows of the database, and the counters that a message moves.

use vstd::prelude::*;
use vstd::string::*;

use crate::mailstore::ConnKind;
use crate::text::same;

verus! {

#[derive(Debug, Clone)]
pub struct User {
    pub id: i64,
    pub username: String,
    pub password_hash: String,
    pub is_admin: bool,
}

#[derive(Debug, Clone)]
pub struct SmtpCredential {
    pub id: i64,
    pub username: String,
    /// The password itself, in the clear, for the dashboard to show.
    pub password: String,
    pub created_at: i64,
    pub total_messages: i64,
    pub last_used_at: Option<i64>,
}

/// Minimal data needed to verify an SMTP AUTH attempt.
#[derive(Debug, Clone)]
pub struct CredAuth {
    pub id: i64,
    pub user_id: i64,
    pub username: String,
    pub password: String,
}

/// What a [`CredAuth`] row says.
#[verifier::ext_equal]
pub struct CredAuthView {
    pub id: i64,
    pub user_id: i64,
    pub username: Seq<char>,
    pub password: Seq<char>,
}

impl View for CredAuth {
    type V = CredAuthView;

    open spec fn view(&self) -> CredAuthView {
        CredAuthView {
            id: self.id,
            user_id: self.user_id,
            username: self.username@,
            password: self.password@,
        }
    }
}

/// Per-user statistics row for the admin view. Never contains message content.
#[derive(Debug, Clone)]
pub struct AdminUserRow {
    pub id: i64,
    pub username: String,
    pub is_admin: bool,
    pub created_at: i64,
    pub cred_count: i64,
    pub total_messages: i64,
    pub total_bytes: i64,
    pub count_plaintext: i64,
    pub count_starttls: i64,
    pub count_tls: i64,
    pub last_message_at: Option<i64>,
}

#[derive(Debug, Clone, Copy, Default, PartialEq, Eq, Structural)]
pub struct GlobalStats {
    pub total_users: i64,
    pub total_credentials: i64,
    pub total_messages: i64,
    pub total_bytes: i64,
    pub count_plaintext: i64,
    pub count_starttls: i64,
    pub count_tls: i64,
}

// ---- the counters that a message moves ----

/// The column that counts the messages of a connection kind.
pub open spec fn column_of(kind: ConnKind) -> Seq<char> {
    match kind {
        ConnKind::Plaintext => "count_plaintext"@,
        ConnKind::StartTls => "count_starttls"@,
        ConnKind::ImplicitTls => "count_tls"@,
    }
}

/// The column that counts the messages of a connection kind.
pub fn count_column(kind: ConnKind) -> (r: &'static str)
    ensures
        r@ == column_of(kind),
{
    match kind {
        ConnKind::Plaintext => "count_plaintext",
        ConnKind::StartTls => "count_starttls",
        ConnKind::ImplicitTls => "count_tls",
    }
}

/// What an accepted message adds to the global counters.
pub open spec fn deltas_of(size: i64, kind: ConnKind) -> Seq<(Seq<char>, i64)> {
    seq![("total_messages"@, 1i64), ("total_bytes"@, size), (column_of(kind), 1i64)]
}

/// What an accepted message adds to the global counters.
pub fn message_deltas(size: i64, kind: ConnKind) -> (r: Vec<(&'static str, i64)>)
    ensures
        r@.len() == 3,
        r@[0].0@ == "total_messages"@ && r@[0].1 == 1,
        r@[1].0@ == "total_bytes"@ && r@[1].1 == size,
        r@[2].0@ == column_of(kind) && r@[2].1 == 1,
        r@.map_values(|d: (&'static str, i64)| (d.0@, d.1)) == deltas_of(size, kind),
{
    let r = vec![("total_messages", 1i64), ("total_bytes", size), (count_column(kind), 1i64)];
    assert(r@.map_values(|d: (&'static str, i64)| (d.0@, d.1)) =~= deltas_of(size, kind));
    r
}

/// The statistics with one counter set. A key that is not known changes nothing.
pub open spec fn with_counter(s: GlobalStats, key: Seq<char>, value: i64) -> GlobalStats {
    if key == "total_messages"@ {
        GlobalStats { total_messages: value, ..s }
    } else if key == "total_bytes"@ {
        GlobalStats { total_bytes: value, ..s }
    } else if key == "count_plaintext"@ {
        GlobalStats { count_plaintext: value, ..s }
    } else if key == "count_starttls"@ {
        GlobalStats { count_starttls: value, ..s }
    } else if key == "count_tls"@ {
        GlobalStats { count_tls: value, ..s }
    } else {
        s
    }
}

/// The statistics that the rows of the counter table make.
pub open spec fn stats_of(
    users: i64,
    credentials: i64,
    rows: Seq<(String, i64)>,
) -> GlobalStats
    decreases rows.len(),
{
    if rows.len() == 0 {
        GlobalStats {
            total_users: users,
            total_credentials: credentials,
            total_messages: 0,
            total_bytes: 0,
            count_plaintext: 0,
            count_starttls: 0,
            count_tls: 0,
        }
    } else {
        with_counter(
            stats_of(users, credentials, rows.drop_last()),
            rows.last().0@,
            rows.last().1,
        )
    }
}

/// The statistics that the rows of the counter table make.
pub fn collect_stats(users: i64, credentials: i64, rows: &Vec<(String, i64)>) -> (r: GlobalStats)
    ensures
        r == stats_of(users, credentials, rows@),
{
    let mut stats = GlobalStats {
        total_users: users,
        total_credentials: credentials,
        total_messages: 0,
        total_bytes: 0,
        count_plaintext: 0,
        count_starttls: 0,
        count_tls: 0,
    };
    let mut i: usize = 0;
    assert(rows@.take(0) =~= Seq::empty());
    while i < rows.len()
        invariant
            i <= rows@.len(),
            stats == stats_of(users, credentials, rows@.take(i as int)),
        decreases rows@.len() - i,
    {
        assert(rows@.take(i + 1).drop_last() =~= rows@.take(i as int));
        assert(rows@.take(i + 1).last() == rows@[i as int]);
        let key = rows[i].0.as_str();
        let value = rows[i].1;
        if same(key, "total_messages") {
            stats.total_messages = value;
        } else if same(key, "total_bytes") {
            stats.total_bytes = value;
        } else if same(key, "count_plaintext") {
            stats.count_plaintext = value;
        } else if same(key, "count_starttls") {
            stats.count_starttls = value;
        } else if same(key, "count_tls") {
            stats.count_tls = value;
        }
        i += 1;
    }
    assert(rows@.take(rows@.len() as int) =~= rows@);
    stats
}

} // verus!
