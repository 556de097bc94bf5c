//! What is shared between the web UI and the SMTP listeners, as far as it decides
//! anything: web sessions, the registration throttle and the admin setup token.

use vstd::prelude::*;
use vstd::string::*;
use vstd::utf8::*;

use crate::config::now_unix;
use crate::random::{is_token, random_token};
use crate::text::{opt_str, same, trim, trimmed};
use crate::textmap::{restricted, TextMap};

verus! {

/// A logged-in web session.
#[derive(Debug, Clone, Copy)]
pub struct WebSession {
    pub user_id: i64,
    pub expires_at: i64,
}

pub const SESSION_TTL_SECS: i64 = 604_800;

/// When a session that is used at `now` ends.
pub open spec fn session_end(now: i64) -> i64 {
    if now + SESSION_TTL_SECS <= i64::MAX {
        (now + SESSION_TTL_SECS) as i64
    } else {
        i64::MAX
    }
}

fn end_of_session(now: i64) -> (r: i64)
    ensures
        r == session_end(now),
{
    if now <= i64::MAX - SESSION_TTL_SECS {
        now + SESSION_TTL_SECS
    } else {
        i64::MAX
    }
}

/// The sessions that have not ended at `now`.
pub open spec fn live_sessions(m: Map<Seq<char>, WebSession>, now: i64) -> Map<
    Seq<char>,
    WebSession,
> {
    restricted(m, |k: Seq<char>, s: WebSession| s.expires_at > now)
}

/// Whose session a token stands for at `now`.
pub open spec fn user_of(m: Map<Seq<char>, WebSession>, token: Seq<char>, now: i64) -> Option<i64> {
    if live_sessions(m, now).dom().contains(token) {
        Some(m[token].user_id)
    } else {
        None
    }
}

/// The sessions after a token was used at `now`: its own session lasts from then
/// on, and those that have ended are gone.
pub open spec fn refreshed(m: Map<Seq<char>, WebSession>, token: Seq<char>, now: i64) -> Map<
    Seq<char>,
    WebSession,
> {
    match user_of(m, token, now) {
        Some(user_id) => live_sessions(m, now).insert(
            token,
            WebSession { user_id, expires_at: session_end(now) },
        ),
        None => live_sessions(m, now),
    }
}

/// The sessions without those of a user, but for the one with the token `keep`.
pub open spec fn sessions_without(
    m: Map<Seq<char>, WebSession>,
    user_id: i64,
    keep: Option<Seq<char>>,
) -> Map<Seq<char>, WebSession> {
    restricted(m, |k: Seq<char>, s: WebSession| s.user_id != user_id || keep == Some(k))
}

/// Web sessions: token -> session. In-memory only; restart logs everyone out.
pub struct Sessions {
    entries: TextMap<WebSession>,
}

impl View for Sessions {
    type V = Map<Seq<char>, WebSession>;

    closed spec fn view(&self) -> Map<Seq<char>, WebSession> {
        self.entries@
    }
}

impl Sessions {
    pub closed spec fn wf(&self) -> bool {
        self.entries.wf()
    }

    pub fn new() -> (r: Self)
        ensures
            r.wf(),
            r@ == Map::<Seq<char>, WebSession>::empty(),
    {
        Sessions { entries: TextMap::new() }
    }

    /// Starts a session for a user, under a token that no one can guess. Returns
    /// the token.
    pub fn start(&mut self, user_id: i64, now: i64) -> (token: String)
        requires
            old(self).wf(),
        ensures
            final(self).wf(),
            is_token(token@, 43),
            final(self)@ == old(self)@.insert(
                token@,
                WebSession { user_id, expires_at: session_end(now) },
            ),
    {
        let token = random_token(43);
        self.put(token.clone(), user_id, now);
        token
    }

    /// Puts down a session for a user, under `token`.
    pub fn put(&mut self, token: String, user_id: i64, now: i64)
        requires
            old(self).wf(),
        ensures
            final(self).wf(),
            final(self)@ == old(self)@.insert(
                token@,
                WebSession { user_id, expires_at: session_end(now) },
            ),
    {
        self.entries.insert(token, WebSession { user_id, expires_at: end_of_session(now) });
    }

    /// Look up a session that is live at `now`, refreshing its expiry. Sessions
    /// that have ended are dropped.
    pub fn session_user_id_at(&mut self, token: &str, now: i64) -> (r: Option<i64>)
        requires
            old(self).wf(),
        ensures
            final(self).wf(),
            r == user_of(old(self)@, token@, now),
            final(self)@ == refreshed(old(self)@, token@, now),
    {
        let ghost p = |k: Seq<char>, s: WebSession| s.expires_at > now;
        let keep = |k: &String, s: &WebSession| -> (r: bool)
            ensures
                r == (s.expires_at > now),
            { s.expires_at > now };
        self.entries.retain(keep, Ghost(p));
        assert(self@ =~= live_sessions(old(self)@, now));
        match self.entries.get(token) {
            Some(s) => {
                self.put(token.to_string(), s.user_id, now);
                Some(s.user_id)
            },
            None => None,
        }
    }

    /// Look up a live web session, refreshing its expiry.
    pub fn session_user_id(&mut self, token: &str) -> (r: Option<i64>)
        requires
            old(self).wf(),
        ensures
            final(self).wf(),
            exists|now: i64|
                r == user_of(old(self)@, token@, now) && final(self)@ == #[trigger] refreshed(
                    old(self)@,
                    token@,
                    now,
                ),
    {
        self.session_user_id_at(token, now_unix())
    }

    /// Ends a session.
    pub fn end(&mut self, token: &str)
        requires
            old(self).wf(),
        ensures
            final(self).wf(),
            final(self)@ == old(self)@.remove(token@),
    {
        self.entries.remove(token);
    }

    /// Ends the sessions of a user, but for the one with the token `keep`.
    pub fn drop_user_sessions(&mut self, user_id: i64, keep: Option<&str>)
        requires
            old(self).wf(),
        ensures
            final(self).wf(),
            final(self)@ == sessions_without(old(self)@, user_id, opt_str(keep)),
    {
        let ghost kept = opt_str(keep);
        let ghost p = |k: Seq<char>, s: WebSession| s.user_id != user_id || kept == Some(k);
        let stays = |k: &String, s: &WebSession| -> (r: bool)
            ensures
                r == (s.user_id != user_id || opt_str(keep) == Some(k@)),
            {
                s.user_id != user_id || match keep {
                    Some(t) => same(t, k.as_str()),
                    None => false,
                }
            };
        self.entries.retain(stays, Ghost(p));
        assert(self@ =~= sessions_without(old(self)@, user_id, opt_str(keep)));
    }
}

/// A session lasts seven days from its last use, and no longer.
pub proof fn a_session_lasts_seven_days(
    m: Map<Seq<char>, WebSession>,
    token: Seq<char>,
    user_id: i64,
    used: i64,
    now: i64,
)
    requires
        used + SESSION_TTL_SECS <= i64::MAX,
    ensures
        live_sessions(
            m.insert(token, WebSession { user_id, expires_at: session_end(used) }),
            now,
        ).dom().contains(token) <==> now < used + SESSION_TTL_SECS,
{
}

/// Changing a password ends the user's other sessions, and nobody else's.
pub proof fn only_the_users_other_sessions_end(
    m: Map<Seq<char>, WebSession>,
    user_id: i64,
    keep: Seq<char>,
    token: Seq<char>,
)
    requires
        m.dom().contains(token),
    ensures
        sessions_without(m, user_id, Some(keep)).dom().contains(token) <==> m[token].user_id
            != user_id || token == keep,
        sessions_without(m, user_id, None).dom().contains(token) <==> m[token].user_id != user_id,
{
}

// ---- registration throttle ----

/// The length of the throttle's window, in seconds.
pub const REGISTRATION_WINDOW: i64 = 3600;

/// The windows that are still open at `now`: client -> (window start, count in
/// window).
pub open spec fn open_windows(m: Map<Seq<char>, (i64, u32)>, now: i64) -> Map<
    Seq<char>,
    (i64, u32),
> {
    restricted(m, |k: Seq<char>, w: (i64, u32)| now - w.0 < REGISTRATION_WINDOW)
}

/// The window of a client at `now`: a new one if none is open.
pub open spec fn window_of(m: Map<Seq<char>, (i64, u32)>, client: Seq<char>, now: i64) -> (
    i64,
    u32,
) {
    if open_windows(m, now).dom().contains(client) {
        m[client]
    } else {
        (now, 0u32)
    }
}

/// The throttle after a client has tried to register.
pub open spec fn after_attempt(
    m: Map<Seq<char>, (i64, u32)>,
    client: Seq<char>,
    limit: u32,
    now: i64,
) -> Map<Seq<char>, (i64, u32)> {
    let (start, count) = window_of(m, client, now);
    let tried = if count < limit {
        (count + 1) as u32
    } else {
        count
    };
    open_windows(m, now).insert(client, (start, tried))
}

/// Registration throttle: client address -> (window start, count in window).
pub struct Throttle {
    entries: TextMap<(i64, u32)>,
}

impl View for Throttle {
    type V = Map<Seq<char>, (i64, u32)>;

    closed spec fn view(&self) -> Map<Seq<char>, (i64, u32)> {
        self.entries@
    }
}

impl Throttle {
    pub closed spec fn wf(&self) -> bool {
        self.entries.wf()
    }

    pub fn new() -> (r: Self)
        ensures
            r.wf(),
            r@ == Map::<Seq<char>, (i64, u32)>::empty(),
    {
        Throttle { entries: TextMap::new() }
    }

    /// Allow at most `limit` registrations per client per hour. `client` is the
    /// text of its address.
    pub fn allow_registration_at(&mut self, client: &str, limit: u32, now: i64) -> (r: bool)
        requires
            old(self).wf(),
        ensures
            final(self).wf(),
            r == (window_of(old(self)@, client@, now).1 < limit),
            final(self)@ == after_attempt(old(self)@, client@, limit, now),
    {
        let ghost p = |k: Seq<char>, w: (i64, u32)| now - w.0 < REGISTRATION_WINDOW;
        let keep = |k: &String, w: &(i64, u32)| -> (r: bool)
            ensures
                r == (now - w.0 < REGISTRATION_WINDOW),
            { (now as i128 - w.0 as i128) < REGISTRATION_WINDOW as i128 };
        self.entries.retain(keep, Ghost(p));
        assert(self@ =~= open_windows(old(self)@, now));
        let (start, count) = match self.entries.get(client) {
            Some(w) => w,
            None => (now, 0u32),
        };
        if count >= limit {
            self.entries.insert(client.to_string(), (start, count));
            return false;
        }
        self.entries.insert(client.to_string(), (start, count + 1));
        true
    }

    /// Allow at most `limit` registrations per client per hour.
    pub fn allow_registration(&mut self, client: &str, limit: u32) -> (r: bool)
        requires
            old(self).wf(),
        ensures
            final(self).wf(),
            exists|now: i64|
                r == (window_of(old(self)@, client@, now).1 < limit) && final(self)@
                    == #[trigger] after_attempt(old(self)@, client@, limit, now),
    {
        self.allow_registration_at(client, limit, now_unix())
    }
}

/// What a client's attempts at the given times come to: the throttle behind them,
/// and how many were allowed.
pub open spec fn attempts(
    m: Map<Seq<char>, (i64, u32)>,
    client: Seq<char>,
    limit: u32,
    times: Seq<i64>,
) -> (Map<Seq<char>, (i64, u32)>, nat)
    decreases times.len(),
{
    if times.len() == 0 {
        (m, 0nat)
    } else {
        let (before, allowed) = attempts(m, client, limit, times.drop_last());
        let now = times.last();
        (
            after_attempt(before, client, limit, now),
            if window_of(before, client, now).1 < limit {
                allowed + 1nat
            } else {
                allowed
            },
        )
    }
}

/// Of a client's registrations in the hour from the first one, the throttle
/// allows the limit and not one more.
pub proof fn registrations_are_limited(
    m: Map<Seq<char>, (i64, u32)>,
    client: Seq<char>,
    limit: u32,
    times: Seq<i64>,
)
    requires
        times.len() > 0,
        !open_windows(m, times[0]).dom().contains(client),
        forall|i: int|
            0 <= i < times.len() ==> times[0] <= #[trigger] times[i] < times[0]
                + REGISTRATION_WINDOW,
    ensures
        attempts(m, client, limit, times).1 == (if times.len() <= limit {
            times.len()
        } else {
            limit as nat
        }),
{
    lemma_attempts_count(m, client, limit, times);
}

proof fn lemma_attempts_count(
    m: Map<Seq<char>, (i64, u32)>,
    client: Seq<char>,
    limit: u32,
    times: Seq<i64>,
)
    requires
        times.len() > 0,
        !open_windows(m, times[0]).dom().contains(client),
        forall|i: int|
            0 <= i < times.len() ==> times[0] <= #[trigger] times[i] < times[0]
                + REGISTRATION_WINDOW,
    ensures
        ({
            let (after, allowed) = attempts(m, client, limit, times);
            &&& after.dom().contains(client)
            &&& after[client] == (times[0], allowed as u32)
            &&& allowed == (if times.len() <= limit {
                times.len()
            } else {
                limit as nat
            })
        }),
    decreases times.len(),
{
    let before = times.drop_last();
    if before.len() == 0 {
        assert(attempts(m, client, limit, before) == (m, 0nat));
    } else {
        assert forall|i: int| 0 <= i < before.len() implies before[0] <= #[trigger] before[i]
            < before[0] + REGISTRATION_WINDOW by {
            assert(before[i] == times[i]);
        }
        lemma_attempts_count(m, client, limit, before);
        assert(times.last() == times[times.len() - 1]);
    }
}

/// One client's registrations do not count against another's.
pub proof fn clients_are_throttled_apart(
    m: Map<Seq<char>, (i64, u32)>,
    client: Seq<char>,
    other: Seq<char>,
    window: (i64, u32),
    now: i64,
)
    requires
        client != other,
    ensures
        window_of(open_windows(m, now).insert(client, window), other, now) == window_of(
            m,
            other,
            now,
        ),
{
}

// ---- the admin setup token ----

/// What becomes of the setup token at startup.
pub enum SetupToken {
    /// An admin account exists: there is no token.
    Closed,
    /// The token of an earlier start still holds.
    Stored(String),
    /// A new token, which has to be written down.
    Fresh(String),
}

/// Admin bootstrap: a setup token is kept around until an admin account exists.
/// `stored` is what the token file holds, if it could be read.
pub fn setup_token(admin_exists: bool, stored: &Option<String>) -> (r: SetupToken)
    ensures
        match r {
            SetupToken::Closed => admin_exists,
            SetupToken::Stored(t) => !admin_exists && stored is Some && t@ == trimmed(stored->0@)
                && t@.len() > 0,
            SetupToken::Fresh(t) => !admin_exists && (stored is None || trimmed(
                stored->0@,
            ).len() == 0) && is_token(t@, 40),
        },
{
    if admin_exists {
        return SetupToken::Closed;
    }
    if let Some(text) = stored {
        let token = trim(text.as_str());
        if !token.as_str().is_empty() {
            return SetupToken::Stored(token);
        }
    }
    SetupToken::Fresh(random_token(40))
}

proof fn lemma_difference(acc: u8, a: u8, b: u8)
    by (bit_vector)
    ensures
        acc | (a ^ b) == 0 <==> acc == 0 && a == b,
{
}

/// Whether the token that was supplied is the one that is expected. The time it
/// takes does not depend on where they differ.
pub fn token_matches(supplied: &str, expected: &str) -> (r: bool)
    ensures
        r == (trimmed(supplied@) == expected@),
{
    let given = trim(supplied);
    let a = given.as_str().as_bytes();
    let b = expected.as_bytes();
    proof {
        encode_utf8_decode_utf8(given@);
        encode_utf8_decode_utf8(expected@);
    }
    if a.len() != b.len() {
        return false;
    }
    let mut acc: u8 = 0;
    let mut i: usize = 0;
    while i < a.len()
        invariant
            i <= a@.len(),
            a@.len() == b@.len(),
            acc == 0 <==> forall|j: int| 0 <= j < i ==> a@[j] == b@[j],
        decreases a@.len() - i,
    {
        proof {
            lemma_difference(acc, a@[i as int], b@[i as int]);
        }
        acc = acc | (a[i] ^ b[i]);
        i += 1;
    }
    proof {
        if acc == 0 {
            assert(a@ =~= b@);
        }
    }
    acc == 0
}

} // verus!
