//! Let's Encrypt / ACME certificate provisioning over the HTTP-01 challenge.
//!
//! The policy: when to order a certificate, when to hold back, what to tell the
//! CA and the admin. The background manager that drives it wakes up periodically
//! (and on demand from the admin UI) and renews the certificate whenever it is
//! missing, does not cover the configured domains, or is close to expiry.

use vstd::hash_map::StringHashMap;
use vstd::prelude::*;
use vstd::string::*;

use crate::config::{duration_text, fmt_duration, fmt_ts, time_text};
use crate::settings::{Settings, SettingsView, LETSENCRYPT_STAGING};
use crate::text::{
    ascii_lower, chars_of, copy_list, decimal, join, joined, last_index_of, opt_text, rfind_char,
    same, show_usize, text_range, texts,
};
use crate::tls::{list_covers, names_cover, names_hold, CertInfo, CertSource};

pub mod laws;
pub mod order;

verus! {

/// How often the manager re-checks the certificate on its own, in seconds.
pub const CHECK_INTERVAL: u64 = 21_600;

/// Let's Encrypt issues at most five certificates per exact set of identifiers
/// per 168 hours, and running into that locks the domain out for days. The
/// manager stops at four so a genuine emergency still has one left, and keeps
/// its own record of what it ordered: the CA's counter is invisible from here.
pub const ISSUE_WINDOW: i64 = 604_800;

pub const ISSUE_WINDOW_CAP: usize = 4;

/// A successful issuance also puts ordering on hold for a while, which is what
/// stops a misjudged renewal check from ordering on every pass.
pub const MIN_REISSUE: i64 = 86_400;

/// The admin UI's renew button may cut that short, but not to nothing.
pub const MIN_REISSUE_FORCED: i64 = 3600;

/// After a failure, retry sooner than the periodic sweep - six hours is a long
/// time to sit on a typo - but never fast enough to trip the CA's separate
/// limit on failed validations (five per hostname per hour). In seconds.
pub const RETRY_MIN: u64 = 900;

// ---- identifier sets ----

/// The identifiers of a list, in lower case and in no order.
pub open spec fn identifier_set(list: Seq<Seq<char>>) -> Set<Seq<char>> {
    list.map_values(|s: Seq<char>| ascii_lower(s)).to_set()
}

proof fn lemma_identifier_set(list: Seq<Seq<char>>, name: Seq<char>)
    ensures
        identifier_set(list).contains(ascii_lower(name)) <==> names_hold(list, name),
{
    let low = list.map_values(|s: Seq<char>| ascii_lower(s));
    if low.contains(ascii_lower(name)) {
        let i = choose|i: int| 0 <= i < low.len() && low[i] == ascii_lower(name);
        assert(ascii_lower(list[i]) == ascii_lower(name));
    }
    if names_hold(list, name) {
        let i = choose|i: int|
            0 <= i < list.len() && #[trigger] ascii_lower(list[i]) == ascii_lower(name);
        assert(low[i] == ascii_lower(name));
    }
}

proof fn lemma_identifier_subset(a: Seq<Seq<char>>, b: Seq<Seq<char>>)
    ensures
        names_cover(a, b) <==> identifier_set(b).subset_of(identifier_set(a)),
{
    let low = b.map_values(|s: Seq<char>| ascii_lower(s));
    if names_cover(a, b) {
        assert forall|x: Seq<char>| identifier_set(b).contains(x) implies identifier_set(
            a,
        ).contains(x) by {
            let i = choose|i: int| 0 <= i < low.len() && low[i] == x;
            assert(names_hold(a, b[i]));
            lemma_identifier_set(a, b[i]);
        }
    }
    if identifier_set(b).subset_of(identifier_set(a)) {
        assert forall|i: int| 0 <= i < b.len() implies names_hold(a, #[trigger] b[i]) by {
            assert(low[i] == ascii_lower(b[i]));
            assert(identifier_set(b).contains(ascii_lower(b[i])));
            lemma_identifier_set(a, b[i]);
        }
    }
}

/// The CA counts its limit per *exact set* of identifiers, so order and case
/// do not matter here either.
pub fn same_identifiers(a: &[String], b: &[String]) -> (r: bool)
    ensures
        r == (identifier_set(texts(a@)) == identifier_set(texts(b@))),
{
    proof {
        lemma_identifier_subset(texts(a@), texts(b@));
        lemma_identifier_subset(texts(b@), texts(a@));
    }
    let r = list_covers(a, b) && list_covers(b, a);
    proof {
        if r {
            assert(identifier_set(texts(a@)) =~= identifier_set(texts(b@)));
        }
    }
    r
}

// ---- the record of past orders ----

/// One issued certificate, as remembered locally.
#[derive(Clone)]
pub struct Issuance {
    pub at: i64,
    pub directory: String,
    pub identifiers: Vec<String>,
}

/// What an [`Issuance`] says.
#[verifier::ext_equal]
pub struct IssuanceView {
    pub at: i64,
    pub directory: Seq<char>,
    pub identifiers: Seq<Seq<char>>,
}

impl View for Issuance {
    type V = IssuanceView;

    open spec fn view(&self) -> IssuanceView {
        IssuanceView {
            at: self.at,
            directory: self.directory@,
            identifiers: texts(self.identifiers@),
        }
    }
}

/// The certificates that were issued, as remembered locally.
pub struct Ledger {
    pub issued: Vec<Issuance>,
}

impl View for Ledger {
    type V = Seq<IssuanceView>;

    open spec fn view(&self) -> Seq<IssuanceView> {
        self.issued@.map_values(|i: Issuance| i@)
    }
}

/// Whether an issuance still counts at `now`.
pub open spec fn in_window(at: i64, now: i64) -> bool {
    now - at < ISSUE_WINDOW
}

/// Whether an issuance counts against an order for `identifiers` from
/// `directory`.
pub open spec fn counts(
    i: IssuanceView,
    directory: Seq<char>,
    identifiers: Seq<Seq<char>>,
    now: i64,
) -> bool {
    &&& i.directory == directory
    &&& identifier_set(i.identifiers) == identifier_set(identifiers)
    &&& in_window(i.at, now)
}

/// When the certificates were issued that count against an order, in the order
/// in which they were recorded.
pub open spec fn counted(
    ledger: Seq<IssuanceView>,
    directory: Seq<char>,
    identifiers: Seq<Seq<char>>,
    now: i64,
) -> Seq<i64>
    decreases ledger.len(),
{
    if ledger.len() == 0 {
        Seq::empty()
    } else {
        let before = counted(ledger.drop_last(), directory, identifiers, now);
        if counts(ledger.last(), directory, identifiers, now) {
            before.push(ledger.last().at)
        } else {
            before
        }
    }
}

/// Whether the times stand in order.
pub open spec fn ascending(times: Seq<i64>) -> bool {
    forall|i: int, j: int| 0 <= i <= j < times.len() ==> times[i] <= times[j]
}

/// Puts `t` where it belongs.
fn insert_sorted(times: &mut Vec<i64>, t: i64)
    requires
        ascending(old(times)@),
    ensures
        ascending(final(times)@),
        final(times)@.to_multiset() == old(times)@.to_multiset().insert(t),
        final(times)@.len() == old(times)@.len() + 1,
{
    broadcast use vstd::seq_lib::group_to_multiset_ensures;

    let mut i: usize = times.len();
    while i > 0 && times[i - 1] > t
        invariant
            i <= times@.len(),
            times@ == old(times)@,
            forall|j: int| i <= j < times@.len() ==> times@[j] > t,
        decreases i,
    {
        i -= 1;
    }
    let ghost before = times@;
    times.insert(i, t);
    assert(times@ =~= before.insert(i as int, t));
    assert forall|a: int, b: int| 0 <= a <= b < times@.len() implies times@[a] <= times@[b] by {
        let x = if a < i {
            before[a]
        } else if a == i {
            t
        } else {
            before[a - 1]
        };
        let y = if b < i {
            before[b]
        } else if b == i {
            t
        } else {
            before[b - 1]
        };
        assert(times@[a] == x);
        assert(times@[b] == y);
        if a < i && b == i {
            assert(before[a] <= before[i - 1]);
        }
    }
    proof {
        assert(before.insert(i as int, t).to_multiset() =~= before.to_multiset().insert(t));
    }
}

impl Ledger {
    /// When certificates were last issued for `identifiers` from `directory`,
    /// oldest first, within the CA's rate-limit window.
    pub fn recent_issuances(&self, directory: &str, identifiers: &Vec<String>, now: i64) -> (r: Vec<
        i64,
    >)
        ensures
            ascending(r@),
            r@.to_multiset() == counted(
                self@,
                directory@,
                texts(identifiers@),
                now,
            ).to_multiset(),
            r@.len() == counted(self@, directory@, texts(identifiers@), now).len(),
    {
        broadcast use vstd::seq_lib::group_to_multiset_ensures;

        let ghost all = self@;
        let mut times: Vec<i64> = Vec::new();
        let mut i: usize = 0;
        assert(all.take(0) =~= Seq::empty());
        while i < self.issued.len()
            invariant
                i <= self.issued@.len(),
                all == self@,
                ascending(times@),
                times@.to_multiset() == counted(
                    all.take(i as int),
                    directory@,
                    texts(identifiers@),
                    now,
                ).to_multiset(),
                times@.len() == counted(
                    all.take(i as int),
                    directory@,
                    texts(identifiers@),
                    now,
                ).len(),
            decreases self.issued@.len() - i,
        {
            let e = &self.issued[i];
            assert(all.take(i + 1).drop_last() =~= all.take(i as int));
            assert(all.take(i + 1).last() == e@);
            if same(e.directory.as_str(), directory) && same_identifiers(
                e.identifiers.as_slice(),
                identifiers.as_slice(),
            ) && (now as i128 - e.at as i128) < ISSUE_WINDOW as i128 {
                proof {
                    vstd::seq_lib::to_multiset_build(
                        counted(all.take(i as int), directory@, texts(identifiers@), now),
                        e.at,
                    );
                }
                insert_sorted(&mut times, e.at);
            }
            i += 1;
        }
        assert(all.take(all.len() as int) =~= all);
        times
    }

    /// Record an issuance, dropping whatever has aged out of the window.
    pub fn record_issuance(&mut self, directory: &str, identifiers: &Vec<String>, now: i64)
        ensures
            final(self)@ == recorded(
                old(self)@,
                IssuanceView { at: now, directory: directory@, identifiers: texts(identifiers@) },
                now,
            ),
    {
        let ghost all = self@;
        let mut kept: Vec<Issuance> = Vec::new();
        let mut i: usize = 0;
        assert(all.take(0) =~= Seq::empty());
        assert(kept@.map_values(|i: Issuance| i@) =~= Seq::empty());
        while i < self.issued.len()
            invariant
                i <= self.issued@.len(),
                all == self@,
                all == old(self)@,
                kept@.map_values(|i: Issuance| i@) == fresh_part(all.take(i as int), now),
            decreases self.issued@.len() - i,
        {
            let e = &self.issued[i];
            assert(all.take(i + 1).drop_last() =~= all.take(i as int));
            assert(all.take(i + 1).last() == e@);
            if (now as i128 - e.at as i128) < ISSUE_WINDOW as i128 {
                let ghost before = kept@;
                let copy = Issuance {
                    at: e.at,
                    directory: e.directory.clone(),
                    identifiers: copy_list(&e.identifiers),
                };
                kept.push(copy);
                assert(copy@ == e@);
                assert(kept@.map_values(|i: Issuance| i@) =~= before.map_values(
                    |i: Issuance| i@,
                ).push(e@));
            }
            i += 1;
        }
        assert(all.take(all.len() as int) =~= all);
        let ghost before = kept@;
        let added = Issuance {
            at: now,
            directory: directory.to_string(),
            identifiers: copy_list(identifiers),
        };
        kept.push(added);
        assert(kept@.map_values(|i: Issuance| i@) =~= before.map_values(|i: Issuance| i@).push(
            added@,
        ));
        self.issued = kept;
    }
}

/// The issuances that still count at `now`.
pub open spec fn fresh_part(ledger: Seq<IssuanceView>, now: i64) -> Seq<IssuanceView>
    decreases ledger.len(),
{
    if ledger.len() == 0 {
        Seq::empty()
    } else if in_window(ledger.last().at, now) {
        fresh_part(ledger.drop_last(), now).push(ledger.last())
    } else {
        fresh_part(ledger.drop_last(), now)
    }
}

/// The record with one issuance more, without what has aged out of the window.
pub open spec fn recorded(
    ledger: Seq<IssuanceView>,
    issued: IssuanceView,
    now: i64,
) -> Seq<IssuanceView> {
    fresh_part(ledger, now).push(issued)
}

proof fn lemma_fresh_part_counts(
    ledger: Seq<IssuanceView>,
    directory: Seq<char>,
    identifiers: Seq<Seq<char>>,
    now: i64,
)
    ensures
        counted(fresh_part(ledger, now), directory, identifiers, now) == counted(
            ledger,
            directory,
            identifiers,
            now,
        ),
    decreases ledger.len(),
{
    if ledger.len() > 0 {
        lemma_fresh_part_counts(ledger.drop_last(), directory, identifiers, now);
        if in_window(ledger.last().at, now) {
            assert(fresh_part(ledger, now).drop_last() =~= fresh_part(ledger.drop_last(), now));
        }
    }
}

/// What was issued counts from then on: recording an issuance adds exactly one
/// to the orders that count against its identifiers.
pub proof fn an_issuance_counts_once_recorded(
    ledger: Seq<IssuanceView>,
    directory: Seq<char>,
    identifiers: Seq<Seq<char>>,
    now: i64,
)
    ensures
        counted(
            recorded(ledger, IssuanceView { at: now, directory, identifiers }, now),
            directory,
            identifiers,
            now,
        ) == counted(ledger, directory, identifiers, now).push(now),
{
    let issued = IssuanceView { at: now, directory, identifiers };
    lemma_fresh_part_counts(ledger, directory, identifiers, now);
    assert(recorded(ledger, issued, now).drop_last() =~= fresh_part(ledger, now));
}

// ---- when to order ----

/// The source that a certificate from `directory` has.
pub open spec fn source_from(directory: Seq<char>) -> CertSource {
    if directory == LETSENCRYPT_STAGING@ {
        CertSource::AcmeStaging
    } else {
        CertSource::Acme
    }
}

/// The source that a certificate from `directory` has.
pub fn issued_source(directory: &str) -> (r: CertSource)
    ensures
        r == source_from(directory@),
{
    if same(directory, LETSENCRYPT_STAGING) {
        CertSource::AcmeStaging
    } else {
        CertSource::Acme
    }
}

/// A third of `n`, rounded towards zero.
pub open spec fn third(n: int) -> int {
    if n >= 0 {
        n / 3
    } else {
        -((-n) / 3)
    }
}

/// How much life may remain before renewing.
pub open spec fn renew_threshold(lifetime: int, configured_days: int) -> int {
    let window = if configured_days > 0 {
        configured_days * 86_400
    } else {
        0
    };
    if window <= third(lifetime) {
        window
    } else {
        third(lifetime)
    }
}

/// How much life may remain before renewing: the configured window, but never
/// more than a third of the certificate's own lifetime. Without that cap a
/// six-day certificate sits permanently inside a thirty-day window, and every
/// single check orders another one - which is how a week's worth of the CA's
/// rate limit disappears in a day.
pub fn renew_threshold_secs(info: &CertInfo, configured_days: i64) -> (r: i64)
    ensures
        r == renew_threshold(info.not_after - info.not_before, configured_days as int),
{
    let lifetime = info.lifetime_secs();
    let cap: i128 = if lifetime >= 0 {
        lifetime / 3
    } else {
        -((-lifetime) / 3)
    };
    let window: i128 = if configured_days > 0 {
        configured_days as i128 * 86_400
    } else {
        0
    };
    if window <= cap {
        window as i64
    } else {
        cap as i64
    }
}

/// Whether a certificate still satisfies the configuration.
pub open spec fn still_good(info: CertInfo, s: SettingsView, now: i64) -> bool {
    &&& info.source == source_from(s.acme_directory)
    &&& names_cover(texts(info.names@), s.acme_domains)
    &&& info.not_after - now > renew_threshold(
        info.not_after - info.not_before,
        s.acme_renew_before_days as int,
    )
}

/// Whether the certificate in hand still satisfies the configuration: it came
/// from the ACME environment now configured, covers every configured domain,
/// and is not yet inside its renewal window.
pub fn certificate_still_good(info: &CertInfo, settings: &Settings, now: i64) -> (r: bool)
    ensures
        r == still_good(*info, settings@, now),
{
    info.source == issued_source(settings.acme_directory.as_str()) && info.covers(
        &settings.acme_domains,
    ) && info.not_after as i128 - now as i128 > renew_threshold_secs(
        info,
        settings.acme_renew_before_days,
    ) as i128
}

/// A certificate is never inside its own renewal window the moment it is issued,
/// however short-lived it is and however long the window.
pub proof fn a_fresh_certificate_is_left_alone(lifetime: int, configured_days: int)
    requires
        lifetime > 0,
    ensures
        lifetime > renew_threshold(lifetime, configured_days),
        renew_threshold(lifetime, configured_days) <= lifetime / 3,
{
}

/// `t`, or the nearest time that can be written down.
pub open spec fn clamped(t: int) -> i64 {
    if t > i64::MAX {
        i64::MAX
    } else if t < i64::MIN {
        i64::MIN
    } else {
        t as i64
    }
}

fn clamp(t: i128) -> (r: i64)
    ensures
        r == clamped(t as int),
{
    if t > i64::MAX as i128 {
        i64::MAX
    } else if t < i64::MIN as i128 {
        i64::MIN
    } else {
        t as i64
    }
}

/// How long to wait after an issuance.
pub open spec fn min_gap(force: bool) -> i64 {
    if force {
        MIN_REISSUE_FORCED
    } else {
        MIN_REISSUE
    }
}

/// Why another order may not start; `None` if it may.
pub open spec fn hold_reason(recent: Seq<i64>, now: i64, force: bool, cap: usize) -> Option<
    Seq<char>,
> {
    if recent.len() >= cap {
        Some(
            decimal(recent.len())
                + " certificates were already issued for these domains in the last "@
                + duration_text(ISSUE_WINDOW as int)
                + "; the CA allows five per week, so ordering waits until "@ + time_text(
                clamped(recent[recent.len() - cap] + ISSUE_WINDOW),
            ),
        )
    } else if recent.len() > 0 && now - recent.last() < min_gap(force) {
        Some(
            "a certificate for these domains was issued "@ + duration_text(
                clamped(now - recent.last()) as int,
            ) + " ago; the next order waits until "@ + time_text(
                clamped(recent.last() + min_gap(force)),
            ),
        )
    } else {
        None
    }
}

/// Whether the text of an outcome is `reason`.
pub open spec fn held_for(r: Result<(), String>, reason: Option<Seq<char>>) -> bool {
    match r {
        Ok(()) => reason is None,
        Err(e) => reason == Some(e@),
    }
}

/// Whether another order may start, given when certificates were last issued
/// for this exact identifier set. `Err` carries the reason, for the log and the
/// certificate panel.
pub fn issue_allowed(recent: &[i64], now: i64, force: bool, cap: usize) -> (r: Result<(), String>)
    requires
        cap >= 1,
    ensures
        held_for(r, hold_reason(recent@, now, force, cap)),
{
    if recent.len() >= cap {
        let oldest = recent[recent.len() - cap];
        let mut message = show_usize(recent.len());
        message.append(" certificates were already issued for these domains in the last ");
        message.append(fmt_duration(ISSUE_WINDOW).as_str());
        message.append("; the CA allows five per week, so ordering waits until ");
        message.append(fmt_ts(clamp(oldest as i128 + ISSUE_WINDOW as i128)).as_str());
        return Err(message);
    }
    let gap = if force {
        MIN_REISSUE_FORCED
    } else {
        MIN_REISSUE
    };
    if recent.len() > 0 {
        let last = recent[recent.len() - 1];
        let since = now as i128 - last as i128;
        if since < gap as i128 {
            let mut message = "a certificate for these domains was issued ".to_string();
            message.append(fmt_duration(clamp(since)).as_str());
            message.append(" ago; the next order waits until ");
            message.append(fmt_ts(clamp(last as i128 + gap as i128)).as_str());
            return Err(message);
        }
    }
    Ok(())
}

/// How many orders for the same identifiers may count before ordering stops.
pub open spec fn order_cap(directory: Seq<char>) -> usize {
    if directory == LETSENCRYPT_STAGING@ {
        usize::MAX
    } else {
        ISSUE_WINDOW_CAP
    }
}

/// What a check of the certificate comes to.
pub enum Check {
    /// Let's Encrypt is off.
    Disabled,
    /// Let's Encrypt is on, and no domains are configured.
    NoDomains,
    /// The certificate satisfies the configuration.
    StillGood,
    /// No certificate may be ordered yet, for this reason.
    Hold(String),
    /// A certificate has to be ordered.
    Order,
}

/// The message for [`Check::NoDomains`].
pub const NO_DOMAINS: &'static str = "Let's Encrypt is enabled but no domains are configured";

/// Whether a check comes to `r`, given when certificates were issued that count
/// against an order.
pub open spec fn comes_to(
    r: Check,
    s: SettingsView,
    info: Option<CertInfo>,
    recent: Seq<i64>,
    now: i64,
    force: bool,
) -> bool {
    let good = !force && info is Some && still_good(info->0, s, now);
    let reason = hold_reason(recent, now, force, order_cap(s.acme_directory));
    if !s.acme_enabled {
        r is Disabled
    } else if s.acme_domains.len() == 0 {
        r is NoDomains
    } else {
        match r {
            Check::StillGood => good,
            Check::Hold(e) => !good && reason == Some(e@),
            Check::Order => !good && reason is None,
            _ => false,
        }
    }
}

/// Decides what a check comes to. With `force`, a certificate is ordered even
/// when the current one would still be fine.
pub fn plan_check(
    settings: &Settings,
    info: &Option<CertInfo>,
    ledger: &Ledger,
    now: i64,
    force: bool,
) -> (r: Check)
    ensures
        !settings@.acme_enabled ==> r is Disabled,
        settings@.acme_enabled && settings@.acme_domains.len() == 0 ==> r is NoDomains,
        settings@.acme_enabled && settings@.acme_domains.len() > 0 ==> {
            let good = !force && info is Some && still_good(info->0, settings@, now);
            exists|recent: Seq<i64>| #[trigger]
                ascending(recent) && recent.to_multiset() == counted(
                    ledger@,
                    settings@.acme_directory,
                    settings@.acme_domains,
                    now,
                ).to_multiset() && {
                    let reason = hold_reason(
                        recent,
                        now,
                        force,
                        order_cap(settings@.acme_directory),
                    );
                    match r {
                        Check::StillGood => good,
                        Check::Hold(e) => !good && reason == Some(e@),
                        Check::Order => !good && reason is None,
                        _ => false,
                    }
                } && comes_to(r, settings@, *info, recent, now, force)
        },
{
    if !settings.acme_enabled {
        return Check::Disabled;
    }
    if settings.acme_domains.len() == 0 {
        return Check::NoDomains;
    }
    let recent = ledger.recent_issuances(
        settings.acme_directory.as_str(),
        &settings.acme_domains,
        now,
    );
    assert(ascending(recent@));
    if !force {
        if let Some(i) = info {
            if certificate_still_good(i, settings, now) {
                return Check::StillGood;
            }
        }
    }
    // Staging allows thousands a week; capping it would only get in the way
    // of exactly the testing it exists for.
    let cap = if same(settings.acme_directory.as_str(), LETSENCRYPT_STAGING) {
        usize::MAX
    } else {
        ISSUE_WINDOW_CAP
    };
    match issue_allowed(recent.as_slice(), now, force, cap) {
        Ok(()) => Check::Order,
        Err(reason) => Check::Hold(reason),
    }
}

/// Ordering from production stops short of the CA's limit: an order is only made
/// while fewer than four issuances count, so that after it no more than four do.
pub proof fn orders_stop_short_of_the_limit(
    ledger: Seq<IssuanceView>,
    directory: Seq<char>,
    identifiers: Seq<Seq<char>>,
    recent: Seq<i64>,
    now: i64,
    force: bool,
)
    requires
        recent.len() == counted(ledger, directory, identifiers, now).len(),
        hold_reason(recent, now, force, ISSUE_WINDOW_CAP) is None,
    ensures
        counted(
            recorded(ledger, IssuanceView { at: now, directory, identifiers }, now),
            directory,
            identifiers,
            now,
        ).len() <= ISSUE_WINDOW_CAP,
{
    an_issuance_counts_once_recorded(ledger, directory, identifiers, now);
}

/// No two orders follow each other within an hour, whoever asks, nor within a day
/// unless the admin asks.
pub proof fn orders_keep_their_distance(recent: Seq<i64>, now: i64, force: bool, cap: usize)
    requires
        recent.len() > 0,
        hold_reason(recent, now, force, cap) is None,
    ensures
        now - recent.last() >= MIN_REISSUE_FORCED,
        !force ==> now - recent.last() >= MIN_REISSUE,
{
}

// ---- retrying ----

/// The seconds to wait after `failures` failures in a row.
pub open spec fn retry_secs(failures: u32) -> u64 {
    if failures <= 1 {
        900
    } else if failures == 2 {
        1800
    } else if failures == 3 {
        3600
    } else if failures == 4 {
        7200
    } else {
        14_400
    }
}

/// How long to wait before retrying after `failures` consecutive failures:
/// 15 minutes, doubling, up to the periodic interval. In seconds.
pub fn retry_delay(failures: u32) -> (r: u64)
    ensures
        r == retry_secs(failures),
{
    let mut secs: u64 = RETRY_MIN;
    let mut step: u32 = 1;
    while step < failures && step < 5
        invariant
            1 <= step <= 5,
            step <= failures || step == 1,
            secs == retry_secs(step),
        decreases 5 - step,
    {
        secs = 2 * secs;
        step = step + 1;
    }
    if secs < CHECK_INTERVAL {
        secs
    } else {
        CHECK_INTERVAL
    }
}

/// Retries never come faster than every 15 minutes, never wait longer than the
/// periodic check, and wait no less after more failures.
pub proof fn retries_back_off(failures: u32, more: u32)
    requires
        failures <= more,
    ensures
        RETRY_MIN <= retry_secs(failures) <= CHECK_INTERVAL,
        retry_secs(failures) <= retry_secs(more),
{
}

/// How many checks in a row have failed, after one more.
pub open spec fn failures_in_a_row(failures: u32, succeeded: bool) -> u32 {
    if succeeded {
        0u32
    } else if failures < u32::MAX {
        (failures + 1) as u32
    } else {
        u32::MAX
    }
}

/// How many checks in a row have failed, after one more.
pub fn failures_after(failures: u32, succeeded: bool) -> (r: u32)
    ensures
        r == (if succeeded {
            0u32
        } else if failures < u32::MAX {
            (failures + 1) as u32
        } else {
            u32::MAX
        }),
        r == failures_in_a_row(failures, succeeded),
{
    if succeeded {
        0
    } else if failures < u32::MAX {
        failures + 1
    } else {
        failures
    }
}

/// The seconds until the next check, after `failures` failures in a row.
pub open spec fn secs_to_next_check(failures: u32) -> u64 {
    if failures == 0 {
        CHECK_INTERVAL
    } else {
        retry_secs(failures)
    }
}

/// The seconds until the next check.
pub fn wait_before_check(failures: u32) -> (r: u64)
    ensures
        r == (if failures == 0 {
            CHECK_INTERVAL
        } else {
            retry_secs(failures)
        }),
        r == secs_to_next_check(failures),
{
    if failures == 0 {
        CHECK_INTERVAL
    } else {
        retry_delay(failures)
    }
}

// ---- what the admin UI reports ----

/// What the admin UI reports about certificate provisioning.
#[derive(Debug, Clone, Default)]
pub struct AcmeStatus {
    pub running: bool,
    pub last_attempt: Option<i64>,
    pub last_success: Option<i64>,
    pub last_error: Option<String>,
    /// Why ordering is being withheld right now, if it is. Not an error: the
    /// certificate in place is fine, or the CA's rate limit is close.
    pub hold: Option<String>,
    /// Progress line while an order is in flight, e.g. "validating 2 domains".
    pub stage: Option<String>,
}

/// What an [`AcmeStatus`] says.
#[verifier::ext_equal]
pub struct AcmeStatusView {
    pub running: bool,
    pub last_attempt: Option<i64>,
    pub last_success: Option<i64>,
    pub last_error: Option<Seq<char>>,
    pub hold: Option<Seq<char>>,
    pub stage: Option<Seq<char>>,
}

impl View for AcmeStatus {
    type V = AcmeStatusView;

    open spec fn view(&self) -> AcmeStatusView {
        AcmeStatusView {
            running: self.running,
            last_attempt: self.last_attempt,
            last_success: self.last_success,
            last_error: opt_text(self.last_error),
            hold: opt_text(self.hold),
            stage: opt_text(self.stage),
        }
    }
}

/// The status once an order was to begin: nothing changes if one is running.
pub open spec fn begun(s: AcmeStatusView, now: i64) -> AcmeStatusView {
    if s.running {
        s
    } else {
        AcmeStatusView {
            running: true,
            last_attempt: Some(now),
            stage: Some("starting"@),
            ..s
        }
    }
}

/// The status once an order has ended.
pub open spec fn ended(
    s: AcmeStatusView,
    now: i64,
    result: Result<(), String>,
) -> AcmeStatusView {
    match result {
        Ok(()) => AcmeStatusView {
            running: false,
            stage: None,
            last_success: Some(now),
            last_error: None,
            hold: None,
            ..s
        },
        Err(e) => AcmeStatusView { running: false, stage: None, last_error: Some(e@), ..s },
    }
}

impl AcmeStatus {
    /// Nothing was attempted yet.
    pub fn idle() -> (r: Self)
        ensures
            r@ == (AcmeStatusView {
                running: false,
                last_attempt: None,
                last_success: None,
                last_error: None,
                hold: None,
                stage: None,
            }),
    {
        AcmeStatus {
            running: false,
            last_attempt: None,
            last_success: None,
            last_error: None,
            hold: None,
            stage: None,
        }
    }

    /// Ordering is withheld, for this reason.
    pub fn withhold(&mut self, reason: String)
        ensures
            final(self)@ == (AcmeStatusView { hold: Some(reason@), ..old(self)@ }),
    {
        self.hold = Some(reason);
    }

    /// Starts an order, unless one is running: a second run would race on the
    /// challenges. Returns whether it was started.
    pub fn begin(&mut self, now: i64) -> (r: bool)
        ensures
            r == !old(self)@.running,
            final(self)@ == begun(old(self)@, now),
    {
        if self.running {
            return false;
        }
        self.running = true;
        self.last_attempt = Some(now);
        self.stage = Some("starting".to_string());
        true
    }

    /// An order in flight has come this far.
    pub fn enter(&mut self, stage: &Stage)
        ensures
            final(self)@ == (AcmeStatusView { stage: Some(stage_text(*stage)), ..old(self)@ }),
    {
        self.stage = Some(describe_stage(stage));
    }

    /// An order has ended.
    pub fn end(&mut self, now: i64, result: Result<(), String>)
        ensures
            final(self)@ == ended(old(self)@, now, result),
    {
        self.running = false;
        self.stage = None;
        match result {
            Ok(()) => {
                self.last_success = Some(now);
                self.last_error = None;
                self.hold = None;
            },
            Err(e) => {
                self.last_error = Some(e);
            },
        }
    }
}

/// How far an order has come.
#[derive(Debug, Clone, Copy, PartialEq, Eq, Structural)]
pub enum Stage {
    Authenticating,
    Preparing { challenges: usize },
    Validating,
    Finalizing,
}

pub open spec fn stage_text(stage: Stage) -> Seq<char> {
    match stage {
        Stage::Authenticating => "authenticating with the CA"@,
        Stage::Preparing { challenges } => "preparing "@ + decimal(challenges as nat)
            + " challenge(s)"@,
        Stage::Validating => "waiting for the CA to validate"@,
        Stage::Finalizing => "finalizing and downloading"@,
    }
}

fn describe_stage(stage: &Stage) -> (r: String)
    ensures
        r@ == stage_text(*stage),
{
    match stage {
        Stage::Authenticating => "authenticating with the CA".to_string(),
        Stage::Preparing { challenges } => {
            let mut out = "preparing ".to_string();
            out.append(show_usize(*challenges).as_str());
            out.append(" challenge(s)");
            out
        },
        Stage::Validating => "waiting for the CA to validate".to_string(),
        Stage::Finalizing => "finalizing and downloading".to_string(),
    }
}

/// At most one order runs at a time: while one runs an attempt to begin another
/// changes nothing, and once it has ended another may begin.
pub proof fn one_order_at_a_time(
    s: AcmeStatusView,
    now: i64,
    later: i64,
    result: Result<(), String>,
)
    ensures
        begun(s, now).running,
        begun(begun(s, now), later) == begun(s, now),
        !ended(begun(s, now), later, result).running,
        result is Ok ==> ended(begun(s, now), later, result).last_success == Some(later),
{
}

// ---- challenges ----

/// HTTP-01 responses: challenge token -> key authorization. Only what an order
/// that is running has published is answered.
pub struct Challenges {
    entries: StringHashMap<String>,
}

impl View for Challenges {
    type V = Map<Seq<char>, Seq<char>>;

    closed spec fn view(&self) -> Map<Seq<char>, Seq<char>> {
        self.entries@.map_values(|v: String| v@)
    }
}

impl Challenges {
    pub fn new() -> (r: Self)
        ensures
            r@ == Map::<Seq<char>, Seq<char>>::empty(),
    {
        let r = Challenges { entries: StringHashMap::new() };
        assert(r@ =~= Map::empty());
        r
    }

    /// The key authorization that `token` is answered with.
    pub fn challenge_response(&self, token: &str) -> (r: Option<String>)
        ensures
            opt_text(r) == (if self@.dom().contains(token@) {
                Some(self@[token@])
            } else {
                None
            }),
    {
        match self.entries.get(token) {
            Some(v) => Some(v.clone()),
            None => None,
        }
    }

    pub fn put_challenge(&mut self, token: String, key_auth: String)
        ensures
            final(self)@ == old(self)@.insert(token@, key_auth@),
    {
        self.entries.insert(token, key_auth);
        assert(self@ =~= old(self)@.insert(token@, key_auth@));
    }

    pub fn clear_challenges(&mut self)
        ensures
            final(self)@ == Map::<Seq<char>, Seq<char>>::empty(),
    {
        self.entries.clear();
        assert(self@ =~= Map::empty());
    }
}

// ---- an order ----

/// The state that the CA reports for the authorization of a domain.
pub enum Authorization {
    Pending,
    Valid,
    /// Any other state, by its name.
    Unusable(String),
}

/// What an authorization asks for.
pub enum AuthorizationStep {
    /// Publish the challenge and tell the CA.
    Prepare,
    /// Nothing: it was validated within the CA's caching window.
    Skip,
    /// The order has failed.
    Fail(String),
}

/// What an authorization asks for.
pub fn authorization_step(state: Authorization) -> (r: AuthorizationStep)
    ensures
        match state {
            Authorization::Pending => r is Prepare,
            Authorization::Valid => r is Skip,
            Authorization::Unusable(name) => r is Fail && r->Fail_0@
                == "authorization is in unusable state "@ + name@,
        },
{
    match state {
        Authorization::Pending => AuthorizationStep::Prepare,
        Authorization::Valid => AuthorizationStep::Skip,
        Authorization::Unusable(name) => {
            let mut message = "authorization is in unusable state ".to_string();
            message.append(name.as_str());
            AuthorizationStep::Fail(message)
        },
    }
}

/// The message if the CA offers no HTTP-01 challenge.
pub const NO_HTTP_CHALLENGE: &'static str =
    "the CA did not offer an HTTP-01 challenge for this order";

/// The port of a challenge address, as it is written there: 80 if there is none.
pub open spec fn challenge_port(addr: Seq<char>) -> Seq<char> {
    let i = last_index_of(addr, ':');
    if i >= 0 {
        addr.skip(i + 1)
    } else {
        "80"@
    }
}

/// The port of a challenge address, as it is written there.
pub fn port_of(addr: &str) -> (r: String)
    ensures
        r@ == challenge_port(addr@),
{
    let cs = chars_of(addr);
    let n = cs.len();
    match rfind_char(&cs, ':') {
        Some(i) => {
            assert(i < n);
            assert(cs@.subrange(i + 1, cs@.len() as int) =~= cs@.skip(i + 1));
            text_range(&cs, i + 1, n)
        },
        None => "80".to_string(),
    }
}

/// What is said if the CA did not validate the domains: the order's state by its
/// name, and what to look into.
pub open spec fn validation_failure(
    status: Seq<char>,
    http_addr: Seq<char>,
    domains: Seq<Seq<char>>,
) -> Seq<char> {
    "the CA did not validate the domains (order status "@ + status + "); check that port "@
        + challenge_port(http_addr) + " is reachable from the internet for "@ + joined(
        domains,
        ", "@,
    )
}

/// The message if the CA did not validate the domains.
pub fn not_validated(status: &str, settings: &Settings) -> (r: String)
    ensures
        r@ == validation_failure(status@, settings@.acme_http_addr, settings@.acme_domains),
{
    let mut message = "the CA did not validate the domains (order status ".to_string();
    message.append(status);
    message.append("); check that port ");
    message.append(port_of(settings.acme_http_addr.as_str()).as_str());
    message.append(" is reachable from the internet for ");
    message.append(join(&settings.acme_domains, ", ").as_str());
    message
}

/// The contacts to register with the CA: none if no address is configured.
pub open spec fn contacts(email: Seq<char>) -> Seq<Seq<char>> {
    if email.len() == 0 {
        Seq::empty()
    } else {
        seq!["mailto:"@ + email]
    }
}

/// The contacts to register with the CA.
pub fn contact_uris(email: &str) -> (r: Vec<String>)
    ensures
        texts(r@) == contacts(email@),
{
    let mut out: Vec<String> = Vec::new();
    if !email.is_empty() {
        let mut uri = "mailto:".to_string();
        uri.append(email);
        out.push(uri);
        assert(texts(out@) =~= seq![uri@]);
    } else {
        assert(texts(out@) =~= Seq::empty());
    }
    out
}

/// What is to be done about the stored account.
pub enum AccountPlan {
    /// It belongs to the configured directory: restore it.
    Restore,
    /// It belongs to another directory: switching between staging and production
    /// must not reuse an account key.
    Replace,
    /// There is none.
    Register,
}

/// What is to be done about the account that is stored for a directory.
pub open spec fn account_plan(stored: Option<Seq<char>>, directory: Seq<char>) -> AccountPlan {
    match stored {
        Some(d) => if d == directory {
            AccountPlan::Restore
        } else {
            AccountPlan::Replace
        },
        None => AccountPlan::Register,
    }
}

/// What is to be done about the account that is stored for a directory.
pub fn plan_account(stored: &Option<String>, directory: &str) -> (r: AccountPlan)
    ensures
        r == (match *stored {
            Some(d) => if d@ == directory@ {
                AccountPlan::Restore
            } else {
                AccountPlan::Replace
            },
            None => AccountPlan::Register,
        }),
        r == account_plan(opt_text(*stored), directory@),
{
    match stored {
        Some(d) => if same(d.as_str(), directory) {
            AccountPlan::Restore
        } else {
            AccountPlan::Replace
        },
        None => AccountPlan::Register,
    }
}

} // verus!
