//! What holds of certificate orders, whatever the clock says and the CA answers.

use vstd::prelude::*;

use crate::acme::order::{expects, failure_text, order_turn, ActionView, Event, OrderView, Phase};
use crate::acme::{
    account_plan, begun, challenge_port, clamped, comes_to, contacts, counted, counts, ended,
    failures_in_a_row, fresh_part, hold_reason, identifier_set, min_gap, order_cap, recorded,
    renew_threshold, retry_secs, secs_to_next_check, source_from, stage_text, still_good,
    validation_failure, AcmeStatusView, Authorization, Check, IssuanceView, Stage,
};
use crate::config::{duration_text, time_text};
use crate::settings::SettingsView;
use crate::text::{ascii_lower, decimal, joined, texts};
use crate::text_laws::the_last_place_is_the_last;
use crate::tls::{names_cover, names_hold, CertInfo, CertSource};

verus! {

// ---- renewal ----

/// A certificate is renewed once no more than the configured days are left, if
/// these fit into a third of its lifetime, and once no more than that third is
/// left otherwise.
pub proof fn the_renewal_window_is_the_configured_one(lifetime: int, days: int)
    requires
        lifetime >= 0,
        days >= 0,
    ensures
        3 * (days * 86_400) <= lifetime ==> renew_threshold(lifetime, days) == days * 86_400,
        3 * (days * 86_400) > lifetime ==> renew_threshold(lifetime, days) * 3 <= lifetime < (
        renew_threshold(lifetime, days) + 1) * 3,
{
}

/// The same of a certificate that ends before it begins: a third of its lifetime is
/// less than nothing, and is rounded towards nothing.
pub proof fn a_backward_lifetime_has_a_backward_window(lifetime: int, days: int)
    requires
        lifetime < 0,
    ensures
        renew_threshold(lifetime, days) <= 0,
        3 * (renew_threshold(lifetime, days) - 1) < lifetime <= 3 * renew_threshold(lifetime, days),
{
}

/// Without days to renew before, a certificate is kept until it expires.
pub proof fn no_window_keeps_a_certificate_to_the_end(lifetime: int, days: int)
    requires
        lifetime >= 0,
        days <= 0,
    ensures
        renew_threshold(lifetime, days) == 0,
{
}

/// A certificate is still good exactly if it comes from the configured directory,
/// holds every configured domain, and has more left than its renewal window.
pub proof fn a_good_certificate_outlasts_its_window(info: CertInfo, s: SettingsView, now: i64)
    requires
        info.not_before <= info.not_after,
        s.acme_renew_before_days >= 0,
        3 * (s.acme_renew_before_days * 86_400) <= info.not_after - info.not_before,
        names_cover(texts(info.names@), s.acme_domains),
        info.source == source_from(s.acme_directory),
    ensures
        still_good(info, s, now) <==> info.not_after - now > s.acme_renew_before_days * 86_400,
{
}

/// Where the window does not fit, a certificate is good while more than a third of
/// its lifetime is left.
pub proof fn a_short_certificate_lasts_two_thirds(info: CertInfo, s: SettingsView, now: i64)
    requires
        info.not_before <= info.not_after,
        3 * (s.acme_renew_before_days * 86_400) > info.not_after - info.not_before,
        names_cover(texts(info.names@), s.acme_domains),
        info.source == source_from(s.acme_directory),
    ensures
        still_good(info, s, now) <==> info.not_after - now > (info.not_after - info.not_before) / 3,
{
}

/// Nothing else makes up for a certificate from elsewhere, for a domain that it
/// lacks, or for one that is over.
pub proof fn a_certificate_needs_all_of_it(
    info: CertInfo,
    s: SettingsView,
    now: i64,
    domain: int,
)
    requires
        still_good(info, s, now),
        info.not_before <= info.not_after,
        0 <= domain < s.acme_domains.len(),
    ensures
        s.acme_directory == "https://acme-staging-v02.api.letsencrypt.org/directory"@ <==> info.source
            == CertSource::AcmeStaging,
        s.acme_directory != "https://acme-staging-v02.api.letsencrypt.org/directory"@ <==> info.source
            == CertSource::Acme,
        exists|k: int|
            0 <= k < info.names@.len() && #[trigger] ascii_lower(texts(info.names@)[k])
                == ascii_lower(s.acme_domains[domain]),
        now < info.not_after,
{
    assert(names_hold(texts(info.names@), s.acme_domains[domain]));
}

/// A certificate comes from staging if its directory is the staging directory,
/// and from production otherwise.
pub proof fn the_directory_tells_the_source(directory: Seq<char>)
    ensures
        directory == "https://acme-staging-v02.api.letsencrypt.org/directory"@ ==> source_from(
            directory,
        ) == CertSource::AcmeStaging,
        directory != "https://acme-staging-v02.api.letsencrypt.org/directory"@ ==> source_from(
            directory,
        ) == CertSource::Acme,
        directory == "https://acme-staging-v02.api.letsencrypt.org/directory"@ ==> order_cap(
            directory,
        ) == usize::MAX,
        directory != "https://acme-staging-v02.api.letsencrypt.org/directory"@ ==> order_cap(
            directory,
        ) == 4,
{
}

// ---- holding back ----

/// An order is held back exactly if as many as the cap were issued already, or if
/// the last one was issued within the last day; within the last hour, if the
/// admin asks.
pub proof fn orders_are_held_back_when_due(recent: Seq<i64>, now: i64, force: bool, cap: usize)
    requires
        cap >= 1,
    ensures
        hold_reason(recent, now, force, cap) is Some <==> recent.len() >= cap || (recent.len() > 0
            && now - recent.last() < (if force {
            3600int
        } else {
            86_400int
        })),
{
}

/// The reason names how many were issued and when the oldest of those that count
/// against the cap is a week old, or how long ago the last one was issued and when
/// the next may follow.
pub proof fn the_reason_says_when_to_go_on(
    recent: Seq<i64>,
    now: i64,
    force: bool,
    cap: usize,
    reason: Seq<char>,
)
    requires
        cap >= 1,
        hold_reason(recent, now, force, cap) == Some(reason),
    ensures
        recent.len() >= cap && recent[recent.len() - cap] + 604_800 <= i64::MAX ==> reason
            == decimal(recent.len())
            + " certificates were already issued for these domains in the last "@ + duration_text(
            604_800,
        ) + "; the CA allows five per week, so ordering waits until "@ + time_text(
            (recent[recent.len() - cap] + 604_800) as i64,
        ),
        recent.len() < cap && recent.last() + 86_400 <= i64::MAX && now - recent.last() >= i64::MIN
            ==> reason == "a certificate for these domains was issued "@ + duration_text(
            now - recent.last(),
        ) + " ago; the next order waits until "@ + time_text(
            (recent.last() + (if force {
                3600int
            } else {
                86_400int
            })) as i64,
        ),
{
}

/// A time that can be written down is written down as it is.
pub proof fn times_are_clamped_at_their_ends(t: int)
    ensures
        i64::MIN <= t <= i64::MAX ==> clamped(t) == t,
        t > i64::MAX ==> clamped(t) == i64::MAX,
        t < i64::MIN ==> clamped(t) == i64::MIN,
        min_gap(true) == 3600,
        min_gap(false) == 86_400,
{
}

// ---- the record ----

/// An issuance counts against an order if it came from the same directory, for
/// the same names in whatever case and order, less than a week ago.
pub proof fn an_issuance_counts_for_a_week(
    i: IssuanceView,
    directory: Seq<char>,
    identifiers: Seq<Seq<char>>,
    now: i64,
)
    ensures
        counts(i, directory, identifiers, now) <==> i.directory == directory && identifier_set(
            i.identifiers,
        ) == identifier_set(identifiers) && now - i.at < 604_800,
        counted(seq![i], directory, identifiers, now) == (if counts(
            i,
            directory,
            identifiers,
            now,
        ) {
            seq![i.at]
        } else {
            Seq::<i64>::empty()
        }),
{
    assert(seq![i].drop_last() =~= Seq::<IssuanceView>::empty());
    assert(counted(Seq::<IssuanceView>::empty(), directory, identifiers, now) =~= Seq::empty());
    assert(counted(seq![i], directory, identifiers, now) =~= (if counts(
        i,
        directory,
        identifiers,
        now,
    ) {
        seq![i.at]
    } else {
        Seq::<i64>::empty()
    }));
}

/// The names of an order are taken as a set: a name is in it if one of the list
/// is the name, in whatever case.
pub proof fn names_are_counted_as_a_set(list: Seq<Seq<char>>, name: Seq<char>)
    ensures
        identifier_set(list).contains(ascii_lower(name)) <==> exists|i: int|
            0 <= i < list.len() && #[trigger] ascii_lower(list[i]) == ascii_lower(name),
{
    let low = list.map_values(|s: Seq<char>| ascii_lower(s));
    if low.contains(ascii_lower(name)) {
        let i = choose|i: int| 0 <= i < low.len() && low[i] == ascii_lower(name);
        assert(ascii_lower(list[i]) == ascii_lower(name));
    }
    if exists|i: int| 0 <= i < list.len() && #[trigger] ascii_lower(list[i]) == ascii_lower(name) {
        let i = choose|i: int|
            0 <= i < list.len() && #[trigger] ascii_lower(list[i]) == ascii_lower(name);
        assert(low[i] == ascii_lower(name));
    }
}

/// A record counts part by part, in the order in which it was written.
pub proof fn a_record_counts_part_by_part(
    a: Seq<IssuanceView>,
    b: Seq<IssuanceView>,
    directory: Seq<char>,
    identifiers: Seq<Seq<char>>,
    now: i64,
)
    ensures
        counted(a + b, directory, identifiers, now) == counted(a, directory, identifiers, now)
            + counted(b, directory, identifiers, now),
        fresh_part(a + b, now) == fresh_part(a, now) + fresh_part(b, now),
    decreases b.len(),
{
    if b.len() == 0 {
        assert(a + b =~= a);
        assert(counted(a, directory, identifiers, now) + counted(b, directory, identifiers, now)
            =~= counted(a, directory, identifiers, now));
        assert(fresh_part(a, now) + fresh_part(b, now) =~= fresh_part(a, now));
    } else {
        a_record_counts_part_by_part(a, b.drop_last(), directory, identifiers, now);
        assert((a + b).drop_last() =~= a + b.drop_last());
        assert((a + b).last() == b.last());
        assert(counted(a + b, directory, identifiers, now) =~= counted(
            a,
            directory,
            identifiers,
            now,
        ) + counted(b, directory, identifiers, now));
        assert(fresh_part(a + b, now) =~= fresh_part(a, now) + fresh_part(b, now));
    }
}

/// Recording an issuance adds it at the end, and forgets what is a week old and
/// nothing else.
pub proof fn recording_forgets_what_is_a_week_old(
    ledger: Seq<IssuanceView>,
    issued: IssuanceView,
    i: IssuanceView,
    now: i64,
)
    ensures
        recorded(ledger, issued, now).last() == issued,
        recorded(ledger, issued, now).drop_last().contains(i) <==> ledger.contains(i) && now - i.at
            < 604_800,
    decreases ledger.len(),
{
    let kept = recorded(ledger, issued, now).drop_last();
    assert(kept =~= fresh_part(ledger, now));
    if ledger.len() > 0 {
        let before = ledger.drop_last();
        let last = ledger.last();
        recording_forgets_what_is_a_week_old(before, issued, i, now);
        let less = fresh_part(before, now);
        assert(recorded(before, issued, now).drop_last() =~= less);
        if less.contains(i) {
            let k = choose|k: int| 0 <= k < less.len() && less[k] == i;
            assert(kept[k] == i);
        }
        if kept.contains(i) && !less.contains(i) {
            let k = choose|k: int| 0 <= k < kept.len() && kept[k] == i;
            if k < less.len() {
                assert(less[k] == i);
            }
            assert(i == last);
            assert(ledger[ledger.len() - 1] == i);
        }
        if before.contains(i) {
            let k = choose|k: int| 0 <= k < before.len() && before[k] == i;
            assert(ledger[k] == i);
        }
        if ledger.contains(i) && now - i.at < 604_800 {
            let k = choose|k: int| 0 <= k < ledger.len() && ledger[k] == i;
            if k < before.len() {
                assert(before[k] == i);
            } else {
                assert(kept[kept.len() - 1] == i);
            }
        }
    }
}

// ---- checking ----

/// Nothing is ordered while ordering is off or no domain is configured.
pub proof fn nothing_is_ordered_while_off(
    r: Check,
    s: SettingsView,
    info: Option<CertInfo>,
    recent: Seq<i64>,
    now: i64,
    force: bool,
)
    requires
        comes_to(r, s, info, recent, now, force),
    ensures
        !s.acme_enabled <==> r is Disabled,
        s.acme_enabled && s.acme_domains.len() == 0 <==> r is NoDomains,
        r is Order ==> s.acme_enabled && s.acme_domains.len() > 0,
{
}

/// A certificate that is still good is left alone unless the admin asks. One that
/// is not, or that the admin wants anew, is ordered, unless a week's number of
/// orders is used up or the last one is too recent.
pub proof fn a_certificate_is_ordered_when_due(
    r: Check,
    s: SettingsView,
    info: Option<CertInfo>,
    recent: Seq<i64>,
    now: i64,
    force: bool,
)
    requires
        comes_to(r, s, info, recent, now, force),
        s.acme_enabled,
        s.acme_domains.len() > 0,
        s.acme_directory != "https://acme-staging-v02.api.letsencrypt.org/directory"@,
    ensures
        ({
            let wanted = force || info is None || !still_good(info->0, s, now);
            let gap = if force {
                3600int
            } else {
                86_400int
            };
            &&& r is StillGood <==> !wanted
            &&& wanted && recent.len() == 0 ==> r is Order
            &&& wanted && recent.len() >= 4 ==> r is Hold
            &&& wanted && 0 < recent.len() < 4 && now - recent.last() >= gap ==> r is Order
            &&& wanted && 0 < recent.len() < 4 && now - recent.last() < gap ==> r is Hold
        }),
{
}

/// An account is restored for the directory it belongs to, replaced for another
/// one, and registered if there is none.
pub proof fn an_account_belongs_to_its_directory(stored: Seq<char>, directory: Seq<char>)
    ensures
        account_plan(Some(directory), directory) is Restore,
        stored != directory ==> account_plan(Some(stored), directory) is Replace,
        account_plan(None, directory) is Register,
{
}

// ---- retrying ----

/// After a success the next check comes after six hours, and the failures before it
/// are forgotten. After failures it comes as the retries do, and each counts.
pub proof fn failures_count_until_a_success(failures: u32)
    ensures
        failures_in_a_row(failures, true) == 0,
        failures < u32::MAX ==> failures_in_a_row(failures, false) == failures + 1,
        failures_in_a_row(u32::MAX, false) == u32::MAX,
        secs_to_next_check(failures_in_a_row(failures, true)) == 21_600,
        secs_to_next_check(failures_in_a_row(0, false)) == 900,
        failures > 0 ==> secs_to_next_check(failures) == retry_secs(failures),
{
}

/// The first retry comes after 15 minutes, each of the next four after twice the
/// time of the one before, and from then on they come every four hours.
pub proof fn retries_double(failures: u32)
    ensures
        retry_secs(0) == 900,
        retry_secs(1) == 900,
        1 <= failures < 5 ==> retry_secs((failures + 1) as u32) == 2 * retry_secs(failures),
        failures >= 5 ==> retry_secs(failures) == 14_400,
{
}

// ---- the report ----

/// The report of an order: it runs from its beginning to its end, and says when
/// it was attempted, how far it has come, when it succeeded and why it failed.
pub proof fn an_order_is_reported(
    s: AcmeStatusView,
    now: i64,
    later: i64,
    reason: String,
)
    requires
        !s.running,
    ensures
        ({
            let b = begun(s, now);
            &&& b.running && b.last_attempt == Some(now) && b.stage == Some("starting"@)
            &&& b.last_success == s.last_success && b.last_error == s.last_error
            &&& b.hold == s.hold
            &&& ended(b, later, Ok(())) == (AcmeStatusView {
                running: false,
                last_attempt: Some(now),
                last_success: Some(later),
                last_error: None,
                hold: None,
                stage: None,
            })
            &&& ended(b, later, Err(reason)) == (AcmeStatusView {
                running: false,
                last_attempt: Some(now),
                last_success: s.last_success,
                last_error: Some(reason@),
                hold: s.hold,
                stage: None,
            })
        }),
{
}

/// The stages as the report names them.
pub proof fn stages_have_their_names(challenges: usize)
    ensures
        stage_text(Stage::Authenticating) == "authenticating with the CA"@,
        stage_text(Stage::Preparing { challenges }) == "preparing "@ + decimal(challenges as nat)
            + " challenge(s)"@,
        stage_text(Stage::Validating) == "waiting for the CA to validate"@,
        stage_text(Stage::Finalizing) == "finalizing and downloading"@,
{
}

/// The port of a challenge address is what stands behind its last colon, and 80
/// if there is none.
pub proof fn the_challenge_port_is_read(host: Seq<char>, port: Seq<char>)
    requires
        forall|i: int| 0 <= i < port.len() ==> #[trigger] port[i] != ':',
    ensures
        challenge_port(host + ":"@ + port) == port,
        challenge_port(port) == "80"@,
{
    reveal_strlit(":");
    assert(host + ":"@ + port =~= host + seq![':'] + port);
    the_last_place_is_the_last(host, ':', port);
    let addr = host + ":"@ + port;
    assert(addr.skip(host.len() as int + 1) =~= port);
}

/// A failed validation names the order's state, the port and the domains.
pub proof fn a_failed_validation_is_explained(
    status: Seq<char>,
    host: Seq<char>,
    port: Seq<char>,
    domains: Seq<Seq<char>>,
)
    requires
        forall|i: int| 0 <= i < port.len() ==> #[trigger] port[i] != ':',
    ensures
        validation_failure(status, host + ":"@ + port, domains)
            == "the CA did not validate the domains (order status "@ + status
            + "); check that port "@ + port + " is reachable from the internet for "@ + joined(
            domains,
            ", "@,
        ),
{
    the_challenge_port_is_read(host, port);
}

/// The CA is given a contact if there is an address.
pub proof fn a_contact_is_a_mail_address(email: Seq<char>)
    ensures
        email.len() > 0 ==> contacts(email) == seq!["mailto:"@ + email],
        email.len() == 0 ==> contacts(email) == Seq::<Seq<char>>::empty(),
{
}

// ---- the course of an order ----

/// The steps of an order for one domain that goes well: what the CA is asked
/// after each of its answers, and what is published meanwhile.
pub proof fn an_order_takes_its_course(
    s: SettingsView,
    published: Map<Seq<char>, Seq<char>>,
    token: String,
    key_auth: String,
    status: String,
)
    ensures
        ({
            let at = |p: Phase| OrderView { settings: s, phase: p, validated: false };
            let done = |p: Phase| OrderView { settings: s, phase: p, validated: true };
            let none = Map::<Seq<char>, Seq<char>>::empty();
            &&& order_turn(at(Phase::Authenticating), published, Event::Authenticated) == (
                at(Phase::Placing),
                published,
                ActionView::Place,
            )
            &&& order_turn(at(Phase::Placing), published, Event::Placed) == (
                at(Phase::Fetching),
                published,
                ActionView::FetchAuthorization,
            )
            &&& order_turn(
                at(Phase::Fetching),
                published,
                Event::Authorized(Authorization::Pending),
            ) == (at(Phase::Offering), published, ActionView::OfferChallenge)
            &&& order_turn(
                at(Phase::Fetching),
                published,
                Event::Authorized(Authorization::Valid),
            ) == (at(Phase::Fetching), published, ActionView::FetchAuthorization)
            &&& order_turn(
                at(Phase::Offering),
                published,
                Event::Offered(Some((token, key_auth))),
            ) == (
                at(Phase::Readying),
                published.insert(token@, key_auth@),
                ActionView::MarkReady,
            )
            &&& order_turn(at(Phase::Readying), published, Event::MadeReady) == (
                at(Phase::Fetching),
                published,
                ActionView::FetchAuthorization,
            )
            &&& order_turn(at(Phase::Fetching), published, Event::AllAuthorized) == (
                at(Phase::Validating),
                published,
                ActionView::Poll,
            )
            &&& order_turn(
                at(Phase::Validating),
                published,
                Event::Polled { ready: true, status },
            ) == (done(Phase::Finalizing), published, ActionView::Finalize)
            &&& order_turn(done(Phase::Finalizing), published, Event::Finalized) == (
                done(Phase::Downloading),
                published,
                ActionView::Download,
            )
            &&& order_turn(done(Phase::Downloading), published, Event::Downloaded) == (
                done(Phase::Installing),
                published,
                ActionView::Install {
                    source: if s.acme_directory
                        == "https://acme-staging-v02.api.letsencrypt.org/directory"@ {
                        CertSource::AcmeStaging
                    } else {
                        CertSource::Acme
                    },
                },
            )
            &&& order_turn(done(Phase::Installing), published, Event::Installed) == (
                done(Phase::Over),
                none,
                ActionView::Succeed,
            )
        }),
{
}

/// An order that fails is over, answers no challenge any more, and says what it
/// was doing when it failed.
pub proof fn a_failed_order_says_what_it_was_doing(
    o: OrderView,
    published: Map<Seq<char>, Seq<char>>,
    reason: String,
    name: String,
)
    ensures
        ({
            let over = OrderView { phase: Phase::Over, ..o };
            let none = Map::<Seq<char>, Seq<char>>::empty();
            let doing = match o.phase {
                Phase::Placing => "creating ACME order: "@,
                Phase::Fetching => "fetching authorization: "@,
                Phase::Readying => "telling the CA the challenge is ready: "@,
                Phase::Validating => "waiting for the order to become ready: "@,
                Phase::Finalizing => "finalizing the order: "@,
                Phase::Downloading => "downloading the certificate: "@,
                Phase::Installing => "installing the issued certificate: "@,
                _ => Seq::empty(),
            };
            &&& order_turn(o, published, Event::Failed(reason)) == (
                over,
                none,
                ActionView::Fail(doing + reason@),
            )
            &&& order_turn(o, published, Event::Authorized(Authorization::Unusable(name))) == (
                over,
                none,
                ActionView::Fail("authorization is in unusable state "@ + name@),
            )
            &&& order_turn(o, published, Event::Offered(None)) == (
                over,
                none,
                ActionView::Fail("the CA did not offer an HTTP-01 challenge for this order"@),
            )
            &&& order_turn(o, published, Event::Polled { ready: false, status: name }) == (
                over,
                none,
                ActionView::Fail(
                    validation_failure(
                        name@,
                        o.settings.acme_http_addr,
                        o.settings.acme_domains,
                    ),
                ),
            )
        }),
{
    assert(Seq::<char>::empty() + reason@ =~= reason@);
}

/// The CA can fail an order at any step that waits for it.
pub proof fn every_step_can_fail(phase: Phase, reason: String)
    ensures
        expects(phase, Event::Failed(reason)) <==> phase != Phase::Over && phase
            != Phase::Offering,
        expects(phase, Event::Authenticated) <==> phase == Phase::Authenticating,
        expects(phase, Event::Placed) <==> phase == Phase::Placing,
        expects(phase, Event::AllAuthorized) <==> phase == Phase::Fetching,
        expects(phase, Event::MadeReady) <==> phase == Phase::Readying,
        expects(phase, Event::Finalized) <==> phase == Phase::Finalizing,
        expects(phase, Event::Downloaded) <==> phase == Phase::Downloading,
        expects(phase, Event::Installed) <==> phase == Phase::Installing,
        failure_text(Phase::Authenticating, reason@) == reason@,
{
}

/// The stage that an order in progress reports.
pub proof fn an_order_reports_its_stage(o: OrderView)
    requires
        o.settings.acme_domains.len() <= usize::MAX,
    ensures
        o.phase == Phase::Authenticating || o.phase == Phase::Placing ==> stage_text(o.stage())
            == "authenticating with the CA"@,
        o.phase == Phase::Fetching || o.phase == Phase::Offering || o.phase == Phase::Readying
            ==> stage_text(o.stage()) == "preparing "@ + decimal(o.settings.acme_domains.len())
            + " challenge(s)"@,
        o.phase == Phase::Validating ==> stage_text(o.stage())
            == "waiting for the CA to validate"@,
        o.phase == Phase::Finalizing || o.phase == Phase::Downloading || o.phase
            == Phase::Installing || o.phase == Phase::Over ==> stage_text(o.stage())
            == "finalizing and downloading"@,
{
}

} // verus!
