//! An order for a certificate, from signing in at the CA to the installed
//! certificate. The order says what to do next; whoever runs it does that and
//! reports what came of it.

use vstd::prelude::*;
use vstd::string::*;

use crate::acme::{
    authorization_step, ended, issued_source, not_validated, recorded, source_from,
    validation_failure, AcmeStatus, Authorization, AuthorizationStep, Challenges, IssuanceView,
    Ledger, Stage, NO_HTTP_CHALLENGE,
};
use crate::settings::{Settings, SettingsView};
use crate::tls::CertSource;

verus! {

/// What an order is waiting for.
#[derive(Debug, Clone, Copy, PartialEq, Eq, Structural)]
pub enum Phase {
    Authenticating,
    Placing,
    Fetching,
    Offering,
    Readying,
    Validating,
    Finalizing,
    Downloading,
    Installing,
    Over,
}

/// What came of the last action.
pub enum Event {
    /// The account is signed in.
    Authenticated,
    /// The CA has accepted the order.
    Placed,
    /// The next authorization was fetched, and this is its state.
    Authorized(Authorization),
    /// There are no more authorizations.
    AllAuthorized,
    /// The HTTP-01 challenge of the authorization, if the CA offers one: its
    /// token and its key authorization.
    Offered(Option<(String, String)>),
    /// The CA knows that the challenge is ready.
    MadeReady,
    /// The CA has made up its mind: whether the order is ready, and its state by
    /// its name.
    Polled { ready: bool, status: String },
    /// The order was finalized.
    Finalized,
    /// The certificate was downloaded.
    Downloaded,
    /// The certificate is in use.
    Installed,
    /// The action failed, for this reason.
    Failed(String),
}

/// What to do next.
pub enum Action {
    /// Sign in with the stored account, or register one.
    Authenticate,
    /// Place the order for the configured domains.
    Place,
    /// Fetch the next authorization of the order.
    FetchAuthorization,
    /// Find the HTTP-01 challenge of the authorization at hand.
    OfferChallenge,
    /// Tell the CA that the challenge is ready.
    MarkReady,
    /// Wait until the CA has validated the order or given up on it.
    Poll,
    /// Finalize the order.
    Finalize,
    /// Download the certificate.
    Download,
    /// Put the certificate to use, as one from this source.
    Install { source: CertSource },
    /// The order is over.
    Finish(Result<(), String>),
}

/// What an [`Action`] says.
#[verifier::ext_equal]
pub enum ActionView {
    Authenticate,
    Place,
    FetchAuthorization,
    OfferChallenge,
    MarkReady,
    Poll,
    Finalize,
    Download,
    Install { source: CertSource },
    Succeed,
    Fail(Seq<char>),
}

impl View for Action {
    type V = ActionView;

    open spec fn view(&self) -> ActionView {
        match self {
            Action::Authenticate => ActionView::Authenticate,
            Action::Place => ActionView::Place,
            Action::FetchAuthorization => ActionView::FetchAuthorization,
            Action::OfferChallenge => ActionView::OfferChallenge,
            Action::MarkReady => ActionView::MarkReady,
            Action::Poll => ActionView::Poll,
            Action::Finalize => ActionView::Finalize,
            Action::Download => ActionView::Download,
            Action::Install { source } => ActionView::Install { source: *source },
            Action::Finish(Ok(_)) => ActionView::Succeed,
            Action::Finish(Err(e)) => ActionView::Fail(e@),
        }
    }
}

/// The state of an [`Order`].
#[verifier::ext_equal]
pub struct OrderView {
    pub settings: SettingsView,
    pub phase: Phase,
    /// Whether the CA has validated the domains.
    pub validated: bool,
}

/// An order for a certificate.
pub struct Order {
    settings: Settings,
    phase: Phase,
    validated: bool,
}

impl View for Order {
    type V = OrderView;

    closed spec fn view(&self) -> OrderView {
        OrderView {
            settings: self.settings@,
            phase: self.phase,
            validated: self.validated,
        }
    }
}

/// Whether `event` can come of the action that an order in `phase` has asked for.
pub open spec fn expects(phase: Phase, event: Event) -> bool {
    match event {
        Event::Failed(_) => phase != Phase::Over && phase != Phase::Offering,
        Event::Authenticated => phase == Phase::Authenticating,
        Event::Placed => phase == Phase::Placing,
        Event::Authorized(_) => phase == Phase::Fetching,
        Event::AllAuthorized => phase == Phase::Fetching,
        Event::Offered(_) => phase == Phase::Offering,
        Event::MadeReady => phase == Phase::Readying,
        Event::Polled { .. } => phase == Phase::Validating,
        Event::Finalized => phase == Phase::Finalizing,
        Event::Downloaded => phase == Phase::Downloading,
        Event::Installed => phase == Phase::Installing,
    }
}

/// What is said of a failure in `phase`: what was being done, and the reason.
pub open spec fn failure_text(phase: Phase, reason: Seq<char>) -> Seq<char> {
    match phase {
        Phase::Placing => "creating ACME order: "@ + reason,
        Phase::Fetching => "fetching authorization: "@ + reason,
        Phase::Readying => "telling the CA the challenge is ready: "@ + reason,
        Phase::Validating => "waiting for the order to become ready: "@ + reason,
        Phase::Finalizing => "finalizing the order: "@ + reason,
        Phase::Downloading => "downloading the certificate: "@ + reason,
        Phase::Installing => "installing the issued certificate: "@ + reason,
        _ => reason,
    }
}

/// The order after an event, the challenges that are published then, and what to
/// do next. An order that is over has no challenges.
pub open spec fn order_turn(
    o: OrderView,
    published: Map<Seq<char>, Seq<char>>,
    event: Event,
) -> (OrderView, Map<Seq<char>, Seq<char>>, ActionView) {
    let in_phase = |p: Phase| OrderView { phase: p, ..o };
    let none = Map::<Seq<char>, Seq<char>>::empty();
    match event {
        Event::Authenticated => (in_phase(Phase::Placing), published, ActionView::Place),
        Event::Placed => (in_phase(Phase::Fetching), published, ActionView::FetchAuthorization),
        Event::Authorized(state) => match state {
            Authorization::Pending => (
                in_phase(Phase::Offering),
                published,
                ActionView::OfferChallenge,
            ),
            Authorization::Valid => (
                in_phase(Phase::Fetching),
                published,
                ActionView::FetchAuthorization,
            ),
            Authorization::Unusable(name) => (
                in_phase(Phase::Over),
                none,
                ActionView::Fail("authorization is in unusable state "@ + name@),
            ),
        },
        Event::AllAuthorized => (in_phase(Phase::Validating), published, ActionView::Poll),
        Event::Offered(challenge) => match challenge {
            Some((token, key_auth)) => (
                in_phase(Phase::Readying),
                published.insert(token@, key_auth@),
                ActionView::MarkReady,
            ),
            None => (in_phase(Phase::Over), none, ActionView::Fail(NO_HTTP_CHALLENGE@)),
        },
        Event::MadeReady => (in_phase(Phase::Fetching), published, ActionView::FetchAuthorization),
        Event::Polled { ready, status } => if ready {
            (
                OrderView { phase: Phase::Finalizing, validated: true, ..o },
                published,
                ActionView::Finalize,
            )
        } else {
            (
                in_phase(Phase::Over),
                none,
                ActionView::Fail(
                    validation_failure(
                        status@,
                        o.settings.acme_http_addr,
                        o.settings.acme_domains,
                    ),
                ),
            )
        },
        Event::Finalized => (in_phase(Phase::Downloading), published, ActionView::Download),
        Event::Downloaded => (
            in_phase(Phase::Installing),
            published,
            ActionView::Install { source: source_from(o.settings.acme_directory) },
        ),
        Event::Installed => (in_phase(Phase::Over), none, ActionView::Succeed),
        Event::Failed(reason) => (
            in_phase(Phase::Over),
            none,
            ActionView::Fail(failure_text(o.phase, reason@)),
        ),
    }
}

impl OrderView {
    /// A certificate is asked for, fetched and installed only once the CA has
    /// validated the domains.
    pub open spec fn wf(self) -> bool {
        self.phase == Phase::Finalizing || self.phase == Phase::Downloading || self.phase
            == Phase::Installing ==> self.validated
    }

    /// How far the order has come, for the admin UI.
    pub open spec fn stage(self) -> Stage {
        match self.phase {
            Phase::Authenticating | Phase::Placing => Stage::Authenticating,
            Phase::Fetching | Phase::Offering | Phase::Readying => Stage::Preparing {
                challenges: self.settings.acme_domains.len() as usize,
            },
            Phase::Validating => Stage::Validating,
            Phase::Finalizing | Phase::Downloading | Phase::Installing | Phase::Over =>
                Stage::Finalizing,
        }
    }
}

fn explain(doing: &str, reason: String) -> (r: String)
    ensures
        r@ == doing@ + reason@,
{
    let mut out = doing.to_string();
    out.append(reason.as_str());
    out
}

impl Order {
    /// A new order for the configured domains. The first thing to do is to sign
    /// in at the CA.
    pub fn new(settings: &Settings) -> (r: (Self, Action))
        ensures
            r.0@ == (OrderView {
                settings: settings@,
                phase: Phase::Authenticating,
                validated: false,
            }),
            r.0@.wf(),
            r.1@ == ActionView::Authenticate,
    {
        let order = Order {
            settings: settings.copy(),
            phase: Phase::Authenticating,
            validated: false,
        };
        (order, Action::Authenticate)
    }

    /// What the order is waiting for.
    pub fn phase(&self) -> (r: Phase)
        ensures
            r == self@.phase,
    {
        self.phase
    }

    /// How far the order has come, for the admin UI.
    pub fn stage(&self) -> (r: Stage)
        ensures
            r == self@.stage(),
    {
        match self.phase {
            Phase::Authenticating | Phase::Placing => Stage::Authenticating,
            Phase::Fetching | Phase::Offering | Phase::Readying => Stage::Preparing {
                challenges: self.settings.acme_domains.len(),
            },
            Phase::Validating => Stage::Validating,
            Phase::Finalizing | Phase::Downloading | Phase::Installing | Phase::Over => {
                Stage::Finalizing
            },
        }
    }

    fn fail(&mut self, challenges: &mut Challenges, reason: String) -> (r: Action)
        ensures
            final(self)@ == (OrderView { phase: Phase::Over, ..old(self)@ }),
            final(challenges)@ == Map::<Seq<char>, Seq<char>>::empty(),
            r@ == ActionView::Fail(reason@),
    {
        self.phase = Phase::Over;
        challenges.clear_challenges();
        Action::Finish(Err(reason))
    }

    fn explain_failure(&self, reason: String) -> (r: String)
        ensures
            r@ == failure_text(self@.phase, reason@),
    {
        match self.phase {
            Phase::Placing => explain("creating ACME order: ", reason),
            Phase::Fetching => explain("fetching authorization: ", reason),
            Phase::Readying => explain("telling the CA the challenge is ready: ", reason),
            Phase::Validating => explain("waiting for the order to become ready: ", reason),
            Phase::Finalizing => explain("finalizing the order: ", reason),
            Phase::Downloading => explain("downloading the certificate: ", reason),
            Phase::Installing => explain("installing the issued certificate: ", reason),
            Phase::Authenticating | Phase::Offering | Phase::Over => reason,
        }
    }

    /// Takes in what came of the last action, and says what to do next.
    pub fn advance(&mut self, challenges: &mut Challenges, event: Event) -> (r: Action)
        requires
            expects(old(self)@.phase, event),
            old(self)@.wf(),
        ensures
            (final(self)@, final(challenges)@, r@) == order_turn(
                old(self)@,
                old(challenges)@,
                event,
            ),
            final(self)@.wf(),
    {
        match event {
            Event::Authenticated => {
                self.phase = Phase::Placing;
                Action::Place
            },
            Event::Placed => {
                self.phase = Phase::Fetching;
                Action::FetchAuthorization
            },
            Event::Authorized(state) => match authorization_step(state) {
                AuthorizationStep::Prepare => {
                    self.phase = Phase::Offering;
                    Action::OfferChallenge
                },
                AuthorizationStep::Skip => {
                    self.phase = Phase::Fetching;
                    Action::FetchAuthorization
                },
                AuthorizationStep::Fail(reason) => self.fail(challenges, reason),
            },
            Event::AllAuthorized => {
                self.phase = Phase::Validating;
                Action::Poll
            },
            Event::Offered(challenge) => match challenge {
                Some((token, key_auth)) => {
                    challenges.put_challenge(token, key_auth);
                    self.phase = Phase::Readying;
                    Action::MarkReady
                },
                None => self.fail(challenges, NO_HTTP_CHALLENGE.to_string()),
            },
            Event::MadeReady => {
                self.phase = Phase::Fetching;
                Action::FetchAuthorization
            },
            Event::Polled { ready, status } => if ready {
                self.phase = Phase::Finalizing;
                self.validated = true;
                Action::Finalize
            } else {
                let reason = not_validated(status.as_str(), &self.settings);
                self.fail(challenges, reason)
            },
            Event::Finalized => {
                self.phase = Phase::Downloading;
                Action::Download
            },
            Event::Downloaded => {
                self.phase = Phase::Installing;
                Action::Install { source: issued_source(self.settings.acme_directory.as_str()) }
            },
            Event::Installed => {
                self.phase = Phase::Over;
                challenges.clear_challenges();
                Action::Finish(Ok(()))
            },
            Event::Failed(reason) => {
                let text = self.explain_failure(reason);
                self.fail(challenges, text)
            },
        }
    }
}

/// Books an order that is over: a certificate that was issued goes into the
/// ledger, and the admin UI learns how the order ended.
pub fn conclude(
    settings: &Settings,
    ledger: &mut Ledger,
    status: &mut AcmeStatus,
    now: i64,
    result: Result<(), String>,
)
    ensures
        final(status)@ == ended(old(status)@, now, result),
        final(ledger)@ == (if result is Ok {
            recorded(
                old(ledger)@,
                IssuanceView {
                    at: now,
                    directory: settings@.acme_directory,
                    identifiers: settings@.acme_domains,
                },
                now,
            )
        } else {
            old(ledger)@
        }),
{
    if result.is_ok() {
        ledger.record_issuance(settings.acme_directory.as_str(), &settings.acme_domains, now);
    }
    status.end(now, result);
}

// ---- what holds of every order ----

/// A certificate is installed only for domains that the CA has validated, and as
/// one of the directory that it was ordered from.
pub proof fn a_certificate_needs_validation(
    o: OrderView,
    published: Map<Seq<char>, Seq<char>>,
    event: Event,
)
    requires
        o.wf(),
        expects(o.phase, event),
    ensures
        order_turn(o, published, event).2 is Install ==> {
            &&& o.validated
            &&& order_turn(o, published, event).2->source == source_from(o.settings.acme_directory)
        },
        order_turn(o, published, event).2 is Succeed ==> o.validated,
        order_turn(o, published, event).0.validated && !o.validated ==> event is Polled
            && event->ready,
{
}

/// Only challenges of an order that is running are answered: an order publishes
/// what the CA has offered it, and once it is over nothing of it is left.
pub proof fn challenges_end_with_their_order(
    o: OrderView,
    published: Map<Seq<char>, Seq<char>>,
    event: Event,
    token: Seq<char>,
)
    requires
        expects(o.phase, event),
    ensures
        ({
            let (after, answered, action) = order_turn(o, published, event);
            &&& action is Succeed || action is Fail <==> after.phase == Phase::Over
            &&& after.phase == Phase::Over ==> answered == Map::<Seq<char>, Seq<char>>::empty()
            &&& answered.dom().contains(token) && !published.dom().contains(token) ==> (
            event matches Event::Offered(Some((t, k))) && t@ == token)
        }),
{
}

} // verus!
