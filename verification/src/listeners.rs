//! Supervisor for the listeners whose addresses are configurable at runtime.
//!
//! The plaintext web UI is deliberately not managed here - it is bound once at
//! startup from [`crate::config::Config`] and never moves, so a bad setting
//! can never lock the admin out of the UI that fixes it.
//!
//! Reconciling is idempotent: it compares the running addresses against the
//! current settings and only touches what actually changed. A new address is
//! bound *before* the old listener is dropped, so a port that is already taken
//! leaves the previous listener serving instead of killing it for nothing.

use vstd::prelude::*;
use vstd::string::*;

use crate::settings::{Settings, SettingsView};
use crate::text::{
    chars_of, copy_opt, last_index_of, opt_text, parse_u16, rfind_char, same, text_range,
    unsigned_number,
};

verus! {

#[derive(Debug, Clone, Copy, PartialEq, Eq, Structural, Hash)]
pub enum Kind {
    Smtp,
    Smtps,
    Https,
    AcmeHttp,
}

impl Kind {
    pub open spec fn label_text(self) -> Seq<char> {
        match self {
            Kind::Smtp => "SMTP (plaintext + STARTTLS)"@,
            Kind::Smtps => "SMTPS (implicit TLS)"@,
            Kind::Https => "HTTPS web UI"@,
            Kind::AcmeHttp => "ACME HTTP-01 challenge"@,
        }
    }

    pub fn label(self) -> (r: &'static str)
        ensures
            r@ == self.label_text(),
    {
        match self {
            Kind::Smtp => "SMTP (plaintext + STARTTLS)",
            Kind::Smtps => "SMTPS (implicit TLS)",
            Kind::Https => "HTTPS web UI",
            Kind::AcmeHttp => "ACME HTTP-01 challenge",
        }
    }
}

/// The address that each listener serves on, if it runs.
pub struct Listeners {
    smtp: Option<String>,
    smtps: Option<String>,
    https: Option<String>,
    acme_http: Option<String>,
}

/// The addresses of [`Listeners`].
#[verifier::ext_equal]
pub struct ListenersView {
    pub smtp: Option<Seq<char>>,
    pub smtps: Option<Seq<char>>,
    pub https: Option<Seq<char>>,
    pub acme_http: Option<Seq<char>>,
}

impl View for Listeners {
    type V = ListenersView;

    closed spec fn view(&self) -> ListenersView {
        ListenersView {
            smtp: opt_text(self.smtp),
            smtps: opt_text(self.smtps),
            https: opt_text(self.https),
            acme_http: opt_text(self.acme_http),
        }
    }
}

impl ListenersView {
    /// Where a listener serves, if it runs.
    pub open spec fn at(self, kind: Kind) -> Option<Seq<char>> {
        match kind {
            Kind::Smtp => self.smtp,
            Kind::Smtps => self.smtps,
            Kind::Https => self.https,
            Kind::AcmeHttp => self.acme_http,
        }
    }

    /// The listeners with one of them moved.
    pub open spec fn with(self, kind: Kind, addr: Option<Seq<char>>) -> ListenersView {
        match kind {
            Kind::Smtp => ListenersView { smtp: addr, ..self },
            Kind::Smtps => ListenersView { smtps: addr, ..self },
            Kind::Https => ListenersView { https: addr, ..self },
            Kind::AcmeHttp => ListenersView { acme_http: addr, ..self },
        }
    }
}

/// Where a listener should serve. An empty address means that it should not run.
pub open spec fn desired_address(s: SettingsView, kind: Kind) -> Seq<char> {
    match kind {
        Kind::Smtp => s.smtp_addr,
        Kind::Smtps => s.smtps_addr,
        Kind::Https => s.https_addr,
        Kind::AcmeHttp => if s.acme_enabled {
            s.acme_http_addr
        } else {
            ""@
        },
    }
}

/// Where a listener should serve. An empty address means that it should not run.
pub fn desired(settings: &Settings, kind: Kind) -> (r: String)
    ensures
        r@ == desired_address(settings@, kind),
{
    match kind {
        Kind::Smtp => settings.smtp_addr.clone(),
        Kind::Smtps => settings.smtps_addr.clone(),
        Kind::Https => settings.https_addr.clone(),
        Kind::AcmeHttp => if settings.acme_enabled {
            settings.acme_http_addr.clone()
        } else {
            "".to_string()
        },
    }
}

/// What has to be done about one listener.
pub enum SlotStep {
    /// Nothing: it serves where it should, or does not run and should not.
    Keep,
    /// Stop the listener that serves on this address.
    Stop { from: String },
    /// Bind the new address; the listener serves on `moving`, if anywhere, until that
    /// worked.
    Bind { moving: Option<String> },
}

/// How a step went.
pub enum Outcome {
    Done,
    /// The address could not be bound.
    Failed { error: String, permission_denied: bool },
}

/// Whether a listener that serves at `running` has to stop, given that it should
/// serve at `addr`.
pub open spec fn needs_stop(running: Option<Seq<char>>, addr: Seq<char>) -> bool {
    running is Some && running != Some(addr) && addr.len() == 0
}

/// Whether a listener that serves at `running` has to move to `addr`.
pub open spec fn needs_bind(running: Option<Seq<char>>, addr: Seq<char>) -> bool {
    running != Some(addr) && addr.len() > 0
}

impl Listeners {
    /// No listener runs.
    pub fn new() -> (r: Self)
        ensures
            r@ == (ListenersView { smtp: None, smtps: None, https: None, acme_http: None }),
    {
        Listeners { smtp: None, smtps: None, https: None, acme_http: None }
    }

    /// Where a listener serves, if it runs.
    pub fn serving(&self, kind: Kind) -> (r: Option<String>)
        ensures
            opt_text(r) == self@.at(kind),
    {
        match kind {
            Kind::Smtp => copy_opt(&self.smtp),
            Kind::Smtps => copy_opt(&self.smtps),
            Kind::Https => copy_opt(&self.https),
            Kind::AcmeHttp => copy_opt(&self.acme_http),
        }
    }

    fn set(&mut self, kind: Kind, addr: Option<String>)
        ensures
            final(self)@ == old(self)@.with(kind, opt_text(addr)),
    {
        match kind {
            Kind::Smtp => {
                self.smtp = addr;
            },
            Kind::Smtps => {
                self.smtps = addr;
            },
            Kind::Https => {
                self.https = addr;
            },
            Kind::AcmeHttp => {
                self.acme_http = addr;
            },
        }
    }

    /// What has to be done about a listener that should serve at `addr`.
    pub fn plan(&self, kind: Kind, addr: &str) -> (r: SlotStep)
        ensures
            r is Stop <==> needs_stop(self@.at(kind), addr@),
            r is Bind <==> needs_bind(self@.at(kind), addr@),
            r is Stop ==> Some(r->from@) == self@.at(kind),
            r is Bind ==> opt_text(r->moving) == self@.at(kind),
    {
        match self.serving(kind) {
            Some(running) => if same(running.as_str(), addr) {
                SlotStep::Keep
            } else if addr.is_empty() {
                SlotStep::Stop { from: running }
            } else {
                SlotStep::Bind { moving: Some(running) }
            },
            None => if addr.is_empty() {
                SlotStep::Keep
            } else {
                SlotStep::Bind { moving: None }
            },
        }
    }

    /// Brings one listener in line: it should serve at `addr`, and what
    /// [`Listeners::plan`] asked for went as `outcome` says. A listener whose new
    /// address could not be bound stays where it is; the result is then what to
    /// tell the admin.
    pub fn settle(&mut self, kind: Kind, addr: &str, outcome: &Outcome) -> (r: Option<String>)
        ensures
            final(self)@ == reconciled(old(self)@, kind, addr@, outcome is Done),
            opt_text(r) == (if needs_bind(old(self)@.at(kind), addr@) && outcome is Failed {
                Some(
                    bind_failure(
                        kind,
                        addr@,
                        outcome->error@,
                        outcome->permission_denied,
                        old(self)@.at(kind),
                    ),
                )
            } else {
                None
            }),
    {
        match self.plan(kind, addr) {
            SlotStep::Keep => None,
            SlotStep::Stop { .. } => {
                self.set(kind, None);
                None
            },
            SlotStep::Bind { moving } => match outcome {
                Outcome::Done => {
                    self.set(kind, Some(addr.to_string()));
                    None
                },
                Outcome::Failed { error, permission_denied } => Some(
                    bind_failed(kind, addr, error.as_str(), *permission_denied, moving),
                ),
            },
        }
    }

    /// Addresses currently being served, for display in the admin UI.
    pub fn active(&self) -> (r: Vec<(Kind, String)>)
        ensures
            active_texts(r@) == active_list(self@),
    {
        let mut out: Vec<(Kind, String)> = Vec::new();
        self.add_active(&mut out, Kind::AcmeHttp);
        self.add_active(&mut out, Kind::Https);
        self.add_active(&mut out, Kind::Smtp);
        self.add_active(&mut out, Kind::Smtps);
        assert(active_texts(out@) =~= active_list(self@));
        out
    }

    fn add_active(&self, out: &mut Vec<(Kind, String)>, kind: Kind)
        ensures
            active_texts(final(out)@) == active_texts(old(out)@) + active_entry(self@, kind),
    {
        if let Some(addr) = self.serving(kind) {
            out.push((kind, addr));
            assert(active_texts(out@) =~= active_texts(old(out)@) + active_entry(self@, kind));
        } else {
            assert(active_texts(out@) =~= active_texts(old(out)@) + active_entry(self@, kind));
        }
    }
}

pub open spec fn active_texts(list: Seq<(Kind, String)>) -> Seq<(Kind, Seq<char>)> {
    list.map_values(|e: (Kind, String)| (e.0, e.1@))
}

pub open spec fn active_entry(l: ListenersView, kind: Kind) -> Seq<(Kind, Seq<char>)> {
    match l.at(kind) {
        Some(addr) => seq![(kind, addr)],
        None => Seq::empty(),
    }
}

/// The listeners that run, by the name of their kind.
pub open spec fn active_list(l: ListenersView) -> Seq<(Kind, Seq<char>)> {
    active_entry(l, Kind::AcmeHttp) + active_entry(l, Kind::Https) + active_entry(l, Kind::Smtp)
        + active_entry(l, Kind::Smtps)
}

/// Whether an address names a port below 1024.
pub open spec fn is_privileged(addr: Seq<char>) -> bool {
    let i = last_index_of(addr, ':');
    i >= 0 && unsigned_number(addr.skip(i + 1)) is Some && unsigned_number(addr.skip(i + 1))->0
        < 1024
}

pub open spec fn hint(addr: Seq<char>, permission_denied: bool) -> Seq<char> {
    if is_privileged(addr) && permission_denied {
        " (ports below 1024 need CAP_NET_BIND_SERVICE, a port redirect, or a higher port set at /admin/settings)"@
    } else {
        ""@
    }
}

/// The default SMTP ports are privileged, so "permission denied" is the single
/// most likely bind failure. Say what to do about it rather than just the errno.
pub fn bind_hint(addr: &str, permission_denied: bool) -> (r: String)
    ensures
        r@ == hint(addr@, permission_denied),
{
    let cs = chars_of(addr);
    let n = cs.len();
    let privileged = match rfind_char(&cs, ':') {
        Some(i) => {
            assert(i < n);
            assert(cs@.subrange(i + 1, cs@.len() as int) =~= cs@.skip(i + 1));
            let port = text_range(&cs, i + 1, n);
            match parse_u16(port.as_str()) {
                Some(p) => p < 1024,
                None => false,
            }
        },
        None => false,
    };
    if privileged && permission_denied {
        " (ports below 1024 need CAP_NET_BIND_SERVICE, a port redirect, or a higher port set at /admin/settings)".to_string()
    } else {
        "".to_string()
    }
}

/// What to tell the admin of a listener that could not be bound.
pub open spec fn bind_failure(
    kind: Kind,
    addr: Seq<char>,
    error: Seq<char>,
    permission_denied: bool,
    running: Option<Seq<char>>,
) -> Seq<char> {
    let message = "cannot bind "@ + kind.label_text() + " to "@ + addr + ": "@ + error + hint(
        addr,
        permission_denied,
    );
    match running {
        Some(old_addr) => message + " (still serving on "@ + old_addr + ")"@,
        None => message,
    }
}

/// What to tell the admin of a listener that serves at `running` and could not be
/// bound to `addr`.
fn bind_failed(
    kind: Kind,
    addr: &str,
    error: &str,
    permission_denied: bool,
    running: Option<String>,
) -> (r: String)
    ensures
        r@ == bind_failure(kind, addr@, error@, permission_denied, opt_text(running)),
{
    let mut message = "cannot bind ".to_string();
    message.append(kind.label());
    message.append(" to ");
    message.append(addr);
    message.append(": ");
    message.append(error);
    message.append(bind_hint(addr, permission_denied).as_str());
    if let Some(old_addr) = running {
        message.append(" (still serving on ");
        message.append(old_addr.as_str());
        message.append(")");
    }
    message
}

// ---- reconciling ----

/// The listeners after one of them was brought in line; `works` says whether the
/// address could be bound, if it had to be.
pub open spec fn reconciled(
    l: ListenersView,
    kind: Kind,
    addr: Seq<char>,
    works: bool,
) -> ListenersView {
    if needs_stop(l.at(kind), addr) {
        l.with(kind, None)
    } else if needs_bind(l.at(kind), addr) && works {
        l.with(kind, Some(addr))
    } else {
        l
    }
}

/// The listeners after each of them was brought in line with the settings in turn;
/// those in `free` could be bound, if they had to be.
pub open spec fn after_pass(
    l: ListenersView,
    s: SettingsView,
    free: Set<Kind>,
) -> ListenersView {
    let l1 = reconciled(l, Kind::Smtp, desired_address(s, Kind::Smtp), free.contains(Kind::Smtp));
    let l2 = reconciled(l1, Kind::Smtps, desired_address(s, Kind::Smtps), free.contains(Kind::Smtps));
    let l3 = reconciled(l2, Kind::Https, desired_address(s, Kind::Https), free.contains(Kind::Https));
    reconciled(l3, Kind::AcmeHttp, desired_address(s, Kind::AcmeHttp), free.contains(Kind::AcmeHttp))
}

/// Whether nothing has to be done about any listener.
pub open spec fn in_line(l: ListenersView, s: SettingsView) -> bool {
    forall|kind: Kind| #![trigger l.at(kind)]
        !needs_stop(l.at(kind), desired_address(s, kind)) && !needs_bind(
            l.at(kind),
            desired_address(s, kind),
        )
}

/// A listener is only touched if its own address changed: bringing one in line
/// leaves the others where they are.
pub proof fn listeners_move_apart(
    l: ListenersView,
    kind: Kind,
    other: Kind,
    addr: Seq<char>,
    works: bool,
)
    requires
        other != kind,
    ensures
        reconciled(l, kind, addr, works).at(other) == l.at(other),
{
}

/// A new address is bound before the old listener is dropped: one whose new
/// address cannot be bound keeps serving where it was.
pub proof fn a_failed_bind_keeps_the_listener(
    l: ListenersView,
    s: SettingsView,
    free: Set<Kind>,
    kind: Kind,
)
    requires
        !free.contains(kind),
        desired_address(s, kind).len() > 0,
    ensures
        after_pass(l, s, free).at(kind) == l.at(kind),
{
}

/// A pass in which every address can be bound leaves nothing to do: whatever
/// should run serves where it should.
pub proof fn a_pass_brings_all_in_line(
    l: ListenersView,
    s: SettingsView,
    free: Set<Kind>,
)
    requires
        forall|kind: Kind| #[trigger] free.contains(kind),
    ensures
        in_line(after_pass(l, s, free), s),
        forall|kind: Kind| #![trigger desired_address(s, kind)]
            desired_address(s, kind).len() > 0 ==> after_pass(l, s, free).at(kind) == Some(
                desired_address(s, kind),
            ),
{
}

/// Reconciling is idempotent: a second pass over unchanged settings, with the same
/// addresses free, changes nothing.
pub proof fn reconciling_is_idempotent(
    l: ListenersView,
    s: SettingsView,
    free: Set<Kind>,
)
    ensures
        after_pass(after_pass(l, s, free), s, free) == after_pass(l, s, free),
{
}

/// Listeners that are in line are not touched, whatever could be bound.
pub proof fn listeners_in_line_are_left_alone(
    l: ListenersView,
    s: SettingsView,
    free: Set<Kind>,
)
    requires
        in_line(l, s),
    ensures
        after_pass(l, s, free) == l,
{
    assert(l.at(Kind::Smtp) == l.smtp);
    assert(l.at(Kind::Smtps) == l.smtps);
    assert(l.at(Kind::Https) == l.https);
    assert(l.at(Kind::AcmeHttp) == l.acme_http);
}

} // verus!
