//! What the command line does with what it is told.

use vstd::prelude::*;

use crate::cli::{
    applied, domain_request, is_password_length, no_request, password_report, password_request,
    read_arguments, read_password_arguments, report, unknown_option, without_line_end,
    SetDomainView, USAGE,
};
use crate::settings::{domains_in, SettingsView};
use crate::text::{byte_len, joined, trimmed};
use crate::text_laws::{is_blank, is_tight, trimming_takes_the_blanks_around};

verus! {

// ---- set-domain ----

/// A request for a certificate turns ordering on, records the agreement, puts
/// every domain on the certificate and the first one into the greeting, and orders
/// from production unless staging was asked for. What it was before does not
/// matter.
pub proof fn a_certificate_is_requested_where_asked(request: SetDomainView, s: SettingsView)
    requires
        request.letsencrypt,
        request.domains.len() > 0,
    ensures
        !request.staging ==> applied(request, s).acme_directory
            == "https://acme-v02.api.letsencrypt.org/directory"@,
        request.staging ==> applied(request, s).acme_directory
            == "https://acme-staging-v02.api.letsencrypt.org/directory"@,
        applied(request, s).acme_enabled,
        applied(request, s).acme_tos_agreed,
        applied(request, s).acme_domains == request.domains,
        applied(request, s).hostname == request.domains.first(),
{
}

/// A request without a certificate leaves ordering, the agreement and the
/// directory as they are. A certificate that is configured moves to the new
/// domains.
pub proof fn a_configured_certificate_follows_the_domain(request: SetDomainView, s: SettingsView)
    requires
        !request.letsencrypt,
        request.domains.len() > 0,
    ensures
        applied(request, s).acme_enabled == s.acme_enabled,
        applied(request, s).acme_tos_agreed == s.acme_tos_agreed,
        applied(request, s).acme_directory == s.acme_directory,
        applied(request, s).hostname == request.domains.first(),
        s.acme_enabled || s.acme_domains.len() > 0 ==> applied(request, s).acme_domains
            == request.domains,
        !s.acme_enabled && s.acme_domains.len() == 0 ==> applied(request, s).acme_domains.len()
            == 0,
{
}

/// An address is stored without the blanks around it, the contact in its place
/// and the listener in its own, and an empty one turns the listener off.
pub proof fn addresses_are_stored_without_blanks(
    request: SetDomainView,
    s: SettingsView,
    a: Seq<char>,
    text: Seq<char>,
    b: Seq<char>,
)
    requires
        is_blank(a),
        is_tight(text),
        is_blank(b),
    ensures
        request.email == Some(a + text + b) ==> applied(request, s).acme_contact_email == text,
        request.https_addr == Some(a + text + b) ==> applied(request, s).https_addr == text,
        request.email is None ==> applied(request, s).acme_contact_email == s.acme_contact_email,
        request.https_addr is None ==> applied(request, s).https_addr == s.https_addr,
{
    trimming_takes_the_blanks_around(a, text, b);
}

/// An option sets what it is named after, wherever it stands: what is read behind
/// it is read as if it had been set before.
pub proof fn an_option_sets_what_it_names(
    rest: Seq<Seq<char>>,
    value: Seq<char>,
    request: SetDomainView,
    agreed: bool,
)
    ensures
        read_arguments(seq!["--letsencrypt"@] + rest, request, agreed) == read_arguments(
            rest,
            SetDomainView { letsencrypt: true, ..request },
            agreed,
        ),
        read_arguments(seq!["--staging"@] + rest, request, agreed) == read_arguments(
            rest,
            SetDomainView { staging: true, ..request },
            agreed,
        ),
        read_arguments(seq!["--agree-tos"@] + rest, request, agreed) == read_arguments(
            rest,
            request,
            true,
        ),
        read_arguments(seq!["--email"@, value] + rest, request, agreed) == read_arguments(
            rest,
            SetDomainView { email: Some(value), ..request },
            agreed,
        ),
        read_arguments(seq!["--https-addr"@, value] + rest, request, agreed) == read_arguments(
            rest,
            SetDomainView { https_addr: Some(value), ..request },
            agreed,
        ),
        value.len() == 0 || value[0] != '-' ==> read_arguments(seq![value] + rest, request, agreed)
            == read_arguments(
            rest,
            SetDomainView { domains: request.domains + domains_in(value), ..request },
            agreed,
        ),
        read_arguments(Seq::empty(), request, agreed) == Ok::<(SetDomainView, bool), Seq<char>>(
            (request, agreed),
        ),
{
    lemma_options_differ();
    assert((seq!["--letsencrypt"@] + rest).skip(1) =~= rest);
    assert((seq!["--staging"@] + rest).skip(1) =~= rest);
    assert((seq!["--agree-tos"@] + rest).skip(1) =~= rest);
    assert((seq!["--email"@, value] + rest).skip(1) =~= seq![value] + rest);
    assert((seq!["--https-addr"@, value] + rest).skip(1) =~= seq![value] + rest);
    assert((seq![value] + rest).skip(1) =~= rest);
    assert((seq![value] + rest)[0] == value);
}

proof fn lemma_options_differ()
    ensures
        "--letsencrypt"@.len() == 13 && "--letsencrypt"@[0] == '-' && "--letsencrypt"@[2] == 'l',
        "--staging"@.len() == 9 && "--staging"@[0] == '-' && "--staging"@[2] == 's',
        "--agree-tos"@.len() == 11 && "--agree-tos"@[0] == '-' && "--agree-tos"@[2] == 'a',
        "--email"@.len() == 7 && "--email"@[0] == '-' && "--email"@[2] == 'e',
        "--https-addr"@.len() == 12 && "--https-addr"@[0] == '-' && "--https-addr"@[2] == 'h',
        "--admin"@.len() == 7 && "--admin"@[0] == '-' && "--admin"@[2] == 'a',
{
    reveal_strlit("--letsencrypt");
    reveal_strlit("--staging");
    reveal_strlit("--agree-tos");
    reveal_strlit("--email");
    reveal_strlit("--https-addr");
    reveal_strlit("--admin");
}

/// The plain request: a domain, and nothing else, asks for the domain and nothing
/// else.
pub proof fn a_domain_alone_asks_for_nothing_else(d: Seq<char>)
    requires
        d.len() == 0 || d[0] != '-',
        domains_in(d).len() > 0,
    ensures
        domain_request(seq![d]) == Ok::<SetDomainView, Seq<char>>(
            SetDomainView {
                domains: domains_in(d),
                letsencrypt: false,
                staging: false,
                email: None,
                https_addr: None,
            },
        ),
{
    an_option_sets_what_it_names(Seq::empty(), d, no_request(), false);
    assert(seq![d] + Seq::<Seq<char>>::empty() =~= seq![d]);
    assert(Seq::<Seq<char>>::empty() + domains_in(d) =~= domains_in(d));
}

/// The full request: every option given, and a domain.
pub proof fn every_option_is_taken(d: Seq<char>, email: Seq<char>, addr: Seq<char>)
    requires
        d.len() == 0 || d[0] != '-',
        domains_in(d).len() > 0,
    ensures
        domain_request(
            seq![
                "--letsencrypt"@,
                "--agree-tos"@,
                "--staging"@,
                "--email"@,
                email,
                "--https-addr"@,
                addr,
                d,
            ],
        ) == Ok::<SetDomainView, Seq<char>>(
            SetDomainView {
                domains: domains_in(d),
                letsencrypt: true,
                staging: true,
                email: Some(email),
                https_addr: Some(addr),
            },
        ),
{
    let none = Seq::<Seq<char>>::empty();
    let r0 = no_request();
    let t1 = seq!["--agree-tos"@, "--staging"@, "--email"@, email, "--https-addr"@, addr, d];
    let t2 = seq!["--staging"@, "--email"@, email, "--https-addr"@, addr, d];
    let t3 = seq!["--email"@, email, "--https-addr"@, addr, d];
    let t4 = seq!["--https-addr"@, addr, d];
    let t5 = seq![d];
    let all = seq![
        "--letsencrypt"@,
        "--agree-tos"@,
        "--staging"@,
        "--email"@,
        email,
        "--https-addr"@,
        addr,
        d,
    ];
    assert(all =~= seq!["--letsencrypt"@] + t1);
    assert(t1 =~= seq!["--agree-tos"@] + t2);
    assert(t2 =~= seq!["--staging"@] + t3);
    assert(t3 =~= seq!["--email"@, email] + t4);
    assert(t4 =~= seq!["--https-addr"@, addr] + t5);
    assert(t5 =~= seq![d] + none);
    an_option_sets_what_it_names(t1, email, r0, false);
    let r1 = SetDomainView { letsencrypt: true, ..r0 };
    an_option_sets_what_it_names(t2, email, r1, false);
    an_option_sets_what_it_names(t3, email, r1, true);
    let r2 = SetDomainView { staging: true, ..r1 };
    an_option_sets_what_it_names(t4, email, r2, true);
    let r3 = SetDomainView { email: Some(email), ..r2 };
    an_option_sets_what_it_names(t5, addr, r3, true);
    let r4 = SetDomainView { https_addr: Some(addr), ..r3 };
    an_option_sets_what_it_names(none, d, r4, true);
    assert(none + domains_in(d) =~= domains_in(d));
}

/// What a request is refused for: an option without its value, an option that
/// there is not, a certificate without the agreement, and no domain.
pub proof fn requests_are_refused_with_a_reason(
    option: Seq<char>,
    rest: Seq<Seq<char>>,
    request: SetDomainView,
    agreed: bool,
    args: Seq<Seq<char>>,
)
    ensures
        read_arguments(seq!["--email"@], request, agreed) == Err::<(SetDomainView, bool), Seq<char>>(
            "--email"@ + " needs a value"@,
        ),
        read_arguments(seq!["--https-addr"@], request, agreed) == Err::<
            (SetDomainView, bool),
            Seq<char>,
        >("--https-addr"@ + " needs a value"@),
        option.len() > 0 && option[0] == '-' && option != "--letsencrypt"@ && option
            != "--agree-tos"@ && option != "--staging"@ && option != "--email"@ && option
            != "--https-addr"@ ==> read_arguments(seq![option] + rest, request, agreed) == Err::<
            (SetDomainView, bool),
            Seq<char>,
        >("unknown option "@ + option + "\n\n"@ + USAGE@),
        read_arguments(args, no_request(), false) matches Ok((r, a)) ==> {
            &&& r.domains.len() == 0 ==> domain_request(args) == Err::<SetDomainView, Seq<char>>(
                "set-domain needs at least one domain\n\n"@ + USAGE@,
            )
            &&& r.domains.len() > 0 && r.letsencrypt && !a ==> domain_request(args) == Err::<
                SetDomainView,
                Seq<char>,
            >(
                "--letsencrypt also needs --agree-tos: ordering a certificate accepts the CA's terms of service on your behalf"@,
            )
            &&& r.domains.len() > 0 && (!r.letsencrypt || a) ==> domain_request(args) == Ok::<
                SetDomainView,
                Seq<char>,
            >(r)
        },
        read_arguments(args, no_request(), false) is Err ==> domain_request(args) == Err::<
            SetDomainView,
            Seq<char>,
        >(read_arguments(args, no_request(), false)->Err_0),
{
    lemma_options_differ();
    assert(seq!["--email"@].skip(1) =~= Seq::<Seq<char>>::empty());
    assert(seq!["--https-addr"@].skip(1) =~= Seq::<Seq<char>>::empty());
    assert((seq![option] + rest)[0] == option);
}

/// What is reported of the settings: the greeting always, the certificate while
/// ordering is on, the contact and the listener if there are any.
pub proof fn what_is_set_is_reported(s: SettingsView)
    ensures
        ({
            let host = "SMTP hostname:  "@ + s.hostname;
            let https = "HTTPS web UI:   "@ + s.https_addr;
            let dir = if s.acme_directory
                == "https://acme-staging-v02.api.letsencrypt.org/directory"@ {
                "staging"@
            } else {
                "production"@
            };
            let on = "Let's Encrypt:  on ("@ + dir + "), domains "@ + joined(s.acme_domains, ", "@);
            let contact = "CA contact:     "@ + s.acme_contact_email;
            let port =
                "                each domain must resolve to this host and reach the challenge listener ("@
                + s.acme_http_addr + ") on port 80"@;
            &&& !s.acme_enabled && s.https_addr.len() == 0 ==> report(s) == seq![host]
            &&& !s.acme_enabled && s.https_addr.len() > 0 ==> report(s) == seq![host, https]
            &&& s.acme_enabled && s.acme_contact_email.len() == 0 && s.https_addr.len() == 0
                ==> report(s) == seq![host, on, port]
            &&& s.acme_enabled && s.acme_contact_email.len() > 0 && s.https_addr.len() == 0
                ==> report(s) == seq![host, on, contact, port]
            &&& s.acme_enabled && s.acme_contact_email.len() == 0 && s.https_addr.len() > 0
                ==> report(s) == seq![host, on, port, https]
            &&& s.acme_enabled && s.acme_contact_email.len() > 0 && s.https_addr.len() > 0
                ==> report(s) == seq![host, on, contact, port, https]
        }),
{
}

// ---- set-password ----

/// A user name is taken without the blanks around it, and admin rights are granted
/// if they are asked for, before the name or behind it.
pub proof fn an_account_is_named(a: Seq<char>, name: Seq<char>, b: Seq<char>)
    requires
        is_blank(a),
        is_tight(name),
        name.len() > 0,
        is_blank(b),
        (a + name + b)[0] != '-',
    ensures
        password_request(seq![a + name + b]) == Ok::<(Seq<char>, bool), Seq<char>>((name, false)),
        password_request(seq!["--admin"@, a + name + b]) == Ok::<(Seq<char>, bool), Seq<char>>(
            (name, true),
        ),
        password_request(seq![a + name + b, "--admin"@]) == Ok::<(Seq<char>, bool), Seq<char>>(
            (name, true),
        ),
{
    lemma_options_differ();
    reveal_with_fuel(read_password_arguments, 3);
    trimming_takes_the_blanks_around(a, name, b);
    let arg = a + name + b;
    let none = Seq::<Seq<char>>::empty();
    assert(seq![arg].skip(1) =~= none);
    assert(seq!["--admin"@, arg].skip(1) =~= seq![arg]);
    assert(seq![arg, "--admin"@].skip(1) =~= seq!["--admin"@]);
    assert(seq!["--admin"@].skip(1) =~= none);
    assert(read_password_arguments(none, Some(name), false) == Ok::<
        (Option<Seq<char>>, bool),
        Seq<char>,
    >((Some(name), false)));
    assert(read_password_arguments(none, Some(name), true) == Ok::<
        (Option<Seq<char>>, bool),
        Seq<char>,
    >((Some(name), true)));
}

/// Arguments are read one by one: a name, and the option wherever it stands.
pub proof fn an_account_is_read_argument_by_argument(
    name: Seq<char>,
    rest: Seq<Seq<char>>,
    username: Option<Seq<char>>,
    admin: bool,
)
    requires
        name.len() == 0 || name[0] != '-',
    ensures
        read_password_arguments(Seq::empty(), username, admin) == Ok::<
            (Option<Seq<char>>, bool),
            Seq<char>,
        >((username, admin)),
        read_password_arguments(seq!["--admin"@] + rest, username, admin)
            == read_password_arguments(rest, username, true),
        read_password_arguments(seq![name] + rest, None, admin) == read_password_arguments(
            rest,
            Some(trimmed(name)),
            admin,
        ),
{
    lemma_options_differ();
    assert((seq!["--admin"@] + rest).skip(1) =~= rest);
    assert((seq![name] + rest).skip(1) =~= rest);
    assert((seq![name] + rest)[0] == name);
}

/// What a request for a password is refused for: no name, two names, and an option
/// that there is not.
pub proof fn one_account_is_named(
    option: Seq<char>,
    name: Seq<char>,
    second: Seq<char>,
    rest: Seq<Seq<char>>,
    admin: bool,
)
    requires
        second.len() == 0 || second[0] != '-',
    ensures
        password_request(Seq::empty()) == Err::<(Seq<char>, bool), Seq<char>>(
            "set-password needs a username\n\n"@ + USAGE@,
        ),
        password_request(seq!["--admin"@]) == Err::<(Seq<char>, bool), Seq<char>>(
            "set-password needs a username\n\n"@ + USAGE@,
        ),
        read_password_arguments(seq![second] + rest, Some(name), admin) == Err::<
            (Option<Seq<char>>, bool),
            Seq<char>,
        >("set-password takes one username, also got "@ + second),
        option.len() > 0 && option[0] == '-' && option != "--admin"@ ==> read_password_arguments(
            seq![option] + rest,
            Some(name),
            admin,
        ) == Err::<(Option<Seq<char>>, bool), Seq<char>>(
            "unknown option "@ + option + "\n\n"@ + USAGE@,
        ),
        unknown_option(option) == "unknown option "@ + option + "\n\n"@ + USAGE@,
{
    lemma_options_differ();
    reveal_with_fuel(read_password_arguments, 3);
    assert(seq!["--admin"@].skip(1) =~= Seq::<Seq<char>>::empty());
    assert((seq![second] + rest)[0] == second);
    assert((seq![option] + rest)[0] == option);
}

/// A password read from a line is the line without the line end, and nothing else
/// is taken from it.
pub proof fn only_the_line_end_is_taken_off(s: Seq<char>, end: Seq<char>)
    requires
        s.len() > 0 ==> s.last() != '\n' && s.last() != '\r',
        forall|i: int| 0 <= i < end.len() ==> #[trigger] end[i] == '\n' || end[i] == '\r',
    ensures
        without_line_end(s + end) == s,
    decreases end.len(),
{
    if end.len() == 0 {
        assert(s + end =~= s);
    } else {
        let less = end.drop_last();
        assert((s + end).last() == end[end.len() - 1]);
        assert((s + end).drop_last() =~= s + less);
        assert forall|i: int| 0 <= i < less.len() implies #[trigger] less[i] == '\n' || less[i]
            == '\r' by {
            assert(less[i] == end[i]);
        }
        only_the_line_end_is_taken_off(s, less);
    }
}

/// A password has from 8 to 128 bytes.
pub proof fn a_password_has_its_length(password: Seq<char>)
    ensures
        is_password_length(password) <==> 8 <= byte_len(password) && byte_len(password) <= 128,
{
}

/// What is reported of a password that was set.
pub proof fn a_password_that_was_set_is_reported(username: Seq<char>)
    ensures
        password_report(username, false) == seq![
            "Password set for "@ + username + "."@,
            "A running server keeps its existing sessions until it restarts."@,
        ],
        password_report(username, true) == seq![
            "Password set for "@ + username + "."@,
            username + " is now an admin."@,
            "A running server keeps its existing sessions until it restarts."@,
        ],
{
}

} // verus!
