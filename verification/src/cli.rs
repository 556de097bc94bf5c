//! A small one-shot command line for provisioning.
//!
//! The admin UI is still the place to configure a running server, but the
//! domain has to be typed into two fields there (the SMTP hostname and, when
//! Let's Encrypt is on, the certificate domains). An installer only wants to
//! ask for it once, so `smtpvoid set-domain` writes exactly the same settings
//! rows the settings form writes, before the service is ever started.
//!
//! The other command, `smtpvoid set-password`, is the way back in when nobody
//! can sign in any more: the setup token only works until the first admin
//! exists, and an admin cannot reset someone else's password from the UI.

use vstd::prelude::*;
use vstd::string::*;

use crate::db::User;
use crate::settings::{
    a_list_is_read_part_by_part, domain_separators, domains_in, parse_domains, settings_fault,
    Settings, SettingsView, LETSENCRYPT_PRODUCTION, LETSENCRYPT_STAGING,
};
use crate::text::{
    byte_len, bytes_in, chars_of, copy_list, join, joined, opt_text, same, text_range, texts, trim,
    trimmed,
};

verus! {

pub const USAGE: &'static str = "\
SMTPVoid - an SMTP black hole for testing mail submission.

Usage:
  smtpvoid                          run the server
  smtpvoid set-domain <domain>...   set the domain, then exit
  smtpvoid set-password <user>      set an account's web password, then exit
  smtpvoid --help                   show this help

set-domain options:
  --letsencrypt        request a certificate for these domains from the CA
  --agree-tos          accept the CA's terms of service (required with --letsencrypt)
  --email ADDR         contact address to register with the CA
  --staging            use the Let's Encrypt staging directory
  --https-addr ADDR    serve the web UI over TLS here too, e.g. 0.0.0.0:443
                       (an empty value turns HTTPS off)

set-password options:
  --admin              also grant this account admin rights

The password is read from standard input, never from an argument, so it stays
out of the shell history and the process list.

The first domain becomes the SMTP hostname; all of them go on the certificate.
Everything else is configured at /admin/settings.

Environment:
  SMTPVOID_DATA_DIR    database, TLS material, ACME state (default ./data)
  SMTPVOID_HTTP_ADDR   plaintext web UI address (default 0.0.0.0:8080)
  RUST_LOG             log filter (default info)";

// ---- set-domain ----

/// A parsed `set-domain` invocation, kept apart from the database work so the
/// argument handling and the settings it implies can be tested on their own.
#[derive(Debug, Default, PartialEq, Eq)]
pub struct SetDomain {
    pub domains: Vec<String>,
    pub letsencrypt: bool,
    pub staging: bool,
    pub email: Option<String>,
    pub https_addr: Option<String>,
}

/// What a [`SetDomain`] asks for.
#[verifier::ext_equal]
pub struct SetDomainView {
    pub domains: Seq<Seq<char>>,
    pub letsencrypt: bool,
    pub staging: bool,
    pub email: Option<Seq<char>>,
    pub https_addr: Option<Seq<char>>,
}

impl View for SetDomain {
    type V = SetDomainView;

    open spec fn view(&self) -> SetDomainView {
        SetDomainView {
            domains: texts(self.domains@),
            letsencrypt: self.letsencrypt,
            staging: self.staging,
            email: opt_text(self.email),
            https_addr: opt_text(self.https_addr),
        }
    }
}

/// A `set-domain` request that asks for nothing yet.
pub open spec fn no_request() -> SetDomainView {
    SetDomainView {
        domains: Seq::empty(),
        letsencrypt: false,
        staging: false,
        email: None,
        https_addr: None,
    }
}

/// The message for an option that is not known.
pub open spec fn unknown_option(arg: Seq<char>) -> Seq<char> {
    "unknown option "@ + arg + "\n\n"@ + USAGE@
}

/// What `args` add to a request, and whether the terms are agreed to; or why they
/// cannot be read.
pub open spec fn read_arguments(
    args: Seq<Seq<char>>,
    request: SetDomainView,
    agreed: bool,
) -> Result<(SetDomainView, bool), Seq<char>>
    decreases args.len(),
{
    if args.len() == 0 {
        Ok((request, agreed))
    } else {
        let arg = args[0];
        let rest = args.skip(1);
        if arg == "--letsencrypt"@ {
            read_arguments(rest, SetDomainView { letsencrypt: true, ..request }, agreed)
        } else if arg == "--agree-tos"@ {
            read_arguments(rest, request, true)
        } else if arg == "--staging"@ {
            read_arguments(rest, SetDomainView { staging: true, ..request }, agreed)
        } else if arg == "--email"@ {
            if rest.len() == 0 {
                Err(arg + " needs a value"@)
            } else {
                read_arguments(
                    rest.skip(1),
                    SetDomainView { email: Some(rest[0]), ..request },
                    agreed,
                )
            }
        } else if arg == "--https-addr"@ {
            if rest.len() == 0 {
                Err(arg + " needs a value"@)
            } else {
                read_arguments(
                    rest.skip(1),
                    SetDomainView { https_addr: Some(rest[0]), ..request },
                    agreed,
                )
            }
        } else if arg.len() > 0 && arg[0] == '-' {
            Err(unknown_option(arg))
        } else {
            read_arguments(
                rest,
                SetDomainView { domains: request.domains + domains_in(arg), ..request },
                agreed,
            )
        }
    }
}

/// The request that `args` make, or why they make none.
pub open spec fn domain_request(args: Seq<Seq<char>>) -> Result<SetDomainView, Seq<char>> {
    match read_arguments(args, no_request(), false) {
        Err(e) => Err(e),
        Ok((request, agreed)) => if request.domains.len() == 0 {
            Err("set-domain needs at least one domain\n\n"@ + USAGE@)
        } else if request.letsencrypt && !agreed {
            Err(
                "--letsencrypt also needs --agree-tos: ordering a certificate accepts the CA's terms of service on your behalf"@,
            )
        } else {
            Ok(request)
        },
    }
}

fn begins_with_dash(s: &str) -> (r: bool)
    ensures
        r == (s@.len() > 0 && s@[0] == '-'),
{
    let cs = chars_of(s);
    cs.len() > 0 && cs[0] == '-'
}

fn refuse_option(arg: &str) -> (r: String)
    ensures
        r@ == unknown_option(arg@),
{
    let mut message = "unknown option ".to_string();
    message.append(arg);
    message.append("\n\n");
    message.append(USAGE);
    message
}

impl SetDomain {
    /// Reads the arguments of `set-domain`.
    pub fn parse(args: &[String]) -> (r: Result<SetDomain, String>)
        ensures
            match r {
                Ok(request) => domain_request(texts(args@)) == Ok::<SetDomainView, Seq<char>>(
                    request@,
                ),
                Err(e) => domain_request(texts(args@)) == Err::<SetDomainView, Seq<char>>(e@),
            },
    {
        let ghost all = texts(args@);
        let mut out = SetDomain {
            domains: Vec::new(),
            letsencrypt: false,
            staging: false,
            email: None,
            https_addr: None,
        };
        let mut agree_tos = false;
        let mut i: usize = 0;
        assert(all.skip(0) =~= all);
        assert(out@ =~= no_request());
        while i < args.len()
            invariant
                i <= args@.len(),
                all == texts(args@),
                read_arguments(all, no_request(), false) == read_arguments(
                    all.skip(i as int),
                    out@,
                    agree_tos,
                ),
            decreases args@.len() - i,
        {
            let arg = args[i].as_str();
            let ghost rest = all.skip(i as int).skip(1);
            proof {
                assert(all.skip(i as int)[0] == arg@);
                assert(rest =~= all.skip(i + 1));
                if i + 1 < args@.len() {
                    assert(rest[0] == args@[i + 1]@);
                    assert(rest.skip(1) =~= all.skip(i + 2));
                }
            }
            let ghost before = out@;
            if same(arg, "--letsencrypt") {
                out.letsencrypt = true;
                assert(out@ =~= SetDomainView { letsencrypt: true, ..before });
            } else if same(arg, "--agree-tos") {
                agree_tos = true;
            } else if same(arg, "--staging") {
                out.staging = true;
                assert(out@ =~= SetDomainView { staging: true, ..before });
            } else if same(arg, "--email") || same(arg, "--https-addr") {
                if args.len() - i < 2 {
                    let mut message = arg.to_string();
                    message.append(" needs a value");
                    return Err(message);
                }
                let value = args[i + 1].clone();
                if same(arg, "--email") {
                    out.email = Some(value);
                    assert(out@ =~= SetDomainView { email: Some(rest[0]), ..before });
                } else {
                    out.https_addr = Some(value);
                    assert(out@ =~= SetDomainView { https_addr: Some(rest[0]), ..before });
                }
                i += 1;
            } else if begins_with_dash(arg) {
                return Err(refuse_option(arg));
            } else {
                // parse_domains lowercases, drops trailing dots and splits
                // lists, so "a.test, b.test" and two arguments behave alike.
                let mut more = parse_domains(arg);
                let ghost named = texts(more@);
                out.domains.append(&mut more);
                assert(texts(out.domains@) =~= before.domains + named);
                assert(out@ =~= SetDomainView { domains: before.domains + named, ..before });
            }
            i += 1;
        }
        assert(all.skip(i as int).len() == 0);
        if out.domains.len() == 0 {
            let mut message = "set-domain needs at least one domain\n\n".to_string();
            message.append(USAGE);
            return Err(message);
        }
        if out.letsencrypt && !agree_tos {
            return Err(
                "--letsencrypt also needs --agree-tos: ordering a certificate accepts the CA's terms of service on your behalf".to_string(),
            );
        }
        Ok(out)
    }
}

/// The settings that a request implies.
pub open spec fn applied(request: SetDomainView, s: SettingsView) -> SettingsView {
    SettingsView {
        hostname: request.domains[0],
        acme_domains: if request.letsencrypt || s.acme_enabled || s.acme_domains.len() > 0 {
            request.domains
        } else {
            s.acme_domains
        },
        acme_enabled: s.acme_enabled || request.letsencrypt,
        acme_tos_agreed: s.acme_tos_agreed || request.letsencrypt,
        acme_directory: if request.letsencrypt {
            if request.staging {
                LETSENCRYPT_STAGING@
            } else {
                LETSENCRYPT_PRODUCTION@
            }
        } else {
            s.acme_directory
        },
        acme_contact_email: match request.email {
            Some(e) => trimmed(e),
            None => s.acme_contact_email,
        },
        https_addr: match request.https_addr {
            Some(a) => trimmed(a),
            None => s.https_addr,
        },
        ..s
    }
}

impl SetDomain {
    /// The settings this request implies. Anything it does not mention is
    /// carried over untouched, so re-running it never resets the rest.
    pub fn apply(&self, old_settings: &Settings) -> (r: Settings)
        requires
            self@.domains.len() > 0,
        ensures
            r@ == applied(self@, old_settings@),
    {
        let mut new = old_settings.copy();
        new.hostname = self.domains[0].clone();
        // Retarget an existing ACME configuration even without --letsencrypt:
        // a certificate for the previous domain no longer matches the banner.
        if self.letsencrypt || new.acme_enabled || new.acme_domains.len() > 0 {
            new.acme_domains = copy_list(&self.domains);
        }
        if self.letsencrypt {
            new.acme_enabled = true;
            new.acme_tos_agreed = true;
            new.acme_directory = if self.staging {
                LETSENCRYPT_STAGING.to_string()
            } else {
                LETSENCRYPT_PRODUCTION.to_string()
            };
        }
        if let Some(email) = &self.email {
            new.acme_contact_email = trim(email.as_str());
        }
        if let Some(addr) = &self.https_addr {
            new.https_addr = trim(addr.as_str());
        }
        new
    }

    /// The settings to store: `None` if nothing changes, and an error if the
    /// settings that this request implies are refused.
    pub fn plan(&self, old_settings: &Settings) -> (r: Result<Option<Settings>, String>)
        requires
            self@.domains.len() > 0,
        ensures
            ({
                let new = applied(self@, old_settings@);
                match r {
                    Err(e) => settings_fault(new) == Some(e@),
                    Ok(None) => settings_fault(new) is None && new == old_settings@,
                    Ok(Some(s)) => settings_fault(new) is None && new != old_settings@ && s@ == new,
                }
            }),
    {
        let new = self.apply(old_settings);
        match new.validate() {
            Err(e) => Err(e),
            Ok(()) => if new.same_as(old_settings) {
                Ok(None)
            } else {
                Ok(Some(new))
            },
        }
    }
}

/// The first domain becomes the SMTP hostname, and nothing changes that the
/// request does not speak of.
pub proof fn a_domain_request_keeps_the_rest(request: SetDomainView, s: SettingsView)
    ensures
        applied(request, s).hostname == request.domains[0],
        applied(request, s).smtp_addr == s.smtp_addr,
        applied(request, s).smtps_addr == s.smtps_addr,
        applied(request, s).acme_http_addr == s.acme_http_addr,
        applied(request, s).retention_secs == s.retention_secs,
        applied(request, s).mailbox_cap == s.mailbox_cap,
        applied(request, s).max_message_size == s.max_message_size,
        applied(request, s).max_credentials_per_user == s.max_credentials_per_user,
        applied(request, s).cookie_secure == s.cookie_secure,
        applied(request, s).registration_open == s.registration_open,
        applied(request, s).registrations_per_hour == s.registrations_per_hour,
        applied(request, s).acme_renew_before_days == s.acme_renew_before_days,
        request.email is None ==> applied(request, s).acme_contact_email == s.acme_contact_email,
        request.https_addr is None ==> applied(request, s).https_addr == s.https_addr,
        !request.letsencrypt ==> applied(request, s).acme_directory == s.acme_directory
            && applied(request, s).acme_enabled == s.acme_enabled,
        !request.letsencrypt && !s.acme_enabled && s.acme_domains.len() == 0 ==> applied(
            request,
            s,
        ).acme_domains == s.acme_domains,
{
}

/// Running a request again changes nothing more.
pub proof fn a_domain_request_is_idempotent(request: SetDomainView, s: SettingsView)
    requires
        request.domains.len() > 0,
    ensures
        applied(request, applied(request, s)) == applied(request, s),
{
}

/// A certificate is only ordered on behalf of someone who has agreed to the CA's
/// terms: a request that turns Let's Encrypt on holds `--agree-tos`.
pub proof fn letsencrypt_takes_agreement(args: Seq<Seq<char>>)
    requires
        domain_request(args) is Ok,
        domain_request(args)->Ok_0.letsencrypt,
    ensures
        args.contains("--agree-tos"@),
{
    lemma_agreement(args, no_request(), false);
}

proof fn lemma_agreement(args: Seq<Seq<char>>, request: SetDomainView, agreed: bool)
    ensures
        match read_arguments(args, request, agreed) {
            Ok((_, now_agreed)) => now_agreed ==> agreed || args.contains("--agree-tos"@),
            Err(_) => true,
        },
    decreases args.len(),
{
    if args.len() > 0 {
        let arg = args[0];
        let rest = args.skip(1);
        assert(arg == "--agree-tos"@ ==> args.contains("--agree-tos"@));
        lemma_agreement(rest, SetDomainView { letsencrypt: true, ..request }, agreed);
        lemma_agreement(rest, SetDomainView { staging: true, ..request }, agreed);
        lemma_agreement(
            rest,
            SetDomainView { domains: request.domains + domains_in(arg), ..request },
            agreed,
        );
        if rest.contains("--agree-tos"@) {
            let k = choose|k: int| 0 <= k < rest.len() && rest[k] == "--agree-tos"@;
            assert(args[k + 1] == "--agree-tos"@);
        }
        if rest.len() > 0 {
            let tail = rest.skip(1);
            lemma_agreement(tail, SetDomainView { email: Some(rest[0]), ..request }, agreed);
            lemma_agreement(tail, SetDomainView { https_addr: Some(rest[0]), ..request }, agreed);
            if tail.contains("--agree-tos"@) {
                let k = choose|k: int| 0 <= k < tail.len() && tail[k] == "--agree-tos"@;
                assert(args[k + 2] == "--agree-tos"@);
            }
        }
    }
}

/// An argument that does not begin with a dash names domains.
proof fn lemma_domain_argument(
    arg: Seq<char>,
    rest: Seq<Seq<char>>,
    request: SetDomainView,
    agreed: bool,
)
    requires
        arg.len() > 0 ==> arg[0] != '-',
    ensures
        read_arguments(seq![arg] + rest, request, agreed) == read_arguments(
            rest,
            SetDomainView { domains: request.domains + domains_in(arg), ..request },
            agreed,
        ),
{
    reveal_strlit("--letsencrypt");
    reveal_strlit("--agree-tos");
    reveal_strlit("--staging");
    reveal_strlit("--email");
    reveal_strlit("--https-addr");
    let args = seq![arg] + rest;
    assert(args[0] == arg);
    assert(args.skip(1) =~= rest);
}

/// A list of domains and two arguments behave alike, wherever among the arguments
/// they stand.
pub proof fn a_list_and_two_arguments_are_alike(
    a: Seq<char>,
    c: char,
    b: Seq<char>,
    rest: Seq<Seq<char>>,
    request: SetDomainView,
    agreed: bool,
)
    requires
        domain_separators().contains(c),
        a.len() > 0 ==> a[0] != '-',
        b.len() > 0 ==> b[0] != '-',
    ensures
        read_arguments(seq![a + seq![c] + b] + rest, request, agreed) == read_arguments(
            seq![a, b] + rest,
            request,
            agreed,
        ),
{
    let list = a + seq![c] + b;
    let first = SetDomainView { domains: request.domains + domains_in(a), ..request };
    assert(list[0] != '-') by {
        if a.len() > 0 {
            assert(list[0] == a[0]);
        } else {
            assert(list[0] == c);
            assert(c != '-');
        }
    }
    lemma_domain_argument(list, rest, request, agreed);
    lemma_domain_argument(a, seq![b] + rest, request, agreed);
    lemma_domain_argument(b, rest, first, agreed);
    assert(seq![a, b] + rest =~= seq![a] + (seq![b] + rest));
    a_list_is_read_part_by_part(a, c, b);
    assert(request.domains + domains_in(list) =~= first.domains + domains_in(b));
}

/// What `set-domain` reports of the settings that it stored, line by line.
pub open spec fn report(s: SettingsView) -> Seq<Seq<char>> {
    let host = seq!["SMTP hostname:  "@ + s.hostname];
    let dir = if s.acme_directory == LETSENCRYPT_STAGING@ {
        "staging"@
    } else {
        "production"@
    };
    let acme = if s.acme_enabled {
        seq![
            "Let's Encrypt:  on ("@ + dir + "), domains "@ + joined(s.acme_domains, ", "@),
        ] + (if s.acme_contact_email.len() > 0 {
            seq!["CA contact:     "@ + s.acme_contact_email]
        } else {
            Seq::empty()
        }) + seq![
            "                each domain must resolve to this host and reach the challenge listener ("@
                + s.acme_http_addr + ") on port 80"@,
        ]
    } else {
        Seq::empty()
    };
    let https = if s.https_addr.len() > 0 {
        seq!["HTTPS web UI:   "@ + s.https_addr]
    } else {
        Seq::empty()
    };
    host + acme + https
}

/// What `set-domain` reports of the settings that it stored, line by line.
pub fn report_lines(new: &Settings) -> (r: Vec<String>)
    ensures
        texts(r@) == report(new@),
{
    let mut out: Vec<String> = Vec::new();
    let mut host = "SMTP hostname:  ".to_string();
    host.append(new.hostname.as_str());
    out.push(host);
    if new.acme_enabled {
        let dir = if same(new.acme_directory.as_str(), LETSENCRYPT_STAGING) {
            "staging"
        } else {
            "production"
        };
        let mut acme = "Let's Encrypt:  on (".to_string();
        acme.append(dir);
        acme.append("), domains ");
        acme.append(join(&new.acme_domains, ", ").as_str());
        out.push(acme);
        if !new.acme_contact_email.as_str().is_empty() {
            let mut contact = "CA contact:     ".to_string();
            contact.append(new.acme_contact_email.as_str());
            out.push(contact);
        }
        let mut reach =
            "                each domain must resolve to this host and reach the challenge listener (".to_string();
        reach.append(new.acme_http_addr.as_str());
        reach.append(") on port 80");
        out.push(reach);
    }
    if !new.https_addr.as_str().is_empty() {
        let mut https = "HTTPS web UI:   ".to_string();
        https.append(new.https_addr.as_str());
        out.push(https);
    }
    assert(texts(out@) =~= report(new@));
    out
}

// ---- set-password ----

/// A parsed `set-password` invocation. The password itself is not part of it:
/// it arrives on stdin, and only once the account is known to exist.
#[derive(Debug, Default, PartialEq, Eq)]
pub struct SetPassword {
    pub username: String,
    pub admin: bool,
}

/// What `args` say of a `set-password` request: the user name, if one was given,
/// and whether admin rights are granted; or why they cannot be read.
pub open spec fn read_password_arguments(
    args: Seq<Seq<char>>,
    username: Option<Seq<char>>,
    admin: bool,
) -> Result<(Option<Seq<char>>, bool), Seq<char>>
    decreases args.len(),
{
    if args.len() == 0 {
        Ok((username, admin))
    } else {
        let arg = args[0];
        let rest = args.skip(1);
        if arg == "--admin"@ {
            read_password_arguments(rest, username, true)
        } else if arg.len() > 0 && arg[0] == '-' {
            Err(unknown_option(arg))
        } else if username is Some {
            Err("set-password takes one username, also got "@ + arg)
        } else {
            read_password_arguments(rest, Some(trimmed(arg)), admin)
        }
    }
}

/// The user name and whether admin rights are granted, or why `args` do not say.
pub open spec fn password_request(args: Seq<Seq<char>>) -> Result<(Seq<char>, bool), Seq<char>> {
    match read_password_arguments(args, None, false) {
        Err(e) => Err(e),
        Ok((username, admin)) => match username {
            Some(name) if name.len() > 0 => Ok((name, admin)),
            _ => Err("set-password needs a username\n\n"@ + USAGE@),
        },
    }
}

impl SetPassword {
    /// Reads the arguments of `set-password`.
    pub fn parse(args: &[String]) -> (r: Result<SetPassword, String>)
        ensures
            match r {
                Ok(request) => password_request(texts(args@)) == Ok::<(Seq<char>, bool), Seq<char>>(
                    (request.username@, request.admin),
                ),
                Err(e) => password_request(texts(args@)) == Err::<(Seq<char>, bool), Seq<char>>(
                    e@,
                ),
            },
    {
        let ghost all = texts(args@);
        let mut username: Option<String> = None;
        let mut admin = false;
        let mut i: usize = 0;
        assert(all.skip(0) =~= all);
        while i < args.len()
            invariant
                i <= args@.len(),
                all == texts(args@),
                read_password_arguments(all, None, false) == read_password_arguments(
                    all.skip(i as int),
                    opt_text(username),
                    admin,
                ),
            decreases args@.len() - i,
        {
            let arg = args[i].as_str();
            assert(all.skip(i as int)[0] == arg@);
            assert(all.skip(i as int).skip(1) =~= all.skip(i + 1));
            if same(arg, "--admin") {
                admin = true;
            } else if begins_with_dash(arg) {
                return Err(refuse_option(arg));
            } else if username.is_some() {
                let mut message = "set-password takes one username, also got ".to_string();
                message.append(arg);
                return Err(message);
            } else {
                username = Some(trim(arg));
            }
            i += 1;
        }
        assert(all.skip(i as int).len() == 0);
        match username {
            Some(name) => if !name.as_str().is_empty() {
                return Ok(SetPassword { username: name, admin });
            },
            None => {},
        }
        let mut message = "set-password needs a username\n\n".to_string();
        message.append(USAGE);
        Err(message)
    }
}

/// A line without its line ending.
pub open spec fn without_line_end(s: Seq<char>) -> Seq<char>
    decreases s.len(),
{
    if s.len() > 0 && (s.last() == '\n' || s.last() == '\r') {
        without_line_end(s.drop_last())
    } else {
        s
    }
}

/// Whether a password is as long as the web form demands: 8 to 128 bytes.
pub open spec fn is_password_length(password: Seq<char>) -> bool {
    8 <= byte_len(password) <= 128
}

/// Whether a password is as long as the web form demands.
pub fn password_fits(password: &str) -> (r: bool)
    ensures
        r == is_password_length(password@),
{
    let n = bytes_in(password);
    8 <= n && n <= 128
}

/// The password on a line that was read from standard input. Only the line
/// ending goes: a password may legitimately end in a space. The bounds are those
/// that the web form enforces, so a password set here can also be re-entered
/// there.
pub fn password_on(line: &str) -> (r: Result<String, String>)
    ensures
        ({
            let password = without_line_end(line@);
            match r {
                Ok(p) => is_password_length(password) && p@ == password,
                Err(e) => if password.len() == 0 {
                    e@ == "no password on stdin"@
                } else {
                    !is_password_length(password) && e@ == "password must be 8-128 characters"@
                },
            }
        }),
{
    let cs = chars_of(line);
    let mut n: usize = cs.len();
    assert(cs@.take(n as int) =~= cs@);
    while n > 0 && (cs[n - 1] == '\n' || cs[n - 1] == '\r')
        invariant
            n <= cs@.len(),
            without_line_end(cs@) == without_line_end(cs@.take(n as int)),
        decreases n,
    {
        assert(cs@.take(n as int).drop_last() =~= cs@.take(n - 1));
        n -= 1;
    }
    assert(cs@.subrange(0, n as int) =~= cs@.take(n as int));
    let password = text_range(&cs, 0, n);
    if password.as_str().is_empty() {
        proof {
            assert(password@ =~= Seq::empty());
            assert(vstd::utf8::encode_utf8(password@).len() == 0);
        }
        return Err("no password on stdin".to_string());
    }
    if !password_fits(password.as_str()) {
        return Err("password must be 8-128 characters".to_string());
    }
    Ok(password)
}

// ---- carrying a request out ----

/// What is printed if a `set-domain` request changes nothing.
pub fn unchanged_line(settings: &Settings) -> (r: String)
    ensures
        r@ == "Already set to "@ + settings@.hostname + " - nothing to change."@,
{
    let mut out = "Already set to ".to_string();
    out.append(settings.hostname.as_str());
    out.append(" - nothing to change.");
    out
}

/// The lines that are printed once a password is set.
pub open spec fn password_report(username: Seq<char>, granted: bool) -> Seq<Seq<char>> {
    let last = "A running server keeps its existing sessions until it restarts."@;
    if granted {
        seq!["Password set for "@ + username + "."@, username + " is now an admin."@, last]
    } else {
        seq!["Password set for "@ + username + "."@, last]
    }
}

impl SetPassword {
    /// The account that the request is about, or what to say if there is none.
    pub fn account(&self, found: Option<User>) -> (r: Result<User, String>)
        ensures
            match found {
                Some(u) => r == Ok::<User, String>(u),
                None => r is Err && r->Err_0@ == "no account named "@ + self.username@,
            },
    {
        match found {
            Some(u) => Ok(u),
            None => {
                let mut out = "no account named ".to_string();
                out.append(self.username.as_str());
                Err(out)
            },
        }
    }

    /// Whether the request turns the account into an admin's.
    pub fn grants_admin(&self, user: &User) -> (r: bool)
        ensures
            r == (self.admin && !user.is_admin),
    {
        self.admin && !user.is_admin
    }

    /// What is printed, given whether the account was still there when its
    /// password was stored.
    pub fn finish(&self, user: &User, stored: bool) -> (r: Result<Vec<String>, String>)
        ensures
            if stored {
                r is Ok && texts(r->Ok_0@) == password_report(
                    user.username@,
                    self.admin && !user.is_admin,
                )
            } else {
                r is Err && r->Err_0@ == "account "@ + user.username@
                    + " disappeared while it was being updated"@
            },
    {
        if !stored {
            let mut out = "account ".to_string();
            out.append(user.username.as_str());
            out.append(" disappeared while it was being updated");
            return Err(out);
        }
        let mut lines: Vec<String> = Vec::new();
        let mut set = "Password set for ".to_string();
        set.append(user.username.as_str());
        set.append(".");
        lines.push(set);
        if self.grants_admin(user) {
            let mut now = user.username.clone();
            now.append(" is now an admin.");
            lines.push(now);
        }
        lines.push("A running server keeps its existing sessions until it restarts.".to_string());
        assert(texts(lines@) =~= password_report(user.username@, self.admin && !user.is_admin));
        Ok(lines)
    }
}

} // verus!
