//! Runtime settings.
//!
//! Everything here lives in the SQLite `settings` table and is editable from
//! the admin UI at `/admin/settings`. Only the data directory and the initial
//! web bind address come from the environment (see [`crate::config::Config`]),
//! because the database lives in the former and the admin needs the latter to
//! reach the UI at all.

use std::collections::HashMap;

use vstd::prelude::*;
use vstd::string::*;

pub use crate::mib::{bytes_as_mib, mib_as_bytes, MIB};

use crate::text::{
    ascii_lower, byte_len, bytes_in, chars_of, copy_list, decimal, decimal_reads_back, find_char,
    first_sep, join, joined, last_index_of, lemma_first_sep, lemma_last_index_of,
    lower_char, opt_text, parse_i64, parse_u16, parse_u64, rfind_char, same, same_list, show_i64,
    show_u64, show_usize, signed_decimal, signed_decimal_reads_back, signed_number, split_any,
    split_at_any, starts_with, text_range, texts, to_ascii_lowercase, trim, trim_final, trimmed,
    trimmed_end, trimmed_start, unsigned_number, without_final,
};
use crate::text_laws::texts_are_joined_in_order;

verus! {

/// How long a certificate may have left before ACME tries to renew it.
pub const DEFAULT_RENEW_BEFORE_DAYS: i64 = 30;

pub const LETSENCRYPT_PRODUCTION: &'static str = "https://acme-v02.api.letsencrypt.org/directory";

pub const LETSENCRYPT_STAGING: &'static str =
    "https://acme-staging-v02.api.letsencrypt.org/directory";

#[derive(Debug, Clone, PartialEq, Eq)]
pub struct Settings {
    // ---- identity ----
    /// Hostname in the SMTP banner and in the self-signed certificate.
    pub hostname: String,
    // ---- listeners ----
    /// Plaintext SMTP listener, which also offers STARTTLS.
    pub smtp_addr: String,
    /// Implicit-TLS SMTP listener (SMTPS).
    pub smtps_addr: String,
    /// HTTPS listener for the web UI. Empty disables it.
    pub https_addr: String,
    // ---- mail behaviour ----
    /// How long captured messages are kept before they vanish.
    pub retention_secs: u64,
    /// Maximum messages per mailbox; the oldest is evicted past this.
    pub mailbox_cap: usize,
    /// Maximum accepted message size in bytes (advertised via SIZE).
    pub max_message_size: usize,
    /// Maximum SMTP credentials per user account.
    pub max_credentials_per_user: i64,
    // ---- web / security ----
    /// Set the Secure flag on session cookies.
    pub cookie_secure: bool,
    /// Whether anyone may create an account.
    pub registration_open: bool,
    /// Registrations allowed per client IP per hour.
    pub registrations_per_hour: u32,
    // ---- Let's Encrypt / ACME ----
    pub acme_enabled: bool,
    /// ACME directory URL (production or staging).
    pub acme_directory: String,
    /// Contact address registered with the CA. Empty means no contact.
    pub acme_contact_email: String,
    /// Domains to request the certificate for.
    pub acme_domains: Vec<String>,
    /// Bind address of the dedicated HTTP-01 challenge listener.
    pub acme_http_addr: String,
    /// The operator has accepted the CA's terms of service.
    pub acme_tos_agreed: bool,
    /// Renew once the certificate has fewer than this many days left.
    pub acme_renew_before_days: i64,
}

/// What [`Settings`] say.
#[verifier::ext_equal]
pub struct SettingsView {
    pub hostname: Seq<char>,
    pub smtp_addr: Seq<char>,
    pub smtps_addr: Seq<char>,
    pub https_addr: Seq<char>,
    pub retention_secs: u64,
    pub mailbox_cap: usize,
    pub max_message_size: usize,
    pub max_credentials_per_user: i64,
    pub cookie_secure: bool,
    pub registration_open: bool,
    pub registrations_per_hour: u32,
    pub acme_enabled: bool,
    pub acme_directory: Seq<char>,
    pub acme_contact_email: Seq<char>,
    pub acme_domains: Seq<Seq<char>>,
    pub acme_http_addr: Seq<char>,
    pub acme_tos_agreed: bool,
    pub acme_renew_before_days: i64,
}

impl View for Settings {
    type V = SettingsView;

    open spec fn view(&self) -> SettingsView {
        SettingsView {
            hostname: self.hostname@,
            smtp_addr: self.smtp_addr@,
            smtps_addr: self.smtps_addr@,
            https_addr: self.https_addr@,
            retention_secs: self.retention_secs,
            mailbox_cap: self.mailbox_cap,
            max_message_size: self.max_message_size,
            max_credentials_per_user: self.max_credentials_per_user,
            cookie_secure: self.cookie_secure,
            registration_open: self.registration_open,
            registrations_per_hour: self.registrations_per_hour,
            acme_enabled: self.acme_enabled,
            acme_directory: self.acme_directory@,
            acme_contact_email: self.acme_contact_email@,
            acme_domains: texts(self.acme_domains@),
            acme_http_addr: self.acme_http_addr@,
            acme_tos_agreed: self.acme_tos_agreed,
            acme_renew_before_days: self.acme_renew_before_days,
        }
    }
}

/// The settings of a fresh installation.
pub open spec fn default_settings() -> SettingsView {
    SettingsView {
        hostname: "smtpvoid.local"@,
        smtp_addr: "0.0.0.0:587"@,
        smtps_addr: "0.0.0.0:465"@,
        https_addr: ""@,
        retention_secs: 3600,
        mailbox_cap: 100,
        max_message_size: 1_048_576,
        max_credentials_per_user: 20,
        cookie_secure: false,
        registration_open: true,
        registrations_per_hour: 10,
        acme_enabled: false,
        acme_directory: LETSENCRYPT_PRODUCTION@,
        acme_contact_email: ""@,
        acme_domains: Seq::empty(),
        acme_http_addr: "0.0.0.0:80"@,
        acme_tos_agreed: false,
        acme_renew_before_days: DEFAULT_RENEW_BEFORE_DAYS,
    }
}

impl Default for Settings {
    fn default() -> (r: Self)
        ensures
            r@ == default_settings(),
    {
        let domains: Vec<String> = Vec::new();
        assert(texts(domains@) =~= Seq::empty());
        Settings {
            hostname: "smtpvoid.local".to_string(),
            // The standard submission ports (RFC 6409 / RFC 8314). Both are
            // privileged, so an unprivileged process needs CAP_NET_BIND_SERVICE
            // or a port redirect; the listener supervisor reports a failed bind
            // and leaves the web UI up so the ports can be changed there.
            smtp_addr: "0.0.0.0:587".to_string(),
            smtps_addr: "0.0.0.0:465".to_string(),
            https_addr: "".to_string(),
            retention_secs: 3600,
            mailbox_cap: 100,
            max_message_size: 1_048_576,
            max_credentials_per_user: 20,
            cookie_secure: false,
            registration_open: true,
            registrations_per_hour: 10,
            acme_enabled: false,
            acme_directory: LETSENCRYPT_PRODUCTION.to_string(),
            acme_contact_email: "".to_string(),
            acme_domains: domains,
            acme_http_addr: "0.0.0.0:80".to_string(),
            acme_tos_agreed: false,
            acme_renew_before_days: DEFAULT_RENEW_BEFORE_DAYS,
        }
    }
}

// ---- domain lists ----

/// What may stand between the domains of a list.
pub open spec fn domain_separators() -> Seq<char> {
    seq![',', ' ', '\t', '\n', '\r', ';']
}

/// The pieces of a domain list as domains: in lower case, without final dots,
/// blank ones left out.
pub open spec fn clean_domains(pieces: Seq<Seq<char>>) -> Seq<Seq<char>>
    decreases pieces.len(),
{
    if pieces.len() == 0 {
        Seq::empty()
    } else {
        let d = ascii_lower(without_final(trimmed(pieces.last()), '.'));
        let before = clean_domains(pieces.drop_last());
        if d.len() == 0 {
            before
        } else {
            before.push(d)
        }
    }
}

/// The domains that a list names.
pub open spec fn domains_in(s: Seq<char>) -> Seq<Seq<char>> {
    clean_domains(split_at_any(s, domain_separators()))
}

/// Whether `d` is as a domain comes out of a list: not empty, without final dots,
/// in lower case, and free of what may stand between two domains.
pub open spec fn is_listed_domain(d: Seq<char>) -> bool {
    &&& d.len() > 0
    &&& d.last() != '.'
    &&& ascii_lower(d) == d
    &&& forall|i: int| 0 <= i < d.len() ==> !domain_separators().contains(#[trigger] d[i])
}

/// Split a comma/whitespace separated domain list into a clean vector.
pub fn parse_domains(s: &str) -> (r: Vec<String>)
    ensures
        texts(r@) == domains_in(s@),
        forall|i: int| 0 <= i < r@.len() ==> is_listed_domain(#[trigger] r@[i]@),
{
    let pieces = split_any(s, &[',', ' ', '\t', '\n', '\r', ';']);
    let ghost all = texts(pieces@);
    assert(all == split_at_any(s@, domain_separators())) by {
        assert([',', ' ', '\t', '\n', '\r', ';']@ =~= domain_separators());
    }
    let mut out: Vec<String> = Vec::new();
    let mut i: usize = 0;
    assert(texts(out@) =~= clean_domains(all.take(0)));
    while i < pieces.len()
        invariant
            i <= pieces@.len(),
            all == texts(pieces@),
            texts(out@) == clean_domains(all.take(i as int)),
        decreases pieces@.len() - i,
    {
        let d = trim(pieces[i].as_str());
        proof {
            assert(all.take(i + 1).drop_last() =~= all.take(i as int));
            assert(all.take(i + 1).last() == pieces@[i as int]@);
        }
        let bare = trim_final(d.as_str(), '.');
        let low = to_ascii_lowercase(bare.as_str());
        if !low.as_str().is_empty() {
            let ghost before = out@;
            out.push(low);
            assert(texts(out@) =~= texts(before).push(low@));
        }
        i += 1;
    }
    proof {
        assert(all.take(all.len() as int) =~= all);
        listed_domains_are_clean(s@);
        assert forall|i: int| 0 <= i < out@.len() implies is_listed_domain(
            #[trigger] out@[i]@,
        ) by {
            assert(domains_in(s@)[i] == out@[i]@);
        }
    }
    out
}

/// Whether no character of `s` may stand between two domains.
spec fn is_unbroken(s: Seq<char>) -> bool {
    forall|i: int| 0 <= i < s.len() ==> !domain_separators().contains(#[trigger] s[i])
}

proof fn lemma_pieces_are_unbroken(s: Seq<char>)
    ensures
        forall|i: int|
            0 <= i < split_at_any(s, domain_separators()).len() ==> is_unbroken(
                #[trigger] split_at_any(s, domain_separators())[i],
            ),
    decreases s.len(),
{
    let seps = domain_separators();
    let n = first_sep(s, seps);
    lemma_first_sep(s, seps);
    assert(is_unbroken(s.take(n)));
    if n < s.len() {
        let rest = split_at_any(s.skip(n + 1), seps);
        lemma_pieces_are_unbroken(s.skip(n + 1));
        assert forall|i: int| 0 <= i < split_at_any(s, seps).len() implies is_unbroken(
            #[trigger] split_at_any(s, seps)[i],
        ) by {
            if i > 0 {
                assert(split_at_any(s, seps)[i] == rest[i - 1]);
            }
        }
    } else {
        assert(s.take(n) =~= s);
    }
}

proof fn lemma_trimmed_start_is_unbroken(s: Seq<char>)
    requires
        is_unbroken(s),
    ensures
        is_unbroken(trimmed_start(s)),
    decreases s.len(),
{
    if s.len() > 0 {
        assert(is_unbroken(s.skip(1))) by {
            assert forall|i: int| 0 <= i < s.skip(1).len() implies !domain_separators().contains(
                #[trigger] s.skip(1)[i],
            ) by {
                assert(s.skip(1)[i] == s[i + 1]);
            }
        }
        lemma_trimmed_start_is_unbroken(s.skip(1));
    }
}

proof fn lemma_trimmed_end_is_unbroken(s: Seq<char>)
    requires
        is_unbroken(s),
    ensures
        is_unbroken(trimmed_end(s)),
    decreases s.len(),
{
    if s.len() > 0 {
        assert(is_unbroken(s.drop_last()));
        lemma_trimmed_end_is_unbroken(s.drop_last());
    }
}

proof fn lemma_without_final_is_unbroken(s: Seq<char>)
    requires
        is_unbroken(s),
    ensures
        is_unbroken(without_final(s, '.')),
        without_final(s, '.').len() > 0 ==> without_final(s, '.').last() != '.',
    decreases s.len(),
{
    if s.len() > 0 {
        assert(is_unbroken(s.drop_last()));
        lemma_without_final_is_unbroken(s.drop_last());
    }
}

proof fn lemma_clean_domains_are_listed(pieces: Seq<Seq<char>>)
    requires
        forall|i: int| 0 <= i < pieces.len() ==> is_unbroken(#[trigger] pieces[i]),
    ensures
        forall|i: int|
            0 <= i < clean_domains(pieces).len() ==> is_listed_domain(
                #[trigger] clean_domains(pieces)[i],
            ),
    decreases pieces.len(),
{
    if pieces.len() > 0 {
        let before = pieces.drop_last();
        assert forall|i: int| 0 <= i < before.len() implies is_unbroken(#[trigger] before[i]) by {
            assert(before[i] == pieces[i]);
        }
        lemma_clean_domains_are_listed(before);
        let p = pieces.last();
        assert(is_unbroken(pieces[pieces.len() - 1]));
        lemma_trimmed_start_is_unbroken(p);
        lemma_trimmed_end_is_unbroken(trimmed_start(p));
        let bare = without_final(trimmed(p), '.');
        lemma_without_final_is_unbroken(trimmed(p));
        let d = ascii_lower(bare);
        assert(ascii_lower(d) =~= d);
        if d.len() > 0 {
            assert(bare[bare.len() - 1] != '.');
            assert(d.last() != '.');
            assert forall|i: int| 0 <= i < d.len() implies !domain_separators().contains(
                #[trigger] d[i],
            ) by {
                assert(d[i] == lower_char(bare[i]));
                assert(!domain_separators().contains(bare[i]));
                if d[i] != bare[i] {
                    assert('a' <= d[i] <= 'z');
                }
            }
            assert(is_listed_domain(d));
        }
        let done = clean_domains(before);
        assert forall|i: int| 0 <= i < clean_domains(pieces).len() implies is_listed_domain(
            #[trigger] clean_domains(pieces)[i],
        ) by {
            if i < done.len() {
                assert(clean_domains(pieces)[i] == done[i]);
            }
        }
    }
}

/// Whatever a list holds, the domains that are read from it are clean: none is
/// empty or ends in a dot, and none holds an upper-case ASCII letter or what may
/// stand between two domains.
pub proof fn listed_domains_are_clean(s: Seq<char>)
    ensures
        forall|i: int| 0 <= i < domains_in(s).len() ==> is_listed_domain(
            #[trigger] domains_in(s)[i],
        ),
{
    lemma_pieces_are_unbroken(s);
    lemma_clean_domains_are_listed(split_at_any(s, domain_separators()));
}

proof fn lemma_clean_domains_concat(a: Seq<Seq<char>>, b: Seq<Seq<char>>)
    ensures
        clean_domains(a + b) == clean_domains(a) + clean_domains(b),
    decreases b.len(),
{
    if b.len() == 0 {
        assert(a + b =~= a);
        assert(clean_domains(a) + clean_domains(b) =~= clean_domains(a));
    } else {
        lemma_clean_domains_concat(a, b.drop_last());
        assert((a + b).drop_last() =~= a + b.drop_last());
        assert((a + b).last() == b.last());
        assert(clean_domains(a + b) =~= clean_domains(a) + clean_domains(b));
    }
}

proof fn lemma_split_in_two(a: Seq<char>, c: char, b: Seq<char>)
    requires
        domain_separators().contains(c),
    ensures
        split_at_any(a + seq![c] + b, domain_separators()) == split_at_any(a, domain_separators())
            + split_at_any(b, domain_separators()),
    decreases a.len(),
{
    let seps = domain_separators();
    let s = a + seq![c] + b;
    let n = first_sep(a, seps);
    let k = first_sep(s, seps);
    lemma_first_sep(a, seps);
    lemma_first_sep(s, seps);
    assert forall|i: int| 0 <= i < a.len() implies s[i] == #[trigger] a[i] by {}
    assert(s[a.len() as int] == c);
    if n < a.len() {
        assert(s[n] == a[n]);
        if k < n {
            assert(s[k] == a[k]);
        }
        assert(k == n);
        let rest = a.skip(n + 1);
        lemma_split_in_two(rest, c, b);
        assert(s.take(n) =~= a.take(n));
        assert(s.skip(n + 1) =~= rest + seq![c] + b);
        assert(split_at_any(s, seps) =~= split_at_any(a, seps) + split_at_any(b, seps));
    } else {
        if k < a.len() {
            assert(s[k] == a[k]);
        }
        assert(k == a.len());
        assert(s.take(k) =~= a);
        assert(s.skip(k + 1) =~= b);
        assert(split_at_any(s, seps) =~= split_at_any(a, seps) + split_at_any(b, seps));
    }
}

/// One list and two behave alike: a list that is put together from two, with any
/// separator between them, names the domains of the one and then of the other.
pub proof fn a_list_is_read_part_by_part(a: Seq<char>, c: char, b: Seq<char>)
    requires
        domain_separators().contains(c),
    ensures
        domains_in(a + seq![c] + b) == domains_in(a) + domains_in(b),
{
    let seps = domain_separators();
    lemma_split_in_two(a, c, b);
    lemma_clean_domains_concat(split_at_any(a, seps), split_at_any(b, seps));
}

// ---- reading stored rows ----

/// The rows of a table as texts.
pub open spec fn text_map(m: Map<String, String>) -> Map<Seq<char>, Seq<char>> {
    Map::new(
        |key: Seq<char>| exists|k: String| m.dom().contains(k) && #[trigger] k@ == key,
        |key: Seq<char>| m[choose|k: String| m.dom().contains(k) && #[trigger] k@ == key]@,
    )
}

/// `HashMap::get` of the standard library, with a `str` for the key: the value of
/// the entry whose key has that text, or `None` if no entry has.
#[verifier::external_body]
pub(crate) fn lookup<'a>(map: &'a HashMap<String, String>, key: &str) -> (r: Option<&'a String>)
    ensures
        match r {
            Some(v) => text_map(map@).dom().contains(key@) && v@ == text_map(map@)[key@],
            None => !text_map(map@).dom().contains(key@),
        },
{
    map.get(key)
}

/// The value stored under `key`.
pub open spec fn stored(m: Map<Seq<char>, Seq<char>>, key: Seq<char>) -> Option<Seq<char>> {
    if m.dom().contains(key) {
        Some(m[key])
    } else {
        None
    }
}

/// The value stored under `key`, or `default` if there is none.
pub open spec fn value_or(
    m: Map<Seq<char>, Seq<char>>,
    key: Seq<char>,
    default: Seq<char>,
) -> Seq<char> {
    match stored(m, key) {
        Some(v) => v,
        None => default,
    }
}

/// The value stored under `key`, or `default` if there is none or it is empty.
pub open spec fn text_or(
    m: Map<Seq<char>, Seq<char>>,
    key: Seq<char>,
    default: Seq<char>,
) -> Seq<char> {
    match stored(m, key) {
        Some(v) if v.len() > 0 => v,
        _ => default,
    }
}

/// The switch stored under `key`, or `default` if there is none or it is neither
/// on nor off.
pub open spec fn switch_or(m: Map<Seq<char>, Seq<char>>, key: Seq<char>, default: bool) -> bool {
    match stored(m, key) {
        Some(v) => if v == "1"@ || v == "true"@ {
            true
        } else if v == "0"@ || v == "false"@ {
            false
        } else {
            default
        },
        None => default,
    }
}

/// The number up to `max` stored under `key`, or `default` if there is none.
pub open spec fn number_or(
    m: Map<Seq<char>, Seq<char>>,
    key: Seq<char>,
    max: int,
    default: int,
) -> int {
    match stored(m, key) {
        Some(v) => match unsigned_number(v) {
            Some(n) if n <= max => n as int,
            _ => default,
        },
        None => default,
    }
}

/// The signed number stored under `key`, or `default` if there is none.
pub open spec fn signed_or(m: Map<Seq<char>, Seq<char>>, key: Seq<char>, default: int) -> int {
    match stored(m, key) {
        Some(v) => match signed_number(v) {
            Some(n) if i64::MIN <= n <= i64::MAX => n,
            _ => default,
        },
        None => default,
    }
}

/// The settings that the rows `m` hold.
pub open spec fn settings_of(m: Map<Seq<char>, Seq<char>>) -> SettingsView {
    let d = default_settings();
    SettingsView {
        hostname: text_or(m, "hostname"@, d.hostname),
        smtp_addr: text_or(m, "smtp_addr"@, d.smtp_addr),
        smtps_addr: text_or(m, "smtps_addr"@, d.smtps_addr),
        https_addr: value_or(m, "https_addr"@, d.https_addr),
        retention_secs: number_or(m, "retention_secs"@, u64::MAX as int, 3600) as u64,
        mailbox_cap: number_or(m, "mailbox_cap"@, usize::MAX as int, 100) as usize,
        max_message_size: number_or(m, "max_message_size"@, usize::MAX as int, 1_048_576) as usize,
        max_credentials_per_user: signed_or(m, "max_credentials_per_user"@, 20) as i64,
        cookie_secure: switch_or(m, "cookie_secure"@, d.cookie_secure),
        registration_open: switch_or(m, "registration_open"@, d.registration_open),
        registrations_per_hour: number_or(
            m,
            "registrations_per_hour"@,
            u32::MAX as int,
            10,
        ) as u32,
        acme_enabled: switch_or(m, "acme_enabled"@, d.acme_enabled),
        acme_directory: text_or(m, "acme_directory"@, d.acme_directory),
        acme_contact_email: value_or(m, "acme_contact_email"@, d.acme_contact_email),
        acme_domains: match stored(m, "acme_domains"@) {
            Some(v) => domains_in(v),
            None => d.acme_domains,
        },
        acme_http_addr: text_or(m, "acme_http_addr"@, d.acme_http_addr),
        acme_tos_agreed: switch_or(m, "acme_tos_agreed"@, d.acme_tos_agreed),
        acme_renew_before_days: signed_or(
            m,
            "acme_renew_before_days"@,
            DEFAULT_RENEW_BEFORE_DAYS as int,
        ) as i64,
    }
}

fn get_value(map: &HashMap<String, String>, key: &str, default: String) -> (r: String)
    ensures
        r@ == value_or(text_map(map@), key@, default@),
{
    match lookup(map, key) {
        Some(v) => v.clone(),
        None => default,
    }
}

fn get_text(map: &HashMap<String, String>, key: &str, default: String) -> (r: String)
    ensures
        r@ == text_or(text_map(map@), key@, default@),
{
    match lookup(map, key) {
        Some(v) => if v.as_str().is_empty() {
            default
        } else {
            v.clone()
        },
        None => default,
    }
}

fn get_bool(map: &HashMap<String, String>, key: &str, default: bool) -> (r: bool)
    ensures
        r == switch_or(text_map(map@), key@, default),
{
    match lookup(map, key) {
        Some(v) => {
            let v = v.as_str();
            if same(v, "1") || same(v, "true") {
                true
            } else if same(v, "0") || same(v, "false") {
                false
            } else {
                default
            }
        },
        None => default,
    }
}

fn get_u64(map: &HashMap<String, String>, key: &str, max: u64, default: u64) -> (r: u64)
    ensures
        r == number_or(text_map(map@), key@, max as int, default as int),
{
    match lookup(map, key) {
        Some(v) => match parse_u64(v.as_str()) {
            Some(n) => if n <= max {
                n
            } else {
                default
            },
            None => default,
        },
        None => default,
    }
}

fn get_i64(map: &HashMap<String, String>, key: &str, default: i64) -> (r: i64)
    ensures
        r == signed_or(text_map(map@), key@, default as int),
{
    match lookup(map, key) {
        Some(v) => match parse_i64(v.as_str()) {
            Some(n) => n,
            None => default,
        },
        None => default,
    }
}

impl Settings {
    /// Build settings from stored key/value pairs, falling back to defaults for
    /// anything missing or unparseable. A corrupt row must never stop startup.
    pub fn from_pairs(map: &HashMap<String, String>) -> (r: Self)
        ensures
            r@ == settings_of(text_map(map@)),
    {
        let d = Settings::default();
        let acme_domains = match lookup(map, "acme_domains") {
            Some(v) => parse_domains(v.as_str()),
            None => d.acme_domains,
        };
        Settings {
            hostname: get_text(map, "hostname", d.hostname),
            smtp_addr: get_text(map, "smtp_addr", d.smtp_addr),
            smtps_addr: get_text(map, "smtps_addr", d.smtps_addr),
            // Empty is meaningful here (disabled), so read it directly.
            https_addr: get_value(map, "https_addr", d.https_addr),
            retention_secs: get_u64(map, "retention_secs", u64::MAX, 3600),
            mailbox_cap: get_u64(map, "mailbox_cap", usize::MAX as u64, 100) as usize,
            max_message_size: get_u64(
                map,
                "max_message_size",
                usize::MAX as u64,
                1_048_576,
            ) as usize,
            max_credentials_per_user: get_i64(map, "max_credentials_per_user", 20),
            cookie_secure: get_bool(map, "cookie_secure", d.cookie_secure),
            registration_open: get_bool(map, "registration_open", d.registration_open),
            registrations_per_hour: get_u64(
                map,
                "registrations_per_hour",
                u32::MAX as u64,
                10,
            ) as u32,
            acme_enabled: get_bool(map, "acme_enabled", d.acme_enabled),
            acme_directory: get_text(map, "acme_directory", d.acme_directory),
            acme_contact_email: get_value(map, "acme_contact_email", d.acme_contact_email),
            acme_domains,
            acme_http_addr: get_text(map, "acme_http_addr", d.acme_http_addr),
            acme_tos_agreed: get_bool(map, "acme_tos_agreed", d.acme_tos_agreed),
            acme_renew_before_days: get_i64(
                map,
                "acme_renew_before_days",
                DEFAULT_RENEW_BEFORE_DAYS,
            ),
        }
    }
}

// ---- writing rows ----

pub open spec fn switch_text(b: bool) -> Seq<char> {
    if b {
        "1"@
    } else {
        "0"@
    }
}

fn bool_str(b: bool) -> (r: String)
    ensures
        r@ == switch_text(b),
{
    if b {
        "1".to_string()
    } else {
        "0".to_string()
    }
}

/// The texts of key/value rows.
pub open spec fn row_texts(rows: Seq<(&'static str, String)>) -> Seq<(Seq<char>, Seq<char>)> {
    rows.map_values(|row: (&'static str, String)| (row.0@, row.1@))
}

/// The rows that hold the settings `s`.
pub open spec fn rows_of(s: SettingsView) -> Seq<(Seq<char>, Seq<char>)> {
    seq![
        ("hostname"@, s.hostname),
        ("smtp_addr"@, s.smtp_addr),
        ("smtps_addr"@, s.smtps_addr),
        ("https_addr"@, s.https_addr),
        ("retention_secs"@, decimal(s.retention_secs as nat)),
        ("mailbox_cap"@, decimal(s.mailbox_cap as nat)),
        ("max_message_size"@, decimal(s.max_message_size as nat)),
        ("max_credentials_per_user"@, signed_decimal(s.max_credentials_per_user as int)),
        ("cookie_secure"@, switch_text(s.cookie_secure)),
        ("registration_open"@, switch_text(s.registration_open)),
        ("registrations_per_hour"@, decimal(s.registrations_per_hour as nat)),
        ("acme_enabled"@, switch_text(s.acme_enabled)),
        ("acme_directory"@, s.acme_directory),
        ("acme_contact_email"@, s.acme_contact_email),
        ("acme_domains"@, joined(s.acme_domains, ","@)),
        ("acme_http_addr"@, s.acme_http_addr),
        ("acme_tos_agreed"@, switch_text(s.acme_tos_agreed)),
        ("acme_renew_before_days"@, signed_decimal(s.acme_renew_before_days as int)),
    ]
}

impl Settings {
    /// Flatten into the key/value rows stored in the database.
    pub fn to_pairs(&self) -> (r: Vec<(&'static str, String)>)
        ensures
            row_texts(r@) == rows_of(self@),
    {
        let r = vec![
            ("hostname", self.hostname.clone()),
            ("smtp_addr", self.smtp_addr.clone()),
            ("smtps_addr", self.smtps_addr.clone()),
            ("https_addr", self.https_addr.clone()),
            ("retention_secs", show_u64(self.retention_secs)),
            ("mailbox_cap", show_usize(self.mailbox_cap)),
            ("max_message_size", show_usize(self.max_message_size)),
            ("max_credentials_per_user", show_i64(self.max_credentials_per_user)),
            ("cookie_secure", bool_str(self.cookie_secure)),
            ("registration_open", bool_str(self.registration_open)),
            ("registrations_per_hour", show_u64(self.registrations_per_hour as u64)),
            ("acme_enabled", bool_str(self.acme_enabled)),
            ("acme_directory", self.acme_directory.clone()),
            ("acme_contact_email", self.acme_contact_email.clone()),
            ("acme_domains", join(&self.acme_domains, ",")),
            ("acme_http_addr", self.acme_http_addr.clone()),
            ("acme_tos_agreed", bool_str(self.acme_tos_agreed)),
            ("acme_renew_before_days", show_i64(self.acme_renew_before_days)),
        ];
        assert(row_texts(r@) =~= rows_of(self@));
        r
    }

    /// A copy of these settings.
    pub fn copy(&self) -> (r: Self)
        ensures
            r@ == self@,
    {
        Settings {
            hostname: self.hostname.clone(),
            smtp_addr: self.smtp_addr.clone(),
            smtps_addr: self.smtps_addr.clone(),
            https_addr: self.https_addr.clone(),
            retention_secs: self.retention_secs,
            mailbox_cap: self.mailbox_cap,
            max_message_size: self.max_message_size,
            max_credentials_per_user: self.max_credentials_per_user,
            cookie_secure: self.cookie_secure,
            registration_open: self.registration_open,
            registrations_per_hour: self.registrations_per_hour,
            acme_enabled: self.acme_enabled,
            acme_directory: self.acme_directory.clone(),
            acme_contact_email: self.acme_contact_email.clone(),
            acme_domains: copy_list(&self.acme_domains),
            acme_http_addr: self.acme_http_addr.clone(),
            acme_tos_agreed: self.acme_tos_agreed,
            acme_renew_before_days: self.acme_renew_before_days,
        }
    }

    /// Whether both say the same.
    pub fn same_as(&self, other: &Settings) -> (r: bool)
        ensures
            r == (self@ == other@),
    {
        let r = same(self.hostname.as_str(), other.hostname.as_str()) && same(
            self.smtp_addr.as_str(),
            other.smtp_addr.as_str(),
        ) && same(self.smtps_addr.as_str(), other.smtps_addr.as_str()) && same(
            self.https_addr.as_str(),
            other.https_addr.as_str(),
        ) && self.retention_secs == other.retention_secs && self.mailbox_cap == other.mailbox_cap
            && self.max_message_size == other.max_message_size && self.max_credentials_per_user
            == other.max_credentials_per_user && self.cookie_secure == other.cookie_secure
            && self.registration_open == other.registration_open && self.registrations_per_hour
            == other.registrations_per_hour && self.acme_enabled == other.acme_enabled && same(
            self.acme_directory.as_str(),
            other.acme_directory.as_str(),
        ) && same(self.acme_contact_email.as_str(), other.acme_contact_email.as_str())
            && same_list(&self.acme_domains, &other.acme_domains) && same(
            self.acme_http_addr.as_str(),
            other.acme_http_addr.as_str(),
        ) && self.acme_tos_agreed == other.acme_tos_agreed && self.acme_renew_before_days
            == other.acme_renew_before_days;
        r
    }
}

// ---- addresses and names ----

/// The part of `host:port` behind the last colon; `None` if there is no colon or
/// nothing before it.
pub open spec fn port_text(addr: Seq<char>) -> Option<Seq<char>> {
    let i = last_index_of(addr, ':');
    if i > 0 {
        Some(addr.skip(i + 1))
    } else {
        None
    }
}

/// The port that a text writes: a number from 1 to 65535.
pub open spec fn port_number(s: Seq<char>) -> Option<u16> {
    match unsigned_number(s) {
        Some(n) if 0 < n <= u16::MAX => Some(n as u16),
        _ => None,
    }
}

/// The port of a `host:port` address.
pub open spec fn port_in(addr: Seq<char>) -> Option<u16> {
    match port_text(addr) {
        Some(p) => port_number(p),
        None => None,
    }
}

fn split_port(addr: &str) -> (r: Option<String>)
    ensures
        opt_text(r) == port_text(addr@),
{
    let cs = chars_of(addr);
    let n = cs.len();
    match rfind_char(&cs, ':') {
        Some(i) => if i > 0 {
            assert(i < n);
            assert(cs@.subrange(i + 1, cs@.len() as int) =~= cs@.skip(i + 1));
            Some(text_range(&cs, i + 1, n))
        } else {
            None
        },
        None => None,
    }
}

fn read_port(s: &str) -> (r: Option<u16>)
    ensures
        r == port_number(s@),
{
    match parse_u16(s) {
        Some(p) => if p > 0 {
            Some(p)
        } else {
            None
        },
        None => None,
    }
}

/// The port half of a `host:port` bind address, if it has a usable one.
pub fn port_of(addr: &str) -> (r: Option<u16>)
    ensures
        r == port_in(addr@),
{
    match split_port(addr) {
        Some(port) => read_port(port.as_str()),
        None => None,
    }
}

/// What is wrong with a bind address; `None` if nothing is.
pub open spec fn address_fault(
    label: Seq<char>,
    addr: Seq<char>,
    allow_empty: bool,
) -> Option<Seq<char>> {
    if addr.len() == 0 {
        if allow_empty {
            None
        } else {
            Some(label + " cannot be empty"@)
        }
    } else {
        match port_text(addr) {
            None => Some(label + " must be in host:port form, e.g. 0.0.0.0:587"@),
            Some(port) => match port_number(port) {
                None => Some(label + " has an invalid port"@),
                Some(_) => None,
            },
        }
    }
}

/// Accept `host:port` where the port is a valid, non-zero u16. The host part is
/// left to the resolver, which is what binding uses anyway.
fn check_addr(label: &str, addr: &str, allow_empty: bool) -> (r: Option<String>)
    ensures
        opt_text(r) == address_fault(label@, addr@, allow_empty),
{
    let mut message = label.to_string();
    if addr.is_empty() {
        if allow_empty {
            return None;
        }
        message.append(" cannot be empty");
        return Some(message);
    }
    match split_port(addr) {
        None => {
            message.append(" must be in host:port form, e.g. 0.0.0.0:587");
            Some(message)
        },
        Some(port) => match read_port(port.as_str()) {
            None => {
                message.append(" has an invalid port");
                Some(message)
            },
            Some(_) => None,
        },
    }
}

/// A character that a DNS name may hold.
pub open spec fn is_name_char(c: char) -> bool {
    ||| 'a' <= c <= 'z'
    ||| 'A' <= c <= 'Z'
    ||| '0' <= c <= '9'
    ||| c == '-'
    ||| c == '*'
}

/// One label of a DNS name.
pub open spec fn is_name_label(s: Seq<char>) -> bool {
    &&& 0 < s.len()
    &&& byte_len(s) <= 63
    &&& forall|i: int| 0 <= i < s.len() ==> is_name_char(#[trigger] s[i])
}

/// A DNS name: labels with dots between them.
pub open spec fn is_hostname(s: Seq<char>) -> bool {
    &&& 0 < s.len()
    &&& byte_len(s) <= 253
    &&& s[0] != '.'
    &&& s[0] != '-'
    &&& s.last() != '-'
    &&& forall|i: int|
        0 <= i < split_at_any(s, seq!['.']).len() ==> is_name_label(
            #[trigger] split_at_any(s, seq!['.'])[i],
        )
}

fn valid_label(s: &str) -> (r: bool)
    ensures
        r == is_name_label(s@),
{
    if s.is_empty() || bytes_in(s) > 63 {
        return false;
    }
    let cs = chars_of(s);
    let mut i: usize = 0;
    while i < cs.len()
        invariant
            i <= cs@.len(),
            cs@ == s@,
            forall|j: int| 0 <= j < i ==> is_name_char(#[trigger] cs@[j]),
        decreases cs@.len() - i,
    {
        let c = cs[i];
        if !(('a' <= c && c <= 'z') || ('A' <= c && c <= 'Z') || ('0' <= c && c <= '9') || c == '-'
            || c == '*') {
            assert(!is_name_char(s@[i as int]));
            return false;
        }
        i += 1;
    }
    true
}

/// Whether `s` is a plain DNS name.
pub fn valid_hostname(s: &str) -> (r: bool)
    ensures
        r == is_hostname(s@),
{
    if s.is_empty() || bytes_in(s) > 253 {
        return false;
    }
    let cs = chars_of(s);
    let first = cs[0];
    if first == '.' || first == '-' || cs[cs.len() - 1] == '-' {
        return false;
    }
    let labels = split_any(s, &['.']);
    assert(['.']@ =~= seq!['.']);
    let ghost all = split_at_any(s@, seq!['.']);
    let mut i: usize = 0;
    while i < labels.len()
        invariant
            i <= labels@.len(),
            all == texts(labels@),
            all == split_at_any(s@, seq!['.']),
            forall|j: int| 0 <= j < i ==> is_name_label(#[trigger] all[j]),
        decreases labels@.len() - i,
    {
        assert(all[i as int] == labels@[i as int]@);
        if !valid_label(labels[i].as_str()) {
            return false;
        }
        i += 1;
    }
    true
}

impl Settings {
    /// Names the TLS certificate should cover: the ACME domains when ACME is
    /// configured, otherwise the SMTP hostname.
    pub fn cert_names(&self) -> (r: Vec<String>)
        ensures
            texts(r@) == certificate_names(self@),
    {
        if self.acme_enabled && self.acme_domains.len() > 0 {
            copy_list(&self.acme_domains)
        } else {
            let mut names: Vec<String> = Vec::new();
            names.push(self.hostname.clone());
            assert(texts(names@) =~= seq![self.hostname@]);
            names
        }
    }

    /// What a mail client should be told to connect to for a listener: the
    /// announced hostname with that listener's port. The bind address itself
    /// names a local interface (`0.0.0.0:587` and friends) and is meaningless
    /// to anyone on the other end of the connection.
    pub fn endpoint(&self, bind_addr: &str) -> (r: String)
        ensures
            r@ == endpoint_text(self@.hostname, bind_addr@),
    {
        match port_of(bind_addr) {
            Some(port) => {
                let mut out = self.hostname.clone();
                out.append(":");
                out.append(show_u64(port as u64).as_str());
                out
            },
            None => self.hostname.clone(),
        }
    }
}

/// The names that the certificate should cover.
pub open spec fn certificate_names(s: SettingsView) -> Seq<Seq<char>> {
    if s.acme_enabled && s.acme_domains.len() > 0 {
        s.acme_domains
    } else {
        seq![s.hostname]
    }
}

/// The hostname with the port of a bind address, if that has one.
pub open spec fn endpoint_text(hostname: Seq<char>, bind_addr: Seq<char>) -> Seq<char> {
    match port_in(bind_addr) {
        Some(port) => hostname + ":"@ + decimal(port as nat),
        None => hostname,
    }
}

// ---- validation ----

/// The position of the first domain that is not a DNS name; the length of the
/// list if there is none.
pub open spec fn first_bad_domain(domains: Seq<Seq<char>>) -> int
    decreases domains.len(),
{
    if domains.len() == 0 || !is_hostname(domains[0]) {
        0
    } else {
        1 + first_bad_domain(domains.skip(1))
    }
}

/// The first problem with the ACME settings; `None` if there is none.
pub open spec fn acme_fault(s: SettingsView) -> Option<Seq<char>> {
    let bad = first_bad_domain(s.acme_domains);
    if s.acme_domains.len() == 0 {
        Some("Let's Encrypt needs at least one domain"@)
    } else if bad < s.acme_domains.len() {
        Some("'"@ + s.acme_domains[bad] + "' is not a valid domain name"@)
    } else if s.acme_domains.len() > 100 {
        Some("At most 100 domains per certificate"@)
    } else if !s.acme_tos_agreed {
        Some("You must accept the CA's terms of service to enable Let's Encrypt"@)
    } else if !"https://"@.is_prefix_of(s.acme_directory) {
        Some("The ACME directory must be an https:// URL"@)
    } else if s.acme_contact_email.len() > 0 && !s.acme_contact_email.contains('@') {
        Some("The ACME contact must be an email address"@)
    } else if address_fault("ACME challenge bind address"@, s.acme_http_addr, true) is Some {
        address_fault("ACME challenge bind address"@, s.acme_http_addr, true)
    } else if s.acme_http_addr.len() == 0 {
        Some("Let's Encrypt needs an HTTP-01 challenge bind address (usually 0.0.0.0:80)"@)
    } else if !(1 <= s.acme_renew_before_days <= 80) {
        Some("Renewal window must be between 1 and 80 days"@)
    } else {
        None
    }
}

/// The first problem with the settings; `None` if there is none.
pub open spec fn settings_fault(s: SettingsView) -> Option<Seq<char>> {
    if !is_hostname(s.hostname) {
        Some("Hostname must be a plain DNS name (letters, digits, - and .)"@)
    } else if address_fault("SMTP bind address"@, s.smtp_addr, false) is Some {
        address_fault("SMTP bind address"@, s.smtp_addr, false)
    } else if address_fault("SMTPS bind address"@, s.smtps_addr, false) is Some {
        address_fault("SMTPS bind address"@, s.smtps_addr, false)
    } else if address_fault("HTTPS bind address"@, s.https_addr, true) is Some {
        address_fault("HTTPS bind address"@, s.https_addr, true)
    } else if s.smtp_addr == s.smtps_addr {
        Some("SMTP and SMTPS cannot share the same bind address"@)
    } else if s.https_addr.len() > 0 && (s.https_addr == s.smtp_addr || s.https_addr
        == s.smtps_addr) {
        Some("HTTPS cannot share a bind address with an SMTP listener"@)
    } else if !(60 <= s.retention_secs <= 2_592_000) {
        Some("Retention must be between 60 seconds and 30 days"@)
    } else if !(1 <= s.mailbox_cap <= 100_000) {
        Some("Mailbox capacity must be between 1 and 100000"@)
    } else if !(1024 <= s.max_message_size <= 268_435_456) {
        Some("Max message size must be between 1 KiB and 256 MiB"@)
    } else if !(1 <= s.max_credentials_per_user <= 1000) {
        Some("Credentials per user must be between 1 and 1000"@)
    } else if !(1 <= s.registrations_per_hour <= 10_000) {
        Some("Registrations per hour must be between 1 and 10000"@)
    } else if s.acme_enabled {
        acme_fault(s)
    } else {
        None
    }
}

/// Whether the text of an outcome is `fault`.
pub open spec fn outcome_is(r: Result<(), String>, fault: Option<Seq<char>>) -> bool {
    match r {
        Ok(()) => fault is None,
        Err(e) => fault == Some(e@),
    }
}

fn bad_domain(domains: &Vec<String>) -> (r: usize)
    ensures
        r == first_bad_domain(texts(domains@)),
        r <= domains@.len(),
{
    let ghost all = texts(domains@);
    let mut i: usize = 0;
    assert(all.skip(0) =~= all);
    while i < domains.len() && valid_hostname(domains[i].as_str())
        invariant
            i <= domains@.len(),
            all == texts(domains@),
            first_bad_domain(all) == i + first_bad_domain(all.skip(i as int)),
        decreases domains@.len() - i,
    {
        assert(all.skip(i as int).skip(1) =~= all.skip(i + 1));
        assert(all.skip(i as int)[0] == domains@[i as int]@);
        i += 1;
    }
    proof {
        if i < domains@.len() {
            assert(all.skip(i as int)[0] == domains@[i as int]@);
        }
    }
    i
}

impl Settings {
    fn validate_acme(&self) -> (r: Result<(), String>)
        ensures
            outcome_is(r, acme_fault(self@)),
    {
        if self.acme_domains.len() == 0 {
            return Err("Let's Encrypt needs at least one domain".to_string());
        }
        let bad = bad_domain(&self.acme_domains);
        if bad < self.acme_domains.len() {
            let mut message = "'".to_string();
            message.append(self.acme_domains[bad].as_str());
            message.append("' is not a valid domain name");
            return Err(message);
        }
        if self.acme_domains.len() > 100 {
            return Err("At most 100 domains per certificate".to_string());
        }
        if !self.acme_tos_agreed {
            return Err(
                "You must accept the CA's terms of service to enable Let's Encrypt".to_string(),
            );
        }
        if !starts_with(self.acme_directory.as_str(), "https://") {
            return Err("The ACME directory must be an https:// URL".to_string());
        }
        let contact = chars_of(self.acme_contact_email.as_str());
        let at = find_char(&contact, '@');
        proof {
            crate::text::lemma_index_of(contact@, '@');
            if at < contact@.len() {
                assert(contact@.contains('@'));
            }
        }
        if contact.len() > 0 && at == contact.len() {
            return Err("The ACME contact must be an email address".to_string());
        }
        if let Some(message) = check_addr(
            "ACME challenge bind address",
            self.acme_http_addr.as_str(),
            true,
        ) {
            return Err(message);
        }
        if self.acme_http_addr.as_str().is_empty() {
            return Err(
                "Let's Encrypt needs an HTTP-01 challenge bind address (usually 0.0.0.0:80)".to_string(),
            );
        }
        if !(1 <= self.acme_renew_before_days && self.acme_renew_before_days <= 80) {
            return Err("Renewal window must be between 1 and 80 days".to_string());
        }
        Ok(())
    }

    /// Reject anything that would break the server or lock the admin out.
    /// Returns a human-readable message describing the first problem found.
    pub fn validate(&self) -> (r: Result<(), String>)
        ensures
            outcome_is(r, settings_fault(self@)),
    {
        if !valid_hostname(self.hostname.as_str()) {
            return Err(
                "Hostname must be a plain DNS name (letters, digits, - and .)".to_string(),
            );
        }
        if let Some(message) = check_addr("SMTP bind address", self.smtp_addr.as_str(), false) {
            return Err(message);
        }
        if let Some(message) = check_addr("SMTPS bind address", self.smtps_addr.as_str(), false) {
            return Err(message);
        }
        if let Some(message) = check_addr("HTTPS bind address", self.https_addr.as_str(), true) {
            return Err(message);
        }
        if same(self.smtp_addr.as_str(), self.smtps_addr.as_str()) {
            return Err("SMTP and SMTPS cannot share the same bind address".to_string());
        }
        if !self.https_addr.as_str().is_empty() && (same(
            self.https_addr.as_str(),
            self.smtp_addr.as_str(),
        ) || same(self.https_addr.as_str(), self.smtps_addr.as_str())) {
            return Err("HTTPS cannot share a bind address with an SMTP listener".to_string());
        }
        if !(60 <= self.retention_secs && self.retention_secs <= 2_592_000) {
            return Err("Retention must be between 60 seconds and 30 days".to_string());
        }
        if !(1 <= self.mailbox_cap && self.mailbox_cap <= 100_000) {
            return Err("Mailbox capacity must be between 1 and 100000".to_string());
        }
        if !(1024 <= self.max_message_size && self.max_message_size <= 268_435_456) {
            return Err("Max message size must be between 1 KiB and 256 MiB".to_string());
        }
        if !(1 <= self.max_credentials_per_user && self.max_credentials_per_user <= 1000) {
            return Err("Credentials per user must be between 1 and 1000".to_string());
        }
        if !(1 <= self.registrations_per_hour && self.registrations_per_hour <= 10_000) {
            return Err("Registrations per hour must be between 1 and 10000".to_string());
        }
        if self.acme_enabled {
            return self.validate_acme();
        }
        Ok(())
    }
}

/// What a bind address has to be.
pub open spec fn is_bind_address(addr: Seq<char>) -> bool {
    port_in(addr) is Some
}

/// Settings that the server can run with.
pub open spec fn acceptable(s: SettingsView) -> bool {
    &&& is_hostname(s.hostname)
    &&& is_bind_address(s.smtp_addr)
    &&& is_bind_address(s.smtps_addr)
    &&& s.https_addr.len() > 0 ==> is_bind_address(s.https_addr)
    &&& s.smtp_addr != s.smtps_addr
    &&& s.https_addr.len() > 0 ==> s.https_addr != s.smtp_addr && s.https_addr != s.smtps_addr
    &&& 60 <= s.retention_secs <= 30 * 86_400
    &&& 1 <= s.mailbox_cap <= 100_000
    &&& 1024 <= s.max_message_size <= 256 * 1024 * 1024
    &&& 1 <= s.max_credentials_per_user <= 1000
    &&& 1 <= s.registrations_per_hour <= 10_000
    &&& s.acme_enabled ==> {
        &&& 1 <= s.acme_domains.len() <= 100
        &&& forall|i: int| 0 <= i < s.acme_domains.len() ==> is_hostname(#[trigger] s.acme_domains[i])
        &&& s.acme_tos_agreed
        &&& "https://"@.is_prefix_of(s.acme_directory)
        &&& s.acme_contact_email.len() > 0 ==> s.acme_contact_email.contains('@')
        &&& is_bind_address(s.acme_http_addr)
        &&& 1 <= s.acme_renew_before_days <= 80
    }
}

proof fn lemma_first_bad_domain(domains: Seq<Seq<char>>)
    ensures
        0 <= first_bad_domain(domains) <= domains.len(),
        first_bad_domain(domains) < domains.len() ==> !is_hostname(
            domains[first_bad_domain(domains)],
        ),
        forall|i: int| 0 <= i < first_bad_domain(domains) ==> is_hostname(#[trigger] domains[i]),
    decreases domains.len(),
{
    if domains.len() > 0 && is_hostname(domains[0]) {
        let rest = domains.skip(1);
        lemma_first_bad_domain(rest);
        assert forall|i: int| 0 <= i < first_bad_domain(domains) implies is_hostname(
            #[trigger] domains[i],
        ) by {
            if i > 0 {
                assert(rest[i - 1] == domains[i]);
            }
        }
    }
}

/// Settings are refused exactly if the server could not run with them.
pub proof fn validation_is_exact(s: SettingsView)
    ensures
        settings_fault(s) is None <==> acceptable(s),
{
    lemma_first_bad_domain(s.acme_domains);
    lemma_last_index_of(s.smtp_addr, ':');
    lemma_last_index_of(s.smtps_addr, ':');
    lemma_last_index_of(s.https_addr, ':');
    lemma_last_index_of(s.acme_http_addr, ':');
}

// ---- what is stored is what is read ----

/// The table that `rows` fill, one after the other.
pub open spec fn table_of(rows: Seq<(Seq<char>, Seq<char>)>) -> Map<Seq<char>, Seq<char>>
    decreases rows.len(),
{
    if rows.len() == 0 {
        Map::empty()
    } else {
        table_of(rows.drop_last()).insert(rows.last().0, rows.last().1)
    }
}

proof fn lemma_table_of(rows: Seq<(Seq<char>, Seq<char>)>, i: int)
    requires
        0 <= i < rows.len(),
        forall|a: int, b: int| 0 <= a < b < rows.len() ==> (#[trigger] rows[a]).0 != (
        #[trigger] rows[b]).0,
    ensures
        stored(table_of(rows), rows[i].0) == Some(rows[i].1),
    decreases rows.len(),
{
    if i < rows.len() - 1 {
        let before = rows.drop_last();
        assert forall|a: int, b: int| 0 <= a < b < before.len() implies (#[trigger] before[a]).0
            != (#[trigger] before[b]).0 by {
            assert(before[a] == rows[a] && before[b] == rows[b]);
        }
        lemma_table_of(before, i);
        assert(before[i] == rows[i]);
        assert(rows[i].0 != rows[rows.len() - 1].0);
    }
}

/// A domain that a list of domains can hold as it is.
pub open spec fn is_clean_domain(d: Seq<char>) -> bool {
    is_listed_domain(d) && trimmed(d) == d
}

proof fn lemma_first_sep_of_joined(d: Seq<char>, rest: Seq<char>)
    requires
        is_clean_domain(d),
    ensures
        first_sep(d + ","@ + rest, domain_separators()) == d.len(),
        first_sep(d, domain_separators()) == d.len(),
{
    reveal_strlit(",");
    let s = d + ","@ + rest;
    let seps = domain_separators();
    lemma_first_sep(s, seps);
    lemma_first_sep(d, seps);
    let i = first_sep(s, seps);
    assert(s[d.len() as int] == ',');
    assert(seps[0] == ',');
    assert(seps.contains(','));
    if i < d.len() {
        assert(s[i] == d[i]);
    }
}

/// `joined` without its first separator, piece by piece.
proof fn lemma_split_joined(list: Seq<Seq<char>>)
    requires
        list.len() > 0,
        forall|i: int| 0 <= i < list.len() ==> is_clean_domain(#[trigger] list[i]),
    ensures
        split_at_any(joined(list, ","@), domain_separators()) == list,
    decreases list.len(),
{
    reveal_strlit(",");
    let s = joined(list, ","@);
    let rest = list.skip(1);
    assert(is_clean_domain(list[0]));
    if list.len() == 1 {
        assert(rest.len() == 0);
        assert(s =~= list[0]);
        lemma_first_sep_of_joined(list[0], Seq::empty());
        assert(split_at_any(s, domain_separators()) =~= list);
    } else {
        let tail = joined(rest, ","@);
        assert(s == list[0] + ","@ + tail) by {
            texts_are_joined_in_order(list[0], rest, ","@);
            assert(seq![list[0]] + rest =~= list);
        }
        lemma_first_sep_of_joined(list[0], tail);
        assert forall|i: int| 0 <= i < rest.len() implies is_clean_domain(#[trigger] rest[i]) by {
            assert(rest[i] == list[i + 1]);
        }
        lemma_split_joined(rest);
        let n = list[0].len() as int;
        assert(s.take(n) =~= list[0]);
        assert(s.skip(n + 1) =~= tail);
        assert(split_at_any(s, domain_separators()) =~= seq![list[0]] + rest);
        assert(seq![list[0]] + rest =~= list);
    }
}

proof fn lemma_clean_domains_stay(list: Seq<Seq<char>>)
    requires
        forall|i: int| 0 <= i < list.len() ==> is_clean_domain(#[trigger] list[i]),
    ensures
        clean_domains(list) == list,
    decreases list.len(),
{
    if list.len() > 0 {
        let before = list.drop_last();
        assert forall|i: int| 0 <= i < before.len() implies is_clean_domain(
            #[trigger] before[i],
        ) by {
            assert(before[i] == list[i]);
        }
        lemma_clean_domains_stay(before);
        assert(is_clean_domain(list[list.len() - 1]));
        assert(without_final(list.last(), '.') == list.last());
        assert(before.push(list.last()) =~= list);
    } else {
        assert(clean_domains(list) =~= list);
    }
}

/// A list of domains is read back from the text that joins them.
pub proof fn joined_domains_read_back(list: Seq<Seq<char>>)
    requires
        forall|i: int| 0 <= i < list.len() ==> is_clean_domain(#[trigger] list[i]),
    ensures
        domains_in(joined(list, ","@)) == list,
{
    if list.len() == 0 {
        let s = joined(list, ","@);
        assert(s =~= Seq::empty());
        let pieces = split_at_any(s, domain_separators());
        assert(pieces =~= seq![Seq::<char>::empty()]);
        assert(pieces.last() =~= Seq::empty());
        assert(pieces.drop_last() =~= Seq::empty());
        assert(clean_domains(Seq::empty()) =~= Seq::<Seq<char>>::empty());
        assert(clean_domains(pieces) =~= list);
    } else {
        lemma_split_joined(list);
        lemma_clean_domains_stay(list);
    }
}

/// Settings that no default replaces when they are read: the texts that may not
/// be empty are not, and the domains are as a list of domains gives them.
pub open spec fn storable(s: SettingsView) -> bool {
    &&& s.hostname.len() > 0
    &&& s.smtp_addr.len() > 0
    &&& s.smtps_addr.len() > 0
    &&& s.acme_directory.len() > 0
    &&& s.acme_http_addr.len() > 0
    &&& forall|i: int|
        0 <= i < s.acme_domains.len() ==> is_clean_domain(#[trigger] s.acme_domains[i])
}

/// A number that tells the keys of the rows apart.
spec fn key_mark(key: Seq<char>) -> int {
    key.len() * 10_000 + (key[0] as int) * 20 + key[5] as int
}

/// The row whose key has the mark `m`.
spec fn row_with_mark(m: int) -> int {
    if m == 82177 {
        0
    } else if m == 92397 {
        1
    } else if m == 102395 {
        2
    } else if m == 102175 {
        3
    } else if m == 142396 {
        4
    } else if m == 112291 {
        5
    } else if m == 162281 {
        6
    } else if m == 242294 {
        7
    } else if m == 132081 {
        8
    } else if m == 172396 {
        9
    } else if m == 222396 {
        10
    } else if m == 122041 {
        11
    } else if m == 142040 {
        12
    } else if m == 182039 {
        13
    } else if m == 122040 {
        14
    } else if m == 142044 {
        15
    } else if m == 152056 {
        16
    } else if m == 222054 {
        17
    } else {
        -1
    }
}

proof fn lemma_row_keys_differ(s: SettingsView)
    ensures
        forall|a: int, b: int|
            0 <= a < b < 18 ==> (#[trigger] rows_of(s)[a]).0 != (#[trigger] rows_of(s)[b]).0,
        rows_of(s).len() == 18,
{
    reveal_strlit("hostname");
    reveal_strlit("smtp_addr");
    reveal_strlit("smtps_addr");
    reveal_strlit("https_addr");
    reveal_strlit("retention_secs");
    reveal_strlit("mailbox_cap");
    reveal_strlit("max_message_size");
    reveal_strlit("max_credentials_per_user");
    reveal_strlit("cookie_secure");
    reveal_strlit("registration_open");
    reveal_strlit("registrations_per_hour");
    reveal_strlit("acme_enabled");
    reveal_strlit("acme_directory");
    reveal_strlit("acme_contact_email");
    reveal_strlit("acme_domains");
    reveal_strlit("acme_http_addr");
    reveal_strlit("acme_tos_agreed");
    reveal_strlit("acme_renew_before_days");
    assert(key_mark("hostname"@) == 82177);
    assert(key_mark("smtp_addr"@) == 92397);
    assert(key_mark("smtps_addr"@) == 102395);
    assert(key_mark("https_addr"@) == 102175);
    assert(key_mark("retention_secs"@) == 142396);
    assert(key_mark("mailbox_cap"@) == 112291);
    assert(key_mark("max_message_size"@) == 162281);
    assert(key_mark("max_credentials_per_user"@) == 242294);
    assert(key_mark("cookie_secure"@) == 132081);
    assert(key_mark("registration_open"@) == 172396);
    assert(key_mark("registrations_per_hour"@) == 222396);
    assert(key_mark("acme_enabled"@) == 122041);
    assert(key_mark("acme_directory"@) == 142040);
    assert(key_mark("acme_contact_email"@) == 182039);
    assert(key_mark("acme_domains"@) == 122040);
    assert(key_mark("acme_http_addr"@) == 142044);
    assert(key_mark("acme_tos_agreed"@) == 152056);
    assert(key_mark("acme_renew_before_days"@) == 222054);
    let rows = rows_of(s);
    assert forall|a: int, b: int| 0 <= a < b < 18 implies (#[trigger] rows[a]).0 != (
    #[trigger] rows[b]).0 by {
        assert(row_with_mark(key_mark(rows[a].0)) == a);
        assert(row_with_mark(key_mark(rows[b].0)) == b);
    }
}

/// What is stored is what is read: the settings that are read from the rows
/// that hold `s` are `s`.
pub proof fn stored_settings_read_back(s: SettingsView)
    requires
        storable(s),
    ensures
        settings_of(table_of(rows_of(s))) == s,
{
    let rows = rows_of(s);
    lemma_row_keys_differ(s);
    assert forall|i: int| 0 <= i < 18 implies stored(table_of(rows), (#[trigger] rows[i]).0)
        == Some(rows[i].1) by {
        lemma_table_of(rows, i);
    }
    let m = table_of(rows);
    assert(stored(m, rows[0].0) == Some(s.hostname));
    assert(stored(m, rows[1].0) == Some(s.smtp_addr));
    assert(stored(m, rows[2].0) == Some(s.smtps_addr));
    assert(stored(m, rows[3].0) == Some(s.https_addr));
    assert(stored(m, rows[4].0) == Some(decimal(s.retention_secs as nat)));
    assert(stored(m, rows[5].0) == Some(decimal(s.mailbox_cap as nat)));
    assert(stored(m, rows[6].0) == Some(decimal(s.max_message_size as nat)));
    assert(stored(m, rows[7].0) == Some(signed_decimal(s.max_credentials_per_user as int)));
    assert(stored(m, rows[8].0) == Some(switch_text(s.cookie_secure)));
    assert(stored(m, rows[9].0) == Some(switch_text(s.registration_open)));
    assert(stored(m, rows[10].0) == Some(decimal(s.registrations_per_hour as nat)));
    assert(stored(m, rows[11].0) == Some(switch_text(s.acme_enabled)));
    assert(stored(m, rows[12].0) == Some(s.acme_directory));
    assert(stored(m, rows[13].0) == Some(s.acme_contact_email));
    assert(stored(m, rows[14].0) == Some(joined(s.acme_domains, ","@)));
    assert(stored(m, rows[15].0) == Some(s.acme_http_addr));
    assert(stored(m, rows[16].0) == Some(switch_text(s.acme_tos_agreed)));
    assert(stored(m, rows[17].0) == Some(signed_decimal(s.acme_renew_before_days as int)));
    decimal_reads_back(s.retention_secs as nat);
    decimal_reads_back(s.mailbox_cap as nat);
    decimal_reads_back(s.max_message_size as nat);
    decimal_reads_back(s.registrations_per_hour as nat);
    signed_decimal_reads_back(s.max_credentials_per_user as int);
    signed_decimal_reads_back(s.acme_renew_before_days as int);
    joined_domains_read_back(s.acme_domains);
    reveal_strlit("1");
    reveal_strlit("true");
    reveal_strlit("0");
    reveal_strlit("false");
    assert("1"@[0] != "0"@[0]);
}

} // verus!
