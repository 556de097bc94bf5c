//! What settings mean: how they are read from their rows, what is accepted of
//! them, and what follows from them.

use vstd::prelude::*;
use vstd::utf8::*;

use crate::settings::{
    a_list_is_read_part_by_part, address_fault, certificate_names, clean_domains,
    default_settings, domain_separators, domains_in, endpoint_text, first_bad_domain, is_hostname, is_name_label,
    port_in, rows_of, settings_fault, settings_of, validation_is_exact, SettingsView,
};
use crate::text::{
    ascii_lower, byte_len, decimal, decimal_reads_back, first_sep, is_white, joined,
    lemma_first_sep, signed_decimal, signed_decimal_reads_back, signed_number, split_at_any,
    trimmed, unsigned_number, without_final,
};
use crate::text_laws::{
    final_characters_go, is_tight, separators_part_the_pieces, the_last_place_is_the_last,
    tight_text_stays,
};

verus! {

// ---- rows ----

/// Whether a table has the row.
pub open spec fn has_row(m: Map<Seq<char>, Seq<char>>, key: Seq<char>, value: Seq<char>) -> bool {
    m.dom().contains(key) && m[key] == value
}

/// A text is read from the row of its name, and is the default where the row is
/// missing; an empty one counts as missing where there has to be one.
pub proof fn texts_are_read_from_their_rows(m: Map<Seq<char>, Seq<char>>, v: Seq<char>)
    ensures
        has_row(m, "hostname"@, v) && v.len() > 0 ==> settings_of(m).hostname == v,
        has_row(m, "smtp_addr"@, v) && v.len() > 0 ==> settings_of(m).smtp_addr == v,
        has_row(m, "smtps_addr"@, v) && v.len() > 0 ==> settings_of(m).smtps_addr == v,
        has_row(m, "acme_directory"@, v) && v.len() > 0 ==> settings_of(m).acme_directory == v,
        has_row(m, "acme_http_addr"@, v) && v.len() > 0 ==> settings_of(m).acme_http_addr == v,
        has_row(m, "https_addr"@, v) ==> settings_of(m).https_addr == v,
        has_row(m, "acme_contact_email"@, v) ==> settings_of(m).acme_contact_email == v,
        has_row(m, "acme_domains"@, v) ==> settings_of(m).acme_domains == domains_in(v),
        !m.dom().contains("hostname"@) || m["hostname"@].len() == 0 ==> settings_of(m).hostname
            == "smtpvoid.local"@,
        !m.dom().contains("smtp_addr"@) || m["smtp_addr"@].len() == 0 ==> settings_of(m).smtp_addr
            == "0.0.0.0:587"@,
        !m.dom().contains("smtps_addr"@) || m["smtps_addr"@].len() == 0 ==> settings_of(
            m,
        ).smtps_addr == "0.0.0.0:465"@,
        !m.dom().contains("acme_directory"@) || m["acme_directory"@].len() == 0 ==> settings_of(
            m,
        ).acme_directory == "https://acme-v02.api.letsencrypt.org/directory"@,
        !m.dom().contains("acme_http_addr"@) || m["acme_http_addr"@].len() == 0 ==> settings_of(
            m,
        ).acme_http_addr == "0.0.0.0:80"@,
        !m.dom().contains("https_addr"@) ==> settings_of(m).https_addr == ""@,
        !m.dom().contains("acme_contact_email"@) ==> settings_of(m).acme_contact_email == ""@,
        !m.dom().contains("acme_domains"@) ==> settings_of(m).acme_domains == Seq::<
            Seq<char>,
        >::empty(),
{
}

/// A number is read from the row of its name, and is the default where the row is
/// missing or holds no number that fits.
pub proof fn numbers_are_read_from_their_rows(
    m: Map<Seq<char>, Seq<char>>,
    n: nat,
    i: int,
    v: Seq<char>,
)
    ensures
        has_row(m, "retention_secs"@, decimal(n)) && n <= u64::MAX ==> settings_of(m).retention_secs
            == n,
        has_row(m, "mailbox_cap"@, decimal(n)) && n <= usize::MAX ==> settings_of(m).mailbox_cap
            == n,
        has_row(m, "max_message_size"@, decimal(n)) && n <= usize::MAX ==> settings_of(
            m,
        ).max_message_size == n,
        has_row(m, "registrations_per_hour"@, decimal(n)) && n <= u32::MAX ==> settings_of(
            m,
        ).registrations_per_hour == n,
        has_row(m, "max_credentials_per_user"@, signed_decimal(i)) && i64::MIN <= i <= i64::MAX
            ==> settings_of(m).max_credentials_per_user == i,
        has_row(m, "acme_renew_before_days"@, signed_decimal(i)) && i64::MIN <= i <= i64::MAX
            ==> settings_of(m).acme_renew_before_days == i,
        has_row(m, "retention_secs"@, decimal(n)) && n > u64::MAX ==> settings_of(m).retention_secs
            == 3600,
        has_row(m, "mailbox_cap"@, decimal(n)) && n > usize::MAX ==> settings_of(m).mailbox_cap
            == 100,
        has_row(m, "max_message_size"@, decimal(n)) && n > usize::MAX ==> settings_of(
            m,
        ).max_message_size == 1_048_576,
        has_row(m, "registrations_per_hour"@, decimal(n)) && n > u32::MAX ==> settings_of(
            m,
        ).registrations_per_hour == 10,
        has_row(m, "max_credentials_per_user"@, signed_decimal(i)) && !(i64::MIN <= i <= i64::MAX)
            ==> settings_of(m).max_credentials_per_user == 20,
        has_row(m, "acme_renew_before_days"@, signed_decimal(i)) && !(i64::MIN <= i <= i64::MAX)
            ==> settings_of(m).acme_renew_before_days == 30,
        !m.dom().contains("retention_secs"@) || (has_row(m, "retention_secs"@, v)
            && unsigned_number(v) is None) ==> settings_of(m).retention_secs == 3600,
        !m.dom().contains("mailbox_cap"@) || (has_row(m, "mailbox_cap"@, v) && unsigned_number(v)
            is None) ==> settings_of(m).mailbox_cap == 100,
        !m.dom().contains("max_message_size"@) || (has_row(m, "max_message_size"@, v)
            && unsigned_number(v) is None) ==> settings_of(m).max_message_size == 1_048_576,
        !m.dom().contains("registrations_per_hour"@) || (has_row(m, "registrations_per_hour"@, v)
            && unsigned_number(v) is None) ==> settings_of(m).registrations_per_hour == 10,
        !m.dom().contains("max_credentials_per_user"@) || (has_row(
            m,
            "max_credentials_per_user"@,
            v,
        ) && signed_number(v) is None) ==> settings_of(m).max_credentials_per_user == 20,
        !m.dom().contains("acme_renew_before_days"@) || (has_row(m, "acme_renew_before_days"@, v)
            && signed_number(v) is None) ==> settings_of(m).acme_renew_before_days == 30,
{
    decimal_reads_back(n);
    signed_decimal_reads_back(i);
}

/// A switch is read from the row of its name: `1` and `true` are on, `0` and
/// `false` are off, and anything else leaves it at its default.
pub proof fn switches_are_read_from_their_rows(m: Map<Seq<char>, Seq<char>>, v: Seq<char>)
    ensures
        v == "1"@ || v == "true"@ ==> {
            &&& has_row(m, "cookie_secure"@, v) ==> settings_of(m).cookie_secure
            &&& has_row(m, "registration_open"@, v) ==> settings_of(m).registration_open
            &&& has_row(m, "acme_enabled"@, v) ==> settings_of(m).acme_enabled
            &&& has_row(m, "acme_tos_agreed"@, v) ==> settings_of(m).acme_tos_agreed
        },
        v == "0"@ || v == "false"@ ==> {
            &&& has_row(m, "cookie_secure"@, v) ==> !settings_of(m).cookie_secure
            &&& has_row(m, "registration_open"@, v) ==> !settings_of(m).registration_open
            &&& has_row(m, "acme_enabled"@, v) ==> !settings_of(m).acme_enabled
            &&& has_row(m, "acme_tos_agreed"@, v) ==> !settings_of(m).acme_tos_agreed
        },
        v != "1"@ && v != "true"@ && v != "0"@ && v != "false"@ ==> {
            &&& has_row(m, "cookie_secure"@, v) ==> !settings_of(m).cookie_secure
            &&& has_row(m, "registration_open"@, v) ==> settings_of(m).registration_open
            &&& has_row(m, "acme_enabled"@, v) ==> !settings_of(m).acme_enabled
            &&& has_row(m, "acme_tos_agreed"@, v) ==> !settings_of(m).acme_tos_agreed
        },
        !m.dom().contains("cookie_secure"@) ==> !settings_of(m).cookie_secure,
        !m.dom().contains("registration_open"@) ==> settings_of(m).registration_open,
        !m.dom().contains("acme_enabled"@) ==> !settings_of(m).acme_enabled,
        !m.dom().contains("acme_tos_agreed"@) ==> !settings_of(m).acme_tos_agreed,
{
    reveal_strlit("0");
    reveal_strlit("1");
    reveal_strlit("true");
    reveal_strlit("false");
    assert("0"@[0] != "1"@[0]);
    assert("false"@[0] != "1"@[0]);
    assert("false"@[0] != "true"@[0]);
    assert("0"@[0] != "true"@[0]);
}

/// An empty table gives the settings that a new server has.
pub proof fn a_new_server_has_the_defaults()
    ensures
        settings_of(Map::<Seq<char>, Seq<char>>::empty()) == default_settings(),
        default_settings() == (SettingsView {
            hostname: "smtpvoid.local"@,
            smtp_addr: "0.0.0.0:587"@,
            smtps_addr: "0.0.0.0:465"@,
            https_addr: ""@,
            retention_secs: 3600,
            mailbox_cap: 100,
            max_message_size: 1_048_576,
            max_credentials_per_user: 20,
            cookie_secure: false,
            registration_open: true,
            registrations_per_hour: 10,
            acme_enabled: false,
            acme_directory: "https://acme-v02.api.letsencrypt.org/directory"@,
            acme_contact_email: ""@,
            acme_domains: Seq::empty(),
            acme_http_addr: "0.0.0.0:80"@,
            acme_tos_agreed: false,
            acme_renew_before_days: 30,
        }),
{
}

/// Every setting is written into a row of its own.
pub proof fn every_setting_has_its_row(s: SettingsView)
    ensures
        rows_of(s).len() == 18,
        rows_of(s).contains(("hostname"@, s.hostname)),
        rows_of(s).contains(("smtp_addr"@, s.smtp_addr)),
        rows_of(s).contains(("smtps_addr"@, s.smtps_addr)),
        rows_of(s).contains(("https_addr"@, s.https_addr)),
        rows_of(s).contains(("retention_secs"@, decimal(s.retention_secs as nat))),
        rows_of(s).contains(("mailbox_cap"@, decimal(s.mailbox_cap as nat))),
        rows_of(s).contains(("max_message_size"@, decimal(s.max_message_size as nat))),
        rows_of(s).contains(
            ("max_credentials_per_user"@, signed_decimal(s.max_credentials_per_user as int)),
        ),
        rows_of(s).contains(
            ("registrations_per_hour"@, decimal(s.registrations_per_hour as nat)),
        ),
        rows_of(s).contains(("acme_directory"@, s.acme_directory)),
        rows_of(s).contains(("acme_contact_email"@, s.acme_contact_email)),
        rows_of(s).contains(("acme_domains"@, joined(s.acme_domains, ","@))),
        rows_of(s).contains(("acme_http_addr"@, s.acme_http_addr)),
        rows_of(s).contains(
            ("acme_renew_before_days"@, signed_decimal(s.acme_renew_before_days as int)),
        ),
        s.cookie_secure ==> rows_of(s).contains(("cookie_secure"@, "1"@)),
        !s.cookie_secure ==> rows_of(s).contains(("cookie_secure"@, "0"@)),
        s.registration_open ==> rows_of(s).contains(("registration_open"@, "1"@)),
        !s.registration_open ==> rows_of(s).contains(("registration_open"@, "0"@)),
        s.acme_enabled ==> rows_of(s).contains(("acme_enabled"@, "1"@)),
        !s.acme_enabled ==> rows_of(s).contains(("acme_enabled"@, "0"@)),
        s.acme_tos_agreed ==> rows_of(s).contains(("acme_tos_agreed"@, "1"@)),
        !s.acme_tos_agreed ==> rows_of(s).contains(("acme_tos_agreed"@, "0"@)),
{
    let r = rows_of(s);
    assert(r[0] == r[0] && r[1] == r[1] && r[2] == r[2] && r[3] == r[3] && r[4] == r[4]);
    assert(r.contains(r[0]) && r.contains(r[1]) && r.contains(r[2]) && r.contains(r[3]));
    assert(r.contains(r[4]) && r.contains(r[5]) && r.contains(r[6]) && r.contains(r[7]));
    assert(r.contains(r[8]) && r.contains(r[9]) && r.contains(r[10]) && r.contains(r[11]));
    assert(r.contains(r[12]) && r.contains(r[13]) && r.contains(r[14]) && r.contains(r[15]));
    assert(r.contains(r[16]) && r.contains(r[17]));
}

// ---- domains ----

/// A domain is read in lower case and without the dots at its end.
pub proof fn a_domain_is_read(d: Seq<char>, dots: nat)
    requires
        d.len() > 0,
        d.last() != '.',
        is_tight(d),
        forall|i: int| 0 <= i < d.len() ==> !domain_separators().contains(#[trigger] d[i]),
    ensures
        domains_in(d + Seq::new(dots, |i: int| '.')) == seq![ascii_lower(d)],
        domains_in(Seq::empty()) == Seq::<Seq<char>>::empty(),
{
    let tail = Seq::new(dots, |i: int| '.');
    let s = d + tail;
    let seps = domain_separators();
    assert forall|i: int| 0 <= i < s.len() implies !seps.contains(#[trigger] s[i]) by {
        if i < d.len() {
            assert(s[i] == d[i]);
        } else {
            assert(s[i] == '.');
        }
    }
    let c = ',';
    assert(seps[0] == c);
    separators_part_the_pieces(s, c, Seq::empty(), seps);
    assert(s[0] == d[0]);
    assert(!is_white('.'));
    assert(s.last() == if dots > 0 {
        '.'
    } else {
        d.last()
    });
    tight_text_stays(s);
    final_characters_go(d, '.', dots);
    assert(seq![s].drop_last() =~= Seq::<Seq<char>>::empty());
    assert(clean_domains(Seq::<Seq<char>>::empty()) =~= Seq::empty());
    assert(ascii_lower(d).len() == d.len());
    assert(clean_domains(seq![s]) =~= seq![ascii_lower(d)]);
    let none = Seq::<char>::empty();
    separators_part_the_pieces(none, c, none, seps);
    assert(seq![none].drop_last() =~= Seq::<Seq<char>>::empty());
    assert(trimmed(none) =~= none);
    assert(without_final(none, '.') =~= none);
    assert(ascii_lower(none).len() == 0);
    assert(clean_domains(seq![none]) =~= Seq::empty());
}

/// Two domains are read one after the other, whichever of the separators stands
/// between them.
pub proof fn two_domains_are_read(a: Seq<char>, c: char, b: Seq<char>)
    requires
        a.len() > 0,
        a.last() != '.',
        is_tight(a),
        forall|i: int| 0 <= i < a.len() ==> !domain_separators().contains(#[trigger] a[i]),
        b.len() > 0,
        b.last() != '.',
        is_tight(b),
        forall|i: int| 0 <= i < b.len() ==> !domain_separators().contains(#[trigger] b[i]),
        c == ',' || c == ' ' || c == '\t' || c == '\n' || c == '\r' || c == ';',
    ensures
        domains_in(a + seq![c] + b) == seq![ascii_lower(a), ascii_lower(b)],
{
    let seps = domain_separators();
    assert(seps[0] == ',' && seps[1] == ' ' && seps[2] == '\t' && seps[3] == '\n' && seps[4] == '\r'
        && seps[5] == ';');
    assert(seps.contains(c));
    a_list_is_read_part_by_part(a, c, b);
    a_domain_is_read(a, 0);
    a_domain_is_read(b, 0);
    assert(a + Seq::new(0, |i: int| '.') =~= a);
    assert(b + Seq::new(0, |i: int| '.') =~= b);
    assert(seq![ascii_lower(a)] + seq![ascii_lower(b)] =~= seq![ascii_lower(a), ascii_lower(b)]);
}

/// A certificate names the configured domains while they are ordered, and the
/// hostname otherwise.
pub proof fn a_certificate_names_what_is_configured(s: SettingsView)
    ensures
        s.acme_enabled && s.acme_domains.len() > 0 ==> certificate_names(s) == s.acme_domains,
        !s.acme_enabled ==> certificate_names(s) == seq![s.hostname],
        s.acme_domains.len() == 0 ==> certificate_names(s) == seq![s.hostname],
{
}

// ---- addresses ----

/// The port of an address is the number behind its last colon, from 1 to 65535.
pub proof fn a_port_is_read(host: Seq<char>, port: nat, plain: Seq<char>)
    requires
        host.len() > 0,
        forall|i: int| 0 <= i < plain.len() ==> #[trigger] plain[i] != ':',
    ensures
        1 <= port <= 65_535 ==> port_in(host + ":"@ + decimal(port)) == Some(port as u16),
        port == 0 || port > 65_535 ==> port_in(host + ":"@ + decimal(port)) is None,
        port_in(plain) is None,
        port_in(":"@ + decimal(port)) is None,
{
    reveal_strlit(":");
    decimal_reads_back(port);
    let d = decimal(port);
    assert forall|i: int| 0 <= i < d.len() implies #[trigger] d[i] != ':' by {
        assert(crate::text::is_digit(d[i]));
    }
    assert(host + ":"@ + d =~= host + seq![':'] + d);
    assert(":"@ + d =~= Seq::<char>::empty() + seq![':'] + d);
    the_last_place_is_the_last(host, ':', d);
    the_last_place_is_the_last(Seq::empty(), ':', d);
    the_last_place_is_the_last(Seq::empty(), ':', plain);
    assert((host + ":"@ + d).skip(host.len() as int + 1) =~= d);
}

/// An endpoint is the hostname with the port of the address that it is served on,
/// and the hostname alone where there is none.
pub proof fn an_endpoint_has_its_port(hostname: Seq<char>, host: Seq<char>, port: nat)
    requires
        host.len() > 0,
        1 <= port <= 65_535,
    ensures
        endpoint_text(hostname, host + ":"@ + decimal(port)) == hostname + ":"@ + decimal(port),
        endpoint_text(hostname, Seq::empty()) == hostname,
{
    a_port_is_read(host, port, Seq::empty());
}

/// A port that is no number is no port.
pub proof fn a_port_has_to_be_a_number(
    label: Seq<char>,
    host: Seq<char>,
    port: Seq<char>,
    optional: bool,
)
    requires
        host.len() > 0,
        forall|i: int| 0 <= i < port.len() ==> #[trigger] port[i] != ':',
        unsigned_number(port) is None,
    ensures
        port_in(host + ":"@ + port) is None,
        address_fault(label, host + ":"@ + port, optional) == Some(
            label + " has an invalid port"@,
        ),
{
    reveal_strlit(":");
    let addr = host + ":"@ + port;
    assert(addr =~= host + seq![':'] + port);
    the_last_place_is_the_last(host, ':', port);
    assert(addr.skip(host.len() as int + 1) =~= port);
}

/// What is wrong with an address is said of it by its label.
pub proof fn an_address_is_checked(
    label: Seq<char>,
    host: Seq<char>,
    port: nat,
    plain: Seq<char>,
    optional: bool,
)
    requires
        host.len() > 0,
        plain.len() > 0,
        forall|i: int| 0 <= i < plain.len() ==> #[trigger] plain[i] != ':',
    ensures
        1 <= port <= 65_535 ==> address_fault(label, host + ":"@ + decimal(port), optional)
            is None,
        port == 0 || port > 65_535 ==> address_fault(label, host + ":"@ + decimal(port), optional)
            == Some(label + " has an invalid port"@),
        address_fault(label, plain, optional) == Some(
            label + " must be in host:port form, e.g. 0.0.0.0:587"@,
        ),
        address_fault(label, Seq::empty(), true) is None,
        address_fault(label, Seq::empty(), false) == Some(label + " cannot be empty"@),
{
    reveal_strlit(":");
    a_port_is_read(host, port, plain);
    let d = decimal(port);
    decimal_reads_back(port);
    assert forall|i: int| 0 <= i < d.len() implies #[trigger] d[i] != ':' by {
        assert(crate::text::is_digit(d[i]));
    }
    assert(host + ":"@ + d =~= host + seq![':'] + d);
    the_last_place_is_the_last(host, ':', d);
    the_last_place_is_the_last(Seq::empty(), ':', plain);
}

// ---- hostnames ----

/// A hostname is made of labels with dots between them: one label, and then a
/// hostname's worth of labels behind its dot.
pub proof fn a_hostname_is_labels_between_dots(label: Seq<char>, rest: Seq<char>)
    requires
        label.len() > 0,
        rest.len() > 0,
        forall|i: int| 0 <= i < label.len() ==> #[trigger] label[i] != '.',
        byte_len(label + "."@ + rest) <= 253,
    ensures
        is_hostname(rest) && rest[0] != '-' && is_name_label(label) && label[0] != '-'
            ==> is_hostname(label + "."@ + rest),
        is_hostname(label + "."@ + rest) ==> is_name_label(label) && label[0] != '-' && rest.last()
            != '-',
        byte_len(label) <= 253 ==> (is_hostname(label) <==> is_name_label(label) && label[0] != '-'
            && label.last() != '-'),
{
    reveal_strlit(".");
    let s = label + "."@ + rest;
    let dot = seq!['.'];
    assert(s =~= label + seq!['.'] + rest);
    assert(dot[0] == '.');
    assert forall|i: int| 0 <= i < label.len() implies !dot.contains(#[trigger] label[i]) by {
        assert(label[i] != '.');
    }
    separators_part_the_pieces(label, '.', rest, dot);
    let all = split_at_any(s, dot);
    let more = split_at_any(rest, dot);
    assert(all == seq![label] + more);
    assert(s[0] == label[0]);
    assert(s.last() == rest.last());
    assert(all[0] == label);
    if is_hostname(rest) && is_name_label(label) {
        assert forall|i: int| 0 <= i < all.len() implies is_name_label(#[trigger] all[i]) by {
            if i > 0 {
                assert(all[i] == more[i - 1]);
            }
        }
    }
    assert(split_at_any(label, dot)[0] == label);
}

/// No label of a hostname is empty: no dot stands at either end, and no two stand
/// together.
pub proof fn no_label_is_empty(label: Seq<char>, rest: Seq<char>)
    requires
        forall|i: int| 0 <= i < label.len() ==> #[trigger] label[i] != '.',
    ensures
        !is_hostname(label + "."@),
        !is_hostname("."@ + rest),
        !is_hostname(label + ".."@ + rest),
        !is_hostname(Seq::empty()),
{
    reveal_strlit(".");
    reveal_strlit("..");
    let dot = seq!['.'];
    let none = Seq::<char>::empty();
    assert(dot[0] == '.');
    assert forall|i: int| 0 <= i < label.len() implies !dot.contains(#[trigger] label[i]) by {
        assert(label[i] != '.');
    }
    separators_part_the_pieces(label, '.', none, dot);
    separators_part_the_pieces(none, '.', none, dot);
    assert(label + "."@ =~= label + seq!['.'] + none);
    assert(split_at_any(label + "."@, dot)[1] == none);
    assert(!is_name_label(none));
    assert(("."@ + rest)[0] == '.');
    let tail = seq!['.'] + rest;
    separators_part_the_pieces(label, '.', tail, dot);
    separators_part_the_pieces(none, '.', rest, dot);
    assert(label + ".."@ + rest =~= label + seq!['.'] + tail);
    assert(none + seq!['.'] + rest =~= tail);
    assert(split_at_any(label + ".."@ + rest, dot)[1] == none);
}

/// A label is made of up to 63 letters, digits, hyphens and asterisks.
pub proof fn a_label_holds_name_characters(s: Seq<char>, i: int)
    requires
        0 <= i < s.len(),
    ensures
        is_name_label(s) ==> ('a' <= s[i] <= 'z' || 'A' <= s[i] <= 'Z' || '0' <= s[i] <= '9' || s[i]
            == '-' || s[i] == '*') && byte_len(s) <= 63,
        byte_len(s) <= 63 && (forall|k: int|
            0 <= k < s.len() ==> 'a' <= #[trigger] s[k] <= 'z' || 'A' <= s[k] <= 'Z' || '0' <= s[k]
                <= '9' || s[k] == '-' || s[k] == '*') ==> is_name_label(s),
{
}

/// A hostname holds nothing but letters, digits, hyphens, asterisks and dots, and
/// at most 253 bytes.
pub proof fn a_hostname_holds_nothing_else(s: Seq<char>, i: int)
    requires
        is_hostname(s),
        0 <= i < s.len(),
    ensures
        'a' <= s[i] <= 'z' || 'A' <= s[i] <= 'Z' || '0' <= s[i] <= '9' || s[i] == '-' || s[i] == '*'
            || s[i] == '.',
        byte_len(s) <= 253,
        s[0] != '.' && s[0] != '-' && s.last() != '-',
{
    lemma_characters_of_pieces(s, i);
}

proof fn lemma_characters_of_pieces(s: Seq<char>, i: int)
    requires
        0 <= i < s.len(),
        forall|k: int|
            0 <= k < split_at_any(s, seq!['.']).len() ==> is_name_label(
                #[trigger] split_at_any(s, seq!['.'])[k],
            ),
    ensures
        s[i] == '.' || 'a' <= s[i] <= 'z' || 'A' <= s[i] <= 'Z' || '0' <= s[i] <= '9' || s[i] == '-'
            || s[i] == '*',
    decreases s.len(),
{
    let dot = seq!['.'];
    let all = split_at_any(s, dot);
    lemma_first_sep(s, dot);
    let n = first_sep(s, dot);
    assert(is_name_label(all[0]));
    if n < s.len() {
        let rest = s.skip(n + 1);
        let more = split_at_any(rest, dot);
        assert(all == seq![s.take(n)] + more);
        assert forall|k: int| 0 <= k < more.len() implies is_name_label(#[trigger] more[k]) by {
            assert(all[k + 1] == more[k]);
        }
        if i < n {
            assert(all[0][i] == s[i]);
        } else if i > n {
            assert(rest[i - n - 1] == s[i]);
            lemma_characters_of_pieces(rest, i - n - 1);
        }
    } else {
        assert(all[0] == s);
    }
}

// ---- validation ----

/// Settings that are fine but for one value are refused for that value.
pub proof fn a_value_out_of_range_is_named(
    s: SettingsView,
    secs: u64,
    count: usize,
    size: usize,
    held: i64,
    per_hour: u32,
)
    requires
        settings_fault(s) is None,
    ensures
        !(60 <= secs <= 2_592_000) ==> settings_fault(SettingsView { retention_secs: secs, ..s })
            == Some("Retention must be between 60 seconds and 30 days"@),
        60 <= secs <= 2_592_000 ==> settings_fault(SettingsView { retention_secs: secs, ..s })
            is None,
        !(1 <= count <= 100_000) ==> settings_fault(SettingsView { mailbox_cap: count, ..s })
            == Some("Mailbox capacity must be between 1 and 100000"@),
        1 <= count <= 100_000 ==> settings_fault(SettingsView { mailbox_cap: count, ..s }) is None,
        !(1024 <= size <= 268_435_456) ==> settings_fault(
            SettingsView { max_message_size: size, ..s },
        ) == Some("Max message size must be between 1 KiB and 256 MiB"@),
        1024 <= size <= 268_435_456 ==> settings_fault(SettingsView { max_message_size: size, ..s })
            is None,
        !(1 <= held <= 1000) ==> settings_fault(SettingsView { max_credentials_per_user: held, ..s })
            == Some("Credentials per user must be between 1 and 1000"@),
        1 <= held <= 1000 ==> settings_fault(SettingsView { max_credentials_per_user: held, ..s })
            is None,
        !(1 <= per_hour <= 10_000) ==> settings_fault(
            SettingsView { registrations_per_hour: per_hour, ..s },
        ) == Some("Registrations per hour must be between 1 and 10000"@),
        1 <= per_hour <= 10_000 ==> settings_fault(
            SettingsView { registrations_per_hour: per_hour, ..s },
        ) is None,
{
}

/// The same of the hostname and the addresses.
pub proof fn a_bad_address_is_named(s: SettingsView, v: Seq<char>)
    requires
        settings_fault(s) is None,
    ensures
        !is_hostname(v) ==> settings_fault(SettingsView { hostname: v, ..s }) == Some(
            "Hostname must be a plain DNS name (letters, digits, - and .)"@,
        ),
        is_hostname(v) ==> settings_fault(SettingsView { hostname: v, ..s }) is None,
        settings_fault(SettingsView { smtp_addr: Seq::empty(), ..s }) == Some(
            "SMTP bind address cannot be empty"@,
        ),
        settings_fault(SettingsView { smtps_addr: Seq::empty(), ..s }) == Some(
            "SMTPS bind address cannot be empty"@,
        ),
        settings_fault(SettingsView { https_addr: Seq::empty(), ..s }) is None,
        settings_fault(SettingsView { smtps_addr: s.smtp_addr, ..s }) == Some(
            "SMTP and SMTPS cannot share the same bind address"@,
        ),
        settings_fault(SettingsView { https_addr: s.smtp_addr, ..s }) == Some(
            "HTTPS cannot share a bind address with an SMTP listener"@,
        ),
        settings_fault(SettingsView { https_addr: s.smtps_addr, ..s }) == Some(
            "HTTPS cannot share a bind address with an SMTP listener"@,
        ),
{
    reveal_strlit("SMTP bind address");
    reveal_strlit("SMTPS bind address");
    reveal_strlit(" cannot be empty");
    reveal_strlit("SMTP bind address cannot be empty");
    reveal_strlit("SMTPS bind address cannot be empty");
    assert("SMTP bind address"@ + " cannot be empty"@ =~= "SMTP bind address cannot be empty"@);
    assert("SMTPS bind address"@ + " cannot be empty"@ =~= "SMTPS bind address cannot be empty"@);
}

/// The first domain that is no domain is named.
pub proof fn the_first_bad_domain_is_named(
    s: SettingsView,
    before: Seq<Seq<char>>,
    bad: Seq<char>,
    after: Seq<Seq<char>>,
)
    requires
        settings_fault(s) is None,
        s.acme_enabled,
        forall|i: int| 0 <= i < before.len() ==> is_hostname(#[trigger] before[i]),
        !is_hostname(bad),
    ensures
        settings_fault(SettingsView { acme_domains: before + seq![bad] + after, ..s }) == Some(
            "'"@ + bad + "' is not a valid domain name"@,
        ),
{
    lemma_first_bad(before, bad, after);
    assert((before + seq![bad] + after)[before.len() as int] == bad);
}

proof fn lemma_first_bad(before: Seq<Seq<char>>, bad: Seq<char>, after: Seq<Seq<char>>)
    requires
        forall|i: int| 0 <= i < before.len() ==> is_hostname(#[trigger] before[i]),
        !is_hostname(bad),
    ensures
        first_bad_domain(before + seq![bad] + after) == before.len(),
    decreases before.len(),
{
    let all = before + seq![bad] + after;
    if before.len() == 0 {
        assert(all[0] == bad);
    } else {
        let rest = before.skip(1);
        assert(all[0] == before[0]);
        assert forall|i: int| 0 <= i < rest.len() implies is_hostname(#[trigger] rest[i]) by {
            assert(rest[i] == before[i + 1]);
        }
        lemma_first_bad(rest, bad, after);
        assert(all.skip(1) =~= rest + seq![bad] + after);
    }
}

/// The same of a certificate that is to be ordered; nothing of it matters while
/// none is.
pub proof fn a_bad_order_is_named(s: SettingsView, v: Seq<char>, days: i64)
    requires
        settings_fault(s) is None,
    ensures
        settings_fault(SettingsView { acme_enabled: false, ..s }) is None,
        s.acme_enabled ==> {
            &&& settings_fault(SettingsView { acme_domains: Seq::empty(), ..s }) == Some(
                "Let's Encrypt needs at least one domain"@,
            )
            &&& !is_hostname(v) ==> settings_fault(SettingsView { acme_domains: seq![v], ..s })
                == Some("'"@ + v + "' is not a valid domain name"@)
            &&& is_hostname(v) ==> settings_fault(SettingsView { acme_domains: seq![v], ..s })
                is None
            &&& settings_fault(SettingsView { acme_tos_agreed: false, ..s }) == Some(
                "You must accept the CA's terms of service to enable Let's Encrypt"@,
            )
            &&& !"https://"@.is_prefix_of(v) ==> settings_fault(
                SettingsView { acme_directory: v, ..s },
            ) == Some("The ACME directory must be an https:// URL"@)
            &&& "https://"@.is_prefix_of(v) ==> settings_fault(
                SettingsView { acme_directory: v, ..s },
            ) is None
            &&& v.len() > 0 && !v.contains('@') ==> settings_fault(
                SettingsView { acme_contact_email: v, ..s },
            ) == Some("The ACME contact must be an email address"@)
            &&& v.len() == 0 || v.contains('@') ==> settings_fault(
                SettingsView { acme_contact_email: v, ..s },
            ) is None
            &&& settings_fault(SettingsView { acme_http_addr: Seq::empty(), ..s }) == Some(
                "Let's Encrypt needs an HTTP-01 challenge bind address (usually 0.0.0.0:80)"@,
            )
            &&& !(1 <= days <= 80) ==> settings_fault(
                SettingsView { acme_renew_before_days: days, ..s },
            ) == Some("Renewal window must be between 1 and 80 days"@)
            &&& 1 <= days <= 80 ==> settings_fault(
                SettingsView { acme_renew_before_days: days, ..s },
            ) is None
        },
{
    validation_is_exact(s);
    validation_is_exact(SettingsView { acme_domains: seq![v], ..s });
    reveal_with_fuel(first_bad_domain, 3);
    assert(seq![v][0] == v);
}

} // verus!
