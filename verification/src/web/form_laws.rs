//! What the forms of the web UI accept, and where they lead.

use vstd::prelude::*;
use vstd::utf8::*;

use crate::db::User;
use crate::mib::mib_bytes;
use crate::password::argon2_accepts;
use crate::random::is_token;
use crate::settings::{domains_in, settings_fault, SettingsView};
use crate::text::{
    ascii_lower, byte_len, decimal, decimal_reads_back, is_digit, is_white, joined, signed_decimal,
    signed_decimal_reads_back, signed_number, trimmed, unsigned_number,
};
use crate::text_laws::{
    is_blank, is_tight, separators_part_the_pieces, trimming_takes_the_blanks_around,
};
use crate::web::accounts::{
    account_fault, admin_access, change_fault, is_credential_name, may_delete, registration_fault,
    setup_fault, signs_in, too_many_registrations, NewUser, Refusal,
};
use crate::web::forms::{
    cookie_in, err_location, first_value, is_username, ok_location, percent_byte, percent_bytes,
    percent_text, session_cookie, session_in, value_in,
};
use crate::web::settings_form::{
    consequences_of, not_a_number, reissue_notes, save_notes, save_refusal, saved_location,
    typed_number, typed_signed, SettingsForm,
};

verus! {

// ---- redirects ----

/// In a query string letters, digits and `-_.~` stand for themselves, and every
/// other byte is written with two hexadecimal digits.
pub proof fn a_query_is_written_byte_by_byte(a: Seq<u8>, b: Seq<u8>, x: u8)
    ensures
        percent_bytes(a + b) == percent_bytes(a) + percent_bytes(b),
        percent_bytes(seq![x]) == percent_byte(x),
        65 <= x <= 90 || 97 <= x <= 122 || 48 <= x <= 57 || x == 45 || x == 95 || x == 46 || x == 126
            ==> percent_byte(x) == seq![x as char],
        percent_byte(32) == seq!['%', '2', '0'],
        percent_byte(38) == seq!['%', '2', '6'],
        percent_byte(61) == seq!['%', '3', 'D'],
        percent_byte(37) == seq!['%', '2', '5'],
        percent_byte(10) == seq!['%', '0', 'A'],
        x >= 128 ==> percent_byte(x).len() == 3 && percent_byte(x)[0] == '%',
    decreases b.len(),
{
    assert(seq![x].drop_last() =~= Seq::<u8>::empty());
    assert(percent_bytes(Seq::<u8>::empty()) =~= Seq::empty());
    assert(percent_bytes(seq![x]) =~= percent_byte(x));
    if b.len() == 0 {
        assert(a + b =~= a);
        assert(percent_bytes(a) + percent_bytes(b) =~= percent_bytes(a));
    } else {
        a_query_is_written_byte_by_byte(a, b.drop_last(), x);
        assert((a + b).drop_last() =~= a + b.drop_last());
        assert((a + b).last() == b.last());
        assert(percent_bytes(a + b) =~= percent_bytes(a) + percent_bytes(b));
    }
}

/// A redirect goes to its page, and says whether its message is one or an error.
pub proof fn a_redirect_goes_to_its_page(path: Seq<char>, msg: Seq<char>)
    ensures
        ok_location(path, msg) == path + "?msg="@ + percent_text(msg),
        err_location(path, msg) == path + "?err="@ + percent_text(msg),
        percent_text(msg) == percent_bytes(encode_utf8(msg)),
{
}

// ---- accounts ----

/// A user name has from 3 to 32 letters, digits, underscores and hyphens.
pub proof fn a_username_has_its_shape(s: Seq<char>, i: int)
    requires
        0 <= i < s.len(),
    ensures
        is_username(s) ==> 3 <= byte_len(s) <= 32 && ('a' <= s[i] <= 'z' || 'A' <= s[i] <= 'Z'
            || '0' <= s[i] <= '9' || s[i] == '_' || s[i] == '-'),
        3 <= byte_len(s) <= 32 && (forall|k: int|
            0 <= k < s.len() ==> 'a' <= #[trigger] s[k] <= 'z' || 'A' <= s[k] <= 'Z' || '0' <= s[k]
                <= '9' || s[k] == '_' || s[k] == '-') ==> is_username(s),
{
}

/// A new account needs a user name and a password that will do; each is asked for
/// again on the page it came from.
pub proof fn a_new_account_is_checked(path: Seq<char>, username: Seq<char>, password: Seq<char>)
    ensures
        account_fault(path, username, password) is None <==> is_username(username) && 8 <= byte_len(
            password,
        ) <= 128,
        !is_username(username) ==> account_fault(path, username, password) == Some(
            path + "?err="@ + percent_text(
                "Username must be 3-32 characters: letters, digits, _ or -"@,
            ),
        ),
        is_username(username) && !(8 <= byte_len(password) <= 128) ==> account_fault(
            path,
            username,
            password,
        ) == Some(path + "?err="@ + percent_text("Password must be 8-128 characters"@)),
{
}

/// Anyone may register while registration is open, and nobody while it is closed.
pub proof fn registration_is_open_or_closed(username: Seq<char>, password: Seq<char>)
    ensures
        registration_fault(false, username, password) == Some(
            "/login"@ + "?err="@ + percent_text("Registration is closed on this server"@),
        ),
        registration_fault(true, username, password) is None <==> is_username(username) && 8
            <= byte_len(password) <= 128,
        registration_fault(true, username, password) == account_fault(
            "/register"@,
            username,
            password,
        ),
        too_many_registrations() == "/register"@ + "?err="@ + percent_text(
            "Too many registrations from your address; try again later"@,
        ),
{
}

/// A password is changed to one that was typed the same twice, that will do, and
/// that is another.
pub proof fn a_new_password_is_checked(current: Seq<char>, new: Seq<char>, confirm: Seq<char>)
    ensures
        change_fault(current, new, confirm) is None <==> new == confirm && new != current && 8
            <= byte_len(new) <= 128,
        new != confirm ==> change_fault(current, new, confirm) == Some(
            "/account"@ + "?err="@ + percent_text("The two new passwords do not match"@),
        ),
        new == confirm && !(8 <= byte_len(new) <= 128) ==> change_fault(current, new, confirm)
            == Some("/account"@ + "?err="@ + percent_text("Password must be 8-128 characters"@)),
        new == confirm && new == current && 8 <= byte_len(new) <= 128 ==> change_fault(
            current,
            new,
            confirm,
        ) == Some(
            "/account"@ + "?err="@ + percent_text("The new password is the same as the old one"@),
        ),
{
}

/// The admin account is set up with the setup token, with or without blanks around
/// it, once.
pub proof fn setup_takes_the_token(
    a: Seq<char>,
    token: Seq<char>,
    b: Seq<char>,
    given: Seq<char>,
    username: Seq<char>,
    password: Seq<char>,
)
    requires
        is_blank(a),
        is_tight(token),
        is_blank(b),
    ensures
        setup_fault(Some(token), a + token + b, username, password) == account_fault(
            "/setup"@,
            username,
            password,
        ),
        trimmed(given) != token ==> setup_fault(Some(token), given, username, password) == Some(
            "/setup"@ + "?err="@ + percent_text("Invalid setup token"@),
        ),
        setup_fault(None, given, username, password) == Some(
            "/login"@ + "?err="@ + percent_text("Admin account is already configured"@),
        ),
{
    trimming_takes_the_blanks_around(a, token, b);
}

/// Whoever signs in is the user with that name, and has given their password.
pub proof fn only_a_password_signs_in(
    r: Result<User, String>,
    lookup: Result<Option<User>, String>,
    password: Seq<char>,
)
    requires
        signs_in(r, lookup, password),
    ensures
        r is Ok <==> lookup is Ok && lookup->Ok_0 is Some && argon2_accepts(
            password,
            lookup->Ok_0->0.password_hash@,
        ),
        r is Ok ==> r->Ok_0 == lookup->Ok_0->0,
        lookup is Ok && r is Err ==> r->Err_0@ == "/login"@ + "?err="@ + percent_text(
            "Invalid username or password"@,
        ),
        lookup is Err ==> r is Err && r->Err_0@ == "/login"@ + "?err="@ + percent_text(
            "Internal error, please try again"@,
        ),
{
}

/// The admin pages are for admins: anybody else is turned away, and asked to sign in
/// if they have not.
pub proof fn the_admin_pages_are_for_admins(user: User)
    ensures
        user.is_admin ==> admin_access(Some(user)) == Ok::<User, Refusal>(user),
        !user.is_admin ==> admin_access(Some(user)) == Err::<User, Refusal>(Refusal::AdminOnly),
        admin_access(None) == Err::<User, Refusal>(Refusal::SignIn),
{
}

/// An admin may delete anybody but an admin, themselves among them.
pub proof fn admins_are_not_deleted(admin: User, target: User)
    ensures
        target.is_admin ==> !may_delete(admin, target),
        target.id == admin.id ==> !may_delete(admin, target),
        !target.is_admin && target.id != admin.id ==> may_delete(admin, target),
{
}

/// A new account goes by the name that was asked for, and opens with the password.
pub proof fn an_account_opens_with_its_password(
    n: NewUser,
    username: Seq<char>,
    password: Seq<char>,
)
    ensures
        n.opens_with(username, password) <==> n.username@ == username && argon2_accepts(
            password,
            n.password_hash@,
        ),
{
}

/// The name of a credential is `sv_` and ten small letters and digits.
pub proof fn a_credential_name_has_its_shape(tail: Seq<char>)
    requires
        tail.len() == 10,
        forall|i: int| 0 <= i < 10 ==> 'a' <= #[trigger] tail[i] <= 'z' || '0' <= tail[i] <= '9',
    ensures
        is_credential_name("sv_"@ + tail),
        !is_credential_name(tail),
{
    reveal_strlit("sv_");
    let s = "sv_"@ + tail;
    assert(s.subrange(0, 3) =~= "sv_"@);
    assert forall|i: int| 3 <= i < 13 implies 'a' <= #[trigger] s[i] <= 'z' || '0' <= s[i]
        <= '9' by {
        assert(s[i] == tail[i - 3]);
    }
}

/// Nothing but a name of that shape is one.
pub proof fn only_a_credential_name_is_one(s: Seq<char>, i: int)
    requires
        is_credential_name(s),
    ensures
        s.len() == 13,
        s.take(3) == "sv_"@,
        3 <= i < 13 ==> 'a' <= s[i] <= 'z' || '0' <= s[i] <= '9',
{
    reveal_strlit("sv_");
    assert(s.take(3) =~= "sv_"@);
}

/// A token has as many letters and digits as were asked for.
pub proof fn a_token_has_its_length(s: Seq<char>, n: nat)
    ensures
        is_token(s, n) <==> s.len() == n && forall|i: int|
            0 <= i < s.len() ==> 'a' <= #[trigger] s[i] <= 'z' || 'A' <= s[i] <= 'Z' || '0' <= s[i]
                <= '9',
{
}

// ---- cookies ----

/// A cookie is found among others by its name: the first with the name counts, and
/// blanks around it do not.
pub proof fn a_cookie_is_found_among_others(
    others: Seq<Seq<char>>,
    a: Seq<char>,
    name: Seq<char>,
    value: Seq<char>,
    b: Seq<char>,
    rest: Seq<Seq<char>>,
)
    requires
        forall|i: int| 0 <= i < others.len() ==> value_in(#[trigger] others[i], name) is None,
        is_blank(a),
        is_tight(name + "="@ + value),
        is_blank(b),
    ensures
        first_value(others + seq![a + (name + "="@ + value) + b] + rest, name) == Some(value),
        first_value(others, name) is None,
    decreases others.len(),
{
    reveal_strlit("=");
    let cookie = a + (name + "="@ + value) + b;
    let all = others + seq![cookie] + rest;
    if others.len() == 0 {
        assert(all[0] == cookie);
        trimming_takes_the_blanks_around(a, name + "="@ + value, b);
        assert((name + "="@ + value).subrange(0, (name + "="@).len() as int) =~= name + "="@);
        assert((name + "="@ + value).skip(name.len() as int + 1) =~= value);
    } else {
        let less = others.skip(1);
        assert(all[0] == others[0]);
        assert(value_in(others[0], name) is None);
        assert forall|i: int| 0 <= i < less.len() implies value_in(#[trigger] less[i], name)
            is None by {
            assert(less[i] == others[i + 1]);
        }
        a_cookie_is_found_among_others(less, a, name, value, b, rest);
        assert(all.skip(1) =~= less + seq![cookie] + rest);
    }
}

/// The session is read from the cookie `svsession`, which may stand behind another
/// one.
pub proof fn the_session_is_read_from_its_cookie(other: Seq<char>, token: Seq<char>)
    requires
        forall|i: int| 0 <= i < other.len() ==> #[trigger] other[i] != ';',
        value_in(other, "svsession"@) is None,
        token.len() > 0,
        forall|i: int|
            0 <= i < token.len() ==> !is_white(#[trigger] token[i]) && token[i] != ';',
    ensures
        session_in(Some("svsession="@ + token)) == Some(token),
        session_in(Some(other + "; svsession="@ + token)) == Some(token),
        session_in(Some(other)) is None,
        session_in(None) is None,
{
    reveal_strlit("svsession");
    reveal_strlit("=");
    reveal_strlit("svsession=");
    reveal_strlit("; svsession=");
    let name = "svsession"@;
    let pair = name + "="@ + token;
    let seps = seq![';'];
    assert(seps[0] == ';');
    assert("svsession="@ + token =~= pair);
    assert forall|i: int| 0 <= i < pair.len() implies !seps.contains(#[trigger] pair[i]) by {
        if i < 9 {
            assert(pair[i] == name[i]);
        } else if i > 9 {
            assert(pair[i] == token[i - 10]);
            assert(token[i - 10] != ';');
        }
    }
    assert forall|i: int| 0 <= i < other.len() implies !seps.contains(#[trigger] other[i]) by {
        assert(other[i] != ';');
    }
    let spaced = seq![' '] + pair;
    assert forall|i: int| 0 <= i < spaced.len() implies !seps.contains(#[trigger] spaced[i]) by {
        if i > 0 {
            assert(spaced[i] == pair[i - 1]);
        }
    }
    let none = Seq::<char>::empty();
    let no_pieces = Seq::<Seq<char>>::empty();
    assert(!is_white(token[token.len() - 1]));
    assert(pair[0] == 's' && !is_white('s'));
    assert(pair.last() == token.last());
    assert(is_tight(pair));
    separators_part_the_pieces(pair, ';', none, seps);
    a_cookie_is_found_among_others(no_pieces, none, name, token, none, no_pieces);
    assert(none + pair + none =~= pair);
    assert(no_pieces + seq![pair] + no_pieces =~= seq![pair]);
    separators_part_the_pieces(other, ';', spaced, seps);
    separators_part_the_pieces(spaced, ';', none, seps);
    assert(other + "; svsession="@ + token =~= other + seq![';'] + spaced);
    let blank = seq![' '];
    assert(blank + pair + none =~= spaced);
    assert(is_blank(blank));
    assert forall|i: int| 0 <= i < seq![other].len() implies value_in(
        #[trigger] seq![other][i],
        name,
    ) is None by {
        assert(seq![other][i] == other);
    }
    a_cookie_is_found_among_others(seq![other], blank, name, token, none, no_pieces);
    assert(seq![other] + seq![spaced] + no_pieces =~= seq![other] + seq![spaced]);
    assert(cookie_in(other, name) == first_value(seq![other], name));
}

/// A session cookie holds its token for seven days, out of reach of scripts and of
/// other sites, and only over TLS if that is asked for.
pub proof fn a_session_cookie_is_kept_apart(token: Seq<char>)
    ensures
        session_cookie(token, false) == "svsession"@ + "="@ + token
            + "; Path=/; HttpOnly; SameSite=Strict; Max-Age="@ + decimal(604_800) + ""@,
        session_cookie(token, true) == "svsession"@ + "="@ + token
            + "; Path=/; HttpOnly; SameSite=Strict; Max-Age="@ + decimal(604_800) + "; Secure"@,
{
}

// ---- the settings form ----

/// A number is typed with or without blanks around it, and has to fit.
pub proof fn a_number_is_typed(a: Seq<char>, n: nat, i: int, b: Seq<char>, max: int)
    requires
        is_blank(a),
        is_blank(b),
    ensures
        n <= max ==> typed_number(a + decimal(n) + b, max) == Some(n),
        n > max ==> typed_number(a + decimal(n) + b, max) is None,
        i64::MIN <= i <= i64::MAX ==> typed_signed(a + signed_decimal(i) + b) == Some(i),
        !(i64::MIN <= i <= i64::MAX) ==> typed_signed(a + signed_decimal(i) + b) is None,
{
    decimal_reads_back(n);
    signed_decimal_reads_back(i);
    lemma_decimal_is_tight(n);
    trimming_takes_the_blanks_around(a, decimal(n), b);
    let d = signed_decimal(i);
    if i < 0 {
        lemma_decimal_is_tight((-i) as nat);
        decimal_reads_back((-i) as nat);
        assert(d[0] == '-' && !is_white('-'));
        assert(d.last() == decimal((-i) as nat).last());
    } else {
        lemma_decimal_is_tight(i as nat);
    }
    trimming_takes_the_blanks_around(a, d, b);
}

proof fn lemma_decimal_is_tight(n: nat)
    ensures
        is_tight(decimal(n)),
        decimal(n).len() > 0,
{
    decimal_reads_back(n);
    let d = decimal(n);
    assert(is_digit(d[0]));
    assert(is_digit(d[d.len() - 1]));
}

/// A form with its numbers typed as numbers has nothing wrong with it, and is read
/// as what was typed, without the blanks around it: every field for its own setting,
/// the hostname in lower case, a switch on if its box is ticked.
pub proof fn a_form_is_read_field_by_field(
    form: SettingsForm,
    retention: u64,
    cap: usize,
    held: i64,
    per_hour: u32,
    days: i64,
)
    requires
        trimmed(form.retention_secs@) == decimal(retention as nat),
        trimmed(form.mailbox_cap@) == decimal(cap as nat),
        trimmed(form.max_credentials_per_user@) == signed_decimal(held as int),
        trimmed(form.registrations_per_hour@) == decimal(per_hour as nat),
        trimmed(form.acme_renew_before_days@) == signed_decimal(days as int),
        mib_bytes(form.max_message_size@) is Some,
    ensures
        form.fault() is None,
        form.settings() == (SettingsView {
            hostname: ascii_lower(trimmed(form.hostname@)),
            smtp_addr: trimmed(form.smtp_addr@),
            smtps_addr: trimmed(form.smtps_addr@),
            https_addr: trimmed(form.https_addr@),
            retention_secs: retention,
            mailbox_cap: cap,
            max_message_size: mib_bytes(form.max_message_size@)->0,
            max_credentials_per_user: held,
            cookie_secure: form.cookie_secure is Some,
            registration_open: form.registration_open is Some,
            registrations_per_hour: per_hour,
            acme_enabled: form.acme_enabled is Some,
            acme_directory: trimmed(form.acme_directory@),
            acme_contact_email: trimmed(form.acme_contact_email@),
            acme_domains: domains_in(form.acme_domains@),
            acme_http_addr: trimmed(form.acme_http_addr@),
            acme_tos_agreed: form.acme_tos_agreed is Some,
            acme_renew_before_days: days,
        }),
{
    decimal_reads_back(retention as nat);
    decimal_reads_back(cap as nat);
    decimal_reads_back(per_hour as nat);
    signed_decimal_reads_back(held as int);
    signed_decimal_reads_back(days as int);
}

/// A field that should hold a number and does not is named.
pub proof fn a_field_without_a_number_is_named(form: SettingsForm)
    ensures
        unsigned_number(trimmed(form.retention_secs@)) is None ==> form.fault() == Some(
            "Retention"@ + " must be a whole number"@,
        ),
        form.fault() is None ==> {
            &&& unsigned_number(trimmed(form.retention_secs@)) is Some
            &&& unsigned_number(trimmed(form.mailbox_cap@)) is Some
            &&& mib_bytes(form.max_message_size@) is Some
            &&& signed_number(trimmed(form.max_credentials_per_user@)) is Some
            &&& unsigned_number(trimmed(form.registrations_per_hour@)) is Some
            &&& signed_number(trimmed(form.acme_renew_before_days@)) is Some
        },
        form.fault() matches Some(e) ==> e == "Retention"@ + " must be a whole number"@ || e
            == "Mailbox capacity"@ + " must be a whole number"@ || e
            == "Max message size must be a number of mebibytes"@ || e == "Credentials per user"@
            + " must be a whole number"@ || e == "Registrations per hour"@
            + " must be a whole number"@ || e == "Renewal window"@ + " must be a whole number"@,
        not_a_number("Retention"@) == "Retention"@ + " must be a whole number"@,
{
}

/// A form is saved exactly if its numbers are numbers, its settings are valid and
/// they differ from those in place; it is told otherwise.
pub proof fn a_form_is_saved_if_it_changes_something(form: SettingsForm, old: SettingsView)
    ensures
        save_refusal(form, old) is None <==> form.fault() is None && settings_fault(form.settings())
            is None && form.settings() != old,
        form.fault() matches Some(e) ==> save_refusal(form, old) == Some(
            "/admin/settings"@ + "?err="@ + percent_text(e),
        ),
        form.fault() is None && settings_fault(form.settings()) is Some ==> save_refusal(form, old)
            == Some(
            "/admin/settings"@ + "?err="@ + percent_text(settings_fault(form.settings())->0),
        ),
        form.fault() is None && settings_fault(form.settings()) is None && form.settings() == old
            ==> save_refusal(form, old) == Some(
            "/admin/settings"@ + "?msg="@ + percent_text("No changes to save"@),
        ),
{
}

/// A certificate is ordered when ordering is switched on, and when the domains or
/// the directory change while it is on. A self-signed certificate is made anew when
/// the hostname changes while it is off.
pub proof fn a_change_has_its_consequences(
    old: SettingsView,
    new: SettingsView,
    self_signed: bool,
)
    ensures
        !new.acme_enabled ==> !consequences_of(old, new, self_signed).order,
        new.acme_enabled && !old.acme_enabled ==> consequences_of(old, new, self_signed).order,
        new.acme_enabled && old.acme_domains != new.acme_domains ==> consequences_of(
            old,
            new,
            self_signed,
        ).order,
        new.acme_enabled && old.acme_directory != new.acme_directory ==> consequences_of(
            old,
            new,
            self_signed,
        ).order,
        old.acme_enabled && old.acme_domains == new.acme_domains && old.acme_directory
            == new.acme_directory ==> !consequences_of(old, new, self_signed).order,
        self_signed && !new.acme_enabled && old.hostname != new.hostname ==> consequences_of(
            old,
            new,
            self_signed,
        ).reissue,
        !self_signed ==> !consequences_of(old, new, self_signed).reissue,
        new.acme_enabled ==> !consequences_of(old, new, self_signed).reissue,
        old.hostname == new.hostname ==> !consequences_of(old, new, self_signed).reissue,
{
}

/// What was saved is told, with what was done about it and what went wrong.
pub proof fn what_was_saved_is_told(
    hostname: Seq<char>,
    reissued: Option<bool>,
    ordered: bool,
    problems: Seq<Seq<char>>,
)
    ensures
        reissue_notes(hostname, None) == Seq::<Seq<char>>::empty(),
        reissue_notes(hostname, Some(true)) == seq![
            "reissued the self-signed certificate for "@ + hostname,
        ],
        reissue_notes(hostname, Some(false)) == seq![
            "could not reissue the self-signed certificate"@,
        ],
        save_notes(hostname, reissued, false) == reissue_notes(hostname, reissued),
        save_notes(hostname, reissued, true) == reissue_notes(hostname, reissued) + seq![
            "requesting a certificate from the CA in the background"@,
        ],
        problems.len() > 0 ==> saved_location(hostname, reissued, ordered, problems)
            == "/admin/settings"@ + "?err="@ + percent_text(
            "Saved, but: "@ + joined(problems, "; "@),
        ),
        problems.len() == 0 && reissued is None && !ordered ==> saved_location(
            hostname,
            reissued,
            ordered,
            problems,
        ) == "/admin/settings"@ + "?msg="@ + percent_text("Settings saved and applied"@),
        problems.len() == 0 && (reissued is Some || ordered) ==> saved_location(
            hostname,
            reissued,
            ordered,
            problems,
        ) == "/admin/settings"@ + "?msg="@ + percent_text(
            "Settings saved - "@ + joined(save_notes(hostname, reissued, ordered), "; "@),
        ),
{
}

} // verus!
