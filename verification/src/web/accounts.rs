//! Accounts in the browser: registering, signing in, changing a password, the
//! first admin, and who may do what.

use vstd::prelude::*;
use vstd::string::*;

use crate::cli::{is_password_length, password_fits};
use crate::config::now_unix;
use crate::db::User;
use crate::mailstore::{mailbox, without_id, MailStore};
use crate::password::{
    argon2_accepts, hash_password, sign_in, verify_password, MAX_PASSWORD_BYTES,
};
use crate::random::{is_alphanumeric, is_token, random_token};
use crate::state::{after_attempt, sessions_without, token_matches, window_of, Sessions, Throttle};
use crate::text::{
    ascii_lower, byte_len, opt_str, opt_text, same, to_ascii_lowercase, trim, trimmed,
};
use crate::web::forms::{
    err_location, is_username, ok_location, redirect_err, redirect_ok, valid_username,
};

verus! {

// ---- making an account ----

/// An account to create.
#[derive(Debug, Clone)]
pub struct NewUser {
    pub username: String,
    pub password_hash: String,
}

impl NewUser {
    /// Whether this is an account of that name, which that password opens.
    pub open spec fn opens_with(&self, username: Seq<char>, password: Seq<char>) -> bool {
        &&& self.username@ == username
        &&& argon2_accepts(password, self.password_hash@)
    }
}

/// What is wrong with the name or the password of an account that is to be made
/// on the page `path`: where the request goes instead.
pub open spec fn account_fault(
    path: Seq<char>,
    username: Seq<char>,
    password: Seq<char>,
) -> Option<Seq<char>> {
    if !is_username(username) {
        Some(err_location(path, "Username must be 3-32 characters: letters, digits, _ or -"@))
    } else if !is_password_length(password) {
        Some(err_location(path, "Password must be 8-128 characters"@))
    } else {
        None
    }
}

fn check_account(path: &str, username: &str, password: &str) -> (r: Option<String>)
    ensures
        opt_text(r) == account_fault(path@, username@, password@),
{
    if !valid_username(username) {
        return Some(
            redirect_err(path, "Username must be 3-32 characters: letters, digits, _ or -"),
        );
    }
    if !password_fits(password) {
        return Some(redirect_err(path, "Password must be 8-128 characters"));
    }
    None
}

/// The account to create on the page `path`, given how hashing its password went.
pub fn account_of(path: &str, username: String, hashed: Result<String, String>) -> (r: Result<
    NewUser,
    String,
>)
    ensures
        match hashed {
            Ok(h) => r is Ok && r->Ok_0.username@ == username@ && r->Ok_0.password_hash@ == h@,
            Err(_) => r is Err && r->Err_0@ == err_location(
                path@,
                "Internal error, please try again"@,
            ),
        },
{
    match hashed {
        Ok(password_hash) => Ok(NewUser { username, password_hash }),
        Err(_) => Err(redirect_err(path, "Internal error, please try again")),
    }
}

// ---- registering ----

pub const REGISTRATION_CLOSED: &'static str = "Registration is closed on this server";

/// Where a visitor of the registration form goes instead, if registration is
/// closed.
pub fn register_form(open: bool) -> (r: Option<String>)
    ensures
        opt_text(r) == (if open {
            None
        } else {
            Some(err_location("/login"@, REGISTRATION_CLOSED@))
        }),
{
    if open {
        None
    } else {
        Some(redirect_err("/login", REGISTRATION_CLOSED))
    }
}

/// Why a registration is turned away before it counts as an attempt.
pub open spec fn registration_fault(
    open: bool,
    username: Seq<char>,
    password: Seq<char>,
) -> Option<Seq<char>> {
    if !open {
        Some(err_location("/login"@, REGISTRATION_CLOSED@))
    } else {
        account_fault("/register"@, username, password)
    }
}

/// Where a client goes that has registered too often.
pub open spec fn too_many_registrations() -> Seq<char> {
    err_location(
        "/register"@,
        "Too many registrations from your address; try again later"@,
    )
}

/// Whether a registration at `now` may go on: the name of the account to create, or
/// where the request goes instead. Only a registration that could succeed counts as
/// an attempt.
pub fn admit_registration_at(
    open: bool,
    throttle: &mut Throttle,
    limit: u32,
    client: &str,
    username: &str,
    password: &str,
    now: i64,
) -> (r: Result<String, String>)
    requires
        old(throttle).wf(),
    ensures
        final(throttle).wf(),
        match registration_fault(open, trimmed(username@), password@) {
            Some(to) => r is Err && r->Err_0@ == to && final(throttle)@ == old(throttle)@,
            None => {
                &&& final(throttle)@ == after_attempt(old(throttle)@, client@, limit, now)
                &&& if window_of(old(throttle)@, client@, now).1 >= limit {
                    r is Err && r->Err_0@ == too_many_registrations()
                } else {
                    r is Ok && r->Ok_0@ == trimmed(username@)
                }
            },
        },
{
    if !open {
        return Err(redirect_err("/login", REGISTRATION_CLOSED));
    }
    let username = trim(username);
    if let Some(to) = check_account("/register", username.as_str(), password) {
        return Err(to);
    }
    if !throttle.allow_registration_at(client, limit, now) {
        return Err(
            redirect_err(
                "/register",
                "Too many registrations from your address; try again later",
            ),
        );
    }
    Ok(username)
}

/// Whether a registration may go on: the name of the account to create, or where the
/// request goes instead.
pub fn admit_registration(
    open: bool,
    throttle: &mut Throttle,
    limit: u32,
    client: &str,
    username: &str,
    password: &str,
) -> (r: Result<String, String>)
    requires
        old(throttle).wf(),
    ensures
        final(throttle).wf(),
        match registration_fault(open, trimmed(username@), password@) {
            Some(to) => r is Err && r->Err_0@ == to && final(throttle)@ == old(throttle)@,
            None => exists|now: i64|
                {
                    &&& final(throttle)@ == #[trigger] after_attempt(
                        old(throttle)@,
                        client@,
                        limit,
                        now,
                    )
                    &&& if window_of(old(throttle)@, client@, now).1 >= limit {
                        r is Err && r->Err_0@ == too_many_registrations()
                    } else {
                        r is Ok && r->Ok_0@ == trimmed(username@)
                    }
                },
        },
{
    let now = now_unix();
    admit_registration_at(open, throttle, limit, client, username, password, now)
}

/// The account to create for a registration that may go on.
pub fn open_account(username: String, password: &str) -> (r: Result<NewUser, String>)
    ensures
        if byte_len(password@) <= MAX_PASSWORD_BYTES {
            r is Ok && r->Ok_0.opens_with(username@, password@)
        } else {
            r is Err && r->Err_0@ == err_location(
                "/register"@,
                "Internal error, please try again"@,
            )
        },
{
    account_of("/register", username, hash_password(password))
}

/// A registration at `now`: the account to create, or where the request goes
/// instead. Only a registration that could succeed counts as an attempt.
pub fn register_at(
    open: bool,
    throttle: &mut Throttle,
    limit: u32,
    client: &str,
    username: &str,
    password: &str,
    now: i64,
) -> (r: Result<NewUser, String>)
    requires
        old(throttle).wf(),
    ensures
        final(throttle).wf(),
        match registration_fault(open, trimmed(username@), password@) {
            Some(to) => r is Err && r->Err_0@ == to && final(throttle)@ == old(throttle)@,
            None => {
                &&& final(throttle)@ == after_attempt(old(throttle)@, client@, limit, now)
                &&& if window_of(old(throttle)@, client@, now).1 >= limit {
                    r is Err && r->Err_0@ == too_many_registrations()
                } else {
                    r is Ok && r->Ok_0.opens_with(trimmed(username@), password@)
                }
            },
        },
{
    let admitted = admit_registration_at(open, throttle, limit, client, username, password, now);
    match admitted {
        Ok(name) => open_account(name, password),
        Err(to) => Err(to),
    }
}

/// A registration: the account to create, or where the request goes instead.
pub fn register(
    open: bool,
    throttle: &mut Throttle,
    limit: u32,
    client: &str,
    username: &str,
    password: &str,
) -> (r: Result<NewUser, String>)
    requires
        old(throttle).wf(),
    ensures
        final(throttle).wf(),
        match registration_fault(open, trimmed(username@), password@) {
            Some(to) => r is Err && r->Err_0@ == to && final(throttle)@ == old(throttle)@,
            None => exists|now: i64|
                {
                    &&& final(throttle)@ == #[trigger] after_attempt(
                        old(throttle)@,
                        client@,
                        limit,
                        now,
                    )
                    &&& if window_of(old(throttle)@, client@, now).1 >= limit {
                        r is Err && r->Err_0@ == too_many_registrations()
                    } else {
                        r is Ok && r->Ok_0.opens_with(trimmed(username@), password@)
                    }
                },
        },
{
    let now = now_unix();
    register_at(open, throttle, limit, client, username, password, now)
}

/// Where a new account lands.
pub const WELCOME: &'static str = "/dashboard?msg=Welcome%20to%20SMTPVoid";

/// The account that was created, or where the request goes instead.
pub fn registered(created: Result<i64, String>) -> (r: Result<i64, String>)
    ensures
        match created {
            Ok(id) => r == Ok::<i64, String>(id),
            Err(e) => r is Err && r->Err_0@ == err_location("/register"@, e@),
        },
{
    match created {
        Ok(id) => Ok(id),
        Err(e) => Err(redirect_err("/register", e.as_str())),
    }
}

// ---- signing in ----

/// The name to look up for what was typed into the form.
pub fn typed_username(username: &str) -> (r: String)
    ensures
        r@ == trimmed(username@),
{
    trim(username)
}

/// Whether `r` is what an attempt to sign in comes to.
pub open spec fn signs_in(
    r: Result<User, String>,
    lookup: Result<Option<User>, String>,
    password: Seq<char>,
) -> bool {
    match lookup {
        Err(_) => r is Err && r->Err_0@ == err_location(
            "/login"@,
            "Internal error, please try again"@,
        ),
        Ok(Some(user)) if argon2_accepts(password, user.password_hash@) => r == Ok::<User, String>(
            user,
        ),
        Ok(_) => r is Err && r->Err_0@ == err_location(
            "/login"@,
            "Invalid username or password"@,
        ),
    }
}

/// Who signs in, or where the request goes instead, given what the database holds
/// under the name.
pub fn login(lookup: Result<Option<User>, String>, password: &str, dummy: &str) -> (r: Result<
    User,
    String,
>)
    ensures
        match lookup {
            Err(_) => r is Err && r->Err_0@ == err_location(
                "/login"@,
                "Internal error, please try again"@,
            ),
            Ok(Some(user)) if argon2_accepts(password@, user.password_hash@) => r == Ok::<
                User,
                String,
            >(user),
            Ok(_) => r is Err && r->Err_0@ == err_location(
                "/login"@,
                "Invalid username or password"@,
            ),
        },
        signs_in(r, lookup, password@),
{
    let user = match lookup {
        Ok(u) => u,
        Err(_) => return Err(redirect_err("/login", "Internal error, please try again")),
    };
    match sign_in(user, password, dummy) {
        Some(u) => Ok(u),
        None => Err(redirect_err("/login", "Invalid username or password")),
    }
}

// ---- changing a password ----

/// What is wrong with a new password: where the request goes instead.
pub open spec fn change_fault(
    current: Seq<char>,
    new: Seq<char>,
    confirm: Seq<char>,
) -> Option<Seq<char>> {
    if new != confirm {
        Some(err_location("/account"@, "The two new passwords do not match"@))
    } else if !is_password_length(new) {
        Some(err_location("/account"@, "Password must be 8-128 characters"@))
    } else if new == current {
        Some(err_location("/account"@, "The new password is the same as the old one"@))
    } else {
        None
    }
}

/// The hash to store for a user's new password, or where the request goes
/// instead. SMTP credentials have their own passwords and are left alone.
pub fn change_password(user: &User, current: &str, new: &str, confirm: &str) -> (r: Result<
    String,
    String,
>)
    ensures
        match change_fault(current@, new@, confirm@) {
            Some(to) => r is Err && r->Err_0@ == to,
            None => if !argon2_accepts(current@, user.password_hash@) {
                r is Err && r->Err_0@ == err_location(
                    "/account"@,
                    "Current password is not correct"@,
                )
            } else {
                r is Ok && argon2_accepts(new@, r->Ok_0@)
            },
        },
{
    if !same(new, confirm) {
        return Err(redirect_err("/account", "The two new passwords do not match"));
    }
    if !password_fits(new) {
        return Err(redirect_err("/account", "Password must be 8-128 characters"));
    }
    if same(new, current) {
        return Err(redirect_err("/account", "The new password is the same as the old one"));
    }
    if !verify_password(current, user.password_hash.as_str()) {
        return Err(redirect_err("/account", "Current password is not correct"));
    }
    match hash_password(new) {
        Ok(h) => Ok(h),
        Err(_) => Err(redirect_err("/account", "Internal error, please try again")),
    }
}

/// Where a password change goes, given how storing it went. Every other session
/// of the user was opened with the old password and ends; the one that made the
/// change stays.
pub fn password_changed(
    stored: Result<bool, String>,
    sessions: &mut Sessions,
    user_id: i64,
    this_session: Option<&str>,
) -> (r: String)
    requires
        old(sessions).wf(),
    ensures
        final(sessions).wf(),
        match stored {
            Ok(true) => r@ == ok_location("/account"@, "Password changed"@) && final(sessions)@
                == sessions_without(old(sessions)@, user_id, opt_str(this_session)),
            Ok(false) => r@ == err_location("/account"@, "Account no longer exists"@)
                && final(sessions)@ == old(sessions)@,
            Err(_) => r@ == err_location(
                "/account"@,
                "Could not change the password, please try again"@,
            ) && final(sessions)@ == old(sessions)@,
        },
{
    match stored {
        Ok(true) => {
            sessions.drop_user_sessions(user_id, this_session);
            redirect_ok("/account", "Password changed")
        },
        Ok(false) => redirect_err("/account", "Account no longer exists"),
        Err(_) => redirect_err("/account", "Could not change the password, please try again"),
    }
}

// ---- the first admin ----

pub const ALREADY_CONFIGURED: &'static str = "Admin account is already configured";

/// Where a visitor of the setup form goes instead, if there is no setup token.
pub fn setup_form(expected: &Option<String>) -> (r: Option<String>)
    ensures
        opt_text(r) == (if expected is Some {
            None
        } else {
            Some(err_location("/login"@, ALREADY_CONFIGURED@))
        }),
{
    match expected {
        Some(_) => None,
        None => Some(redirect_err("/login", ALREADY_CONFIGURED)),
    }
}

/// Why an attempt to set up the admin account is turned away.
pub open spec fn setup_fault(
    expected: Option<Seq<char>>,
    token: Seq<char>,
    username: Seq<char>,
    password: Seq<char>,
) -> Option<Seq<char>> {
    match expected {
        None => Some(err_location("/login"@, ALREADY_CONFIGURED@)),
        Some(t) => if trimmed(token) != t {
            Some(err_location("/setup"@, "Invalid setup token"@))
        } else {
            account_fault("/setup"@, username, password)
        },
    }
}

/// The admin account to create, or where the request goes instead.
pub fn setup_submit(
    expected: &Option<String>,
    token: &str,
    username: &str,
    password: &str,
) -> (r: Result<NewUser, String>)
    ensures
        match setup_fault(opt_text(*expected), token@, trimmed(username@), password@) {
            Some(to) => r is Err && r->Err_0@ == to,
            None => r is Ok && r->Ok_0.opens_with(trimmed(username@), password@),
        },
{
    let expected = match expected {
        Some(t) => t,
        None => return Err(redirect_err("/login", ALREADY_CONFIGURED)),
    };
    if !token_matches(token, expected.as_str()) {
        return Err(redirect_err("/setup", "Invalid setup token"));
    }
    let username = trim(username);
    if let Some(to) = check_account("/setup", username.as_str(), password) {
        return Err(to);
    }
    account_of("/setup", username, hash_password(password))
}

/// Where the setup goes, given how creating the account went. With an admin
/// account the token is spent.
pub fn admin_created(created: Result<i64, String>, token: &mut Option<String>) -> (r: String)
    ensures
        match created {
            Ok(_) => r@ == ok_location(
                "/login"@,
                "Admin account created - you can sign in now"@,
            ) && *final(token) == None::<String>,
            Err(e) => r@ == err_location("/setup"@, e@) && *final(token) == *old(token),
        },
{
    match created {
        Ok(_) => {
            *token = None;
            redirect_ok("/login", "Admin account created - you can sign in now")
        },
        Err(e) => redirect_err("/setup", e.as_str()),
    }
}

// ---- who may do what ----

/// The answer to somebody who may not see a page.
#[derive(Debug, Clone, Copy, PartialEq, Eq, Structural)]
pub enum Refusal {
    /// The page is for admins.
    AdminOnly,
    /// The page is for people who have signed in.
    SignIn,
}

/// The page that somebody is sent to who has not signed in.
pub const SIGN_IN: &'static str = "/login";

/// The signed-in admin, or the answer to send instead.
pub open spec fn admin_access(user: Option<User>) -> Result<User, Refusal> {
    match user {
        Some(u) => if u.is_admin {
            Ok::<User, Refusal>(u)
        } else {
            Err::<User, Refusal>(Refusal::AdminOnly)
        },
        None => Err::<User, Refusal>(Refusal::SignIn),
    }
}

/// The signed-in admin, or the answer to send instead.
pub fn require_admin(user: Option<User>) -> (r: Result<User, Refusal>)
    ensures
        r == (match user {
            Some(u) => if u.is_admin {
                Ok::<User, Refusal>(u)
            } else {
                Err::<User, Refusal>(Refusal::AdminOnly)
            },
            None => Err::<User, Refusal>(Refusal::SignIn),
        }),
        r == admin_access(user),
{
    match user {
        Some(u) => if u.is_admin {
            Ok(u)
        } else {
            Err(Refusal::AdminOnly)
        },
        None => Err(Refusal::SignIn),
    }
}

/// Whether an admin may delete a user.
pub open spec fn may_delete(admin: User, target: User) -> bool {
    !target.is_admin && target.id != admin.id
}

/// The user that an admin may delete, or where the request goes instead.
pub fn deletable(admin: &User, lookup: Result<Option<User>, String>) -> (r: Result<User, String>)
    ensures
        match lookup {
            Ok(Some(target)) => if target.is_admin || target.id == admin.id {
                r is Err && r->Err_0@ == err_location(
                    "/admin"@,
                    "Admin accounts cannot be deleted from the UI"@,
                )
            } else {
                r == Ok::<User, String>(target)
            },
            _ => r is Err && r->Err_0@ == err_location("/admin"@, "User not found"@),
        },
        r is Ok <==> lookup is Ok && lookup->Ok_0 is Some && may_delete(*admin, lookup->Ok_0->0),
{
    match lookup {
        Ok(Some(target)) => if target.is_admin || target.id == admin.id {
            Err(redirect_err("/admin", "Admin accounts cannot be deleted from the UI"))
        } else {
            Ok(target)
        },
        _ => Err(redirect_err("/admin", "User not found")),
    }
}

/// Where the deletion of a user goes, given how it went in the database. The
/// mailbox and the sessions of the user go too.
pub fn user_deleted(
    deleted: Result<(), String>,
    user_id: i64,
    store: &mut MailStore,
    sessions: &mut Sessions,
) -> (r: String)
    requires
        old(sessions).wf(),
    ensures
        final(sessions).wf(),
        match deleted {
            Ok(_) => {
                &&& r@ == ok_location("/admin"@, "User deleted"@)
                &&& final(store)@ == old(store)@.remove(user_id)
                &&& final(sessions)@ == sessions_without(old(sessions)@, user_id, None)
            },
            Err(_) => {
                &&& r@ == err_location("/admin"@, "Deletion failed"@)
                &&& final(store)@ == old(store)@
                &&& final(sessions)@ == old(sessions)@
            },
        },
        final(store).retention() == old(store).retention(),
        final(store).cap() == old(store).cap(),
{
    match deleted {
        Ok(_) => {
            store.clear(user_id);
            sessions.drop_user_sessions(user_id, None);
            redirect_ok("/admin", "User deleted")
        },
        Err(_) => redirect_err("/admin", "Deletion failed"),
    }
}

// ---- credentials and mail ----

/// A new SMTP credential.
#[derive(Debug, Clone)]
pub struct NewCredential {
    pub username: String,
    pub password: String,
}

/// Whether `s` is the username of an SMTP credential: `sv_` and ten letters or
/// digits without capitals.
pub open spec fn is_credential_name(s: Seq<char>) -> bool {
    &&& s.len() == 13
    &&& "sv_"@.is_prefix_of(s)
    &&& forall|i: int| 3 <= i < 13 ==> 'a' <= #[trigger] s[i] <= 'z' || '0' <= s[i] <= '9'
}

/// A new SMTP credential, or where the request goes instead if the user already
/// holds as many as they may.
pub fn cred_create(held: i64, limit: i64) -> (r: Result<NewCredential, String>)
    ensures
        match r {
            Ok(c) => held < limit && is_credential_name(c.username@) && is_token(c.password@, 24),
            Err(to) => held >= limit && to@ == err_location(
                "/dashboard"@,
                "Credential limit reached"@,
            ),
        },
{
    if held >= limit {
        return Err(redirect_err("/dashboard", "Credential limit reached"));
    }
    let mut username = "sv_".to_string();
    let random = random_token(10);
    let name = to_ascii_lowercase(random.as_str());
    username.append(name.as_str());
    proof {
        reveal_strlit("sv_");
        assert(username@.subrange(0, 3) =~= "sv_"@);
        assert forall|i: int| 3 <= i < 13 implies 'a' <= #[trigger] username@[i] <= 'z' || '0'
            <= username@[i] <= '9' by {
            assert(is_alphanumeric(random@[i - 3]));
            assert(username@[i] == ascii_lower(random@)[i - 3]);
        }
    }
    Ok(NewCredential { username, password: random_token(24) })
}

/// Where the creation of a credential goes, given how it went in the database.
pub fn cred_created(stored: Result<i64, String>, username: &str) -> (r: String)
    ensures
        r@ == (match stored {
            Ok(_) => ok_location(
                "/dashboard"@,
                "SMTP credential "@ + username@ + " created"@,
            ),
            Err(_) => err_location(
                "/dashboard"@,
                "Could not create credential, please try again"@,
            ),
        }),
{
    match stored {
        Ok(_) => {
            let mut msg = "SMTP credential ".to_string();
            msg.append(username);
            msg.append(" created");
            redirect_ok("/dashboard", msg.as_str())
        },
        Err(_) => redirect_err("/dashboard", "Could not create credential, please try again"),
    }
}

/// Where the deletion of a credential goes, given how it went in the database.
pub fn cred_deleted(deleted: Result<bool, String>) -> (r: String)
    ensures
        r@ == (match deleted {
            Ok(true) => ok_location("/dashboard"@, "SMTP credential deleted"@),
            _ => err_location("/dashboard"@, "Credential not found"@),
        }),
{
    match deleted {
        Ok(true) => redirect_ok("/dashboard", "SMTP credential deleted"),
        _ => redirect_err("/dashboard", "Credential not found"),
    }
}

/// Deletes a message of a user, and says where the request goes.
pub fn mail_delete(store: &mut MailStore, user_id: i64, id: &str) -> (r: String)
    ensures
        ({
            let before = mailbox(old(store)@, user_id);
            let after = without_id(before, id@);
            &&& final(store)@ == (if old(store)@.dom().contains(user_id) {
                old(store)@.insert(user_id, after)
            } else {
                old(store)@
            })
            &&& r@ == (if after != before {
                ok_location("/dashboard"@, "Message deleted"@)
            } else {
                err_location("/dashboard"@, "Message not found"@)
            })
        }),
        final(store).retention() == old(store).retention(),
        final(store).cap() == old(store).cap(),
{
    if store.delete(user_id, id) {
        redirect_ok("/dashboard", "Message deleted")
    } else {
        redirect_err("/dashboard", "Message not found")
    }
}

/// Empties the mailbox of a user, and says where the request goes.
pub fn mailbox_clear(store: &mut MailStore, user_id: i64) -> (r: String)
    ensures
        final(store)@ == old(store)@.remove(user_id),
        final(store).retention() == old(store).retention(),
        final(store).cap() == old(store).cap(),
        r@ == ok_location("/dashboard"@, "Mailbox emptied"@),
{
    store.clear(user_id);
    redirect_ok("/dashboard", "Mailbox emptied")
}

/// Where a request for a message goes that is not there.
pub fn message_gone() -> (r: String)
    ensures
        r@ == err_location("/dashboard"@, "Message not found (it may have expired)"@),
{
    redirect_err("/dashboard", "Message not found (it may have expired)")
}

} // verus!
