//! Accounts, sessions, cookies and redirects.

use std::collections::HashMap;

use smtpvoid::db::User;
use smtpvoid::mailstore::MailStore;
use smtpvoid::password::{dummy_hash, hash_password, verify_password};
use smtpvoid::state::{
    setup_token, token_matches, Sessions, SetupToken, Throttle, REGISTRATION_WINDOW,
    SESSION_TTL_SECS,
};
use smtpvoid::web::accounts::{
    admin_created, admit_registration, admit_registration_at, change_password, cred_create,
    cred_created, cred_deleted, deletable, login, mail_delete, mailbox_clear, message_gone,
    open_account, password_changed, register_at, register_form, registered, require_admin, setup_form, setup_submit, typed_username, user_deleted, Refusal,
};
use smtpvoid::web::forms::{
    cookie_value, current_user_id, flash, logout, new_session, percent_encode, redirect_err,
    redirect_ok, session_token, valid_username, CLEARED_COOKIE,
};

fn user(id: i64, password: &str, is_admin: bool) -> User {
    User {
        id,
        username: format!("user{id}"),
        password_hash: hash_password(password).unwrap(),
        is_admin,
    }
}

#[test]
fn a_password_opens_its_own_hash_only() {
    let h = hash_password("correct horse").unwrap();
    assert!(h.starts_with("$argon2id$"));
    assert!(verify_password("correct horse", &h));
    assert!(!verify_password("correct hors", &h));
    assert!(!verify_password("correct horse", "no hash"));
    assert_ne!(h, hash_password("correct horse").unwrap());
    assert!(verify_password("smtpvoid-timing-dummy", &dummy_hash()));
}

#[test]
fn query_values_are_percent_encoded() {
    assert_eq!(percent_encode("AZaz09-_.~"), "AZaz09-_.~");
    assert_eq!(percent_encode("a b&c=d?"), "a%20b%26c%3Dd%3F");
    assert_eq!(percent_encode("\u{e9}\n"), "%C3%A9%0A");
    assert_eq!(redirect_ok("/x", "a b"), "/x?msg=a%20b");
    assert_eq!(redirect_err("/x", "a/b"), "/x?err=a%2Fb");
}

#[test]
fn a_flash_is_taken_from_the_query() {
    let mut q: HashMap<String, String> = HashMap::new();
    assert_eq!(flash(&q), (None, None));
    q.insert("err".into(), "bad".into());
    assert_eq!(flash(&q), (None, Some("bad")));
    q.insert("msg".into(), "good".into());
    assert_eq!(flash(&q), (Some("good"), Some("bad")));
}

#[test]
fn cookies_are_found_by_their_whole_name() {
    assert_eq!(
        cookie_value("a=1; svsession=tok ;svsession=later", "svsession").as_deref(),
        Some("tok")
    );
    assert_eq!(cookie_value("xsvsession=1; svsessionx=2", "svsession"), None);
    assert_eq!(cookie_value("svsession=", "svsession").as_deref(), Some(""));
    assert_eq!(cookie_value("svsession", "svsession"), None);
    assert_eq!(session_token(None), None);
    assert_eq!(session_token(Some("svsession=a=b")).as_deref(), Some("a=b"));
}

#[test]
fn a_session_is_opened_used_and_closed() {
    let mut sessions = Sessions::new();
    let (token, cookie) = new_session(&mut sessions, 9, true);
    assert_eq!(token.len(), 43);
    assert_eq!(
        cookie,
        format!("svsession={token}; Path=/; HttpOnly; SameSite=Strict; Max-Age=604800; Secure")
    );
    let sent = format!("svsession={token}");
    assert_eq!(current_user_id(&mut sessions, Some(&sent)), Some(9));
    assert_eq!(current_user_id(&mut sessions, None), None);
    assert_eq!(current_user_id(&mut sessions, Some("svsession=other")), None);
    assert_eq!(logout(&mut sessions, Some(&sent)), CLEARED_COOKIE);
    assert_eq!(current_user_id(&mut sessions, Some(&sent)), None);
    let (_, plain) = new_session(&mut sessions, 9, false);
    assert!(plain.ends_with("Max-Age=604800"));
}

#[test]
fn a_session_lives_seven_days_from_its_last_use() {
    let mut sessions = Sessions::new();
    let token = sessions.start(5, 1000);
    assert_eq!(sessions.session_user_id_at(&token, 1000 + SESSION_TTL_SECS - 1), Some(5));
    let used = 1000 + SESSION_TTL_SECS - 1;
    assert_eq!(sessions.session_user_id_at(&token, used + SESSION_TTL_SECS - 1), Some(5));
    let used = used + SESSION_TTL_SECS - 1;
    assert_eq!(sessions.session_user_id_at(&token, used + SESSION_TTL_SECS), None);
}

#[test]
fn usernames_are_short_and_plain() {
    assert!(valid_username("abc"));
    assert!(valid_username("A-z_09"));
    assert!(valid_username(&"a".repeat(32)));
    assert!(!valid_username("ab"));
    assert!(!valid_username(&"a".repeat(33)));
    assert!(!valid_username("a b"));
    assert!(!valid_username("n\u{e9}e"));
}

#[test]
fn registering_checks_everything_before_it_counts() {
    let mut throttle = Throttle::new();
    let mut attempt = |open: bool, limit: u32, name: &str, password: &str, now: i64| {
        register_at(open, &mut throttle, limit, "192.0.2.1", name, password, now)
    };
    assert_eq!(
        attempt(false, 1, "ann", "password", 0).unwrap_err(),
        "/login?err=Registration%20is%20closed%20on%20this%20server"
    );
    assert_eq!(
        attempt(true, 1, "an", "password", 0).unwrap_err(),
        "/register?err=Username%20must%20be%203-32%20characters%3A%20letters%2C%20digits%2C%20_%20or%20-"
    );
    assert_eq!(
        attempt(true, 1, "ann", "seven77", 0).unwrap_err(),
        "/register?err=Password%20must%20be%208-128%20characters"
    );
    let made = attempt(true, 1, " ann ", "password", 0).unwrap();
    assert_eq!(made.username, "ann");
    assert!(verify_password("password", &made.password_hash));
    assert_eq!(
        attempt(true, 1, "bob", "password", REGISTRATION_WINDOW - 1).unwrap_err(),
        "/register?err=Too%20many%20registrations%20from%20your%20address%3B%20try%20again%20later"
    );
    assert!(attempt(true, 1, "bob", "password", REGISTRATION_WINDOW).is_ok());
}

#[test]
fn an_admitted_registration_opens_an_account() {
    let mut t = Throttle::new();
    let name = admit_registration_at(true, &mut t, 1, "c", " ann ", "password", 0).unwrap();
    assert_eq!(name, "ann");
    let made = open_account(name, "password").unwrap();
    assert_eq!(made.username, "ann");
    assert!(verify_password("password", &made.password_hash));
    assert_eq!(
        admit_registration_at(true, &mut t, 1, "c", "bob", "password", 1).unwrap_err(),
        "/register?err=Too%20many%20registrations%20from%20your%20address%3B%20try%20again%20later"
    );
    assert!(admit_registration(false, &mut t, 1, "d", "bob", "password").is_err());
    assert_eq!(admit_registration(true, &mut t, 1, "d", "bob", "password"), Ok("bob".to_string()));
}

#[test]
fn registration_leads_on() {
    assert_eq!(register_form(true), None);
    assert!(register_form(false).unwrap().starts_with("/login?err="));
    assert_eq!(registered(Ok(4)), Ok(4));
    assert_eq!(
        registered(Err("username is already taken".into())).unwrap_err(),
        "/register?err=username%20is%20already%20taken"
    );
    assert_eq!(typed_username("  ann\t"), "ann");
}

#[test]
fn clients_have_throttles_of_their_own() {
    let mut t = Throttle::new();
    assert!(t.allow_registration_at("a", 2, 0));
    assert!(t.allow_registration_at("a", 2, 1));
    assert!(!t.allow_registration_at("a", 2, 2));
    assert!(t.allow_registration_at("b", 2, 2));
    assert!(!t.allow_registration_at("a", 2, 3599));
    assert!(t.allow_registration_at("a", 2, 3600));
    assert!(!Throttle::new().allow_registration("a", 0));
}

#[test]
fn signing_in_takes_the_right_password() {
    let dummy = dummy_hash();
    let u = user(1, "password", false);
    assert_eq!(login(Ok(Some(u.clone())), "password", &dummy).unwrap().id, 1);
    assert_eq!(
        login(Ok(Some(u)), "passwort", &dummy).unwrap_err(),
        "/login?err=Invalid%20username%20or%20password"
    );
    assert_eq!(
        login(Ok(None), "smtpvoid-timing-dummy", &dummy).unwrap_err(),
        "/login?err=Invalid%20username%20or%20password"
    );
    assert_eq!(
        login(Err("gone".into()), "password", &dummy).unwrap_err(),
        "/login?err=Internal%20error%2C%20please%20try%20again"
    );
}

#[test]
fn a_password_change_needs_the_old_one() {
    let u = user(1, "old password", false);
    let err = |a: &str, b: &str, c: &str| change_password(&u, a, b, c).unwrap_err();
    assert!(err("old password", "new password", "new passwort").contains("do%20not%20match"));
    assert!(err("old password", "short", "short").contains("8-128"));
    assert!(err("old password", "old password", "old password").contains("same%20as"));
    assert!(err("bad password", "new password", "new password").contains("not%20correct"));
    let h = change_password(&u, "old password", "new password", "new password").unwrap();
    assert!(verify_password("new password", &h));
}

#[test]
fn a_password_change_ends_the_other_sessions() {
    let mut s = Sessions::new();
    let kept = s.start(1, 0);
    let dropped = s.start(1, 0);
    let other = s.start(2, 0);
    assert!(password_changed(Ok(false), &mut s, 1, Some(&kept)).contains("no%20longer"));
    assert!(password_changed(Err("x".into()), &mut s, 1, Some(&kept)).contains("Could%20not"));
    assert_eq!(s.session_user_id_at(&dropped, 1), Some(1));
    assert_eq!(
        password_changed(Ok(true), &mut s, 1, Some(&kept)),
        "/account?msg=Password%20changed"
    );
    assert_eq!(s.session_user_id_at(&kept, 1), Some(1));
    assert_eq!(s.session_user_id_at(&dropped, 1), None);
    assert_eq!(s.session_user_id_at(&other, 1), Some(2));
}

#[test]
fn the_setup_token_is_kept_until_there_is_an_admin() {
    assert!(matches!(setup_token(true, &Some("t".into())), SetupToken::Closed));
    assert!(matches!(setup_token(false, &Some(" tok\n".into())), SetupToken::Stored(t) if t == "tok"));
    assert!(matches!(setup_token(false, &Some(" \n".into())), SetupToken::Fresh(t) if t.len() == 40));
    assert!(matches!(setup_token(false, &None), SetupToken::Fresh(_)));
    assert!(token_matches(" tok ", "tok"));
    assert!(!token_matches("tok", "toK"));
    assert!(!token_matches("to", "tok"));
}

#[test]
fn the_first_admin_needs_the_token() {
    let token = Some("tok".to_string());
    assert_eq!(
        setup_submit(&None, "tok", "admin", "password").unwrap_err(),
        "/login?err=Admin%20account%20is%20already%20configured"
    );
    assert_eq!(
        setup_submit(&token, "tik", "admin", "password").unwrap_err(),
        "/setup?err=Invalid%20setup%20token"
    );
    assert!(setup_submit(&token, "tok", "a", "password").unwrap_err().starts_with("/setup?err=Username"));
    assert!(setup_submit(&token, "tok", "admin", "pass").unwrap_err().starts_with("/setup?err=Password"));
    assert_eq!(setup_submit(&token, " tok ", " admin ", "password").unwrap().username, "admin");
    assert_eq!(setup_form(&token), None);
    assert!(setup_form(&None).is_some());
    let mut held = token;
    assert!(admin_created(Err("taken".into()), &mut held).starts_with("/setup?err=taken"));
    assert!(held.is_some());
    assert!(admin_created(Ok(1), &mut held).starts_with("/login?msg=Admin"));
    assert_eq!(held, None);
}

#[test]
fn admin_pages_are_for_admins() {
    assert!(require_admin(Some(user(1, "password", true))).is_ok());
    assert!(matches!(require_admin(Some(user(1, "password", false))), Err(Refusal::AdminOnly)));
    assert!(matches!(require_admin(None), Err(Refusal::SignIn)));
}

#[test]
fn admins_are_not_deleted_from_the_browser() {
    let admin = user(1, "password", true);
    assert_eq!(deletable(&admin, Ok(Some(user(2, "password", false)))).unwrap().id, 2);
    assert!(deletable(&admin, Ok(Some(user(3, "password", true)))).unwrap_err().contains("cannot"));
    assert!(deletable(&admin, Ok(None)).unwrap_err().contains("not%20found"));
    assert!(deletable(&admin, Err("x".into())).unwrap_err().contains("not%20found"));
    let mut store = MailStore::new(60, 1);
    let mut sessions = Sessions::new();
    let t = sessions.start(2, 0);
    assert_eq!(
        user_deleted(Err("x".into()), 2, &mut store, &mut sessions),
        "/admin?err=Deletion%20failed"
    );
    assert_eq!(sessions.session_user_id_at(&t, 1), Some(2));
    assert_eq!(
        user_deleted(Ok(()), 2, &mut store, &mut sessions),
        "/admin?msg=User%20deleted"
    );
    assert_eq!(sessions.session_user_id_at(&t, 1), None);
}

#[test]
fn credentials_are_random_and_limited() {
    let c = cred_create(19, 20).unwrap();
    assert!(c.username.starts_with("sv_"));
    assert_eq!(c.username.len(), 13);
    assert_eq!(c.username, c.username.to_lowercase());
    assert_eq!(c.password.len(), 24);
    assert_eq!(
        cred_create(20, 20).unwrap_err(),
        "/dashboard?err=Credential%20limit%20reached"
    );
    assert_eq!(
        cred_created(Ok(1), "sv_x"),
        "/dashboard?msg=SMTP%20credential%20sv_x%20created"
    );
    assert!(cred_created(Err("x".into()), "sv_x").contains("?err=Could"));
    assert_eq!(cred_deleted(Ok(true)), "/dashboard?msg=SMTP%20credential%20deleted");
    assert_eq!(cred_deleted(Ok(false)), "/dashboard?err=Credential%20not%20found");
    assert_eq!(cred_deleted(Err("x".into())), "/dashboard?err=Credential%20not%20found");
}

#[test]
fn mail_is_deleted_from_the_dashboard() {
    let mut store = MailStore::new(60, 1);
    assert_eq!(
        mail_delete(&mut store, 1, "a"),
        "/dashboard?err=Message%20not%20found"
    );
    assert_eq!(mailbox_clear(&mut store, 1), "/dashboard?msg=Mailbox%20emptied");
    assert_eq!(
        message_gone(),
        "/dashboard?err=Message%20not%20found%20%28it%20may%20have%20expired%29"
    );
}
