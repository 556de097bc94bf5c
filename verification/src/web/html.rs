//! Hand-rolled server-side HTML rendering. Every piece of user-controlled
//! data must pass through [`esc`] before being embedded.

use vstd::prelude::*;
use vstd::string::*;

use crate::config::{duration_text, fmt_duration};
use crate::db::User;
use crate::mailstore::ConnKind;
use crate::text::{chars_of, opt_str};

verus! {

/// What stands for a character in HTML text.
pub open spec fn esc_char(c: char) -> Seq<char> {
    if c == '&' {
        "&amp;"@
    } else if c == '<' {
        "&lt;"@
    } else if c == '>' {
        "&gt;"@
    } else if c == '"' {
        "&quot;"@
    } else if c == '\'' {
        "&#39;"@
    } else {
        seq![c]
    }
}

/// `s` as HTML text.
pub open spec fn escaped(s: Seq<char>) -> Seq<char>
    decreases s.len(),
{
    if s.len() == 0 {
        Seq::empty()
    } else {
        escaped(s.drop_last()) + esc_char(s.last())
    }
}

/// HTML-escape untrusted text.
pub fn esc(s: &str) -> (r: String)
    ensures
        r@ == escaped(s@),
{
    let cs = chars_of(s);
    let mut out = String::new();
    let mut i: usize = 0;
    assert(cs@.take(0) =~= Seq::empty());
    while i < cs.len()
        invariant
            i <= cs@.len(),
            out@ == escaped(cs@.take(i as int)),
        decreases cs@.len() - i,
    {
        assert(cs@.take(i + 1).drop_last() =~= cs@.take(i as int));
        assert(cs@.take(i + 1).last() == cs@[i as int]);
        let c = cs[i];
        if c == '&' {
            out.append("&amp;");
        } else if c == '<' {
            out.append("&lt;");
        } else if c == '>' {
            out.append("&gt;");
        } else if c == '"' {
            out.append("&quot;");
        } else if c == '\'' {
            out.append("&#39;");
        } else {
            let ghost before = out@;
            out.push(c);
            assert(out@ =~= before + seq![c]);
        }
        i += 1;
    }
    assert(cs@.take(cs@.len() as int) =~= cs@);
    out
}

/// No markup gets through: escaped text holds no quotes and no angle brackets.
pub proof fn escaped_text_holds_no_markup(s: Seq<char>)
    ensures
        forall|i: int|
            0 <= i < escaped(s).len() ==> (#[trigger] escaped(s)[i]) != '<' && escaped(s)[i] != '>'
                && escaped(s)[i] != '"' && escaped(s)[i] != '\'',
    decreases s.len(),
{
    if s.len() > 0 {
        let before = s.drop_last();
        escaped_text_holds_no_markup(before);
        reveal_strlit("&amp;");
        reveal_strlit("&lt;");
        reveal_strlit("&gt;");
        reveal_strlit("&quot;");
        reveal_strlit("&#39;");
        let tail = esc_char(s.last());
        assert forall|i: int| 0 <= i < escaped(s).len() implies (#[trigger] escaped(s)[i]) != '<'
            && escaped(s)[i] != '>' && escaped(s)[i] != '"' && escaped(s)[i] != '\'' by {
            if i < escaped(before).len() {
                assert(escaped(s)[i] == escaped(before)[i]);
            } else {
                assert(escaped(s)[i] == tail[i - escaped(before).len()]);
            }
        }
    }
}

/// What a browser reads HTML text as.
pub open spec fn unescaped(t: Seq<char>) -> Seq<char>
    decreases t.len(),
{
    if t.len() == 0 {
        Seq::empty()
    } else if t.len() >= 5 && t.take(5) == "&amp;"@ {
        seq!['&'] + unescaped(t.skip(5))
    } else if t.len() >= 4 && t.take(4) == "&lt;"@ {
        seq!['<'] + unescaped(t.skip(4))
    } else if t.len() >= 4 && t.take(4) == "&gt;"@ {
        seq!['>'] + unescaped(t.skip(4))
    } else if t.len() >= 6 && t.take(6) == "&quot;"@ {
        seq!['"'] + unescaped(t.skip(6))
    } else if t.len() >= 5 && t.take(5) == "&#39;"@ {
        seq!['\''] + unescaped(t.skip(5))
    } else {
        seq![t[0]] + unescaped(t.skip(1))
    }
}

proof fn lemma_escaped_front(s: Seq<char>)
    requires
        s.len() > 0,
    ensures
        escaped(s) == esc_char(s[0]) + escaped(s.skip(1)),
    decreases s.len(),
{
    if s.len() == 1 {
        assert(s.drop_last() =~= Seq::empty());
        assert(s.skip(1) =~= Seq::empty());
        assert(escaped(s) =~= esc_char(s[0]) + escaped(s.skip(1)));
    } else {
        let before = s.drop_last();
        lemma_escaped_front(before);
        assert(before.skip(1) =~= s.skip(1).drop_last());
        assert(escaped(s) =~= esc_char(s[0]) + escaped(s.skip(1)));
    }
}

proof fn lemma_unescaped_front(c: char, rest: Seq<char>)
    ensures
        unescaped(esc_char(c) + rest) == seq![c] + unescaped(rest),
{
    reveal_strlit("&amp;");
    reveal_strlit("&lt;");
    reveal_strlit("&gt;");
    reveal_strlit("&quot;");
    reveal_strlit("&#39;");
    let e = esc_char(c);
    let t = e + rest;
    assert(t.take(e.len() as int) =~= e);
    assert(t.skip(e.len() as int) =~= rest);
    if t.len() >= 5 {
        assert(t.take(5)[0] == t[0] && t.take(5)[1] == t[1]);
    }
    if t.len() >= 4 {
        assert(t.take(4)[0] == t[0] && t.take(4)[1] == t[1]);
    }
    if t.len() >= 6 {
        assert(t.take(6)[0] == t[0] && t.take(6)[1] == t[1]);
    }
    assert(t[0] == e[0]);
    if e.len() > 1 {
        assert(t[1] == e[1]);
    }
}

/// Nothing is lost: a browser shows the text that was escaped.
pub proof fn escaping_is_lossless(s: Seq<char>)
    ensures
        unescaped(escaped(s)) == s,
    decreases s.len(),
{
    if s.len() == 0 {
        assert(unescaped(escaped(s)) =~= s);
    } else {
        lemma_escaped_front(s);
        escaping_is_lossless(s.skip(1));
        lemma_unescaped_front(s[0], escaped(s.skip(1)));
        assert(seq![s[0]] + s.skip(1) =~= s);
    }
}

// ---- the frame of every page ----

pub const CSS: &'static str = r##"
:root { --bg:#0d1117; --panel:#161b22; --border:#30363d; --text:#e6edf3; --muted:#8b949e;
        --accent:#58a6ff; --green:#3fb950; --amber:#d29922; --red:#f85149; }
* { box-sizing:border-box; }
body { margin:0; background:var(--bg); color:var(--text);
       font:15px/1.5 -apple-system,"Segoe UI",Roboto,Helvetica,Arial,sans-serif; }
a { color:var(--accent); text-decoration:none; }
a:hover { text-decoration:underline; }
header { border-bottom:1px solid var(--border); background:var(--panel); }
.hwrap { max-width:1100px; margin:0 auto; padding:12px 20px; display:flex; align-items:center; gap:18px; }
.logo { font-weight:700; font-size:18px; color:var(--text); }
.logo span { color:var(--accent); }
nav { display:flex; gap:14px; margin-left:auto; align-items:center; }
nav .who { color:var(--muted); }
main { max-width:1100px; margin:0 auto; padding:24px 20px 60px; }
h1 { font-size:24px; margin:0 0 6px; }
h2 { font-size:18px; margin:28px 0 10px; }
.sub { color:var(--muted); margin:0 0 20px; }
.panel { background:var(--panel); border:1px solid var(--border); border-radius:8px; padding:18px; margin:14px 0; }
table { width:100%; border-collapse:collapse; font-size:14px; }
th { text-align:left; color:var(--muted); font-weight:600; padding:8px 10px; border-bottom:1px solid var(--border); }
td { padding:8px 10px; border-bottom:1px solid var(--border); vertical-align:top; }
tr:last-child td { border-bottom:none; }
tr.rowlink:hover { background:#1c2129; cursor:pointer; }
.badge { display:inline-block; padding:2px 9px; border-radius:999px; font-size:12px; font-weight:600; white-space:nowrap; }
.b-plain { background:#3d1d20; color:var(--red); border:1px solid #6e2a2f; }
.b-starttls { background:#3a2d12; color:var(--amber); border:1px solid #6b5518; }
.b-tls { background:#12351c; color:var(--green); border:1px solid #1f6b34; }
.b-admin { background:#1a2c47; color:var(--accent); border:1px solid #2a4a75; }
input[type=text], input[type=password] { width:100%; padding:9px 11px; border-radius:6px;
  border:1px solid var(--border); background:var(--bg); color:var(--text); font-size:14px; }
label { display:block; margin:12px 0 4px; color:var(--muted); font-size:13px; }
button, .btn { display:inline-block; margin-top:14px; padding:8px 16px; border-radius:6px; border:1px solid var(--border);
  background:#21262d; color:var(--text); font-size:14px; cursor:pointer; }
button:hover, .btn:hover { background:#30363d; text-decoration:none; }
button.primary { background:#1f6feb; border-color:#1f6feb; color:#fff; }
button.primary:hover { background:#388bfd; }
button.danger { background:transparent; border-color:#6e2a2f; color:var(--red); padding:3px 10px; margin:0; font-size:13px; }
button.danger:hover { background:#3d1d20; }
form.inline { display:inline; }
.flash { border-radius:6px; padding:10px 14px; margin:14px 0; font-size:14px; }
.flash.ok { background:#12351c; border:1px solid #1f6b34; color:var(--green); }
.flash.err { background:#3d1d20; border:1px solid #6e2a2f; color:var(--red); }
.cards { display:grid; grid-template-columns:repeat(auto-fill,minmax(170px,1fr)); gap:12px; margin:14px 0; }
.card { background:var(--panel); border:1px solid var(--border); border-radius:8px; padding:14px; }
.card .num { font-size:24px; font-weight:700; }
.card .lbl { color:var(--muted); font-size:12px; text-transform:uppercase; letter-spacing:.05em; }
pre { background:var(--bg); border:1px solid var(--border); border-radius:6px; padding:12px;
      overflow-x:auto; font-size:13px; white-space:pre-wrap; word-break:break-word; }
code { background:#21262d; padding:1px 6px; border-radius:4px; font-size:13px; }
.kv { display:grid; grid-template-columns:190px 1fr; gap:6px 14px; font-size:14px; }
.kv dt { color:var(--muted); }
.kv dd { margin:0; word-break:break-all; }
.reveal { border:1px solid #1f6b34; background:#12351c; border-radius:8px; padding:16px; margin:14px 0; }
.reveal code { font-size:15px; background:#0d1117; }
button.copy { padding:1px 8px; margin:0 0 0 8px; font-size:12px; }
.muted { color:var(--muted); }
.small { font-size:13px; }
.narrow { max-width:430px; margin:40px auto; }
footer { max-width:1100px; margin:0 auto; padding:20px; color:var(--muted); font-size:13px;
         border-top:1px solid var(--border); }
"##;

/// Navigation context for the layout.
pub enum Nav<'a> {
    Anonymous,
    User(&'a User),
}

/// The links to the admin pages, for those who may follow them.
pub open spec fn admin_links(admin: bool) -> Seq<char> {
    if admin {
        r#"<a href="/admin">Admin</a><a href="/admin/settings">Settings</a>"#@
    } else {
        ""@
    }
}

/// The navigation of a user who is signed in.
pub open spec fn user_nav(username: Seq<char>, admin: bool) -> Seq<char> {
    r#"<nav><a href="/dashboard">Dashboard</a>"#@
        + admin_links(admin)
        + r#"<a class="who" href="/account">"#@
        + escaped(username)
        + r#"</a>
                <form class="inline" method="post" action="/logout"><button style="margin:0;padding:4px 12px">Sign out</button></form></nav>"#@
}

fn show_user_nav(username: &str, admin: bool) -> (r: String)
    ensures
        r@ == user_nav(username@, admin),
{
    let mut out = r#"<nav><a href="/dashboard">Dashboard</a>"#.to_string();
    out.append(if admin {
        r#"<a href="/admin">Admin</a><a href="/admin/settings">Settings</a>"#
    } else {
        ""
    });
    out.append(r#"<a class="who" href="/account">"#);
    out.append(esc(username).as_str());
    out.append(r#"</a>
                <form class="inline" method="post" action="/logout"><button style="margin:0;padding:4px 12px">Sign out</button></form></nav>"#);
    out
}

/// The navigation of a page.
pub open spec fn nav_text(nav: Nav) -> Seq<char> {
    match nav {
        Nav::Anonymous => r#"<nav><a href="/login">Sign in</a><a class="btn" style="margin:0" href="/register">Create account</a></nav>"#@,
        Nav::User(u) => user_nav(u.username@, u.is_admin),
    }
}

/// The message at the top of a page: a success comes before an error.
pub open spec fn flash_text(ok: Option<Seq<char>>, err: Option<Seq<char>>) -> Seq<char> {
    match ok {
        Some(m) => r#"<div class="flash ok">"#@
        + escaped(m)
        + "</div>"@,
        None => match err {
            Some(m) => r#"<div class="flash err">"#@
        + escaped(m)
        + "</div>"@,
            None => ""@,
        },
    }
}

fn show_flash(ok: Option<&str>, err: Option<&str>) -> (r: String)
    ensures
        r@ == flash_text(opt_str(ok), opt_str(err)),
{
    match ok {
        Some(m) => {
            let mut out = r#"<div class="flash ok">"#.to_string();
            out.append(esc(m).as_str());
            out.append("</div>");
            out
        },
        None => match err {
            Some(m) => {
                let mut out = r#"<div class="flash err">"#.to_string();
                out.append(esc(m).as_str());
                out.append("</div>");
                out
            },
            None => "".to_string(),
        },
    }
}

/// A whole page.
pub open spec fn layout_text(title: Seq<char>, nav: Seq<char>, flash: Seq<char>, body: Seq<char>) -> Seq<char> {
    r#"<!DOCTYPE html>
<html lang="en">
<head>
<meta charset="utf-8">
<meta name="viewport" content="width=device-width, initial-scale=1">
<title>"#@
        + escaped(title)
        + r#" - SMTPVoid</title>
<style>"#@
        + CSS@
        + r#"</style>
</head>
<body>
<header><div class="hwrap"><a class="logo" href="/">SMTP<span>Void</span></a>"#@
        + nav
        + r#"</div></header>
<main>"#@
        + flash
        + body
        + r#"</main>
<footer>SMTPVoid is an SMTP testing sink. Messages are held in memory for a limited time and are <strong>never delivered anywhere</strong>.</footer>
</body>
</html>"#@
}

/// Puts a page together. The body is HTML already.
pub fn layout(
    title: &str,
    nav: Nav,
    flash_ok: Option<&str>,
    flash_err: Option<&str>,
    body: &str,
) -> (r: String)
    ensures
        r@ == layout_text(title@, nav_text(nav), flash_text(opt_str(flash_ok), opt_str(flash_err)), body@),
{
    let nav_html = match nav {
        Nav::Anonymous => r#"<nav><a href="/login">Sign in</a><a class="btn" style="margin:0" href="/register">Create account</a></nav>"#.to_string(),
        Nav::User(u) => show_user_nav(u.username.as_str(), u.is_admin),
    };
    let flash = show_flash(flash_ok, flash_err);
    let mut out = r#"<!DOCTYPE html>
<html lang="en">
<head>
<meta charset="utf-8">
<meta name="viewport" content="width=device-width, initial-scale=1">
<title>"#.to_string();
    out.append(esc(title).as_str());
    out.append(r#" - SMTPVoid</title>
<style>"#);
    out.append(CSS);
    out.append(r#"</style>
</head>
<body>
<header><div class="hwrap"><a class="logo" href="/">SMTP<span>Void</span></a>"#);
    out.append(nav_html.as_str());
    out.append(r#"</div></header>
<main>"#);
    out.append(flash.as_str());
    out.append(body);
    out.append(r#"</main>
<footer>SMTPVoid is an SMTP testing sink. Messages are held in memory for a limited time and are <strong>never delivered anywhere</strong>.</footer>
</body>
</html>"#);
    out
}

/// The badge that shows how a message arrived.
pub open spec fn badge_text(kind: ConnKind) -> Seq<char> {
    match kind {
        ConnKind::Plaintext => r#"<span class="badge b-plain">plaintext</span>"#@,
        ConnKind::StartTls => r#"<span class="badge b-starttls">STARTTLS</span>"#@,
        ConnKind::ImplicitTls => r#"<span class="badge b-tls">implicit TLS</span>"#@,
    }
}

/// The badge that shows how a message arrived.
pub fn badge(kind: ConnKind) -> (r: &'static str)
    ensures
        r@ == badge_text(kind),
{
    match kind {
        ConnKind::Plaintext => r#"<span class="badge b-plain">plaintext</span>"#,
        ConnKind::StartTls => r#"<span class="badge b-starttls">STARTTLS</span>"#,
        ConnKind::ImplicitTls => r#"<span class="badge b-tls">implicit TLS</span>"#,
    }
}

// ---- public pages ----

/// The link to the registration form, while registration is open.
pub open spec fn register_link(open: bool) -> Seq<char> {
    if open {
        r#"<a class="btn" href="/register">Create an account</a> "#@
    } else {
        ""@
    }
}

/// The front page.
pub open spec fn index_text(smtp: Seq<char>, smtps: Seq<char>, retention_secs: int, open: bool) -> Seq<char> {
    r#"<h1>Send email into the void</h1>
<p class="sub">A free SMTP testing sink. Point your application at SMTPVoid, send mail to <em>any</em> address, and watch it arrive in your virtual mailbox instead of the real world.</p>
<div class="panel">
<h2 style="margin-top:0">How it works</h2>
<ol>
<li>Create a free account and generate SMTP credentials.</li>
<li>Configure your application to send mail through this server using those credentials.</li>
<li>Messages to any recipient are captured into your private virtual mailbox.</li>
<li>Each message shows how it arrived: <span class="badge b-plain">plaintext</span> <span class="badge b-starttls">STARTTLS</span> or <span class="badge b-tls">implicit TLS</span>, including TLS version and cipher.</li>
<li>Messages self-destruct after "#@
        + duration_text(retention_secs)
        + r#". Nothing is ever stored on disk or delivered to a real mailbox &mdash; this service cannot be used to send actual email.</li>
</ol>
</div>
<div class="panel">
<h2 style="margin-top:0">Endpoints</h2>
<div class="kv">
<dt>SMTP (plaintext + STARTTLS)</dt><dd><code>"#@
        + escaped(smtp)
        + r#"</code></dd>
<dt>SMTPS (implicit TLS)</dt><dd><code>"#@
        + escaped(smtps)
        + r#"</code></dd>
<dt>Authentication</dt><dd><code>AUTH PLAIN</code> and <code>AUTH LOGIN</code></dd>
</div>
</div>
<p>"#@
        + register_link(open)
        + r#"<a class="btn" href="/login">Sign in</a></p>"#@
}

/// The front page.
pub fn index_page(
    smtp_addr: &str,
    smtps_addr: &str,
    retention_secs: i64,
    registration_open: bool,
) -> (r: String)
    ensures
        r@ == index_text(smtp_addr@, smtps_addr@, retention_secs as int, registration_open),
{
    let mut out = r#"<h1>Send email into the void</h1>
<p class="sub">A free SMTP testing sink. Point your application at SMTPVoid, send mail to <em>any</em> address, and watch it arrive in your virtual mailbox instead of the real world.</p>
<div class="panel">
<h2 style="margin-top:0">How it works</h2>
<ol>
<li>Create a free account and generate SMTP credentials.</li>
<li>Configure your application to send mail through this server using those credentials.</li>
<li>Messages to any recipient are captured into your private virtual mailbox.</li>
<li>Each message shows how it arrived: <span class="badge b-plain">plaintext</span> <span class="badge b-starttls">STARTTLS</span> or <span class="badge b-tls">implicit TLS</span>, including TLS version and cipher.</li>
<li>Messages self-destruct after "#.to_string();
    out.append(fmt_duration(retention_secs).as_str());
    out.append(r#". Nothing is ever stored on disk or delivered to a real mailbox &mdash; this service cannot be used to send actual email.</li>
</ol>
</div>
<div class="panel">
<h2 style="margin-top:0">Endpoints</h2>
<div class="kv">
<dt>SMTP (plaintext + STARTTLS)</dt><dd><code>"#);
    out.append(esc(smtp_addr).as_str());
    out.append(r#"</code></dd>
<dt>SMTPS (implicit TLS)</dt><dd><code>"#);
    out.append(esc(smtps_addr).as_str());
    out.append(r#"</code></dd>
<dt>Authentication</dt><dd><code>AUTH PLAIN</code> and <code>AUTH LOGIN</code></dd>
</div>
</div>
<p>"#);
    out.append(if registration_open {
        r#"<a class="btn" href="/register">Create an account</a> "#
    } else {
        ""
    });
    out.append(r#"<a class="btn" href="/login">Sign in</a></p>"#);
    out
}

/// A form that asks for a user name and a password.
pub open spec fn auth_text(title: Seq<char>, action: Seq<char>, submit: Seq<char>, extra_field: Seq<char>) -> Seq<char> {
    r#"<div class="narrow"><div class="panel">
<h1>"#@
        + escaped(title)
        + r#"</h1>
<form method="post" action=""#@
        + escaped(action)
        + r#"">
"#@
        + extra_field
        + r#"
<label for="username">Username</label>
<input type="text" id="username" name="username" required maxlength="32" autocomplete="username">
<label for="password">Password</label>
<input type="password" id="password" name="password" required minlength="8" maxlength="128" autocomplete="current-password">
<button class="primary" type="submit">"#@
        + escaped(submit)
        + r#"</button>
</form>
</div></div>"#@
}

/// A form that asks for a user name and a password. The extra field is HTML
/// already.
pub fn auth_page(title: &str, action: &str, submit: &str, extra_field: &str) -> (r: String)
    ensures
        r@ == auth_text(title@, action@, submit@, extra_field@),
{
    let mut out = r#"<div class="narrow"><div class="panel">
<h1>"#.to_string();
    out.append(esc(title).as_str());
    out.append(r#"</h1>
<form method="post" action=""#);
    out.append(esc(action).as_str());
    out.append(r#"">
"#);
    out.append(extra_field);
    out.append(r#"
<label for="username">Username</label>
<input type="text" id="username" name="username" required maxlength="32" autocomplete="username">
<label for="password">Password</label>
<input type="password" id="password" name="password" required minlength="8" maxlength="128" autocomplete="current-password">
<button class="primary" type="submit">"#);
    out.append(esc(submit).as_str());
    out.append(r#"</button>
</form>
</div></div>"#);
    out
}

pub const SETUP_FORM: &'static str = r#"<div class="narrow"><div class="panel">
<h1>Admin setup</h1>
<p class="muted small">Enter the setup token generated during installation (see the server log or <code>admin_setup_token</code> in the data directory) to create the administrator account.</p>
<form method="post" action="/setup">
<label for="token">Setup token</label>
<input type="text" id="token" name="token" required autocomplete="off">
<label for="username">Admin username</label>
<input type="text" id="username" name="username" required maxlength="32">
<label for="password">Password</label>
<input type="password" id="password" name="password" required minlength="8" maxlength="128" autocomplete="new-password">
<button class="primary" type="submit">Create admin account</button>
</form>
</div></div>"#;

/// The form that creates the admin account.
pub fn setup_page() -> (r: String)
    ensures
        r@ == SETUP_FORM@,
{
    SETUP_FORM.to_string()
}

/// The account page of a user.
pub open spec fn account_text(username: Seq<char>) -> Seq<char> {
    r#"<div class="narrow"><div class="panel">
<h1>Account</h1>
<p class="sub">Signed in as <strong>"#@
        + escaped(username)
        + r#"</strong>.</p>
<form method="post" action="/account/password">
<label for="current_password">Current password</label>
<input type="password" id="current_password" name="current_password" required maxlength="128" autocomplete="current-password">
<label for="new_password">New password</label>
<input type="password" id="new_password" name="new_password" required minlength="8" maxlength="128" autocomplete="new-password">
<label for="confirm_password">New password again</label>
<input type="password" id="confirm_password" name="confirm_password" required minlength="8" maxlength="128" autocomplete="new-password">
<button class="primary" type="submit">Change password</button>
</form>
<p class="muted small">Changing the password ends your other browser sessions. SMTP credentials have passwords of their own and keep working.</p>
</div></div>"#@
}

/// The account page of a user.
pub fn account_page(user: &User) -> (r: String)
    ensures
        r@ == account_text(user.username@),
{
    let mut out = r#"<div class="narrow"><div class="panel">
<h1>Account</h1>
<p class="sub">Signed in as <strong>"#.to_string();
    out.append(esc(user.username.as_str()).as_str());
    out.append(r#"</strong>.</p>
<form method="post" action="/account/password">
<label for="current_password">Current password</label>
<input type="password" id="current_password" name="current_password" required maxlength="128" autocomplete="current-password">
<label for="new_password">New password</label>
<input type="password" id="new_password" name="new_password" required minlength="8" maxlength="128" autocomplete="new-password">
<label for="confirm_password">New password again</label>
<input type="password" id="confirm_password" name="confirm_password" required minlength="8" maxlength="128" autocomplete="new-password">
<button class="primary" type="submit">Change password</button>
</form>
<p class="muted small">Changing the password ends your other browser sessions. SMTP credentials have passwords of their own and keep working.</p>
</div></div>"#);
    out
}

} // verus!
