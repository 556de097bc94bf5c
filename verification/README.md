# SMTPVoid

An SMTP black hole for testing mail submission. It speaks ESMTP with
`AUTH PLAIN`/`AUTH LOGIN` over plaintext, STARTTLS and implicit TLS, accepts mail
for any recipient, keeps it for a while in the sender's private in-memory mailbox,
and never delivers or relays anything. A web UI and a read-only API show what was
captured.

## Layout

- `src/` is the library, verified with Verus: everything that the server decides.
  - `smtp/`: lines, commands, the session as a state machine, and the laws that
    hold of every session.
  - `mailstore`, `mime`: the mailboxes, and what a message parser finds in a
    message.
  - `settings`, `mib`, `cli`, `config`: the settings with their rows, rules and
    form fields, the command line, and how times and sizes are shown.
  - `acme`, `tls`, `der`, `listeners`: when a certificate is renewed or ordered, how an
    order proceeds, which certificate is which, and which listener moves where.
  - `state`, `password`, `random`: web sessions, the registration throttle,
    password hashes and tokens.
  - `web/`: the pages, the forms and the accounts behind them, and the mail API.
  - `text`, `bytes`, `encoding`, `textmap`, `tally`: what the above is built from.
- `app/` is ordinary Rust around the library: sockets, files, SQLite, HTTP and the
  conversation with the certificate authority.
- `tests/` runs the library.

What the library takes on trust from outside crates and from the standard library
stands in a few functions marked `#[verifier::external_body]`, and in one
`assume_specification`, of `String::push` in `text`. Each has a comment that says
which outside function it is about and what it claims of it.
