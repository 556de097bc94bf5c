//! What a MIME parser finds in a message.

use mail_parser::MimeHeaders;
use vstd::prelude::*;
use vstd::string::*;

use crate::text::opt_text;

verus! {

// ---- what the parser says ----

/// Whether `MessageParser::parse` gives a message at all.
pub uninterp spec fn parses(raw: Seq<u8>) -> bool;

/// What `Message::subject` gives.
pub uninterp spec fn subject_of(raw: Seq<u8>) -> Option<Seq<char>>;

/// What `Message::from` gives: the name and the address of the first sender.
pub uninterp spec fn sender_of(raw: Seq<u8>) -> Option<(Option<Seq<char>>, Option<Seq<char>>)>;

/// What `Message::text_bodies` gives: of each part, whether it is HTML, and its
/// text.
pub uninterp spec fn text_parts_of(raw: Seq<u8>) -> Seq<(bool, Option<Seq<char>>)>;

/// What `Message::html_bodies` gives: of each part, whether it is HTML, and its
/// text.
pub uninterp spec fn html_parts_of(raw: Seq<u8>) -> Seq<(bool, Option<Seq<char>>)>;

/// What `Message::attachments` gives.
pub uninterp spec fn attachments_of(raw: Seq<u8>) -> Seq<AttachmentPartView>;

/// What `Message::body_text` gives for the first text body.
pub uninterp spec fn body_text_of(raw: Seq<u8>) -> Option<Seq<char>>;

/// What `Message::body_html` gives for the first HTML body.
pub uninterp spec fn body_html_of(raw: Seq<u8>) -> Option<Seq<char>>;

/// What `Message::attachment_count` gives.
pub uninterp spec fn attachment_count_of(raw: Seq<u8>) -> usize;

/// The headers that a listing shows.
pub struct Summary {
    pub subject: Option<String>,
    /// The name and the address of the first sender.
    pub sender: Option<(Option<String>, Option<String>)>,
}

/// The texts of the name and the address of a sender.
pub open spec fn sender_text(
    s: Option<(Option<String>, Option<String>)>,
) -> Option<(Option<Seq<char>>, Option<Seq<char>>)> {
    match s {
        Some((name, address)) => Some((opt_text(name), opt_text(address))),
        None => None,
    }
}

/// `mail_parser::MessageParser::parse`, then `subject` and `from` of the
/// message. Whether the bytes parse, and what the two accessors give, are
/// functions of the bytes.
#[verifier::external_body]
pub(crate) fn read_summary(raw: &[u8]) -> (r: Option<Summary>)
    ensures
        r is Some <==> parses(raw@),
        r is Some ==> opt_text(r->0.subject) == subject_of(raw@),
        r is Some ==> sender_text(r->0.sender) == sender_of(raw@),
{
    let message = mail_parser::MessageParser::default().parse(raw)?;
    let sender = message.from().and_then(|a| a.first()).map(|a| {
        (a.name().map(str::to_string), a.address().map(str::to_string))
    });
    Some(Summary { subject: message.subject().map(str::to_string), sender })
}

/// A body part: whether it is HTML, and its text if it has one.
pub struct Part {
    pub html: bool,
    pub text: Option<String>,
}

pub open spec fn part_texts(parts: Seq<Part>) -> Seq<(bool, Option<Seq<char>>)> {
    parts.map_values(|p: Part| (p.html, opt_text(p.text)))
}

/// The parts that a mail reader would show as text, and those that it would show
/// as HTML.
pub struct Parts {
    pub text: Vec<Part>,
    pub html: Vec<Part>,
}

/// `mail_parser::MessageParser::parse`, then `text_bodies` and `html_bodies` of
/// the message, with `is_text_html` and `text_contents` of each part. They are
/// functions of the bytes.
#[verifier::external_body]
pub(crate) fn read_parts(raw: &[u8]) -> (r: Option<Parts>)
    ensures
        r is Some <==> parses(raw@),
        r is Some ==> part_texts(r->0.text@) == text_parts_of(raw@),
        r is Some ==> part_texts(r->0.html@) == html_parts_of(raw@),
{
    let message = mail_parser::MessageParser::default().parse(raw)?;
    let plain = |p: &mail_parser::MessagePart| Part {
        html: p.is_text_html(),
        text: p.text_contents().map(str::to_string),
    };
    Some(Parts {
        text: message.text_bodies().map(plain).collect(),
        html: message.html_bodies().map(plain).collect(),
    })
}

/// An attachment: its file name, its type and subtype, and its size.
pub struct AttachmentPart {
    pub name: Option<String>,
    pub main_type: Option<String>,
    pub subtype: Option<String>,
    pub size: usize,
}

/// What an [`AttachmentPart`] says.
#[verifier::ext_equal]
pub struct AttachmentPartView {
    pub name: Option<Seq<char>>,
    pub main_type: Option<Seq<char>>,
    pub subtype: Option<Seq<char>>,
    pub size: usize,
}

impl View for AttachmentPart {
    type V = AttachmentPartView;

    open spec fn view(&self) -> AttachmentPartView {
        AttachmentPartView {
            name: opt_text(self.name),
            main_type: opt_text(self.main_type),
            subtype: opt_text(self.subtype),
            size: self.size,
        }
    }
}

pub open spec fn attachment_views(list: Seq<AttachmentPart>) -> Seq<AttachmentPartView> {
    list.map_values(|a: AttachmentPart| a@)
}

/// `mail_parser::MessageParser::parse`, then `attachments` of the message, with
/// `attachment_name`, `content_type` and `len` of each. They are a function of
/// the bytes.
#[verifier::external_body]
pub(crate) fn read_attachments(raw: &[u8]) -> (r: Option<Vec<AttachmentPart>>)
    ensures
        r is Some <==> parses(raw@),
        r is Some ==> attachment_views(r->0@) == attachments_of(raw@),
{
    let message = mail_parser::MessageParser::default().parse(raw)?;
    let plain = |p: &mail_parser::MessagePart| AttachmentPart {
        name: p.attachment_name().map(str::to_string),
        main_type: p.content_type().map(|t| t.ctype().to_string()),
        subtype: p.content_type().and_then(|t| t.subtype()).map(str::to_string),
        size: p.len(),
    };
    Some(message.attachments().map(plain).collect())
}

/// The bodies of a message as a reader sees them, each made from the other where
/// the message has only one, and how many attachments it has.
pub struct Bodies {
    pub text: Option<String>,
    pub html: Option<String>,
    pub attachments: usize,
}

/// `mail_parser::MessageParser::parse`, then `body_text` and `body_html` of the
/// first body, and `attachment_count`. They are functions of the bytes.
#[verifier::external_body]
pub(crate) fn read_bodies(raw: &[u8]) -> (r: Option<Bodies>)
    ensures
        r is Some <==> parses(raw@),
        r is Some ==> opt_text(r->0.text) == body_text_of(raw@),
        r is Some ==> opt_text(r->0.html) == body_html_of(raw@),
        r is Some ==> r->0.attachments == attachment_count_of(raw@),
{
    let message = mail_parser::MessageParser::default().parse(raw)?;
    Some(Bodies {
        text: message.body_text(0).map(|t| t.into_owned()),
        html: message.body_html(0).map(|t| t.into_owned()),
        attachments: message.attachment_count(),
    })
}

// ---- summaries ----

/// The subject that a listing shows.
pub open spec fn shown_subject(parsed: bool, subject: Option<Seq<char>>) -> Seq<char> {
    if !parsed {
        "(unparseable message)"@
    } else {
        match subject {
            Some(s) => s,
            None => "(no subject)"@,
        }
    }
}

/// The sender that a listing shows.
pub open spec fn shown_sender(
    parsed: bool,
    sender: Option<(Option<Seq<char>>, Option<Seq<char>>)>,
) -> Seq<char> {
    if !parsed {
        "(unknown sender)"@
    } else {
        match sender {
            None => "(unknown sender)"@,
            Some((name, address)) => {
                let email = match address {
                    Some(a) => a,
                    None => ""@,
                };
                match name {
                    Some(n) if n.len() > 0 => n + " <"@ + email + ">"@,
                    _ => email,
                }
            },
        }
    }
}

/// The subject and the sender that a listing shows, given what the parser found.
pub fn describe(summary: Option<Summary>) -> (r: (String, String))
    ensures
        r.0@ == shown_subject(
            summary is Some,
            match summary {
                Some(s) => opt_text(s.subject),
                None => None,
            },
        ),
        r.1@ == shown_sender(
            summary is Some,
            match summary {
                Some(s) => sender_text(s.sender),
                None => None,
            },
        ),
{
    match summary {
        None => ("(unparseable message)".to_string(), "(unknown sender)".to_string()),
        Some(s) => {
            let subject = match s.subject {
                Some(t) => t,
                None => "(no subject)".to_string(),
            };
            let from = match s.sender {
                None => "(unknown sender)".to_string(),
                Some((name, address)) => {
                    let email = match address {
                        Some(a) => a,
                        None => "".to_string(),
                    };
                    match name {
                        Some(n) => if n.as_str().is_empty() {
                            email
                        } else {
                            let mut out = n;
                            out.append(" <");
                            out.append(email.as_str());
                            out.append(">");
                            out
                        },
                        None => email,
                    }
                },
            };
            (subject, from)
        },
    }
}

/// Extract subject and From header for list views; tolerant of garbage input.
pub fn parse_summary(raw: &[u8]) -> (r: (String, String))
    ensures
        r.0@ == shown_subject(parses(raw@), subject_of(raw@)),
        r.1@ == shown_sender(parses(raw@), sender_of(raw@)),
{
    describe(read_summary(raw))
}

} // verus!
