//! The mail channel's decision logic: classifying a parsed message's parts,
//! extracting the document attachment and the token candidate, authorizing
//! the token, and planning the administrator's notification. The mailbox
//! session itself runs outside the library; its failures drive the small
//! reconnect state machine specified here.

use crate::access::UsersTable;
use crate::chat::Reply;
use crate::fetch::{mail_attachment_filename, mail_name_spec};
use crate::text::{chars_to_string, str_eq_chars, string_to_chars, trim_chars, trim_spec};
use vstd::prelude::*;
use vstd::string::*;

verus! {

/// A second-level MIME part, as the mail logic reads it.
#[derive(Debug)]
pub struct SubPart {
    pub mime: String,
    pub text: Option<String>,
}

/// A top-level MIME part: its type, its decoded body if it decodes, and its
/// own subparts' types and texts.
#[derive(Debug)]
pub struct MailPart {
    pub mime: String,
    pub raw: Option<Vec<u8>>,
    pub sub: Vec<SubPart>,
}

/// The parts of a message as the mail parser reads them: a function of the
/// raw bytes alone; `None` when the message does not parse.
pub uninterp spec fn mail_parts_of(data: Seq<u8>) -> Option<Seq<MailPart>>;

/// Relies on `mailparse::parse_mail` and the part accessors `get_body_raw`
/// and `get_body`: converts the parsed tree, two levels deep, into plain
/// values; `None` when the message does not parse. The parse depends on the
/// bytes alone.
#[verifier::external_body]
fn parse_mail_parts(body: &Vec<u8>) -> (r: Option<Vec<MailPart>>)
    ensures
        match r {
            Some(parts) => mail_parts_of(body@) == Some(parts@),
            None => mail_parts_of(body@) is None,
        },
{
    let parsed = mailparse::parse_mail(body.as_slice()).ok()?;
    Some(
        parsed.subparts.iter().map(
            |x| MailPart {
                mime: x.ctype.mimetype.clone(),
                raw: x.get_body_raw().ok(),
                sub: x.subparts.iter().map(
                    |y| SubPart { mime: y.ctype.mimetype.clone(), text: y.get_body().ok() },
                ).collect(),
            },
        ).collect(),
    )
}

/// The bytes of the winning document attachment: the last part of type
/// `application/pdf` whose body decoded.
pub open spec fn pdf_data_of(parts: Seq<MailPart>) -> Option<Seq<u8>>
    decreases parts.len(),
{
    if parts.len() == 0 {
        None
    } else if parts.last().mime@ == "application/pdf"@ && parts.last().raw is Some {
        Some(parts.last().raw->0@)
    } else {
        pdf_data_of(parts.drop_last())
    }
}

/// The winning text of one part's subparts: the last `text/plain` subpart
/// whose body decoded.
pub open spec fn sub_text_of(subs: Seq<SubPart>) -> Option<Seq<char>>
    decreases subs.len(),
{
    if subs.len() == 0 {
        None
    } else if subs.last().mime@ == "text/plain"@ && subs.last().text is Some {
        Some(subs.last().text->0@)
    } else {
        sub_text_of(subs.drop_last())
    }
}

/// The winning text of the whole message: from the last non-document part
/// that has any.
pub open spec fn text_of(parts: Seq<MailPart>) -> Option<Seq<char>>
    decreases parts.len(),
{
    if parts.len() == 0 {
        None
    } else if parts.last().mime@ != "application/pdf"@ && sub_text_of(parts.last().sub@)
        is Some {
        sub_text_of(parts.last().sub@)
    } else {
        text_of(parts.drop_last())
    }
}

/// A document attachment ready to be written to local storage under its
/// content-addressed name.
#[derive(Debug)]
pub struct StoredAttachment {
    pub filename: String,
    pub data: Vec<u8>,
}

/// What a mail message came down to: its token candidate (trimmed) and its
/// document attachment, either may be missing.
#[derive(Debug)]
pub struct ProcessedMessage {
    pub text: Option<String>,
    pub attachment: Option<StoredAttachment>,
}

/// The winning text of one part's subparts, consuming them from the end.
fn take_sub_text(sub: Vec<SubPart>) -> (r: Option<String>)
    ensures
        match sub_text_of(sub@) {
            Some(t) => r is Some && r->0@ == t,
            None => r is None,
        },
{
    let mut sub = sub;
    let ghost full = sub@;
    let mut found: Option<String> = None;
    while sub.len() > 0
        invariant
            match found {
                Some(t) => sub_text_of(full) is Some && sub_text_of(full)->0 == t@,
                None => sub_text_of(full) == sub_text_of(sub@),
            },
        decreases sub@.len(),
    {
        let ghost pre = sub@;
        let y = sub.pop().unwrap();
        proof {
            assert(pre.last() == y);
            assert(sub@ =~= pre.drop_last());
        }
        if found.is_none() {
            if str_eq_chars(y.mime.as_str(), "text/plain") && y.text.is_some() {
                found = y.text;
            }
        }
    }
    found
}

/// Classifies the parts of a message: the last decoded document attachment
/// gets its content-addressed name, and the token candidate is the trimmed
/// winning text.
pub fn process(parts: Vec<MailPart>) -> (r: ProcessedMessage)
    ensures
        match pdf_data_of(parts@) {
            Some(d) => r.attachment is Some && r.attachment->0.data@ == d
                && r.attachment->0.filename@ == mail_name_spec(d),
            None => r.attachment is None,
        },
        match text_of(parts@) {
            Some(t) => r.text is Some && r.text->0@ == trim_spec(t),
            None => r.text is None,
        },
{
    let mut parts = parts;
    let ghost full = parts@;
    let mut best_raw: Option<Vec<u8>> = None;
    let mut best_text: Option<String> = None;
    while parts.len() > 0
        invariant
            match best_raw {
                Some(d) => pdf_data_of(full) is Some && pdf_data_of(full)->0 == d@,
                None => pdf_data_of(full) == pdf_data_of(parts@),
            },
            match best_text {
                Some(t) => text_of(full) is Some && text_of(full)->0 == t@,
                None => text_of(full) == text_of(parts@),
            },
        decreases parts@.len(),
    {
        let ghost pre = parts@;
        let p = parts.pop().unwrap();
        proof {
            assert(pre.last() == p);
            assert(parts@ =~= pre.drop_last());
        }
        let is_pdf = str_eq_chars(p.mime.as_str(), "application/pdf");
        if is_pdf {
            if best_raw.is_none() && p.raw.is_some() {
                best_raw = p.raw;
            }
        } else {
            let t = take_sub_text(p.sub);
            if best_text.is_none() && t.is_some() {
                best_text = t;
            }
        }
    }
    let attachment = match best_raw {
        Some(d) => {
            let filename = mail_attachment_filename(&d);
            Some(StoredAttachment { filename, data: d })
        },
        None => None,
    };
    let text = match best_text {
        Some(t) => {
            let v = string_to_chars(t.as_str());
            let tv = trim_chars(&v);
            Some(chars_to_string(&tv))
        },
        None => None,
    };
    ProcessedMessage { text, attachment }
}

/// Parses raw message bytes and classifies the parts: the result is `Some`
/// exactly when the bytes parse, and then carries the winning attachment
/// under its content-addressed name and the trimmed winning text of the
/// parsed parts.
pub fn handle_mail_body(body: &Vec<u8>) -> (r: Option<ProcessedMessage>)
    ensures
        r is Some <==> mail_parts_of(body@) is Some,
        match r {
            Some(p) => {
                let parts = mail_parts_of(body@)->0;
                &&& match pdf_data_of(parts) {
                    Some(d) => p.attachment is Some && p.attachment->0.data@ == d
                        && p.attachment->0.filename@ == mail_name_spec(d),
                    None => p.attachment is None,
                }
                &&& match text_of(parts) {
                    Some(t) => p.text is Some && p.text->0@ == trim_spec(t),
                    None => p.text is None,
                }
            },
            None => true,
        },
{
    match parse_mail_parts(body) {
        Some(parts) => Some(process(parts)),
        None => None,
    }
}

/// What the mail channel decided for one processed message.
#[derive(Debug)]
pub enum MailReaction {
    Ignored,
    NoAccess { token: String },
    Notify { admin: i64, token: String, filename: String },
}

/// The mail gate: a message without text, with a token candidate under two
/// characters, or without an attachment is dropped; a valid token earns the
/// administrator a notification; an invalid token is dropped silently — the
/// admin is not told, unlike the chat channel's tamper notices.
pub fn react(table: &UsersTable, msg: &ProcessedMessage) -> (r: MailReaction)
    requires
        table.wf(),
    ensures
        match msg.text {
            None => r is Ignored,
            Some(t) => if t@.len() < 2 {
                r is Ignored
            } else {
                match msg.attachment {
                    None => r is Ignored,
                    Some(att) => if table@.tokens.contains(t@) {
                        match r {
                            MailReaction::Notify { admin, token, filename } => admin
                                == table@.admin && token@ == t@ && filename@ == att.filename@,
                            _ => false,
                        }
                    } else {
                        match r {
                            MailReaction::NoAccess { token } => token@ == t@,
                            _ => false,
                        }
                    },
                }
            },
        },
{
    match &msg.text {
        None => MailReaction::Ignored,
        Some(t) => {
            if t.as_str().unicode_len() < 2 {
                return MailReaction::Ignored;
            }
            match &msg.attachment {
                None => MailReaction::Ignored,
                Some(att) => {
                    let admin = table.get_admin();
                    if table.check_token(t.clone()) {
                        MailReaction::Notify {
                            admin,
                            token: t.clone(),
                            filename: att.filename.clone(),
                        }
                    } else {
                        MailReaction::NoAccess { token: t.clone() }
                    }
                },
            }
        },
    }
}

/// The planned notification for an authorized mail submission: one text
/// notice naming the token, one message carrying the stored name, and the
/// document itself, all to the administrator.
pub struct MailNotification {
    pub first: Reply,
    pub second: Reply,
    pub document_to: i64,
    pub document: String,
}

/// Exactly one admin notice plus one document relay for a valid submission.
pub fn mail_notification(admin: i64, token: &String, filename: &String) -> (r: MailNotification)
    ensures
        r.first.to == admin,
        r.first.text@ == "Mail user "@ + token@ + " wants to print:"@,
        r.second.to == admin,
        r.second.text@ == filename@,
        r.document_to == admin,
        r.document@ == filename@,
{
    let mut s = "Mail user ".to_owned();
    s.append(token.as_str());
    s.append(" wants to print:");
    MailNotification {
        first: Reply { to: admin, text: s },
        second: Reply { to: admin, text: filename.clone() },
        document_to: admin,
        document: filename.clone(),
    }
}

/// How selecting the inbox failed.
#[derive(Debug, Clone, Copy, PartialEq, Eq, Structural)]
pub enum SelectError {
    BrokenPipe,
    Other,
}

/// How one poll cycle failed.
#[derive(Debug, Clone, Copy, PartialEq, Eq, Structural)]
pub enum GetLatestError {
    Select(SelectError),
    Search,
    Fetch,
    Store,
}

/// What the poll loop does before its next cycle.
#[derive(Debug, Clone, Copy, PartialEq, Eq, Structural)]
pub enum SessionAction {
    Reconnect,
    Continue,
}

/// The two-tier retry policy of the poll loop: only a broken inbox select
/// tears the session down and forces a reconnect; every other failure (and
/// success) continues with the next cycle.
pub fn session_transition(err: &Option<GetLatestError>) -> (r: SessionAction)
    ensures
        r == SessionAction::Reconnect <==> *err == Some(
            GetLatestError::Select(SelectError::BrokenPipe),
        ),
{
    match err {
        Some(GetLatestError::Select(SelectError::BrokenPipe)) => SessionAction::Reconnect,
        _ => SessionAction::Continue,
    }
}

/// The bytes of an optional slice, as an owned vector.
pub fn vectorize(data: Option<&[u8]>) -> (r: Option<Vec<u8>>)
    ensures
        match data {
            Some(d) => r is Some && r->0@ == d@,
            None => r is None,
        },
{
    match data {
        Some(d) => Some(vstd::slice::slice_to_vec(d)),
        None => None,
    }
}

} // verus!
