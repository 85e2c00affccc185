use teleprint::access::UsersTable;
use teleprint::hash::hash_data;
use teleprint::mail::{
    handle_mail_body, mail_notification, process, react, session_transition, vectorize,
    GetLatestError, MailPart, MailReaction, ProcessedMessage, SelectError, SessionAction,
    StoredAttachment, SubPart,
};

fn processed(text: Option<&str>, attach: Option<(&str, &[u8])>) -> ProcessedMessage {
    ProcessedMessage {
        text: text.map(|t| t.to_string()),
        attachment: attach.map(|(name, data)| StoredAttachment {
            filename: name.to_string(),
            data: data.to_vec(),
        }),
    }
}

#[test]
fn valid_token_with_attachment_notifies_the_admin_once() {
    let mut t = UsersTable::new(100);
    t.add_token("tok123".to_string());
    let msg = processed(Some("tok123"), Some(("abc.pdf", b"data")));
    match react(&t, &msg) {
        MailReaction::Notify { admin, token, filename } => {
            assert_eq!(admin, 100);
            assert_eq!(token, "tok123");
            assert_eq!(filename, "abc.pdf");
            let n = mail_notification(admin, &token, &filename);
            assert_eq!(n.first.to, 100);
            assert_eq!(n.first.text, "Mail user tok123 wants to print:");
            assert_eq!(n.second.to, 100);
            assert_eq!(n.second.text, "abc.pdf");
            assert_eq!(n.document_to, 100);
            assert_eq!(n.document, "abc.pdf");
        },
        other => panic!("expected a notification, got {:?}", other),
    }
}

#[test]
fn invalid_token_is_dropped_without_admin_notice() {
    let mut t = UsersTable::new(100);
    t.add_token("tok123".to_string());
    let msg = processed(Some("wrong"), Some(("abc.pdf", b"data")));
    match react(&t, &msg) {
        MailReaction::NoAccess { token } => assert_eq!(token, "wrong"),
        other => panic!("expected a silent drop, got {:?}", other),
    }
}

#[test]
fn short_or_missing_pieces_are_ignored() {
    let t = UsersTable::new(100);
    assert!(matches!(react(&t, &processed(None, Some(("a", b"d")))), MailReaction::Ignored));
    assert!(matches!(react(&t, &processed(Some("x"), Some(("a", b"d")))), MailReaction::Ignored));
    assert!(matches!(react(&t, &processed(Some("tok123"), None)), MailReaction::Ignored));
}

#[test]
fn parts_yield_attachment_and_trimmed_text() {
    let pdf_bytes = b"%PDF-1.4 fake".to_vec();
    let parts = vec![
        MailPart {
            mime: "multipart/alternative".to_string(),
            raw: None,
            sub: vec![
                SubPart { mime: "text/html".to_string(), text: Some("<b>x</b>".to_string()) },
                SubPart { mime: "text/plain".to_string(), text: Some("  tok123 \r\n".to_string()) },
            ],
        },
        MailPart { mime: "application/pdf".to_string(), raw: Some(pdf_bytes.clone()), sub: vec![] },
    ];
    let p = process(parts);
    assert_eq!(p.text.as_deref(), Some("tok123"));
    let att = p.attachment.expect("attachment expected");
    assert_eq!(att.data, pdf_bytes);
    assert_eq!(att.filename, format!("{}.pdf", hash_data(&pdf_bytes)));
}

#[test]
fn later_parts_win() {
    let parts = vec![
        MailPart { mime: "application/pdf".to_string(), raw: Some(b"first".to_vec()), sub: vec![] },
        MailPart { mime: "application/pdf".to_string(), raw: Some(b"second".to_vec()), sub: vec![] },
        MailPart {
            mime: "multipart/alternative".to_string(),
            raw: None,
            sub: vec![
                SubPart { mime: "text/plain".to_string(), text: Some("one".to_string()) },
                SubPart { mime: "text/plain".to_string(), text: Some("two".to_string()) },
            ],
        },
    ];
    let p = process(parts);
    assert_eq!(p.text.as_deref(), Some("two"));
    assert_eq!(p.attachment.unwrap().data, b"second".to_vec());
}

#[test]
fn real_mime_message_is_parsed_and_classified() {
    // multipart/mixed: a text part with the token, and a base64 document.
    let mut text = String::new();
    for line in [
        "From: sender@example.org",
        "To: printer@example.org",
        "Subject: print this",
        "MIME-Version: 1.0",
        "Content-Type: multipart/mixed; boundary=\"outer\"",
        "",
        "--outer",
        "Content-Type: multipart/alternative; boundary=\"inner\"",
        "",
        "--inner",
        "Content-Type: text/plain",
        "",
        "tok123",
        "--inner--",
        "--outer",
        "Content-Type: application/pdf",
        "Content-Transfer-Encoding: base64",
        "",
        "JVBERi0xLjQgZmFrZQ==",
        "--outer--",
        "",
    ] {
        text.push_str(line);
        text.push_str("\r\n");
    }
    let body = text.as_bytes().to_vec();
    let p = handle_mail_body(&body).expect("message must parse");
    assert_eq!(p.text.as_deref(), Some("tok123"));
    let att = p.attachment.as_ref().expect("attachment expected");
    assert_eq!(att.data, b"%PDF-1.4 fake".to_vec());
    assert_eq!(att.filename, format!("{}.pdf", hash_data(&b"%PDF-1.4 fake".to_vec())));

    // and with a registered token the admin is notified of exactly this file
    let mut t = UsersTable::new(100);
    t.add_token("tok123".to_string());
    match react(&t, &p) {
        MailReaction::Notify { admin, token, filename } => {
            assert_eq!(admin, 100);
            assert_eq!(token, "tok123");
            assert_eq!(filename, att.filename);
        },
        other => panic!("expected a notification, got {:?}", other),
    }
}

#[test]
fn unparsable_mail_yields_nothing() {
    // mailparse accepts almost anything as a plain message; such a message
    // has no parts, so nothing is extracted.
    let p = handle_mail_body(&b"not a mime message".to_vec()).unwrap();
    assert!(p.text.is_none());
    assert!(p.attachment.is_none());
}

#[test]
fn only_a_broken_select_reconnects() {
    assert_eq!(
        session_transition(&Some(GetLatestError::Select(SelectError::BrokenPipe))),
        SessionAction::Reconnect
    );
    assert_eq!(
        session_transition(&Some(GetLatestError::Select(SelectError::Other))),
        SessionAction::Continue
    );
    assert_eq!(session_transition(&Some(GetLatestError::Search)), SessionAction::Continue);
    assert_eq!(session_transition(&Some(GetLatestError::Fetch)), SessionAction::Continue);
    assert_eq!(session_transition(&Some(GetLatestError::Store)), SessionAction::Continue);
    assert_eq!(session_transition(&None), SessionAction::Continue);
}

#[test]
fn optional_slices_become_owned_bytes() {
    assert_eq!(vectorize(Some(b"abc")), Some(b"abc".to_vec()));
    assert_eq!(vectorize(None), None);
}
