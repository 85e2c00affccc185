use teleprint::access::UsersTable;
use teleprint::chat::{
    cmd_add_user, cmd_auth, cmd_cancel, cmd_del_token, cmd_del_user, cmd_files, cmd_gen_token,
    cmd_help, cmd_lpstat, cmd_print, cmd_tokens, cmd_users, handle_update, persist_report,
    print_report, submission_report, CmdEffect, ChatUser, DownloadOutcome, IncomingMessage,
    UpdateEffect,
};

fn user(id: i64) -> ChatUser {
    ChatUser { id, first_name: "First".to_string(), last_name: None, username: None }
}

fn msg_from(id: i64, text: &str) -> IncomingMessage {
    IncomingMessage { from: Some(user(id)), text: Some(text.to_string()), document: None }
}

#[test]
fn auth_request_notifies_only_the_admin() {
    let mut t = UsersTable::new(100);
    t.set_admin(100);
    let msg = IncomingMessage {
        from: Some(ChatUser {
            id: 42,
            first_name: "Ada".to_string(),
            last_name: Some("L".to_string()),
            username: Some("ada".to_string()),
        }),
        text: Some("".to_string()),
        document: None,
    };
    let r = cmd_auth(&t, &msg);
    assert_eq!(r.len(), 1);
    assert_eq!(r[0].to, 100);
    assert!(r[0].text.contains("42"));
    assert!(r[0].text.contains("wants to auth"));
    assert_eq!(r[0].text, "User Ada L @ada, id: 42 wants to auth");
}

#[test]
fn auth_of_known_user_answers_the_user_and_still_notifies_the_admin() {
    let mut t = UsersTable::new(100);
    t.add_user(42);
    let r = cmd_auth(&t, &msg_from(42, ""));
    assert_eq!(r.len(), 2);
    assert_eq!(r[0].to, 42);
    assert_eq!(r[0].text, "You already have access.");
    assert_eq!(r[1].to, 100);
    assert!(r[1].text.contains("wants to auth"));
}

#[test]
fn admin_approval_then_print_dispatches_once() {
    // admin id = 100, users = {}, tokens = {}
    let mut t = UsersTable::new(100);

    // identity 42 asks for access: the admin hears about it, 42 gets nothing
    let r = cmd_auth(&t, &msg_from(42, ""));
    assert_eq!(r.len(), 1);
    assert_eq!(r[0].to, 100);
    assert!(r[0].text.contains("42") && r[0].text.contains("wants to auth"));

    // the admin adds 42
    let eff = cmd_add_user(&mut t, &msg_from(100, "42"));
    match eff {
        CmdEffect::PersistThenReport { reply_to } => assert_eq!(reply_to, 100),
        other => panic!("expected a persist effect, got {:?}", other),
    }
    assert!(t.check_user(42));
    let stored = teleprint::store::encode_store(&t.vectorize());
    assert!(stored.contains("user 42"));
    let ok = persist_report(100, None);
    assert_eq!(ok.to, 100);
    assert_eq!(ok.text, "Ok");

    // identity 42 prints: the dispatcher is reached exactly once
    let mut dispatched: Vec<String> = Vec::new();
    let eff = cmd_print(&t, &msg_from(42, "report.pdf"));
    match eff {
        CmdEffect::PrintThenReport { filename, reply_to } => {
            dispatched.push(filename);
            assert_eq!(reply_to, 100);
        },
        other => panic!("expected a print effect, got {:?}", other),
    }
    assert_eq!(dispatched, vec!["report.pdf".to_string()]);
}

#[test]
fn unauthorized_print_is_rejected_without_dispatch() {
    let mut t = UsersTable::new(100);
    t.add_user(42);
    let mut dispatch_count = 0;
    let eff = cmd_print(&t, &msg_from(7, "report.pdf"));
    match eff {
        CmdEffect::Reply(rep) => {
            assert_eq!(rep.to, 7);
            assert_eq!(rep.text, "You don't have access to printer.");
        },
        CmdEffect::PrintThenReport { .. } => dispatch_count += 1,
        other => panic!("unexpected effect {:?}", other),
    }
    assert_eq!(dispatch_count, 0);
}

#[test]
fn admin_may_print_without_being_listed() {
    let t = UsersTable::new(100);
    match cmd_print(&t, &msg_from(100, "a.pdf")) {
        CmdEffect::PrintThenReport { filename, reply_to } => {
            assert_eq!(filename, "a.pdf");
            assert_eq!(reply_to, 100);
        },
        other => panic!("expected a print effect, got {:?}", other),
    }
}

#[test]
fn print_without_filename_is_an_error() {
    let t = UsersTable::new(100);
    match cmd_print(&t, &msg_from(100, "   ")) {
        CmdEffect::Reply(rep) => {
            assert_eq!(rep.to, 100);
            assert_eq!(rep.text, "No filename was specified. Error");
        },
        other => panic!("unexpected effect {:?}", other),
    }
}

#[test]
fn non_admin_mutation_earns_a_tamper_notice() {
    let mut t = UsersTable::new(100);
    match cmd_add_user(&mut t, &msg_from(7, "8")) {
        CmdEffect::Reply(rep) => {
            assert_eq!(rep.to, 100);
            assert_eq!(rep.text, "User 7 tried to change users");
        },
        other => panic!("unexpected effect {:?}", other),
    }
    assert!(!t.check_user(8));
    let mut t2 = UsersTable::new(100);
    t2.add_token("x".to_string());
    match cmd_del_token(&mut t2, &msg_from(7, "x")) {
        CmdEffect::Reply(rep) => assert_eq!(rep.text, "User 7 tried to change users"),
        other => panic!("unexpected effect {:?}", other),
    }
    assert!(t2.check_token("x".to_string()));
}

#[test]
fn missing_sender_fails_closed_even_for_admin_minus_one() {
    let mut t = UsersTable::new(-1);
    let msg = IncomingMessage { from: None, text: Some("3".to_string()), document: None };
    match cmd_add_user(&mut t, &msg) {
        CmdEffect::Reply(rep) => {
            assert_eq!(rep.to, -1);
            assert_eq!(rep.text, "Some error with user_id");
        },
        other => panic!("unexpected effect {:?}", other),
    }
    assert!(!t.check_user(3));
}

#[test]
fn del_user_revokes_via_command() {
    let mut t = UsersTable::new(100);
    t.add_user(42);
    match cmd_del_user(&mut t, &msg_from(100, "42")) {
        CmdEffect::PersistThenReport { reply_to } => assert_eq!(reply_to, 100),
        other => panic!("unexpected effect {:?}", other),
    }
    assert!(!t.check_user(42));
}

#[test]
fn users_and_tokens_are_listed_for_the_admin() {
    let mut t = UsersTable::new(100);
    t.add_user(42);
    t.add_user(7);
    t.add_token("tok".to_string());
    let r = cmd_users(&t, &msg_from(100, ""));
    assert_eq!(r.to, 100);
    assert_eq!(r.text, "[42, 7]");
    let r = cmd_tokens(&t, &msg_from(100, ""));
    assert_eq!(r.text, "[\"tok\"]");
    let r = cmd_users(&t, &msg_from(5, ""));
    assert_eq!(r.to, 100);
    assert_eq!(r.text, "5 tried to see users");
}

#[test]
fn empty_listings_are_bracketed() {
    let t = UsersTable::new(100);
    assert_eq!(cmd_users(&t, &msg_from(100, "")).text, "[]");
    assert_eq!(cmd_tokens(&t, &msg_from(100, "")).text, "[]");
}

#[test]
fn gen_token_reports_a_fresh_token_to_the_admin() {
    let t = UsersTable::new(100);
    match cmd_gen_token(&t, &msg_from(100, "team")) {
        CmdEffect::Reply(rep) => {
            assert_eq!(rep.to, 100);
            assert!(rep.text.starts_with("team"));
            assert_eq!(rep.text.len(), 4 + 40);
        },
        other => panic!("unexpected effect {:?}", other),
    }
    // the token is reported, not registered
    assert_eq!(cmd_tokens(&t, &msg_from(100, "")).text, "[]");
}

#[test]
fn help_depends_on_standing() {
    let mut t = UsersTable::new(100);
    t.add_user(42);
    let r = cmd_help(&t, &msg_from(100, ""));
    assert_eq!(r.to, 100);
    assert!(r.text.contains("/adduser"));
    assert!(r.text.contains("/cancel"));
    let r = cmd_help(&t, &msg_from(42, ""));
    assert_eq!(r.to, 42);
    assert_eq!(r.text, "Just send PDF file");
    let r = cmd_help(&t, &msg_from(7, ""));
    assert_eq!(r.to, 7);
    assert_eq!(r.text, "You must authenticate by `/auth` command.");
}

#[test]
fn admin_only_queries_reject_others() {
    let t = UsersTable::new(100);
    match cmd_files(&t, &msg_from(7, "")) {
        CmdEffect::Reply(rep) => assert_eq!(rep.text, "7 tried to see files"),
        other => panic!("unexpected effect {:?}", other),
    }
    match cmd_lpstat(&t, &msg_from(7, "")) {
        CmdEffect::Reply(rep) => assert_eq!(rep.text, "7 tried to use lpstat"),
        other => panic!("unexpected effect {:?}", other),
    }
    match cmd_files(&t, &msg_from(100, "")) {
        CmdEffect::ListFilesThenReport { reply_to } => assert_eq!(reply_to, 100),
        other => panic!("unexpected effect {:?}", other),
    }
    match cmd_lpstat(&t, &msg_from(100, "")) {
        CmdEffect::LpstatThenReport { reply_to } => assert_eq!(reply_to, 100),
        other => panic!("unexpected effect {:?}", other),
    }
}

#[test]
fn cancel_takes_the_job_word() {
    let t = UsersTable::new(100);
    match cmd_cancel(&t, &msg_from(100, " job-17 rest")) {
        CmdEffect::CancelThenReport { job, reply_to } => {
            assert_eq!(job, "job-17");
            assert_eq!(reply_to, 100);
        },
        other => panic!("unexpected effect {:?}", other),
    }
    match cmd_cancel(&t, &msg_from(100, "")) {
        CmdEffect::Reply(rep) => assert_eq!(rep.text, "No job was specified. Error"),
        other => panic!("unexpected effect {:?}", other),
    }
}

#[test]
fn print_outcomes_are_reported() {
    let ok = print_report(100, None);
    assert_eq!(ok.text, "The file was printed and cleaned successfully.");
    let err = print_report(100, Some("lp not found".to_string()));
    assert_eq!(err.text, "Error on printing the file: lp not found");
    let perr = persist_report(100, Some("disk full".to_string()));
    assert_eq!(perr.text, "Error on writing config: disk full");
}

#[test]
fn direct_document_submission_is_gated() {
    let mut t = UsersTable::new(100);
    t.add_user(42);
    let with_doc = IncomingMessage {
        from: Some(user(42)),
        text: None,
        document: Some("file-id-9".to_string()),
    };
    match handle_update(&t, &with_doc) {
        UpdateEffect::FetchDocument { file_id, user_id } => {
            assert_eq!(file_id, "file-id-9");
            assert_eq!(user_id, 42);
        },
        other => panic!("unexpected effect {:?}", other),
    }
    let stranger = IncomingMessage {
        from: Some(user(7)),
        text: None,
        document: Some("file-id-9".to_string()),
    };
    match handle_update(&t, &stranger) {
        UpdateEffect::Notify(rep) => {
            assert_eq!(rep.to, 7);
            assert_eq!(rep.text, "You don't have access to printer.");
        },
        other => panic!("unexpected effect {:?}", other),
    }
    let no_doc = IncomingMessage { from: Some(user(42)), text: None, document: None };
    match handle_update(&t, &no_doc) {
        UpdateEffect::Notify(rep) => {
            assert_eq!(rep.to, 42);
            assert_eq!(rep.text, "Error: no file or unknown command");
        },
        other => panic!("unexpected effect {:?}", other),
    }
}

#[test]
fn submission_outcomes_become_admin_messages() {
    let none = submission_report(100, 42, &DownloadOutcome::LinkFailed("x".to_string()));
    assert!(none.is_empty());
    let err = submission_report(100, 42, &DownloadOutcome::DownloadFailed("slow".to_string()));
    assert_eq!(err.len(), 1);
    assert_eq!(err[0].to, 100);
    assert_eq!(err[0].text, "Error in downloading file: slow");
    let ok = submission_report(
        100,
        42,
        &DownloadOutcome::Stored { filename: "abc.42.pdf".to_string() },
    );
    assert_eq!(ok.len(), 2);
    assert_eq!(ok[0].text, "User 42 wants to print:\nabc.42.pdf");
    assert_eq!(ok[1].text, "abc.42.pdf");
}
