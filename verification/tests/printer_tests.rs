use teleprint::printer::{cancel_verdict, files_report, is_listed_file, lpstat_report, printers_report};

#[test]
fn short_cancel_output_is_success() {
    assert_eq!(cancel_verdict(&"".to_string()), Ok("Ok".to_string()));
    assert_eq!(cancel_verdict(&"ab".to_string()), Ok("Ok".to_string()));
}

#[test]
fn long_cancel_output_is_the_diagnostic() {
    assert_eq!(
        cancel_verdict(&"cancel: no such job".to_string()),
        Err("Error on cancel: cancel: no such job".to_string())
    );
}

#[test]
fn queue_reports_carry_their_headers() {
    assert_eq!(lpstat_report(&"queue empty".to_string()), "lpstat:\nqueue empty");
    assert_eq!(printers_report(&"printer office".to_string()), "lpstat -p:\nprinter office");
}

#[test]
fn only_documents_and_requester_names_are_listed() {
    assert!(is_listed_file(&"a.pdf".to_string()));
    assert!(is_listed_file(&"da39a3ee.123456".to_string()));
    assert!(is_listed_file(&"x.-7".to_string()));
    assert!(!is_listed_file(&"notes.txt".to_string()));
    assert!(!is_listed_file(&"noextension".to_string()));
    assert!(!is_listed_file(&"trailingdot.".to_string()));
    assert!(!is_listed_file(&"a.pdfx".to_string()));
}

#[test]
fn file_listing_keeps_order_and_skips_the_rest() {
    let names = vec![
        "a.pdf".to_string(),
        "b.txt".to_string(),
        "c.123".to_string(),
        "noext".to_string(),
    ];
    assert_eq!(files_report(&names), "Files:\na.pdf\nc.123");
    assert_eq!(files_report(&vec![]), "Files:");
}
