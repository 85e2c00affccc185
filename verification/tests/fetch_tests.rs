use teleprint::fetch::{
    download_filename, mail_attachment_filename, resolve_fetch, FetchError, FetchOutcome,
};
use teleprint::hash::hash_data;

#[test]
fn download_names_carry_fingerprint_and_discriminator() {
    let data = b"abc".to_vec();
    assert_eq!(
        download_filename(&data, Some(123456)),
        "a9993e364706816aba3e25717850c26c9cd0d89d.123456.pdf"
    );
    assert_eq!(
        download_filename(&data, None),
        "a9993e364706816aba3e25717850c26c9cd0d89d.pdf.pdf"
    );
    assert_eq!(mail_attachment_filename(&data), "a9993e364706816aba3e25717850c26c9cd0d89d.pdf");
}

#[test]
fn identical_content_collapses_to_one_name() {
    let a = download_filename(&b"paper".to_vec(), Some(42));
    let b = download_filename(&b"paper".to_vec(), Some(42));
    assert_eq!(a, b);
}

#[test]
fn distinct_content_or_requester_gets_distinct_names() {
    let base = download_filename(&b"paper".to_vec(), Some(42));
    assert_ne!(base, download_filename(&b"other".to_vec(), Some(42)));
    assert_ne!(base, download_filename(&b"paper".to_vec(), Some(43)));
    assert_ne!(base, download_filename(&b"paper".to_vec(), None));
}

#[test]
fn completed_fetch_stores_under_the_derived_name() {
    let data = b"document bytes".to_vec();
    let stored = resolve_fetch(FetchOutcome::Completed(data.clone()), Some(9)).unwrap();
    assert_eq!(stored.bytes, data);
    assert_eq!(stored.filename, format!("{}.9.pdf", hash_data(&data)));
}

#[test]
fn timed_out_fetch_is_a_timeout_failure() {
    match resolve_fetch(FetchOutcome::TimedOut, Some(9)) {
        Err(FetchError::Timeout) => (),
        other => panic!("expected a timeout failure, got {:?}", other),
    }
}

#[test]
fn broken_transport_is_a_network_failure() {
    match resolve_fetch(FetchOutcome::TransportFailed("connection reset".to_string()), None) {
        Err(FetchError::Network(e)) => assert_eq!(e, "connection reset"),
        other => panic!("expected a network failure, got {:?}", other),
    }
}
