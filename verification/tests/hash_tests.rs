use teleprint::hash::{generate_token, hash_data, make_token, to_hex};

#[test]
fn known_digests_come_out_in_hex() {
    // SHA-1 test vectors: the empty input and "abc".
    assert_eq!(hash_data(&vec![]), "da39a3ee5e6b4b0d3255bfef95601890afd80709");
    assert_eq!(hash_data(&b"abc".to_vec()), "a9993e364706816aba3e25717850c26c9cd0d89d");
}

#[test]
fn fingerprinting_is_deterministic() {
    let a = hash_data(&b"same bytes".to_vec());
    let b = hash_data(&b"same bytes".to_vec());
    assert_eq!(a, b);
    let c = hash_data(&b"other bytes".to_vec());
    assert_ne!(a, c);
}

#[test]
fn hex_encodes_two_digits_per_byte() {
    assert_eq!(to_hex(&vec![]), "");
    assert_eq!(to_hex(&vec![0x00, 0x0f, 0xbe, 0xef]), "000fbeef");
}

#[test]
fn made_tokens_are_name_plus_fingerprint() {
    let noise = vec![7u8; 64];
    let t1 = make_token("alice", &noise);
    let t2 = make_token("alice", &noise);
    assert_eq!(t1, t2);
    assert!(t1.starts_with("alice"));
    assert_eq!(t1.len(), "alice".len() + 40);
    let mut data = b"alice".to_vec();
    data.extend_from_slice(&noise);
    assert_eq!(t1, format!("alice{}", hash_data(&data)));
}

#[test]
fn generated_tokens_carry_the_name_and_forty_hex_chars() {
    let t = generate_token("team".to_string());
    assert!(t.starts_with("team"));
    assert_eq!(t.len(), 4 + 40);
    assert!(t[4..].chars().all(|c| c.is_ascii_hexdigit() && !c.is_ascii_uppercase()));
}
