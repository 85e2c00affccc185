use teleprint::access::{Users, UsersTable};
use teleprint::store::{encode_store, parse_store};

#[test]
fn encode_writes_the_expected_lines() {
    let u = Users { users: vec![42], admin: 100, mail_tokens: vec!["tok123".to_string()] };
    let s = encode_store(&u);
    assert_eq!(s, "admin 100\nuser 42\ntoken tok123\n");
}

#[test]
fn encode_escapes_backslash_and_newline() {
    let u = Users { users: vec![], admin: 0, mail_tokens: vec!["a\\b\nc".to_string()] };
    let s = encode_store(&u);
    assert_eq!(s, "admin 0\ntoken a\\\\b\\nc\n");
}

#[test]
fn parse_reads_back_exactly_what_was_written() {
    let u = Users {
        users: vec![42, -7, 0],
        admin: -100,
        mail_tokens: vec!["tok123".to_string(), "we ird\\to\nken".to_string(), "".to_string()],
    };
    let s = encode_store(&u);
    let back = parse_store(s.as_str()).expect("round trip must parse");
    assert_eq!(back.users, u.users);
    assert_eq!(back.admin, u.admin);
    assert_eq!(back.mail_tokens, u.mail_tokens);
}

#[test]
fn parse_rejects_malformed_stores() {
    assert!(parse_store("").is_none());
    assert!(parse_store("user 1\n").is_none());
    assert!(parse_store("admin x\n").is_none());
    assert!(parse_store("admin 1\nuser nope\n").is_none());
    assert!(parse_store("admin 1\ntoken a\nuser 2\n").is_none());
    assert!(parse_store("admin 1\ntoken bad\\escape\n").is_none());
    assert!(parse_store("admin 1\nuser 2").is_none());
    assert!(parse_store("admin 1\nnonsense line\n").is_none());
}

#[test]
fn membership_survives_a_reload() {
    let mut t = UsersTable::new(100);
    t.add_user(42);
    t.add_token("tok123".to_string());
    let s = encode_store(&t.vectorize());
    let reloaded = UsersTable::from_users(&parse_store(s.as_str()).unwrap());
    assert_eq!(reloaded.get_admin(), 100);
    assert!(reloaded.check_user(42));
    assert!(reloaded.check_token("tok123".to_string()));
    let mut reloaded = reloaded;
    reloaded.del_user(42);
    assert!(!reloaded.check_user(42));
}

#[test]
fn empty_table_round_trips() {
    let t = UsersTable::new(0);
    let s = encode_store(&t.vectorize());
    assert_eq!(s, "admin 0\n");
    let back = parse_store(s.as_str()).unwrap();
    assert!(back.users.is_empty());
    assert!(back.mail_tokens.is_empty());
    assert_eq!(back.admin, 0);
}
