use teleprint::access::{Users, UsersTable};

#[test]
fn added_user_is_authorized_until_removed() {
    let mut t = UsersTable::new(100);
    assert!(!t.check_user(42));
    t.add_user(42);
    assert!(t.check_user(42));
    t.add_user(7);
    assert!(t.check_user(42));
    t.del_user(7);
    assert!(t.check_user(42));
    t.del_user(42);
    assert!(!t.check_user(42));
}

#[test]
fn token_add_remove_readd() {
    let mut t = UsersTable::new(1);
    t.add_token("tok123".to_string());
    assert!(t.check_token("tok123".to_string()));
    t.del_token("tok123".to_string());
    assert!(!t.check_token("tok123".to_string()));
    t.add_token("tok123".to_string());
    assert!(t.check_token("tok123".to_string()));
}

#[test]
fn adding_twice_does_not_duplicate() {
    let mut t = UsersTable::new(1);
    t.add_user(5);
    t.add_user(5);
    let v = t.vectorize();
    assert_eq!(v.users, vec![5]);
    t.add_token("a".to_string());
    t.add_token("a".to_string());
    let v = t.vectorize();
    assert_eq!(v.mail_tokens, vec!["a".to_string()]);
}

#[test]
fn removing_absent_member_changes_nothing() {
    let mut t = UsersTable::new(1);
    t.add_user(5);
    t.del_user(6);
    assert!(t.check_user(5));
    t.del_token("nope".to_string());
    let v = t.vectorize();
    assert_eq!(v.users, vec![5]);
    assert!(v.mail_tokens.is_empty());
}

#[test]
fn admin_id_is_set_and_read() {
    let mut t = UsersTable::new(0);
    assert_eq!(t.get_admin(), 0);
    t.set_admin(100);
    assert_eq!(t.get_admin(), 100);
}

#[test]
fn from_users_discards_duplicates() {
    let data = Users {
        users: vec![3, 3, 4],
        admin: 9,
        mail_tokens: vec!["x".to_string(), "x".to_string(), "y".to_string()],
    };
    let t = UsersTable::from_users(&data);
    assert_eq!(t.get_admin(), 9);
    assert!(t.check_user(3));
    assert!(t.check_user(4));
    assert!(!t.check_user(5));
    let v = t.vectorize();
    assert_eq!(v.users.len(), 2);
    assert_eq!(v.mail_tokens.len(), 2);
    assert!(t.check_token("x".to_string()));
    assert!(t.check_token("y".to_string()));
}
