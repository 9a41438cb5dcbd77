use session_auth::PgRow;
use session_auth::QueryUser;
use session_auth::RedisImpl;
use session_auth::UpdateUser;
use session_auth::user_service;

#[test]
fn mark_revoked_is_idempotent() {
    let mut store = RedisImpl::new();
    assert!(!store.is_revoked("jti-1"));
    store.mark_revoked("jti-1", 1000);
    assert!(store.is_revoked("jti-1"));
    store.mark_revoked("jti-1", 1000);
    assert!(store.is_revoked("jti-1"));
    assert!(!store.is_revoked("jti-2"));
}

#[test]
fn revocation_entries_live_as_long_as_their_tokens() {
    let mut store = RedisImpl::new();
    store.mark_revoked("jti-1", 1000);
    // Before the token's expiry the veto stays.
    store.remove_expired("jti-1", 500);
    assert!(store.is_revoked("jti-1"));
    // Afterwards it may be dropped: the token fails verification on
    // its own.
    store.remove_expired("jti-1", 2000);
    assert!(!store.is_revoked("jti-1"));
    // A marker that names no expiry is kept, whatever the time.
    store.execute("jti-2", "true").unwrap();
    store.remove_expired("jti-2", u64::MAX);
    assert!(store.is_revoked("jti-2"));
}

#[test]
fn store_reads_back_what_was_written() {
    let mut store = RedisImpl::new();
    match store.query_one("k") {
        Err(e) => assert_eq!(e, "no data in redis"),
        Ok(_) => panic!("an unwritten key must miss"),
    }
    store.execute("k", "true").unwrap();
    let row = store.query_one("k").unwrap();
    assert_eq!(row.row, vec![String::from("true")]);
    store.execute("k", "later").unwrap();
    assert_eq!(store.query_one("k").unwrap().row, vec![String::from("later")]);
    assert!(store.query("anything").is_empty());
}

#[test]
fn user_rows_map_to_users() {
    let mut row = PgRow::new();
    row.push_value(String::from("id-1"));
    row.push_value(String::from("Alice"));
    row.push_value(String::from("alice"));
    let u = user_service::user_from_row(&row).unwrap();
    assert_eq!(u.id, "id-1");
    assert_eq!(u.name, "Alice");
    assert_eq!(u.username, "alice");

    let mut short = PgRow::new();
    short.push_value(String::from("id-2"));
    assert!(user_service::user_from_row(&short).is_none());
    assert!(user_service::users_from_rows(&vec![row, short]).is_none());
}

#[test]
fn listing_queries_are_built_exactly() {
    let plain = QueryUser { q: None, limit: None, offset: None };
    let (sql, total) = user_service::users_query(&plain);
    assert_eq!(sql, "SELECT id, name, username FROM users LIMIT 10 OFFSET 0");
    assert_eq!(total, "SELECT COUNT(*)::TEXT as total FROM users");

    let filtered = QueryUser { q: Some(String::from("bob")), limit: Some(5), offset: Some(20) };
    let (sql, total) = user_service::users_query(&filtered);
    assert_eq!(
        sql,
        "SELECT id, name, username FROM users WHERE username ILIKE '%bob%' OR name ILIKE '%bob%' LIMIT 5 OFFSET 20"
    );
    assert_eq!(
        total,
        "SELECT COUNT(*)::TEXT as total FROM users WHERE username ILIKE '%bob%' OR name ILIKE '%bob%'"
    );
}

#[test]
fn update_query_requires_a_username() {
    let both = UpdateUser { name: Some(String::from("Alice")), username: Some(String::from("alice")) };
    assert_eq!(
        user_service::update_user_query(&both).unwrap(),
        "UPDATE users SET name = $1, username = $2 WHERE id = $3"
    );
    let empty = UpdateUser { name: Some(String::from("Alice")), username: Some(String::new()) };
    assert!(user_service::update_user_query(&empty).is_none());
}

#[test]
fn totals_parse_exactly_or_fall_back_to_zero() {
    assert_eq!(user_service::parse_total("42"), 42);
    assert_eq!(user_service::parse_total("0"), 0);
    assert_eq!(user_service::parse_total("007"), 0);
    assert_eq!(user_service::parse_total("12x"), 0);
    assert_eq!(user_service::parse_total(""), 0);
    assert_eq!(user_service::parse_total("9223372036854775807"), i64::MAX);
    assert_eq!(user_service::parse_total("9223372036854775808"), 0);
}
