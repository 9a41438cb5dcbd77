use session_auth::AuthServiceImpl;
use session_auth::Claims;
use session_auth::Bcrypt;
use session_auth::JwtImpl;
use session_auth::PgRow;
use session_auth::RedisImpl;
use session_auth::RefreshOutcome;
use session_auth::SignInData;
use session_auth::SignUpData;

const NOW: u64 = 1_700_000_000;
const SECRET: &str = "a-very-well-kept-secret";

fn service() -> AuthServiceImpl {
    AuthServiceImpl::new(Bcrypt::new(), JwtImpl::new(String::from(SECRET)), RedisImpl::new())
}

fn stored_row(user_id: &str, username: &str, password: &str) -> PgRow {
    let hasher = Bcrypt::new();
    let hash = hasher.hash(password).expect("hashing");
    let mut row = PgRow::new();
    row.push_value(String::from(user_id));
    row.push_value(String::from(username));
    row.push_value(hash);
    row
}

#[test]
fn sign_in_issues_a_pair_with_exact_windows() {
    let svc = service();
    let jwt = JwtImpl::new(String::from(SECRET));
    let row = stored_row("user-1", "alice", "pw123");
    let pair = svc
        .sign_in_at(Some(&row), "pw123", NOW, "jti-access", "jti-refresh")
        .expect("valid credentials sign in");
    let access = jwt.extract_at(&pair.token, NOW).expect("access token extracts");
    assert_eq!(access.exp, NOW + 3600);
    assert_eq!(access.iat, NOW);
    assert_eq!(access.nbf, NOW);
    assert_eq!(access.sub, "alice");
    assert_eq!(access.jti, "jti-access");
    assert_eq!(access.additional_claims.user_id, "user-1");
    assert_eq!(access.additional_claims.kind, "auth_token");
    let refresh = jwt.extract_at(&pair.refresh_token, NOW).expect("refresh token extracts");
    assert_eq!(refresh.exp, NOW + 2419200);
    assert_eq!(refresh.jti, "jti-refresh");
    assert_eq!(refresh.additional_claims.kind, "refresh_token");
}

#[test]
fn credential_failures_are_indistinguishable() {
    let svc = service();
    let row = stored_row("user-1", "alice", "right-password");
    let missing_user = svc.sign_in_at(None, "right-password", NOW, "j1", "j2");
    let wrong_password = svc.sign_in_at(Some(&row), "wrong-password", NOW, "j1", "j2");
    assert!(missing_user.is_none());
    assert!(wrong_password.is_none());
}

#[test]
fn sign_in_with_clock_and_fresh_identifiers() {
    let svc = service();
    let row = stored_row("user-1", "alice", "pw123");
    let data = SignInData { username: String::from("alice"), password: String::from("pw123") };
    assert!(svc.sign_in(Some(&row), &data).is_some());
    let bad = SignInData { username: String::from("alice"), password: String::from("nope") };
    assert!(svc.sign_in(Some(&row), &bad).is_none());
}

#[test]
fn sign_up_hashes_and_never_stores_the_password() {
    let svc = service();
    let data = SignUpData {
        name: String::from("Alice"),
        username: String::from("alice"),
        password: String::from("pw123"),
    };
    let rec = svc.sign_up(&data).expect("hashing is available");
    assert_eq!(rec.name, "Alice");
    assert_eq!(rec.username, "alice");
    assert_ne!(rec.password_hash, "pw123");
    let hasher = Bcrypt::new();
    assert!(hasher.verify("pw123", &rec.password_hash));
    assert!(!hasher.verify("pw124", &rec.password_hash));
}

#[test]
fn refresh_before_sign_out_rotates_after_sign_out_reports_revoked() {
    let mut svc = service();
    let row = stored_row("user-1", "alice", "pw123");
    let pair = svc.sign_in_at(Some(&row), "pw123", NOW, "jti-a", "jti-r").expect("sign in");

    match svc.refresh_at(&pair.refresh_token, NOW + 10) {
        RefreshOutcome::NewToken(t) => assert!(!t.is_empty()),
        _ => panic!("an unrevoked refresh token must rotate"),
    }

    svc.sign_out(&pair.token, &pair.refresh_token).expect("sign out succeeds");

    assert!(matches!(svc.refresh_at(&pair.refresh_token, NOW + 20), RefreshOutcome::Revoked));
    assert!(matches!(svc.refresh_at(&pair.token, NOW + 20), RefreshOutcome::Revoked));
}

#[test]
fn gain_new_token_owes_success_for_an_always_valid_credential() {
    // A genuine, unrevoked token whose window spans every instant
    // the clock can report: rotation is owed outright, whatever the
    // clock says.
    let svc = service();
    let jwt = JwtImpl::new(String::from(SECRET));
    let claims = Claims::new(
        u64::MAX,
        0,
        0,
        String::from("alice"),
        String::from("jti-forever"),
        String::from("user-1"),
        String::from("refresh_token"),
    );
    let token = jwt.sign(&claims);
    let fresh = svc
        .gain_new_token(&token)
        .expect("rotation never errors")
        .expect("an always-valid unrevoked credential must rotate");
    let back = jwt.extract_signed(&fresh).expect("the rotation is genuine");
    assert_eq!(back.jti, "jti-forever");
    assert_eq!(back.additional_claims.user_id, "user-1");
}

#[test]
fn refresh_with_garbage_is_invalid_not_revoked() {
    let svc = service();
    assert!(matches!(svc.refresh_at("garbage", NOW), RefreshOutcome::Invalid));
    let ok = svc.gain_new_token("garbage").expect("collapsed interface never errors");
    assert!(ok.is_none());
}

#[test]
fn refresh_of_expired_token_is_invalid() {
    let svc = service();
    let row = stored_row("user-1", "alice", "pw123");
    let pair = svc.sign_in_at(Some(&row), "pw123", NOW, "jti-a", "jti-r").expect("sign in");
    let after_expiry = NOW + 2419200 + 1;
    assert!(matches!(svc.refresh_at(&pair.refresh_token, after_expiry), RefreshOutcome::Invalid));
}

#[test]
fn sign_out_of_garbage_tokens_is_an_error() {
    let mut svc = service();
    assert!(svc.sign_out("garbage", "also garbage").is_err());
}

#[test]
fn sign_out_accepts_expired_but_genuine_tokens() {
    let mut svc = service();
    let row = stored_row("user-1", "alice", "pw123");
    let pair = svc.sign_in_at(Some(&row), "pw123", NOW, "jti-a", "jti-r").expect("sign in");
    // Even far past both expiries the tokens stay structurally
    // genuine, which is all sign-out asks.
    assert!(svc.sign_out(&pair.token, &pair.refresh_token).is_ok());
    assert!(matches!(svc.refresh_at(&pair.refresh_token, NOW + 5), RefreshOutcome::Revoked));
}

#[test]
fn purging_an_expired_revocation_frees_no_live_token() {
    let mut svc = service();
    let row = stored_row("user-1", "alice", "pw123");
    let pair = svc.sign_in_at(Some(&row), "pw123", NOW, "jti-a", "jti-r").expect("sign in");
    svc.sign_out(&pair.token, &pair.refresh_token).expect("sign out");
    // Before the refresh token's expiry the entry stays.
    svc.purge_revocation("jti-r", NOW + 10);
    assert!(matches!(svc.refresh_at(&pair.refresh_token, NOW + 10), RefreshOutcome::Revoked));
    // After it, dropping the entry changes nothing a caller can use:
    // the token is expired and fails verification on its own.
    let past_expiry = NOW + 2419200 + 1;
    svc.purge_revocation("jti-r", past_expiry);
    assert!(matches!(svc.refresh_at(&pair.refresh_token, past_expiry), RefreshOutcome::Invalid));
}

#[test]
fn end_to_end_alice_signs_up_in_refreshes_and_out() {
    let mut svc = service();
    let jwt = JwtImpl::new(String::from(SECRET));

    // Sign up alice/pw123; the stored row is what persistence keeps.
    let profile = SignUpData {
        name: String::from("Alice"),
        username: String::from("alice"),
        password: String::from("pw123"),
    };
    let rec = svc.sign_up(&profile).expect("sign up");
    let mut row = PgRow::new();
    row.push_value(String::from("user-1"));
    row.push_value(rec.username.clone());
    row.push_value(rec.password_hash.clone());

    // Sign in and receive the pair.
    let pair = svc.sign_in_at(Some(&row), "pw123", NOW, "jti-a", "jti-r").expect("sign in");

    // Refresh with the refresh token: a new token for the same user,
    // with the kind and identifier of the presented token preserved.
    let rotated = match svc.refresh_at(&pair.refresh_token, NOW + 100) {
        RefreshOutcome::NewToken(t) => t,
        _ => panic!("refresh must rotate before sign-out"),
    };
    let rotated_claims = jwt.extract_at(&rotated, NOW + 100).expect("rotated token extracts");
    assert_eq!(rotated_claims.additional_claims.user_id, "user-1");
    assert_eq!(rotated_claims.sub, "alice");
    assert_eq!(rotated_claims.jti, "jti-r");
    assert_eq!(rotated_claims.additional_claims.kind, "refresh_token");
    assert_eq!(rotated_claims.exp, NOW + 100 + 3600);

    // Sign out with both tokens; the original refresh token is now refused.
    svc.sign_out(&pair.token, &pair.refresh_token).expect("sign out");
    assert!(matches!(svc.refresh_at(&pair.refresh_token, NOW + 200), RefreshOutcome::Revoked));
    // The rotated token shares the identifier, so the whole lineage is cut.
    assert!(matches!(svc.refresh_at(&rotated, NOW + 200), RefreshOutcome::Revoked));
}
