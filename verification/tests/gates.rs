use session_auth::Claims;
use session_auth::JwtImpl;
use session_auth::middlewares::jwt_middleware;
use session_auth::middlewares::jwt_middleware::AuthDecision;
use session_auth::middlewares::refresh_middleware;

const NOW: u64 = 1_700_000_000;
const SECRET: &str = "a-very-well-kept-secret";

fn codec() -> JwtImpl {
    JwtImpl::new(String::from(SECRET))
}

fn token_of_kind(kind: &str, jti: &str) -> String {
    let claims = Claims::new(
        NOW + 3600,
        NOW,
        NOW,
        String::from("alice"),
        String::from(jti),
        String::from("user-1"),
        String::from(kind),
    );
    codec().sign(&claims)
}

fn access_gate() -> jwt_middleware::JwtMiddleware {
    let conf = jwt_middleware::Middleware { roles: vec![String::from("auth_token")] };
    conf.new_transform(codec())
}

fn refresh_gate() -> refresh_middleware::RefreshTokenMiddleware {
    let conf = refresh_middleware::Middleware { roles: vec![String::from("refresh_token")] };
    conf.new_transform(codec())
}

#[test]
fn access_gate_accepts_an_access_token() {
    let gate = access_gate();
    let header = format!("Bearer {}", token_of_kind("auth_token", "j-1"));
    match gate.call(Some(&header), NOW) {
        AuthDecision::Authorized { user_id, token } => {
            assert_eq!(user_id, "user-1");
            assert_eq!(format!("Bearer {}", token), header);
        }
        _ => panic!("a valid access token must be authorized"),
    }
}

#[test]
fn access_gate_rejects_a_refresh_token() {
    let gate = access_gate();
    let header = format!("Bearer {}", token_of_kind("refresh_token", "j-2"));
    assert!(matches!(gate.call(Some(&header), NOW), AuthDecision::Rejected(_)));
}

#[test]
fn refresh_gate_rejects_an_access_token() {
    let gate = refresh_gate();
    let header = format!("Bearer {}", token_of_kind("auth_token", "j-3"));
    assert!(matches!(gate.call(Some(&header), None, NOW), AuthDecision::Rejected(_)));
}

#[test]
fn refresh_gate_accepts_a_refresh_token_in_the_header() {
    let gate = refresh_gate();
    let header = format!("Bearer {}", token_of_kind("refresh_token", "j-4"));
    match gate.call(Some(&header), None, NOW) {
        AuthDecision::Authorized { user_id, .. } => assert_eq!(user_id, "user-1"),
        _ => panic!("a valid refresh token must be authorized"),
    }
}

#[test]
fn refresh_gate_accepts_the_cookie_as_fallback() {
    let gate = refresh_gate();
    let cookie = token_of_kind("refresh_token", "j-5");
    match gate.call(None, Some(&cookie), NOW) {
        AuthDecision::Authorized { token, .. } => assert_eq!(token, cookie),
        _ => panic!("the cookie is an accepted fallback source"),
    }
}

#[test]
fn header_takes_precedence_over_the_cookie() {
    let gate = refresh_gate();
    let header = format!("Bearer {}", token_of_kind("refresh_token", "j-6"));
    let cookie = String::from("not even a token");
    match gate.call(Some(&header), Some(&cookie), NOW) {
        AuthDecision::Authorized { token, .. } => {
            assert_eq!(format!("Bearer {}", token), header);
        }
        _ => panic!("the header credential wins"),
    }
    // A malformed header means the cookie is not consulted at all.
    let bad_header = token_of_kind("refresh_token", "j-7");  // no bearer marker
    let good_cookie = token_of_kind("refresh_token", "j-8");
    assert!(matches!(
        gate.call(Some(&bad_header), Some(&good_cookie), NOW),
        AuthDecision::Rejected(_)
    ));
}

#[test]
fn refresh_gate_checks_the_literal_kind_as_well() {
    // Even a gate misconfigured to accept access tokens refuses them
    // on the rotation path: the kind must be the literal refresh one.
    let conf = refresh_middleware::Middleware { roles: vec![String::from("auth_token")] };
    let gate = conf.new_transform(codec());
    let header = format!("Bearer {}", token_of_kind("auth_token", "j-9"));
    assert!(matches!(gate.call(Some(&header), None, NOW), AuthDecision::Rejected(_)));
}

#[test]
fn gates_reject_missing_malformed_and_expired_credentials() {
    let gate = access_gate();
    assert!(matches!(gate.call(None, NOW), AuthDecision::Rejected(_)));
    let no_bearer = String::from("Basic dXNlcjpwdw==");
    assert!(matches!(gate.call(Some(&no_bearer), NOW), AuthDecision::Rejected(_)));
    let expired = format!("Bearer {}", token_of_kind("auth_token", "j-10"));
    assert!(matches!(gate.call(Some(&expired), NOW + 7200), AuthDecision::Rejected(_)));
}

#[test]
fn a_gate_without_required_kinds_passes_through() {
    let conf = jwt_middleware::Middleware { roles: vec![] };
    let gate = conf.new_transform(codec());
    assert!(matches!(gate.call(None, NOW), AuthDecision::Pass));
    let rconf = refresh_middleware::Middleware { roles: vec![] };
    let rgate = rconf.new_transform(codec());
    assert!(matches!(rgate.call(None, None, NOW), AuthDecision::Pass));
}

#[test]
fn roles_is_valid_compares_kinds_exactly() {
    let roles = vec![String::from("auth_token"), String::from("refresh_token")];
    assert!(jwt_middleware::roles_is_valid(&roles, "auth_token"));
    assert!(refresh_middleware::roles_is_valid(&roles, "refresh_token"));
    assert!(!jwt_middleware::roles_is_valid(&roles, "auth_toke"));
    assert!(!jwt_middleware::roles_is_valid(&vec![], "auth_token"));
}

#[test]
fn extract_token_reads_header_then_cookie() {
    let header = String::from("Bearer tok-1");
    let cookie = String::from("tok-2");
    assert_eq!(refresh_middleware::extract_token(Some(&header), Some(&cookie)).unwrap(), "tok-1");
    assert_eq!(refresh_middleware::extract_token(None, Some(&cookie)).unwrap(), "tok-2");
    assert!(refresh_middleware::extract_token(None, None).is_none());
    let bad = String::from("tok-3");
    assert!(refresh_middleware::extract_token(Some(&bad), Some(&cookie)).is_none());
}
