use session_auth::Claims;
use session_auth::JwtImpl;

const NOW: u64 = 1_700_000_000;

fn codec() -> JwtImpl {
    JwtImpl::new(String::from("a-very-well-kept-secret"))
}

fn sample_claims() -> Claims {
    Claims::new(
        NOW + 3600,
        NOW,
        NOW,
        String::from("alice"),
        String::from("11111111-2222-4333-8444-555555555555"),
        String::from("user-1"),
        String::from("auth_token"),
    )
}

#[test]
fn round_trip_preserves_every_field() {
    let jwt = codec();
    let claims = sample_claims();
    let token = jwt.sign(&claims);
    let back = jwt.extract_at(&token, NOW).expect("a signed token must extract");
    assert_eq!(back.exp, NOW + 3600);
    assert_eq!(back.iat, NOW);
    assert_eq!(back.nbf, NOW);
    assert_eq!(back.sub, "alice");
    assert_eq!(back.jti, "11111111-2222-4333-8444-555555555555");
    assert_eq!(back.additional_claims.user_id, "user-1");
    assert_eq!(back.additional_claims.kind, "auth_token");
}

#[test]
fn round_trip_keeps_awkward_characters() {
    let jwt = codec();
    let claims = Claims::new(
        NOW + 60,
        NOW,
        NOW,
        String::from("semi;colon:and.dot=eq"),
        String::from("id.with.dots"),
        String::from("uid;kind=9:x"),
        String::from("refresh_token"),
    );
    let token = jwt.sign(&claims);
    let back = jwt.extract_at(&token, NOW).expect("extraction");
    assert_eq!(back.sub, "semi;colon:and.dot=eq");
    assert_eq!(back.jti, "id.with.dots");
    assert_eq!(back.additional_claims.user_id, "uid;kind=9:x");
    assert_eq!(back.additional_claims.kind, "refresh_token");
}

#[test]
fn tampering_with_any_byte_is_detected() {
    let jwt = codec();
    let token = jwt.sign(&sample_claims());
    assert!(jwt.verify_at(&token, NOW));
    let bytes = token.clone().into_bytes();
    for i in 0..bytes.len() {
        let mut flipped = bytes.clone();
        flipped[i] ^= 1;
        if let Ok(bad) = String::from_utf8(flipped) {
            assert!(!jwt.verify_at(&bad, NOW), "flipped byte {} went unnoticed", i);
            assert!(jwt.extract_at(&bad, NOW).is_none());
        }
    }
}

#[test]
fn expired_token_fails_even_with_valid_signature() {
    let jwt = codec();
    let claims = Claims::new(NOW - 10, NOW - 100, NOW - 100, String::from("alice"),
        String::from("jti-exp"), String::from("user-1"), String::from("auth_token"));
    let token = jwt.sign(&claims);
    assert!(!jwt.verify_at(&token, NOW));
    assert!(jwt.extract_at(&token, NOW).is_none());
    // The signature is still genuine: sign-out style extraction sees it.
    let signed = jwt.extract_signed(&token).expect("signature is intact");
    assert_eq!(signed.jti, "jti-exp");
}

#[test]
fn token_not_yet_valid_fails() {
    let jwt = codec();
    let claims = Claims::new(NOW + 1000, NOW + 500, NOW + 500, String::from("alice"),
        String::from("jti-nbf"), String::from("user-1"), String::from("auth_token"));
    let token = jwt.sign(&claims);
    assert!(!jwt.verify_at(&token, NOW));
    assert!(jwt.verify_at(&token, NOW + 600));
}

#[test]
fn wrong_key_rejects_the_token() {
    let jwt = codec();
    let other = JwtImpl::new(String::from("another-secret"));
    let token = jwt.sign(&sample_claims());
    assert!(jwt.verify_at(&token, NOW));
    assert!(!other.verify_at(&token, NOW));
    assert!(other.extract_signed(&token).is_none());
}

#[test]
fn malformed_tokens_never_extract() {
    let jwt = codec();
    assert!(jwt.extract_signed("").is_none());
    assert!(jwt.extract_signed("no dots here").is_none());
    assert!(jwt.extract_signed("HS256.").is_none());
    assert!(jwt.extract_signed("HS256.exp=1;iat=1;nbf=1.fakesig").is_none());
    assert!(jwt.extract_signed("HS384.whatever.sig").is_none());
}

#[test]
fn round_trip_of_empty_fields_and_extreme_expiry() {
    let jwt = codec();
    let claims = Claims::new(
        u64::MAX,
        0,
        0,
        String::new(),
        String::new(),
        String::new(),
        String::new(),
    );
    let token = jwt.sign(&claims);
    let back = jwt.extract_at(&token, NOW).expect("extraction");
    assert_eq!(back.exp, u64::MAX);
    assert_eq!(back.nbf, 0);
    assert_eq!(back.sub, "");
    assert_eq!(back.jti, "");
    assert_eq!(back.additional_claims.user_id, "");
    assert_eq!(back.additional_claims.kind, "");
}

#[test]
fn round_trip_keeps_characters_beyond_ascii() {
    let jwt = codec();
    let claims = Claims::new(
        NOW + 60,
        NOW,
        NOW,
        String::from("ülicé 画像"),
        String::from("jti-ø"),
        String::from("user-λ"),
        String::from("auth_token"),
    );
    let token = jwt.sign(&claims);
    let back = jwt.extract_at(&token, NOW).expect("extraction");
    assert_eq!(back.sub, "ülicé 画像");
    assert_eq!(back.jti, "jti-ø");
    assert_eq!(back.additional_claims.user_id, "user-λ");
}

#[test]
fn token_has_three_parts_label_first() {
    let jwt = codec();
    let token = jwt.sign(&sample_claims());
    assert!(token.starts_with("HS256."));
    let sig_start = token.rfind('.').unwrap();
    assert!(sig_start > 6);
    assert!(!token[sig_start + 1..].contains('.'));
    assert!(!token[sig_start + 1..].is_empty());
}
