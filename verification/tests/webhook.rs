use artemis::update::check_webhook;
use artemis::update::compute_digest;
use artemis::update::github_secret;
use artemis::update::to_hex;
use artemis::update::update_response;
use artemis::update::verify_signature;

#[test]
fn to_hex_renders_lowercase_pairs() {
    assert_eq!(to_hex(&[0x00u8, 0xff, 0x1a]), "00ff1a");
    assert_eq!(to_hex(&[]), "");
    assert_eq!(to_hex(&[0x0f]), "0f");
}

#[test]
fn digest_matches_published_hmac_sha256_vector() {
    // RFC 4231 test case 2.
    let digest = compute_digest("Jefe", b"what do ya want for nothing?");
    assert_eq!(
        digest,
        "5bdcc146bf60754e6a042426089575c75a003f089d2739839dec58b964ec3843"
    );
}

#[test]
fn verify_accepts_own_digest() {
    let secret = "s3cr3t";
    let body = b"some webhook payload";
    let sig = compute_digest(secret, body);
    assert!(verify_signature(secret, body, &sig));
}

#[test]
fn verify_is_case_insensitive() {
    let secret = "s3cr3t";
    let body = b"some webhook payload";
    let sig = compute_digest(secret, body).to_uppercase();
    assert!(verify_signature(secret, body, &sig));
}

#[test]
fn verify_rejects_flipped_body_bit() {
    let secret = "s3cr3t";
    let body = b"some webhook payload".to_vec();
    let sig = compute_digest(secret, &body);
    let mut flipped = body.clone();
    flipped[0] ^= 1;
    assert!(!verify_signature(secret, &flipped, &sig));
}

#[test]
fn verify_rejects_changed_secret() {
    let body = b"some webhook payload";
    let sig = compute_digest("s3cr3t", body);
    assert!(!verify_signature("s3cr3u", body, &sig));
}

#[test]
fn header_value_yields_signature_after_equals() {
    assert_eq!(github_secret("sha256=abcdef").unwrap(), "abcdef");
    assert_eq!(github_secret("sha256= abcdef \t").unwrap(), "abcdef");
    assert_eq!(github_secret("a=b=c").unwrap(), "b");
    assert!(github_secret("no-equals-here").is_none());
}

#[test]
fn extractor_wraps_the_presented_signature() {
    let secret = artemis::update::GithubSecret::from_header_value("sha256=cafe").unwrap();
    assert_eq!(secret.0, "cafe");
    assert!(artemis::update::GithubSecret::from_header_value("bare value").is_none());
}

#[test]
fn check_webhook_end_to_end() {
    let secret = "shared";
    let body = b"push event";
    let header = format!("sha256={}", compute_digest(secret, body));
    assert!(check_webhook(secret, body, &header));
    assert!(!check_webhook(secret, b"other body", &header));
    assert!(!check_webhook(secret, body, "sha256=deadbeef"));
    assert!(!check_webhook(secret, body, "malformed-header"));
}

#[test]
fn response_is_ok_only_when_authorized() {
    assert_eq!(update_response(true), 200);
    assert_eq!(update_response(false), 401);
}
