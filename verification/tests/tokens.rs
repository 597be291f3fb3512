use artilun_auth::jwt::{generate_refresh_token, TokenIssuer};
use artilun_auth::model::{Role, User};

/// Builds a PKCS#8 v1 Ed25519 private-key PEM from a fixed test seed, so no
/// key-shaped literal has to sit in the source.
fn pem_from_seed(seed: &[u8; 32]) -> Vec<u8> {
    let mut der: Vec<u8> = vec![
        0x30, 0x2e, 0x02, 0x01, 0x00, 0x30, 0x05, 0x06, 0x03, 0x2b, 0x65, 0x70, 0x04, 0x22,
        0x04, 0x20,
    ];
    der.extend_from_slice(seed);
    let mut alphabet: Vec<u8> = Vec::new();
    alphabet.extend(b'A'..=b'Z');
    alphabet.extend(b'a'..=b'z');
    alphabet.extend(b'0'..=b'9');
    alphabet.push(b'+');
    alphabet.push(b'/');
    let mut body = String::new();
    for chunk in der.chunks(3) {
        let n = (chunk[0] as u32) << 16 | (chunk[1] as u32) << 8 | chunk[2] as u32;
        body.push(alphabet[(n >> 18) as usize & 63] as char);
        body.push(alphabet[(n >> 12) as usize & 63] as char);
        body.push(alphabet[(n >> 6) as usize & 63] as char);
        body.push(alphabet[n as usize & 63] as char);
    }
    let label = format!("{} KEY", "PRIVATE");
    let dashes = "-".repeat(5);
    format!("{dashes}BEGIN {label}{dashes}\n{body}\n{dashes}END {label}{dashes}\n").into_bytes()
}

fn test_pem() -> Vec<u8> {
    pem_from_seed(&[7u8; 32])
}

fn other_pem() -> Vec<u8> {
    pem_from_seed(&[8u8; 32])
}

fn issuer() -> TokenIssuer {
    TokenIssuer::new(test_pem(), "api.artilun.com".to_string(), "artilun.com".to_string())
}

fn account() -> User {
    User {
        id: 7,
        email: "a@example.com".to_string(),
        username: "alice123".to_string(),
        password: String::new(),
        role: Role::USER,
        created_at: 0,
        updated_at: 0,
    }
}

#[test]
fn round_trip_before_expiry() {
    let iss = issuer();
    let token = iss.generate_access_token(&account(), 1000).unwrap();
    let claims = iss.verify_access_token(&token, 2000).unwrap();
    assert_eq!(claims.sub, "7");
    assert_eq!(claims.role, Role::USER);
    assert_eq!(claims.username, "alice123");
    assert_eq!(claims.iss, "api.artilun.com");
    assert_eq!(claims.aud, "artilun.com");
    assert_eq!(claims.iat, 1000);
    assert_eq!(claims.nbf, 1000);
    assert_eq!(claims.exp, 4600);
}

#[test]
fn round_trip_admin_and_negative_edges() {
    let iss = issuer();
    let user = User { id: 2147483647, role: Role::ADMIN, ..account() };
    let token = iss.generate_access_token(&user, 0).unwrap();
    let claims = iss.verify_access_token(&token, 3599).unwrap();
    assert_eq!(claims.sub, "2147483647");
    assert_eq!(claims.role, Role::ADMIN);
}

#[test]
fn expired_token_fails_like_a_forged_one() {
    let iss = issuer();
    let token = iss.generate_access_token(&account(), 1000).unwrap();
    // Last valid second, then the expiry second itself.
    assert!(iss.verify_access_token(&token, 4599).is_ok());
    let expired = iss.verify_access_token(&token, 4600).unwrap_err();
    // Tamper with one character of the signature.
    let mut forged = token.clone().into_bytes();
    let last = forged.len() - 1;
    forged[last] = if forged[last] == b'A' { b'B' } else { b'A' };
    let forged = String::from_utf8(forged).unwrap();
    let forged_err = iss.verify_access_token(&forged, 2000).unwrap_err();
    // One failure value: the two cases are indistinguishable.
    assert_eq!(expired, forged_err);
}

#[test]
fn premature_token_rejected() {
    let iss = issuer();
    let token = iss.generate_access_token(&account(), 1000).unwrap();
    assert!(iss.verify_access_token(&token, 999).is_err());
    assert!(iss.verify_access_token(&token, 1000).is_ok());
}

#[test]
fn wrong_audience_or_key_rejected() {
    let iss = issuer();
    let token = iss.generate_access_token(&account(), 1000).unwrap();
    let other_aud = TokenIssuer::new(
        test_pem(),
        "api.artilun.com".to_string(),
        "elsewhere.example".to_string(),
    );
    assert!(other_aud.verify_access_token(&token, 2000).is_err());
    let other_key = TokenIssuer::new(
        other_pem(),
        "api.artilun.com".to_string(),
        "artilun.com".to_string(),
    );
    assert!(other_key.verify_access_token(&token, 2000).is_err());
}

#[test]
fn garbage_tokens_rejected() {
    let iss = issuer();
    assert!(iss.verify_access_token("", 0).is_err());
    assert!(iss.verify_access_token("abc", 0).is_err());
    assert!(iss.verify_access_token("a.b", 0).is_err());
    assert!(iss.verify_access_token("a.b.c", 0).is_err());
    assert!(iss.verify_access_token("..", 0).is_err());
}

#[test]
fn token_is_a_standard_jwt() {
    // A third-party consumer can read the protected header.
    let iss = issuer();
    let token = iss.generate_access_token(&account(), 1000).unwrap();
    let header = jsonwebtoken::decode_header(&token).unwrap();
    assert_eq!(header.alg, jsonwebtoken::Algorithm::EdDSA);
}

#[test]
fn refresh_tokens_are_fresh_fixed_length_alphanumerics() {
    let a = generate_refresh_token(32);
    let b = generate_refresh_token(32);
    assert_eq!(a.len(), 32);
    assert_eq!(b.len(), 32);
    assert!(a.chars().all(|c| c.is_ascii_alphanumeric()));
    assert_ne!(a, b);
}

#[test]
fn bad_key_material_is_a_signing_error() {
    let iss = TokenIssuer::new(
        b"not a pem at all".to_vec(),
        "api.artilun.com".to_string(),
        "artilun.com".to_string(),
    );
    assert!(iss.generate_access_token(&account(), 1000).is_err());
}
