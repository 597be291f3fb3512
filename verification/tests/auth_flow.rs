use artilun_auth::auth::{
    Auth, InsertAccountError, LoginPayload, RegisterPayload,
};
use artilun_auth::hashing::Hasher;
use artilun_auth::jwt::TokenIssuer;
use artilun_auth::model::{Role, User};

/// Builds a PKCS#8 v1 Ed25519 private-key PEM from a fixed test seed, so no
/// key-shaped literal has to sit in the source.
fn pem_from_seed(seed: &[u8; 32]) -> Vec<u8> {
    let mut der: Vec<u8> = vec![
        0x30, 0x2e, 0x02, 0x01, 0x00, 0x30, 0x05, 0x06, 0x03, 0x2b, 0x65, 0x70, 0x04, 0x22,
        0x04, 0x20,
    ];
    der.extend_from_slice(seed);
    let mut alphabet: Vec<u8> = Vec::new();
    alphabet.extend(b'A'..=b'Z');
    alphabet.extend(b'a'..=b'z');
    alphabet.extend(b'0'..=b'9');
    alphabet.push(b'+');
    alphabet.push(b'/');
    let mut body = String::new();
    for chunk in der.chunks(3) {
        let n = (chunk[0] as u32) << 16 | (chunk[1] as u32) << 8 | chunk[2] as u32;
        body.push(alphabet[(n >> 18) as usize & 63] as char);
        body.push(alphabet[(n >> 12) as usize & 63] as char);
        body.push(alphabet[(n >> 6) as usize & 63] as char);
        body.push(alphabet[n as usize & 63] as char);
    }
    let label = format!("{} KEY", "PRIVATE");
    let dashes = "-".repeat(5);
    format!("{dashes}BEGIN {label}{dashes}\n{body}\n{dashes}END {label}{dashes}\n").into_bytes()
}

fn auth() -> Auth {
    Auth::new(
        Hasher::new(b"test pepper".to_vec()),
        TokenIssuer::new(
            pem_from_seed(&[7u8; 32]),
            "api.artilun.com".to_string(),
            "artilun.com".to_string(),
        ),
    )
}

#[test]
fn conflicts_name_their_field() {
    // A duplicate email and a duplicate username come back from persistence
    // as named constraint violations; each maps to its own field.
    let dup_email = Err(InsertAccountError::Constraint("users_email_key".to_string()));
    let p = Auth::register_outcome(&dup_email).unwrap_err();
    assert_eq!(p.status, 400);
    assert_eq!(p.title, "Invalid email");
    assert_eq!(p.detail, "The email already exists.");

    let dup_username = Err(InsertAccountError::Constraint("users_username_key".to_string()));
    let p = Auth::register_outcome(&dup_username).unwrap_err();
    assert_eq!(p.title, "Invalid username");
    assert_eq!(p.detail, "The username already exists.");

    let unknown = Err(InsertAccountError::Constraint("refresh_tokens_pkey".to_string()));
    let p = Auth::register_outcome(&unknown).unwrap_err();
    assert_eq!(p.title, "Failed to register");
    assert_eq!(p.detail, "Failed to register user.");

    let other = Err(InsertAccountError::Other);
    let p = Auth::register_outcome(&other).unwrap_err();
    assert_eq!(p.title, "Failed to register");

    assert_eq!(Auth::register_outcome(&Ok(())), Ok(201));
}

#[test]
fn invalid_registration_reports_every_field() {
    let a = auth();
    let bad = RegisterPayload {
        email: "bad".to_string(),
        username: "a!".to_string(),
        password: "short".to_string(),
    };
    let p = a.register(&bad).unwrap_err();
    assert_eq!(p.status, 400);
    assert_eq!(p.title, "Invalid form");
    assert_eq!(p.form.len(), 3);
    assert_eq!(p.form[0].field, "email");
    assert_eq!(p.form[0].issues, vec!["TooShort", "InvalidFormat"]);
    assert_eq!(p.form[1].field, "username");
    assert_eq!(p.form[1].issues, vec!["TooShort", "NotAlphanumeric"]);
    assert_eq!(p.form[2].field, "password");
    assert_eq!(
        p.form[2].issues,
        vec!["TooShort", "NoUppercase", "NoNumbers", "NoSpecialCharacters"]
    );
}

#[test]
fn wrong_password_and_unknown_email_are_byte_identical() {
    let a = auth();
    let account = a
        .register(&RegisterPayload {
            email: "a@example.com".to_string(),
            username: "alice123".to_string(),
            password: "Str0ng!Pass".to_string(),
        })
        .unwrap();
    let user = User {
        id: 1,
        email: account.email.clone(),
        username: account.username.clone(),
        password: account.password_hash.clone(),
        role: Role::USER,
        created_at: 0,
        updated_at: 0,
    };
    let wrong_password = a
        .login(
            &LoginPayload { email: "a@example.com".to_string(), password: "wrong".to_string() },
            Some(&user),
            1000,
        )
        .unwrap_err();
    let unknown_email = a
        .login(
            &LoginPayload { email: "b@example.com".to_string(), password: "wrong".to_string() },
            None,
            1000,
        )
        .unwrap_err();
    assert_eq!(wrong_password.status, unknown_email.status);
    assert_eq!(wrong_password.title, unknown_email.title);
    assert_eq!(wrong_password.detail, unknown_email.detail);
    assert_eq!(wrong_password.form.len(), 0);
    assert_eq!(unknown_email.form.len(), 0);
    assert_eq!(wrong_password.status, 400);
    assert_eq!(wrong_password.title, "Invalid email or password");
    assert_eq!(wrong_password.detail, "The email or password used is invalid.");
}

#[test]
fn register_then_login_scenario() {
    let a = auth();
    // Registration succeeds with zero form issues.
    let account = a
        .register(&RegisterPayload {
            email: "a@example.com".to_string(),
            username: "alice123".to_string(),
            password: "Str0ng!Pass".to_string(),
        })
        .unwrap();
    assert_eq!(account.email, "a@example.com");
    assert_eq!(account.username, "alice123");
    assert_eq!(Auth::register_outcome(&Ok(())), Ok(201));
    let user = User {
        id: 1,
        email: account.email.clone(),
        username: account.username.clone(),
        password: account.password_hash.clone(),
        role: Role::USER,
        created_at: 0,
        updated_at: 0,
    };
    // Login with the wrong password: invalid credentials.
    let p = a
        .login(
            &LoginPayload { email: "a@example.com".to_string(), password: "wrong".to_string() },
            Some(&user),
            1000,
        )
        .unwrap_err();
    assert_eq!(p.title, "Invalid email or password");
    // Login with the correct password: two distinct non-empty tokens.
    let success = a
        .login(
            &LoginPayload {
                email: "a@example.com".to_string(),
                password: "Str0ng!Pass".to_string(),
            },
            Some(&user),
            1000,
        )
        .unwrap();
    assert!(!success.payload.access_token.is_empty());
    assert!(!success.payload.refresh_token.is_empty());
    assert_ne!(success.payload.access_token, success.payload.refresh_token);
    assert_eq!(success.refresh_record.user_id, 1);
    assert_eq!(success.refresh_record.token, success.payload.refresh_token);
    assert!(Auth::store_refresh_outcome(true).is_ok());
    let stored_failed = Auth::store_refresh_outcome(false).unwrap_err();
    assert_eq!(stored_failed.status, 500);
    // The issued access token verifies and carries the account's identity.
    let claims = a.issuer.verify_access_token(&success.payload.access_token, 1500).unwrap();
    assert_eq!(claims.sub, "1");
    assert_eq!(claims.role, Role::USER);
}

#[test]
fn role_names_round_trip() {
    assert_eq!(Role::from_str("ADMIN"), Ok(Role::ADMIN));
    assert_eq!(Role::from_str("USER"), Ok(Role::USER));
    assert_eq!(Role::from_str("user"), Err(()));
    assert_eq!(Role::ADMIN.as_str(), "ADMIN");
    assert_eq!(Role::USER.as_str(), "USER");
}
