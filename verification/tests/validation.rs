use artilun_auth::util::{
    validate_email, validate_password, validate_username, EmailError, PasswordError,
    UsernameError,
};

#[test]
fn password_ok() {
    assert!(validate_password("Str0ng!Pass").is_ok());
    assert!(validate_password("Aa1!Aa1!").is_ok());
}

#[test]
fn password_missing_uppercase() {
    assert_eq!(
        validate_password("alllowercase1!").unwrap_err(),
        vec![PasswordError::NoUppercase]
    );
}

#[test]
fn password_missing_lowercase() {
    assert_eq!(
        validate_password("PASSWORD1!").unwrap_err(),
        vec![PasswordError::NoLowercase]
    );
}

#[test]
fn password_missing_digit() {
    assert_eq!(
        validate_password("Password!!").unwrap_err(),
        vec![PasswordError::NoNumbers]
    );
}

#[test]
fn password_missing_symbol() {
    assert_eq!(
        validate_password("Passw0rd11").unwrap_err(),
        vec![PasswordError::NoSpecialCharacters]
    );
}

#[test]
fn password_missing_several_classes_lists_each_once() {
    // Three classes missing: exactly those three entries, in rule order.
    assert_eq!(
        validate_password("password").unwrap_err(),
        vec![
            PasswordError::NoUppercase,
            PasswordError::NoNumbers,
            PasswordError::NoSpecialCharacters
        ]
    );
}

#[test]
fn password_length_bounds() {
    assert_eq!(
        validate_password("Aa1!567").unwrap_err(),
        vec![PasswordError::TooShort]
    );
    let long = format!("Aa1!{}", "x".repeat(100));
    assert_eq!(validate_password(&long).unwrap_err(), vec![PasswordError::TooLong]);
    assert!(validate_password("").unwrap_err().contains(&PasswordError::TooShort));
}

#[test]
fn username_rules() {
    assert!(validate_username("alice123").is_ok());
    assert_eq!(validate_username("ab").unwrap_err(), vec![UsernameError::TooShort]);
    let long = "x".repeat(33);
    assert_eq!(validate_username(&long).unwrap_err(), vec![UsernameError::TooLong]);
    assert_eq!(
        validate_username("bad!name").unwrap_err(),
        vec![UsernameError::NotAlphanumeric]
    );
    // One entry however many bad characters there are.
    assert_eq!(
        validate_username("a!!b??c").unwrap_err(),
        vec![UsernameError::NotAlphanumeric]
    );
}

#[test]
fn email_ok() {
    assert!(validate_email("a@example.com").is_ok());
    assert!(validate_email("a.b+c_d%e@mail.example.co").is_ok());
    assert!(validate_email("a@b.co").is_ok());
}

#[test]
fn email_shape_rejected() {
    assert_eq!(
        validate_email("nodomain").unwrap_err(),
        vec![EmailError::InvalidFormat]
    );
    assert_eq!(validate_email("a@b@c.com").unwrap_err(), vec![EmailError::InvalidFormat]);
    assert_eq!(validate_email("user@domain").unwrap_err(), vec![EmailError::InvalidFormat]);
    assert_eq!(validate_email("user@.com").unwrap_err(), vec![EmailError::InvalidFormat]);
    assert_eq!(validate_email("user@dom..x.com").unwrap_err(), vec![EmailError::InvalidFormat]);
    assert_eq!(validate_email("user@domain.c").unwrap_err(), vec![EmailError::InvalidFormat]);
    assert_eq!(validate_email("user@domain.c0m").unwrap_err(), vec![EmailError::InvalidFormat]);
}

#[test]
fn email_length_and_shape_report_together() {
    // Both checks always run: a short, shapeless input reports both rules.
    assert_eq!(
        validate_email("bad").unwrap_err(),
        vec![EmailError::TooShort, EmailError::InvalidFormat]
    );
    let long = format!("{}@example.com", "x".repeat(60));
    assert_eq!(validate_email(&long).unwrap_err(), vec![EmailError::TooLong]);
}
