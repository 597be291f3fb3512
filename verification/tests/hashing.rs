use artilun_auth::hashing::Hasher;

#[test]
fn hash_then_verify_same_plaintext_is_true() {
    let hasher = Hasher::new(b"test pepper".to_vec());
    let password = b"Str0ng!Pass".to_vec();
    let hash = hasher.hash_password(&password).unwrap();
    assert_eq!(hasher.verify_password(&hash, &password), Ok(true));
}

#[test]
fn single_byte_alterations_are_false() {
    let hasher = Hasher::new(b"test pepper".to_vec());
    let password = b"Str0ng!Pass".to_vec();
    let hash = hasher.hash_password(&password).unwrap();
    let mut first = password.clone();
    first[0] ^= 1;
    assert_eq!(hasher.verify_password(&hash, &first), Ok(false));
    let mut last = password.clone();
    let end = last.len() - 1;
    last[end] ^= 1;
    assert_eq!(hasher.verify_password(&hash, &last), Ok(false));
}

#[test]
fn two_hashes_of_one_password_use_distinct_salts_and_both_verify() {
    let hasher = Hasher::new(b"test pepper".to_vec());
    let password = b"Str0ng!Pass".to_vec();
    let h1 = hasher.hash_password(&password).unwrap();
    let h2 = hasher.hash_password(&password).unwrap();
    assert_ne!(h1, h2);
    assert_eq!(hasher.verify_password(&h1, &password), Ok(true));
    assert_eq!(hasher.verify_password(&h2, &password), Ok(true));
}

#[test]
fn wrong_pepper_does_not_verify() {
    let hasher = Hasher::new(b"test pepper".to_vec());
    let password = b"Str0ng!Pass".to_vec();
    let hash = hasher.hash_password(&password).unwrap();
    let other = Hasher::new(b"another pepper".to_vec());
    assert_eq!(other.verify_password(&hash, &password), Ok(false));
}

#[test]
fn malformed_stored_hash_is_an_error_not_a_mismatch() {
    let hasher = Hasher::new(b"test pepper".to_vec());
    let password = b"Str0ng!Pass".to_vec();
    assert!(hasher.verify_password(&"not an encoded hash".to_string(), &password).is_err());
}
