use momentous::{hash_password, verify_password};

#[test]
fn hashed_password_verifies() {
    let h = hash_password("correct horse").unwrap();
    assert!(h.starts_with("$argon2"));
    assert_ne!(h, "correct horse");
    assert!(verify_password(&h, "correct horse"));
    assert!(!verify_password(&h, "wrong horse"));
}

#[test]
fn salts_differ_between_hashes() {
    let a = hash_password("pw").unwrap();
    let b = hash_password("pw").unwrap();
    assert_ne!(a, b);
}

#[test]
fn unreadable_hash_matches_nothing() {
    assert!(!verify_password("not a hash", "pw"));
    assert!(!verify_password("", ""));
}
