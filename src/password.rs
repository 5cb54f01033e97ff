use vstd::prelude::*;

verus! {

/// The PHC-format argon2 encoding of a password's UTF-8 bytes under a salt,
/// with argon2's default parameters; none where argon2 refuses the inputs.
pub uninterp spec fn argon2_encoding(password: Seq<char>, salt: Seq<u8>) -> Option<Seq<char>>;

/// Whether a password's UTF-8 bytes hash to an encoded argon2 hash; none
/// where the encoding cannot be read.
pub uninterp spec fn argon2_verdict(encoded: Seq<char>, password: Seq<char>) -> Option<bool>;

/// Relies on rand::thread_rng for 32 random bytes. Nothing is promised of
/// their value.
#[verifier::external_body]
fn random_salt() -> (r: [u8; 32]) {
    rand::Rng::gen::<[u8; 32]>(&mut rand::thread_rng())
}

/// Relies on argon2::hash_encoded under `argon2::Config::default()`, which
/// returns the encoding or an error for inputs it refuses.
#[verifier::external_body]
fn argon2_hash(password: &str, salt: &[u8]) -> (r: Option<String>)
    ensures
        match r {
            Some(s) => argon2_encoding(password@, salt@) == Some(s@),
            None => argon2_encoding(password@, salt@) is None,
        },
{
    argon2::hash_encoded(password.as_bytes(), salt, &argon2::Config::default()).ok()
}

/// Relies on argon2::verify_encoded, which reports a match or an error for an
/// encoding it cannot read.
#[verifier::external_body]
fn argon2_verify(encoded: &str, password: &str) -> (r: Option<bool>)
    ensures
        r == argon2_verdict(encoded@, password@),
{
    argon2::verify_encoded(encoded, password.as_bytes()).ok()
}

/// Hashes a password under a fresh random 32-byte salt: the argon2
/// encoding under that salt, or none where argon2 refuses the password.
pub fn hash_password(password: &str) -> (r: Option<String>)
    ensures
        exists|salt: Seq<u8>|
            salt.len() == 32 && match r {
                Some(s) => argon2_encoding(password@, salt) == Some(s@),
                None => argon2_encoding(password@, salt) is None,
            },
{
    let salt = random_salt();
    let r = argon2_hash(password, &salt);
    proof {
        assert(salt@.len() == 32);
    }
    r
}

/// Whether `password` matches the encoded hash; an unreadable hash matches nothing.
pub fn verify_password(hash: &str, password: &str) -> (r: bool)
    ensures
        r == (argon2_verdict(hash@, password@) == Some(true)),
{
    match argon2_verify(hash, password) {
        Some(ok) => ok,
        None => false,
    }
}

} // verus!
