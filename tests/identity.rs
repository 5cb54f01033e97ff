use momentous::{bearer_credential, subject_user_id, AuthError, Claims, ErrorKind, LedgerError};

#[test]
fn bearer_credential_is_read_after_the_scheme() {
    assert_eq!(bearer_credential(Some(b"Bearer abc.def")).unwrap(), b"abc.def".to_vec());
    assert_eq!(bearer_credential(Some(b"Bearer ")).unwrap(), Vec::<u8>::new());
}

#[test]
fn bearer_credential_errors() {
    assert_eq!(bearer_credential(None).unwrap_err(), AuthError::MissingCredential);
    assert_eq!(bearer_credential(Some(b"Basic abc")).unwrap_err(), AuthError::InvalidScheme);
    assert_eq!(bearer_credential(Some(b"bearer abc")).unwrap_err(), AuthError::InvalidScheme);
    assert_eq!(bearer_credential(Some(b"Bear")).unwrap_err(), AuthError::InvalidScheme);
    assert_eq!(bearer_credential(Some(b"Bearer a\xffb")).unwrap_err(), AuthError::MalformedCredential);
    assert_eq!(bearer_credential(Some(b"Bearer a\nb")).unwrap_err(), AuthError::MalformedCredential);
}

#[test]
fn subject_parses_as_user_id() {
    assert_eq!(
        subject_user_id("550e8400-e29b-41d4-a716-446655440000").unwrap(),
        0x550e8400_e29b_41d4_a716_446655440000
    );
    assert_eq!(subject_user_id("not-a-uuid").unwrap_err(), AuthError::InvalidSubject);
}

#[test]
fn claims_last_one_day() {
    let c = Claims::for_user(0x550e8400_e29b_41d4_a716_446655440000, 1_700_000_000).unwrap();
    assert_eq!(c.sub, "550e8400-e29b-41d4-a716-446655440000");
    assert_eq!(c.iat, 1_700_000_000);
    assert_eq!(c.exp, 1_700_086_400);
    assert!(Claims::for_user(1, -1).is_none());
    let n = Claims::issued_now(7).unwrap();
    assert_eq!(n.exp, n.iat + 86400);
    assert_eq!(n.sub, "00000000-0000-0000-0000-000000000007");
}

#[test]
fn error_kinds() {
    assert_eq!(LedgerError::IdInUse(3).kind(), ErrorKind::Conflict);
    assert_eq!(LedgerError::NonPositiveDenomination.kind(), ErrorKind::Validation);
    assert_eq!(LedgerError::Inactive(4).token_id(), Some(4));
}
