use momentous::{ErrorKind, Ledger, LedgerError, TimeToken, TransactionStatus};

const A: u128 = 0xA;
const B: u128 = 0xB;
const C: u128 = 0xC;

fn ledger_with(tokens: &[(u128, u128, bool)]) -> Ledger {
    let rows: Vec<TimeToken> = tokens
        .iter()
        .map(|&(id, owner, active)| TimeToken {
            id,
            issuer_id: owner,
            current_owner_id: owner,
            denomination: 30,
            created_at: 0,
            expires_at: None,
            is_active: active,
        })
        .collect();
    Ledger::from_tokens(rows).expect("valid tokens")
}

fn owner(l: &Ledger, id: u128) -> u128 {
    l.token(id).expect("token exists").current_owner_id
}

#[test]
fn issue_round_trip_through_two_transfers() {
    let mut l = Ledger::new();
    let t = l.issue_token_with_id(1, A, 60, None, 100).unwrap();
    assert_eq!(t.current_owner_id, A);
    assert_eq!(t.issuer_id, A);
    assert_eq!(t.denomination, 60);
    assert!(t.is_active);

    let r1 = l.execute_transfer_with_id(10, A, B, &vec![1], None, 200).unwrap();
    assert_eq!(r1.transaction_id, 10);
    assert_eq!(r1.token_ids, vec![1]);
    assert_eq!(owner(&l, 1), B);

    let r2 = l.execute_transfer_with_id(11, B, C, &vec![1], Some(99), 300).unwrap();
    assert_eq!(r2.transaction_id, 11);
    assert_eq!(owner(&l, 1), C);

    assert_eq!(l.transactions().len(), 2);
    for tx in [10u128, 11] {
        let linked: Vec<_> = l.links().iter().filter(|k| k.transaction_id == tx).collect();
        assert_eq!(linked.len(), 1);
        assert_eq!(linked[0].token_id, 1);
    }
    assert_eq!(l.transactions()[1].service_id, Some(99));
    assert_eq!(l.transactions()[1].status, TransactionStatus::Completed);
    assert_eq!(l.transactions()[1].created_at, 300);
}

#[test]
fn valid_transfer_moves_every_token_and_records_once() {
    let mut l = ledger_with(&[(1, A, true), (2, A, true), (3, A, true), (4, B, true)]);
    let r = l.execute_transfer_with_id(50, A, C, &vec![3, 1, 2], None, 7).unwrap();
    assert_eq!(r.token_ids, vec![3, 1, 2]);
    assert_eq!(owner(&l, 1), C);
    assert_eq!(owner(&l, 2), C);
    assert_eq!(owner(&l, 3), C);
    assert_eq!(owner(&l, 4), B);
    assert_eq!(l.transactions().len(), 1);
    let t = l.transactions()[0];
    assert_eq!((t.id, t.sender_id, t.recipient_id), (50, A, C));
    let mut linked: Vec<u128> = l.links().iter().filter(|k| k.transaction_id == 50).map(|k| k.token_id).collect();
    linked.sort();
    assert_eq!(linked, vec![1, 2, 3]);
}

#[test]
fn one_foreign_token_blocks_the_whole_transfer() {
    let mut l = ledger_with(&[(1, A, true), (2, B, true), (3, A, true)]);
    let r = l.execute_transfer_with_id(50, A, C, &vec![1, 2, 3], None, 7);
    assert_eq!(r.unwrap_err(), LedgerError::NotOwner(2));
    assert_eq!(owner(&l, 1), A);
    assert_eq!(owner(&l, 2), B);
    assert_eq!(owner(&l, 3), A);
    assert!(l.transactions().is_empty());
    assert!(l.links().is_empty());
}

#[test]
fn missing_token_fails_with_not_found() {
    let mut l = ledger_with(&[(1, A, true), (3, A, true)]);
    let r = l.execute_transfer_with_id(50, A, B, &vec![1, 2, 3], None, 7);
    let e = r.unwrap_err();
    assert_eq!(e, LedgerError::NotFound(2));
    assert_eq!(e.kind(), ErrorKind::NotFound);
    assert_eq!(e.token_id(), Some(2));
    assert_eq!(owner(&l, 1), A);
    assert_eq!(owner(&l, 3), A);
    assert!(l.transactions().is_empty());
}

#[test]
fn inactive_token_fails_with_conflict() {
    let mut l = ledger_with(&[(1, A, true), (2, A, false)]);
    let e = l.execute_transfer_with_id(50, A, B, &vec![1, 2], None, 7).unwrap_err();
    assert_eq!(e, LedgerError::Inactive(2));
    assert_eq!(e.kind(), ErrorKind::Conflict);
    assert_eq!(owner(&l, 1), A);
    assert!(!l.token(2).unwrap().is_active);
    assert!(l.links().is_empty());
}

#[test]
fn first_failing_token_is_reported() {
    let mut l = ledger_with(&[(1, B, true), (2, A, false)]);
    let e = l.execute_transfer_with_id(50, A, C, &vec![9, 1, 2], None, 7).unwrap_err();
    assert_eq!(e, LedgerError::NotFound(9));
    let e = l.execute_transfer_with_id(50, A, C, &vec![1, 2], None, 7).unwrap_err();
    assert_eq!(e, LedgerError::NotOwner(1));
    assert_eq!(e.kind(), ErrorKind::Authorization);
}

#[test]
fn request_shape_errors() {
    let mut l = ledger_with(&[(1, A, true)]);
    assert_eq!(l.execute_transfer_with_id(50, A, B, &vec![], None, 7).unwrap_err(), LedgerError::EmptyTokenSet);
    assert_eq!(l.execute_transfer_with_id(50, A, B, &vec![1, 1], None, 7).unwrap_err(), LedgerError::DuplicateTokenId);
    assert_eq!(l.execute_transfer_with_id(50, A, A, &vec![1], None, 7).unwrap_err(), LedgerError::SelfTransfer);
    assert_eq!(LedgerError::SelfTransfer.kind(), ErrorKind::Validation);
    assert_eq!(LedgerError::EmptyTokenSet.token_id(), None);
    assert_eq!(owner(&l, 1), A);
}

#[test]
fn transaction_id_in_use_is_refused() {
    let mut l = ledger_with(&[(1, A, true), (2, A, true)]);
    l.execute_transfer_with_id(50, A, B, &vec![1], None, 7).unwrap();
    let e = l.execute_transfer_with_id(50, A, B, &vec![2], None, 8).unwrap_err();
    assert_eq!(e, LedgerError::IdInUse(50));
    assert_eq!(owner(&l, 2), A);
    assert_eq!(l.transactions().len(), 1);
}

#[test]
fn overlapping_transfers_commit_at_most_once() {
    let mut l = ledger_with(&[(1, A, true), (2, A, true), (3, A, true)]);
    l.execute_transfer_with_id(50, A, B, &vec![1, 2], None, 7).unwrap();
    let e = l.execute_transfer_with_id(51, A, C, &vec![2, 3], None, 7).unwrap_err();
    assert_eq!(e, LedgerError::NotOwner(2));
    assert_eq!(owner(&l, 1), B);
    assert_eq!(owner(&l, 2), B);
    assert_eq!(owner(&l, 3), A);
    assert_eq!(l.transactions().len(), 1);
}

#[test]
fn non_positive_denomination_is_rejected() {
    let mut l = Ledger::new();
    assert_eq!(l.issue_token_with_id(1, A, 0, None, 5).unwrap_err(), LedgerError::NonPositiveDenomination);
    assert_eq!(l.issue_token_with_id(1, A, -15, None, 5).unwrap_err(), LedgerError::NonPositiveDenomination);
    assert_eq!(l.issue_token(A, 0, None, 5).unwrap_err(), LedgerError::NonPositiveDenomination);
    assert!(l.tokens().is_empty());
    assert!(l.token(1).is_none());
}

#[test]
fn issue_checks_expiry_and_id() {
    let mut l = Ledger::new();
    assert_eq!(l.issue_token_with_id(1, A, 30, Some(5), 5).unwrap_err(), LedgerError::ExpiryNotInFuture);
    assert_eq!(l.issue_token_with_id(1, A, 30, Some(4), 5).unwrap_err(), LedgerError::ExpiryNotInFuture);
    let t = l.issue_token_with_id(1, A, i32::MAX, Some(6), 5).unwrap();
    assert_eq!(t.expires_at, Some(6));
    assert_eq!(t.created_at, 5);
    assert_eq!(l.issue_token_with_id(1, B, 30, None, 5).unwrap_err(), LedgerError::IdInUse(1));
    assert_eq!(l.tokens().len(), 1);
}

#[test]
fn issue_and_transfer_with_drawn_ids() {
    let mut l = Ledger::new();
    let a = l.issue_token(A, 45, None, 1).unwrap();
    let b = l.issue_token(A, 15, None, 1).unwrap();
    assert_ne!(a.id, b.id);
    let r = l.execute_transfer(A, B, &vec![a.id, b.id], None, 2).unwrap();
    assert_eq!(l.transactions()[0].id, r.transaction_id);
    assert_eq!(owner(&l, a.id), B);
    assert_eq!(owner(&l, b.id), B);
}

#[test]
fn expiry_deactivates_due_tokens_only() {
    let mut l = Ledger::new();
    l.issue_token_with_id(1, A, 30, Some(10), 0).unwrap();
    l.issue_token_with_id(2, A, 30, Some(20), 0).unwrap();
    l.issue_token_with_id(3, A, 30, None, 0).unwrap();
    l.expire_due(10);
    assert!(!l.token(1).unwrap().is_active);
    assert!(l.token(2).unwrap().is_active);
    assert!(l.token(3).unwrap().is_active);
    assert_eq!(l.execute_transfer_with_id(9, A, B, &vec![1], None, 11).unwrap_err(), LedgerError::Inactive(1));
}

#[test]
fn from_tokens_rejects_invalid_rows() {
    let t = TimeToken {
        id: 1,
        issuer_id: A,
        current_owner_id: A,
        denomination: 30,
        created_at: 0,
        expires_at: None,
        is_active: true,
    };
    assert!(Ledger::from_tokens(vec![t, t]).is_none());
    let mut z = t;
    z.denomination = 0;
    assert!(Ledger::from_tokens(vec![z]).is_none());
    assert_eq!(Ledger::from_tokens(vec![t]).unwrap().tokens().len(), 1);
}

#[test]
fn history_lists_a_users_transactions_in_order() {
    let mut l = ledger_with(&[(1, A, true), (2, B, true), (3, C, true)]);
    l.execute_transfer_with_id(50, A, B, &vec![1], None, 1).unwrap();
    l.execute_transfer_with_id(51, C, A, &vec![3], None, 2).unwrap();
    l.execute_transfer_with_id(52, B, C, &vec![2], None, 3).unwrap();
    let h: Vec<u128> = l.history_of_user(A).iter().map(|t| t.id).collect();
    assert_eq!(h, vec![50, 51]);
    let h: Vec<u128> = l.history_of_user(B).iter().map(|t| t.id).collect();
    assert_eq!(h, vec![50, 52]);
    assert!(l.history_of_user(0xD).is_empty());
}

#[test]
fn history_lists_a_tokens_transactions_in_order() {
    let mut l = ledger_with(&[(1, A, true), (2, A, true)]);
    l.execute_transfer_with_id(50, A, B, &vec![1], None, 1).unwrap();
    l.execute_transfer_with_id(51, A, C, &vec![2], None, 2).unwrap();
    l.execute_transfer_with_id(52, B, C, &vec![1], None, 3).unwrap();
    let h: Vec<u128> = l.history_of_token(1).iter().map(|t| t.id).collect();
    assert_eq!(h, vec![50, 52]);
    let h: Vec<u128> = l.history_of_token(2).iter().map(|t| t.id).collect();
    assert_eq!(h, vec![51]);
    assert!(l.history_of_token(3).is_empty());
}

#[test]
fn token_errors_come_before_a_reused_transaction_id() {
    let mut l = ledger_with(&[(1, A, true), (2, B, true), (3, A, false)]);
    l.execute_transfer_with_id(50, A, C, &vec![1], None, 1).unwrap();
    assert_eq!(l.execute_transfer_with_id(50, A, C, &vec![2], None, 2).unwrap_err(), LedgerError::NotOwner(2));
    assert_eq!(l.execute_transfer_with_id(50, A, C, &vec![9], None, 2).unwrap_err(), LedgerError::NotFound(9));
    assert_eq!(l.execute_transfer_with_id(50, A, C, &vec![3], None, 2).unwrap_err(), LedgerError::Inactive(3));
    assert_eq!(l.transactions().len(), 1);
}
