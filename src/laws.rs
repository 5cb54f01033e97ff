use vstd::prelude::*;

use crate::error::LedgerError;
use crate::ledger::{
    expired, first_failure, holds_token, holds_transaction, issue_outcome, lemma_first_failure_none,
    lemma_transferred_wf, link, state_after_issue, state_after_transfer, token_check, token_of,
    transfer_outcome, LedgerView, TimeToken,
};

verus! {

/// Where exactly one listed token fails, its failure is the one reported.
pub proof fn lemma_first_failure_single(tokens: Seq<TimeToken>, sender: u128, ids: Seq<u128>, k: int)
    requires
        0 <= k < ids.len(),
        token_check(tokens, sender, ids[k]) is Some,
        forall|j: int| 0 <= j < ids.len() && j != k ==> (#[trigger] token_check(tokens, sender, ids[j])) is None,
    ensures
        first_failure(tokens, sender, ids) == token_check(tokens, sender, ids[k]),
    decreases ids.len(),
{
    let rest = ids.drop_last();
    if k == ids.len() - 1 {
        assert forall|j: int| 0 <= j < rest.len() implies (#[trigger] token_check(
            tokens,
            sender,
            rest[j],
        )) is None by {
            assert(rest[j] == ids[j]);
        }
        lemma_first_failure_none(tokens, sender, rest);
    } else {
        assert forall|j: int| 0 <= j < rest.len() && j != k implies (#[trigger] token_check(
            tokens,
            sender,
            rest[j],
        )) is None by {
            assert(rest[j] == ids[j]);
        }
        assert(rest[k] == ids[k]);
        lemma_first_failure_single(tokens, sender, rest, k);
    }
}

/// All or nothing: if any listed token is missing, belongs to someone other
/// than the sender, or is inactive, the transfer fails and the ledger is left
/// exactly as it was: no owner changes, no transaction, no link.
pub proof fn lemma_transfer_all_or_nothing(
    l: LedgerView,
    tx_id: u128,
    sender: u128,
    recipient: u128,
    ids: Seq<u128>,
    service_id: Option<u128>,
    now: i64,
    k: int,
)
    requires
        0 <= k < ids.len(),
        token_check(l.tokens, sender, ids[k]) is Some,
    ensures
        transfer_outcome(l, tx_id, sender, recipient, ids) is Err,
        state_after_transfer(l, tx_id, sender, recipient, ids, service_id, now) == l,
{
    lemma_first_failure_none(l.tokens, sender, ids);
}

/// A valid transfer commits whole: afterwards every listed token belongs to
/// the recipient, exactly one transaction carries the new id, and each listed
/// token has exactly one link to it.
pub proof fn lemma_transfer_commits_whole(
    l: LedgerView,
    tx_id: u128,
    sender: u128,
    recipient: u128,
    ids: Seq<u128>,
    service_id: Option<u128>,
    now: i64,
)
    requires
        l.wf(),
        ids.len() > 0,
        ids.no_duplicates(),
        sender != recipient,
        !holds_transaction(l.transactions, tx_id),
        forall|k: int|
            0 <= k < ids.len() ==> holds_token(l.tokens, #[trigger] ids[k]) && token_of(
                l.tokens,
                ids[k],
            ).current_owner_id == sender && token_of(l.tokens, ids[k]).is_active,
    ensures
        transfer_outcome(l, tx_id, sender, recipient, ids) == Ok::<u128, LedgerError>(tx_id),
        ({
            let a = state_after_transfer(l, tx_id, sender, recipient, ids, service_id, now);
            &&& a.wf()
            &&& forall|k: int|
                0 <= k < ids.len() ==> holds_token(a.tokens, #[trigger] ids[k]) && token_of(
                    a.tokens,
                    ids[k],
                ).current_owner_id == recipient
            &&& a.transactions.len() == l.transactions.len() + 1
            &&& forall|j: int|
                0 <= j < a.transactions.len() ==> (#[trigger] a.transactions[j].id == tx_id <==> j
                    == l.transactions.len())
            &&& forall|k: int|
                0 <= k < ids.len() ==> exists|j: int|
                    0 <= j < a.links.len() && a.links[j] == link(tx_id, #[trigger] ids[k])
            &&& forall|k: int, j1: int, j2: int|
                #![trigger ids[k], a.links[j1], a.links[j2]]
                0 <= k < ids.len() && 0 <= j1 < a.links.len() && 0 <= j2 < a.links.len()
                    && a.links[j1] == link(tx_id, ids[k]) && a.links[j2] == link(
                    tx_id,
                    ids[k],
                ) ==> j1 == j2
        }),
{
    assert forall|k: int| 0 <= k < ids.len() implies (#[trigger] token_check(
        l.tokens,
        sender,
        ids[k],
    )) is None by {
        assert(holds_token(l.tokens, ids[k]));
    }
    lemma_first_failure_none(l.tokens, sender, ids);
    lemma_transferred_wf(l, tx_id, sender, recipient, ids, service_id, now);
    let a = state_after_transfer(l, tx_id, sender, recipient, ids, service_id, now);
    let n = l.links.len();
    assert forall|k: int| 0 <= k < ids.len() implies holds_token(a.tokens, #[trigger] ids[k])
        && token_of(a.tokens, ids[k]).current_owner_id == recipient by {
        let id = ids[k];
        let j = choose|j: int| 0 <= j < l.tokens.len() && l.tokens[j].id == id;
        assert(a.tokens[j].id == id);
        let c = choose|c: int| 0 <= c < a.tokens.len() && a.tokens[c].id == id;
        assert(c == j);
        assert(ids.contains(id));
    }
    assert forall|j: int| 0 <= j < a.transactions.len() implies (#[trigger] a.transactions[j].id
        == tx_id <==> j == l.transactions.len()) by {
        if j < l.transactions.len() {
            assert(a.transactions[j] == l.transactions[j]);
            if l.transactions[j].id == tx_id {
                assert(holds_transaction(l.transactions, tx_id));
            }
        }
    }
    assert forall|k: int| 0 <= k < ids.len() implies exists|j: int|
        0 <= j < a.links.len() && a.links[j] == link(tx_id, #[trigger] ids[k]) by {
        assert(a.links[n + k] == link(tx_id, ids[k]));
    }
    assert forall|k: int, j1: int, j2: int|
        #![trigger ids[k], a.links[j1], a.links[j2]]
        0 <= k < ids.len() && 0 <= j1 < a.links.len() && 0 <= j2 < a.links.len() && a.links[j1]
            == link(tx_id, ids[k]) && a.links[j2] == link(tx_id, ids[k]) implies j1
        == j2 by {
        if j1 < n {
            assert(a.links[j1] == l.links[j1]);
            assert(holds_transaction(l.transactions, l.links[j1].transaction_id));
        }
        if j2 < n {
            assert(a.links[j2] == l.links[j2]);
            assert(holds_transaction(l.transactions, l.links[j2].transaction_id));
        }
        if j1 >= n && j2 >= n {
            assert(a.links[j1] == link(tx_id, ids[j1 - n]));
            assert(a.links[j2] == link(tx_id, ids[j2 - n]));
        }
    }
}

/// Issuing a token worth zero or fewer minutes is refused and creates nothing.
pub proof fn lemma_issue_rejects_non_positive(
    l: LedgerView,
    id: u128,
    issuer: u128,
    denomination: i32,
    expires_at: Option<i64>,
    now: i64,
)
    requires
        denomination <= 0,
    ensures
        issue_outcome(l, id, issuer, denomination, expires_at, now) == Err::<TimeToken, LedgerError>(
            LedgerError::NonPositiveDenomination,
        ),
        state_after_issue(l, id, issuer, denomination, expires_at, now) == l,
{
}

/// Two transfers whose token sets share the token `x`, each issued by the
/// owner that `x` has in the ledger they both start from, cannot both commit:
/// once the first commits, the second fails and leaves the first one's
/// result in place, so every token ends with the first transfer's recipient.
/// If the first fails, it changes nothing and the second runs alone.
pub proof fn lemma_overlapping_transfers(
    l: LedgerView,
    tx_a: u128,
    sender_a: u128,
    recipient_a: u128,
    ids_a: Seq<u128>,
    service_a: Option<u128>,
    now_a: i64,
    tx_b: u128,
    sender_b: u128,
    recipient_b: u128,
    ids_b: Seq<u128>,
    service_b: Option<u128>,
    now_b: i64,
    x: u128,
)
    requires
        l.wf(),
        ids_a.contains(x),
        ids_b.contains(x),
        holds_token(l.tokens, x),
        token_of(l.tokens, x).current_owner_id == sender_b,
    ensures
        ({
            let l1 = state_after_transfer(l, tx_a, sender_a, recipient_a, ids_a, service_a, now_a);
            let l2 = state_after_transfer(l1, tx_b, sender_b, recipient_b, ids_b, service_b, now_b);
            &&& transfer_outcome(l, tx_a, sender_a, recipient_a, ids_a) is Ok ==> {
                &&& transfer_outcome(l1, tx_b, sender_b, recipient_b, ids_b) is Err
                &&& l2 == l1
            }
            &&& transfer_outcome(l, tx_a, sender_a, recipient_a, ids_a) is Err ==> l1 == l
        }),
{
    if transfer_outcome(l, tx_a, sender_a, recipient_a, ids_a) is Ok {
        lemma_first_failure_none(l.tokens, sender_a, ids_a);
        let ka = choose|k: int| 0 <= k < ids_a.len() && ids_a[k] == x;
        assert(token_check(l.tokens, sender_a, ids_a[ka]) is None);
        assert(sender_a == sender_b);
        assert forall|k: int| 0 <= k < ids_a.len() implies holds_token(l.tokens, #[trigger] ids_a[k])
            && token_of(l.tokens, ids_a[k]).current_owner_id == sender_a && token_of(
            l.tokens,
            ids_a[k],
        ).is_active by {
            assert(token_check(l.tokens, sender_a, ids_a[k]) is None);
        }
        lemma_transfer_commits_whole(l, tx_a, sender_a, recipient_a, ids_a, service_a, now_a);
        let l1 = state_after_transfer(l, tx_a, sender_a, recipient_a, ids_a, service_a, now_a);
        assert(token_of(l1.tokens, ids_a[ka]).current_owner_id == recipient_a);
        let kb = choose|k: int| 0 <= k < ids_b.len() && ids_b[k] == x;
        assert(token_check(l1.tokens, sender_b, ids_b[kb]) is Some);
        lemma_transfer_all_or_nothing(l1, tx_b, sender_b, recipient_b, ids_b, service_b, now_b, kb);
    }
}

/// A transfer that lists a token the ledger does not hold fails and changes
/// nothing. Where the request is otherwise valid and every other listed token
/// may leave the sender, the failure is `NotFound` naming that token.
pub proof fn lemma_transfer_missing_token(
    l: LedgerView,
    tx_id: u128,
    sender: u128,
    recipient: u128,
    ids: Seq<u128>,
    service_id: Option<u128>,
    now: i64,
    k: int,
)
    requires
        0 <= k < ids.len(),
        !holds_token(l.tokens, ids[k]),
    ensures
        transfer_outcome(l, tx_id, sender, recipient, ids) is Err,
        state_after_transfer(l, tx_id, sender, recipient, ids, service_id, now) == l,
        ({
            &&& ids.no_duplicates()
            &&& sender != recipient
            &&& forall|j: int|
                0 <= j < ids.len() && j != k ==> (#[trigger] token_check(l.tokens, sender, ids[j])) is None
        }) ==> transfer_outcome(l, tx_id, sender, recipient, ids) == Err::<u128, LedgerError>(
            LedgerError::NotFound(ids[k]),
        ),
{
    lemma_transfer_all_or_nothing(l, tx_id, sender, recipient, ids, service_id, now, k);
    if forall|j: int|
        0 <= j < ids.len() && j != k ==> (#[trigger] token_check(l.tokens, sender, ids[j])) is None {
        lemma_first_failure_single(l.tokens, sender, ids, k);
    }
}

/// A transfer that lists an inactive token of the sender fails and changes
/// nothing. Where the request is otherwise valid and every other listed token
/// may leave the sender, the failure is `Inactive` naming that token.
pub proof fn lemma_transfer_inactive_token(
    l: LedgerView,
    tx_id: u128,
    sender: u128,
    recipient: u128,
    ids: Seq<u128>,
    service_id: Option<u128>,
    now: i64,
    k: int,
)
    requires
        0 <= k < ids.len(),
        holds_token(l.tokens, ids[k]),
        token_of(l.tokens, ids[k]).current_owner_id == sender,
        !token_of(l.tokens, ids[k]).is_active,
    ensures
        transfer_outcome(l, tx_id, sender, recipient, ids) is Err,
        state_after_transfer(l, tx_id, sender, recipient, ids, service_id, now) == l,
        ({
            &&& ids.no_duplicates()
            &&& sender != recipient
            &&& forall|j: int|
                0 <= j < ids.len() && j != k ==> (#[trigger] token_check(l.tokens, sender, ids[j])) is None
        }) ==> transfer_outcome(l, tx_id, sender, recipient, ids) == Err::<u128, LedgerError>(
            LedgerError::Inactive(ids[k]),
        ),
{
    lemma_transfer_all_or_nothing(l, tx_id, sender, recipient, ids, service_id, now, k);
    if forall|j: int|
        0 <= j < ids.len() && j != k ==> (#[trigger] token_check(l.tokens, sender, ids[j])) is None {
        lemma_first_failure_single(l.tokens, sender, ids, k);
    }
}

/// Once inactive, a token stays inactive: a transfer leaves it exactly as it
/// was, an issue adds tokens without touching it, and the expiry process
/// leaves it as it is.
pub proof fn lemma_inactive_is_terminal(
    l: LedgerView,
    tx_id: u128,
    sender: u128,
    recipient: u128,
    ids: Seq<u128>,
    service_id: Option<u128>,
    new_id: u128,
    issuer: u128,
    denomination: i32,
    expires_at: Option<i64>,
    now: i64,
    i: int,
)
    requires
        l.wf(),
        0 <= i < l.tokens.len(),
        !l.tokens[i].is_active,
    ensures
        state_after_transfer(l, tx_id, sender, recipient, ids, service_id, now).tokens[i]
            == l.tokens[i],
        state_after_issue(l, new_id, issuer, denomination, expires_at, now).tokens[i]
            == l.tokens[i],
        expired(l.tokens[i], now) == l.tokens[i],
{
    let id = l.tokens[i].id;
    if transfer_outcome(l, tx_id, sender, recipient, ids) is Ok && ids.contains(id) {
        lemma_first_failure_none(l.tokens, sender, ids);
        let k = choose|k: int| 0 <= k < ids.len() && ids[k] == id;
        assert(token_check(l.tokens, sender, ids[k]) is None);
        let c = choose|c: int| 0 <= c < l.tokens.len() && l.tokens[c].id == id;
        assert(c == i);
    }
    if issue_outcome(l, new_id, issuer, denomination, expires_at, now) is Ok {
        assert(state_after_issue(l, new_id, issuer, denomination, expires_at, now).tokens[i]
            == l.tokens[i]);
    }
}

} // verus!
