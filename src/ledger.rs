use vstd::prelude::*;

use crate::error::LedgerError;
use crate::ids::fresh_id;

verus! {

/// A unit of committed service minutes with a mutable owner.
#[derive(Clone, Copy, Debug, PartialEq, Eq, Structural)]
pub struct TimeToken {
    pub id: u128,
    pub issuer_id: u128,
    pub current_owner_id: u128,
    /// Minutes of service; positive for every token of a well-formed ledger.
    pub denomination: i32,
    /// Seconds since the Unix epoch.
    pub created_at: i64,
    pub expires_at: Option<i64>,
    pub is_active: bool,
}

#[derive(Clone, Copy, Debug, PartialEq, Eq, Structural)]
pub enum TransactionStatus {
    Completed,
    Failed,
}

/// The immutable record of one completed transfer.
#[derive(Clone, Copy, Debug, PartialEq, Eq, Structural)]
pub struct Transaction {
    pub id: u128,
    pub sender_id: u128,
    pub recipient_id: u128,
    pub service_id: Option<u128>,
    pub status: TransactionStatus,
    pub created_at: i64,
}

/// Records that a token moved in a transaction.
#[derive(Clone, Copy, Debug, PartialEq, Eq, Structural)]
pub struct TokenTransfer {
    pub transaction_id: u128,
    pub token_id: u128,
}

/// What a successful transfer hands back.
#[derive(Clone, Debug)]
pub struct TransferReceipt {
    pub transaction_id: u128,
    pub token_ids: Vec<u128>,
}

/// The abstract state of a ledger: its tokens, its transaction log and the
/// links between the two, each in the order of writing.
pub struct LedgerView {
    pub tokens: Seq<TimeToken>,
    pub transactions: Seq<Transaction>,
    pub links: Seq<TokenTransfer>,
}

pub open spec fn holds_token(tokens: Seq<TimeToken>, id: u128) -> bool {
    exists|i: int| 0 <= i < tokens.len() && tokens[i].id == id
}

/// The token with the given id; meaningful where `holds_token` is true.
pub open spec fn token_of(tokens: Seq<TimeToken>, id: u128) -> TimeToken {
    tokens[choose|i: int| 0 <= i < tokens.len() && tokens[i].id == id]
}

pub open spec fn holds_transaction(txs: Seq<Transaction>, id: u128) -> bool {
    exists|i: int| 0 <= i < txs.len() && txs[i].id == id
}

impl LedgerView {
    /// Ids are unique, denominations positive, and every link names a
    /// recorded transaction and an existing token.
    pub open spec fn wf(self) -> bool {
        &&& tokens_valid(self.tokens)
        &&& forall|i: int, j: int|
            0 <= i < self.transactions.len() && 0 <= j < self.transactions.len()
                && self.transactions[i].id == self.transactions[j].id ==> i == j
        &&& forall|k: int|
            #![trigger self.links[k]]
            0 <= k < self.links.len() ==> {
                &&& holds_transaction(self.transactions, self.links[k].transaction_id)
                &&& holds_token(self.tokens, self.links[k].token_id)
            }
    }
}

pub open spec fn new_token(
    id: u128,
    issuer: u128,
    denomination: i32,
    expires_at: Option<i64>,
    now: i64,
) -> TimeToken {
    TimeToken {
        id,
        issuer_id: issuer,
        current_owner_id: issuer,
        denomination,
        created_at: now,
        expires_at,
        is_active: true,
    }
}

/// The result of issuing a token under the given id.
pub open spec fn issue_outcome(
    l: LedgerView,
    id: u128,
    issuer: u128,
    denomination: i32,
    expires_at: Option<i64>,
    now: i64,
) -> Result<TimeToken, LedgerError> {
    if denomination <= 0 {
        Err(LedgerError::NonPositiveDenomination)
    } else if expires_at is Some && expires_at.unwrap() <= now {
        Err(LedgerError::ExpiryNotInFuture)
    } else if holds_token(l.tokens, id) {
        Err(LedgerError::IdInUse(id))
    } else {
        Ok(new_token(id, issuer, denomination, expires_at, now))
    }
}

/// The ledger after an issue: one token more on success, unchanged otherwise.
pub open spec fn state_after_issue(
    l: LedgerView,
    id: u128,
    issuer: u128,
    denomination: i32,
    expires_at: Option<i64>,
    now: i64,
) -> LedgerView {
    match issue_outcome(l, id, issuer, denomination, expires_at, now) {
        Ok(t) => LedgerView { tokens: l.tokens.push(t), ..l },
        Err(_) => l,
    }
}

/// Why the token `id` may not leave `sender`, if it may not.
pub open spec fn token_check(tokens: Seq<TimeToken>, sender: u128, id: u128) -> Option<LedgerError> {
    if !holds_token(tokens, id) {
        Some(LedgerError::NotFound(id))
    } else if token_of(tokens, id).current_owner_id != sender {
        Some(LedgerError::NotOwner(id))
    } else if !token_of(tokens, id).is_active {
        Some(LedgerError::Inactive(id))
    } else {
        None
    }
}

/// The failure of the first token of `ids`, in order, that may not leave `sender`.
pub open spec fn first_failure(tokens: Seq<TimeToken>, sender: u128, ids: Seq<u128>) -> Option<
    LedgerError,
>
    decreases ids.len(),
{
    if ids.len() == 0 {
        None
    } else {
        let earlier = first_failure(tokens, sender, ids.drop_last());
        if earlier is Some {
            earlier
        } else {
            token_check(tokens, sender, ids.last())
        }
    }
}

/// The result of a transfer recorded under the transaction id `tx_id`.
pub open spec fn transfer_outcome(
    l: LedgerView,
    tx_id: u128,
    sender: u128,
    recipient: u128,
    ids: Seq<u128>,
) -> Result<u128, LedgerError> {
    if ids.len() == 0 {
        Err(LedgerError::EmptyTokenSet)
    } else if !ids.no_duplicates() {
        Err(LedgerError::DuplicateTokenId)
    } else if sender == recipient {
        Err(LedgerError::SelfTransfer)
    } else {
        match first_failure(l.tokens, sender, ids) {
            Some(e) => Err(e),
            None => if holds_transaction(l.transactions, tx_id) {
                Err(LedgerError::IdInUse(tx_id))
            } else {
                Ok(tx_id)
            },
        }
    }
}

/// `r` is what `o` says: the transaction id and the listed tokens, or the same error.
pub open spec fn receipt_matches(
    r: Result<TransferReceipt, LedgerError>,
    o: Result<u128, LedgerError>,
    ids: Seq<u128>,
) -> bool {
    match (r, o) {
        (Ok(rc), Ok(t)) => rc.transaction_id == t && rc.token_ids@ == ids,
        (Err(e), Err(f)) => e == f,
        _ => false,
    }
}

/// Every id occurs once and every token is worth a positive number of minutes.
pub open spec fn tokens_valid(tokens: Seq<TimeToken>) -> bool {
    &&& forall|i: int, j: int|
        0 <= i < tokens.len() && 0 <= j < tokens.len() && tokens[i].id == tokens[j].id ==> i == j
    &&& forall|i: int| 0 <= i < tokens.len() ==> tokens[i].denomination > 0
}

/// The transactions in which `user` sent or received tokens.
pub open spec fn involves(t: Transaction, user: u128) -> bool {
    t.sender_id == user || t.recipient_id == user
}

/// Whether the transaction `t` moved the token `token_id`, by the links.
pub open spec fn moved_token(links: Seq<TokenTransfer>, t: Transaction, token_id: u128) -> bool {
    links.contains(link(t.id, token_id))
}

pub open spec fn with_owner(t: TimeToken, owner: u128) -> TimeToken {
    TimeToken { current_owner_id: owner, ..t }
}

/// The token after a transfer of `ids` to `recipient`.
pub open spec fn moved(t: TimeToken, ids: Seq<u128>, recipient: u128) -> TimeToken {
    if ids.contains(t.id) {
        with_owner(t, recipient)
    } else {
        t
    }
}

pub open spec fn link(tx_id: u128, token_id: u128) -> TokenTransfer {
    TokenTransfer { transaction_id: tx_id, token_id }
}

pub open spec fn completed(
    tx_id: u128,
    sender: u128,
    recipient: u128,
    service_id: Option<u128>,
    now: i64,
) -> Transaction {
    Transaction {
        id: tx_id,
        sender_id: sender,
        recipient_id: recipient,
        service_id,
        status: TransactionStatus::Completed,
        created_at: now,
    }
}

/// The ledger after a committed transfer: every listed token owned by the
/// recipient, one transaction more, one link per listed token.
pub open spec fn transferred(
    l: LedgerView,
    tx_id: u128,
    sender: u128,
    recipient: u128,
    ids: Seq<u128>,
    service_id: Option<u128>,
    now: i64,
) -> LedgerView {
    LedgerView {
        tokens: l.tokens.map_values(|t: TimeToken| moved(t, ids, recipient)),
        transactions: l.transactions.push(completed(tx_id, sender, recipient, service_id, now)),
        links: l.links + ids.map_values(|id: u128| link(tx_id, id)),
    }
}

/// The ledger after a transfer: all of it applied on success, none of it otherwise.
pub open spec fn state_after_transfer(
    l: LedgerView,
    tx_id: u128,
    sender: u128,
    recipient: u128,
    ids: Seq<u128>,
    service_id: Option<u128>,
    now: i64,
) -> LedgerView {
    if transfer_outcome(l, tx_id, sender, recipient, ids) is Ok {
        transferred(l, tx_id, sender, recipient, ids, service_id, now)
    } else {
        l
    }
}

/// A token after the expiry process ran at `now`.
pub open spec fn expired(t: TimeToken, now: i64) -> TimeToken {
    if t.is_active && t.expires_at is Some && t.expires_at.unwrap() <= now {
        TimeToken { is_active: false, ..t }
    } else {
        t
    }
}

/// A failure found in a prefix of `ids` is the failure of the whole of `ids`.
pub proof fn lemma_first_failure_prefix(tokens: Seq<TimeToken>, sender: u128, ids: Seq<u128>, n: int)
    requires
        0 <= n <= ids.len(),
        first_failure(tokens, sender, ids.take(n)) is Some,
    ensures
        first_failure(tokens, sender, ids) == first_failure(tokens, sender, ids.take(n)),
    decreases ids.len(),
{
    if n == ids.len() {
        assert(ids.take(n) =~= ids);
    } else {
        assert(ids.drop_last().take(n) =~= ids.take(n));
        lemma_first_failure_prefix(tokens, sender, ids.drop_last(), n);
    }
}

/// No token of `ids` fails exactly when no failure is found.
pub proof fn lemma_first_failure_none(tokens: Seq<TimeToken>, sender: u128, ids: Seq<u128>)
    ensures
        first_failure(tokens, sender, ids) is None <==> forall|k: int|
            0 <= k < ids.len() ==> (#[trigger] token_check(tokens, sender, ids[k])) is None,
    decreases ids.len(),
{
    if ids.len() > 0 {
        lemma_first_failure_none(tokens, sender, ids.drop_last());
        if first_failure(tokens, sender, ids) is None {
            assert forall|k: int| 0 <= k < ids.len() implies (#[trigger] token_check(
                tokens,
                sender,
                ids[k],
            )) is None by {
                if k < ids.len() - 1 {
                    assert(ids.drop_last()[k] == ids[k]);
                }
            }
        } else {
            if first_failure(tokens, sender, ids.drop_last()) is Some {
                let k = choose|k: int|
                    0 <= k < ids.len() - 1 && (#[trigger] token_check(
                        tokens,
                        sender,
                        ids.drop_last()[k],
                    )) is Some;
                assert(ids.drop_last()[k] == ids[k]);
            } else {
                assert(token_check(tokens, sender, ids[ids.len() - 1]) is Some);
            }
        }
    }
}

/// Whether `id` occurs in `ids`.
fn contains_id(ids: &Vec<u128>, id: u128) -> (r: bool)
    ensures
        r == ids@.contains(id),
{
    let mut i: usize = 0;
    while i < ids.len()
        invariant
            i <= ids@.len(),
            forall|k: int| 0 <= k < i ==> ids@[k] != id,
        decreases ids@.len() - i,
    {
        if ids[i] == id {
            proof {
                assert(ids@[i as int] == id);
            }
            return true;
        }
        i += 1;
    }
    false
}

/// Whether every id of `ids` occurs once.
fn all_distinct(ids: &Vec<u128>) -> (r: bool)
    ensures
        r == ids@.no_duplicates(),
{
    let mut i: usize = 0;
    while i < ids.len()
        invariant
            i <= ids@.len(),
            forall|a: int, b: int| 0 <= a < b < ids@.len() && a < i ==> ids@[a] != ids@[b],
        decreases ids@.len() - i,
    {
        let mut j: usize = i + 1;
        while j < ids.len()
            invariant
                i < ids@.len(),
                i + 1 <= j <= ids@.len(),
                forall|a: int, b: int| 0 <= a < b < ids@.len() && a < i ==> ids@[a] != ids@[b],
                forall|b: int| i < b < j ==> ids@[i as int] != ids@[b],
            decreases ids@.len() - j,
        {
            if ids[i] == ids[j] {
                return false;
            }
            j += 1;
        }
        i += 1;
    }
    true
}

/// A committed transfer keeps a well-formed ledger well formed.
pub proof fn lemma_transferred_wf(
    l: LedgerView,
    tx_id: u128,
    sender: u128,
    recipient: u128,
    ids: Seq<u128>,
    service_id: Option<u128>,
    now: i64,
)
    requires
        l.wf(),
        transfer_outcome(l, tx_id, sender, recipient, ids) is Ok,
    ensures
        transferred(l, tx_id, sender, recipient, ids, service_id, now).wf(),
{
    let a = transferred(l, tx_id, sender, recipient, ids, service_id, now);
    lemma_first_failure_none(l.tokens, sender, ids);
    assert forall|i: int| 0 <= i < a.tokens.len() implies #[trigger] a.tokens[i].id == l.tokens[i].id
        && a.tokens[i].denomination == l.tokens[i].denomination by {}
    assert forall|id: u128| holds_token(l.tokens, id) implies holds_token(a.tokens, id) by {
        let j = choose|j: int| 0 <= j < l.tokens.len() && l.tokens[j].id == id;
        assert(a.tokens[j].id == id);
    }
    assert forall|id: u128| holds_transaction(l.transactions, id) implies holds_transaction(
        a.transactions,
        id,
    ) by {
        let j = choose|j: int| 0 <= j < l.transactions.len() && l.transactions[j].id == id;
        assert(a.transactions[j] == l.transactions[j]);
    }
    let last = l.transactions.len() as int;
    assert(a.transactions[last].id == tx_id);
    assert forall|i: int, j: int|
        0 <= i < a.transactions.len() && 0 <= j < a.transactions.len() && a.transactions[i].id
            == a.transactions[j].id implies i == j by {
        if i < last && j == last {
            assert(l.transactions[i].id == tx_id);
        }
        if j < last && i == last {
            assert(l.transactions[j].id == tx_id);
        }
    }
    assert forall|k: int| 0 <= k < a.links.len() implies {
        &&& holds_transaction(a.transactions, (#[trigger] a.links[k]).transaction_id)
        &&& holds_token(a.tokens, a.links[k].token_id)
    } by {
        if k < l.links.len() {
            assert(a.links[k] == l.links[k]);
        } else {
            let m = k - l.links.len();
            assert(a.links[k] == link(tx_id, ids[m]));
            assert(token_check(l.tokens, sender, ids[m]) is None);
        }
    }
}

/// Token store, transaction log and transfer links, kept in step.
pub struct Ledger {
    tokens: Vec<TimeToken>,
    transactions: Vec<Transaction>,
    links: Vec<TokenTransfer>,
}

impl View for Ledger {
    type V = LedgerView;

    closed spec fn view(&self) -> LedgerView {
        LedgerView {
            tokens: self.tokens@,
            transactions: self.transactions@,
            links: self.links@,
        }
    }
}

impl Ledger {
    /// An empty ledger.
    pub fn new() -> (r: Ledger)
        ensures
            r@.tokens == Seq::<TimeToken>::empty(),
            r@.transactions == Seq::<Transaction>::empty(),
            r@.links == Seq::<TokenTransfer>::empty(),
            r@.wf(),
    {
        Ledger { tokens: Vec::new(), transactions: Vec::new(), links: Vec::new() }
    }

    /// Position of the token `id`, if the ledger holds it.
    fn find_token(&self, id: u128) -> (r: Option<usize>)
        requires
            self@.wf(),
        ensures
            match r {
                Some(i) => i < self@.tokens.len() && self@.tokens[i as int].id == id
                    && holds_token(self@.tokens, id) && token_of(self@.tokens, id)
                    == self@.tokens[i as int],
                None => !holds_token(self@.tokens, id),
            },
    {
        let mut i: usize = 0;
        while i < self.tokens.len()
            invariant
                i <= self.tokens@.len(),
                self@.wf(),
                forall|k: int| 0 <= k < i ==> self.tokens@[k].id != id,
            decreases self.tokens@.len() - i,
        {
            if self.tokens[i].id == id {
                proof {
                    assert(self@.tokens[i as int].id == id);
                    let j = choose|j: int| 0 <= j < self@.tokens.len() && self@.tokens[j].id == id;
                    assert(self@.tokens[j].id == self@.tokens[i as int].id);
                }
                return Some(i);
            }
            i += 1;
        }
        None
    }

    /// Whether a transaction with this id is recorded.
    fn has_transaction(&self, id: u128) -> (r: bool)
        ensures
            r == holds_transaction(self@.transactions, id),
    {
        let mut i: usize = 0;
        while i < self.transactions.len()
            invariant
                i <= self.transactions@.len(),
                forall|k: int| 0 <= k < i ==> self.transactions@[k].id != id,
            decreases self.transactions@.len() - i,
        {
            if self.transactions[i].id == id {
                proof {
                    assert(self@.transactions[i as int].id == id);
                }
                return true;
            }
            i += 1;
        }
        false
    }

    /// The token `id`, if the ledger holds it.
    pub fn token(&self, id: u128) -> (r: Option<TimeToken>)
        requires
            self@.wf(),
        ensures
            r == (if holds_token(self@.tokens, id) {
                Some(token_of(self@.tokens, id))
            } else {
                None
            }),
    {
        match self.find_token(id) {
            Some(i) => Some(self.tokens[i]),
            None => None,
        }
    }

    /// Issues a token under the id `id`, owned by its issuer and active.
    pub fn issue_token_with_id(
        &mut self,
        id: u128,
        issuer: u128,
        denomination: i32,
        expires_at: Option<i64>,
        now: i64,
    ) -> (r: Result<TimeToken, LedgerError>)
        requires
            old(self)@.wf(),
        ensures
            final(self)@.wf(),
            r == issue_outcome(old(self)@, id, issuer, denomination, expires_at, now),
            final(self)@ == state_after_issue(old(self)@, id, issuer, denomination, expires_at, now),
    {
        if denomination <= 0 {
            return Err(LedgerError::NonPositiveDenomination);
        }
        match expires_at {
            Some(e) => {
                if e <= now {
                    return Err(LedgerError::ExpiryNotInFuture);
                }
            },
            None => {},
        }
        if self.find_token(id).is_some() {
            return Err(LedgerError::IdInUse(id));
        }
        let t = TimeToken {
            id,
            issuer_id: issuer,
            current_owner_id: issuer,
            denomination,
            created_at: now,
            expires_at,
            is_active: true,
        };
        let ghost before = self@;
        self.tokens.push(t);
        proof {
            assert(self@.links == before.links);
            assert(self@.tokens == before.tokens.push(t));
            assert(self@.transactions == before.transactions);
            assert forall|k: int| 0 <= k < self@.links.len() implies holds_token(
                self@.tokens,
                #[trigger] self@.links[k].token_id,
            ) by {
                assert(before.links[k] == self@.links[k]);
                assert(holds_token(before.tokens, before.links[k].token_id));
                let j = choose|j: int|
                    0 <= j < before.tokens.len() && before.tokens[j].id == before.links[k].token_id;
                assert(self@.tokens[j] == before.tokens[j]);
            }
        }
        Ok(t)
    }

    /// The failure of the first token of `ids` that may not leave `sender`.
    fn check_tokens(&self, sender: u128, ids: &Vec<u128>) -> (r: Option<LedgerError>)
        requires
            self@.wf(),
        ensures
            r == first_failure(self@.tokens, sender, ids@),
    {
        let mut i: usize = 0;
        while i < ids.len()
            invariant
                i <= ids@.len(),
                self@.wf(),
                first_failure(self@.tokens, sender, ids@.take(i as int)) is None,
            decreases ids@.len() - i,
        {
            let id = ids[i];
            let found = self.find_token(id);
            proof {
                assert(ids@.take(i + 1).drop_last() =~= ids@.take(i as int));
                assert(ids@.take(i + 1).last() == id);
            }
            let failure = match found {
                None => Some(LedgerError::NotFound(id)),
                Some(k) => {
                    if self.tokens[k].current_owner_id != sender {
                        Some(LedgerError::NotOwner(id))
                    } else if !self.tokens[k].is_active {
                        Some(LedgerError::Inactive(id))
                    } else {
                        None
                    }
                },
            };
            if failure.is_some() {
                proof {
                    lemma_first_failure_prefix(self@.tokens, sender, ids@, i + 1);
                }
                return failure;
            }
            i += 1;
        }
        proof {
            assert(ids@.take(i as int) =~= ids@);
        }
        None
    }

    /// Moves every token of `ids` from `sender` to `recipient` and records
    /// the move as the transaction `tx_id`, or, if any check fails, changes
    /// nothing. The checks run in this order: the set is non-empty, has no
    /// repeated id, the two users differ, each token in turn exists, belongs
    /// to `sender` and is active, and last `tx_id` is free. A caller that supplies
    /// its own `tx_id` and retries under it is refused with `IdInUse` once the
    /// first attempt has committed, so a retry never moves tokens twice.
    pub fn execute_transfer_with_id(
        &mut self,
        tx_id: u128,
        sender: u128,
        recipient: u128,
        ids: &Vec<u128>,
        service_id: Option<u128>,
        now: i64,
    ) -> (r: Result<TransferReceipt, LedgerError>)
        requires
            old(self)@.wf(),
        ensures
            final(self)@.wf(),
            final(self)@ == state_after_transfer(
                old(self)@,
                tx_id,
                sender,
                recipient,
                ids@,
                service_id,
                now,
            ),
            receipt_matches(r, transfer_outcome(old(self)@, tx_id, sender, recipient, ids@), ids@),
    {
        if ids.len() == 0 {
            return Err(LedgerError::EmptyTokenSet);
        }
        if !all_distinct(ids) {
            return Err(LedgerError::DuplicateTokenId);
        }
        if sender == recipient {
            return Err(LedgerError::SelfTransfer);
        }
        match self.check_tokens(sender, ids) {
            Some(e) => {
                return Err(e);
            },
            None => {},
        }
        if self.has_transaction(tx_id) {
            return Err(LedgerError::IdInUse(tx_id));
        }
        let ghost before = self@;
        proof {
            lemma_first_failure_none(before.tokens, sender, ids@);
        }
        let ghost after = transferred(before, tx_id, sender, recipient, ids@, service_id, now);
        let mut tokens: Vec<TimeToken> = Vec::new();
        let mut i: usize = 0;
        while i < self.tokens.len()
            invariant
                self@ == before,
                i <= self.tokens@.len(),
                tokens@.len() == i,
                forall|k: int| 0 <= k < i ==> tokens@[k] == moved(self.tokens@[k], ids@, recipient),
            decreases self.tokens@.len() - i,
        {
            let t = self.tokens[i];
            if contains_id(ids, t.id) {
                let mut m = t;
                m.current_owner_id = recipient;
                tokens.push(m);
            } else {
                tokens.push(t);
            }
            i += 1;
        }
        proof {
            assert(tokens@ =~= after.tokens);
        }
        self.tokens = tokens;
        self.transactions.push(
            Transaction {
                id: tx_id,
                sender_id: sender,
                recipient_id: recipient,
                service_id,
                status: TransactionStatus::Completed,
                created_at: now,
            },
        );
        let mut j: usize = 0;
        while j < ids.len()
            invariant
                j <= ids@.len(),
                self.tokens@ == after.tokens,
                self.transactions@ == after.transactions,
                self.links@.len() == before.links.len() + j,
                forall|k: int| 0 <= k < before.links.len() ==> self.links@[k] == before.links[k],
                forall|k: int|
                    0 <= k < j ==> self.links@[before.links.len() + k] == link(tx_id, ids@[k]),
            decreases ids@.len() - j,
        {
            self.links.push(TokenTransfer { transaction_id: tx_id, token_id: ids[j] });
            j += 1;
        }
        proof {
            assert(self@.links =~= after.links);
            lemma_transferred_wf(before, tx_id, sender, recipient, ids@, service_id, now);
        }
        Ok(TransferReceipt { transaction_id: tx_id, token_ids: ids.clone() })
    }

    /// Issues a token under a freshly drawn id. Whatever id is drawn, the
    /// outcome is that of `issue_token_with_id` under it.
    pub fn issue_token(
        &mut self,
        issuer: u128,
        denomination: i32,
        expires_at: Option<i64>,
        now: i64,
    ) -> (r: Result<TimeToken, LedgerError>)
        requires
            old(self)@.wf(),
        ensures
            final(self)@.wf(),
            exists|id: u128|
                {
                    &&& r == issue_outcome(old(self)@, id, issuer, denomination, expires_at, now)
                    &&& final(self)@ == state_after_issue(
                        old(self)@,
                        id,
                        issuer,
                        denomination,
                        expires_at,
                        now,
                    )
                },
    {
        let id = fresh_id();
        let r = self.issue_token_with_id(id, issuer, denomination, expires_at, now);
        proof {
            assert(r == issue_outcome(old(self)@, id, issuer, denomination, expires_at, now));
        }
        r
    }

    /// Transfers under a freshly drawn transaction id. Whatever id is drawn,
    /// the outcome is that of `execute_transfer_with_id` under it.
    pub fn execute_transfer(
        &mut self,
        sender: u128,
        recipient: u128,
        ids: &Vec<u128>,
        service_id: Option<u128>,
        now: i64,
    ) -> (r: Result<TransferReceipt, LedgerError>)
        requires
            old(self)@.wf(),
        ensures
            final(self)@.wf(),
            exists|tx_id: u128|
                {
                    &&& receipt_matches(
                        r,
                        transfer_outcome(old(self)@, tx_id, sender, recipient, ids@),
                        ids@,
                    )
                    &&& final(self)@ == state_after_transfer(
                        old(self)@,
                        tx_id,
                        sender,
                        recipient,
                        ids@,
                        service_id,
                        now,
                    )
                },
    {
        let tx_id = fresh_id();
        let r = self.execute_transfer_with_id(tx_id, sender, recipient, ids, service_id, now);
        proof {
            assert(receipt_matches(
                r,
                transfer_outcome(old(self)@, tx_id, sender, recipient, ids@),
                ids@,
            ));
        }
        r
    }

    /// Deactivates every active token whose expiry is at or before `now`.
    pub fn expire_due(&mut self, now: i64)
        requires
            old(self)@.wf(),
        ensures
            final(self)@.wf(),
            final(self)@.tokens == old(self)@.tokens.map_values(|t: TimeToken| expired(t, now)),
            final(self)@.transactions == old(self)@.transactions,
            final(self)@.links == old(self)@.links,
    {
        let ghost before = self@;
        let mut tokens: Vec<TimeToken> = Vec::new();
        let mut i: usize = 0;
        while i < self.tokens.len()
            invariant
                self@ == before,
                i <= self.tokens@.len(),
                tokens@.len() == i,
                forall|k: int| 0 <= k < i ==> tokens@[k] == expired(self.tokens@[k], now),
            decreases self.tokens@.len() - i,
        {
            let t = self.tokens[i];
            let due = match t.expires_at {
                Some(e) => t.is_active && e <= now,
                None => false,
            };
            if due {
                let mut m = t;
                m.is_active = false;
                tokens.push(m);
            } else {
                tokens.push(t);
            }
            i += 1;
        }
        let ghost after = before.tokens.map_values(|t: TimeToken| expired(t, now));
        proof {
            assert(tokens@ =~= after);
        }
        self.tokens = tokens;
        proof {
            assert forall|k: int| 0 <= k < after.len() implies #[trigger] after[k].id
                == before.tokens[k].id && after[k].denomination == before.tokens[k].denomination by {}
            assert forall|id: u128| holds_token(before.tokens, id) implies holds_token(after, id) by {
                let j = choose|j: int| 0 <= j < before.tokens.len() && before.tokens[j].id == id;
                assert(after[j].id == id);
            }
            assert forall|k: int| 0 <= k < self@.links.len() implies holds_token(
                self@.tokens,
                (#[trigger] self@.links[k]).token_id,
            ) && holds_transaction(self@.transactions, self@.links[k].transaction_id) by {
                assert(self@.links[k] == before.links[k]);
            }
        }
    }

    /// A ledger holding the given tokens and no transactions, if the tokens
    /// have distinct ids and positive denominations.
    pub fn from_tokens(tokens: Vec<TimeToken>) -> (r: Option<Ledger>)
        ensures
            r is Some <==> tokens_valid(tokens@),
            r matches Some(l) ==> l@.tokens == tokens@ && l@.transactions == Seq::<
                Transaction,
            >::empty() && l@.links == Seq::<TokenTransfer>::empty() && l@.wf(),
    {
        let mut i: usize = 0;
        while i < tokens.len()
            invariant
                i <= tokens@.len(),
                forall|a: int| 0 <= a < i ==> tokens@[a].denomination > 0,
                forall|a: int, b: int|
                    0 <= a < i && 0 <= b < tokens@.len() && a != b ==> tokens@[a].id
                        != tokens@[b].id,
            decreases tokens@.len() - i,
        {
            if tokens[i].denomination <= 0 {
                return None;
            }
            let mut j: usize = 0;
            while j < tokens.len()
                invariant
                    i < tokens@.len(),
                    j <= tokens@.len(),
                    forall|b: int| 0 <= b < j && b != i ==> tokens@[i as int].id != tokens@[b].id,
                decreases tokens@.len() - j,
            {
                if j != i && tokens[i].id == tokens[j].id {
                    return None;
                }
                j += 1;
            }
            i += 1;
        }
        Some(Ledger { tokens, transactions: Vec::new(), links: Vec::new() })
    }

    /// The tokens, in order of issue.
    pub fn tokens(&self) -> (r: &Vec<TimeToken>)
        ensures
            r@ == self@.tokens,
    {
        &self.tokens
    }

    /// The transaction log, in order of writing.
    pub fn transactions(&self) -> (r: &Vec<Transaction>)
        ensures
            r@ == self@.transactions,
    {
        &self.transactions
    }

    /// The transfer links, in order of writing.
    pub fn links(&self) -> (r: &Vec<TokenTransfer>)
        ensures
            r@ == self@.links,
    {
        &self.links
    }

    /// The transactions that `user` sent or received, oldest first.
    pub fn history_of_user(&self, user: u128) -> (r: Vec<Transaction>)
        ensures
            r@ == self@.transactions.filter(|t: Transaction| involves(t, user)),
    {
        let ghost pred = |t: Transaction| involves(t, user);
        let mut out: Vec<Transaction> = Vec::new();
        let mut i: usize = 0;
        while i < self.transactions.len()
            invariant
                i <= self.transactions@.len(),
                pred == (|t: Transaction| involves(t, user)),
                out@ == self.transactions@.take(i as int).filter(pred),
            decreases self.transactions@.len() - i,
        {
            let t = self.transactions[i];
            let ghost prefix = self.transactions@.take(i + 1);
            proof {
                assert(prefix.drop_last() =~= self.transactions@.take(i as int));
                assert(prefix.last() == t);
                reveal(Seq::filter);
                assert(prefix.filter(pred) == (if pred(t) {
                    prefix.drop_last().filter(pred).push(t)
                } else {
                    prefix.drop_last().filter(pred)
                }));
            }
            if t.sender_id == user || t.recipient_id == user {
                out.push(t);
            }
            proof {
                assert(pred(t) == (t.sender_id == user || t.recipient_id == user));
                assert(out@ =~= prefix.filter(pred));
            }
            i += 1;
        }
        proof {
            assert(self.transactions@.take(i as int) =~= self.transactions@);
        }
        out
    }

    /// Whether a link records that transaction `tx_id` moved token `token_id`.
    fn has_link(&self, tx_id: u128, token_id: u128) -> (r: bool)
        ensures
            r == self@.links.contains(link(tx_id, token_id)),
    {
        let mut i: usize = 0;
        while i < self.links.len()
            invariant
                i <= self.links@.len(),
                forall|k: int| 0 <= k < i ==> self.links@[k] != link(tx_id, token_id),
            decreases self.links@.len() - i,
        {
            let l = self.links[i];
            if l.transaction_id == tx_id && l.token_id == token_id {
                proof {
                    assert(self@.links[i as int] == link(tx_id, token_id));
                }
                return true;
            }
            i += 1;
        }
        false
    }

    /// The transactions that moved the token `token_id`, oldest first.
    pub fn history_of_token(&self, token_id: u128) -> (r: Vec<Transaction>)
        ensures
            r@ == self@.transactions.filter(|t: Transaction| moved_token(self@.links, t, token_id)),
    {
        let ghost pred = |t: Transaction| moved_token(self@.links, t, token_id);
        let mut out: Vec<Transaction> = Vec::new();
        let mut i: usize = 0;
        while i < self.transactions.len()
            invariant
                i <= self.transactions@.len(),
                pred == (|t: Transaction| moved_token(self@.links, t, token_id)),
                out@ == self.transactions@.take(i as int).filter(pred),
            decreases self.transactions@.len() - i,
        {
            let t = self.transactions[i];
            let ghost prefix = self.transactions@.take(i + 1);
            proof {
                assert(prefix.drop_last() =~= self.transactions@.take(i as int));
                assert(prefix.last() == t);
                reveal(Seq::filter);
                assert(prefix.filter(pred) == (if pred(t) {
                    prefix.drop_last().filter(pred).push(t)
                } else {
                    prefix.drop_last().filter(pred)
                }));
            }
            let hit = self.has_link(t.id, token_id);
            if hit {
                out.push(t);
            }
            proof {
                assert(pred(t) == hit);
                assert(out@ =~= prefix.filter(pred));
            }
            i += 1;
        }
        proof {
            assert(self.transactions@.take(i as int) =~= self.transactions@);
        }
        out
    }
}

} // verus!
