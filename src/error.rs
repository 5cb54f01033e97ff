use vstd::prelude::*;

verus! {

/// The classes of failure that the ledger and its callers tell apart.
#[derive(Clone, Copy, Debug, PartialEq, Eq, Structural)]
pub enum ErrorKind {
    /// Malformed or out-of-range input.
    Validation,
    /// The caller's credential is missing or invalid.
    Authentication,
    /// The caller does not own a referenced token.
    Authorization,
    /// A referenced token does not exist.
    NotFound,
    /// A token is inactive, or an identifier is already taken.
    Conflict,
    /// The store failed for a reason unrelated to the ledger's rules.
    Persistence,
}

/// Why an issue or a transfer was refused. No refused operation changes the ledger.
#[derive(Clone, Copy, Debug, PartialEq, Eq, Structural)]
pub enum LedgerError {
    /// A token must be worth a positive number of minutes.
    NonPositiveDenomination,
    /// An expiry, when given, must lie after the moment of issue.
    ExpiryNotInFuture,
    /// A transfer must name at least one token.
    EmptyTokenSet,
    /// A transfer names the same token twice.
    DuplicateTokenId,
    /// Sender and recipient are the same user.
    SelfTransfer,
    /// The identifier chosen for a new token or transaction is already taken.
    IdInUse(u128),
    /// The token does not exist.
    NotFound(u128),
    /// The token belongs to someone other than the sender.
    NotOwner(u128),
    /// The token is no longer active.
    Inactive(u128),
}

impl LedgerError {
    pub open spec fn spec_kind(self) -> ErrorKind {
        match self {
            LedgerError::NonPositiveDenomination => ErrorKind::Validation,
            LedgerError::ExpiryNotInFuture => ErrorKind::Validation,
            LedgerError::EmptyTokenSet => ErrorKind::Validation,
            LedgerError::DuplicateTokenId => ErrorKind::Validation,
            LedgerError::SelfTransfer => ErrorKind::Validation,
            LedgerError::IdInUse(_) => ErrorKind::Conflict,
            LedgerError::NotFound(_) => ErrorKind::NotFound,
            LedgerError::NotOwner(_) => ErrorKind::Authorization,
            LedgerError::Inactive(_) => ErrorKind::Conflict,
        }
    }

    pub open spec fn spec_token_id(self) -> Option<u128> {
        match self {
            LedgerError::NotFound(id) => Some(id),
            LedgerError::NotOwner(id) => Some(id),
            LedgerError::Inactive(id) => Some(id),
            _ => None,
        }
    }

    /// The class of this failure.
    pub fn kind(&self) -> (r: ErrorKind)
        ensures
            r == self.spec_kind(),
    {
        match self {
            LedgerError::NonPositiveDenomination => ErrorKind::Validation,
            LedgerError::ExpiryNotInFuture => ErrorKind::Validation,
            LedgerError::EmptyTokenSet => ErrorKind::Validation,
            LedgerError::DuplicateTokenId => ErrorKind::Validation,
            LedgerError::SelfTransfer => ErrorKind::Validation,
            LedgerError::IdInUse(_) => ErrorKind::Conflict,
            LedgerError::NotFound(_) => ErrorKind::NotFound,
            LedgerError::NotOwner(_) => ErrorKind::Authorization,
            LedgerError::Inactive(_) => ErrorKind::Conflict,
        }
    }

    /// The offending token, for the failures that concern one.
    pub fn token_id(&self) -> (r: Option<u128>)
        ensures
            r == self.spec_token_id(),
    {
        match self {
            LedgerError::NotFound(id) => Some(*id),
            LedgerError::NotOwner(id) => Some(*id),
            LedgerError::Inactive(id) => Some(*id),
            _ => None,
        }
    }
}

} // verus!
