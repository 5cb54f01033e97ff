use vstd::prelude::*;

pub mod error;
pub mod identity;
pub mod ids;
pub mod laws;
pub mod ledger;
pub mod password;
pub mod requests;

pub use error::{ErrorKind, LedgerError};
pub use identity::{bearer_credential, subject_user_id, AuthError, Claims};
pub use password::{hash_password, verify_password};
pub use ledger::{Ledger, TimeToken, TokenTransfer, Transaction, TransactionStatus, TransferReceipt};
pub use requests::{CreateServiceDto, CreateTokenDto, TransferTokenDto};

verus! {

} // verus!
