use vstd::prelude::*;

verus! {

/// A request to issue a token to the caller.
#[derive(Clone, Copy, Debug, PartialEq, Eq, Structural)]
pub struct CreateTokenDto {
    /// Minutes of service; must be positive.
    pub denomination: i32,
    /// Seconds since the Unix epoch; must lie in the future when given.
    pub expires_at: Option<i64>,
}

/// A request to move a set of the caller's tokens to another user.
#[derive(Clone, Debug)]
pub struct TransferTokenDto {
    pub recipient_id: u128,
    pub token_ids: Vec<u128>,
    pub service_id: Option<u128>,
}

/// A request to list a service in the catalog.
#[derive(Clone, Debug)]
pub struct CreateServiceDto {
    pub title: String,
    pub description: String,
    /// Minutes of service.
    pub time_cost: i32,
    pub categories: Vec<String>,
}

} // verus!
