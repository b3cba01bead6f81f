use vstd::prelude::*;

verus! {

/// A row of the `sessions` table: a session token of a user and when it expires.
#[derive(Clone, Debug, PartialEq)]
pub struct Model {
    pub token: String,
    pub user_id: u32,
    pub expires: u64,
}

} // verus!
