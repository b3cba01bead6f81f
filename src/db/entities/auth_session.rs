use vstd::prelude::*;

verus! {

/// A row of the `auths_sessions` table: a login session of a user on a device.
#[derive(Clone, Debug, PartialEq)]
pub struct Model {
    pub token: String,
    pub user_id: u32,
    pub expires: u64,
    pub device: String,
}

} // verus!
