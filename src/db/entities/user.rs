use vstd::prelude::*;

verus! {

/// A row of the `users` table.
#[derive(Clone, Debug, PartialEq)]
pub struct Model {
    pub id: u32,
    pub name: String,
    pub photo: String,
    pub tag: u16,
}

/// The relations of the `users` table: its authentication methods and sessions, by user id.
#[derive(Clone, Copy, Debug, PartialEq, Eq, Structural)]
pub enum Relation {
    AuthMethod,
    AuthSession,
}

} // verus!
