use vstd::prelude::*;

verus! {

/// How a user authenticates. Stored as a small unsigned number.
#[derive(Clone, Copy, Debug, PartialEq, Eq, Structural)]
pub enum Kind {
    Password,
    Email,
    Telegram,
}

impl Kind {
    pub open spec fn spec_code(self) -> u8 {
        match self {
            Kind::Password => 0,
            Kind::Email => 1,
            Kind::Telegram => 2,
        }
    }

    /// The stored number of the kind.
    pub fn code(&self) -> (r: u8)
        ensures
            r == self.spec_code(),
    {
        match self {
            Kind::Password => 0,
            Kind::Email => 1,
            Kind::Telegram => 2,
        }
    }

    /// The kind stored as `code`, if any.
    pub fn from_code(code: u8) -> (r: Option<Kind>)
        ensures
            match r {
                Some(k) => k.spec_code() == code,
                None => code > 2,
            },
    {
        match code {
            0 => Some(Kind::Password),
            1 => Some(Kind::Email),
            2 => Some(Kind::Telegram),
            _ => None,
        }
    }
}

/// A row of the `auths` table: one way for a user to authenticate.
#[derive(Clone, Debug, PartialEq)]
pub struct Model {
    pub user_id: u32,
    pub kind: Kind,
    pub relation: String,
}

} // verus!
