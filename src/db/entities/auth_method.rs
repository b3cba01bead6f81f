use vstd::prelude::*;

verus! {

/// An authentication method. Stored as a small unsigned number.
#[derive(Clone, Copy, Debug, PartialEq, Eq, Structural)]
pub enum Method {
    Password,
    Email,
    Telegram,
}

impl Method {
    pub open spec fn spec_code(self) -> u8 {
        match self {
            Method::Password => 0,
            Method::Email => 1,
            Method::Telegram => 2,
        }
    }

    /// The stored number of the method.
    pub fn code(&self) -> (r: u8)
        ensures
            r == self.spec_code(),
    {
        match self {
            Method::Password => 0,
            Method::Email => 1,
            Method::Telegram => 2,
        }
    }

    /// The method stored as `code`, if any.
    pub fn from_code(code: u8) -> (r: Option<Method>)
        ensures
            match r {
                Some(m) => m.spec_code() == code,
                None => code > 2,
            },
    {
        match code {
            0 => Some(Method::Password),
            1 => Some(Method::Email),
            2 => Some(Method::Telegram),
            _ => None,
        }
    }
}

/// A row of the `auths_methods` table: a user's method and its data.
#[derive(Clone, Debug)]
pub struct Model {
    pub user_id: u32,
    pub method: Method,
    pub data: String,
}

} // verus!
