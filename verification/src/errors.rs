//! The error kinds a registry operation can report.
//!
//! Every fallible operation returns a typed result; a failing operation
//! leaves the registry exactly as it was before the call.

use vstd::prelude::*;
use vstd::string::StringExecFns;

verus! {

/// Why a registry operation was refused.
#[derive(Debug)]
pub enum Error {
    /// The token does not exist.
    TokenNotExists,
    /// The token already exists.
    TokenExists,
    /// The caller is neither the owner nor an authorized operator.
    NotApproved,
    /// An account tried to approve itself as an operator.
    SelfApprove,
    /// The named account is not the owner in question.
    NotOwner,
    /// The input is rejected by a business rule.
    InvalidInput,
    /// A supply or balance counter cannot be increased any further.
    SupplyOverflow,
    /// The attribute-name interning table cannot grow any further.
    AttributeNameOverflow,
    /// The locked-token counter cannot be increased any further.
    LockCountOverflow,
    /// The locked-token counter cannot be decreased any further.
    LockCountUnderflow,
    /// The token is locked, so its attributes cannot be changed.
    Locked,
    /// An uncategorized condition, described in words.
    Custom(String),
}

impl Error {
    /// A short name for the error kind, for display by callers.
    pub fn describe(&self) -> (r: String)
        ensures
            self matches Error::Custom(m) ==> r@ == m@,
    {
        match self {
            Error::TokenNotExists => String::from_str("token does not exist"),
            Error::TokenExists => String::from_str("token already exists"),
            Error::NotApproved => String::from_str("caller is not token owner or approved"),
            Error::SelfApprove => String::from_str("cannot approve caller itself"),
            Error::NotOwner => String::from_str("not token owner"),
            Error::InvalidInput => String::from_str("invalid input"),
            Error::SupplyOverflow => String::from_str("cannot increase supply"),
            Error::AttributeNameOverflow => String::from_str("fail to increase attribute count"),
            Error::LockCountOverflow => String::from_str("cannot increase locked token count"),
            Error::LockCountUnderflow => String::from_str("locked token count error"),
            Error::Locked => String::from_str("token is locked"),
            Error::Custom(m) => m.clone(),
        }
    }
}

} // verus!
