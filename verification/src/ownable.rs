//! The single-role administrative ownership of the registry.

use vstd::prelude::*;

use crate::errors::Error;
use crate::ids::AccountId;

verus! {

/// The administrative owner of the registry, if any.
pub struct Data {
    pub owner: Option<AccountId>,
}

impl Data {
    /// A registry with no administrative owner yet.
    pub fn new() -> (r: Data)
        ensures
            r.owner is None,
    {
        Data { owner: None }
    }

    /// Installs the first administrative owner.
    pub fn init_with_owner(&mut self, contract_owner: AccountId)
        ensures
            final(self).owner == Some(contract_owner),
    {
        self.owner = Some(contract_owner);
    }

    /// The current administrative owner.
    pub fn owner(&self) -> (r: Option<AccountId>)
        ensures
            r == self.owner,
    {
        self.owner
    }

    /// Accepts exactly the current administrative owner.
    pub fn check_owner(&self, caller: AccountId) -> (r: Result<(), Error>)
        ensures
            r is Ok <==> self.owner == Some(caller),
            r matches Err(e) ==> e matches Error::NotOwner,
    {
        match self.owner {
            Some(o) if o == caller => Ok(()),
            _ => Err(Error::NotOwner),
        }
    }

    /// Hands the administrative role to `new_owner`, or clears it.
    pub fn transfer_ownership(&mut self, new_owner: Option<AccountId>) -> (r: Result<(), Error>)
        ensures
            r is Ok,
            final(self).owner == new_owner,
    {
        self.owner = new_owner;
        Ok(())
    }

    /// Gives the administrative role up for good.
    pub fn renounce_ownership(&mut self) -> (r: Result<(), Error>)
        ensures
            r is Ok,
            final(self).owner is None,
    {
        self.owner = None;
        Ok(())
    }
}

} // verus!
