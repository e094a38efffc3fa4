//! The call surfaces of the registry, as the surrounding dispatch layer sees
//! them.  The dispatch layer supplies the calling account explicitly, since
//! the library takes no ambient state.

use vstd::prelude::*;

use crate::errors::Error;
use crate::events::PSP34Event;
use crate::ids::{AccountId, Id};

verus! {

/// The core token interface: supply, balances, ownership, approvals, and
/// transfer.
pub trait PSP34 {
    /// The collection's own identifier.
    fn collection_id(&self, contract_account: AccountId) -> Id;

    /// The current number of live tokens.
    fn total_supply(&self) -> u128;

    /// How many tokens `owner` holds.
    fn balance_of(&self, owner: AccountId) -> u32;

    /// Whether `operator` is approved by `owner`, for one token or for all.
    fn allowance(&self, owner: AccountId, operator: AccountId, id: Option<Id>) -> bool;

    /// Moves a token from the caller's authority to `to`.
    fn transfer(&mut self, caller: AccountId, to: AccountId, id: Id, data: Vec<u8>) -> Result<
        Vec<PSP34Event>,
        Error,
    >;

    /// Grants or revokes an approval.
    fn approve(&mut self, caller: AccountId, operator: AccountId, id: Option<Id>, approved: bool)
        -> Result<Vec<PSP34Event>, Error>;

    /// The owner of a token, if it is live.
    fn owner_of(&self, id: Id) -> Option<AccountId>;
}

/// Attribute reading.
pub trait PSP34Metadata {
    /// The stored attribute value, or `None` when never set.
    fn get_attribute(&self, id: Id, key: Vec<u8>) -> Option<Vec<u8>>;
}

/// Minting.
pub trait PSP34Mintable {
    /// Creates a token owned by the caller.
    fn mint(&mut self, caller: AccountId) -> Result<Vec<PSP34Event>, Error>;
}

/// Burning.
pub trait PSP34Burnable {
    /// Destroys a token of `account`, on the caller's authority.
    fn burn(&mut self, caller: AccountId, account: AccountId, id: Id) -> Result<
        Vec<PSP34Event>,
        Error,
    >;
}

/// Stable integer-indexed enumeration of live tokens.
pub trait PSP34Enumerable {
    /// The token at `index` in `owner`'s list.
    fn owners_token_by_index(&self, owner: AccountId, index: u128) -> Result<Id, Error>;

    /// The token at `index` in the global list.
    fn token_by_index(&self, index: u128) -> Result<Id, Error>;
}

/// The administrative ownership of the registry itself.
pub trait Ownable {
    /// The administrative owner, if any.
    fn owner(&self) -> Option<AccountId>;

    /// Gives the administrative role up for good.
    fn renounce_ownership(&mut self, caller: AccountId) -> Result<(), Error>;

    /// Hands the administrative role over.
    fn transfer_ownership(&mut self, caller: AccountId, new_owner: Option<AccountId>) -> Result<
        (),
        Error,
    >;
}

/// The registry's management surface: base URI, attributes, locks, and the
/// token-number counter.
pub trait Psp34Traits {
    /// Stores the collection's base URI.
    fn set_base_uri(&mut self, caller: AccountId, uri: String) -> Result<(), Error>;

    /// Writes several attributes of one token as one atomic unit.
    fn set_multiple_attributes(
        &mut self,
        caller: AccountId,
        token_id: Id,
        metadata: Vec<(String, String)>,
    ) -> Result<(), Error>;

    /// Reads several attributes of one token as text.
    fn get_attributes(&self, token_id: Id, attributes: Vec<String>) -> Vec<String>;

    /// How many distinct attribute names exist.
    fn get_attribute_count(&self) -> u32;

    /// The interned attribute name at a one-based index.
    fn get_attribute_name(&self, index: u32) -> String;

    /// The metadata location of a token: `baseURI` + number + `.json`.
    fn token_uri(&self, token_id: u64) -> String;

    /// The last issued token number.
    fn get_last_token_id(&self) -> u64;

    /// Locks a token; only its owner may.
    fn lock(&mut self, caller: AccountId, token_id: Id) -> Result<(), Error>;

    /// Whether a token is locked.
    fn is_locked_nft(&self, token_id: Id) -> bool;

    /// How many tokens are locked.
    fn get_locked_token_count(&self) -> u64;

    /// The administrative owner; the registry must have one.
    fn get_owner(&self) -> AccountId;
}

} // verus!
