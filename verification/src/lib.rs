//! A verified non-fungible-token registry.
//!
//! The registry tracks ownership of uniquely identified tokens, authorizes
//! transfers through collection-wide and per-token approvals, exposes a
//! deterministic enumeration of live tokens, stores arbitrary key/value
//! attributes per token with interning of attribute names, and supports an
//! owner-gated one-way lock that freezes a token's attributes until the token
//! is burned.

use vstd::prelude::*;
use vstd::string::StrSliceExecFns;
use vstd::utf8::encode_utf8;

pub mod errors;
pub mod ledger;
pub mod metadata;
pub mod ownable;
pub mod psp34_standard;
pub mod text;
pub mod traits;
pub mod events;
pub mod ids;

use crate::errors::Error;
use crate::events::{PSP34Event, is_transfer_event};
use crate::ids::{AccountId, Id, IdV};
use crate::ledger::{
    PSP34Data, count_owned, has_entry, owned_ids, spec_allowance, spec_authorized, spec_balance,
    spec_owner_of, lemma_owner_of_none, lemma_owner_of_found, opt_ref_view,
};
use crate::metadata::spec_attribute;
use crate::psp34_standard::{Manager, interned_after, names_view, spec_is_locked, spec_pairs_value};
use crate::text::{dec_chars, text_of_bytes, text_of_opt_bytes};

verus! {

/// The whole registry: the token ledger with approvals and enumeration, the
/// administrative ownership, and the manager with attributes and locks.
pub struct Psp34Nft {
    pub data: PSP34Data,
    pub ownable: ownable::Data,
    pub manager_psp34_standard: Manager,
}

impl Psp34Nft {
    /// Well-formedness of the whole registry: both subsystems are well
    /// formed, and every live token is numbered between one and the last
    /// issued number, so a fresh number never collides.
    pub open spec fn wf(&self) -> bool {
        &&& self.data.wf()
        &&& self.manager_psp34_standard.wf()
        &&& forall|j: int|
            0 <= j < self.data.tokens@.len() ==> ((#[trigger] self.data.tokens@[j]).0@ matches
            IdV::U64(n) && 1 <= n && n <= self.manager_psp34_standard.last_token_id)
    }

    /// A fresh registry administered by `contract_owner`, with the
    /// collection's name and symbol stored on the reserved pseudo-token.
    pub fn new(contract_owner: AccountId, name: String, symbol: String) -> (r: Psp34Nft)
        ensures
            r.wf(),
            r.ownable.owner == Some(contract_owner),
            r.data.tokens@.len() == 0,
            r.data.balances@.len() == 0,
            r.data.allowances@.len() == 0,
            r.manager_psp34_standard.last_token_id == 0,
            r.manager_psp34_standard.attribute_count == 0,
            r.manager_psp34_standard.locked_token_count == 0,
            forall|iv: IdV, k: Seq<u8>| #[trigger] spec_attribute(
                r.manager_psp34_standard.metadata.attributes@,
                iv,
                k,
            ) == if iv == IdV::U8(0) && k == encode_utf8("symbol"@) {
                Some(encode_utf8(symbol@))
            } else if iv == IdV::U8(0) && k == encode_utf8("name"@) {
                Some(encode_utf8(name@))
            } else {
                None::<Seq<u8>>
            },
    {
        let mut instance = Psp34Nft {
            data: PSP34Data::new(),
            ownable: ownable::Data::new(),
            manager_psp34_standard: Manager::new(),
        };
        instance.ownable.init_with_owner(contract_owner);
        instance.manager_psp34_standard.metadata.set_attribute(
            Id::U8(0),
            "name".as_bytes_vec(),
            name.as_str().as_bytes_vec(),
        );
        instance.manager_psp34_standard.metadata.set_attribute(
            Id::U8(0),
            "symbol".as_bytes_vec(),
            symbol.as_str().as_bytes_vec(),
        );
        instance
    }

    /// Creates the next numbered token for the administrative owner.
    ///
    /// Fails with `NotOwner` for any other caller and with `SupplyOverflow`
    /// when no further number or balance is available; a failing call leaves
    /// the registry unchanged.
    pub fn mint(&mut self, caller: AccountId) -> (r: Result<Vec<PSP34Event>, Error>)
        requires
            old(self).wf(),
        ensures
            final(self).wf(),
            final(self).ownable == old(self).ownable,
            old(self).ownable.owner != Some(caller) ==> (r matches Err(Error::NotOwner) && *final(self) == *old(self)),
            old(self).ownable.owner == Some(caller)
                && old(self).manager_psp34_standard.last_token_id == u64::MAX ==> (r matches Err(
                Error::SupplyOverflow,
            ) && *final(self) == *old(self)),
            old(self).ownable.owner == Some(caller)
                && old(self).manager_psp34_standard.last_token_id < u64::MAX && spec_balance(
                old(self).data.balances@,
                caller,
            ) == u32::MAX ==> (r matches Err(Error::SupplyOverflow) && *final(self) == *old(self)),
            old(self).ownable.owner == Some(caller)
                && old(self).manager_psp34_standard.last_token_id < u64::MAX && spec_balance(
                old(self).data.balances@,
                caller,
            ) < u32::MAX ==> ({
                let id = IdV::U64((old(self).manager_psp34_standard.last_token_id + 1) as u64);
                &&& r matches Ok(ev) && ev@.len() == 1 && is_transfer_event(
                    ev@[0],
                    None,
                    Some(caller),
                    id,
                )
                &&& final(self).manager_psp34_standard.last_token_id == old(self).manager_psp34_standard.last_token_id + 1
                &&& final(self).data.tokens@.len() == old(self).data.tokens@.len() + 1
                &&& spec_owner_of(final(self).data.tokens@, id) == Some(caller)
                &&& forall|x: IdV|
                    x != id ==> #[trigger] spec_owner_of(final(self).data.tokens@, x)
                        == spec_owner_of(old(self).data.tokens@, x)
                &&& forall|b: AccountId| #[trigger] spec_balance(final(self).data.balances@, b)
                    == spec_balance(old(self).data.balances@, b) + (if b == caller {
                    1int
                } else {
                    0int
                })
                &&& final(self).data.allowances@ == old(self).data.allowances@
                &&& final(self).manager_psp34_standard.attribute_names@ == old(self).manager_psp34_standard.attribute_names@
                &&& final(self).manager_psp34_standard.metadata == old(self).manager_psp34_standard.metadata
                &&& final(self).manager_psp34_standard.locked_tokens@ == old(self).manager_psp34_standard.locked_tokens@
            }),
    {
        if self.ownable.check_owner(caller).is_err() {
            return Err(Error::NotOwner);
        }
        if self.manager_psp34_standard.last_token_id == u64::MAX {
            return Err(Error::SupplyOverflow);
        }
        let b = self.data.balance_of(caller);
        if b == u32::MAX {
            return Err(Error::SupplyOverflow);
        }
        let new_last = self.manager_psp34_standard.last_token_id + 1;
        let id = Id::U64(new_last);
        proof {
            assert forall|j: int|
                0 <= j < self.data.tokens@.len() implies (#[trigger] self.data.tokens@[j]).0@
                != IdV::U64(new_last) by {}
            lemma_owner_of_none(self.data.tokens@, IdV::U64(new_last));
        }
        let events = match self.data.mint(caller, id) {
            Ok(ev) => ev,
            Err(e) => {
                proof {
                    assert(false);
                }
                return Err(e);
            },
        };
        self.manager_psp34_standard.last_token_id = new_last;
        proof {
            assert forall|j: int|
                0 <= j < self.data.tokens@.len() implies ((#[trigger] self.data.tokens@[j]).0@
                matches IdV::U64(n) && 1 <= n && n <= self.manager_psp34_standard.last_token_id) by {
                if j < self.data.tokens@.len() - 1 {
                    assert(self.data.tokens@[j] == old(self).data.tokens@[j]);
                } else {
                    assert(self.data.tokens@.last().0@ == IdV::U64(new_last));
                }
            }
        }
        Ok(events)
    }

    /// Creates the next numbered token for the administrative owner and
    /// tags it with the given attributes, all as one atomic unit: on any
    /// failure the registry is unchanged.
    pub fn mint_with_attributes(&mut self, caller: AccountId, metadata: Vec<(String, String)>) -> (r:
        Result<Vec<PSP34Event>, Error>)
        requires
            old(self).wf(),
        ensures
            final(self).wf(),
            final(self).ownable == old(self).ownable,
            old(self).ownable.owner != Some(caller) ==> (r matches Err(Error::NotOwner) && *final(self) == *old(self)),
            r is Err ==> *final(self) == *old(self),
            old(self).ownable.owner == Some(caller)
                && old(self).manager_psp34_standard.last_token_id == u64::MAX ==> r matches Err(
                Error::SupplyOverflow,
            ),
            old(self).ownable.owner == Some(caller)
                && old(self).manager_psp34_standard.last_token_id < u64::MAX && spec_balance(
                old(self).data.balances@,
                caller,
            ) == u32::MAX ==> r matches Err(Error::SupplyOverflow),
            old(self).ownable.owner == Some(caller)
                && old(self).manager_psp34_standard.last_token_id < u64::MAX && spec_balance(
                old(self).data.balances@,
                caller,
            ) < u32::MAX && spec_is_locked(
                old(self).manager_psp34_standard.locked_tokens@,
                IdV::U64((old(self).manager_psp34_standard.last_token_id + 1) as u64),
            ) ==> r matches Err(Error::Locked),
            old(self).ownable.owner == Some(caller)
                && old(self).manager_psp34_standard.last_token_id < u64::MAX && spec_balance(
                old(self).data.balances@,
                caller,
            ) < u32::MAX && !spec_is_locked(
                old(self).manager_psp34_standard.locked_tokens@,
                IdV::U64((old(self).manager_psp34_standard.last_token_id + 1) as u64),
            ) && interned_after(
                names_view(old(self).manager_psp34_standard.attribute_names@),
                metadata@,
            ).len() > u32::MAX ==> r matches Err(Error::AttributeNameOverflow),
            old(self).ownable.owner == Some(caller)
                && old(self).manager_psp34_standard.last_token_id < u64::MAX && spec_balance(
                old(self).data.balances@,
                caller,
            ) < u32::MAX && !spec_is_locked(
                old(self).manager_psp34_standard.locked_tokens@,
                IdV::U64((old(self).manager_psp34_standard.last_token_id + 1) as u64),
            ) && interned_after(
                names_view(old(self).manager_psp34_standard.attribute_names@),
                metadata@,
            ).len() <= u32::MAX ==> ({
                let id = IdV::U64((old(self).manager_psp34_standard.last_token_id + 1) as u64);
                &&& r matches Ok(ev) && ev@.len() == 1 && is_transfer_event(
                    ev@[0],
                    None,
                    Some(caller),
                    id,
                )
                &&& final(self).manager_psp34_standard.last_token_id == old(self).manager_psp34_standard.last_token_id + 1
                &&& spec_owner_of(final(self).data.tokens@, id) == Some(caller)
                &&& final(self).data.tokens@.len() == old(self).data.tokens@.len() + 1
                &&& names_view(final(self).manager_psp34_standard.attribute_names@)
                    == interned_after(
                    names_view(old(self).manager_psp34_standard.attribute_names@),
                    metadata@,
                )
                &&& forall|iv: IdV, k: Seq<u8>| #[trigger] spec_attribute(
                    final(self).manager_psp34_standard.metadata.attributes@,
                    iv,
                    k,
                ) == (if iv == id && spec_pairs_value(metadata@, k) is Some {
                    spec_pairs_value(metadata@, k)
                } else {
                    spec_attribute(old(self).manager_psp34_standard.metadata.attributes@, iv, k)
                })
            }),
    {
        if self.ownable.check_owner(caller).is_err() {
            return Err(Error::NotOwner);
        }
        if self.manager_psp34_standard.last_token_id == u64::MAX {
            return Err(Error::SupplyOverflow);
        }
        let b = self.data.balance_of(caller);
        if b == u32::MAX {
            return Err(Error::SupplyOverflow);
        }
        let new_last = self.manager_psp34_standard.last_token_id + 1;
        let id = Id::U64(new_last);
        match self.manager_psp34_standard.set_multiple_attributes(Id::U64(new_last), metadata) {
            Ok(()) => {},
            Err(e) => {
                return Err(e);
            },
        }
        proof {
            assert forall|j: int|
                0 <= j < self.data.tokens@.len() implies (#[trigger] self.data.tokens@[j]).0@
                != IdV::U64(new_last) by {}
            lemma_owner_of_none(self.data.tokens@, IdV::U64(new_last));
        }
        let events = match self.data.mint(caller, id) {
            Ok(ev) => ev,
            Err(e) => {
                proof {
                    assert(false);
                }
                return Err(e);
            },
        };
        self.manager_psp34_standard.last_token_id = new_last;
        proof {
            assert forall|j: int|
                0 <= j < self.data.tokens@.len() implies ((#[trigger] self.data.tokens@[j]).0@
                matches IdV::U64(n) && 1 <= n && n <= self.manager_psp34_standard.last_token_id) by {
                if j < self.data.tokens@.len() - 1 {
                    assert(self.data.tokens@[j] == old(self).data.tokens@[j]);
                } else {
                    assert(self.data.tokens@.last().0@ == IdV::U64(new_last));
                }
            }
        }
        Ok(events)
    }
}

} // verus!


verus! {

impl Psp34Nft {
    /// The collection's own identifier, derived from the contract account.
    pub fn collection_id(&self, contract_account: AccountId) -> (r: Id)
        ensures
            r@ == IdV::U128(contract_account.raw),
    {
        self.data.collection_id(contract_account)
    }

    /// The number of live tokens.
    pub fn total_supply(&self) -> (r: u128)
        ensures
            r == self.data.tokens@.len() as u128,
    {
        self.data.total_supply()
    }

    /// How many tokens `owner` holds.
    pub fn balance_of(&self, owner: AccountId) -> (r: u32)
        requires
            self.wf(),
        ensures
            r as int == spec_balance(self.data.balances@, owner),
    {
        self.data.balance_of(owner)
    }

    /// Whether `operator` is approved by `owner`, for one token or for all.
    pub fn allowance(&self, owner: AccountId, operator: AccountId, id: Option<Id>) -> (r: bool)
        ensures
            r == spec_allowance(self.data.allowances@, owner, operator, crate::ids::opt_id_view(
                &id,
            )),
    {
        let idr = id.as_ref();
        let rr = self.data.allowance(owner, operator, idr);
        proof {
            assert(opt_ref_view(idr) == crate::ids::opt_id_view(&id));
        }
        rr
    }

    /// The owner of a token, if it is live.
    pub fn owner_of(&self, id: Id) -> (r: Option<AccountId>)
        requires
            self.wf(),
        ensures
            r == spec_owner_of(self.data.tokens@, id@),
    {
        self.data.owner_of(&id)
    }

    /// Moves token `id` to `to` on the authority of `caller`: the caller
    /// must own the token or hold an approval for it.  On success every
    /// per-token approval for the token is cleared.
    pub fn transfer(&mut self, caller: AccountId, to: AccountId, id: Id, data: Vec<u8>) -> (r:
        Result<Vec<PSP34Event>, Error>)
        requires
            old(self).wf(),
        ensures
            final(self).wf(),
            final(self).ownable == old(self).ownable,
            final(self).manager_psp34_standard == old(self).manager_psp34_standard,
            spec_owner_of(old(self).data.tokens@, id@) is None ==> (r matches Err(
                Error::TokenNotExists,
            ) && *final(self) == *old(self)),
            spec_owner_of(old(self).data.tokens@, id@) matches Some(ow) ==> {
                &&& !spec_authorized(old(self).data.allowances@, caller, ow, id@) ==> (r matches
                    Err(Error::NotApproved) && *final(self) == *old(self))
                &&& (spec_authorized(old(self).data.allowances@, caller, ow, id@) && to != ow
                    && spec_balance(old(self).data.balances@, to) == u32::MAX) ==> (r matches Err(
                    Error::SupplyOverflow,
                ) && *final(self) == *old(self))
                &&& (spec_authorized(old(self).data.allowances@, caller, ow, id@) && (to == ow
                    || spec_balance(old(self).data.balances@, to) < u32::MAX)) ==> {
                    &&& r matches Ok(ev) && ev@.len() == 1 && is_transfer_event(
                        ev@[0],
                        Some(ow),
                        Some(to),
                        id@,
                    )
                    &&& final(self).data.tokens@.len() == old(self).data.tokens@.len()
                    &&& spec_owner_of(final(self).data.tokens@, id@) == Some(to)
                    &&& forall|x: IdV|
                        x != id@ ==> #[trigger] spec_owner_of(final(self).data.tokens@, x)
                            == spec_owner_of(old(self).data.tokens@, x)
                    &&& forall|b: AccountId| #[trigger] spec_balance(final(self).data.balances@, b)
                        == spec_balance(old(self).data.balances@, b) - (if b == ow {
                        1int
                    } else {
                        0int
                    }) + (if b == to {
                        1int
                    } else {
                        0int
                    })
                    &&& forall|o: AccountId, p: AccountId|
                        !has_entry(final(self).data.allowances@, o, p, Some(id@))
                    &&& forall|o: AccountId, p: AccountId, x: Option<IdV>|
                        x != Some(id@) ==> #[trigger] has_entry(final(self).data.allowances@, o, p, x)
                            == has_entry(old(self).data.allowances@, o, p, x)
                    &&& forall|p: AccountId|
                        #[trigger] spec_allowance(final(self).data.allowances@, ow, p, Some(id@))
                            == has_entry(final(self).data.allowances@, ow, p, None)
                }
            },
    {
        let ghost pre = self.data.tokens@;
        let ghost idv = id@;
        let r = self.data.transfer(caller, to, id, data);
        proof {
            crate::ledger::lemma_balance_le_max(old(self).data.balances@, to);
            assert forall|j: int|
                0 <= j < self.data.tokens@.len() implies ((#[trigger] self.data.tokens@[j]).0@
                matches IdV::U64(n) && 1 <= n && n
                <= self.manager_psp34_standard.last_token_id) by {
                if r is Ok {
                    assert(pre[j].0@ matches IdV::U64(n) && 1 <= n && n
                        <= self.manager_psp34_standard.last_token_id);
                    if pre[j].0@ == idv {
                        assert(self.data.tokens@[j].0@ == idv);
                    } else {
                        assert(self.data.tokens@[j] == pre[j]);
                    }
                } else {
                    assert(self.data == old(self).data);
                    assert(self.data.tokens@[j] == pre[j]);
                }
            }
        }
        r
    }

    /// Grants or revokes an approval on the authority of `caller`.
    pub fn approve(
        &mut self,
        caller: AccountId,
        operator: AccountId,
        id: Option<Id>,
        approved: bool,
    ) -> (r: Result<Vec<PSP34Event>, Error>)
        requires
            old(self).wf(),
        ensures
            final(self).wf(),
            final(self).ownable == old(self).ownable,
            final(self).manager_psp34_standard == old(self).manager_psp34_standard,
            final(self).data.tokens@ == old(self).data.tokens@,
            final(self).data.balances@ == old(self).data.balances@,
            operator == caller ==> (r matches Err(Error::SelfApprove) && *final(self) == *old(self)),
            operator != caller ==> (crate::ids::opt_id_view(&id) matches Some(t) ==> (spec_owner_of(
                old(self).data.tokens@,
                t,
            ) is None ==> (r matches Err(Error::TokenNotExists) && *final(self) == *old(self)))),
            operator != caller ==> (crate::ids::opt_id_view(&id) matches Some(t) ==> (spec_owner_of(
                old(self).data.tokens@,
                t,
            ) matches Some(ow) ==> (!spec_authorized(old(self).data.allowances@, caller, ow, t)
                ==> (r matches Err(Error::NotApproved) && *final(self) == *old(self))))),
            (operator != caller && id is None) ==> (r matches Ok(ev) && ev@.len() == 1
                && crate::events::is_approval_event(ev@[0], caller, operator, None, approved)
                && has_entry(
                final(self).data.allowances@,
                caller,
                operator,
                None,
            ) == approved && (forall|o: AccountId, p: AccountId, x: Option<IdV>|
                !(o == caller && p == operator && x == None::<IdV>) ==> #[trigger] has_entry(
                    final(self).data.allowances@,
                    o,
                    p,
                    x,
                ) == has_entry(old(self).data.allowances@, o, p, x))),
            operator != caller ==> (crate::ids::opt_id_view(&id) matches Some(t) ==> (spec_owner_of(
                old(self).data.tokens@,
                t,
            ) matches Some(ow) ==> (spec_authorized(old(self).data.allowances@, caller, ow, t)
                ==> (r matches Ok(ev) && ev@.len() == 1 && crate::events::is_approval_event(
                ev@[0],
                caller,
                operator,
                Some(t),
                approved,
            ) && has_entry(final(self).data.allowances@, ow, operator, Some(t))
                == approved && (forall|o: AccountId, p: AccountId, x: Option<IdV>|
                !(o == ow && p == operator && x == Some(t)) ==> #[trigger] has_entry(
                    final(self).data.allowances@,
                    o,
                    p,
                    x,
                ) == has_entry(old(self).data.allowances@, o, p, x)))))),
    {
        self.data.approve(caller, operator, id, approved)
    }

    /// Destroys a token of `account` on the authority of `caller`, clearing
    /// its approvals and consuming its lock flag if it was locked.
    pub fn burn(&mut self, caller: AccountId, account: AccountId, id: Id) -> (r: Result<
        Vec<PSP34Event>,
        Error,
    >)
        requires
            old(self).wf(),
        ensures
            final(self).wf(),
            final(self).ownable == old(self).ownable,
            final(self).manager_psp34_standard.last_token_id == old(self).manager_psp34_standard.last_token_id,
            final(self).manager_psp34_standard.attribute_names@ == old(self).manager_psp34_standard.attribute_names@,
            final(self).manager_psp34_standard.metadata == old(self).manager_psp34_standard.metadata,
            spec_owner_of(old(self).data.tokens@, id@) is None ==> (r matches Err(
                Error::TokenNotExists,
            ) && *final(self) == *old(self)),
            spec_owner_of(old(self).data.tokens@, id@) matches Some(ow) ==> {
                &&& ow != account ==> (r matches Err(Error::NotOwner) && *final(self) == *old(self))
                &&& (ow == account && !spec_authorized(
                    old(self).data.allowances@,
                    caller,
                    account,
                    id@,
                )) ==> (r matches Err(Error::NotApproved) && *final(self) == *old(self))
                &&& (ow == account && spec_authorized(
                    old(self).data.allowances@,
                    caller,
                    account,
                    id@,
                )) ==> {
                    &&& r matches Ok(ev) && ev@.len() == 1 && is_transfer_event(
                        ev@[0],
                        Some(account),
                        None,
                        id@,
                    )
                    &&& final(self).data.tokens@.len() == old(self).data.tokens@.len() - 1
                    &&& spec_owner_of(final(self).data.tokens@, id@) is None
                    &&& forall|x: IdV|
                        x != id@ ==> #[trigger] spec_owner_of(final(self).data.tokens@, x)
                            == spec_owner_of(old(self).data.tokens@, x)
                    &&& forall|b: AccountId| #[trigger] spec_balance(final(self).data.balances@, b)
                        == spec_balance(old(self).data.balances@, b) - (if b == account {
                        1int
                    } else {
                        0int
                    })
                    &&& forall|o: AccountId, p: AccountId|
                        !has_entry(final(self).data.allowances@, o, p, Some(id@))
                    &&& forall|o: AccountId, p: AccountId, x: Option<IdV>|
                        x != Some(id@) ==> #[trigger] has_entry(
                            final(self).data.allowances@,
                            o,
                            p,
                            x,
                        ) == has_entry(old(self).data.allowances@, o, p, x)
                    &&& !spec_is_locked(final(self).manager_psp34_standard.locked_tokens@, id@)
                    &&& forall|x: IdV|
                        x != id@ ==> #[trigger] spec_is_locked(
                            final(self).manager_psp34_standard.locked_tokens@,
                            x,
                        ) == spec_is_locked(old(self).manager_psp34_standard.locked_tokens@, x)
                    &&& final(self).manager_psp34_standard.locked_token_count as int == old(self).manager_psp34_standard.locked_token_count as int - (if spec_is_locked(
                        old(self).manager_psp34_standard.locked_tokens@,
                        id@,
                    ) {
                        1int
                    } else {
                        0int
                    })
                }
            },
    {
        let ghost pre = self.data.tokens@;
        let id2 = id.dup();
        let r = match self.data.burn(caller, account, id) {
            Ok(ev) => ev,
            Err(e) => {
                return Err(e);
            },
        };
        self.manager_psp34_standard.clear_lock(&id2);
        proof {
            assert forall|j: int|
                0 <= j < self.data.tokens@.len() implies ((#[trigger] self.data.tokens@[j]).0@
                matches IdV::U64(n) && 1 <= n && n
                <= self.manager_psp34_standard.last_token_id) by {
                let x = self.data.tokens@[j].0@;
                lemma_owner_of_found(self.data.tokens@, j);
                if x == id2@ {
                    assert(spec_owner_of(self.data.tokens@, x) is None);
                } else {
                    assert(spec_owner_of(pre, x) is Some);
                    lemma_owner_of_none(pre, x);
                    assert(!(forall|k: int| 0 <= k < pre.len() ==> (#[trigger] pre[k]).0@ != x));
                    let k = choose|k: int| 0 <= k < pre.len() && (#[trigger] pre[k]).0@ == x;
                    assert(pre[k].0@ matches IdV::U64(n) && 1 <= n && n
                        <= self.manager_psp34_standard.last_token_id);
                }
            }
        }
        Ok(r)
    }

    /// The stored attribute value, or `None` when never set.
    pub fn get_attribute(&self, id: Id, key: Vec<u8>) -> (r: Option<Vec<u8>>)
        requires
            self.wf(),
        ensures
            r is Some <==> spec_attribute(
                self.manager_psp34_standard.metadata.attributes@,
                id@,
                key@,
            ) is Some,
            r matches Some(v) ==> Some(v@) == spec_attribute(
                self.manager_psp34_standard.metadata.attributes@,
                id@,
                key@,
            ),
    {
        self.manager_psp34_standard.metadata.get_attribute(&id, &key)
    }

    /// The token at `index` in `owner`'s enumeration.
    pub fn owners_token_by_index(&self, owner: AccountId, index: u128) -> (r: Result<Id, Error>)
        ensures
            (index < count_owned(self.data.tokens@, owner)) <==> r is Ok,
            r matches Ok(t) ==> t@ == owned_ids(self.data.tokens@, owner)[index as int],
            r matches Err(e) ==> e matches Error::TokenNotExists,
    {
        self.data.owners_token_by_index(owner, index)
    }

    /// The token at `index` in the global enumeration.
    pub fn token_by_index(&self, index: u128) -> (r: Result<Id, Error>)
        ensures
            (index < self.data.tokens@.len()) <==> r is Ok,
            r matches Ok(t) ==> t@ == self.data.tokens@[index as int].0@,
            r matches Err(e) ==> e matches Error::TokenNotExists,
    {
        self.data.token_by_index(index)
    }

    /// The administrative owner, if any.
    pub fn owner(&self) -> (r: Option<AccountId>)
        ensures
            r == self.ownable.owner,
    {
        self.ownable.owner()
    }

    /// The administrative owner of a registry that has one.
    pub fn get_owner(&self) -> (r: AccountId)
        requires
            self.ownable.owner is Some,
        ensures
            Some(r) == self.ownable.owner,
    {
        match self.ownable.owner() {
            Some(o) => o,
            None => {
                proof {
                    assert(false);
                }
                AccountId { raw: 0 }
            },
        }
    }

    /// Gives the administrative role up for good; only the current owner
    /// may.
    pub fn renounce_ownership(&mut self, caller: AccountId) -> (r: Result<(), Error>)
        requires
            old(self).wf(),
        ensures
            final(self).wf(),
            final(self).data == old(self).data,
            final(self).manager_psp34_standard == old(self).manager_psp34_standard,
            old(self).ownable.owner != Some(caller) ==> (r matches Err(Error::NotOwner) && *final(self) == *old(self)),
            old(self).ownable.owner == Some(caller) ==> (r is Ok && final(self).ownable.owner
                is None),
    {
        if self.ownable.check_owner(caller).is_err() {
            return Err(Error::NotOwner);
        }
        match self.ownable.renounce_ownership() {
            Ok(()) => Ok(()),
            Err(e) => Err(e),
        }
    }

    /// Hands the administrative role over; only the current owner may.
    pub fn transfer_ownership(&mut self, caller: AccountId, new_owner: Option<AccountId>) -> (r:
        Result<(), Error>)
        requires
            old(self).wf(),
        ensures
            final(self).wf(),
            final(self).data == old(self).data,
            final(self).manager_psp34_standard == old(self).manager_psp34_standard,
            old(self).ownable.owner != Some(caller) ==> (r matches Err(Error::NotOwner) && *final(self) == *old(self)),
            old(self).ownable.owner == Some(caller) ==> (r is Ok && final(self).ownable.owner
                == new_owner),
    {
        if self.ownable.check_owner(caller).is_err() {
            return Err(Error::NotOwner);
        }
        match self.ownable.transfer_ownership(new_owner) {
            Ok(()) => Ok(()),
            Err(e) => Err(e),
        }
    }
}

} // verus!

verus! {

impl Psp34Nft {
    /// Stores the collection's base URI; only the administrative owner may.
    pub fn set_base_uri(&mut self, caller: AccountId, uri: String) -> (r: Result<(), Error>)
        requires
            old(self).wf(),
        ensures
            final(self).wf(),
            final(self).data == old(self).data,
            final(self).ownable == old(self).ownable,
            old(self).ownable.owner != Some(caller) ==> (r matches Err(Error::NotOwner) && *final(self) == *old(self)),
            old(self).ownable.owner == Some(caller) ==> (r is Ok && (forall|iv: IdV, k: Seq<u8>|
                #[trigger] spec_attribute(
                    final(self).manager_psp34_standard.metadata.attributes@,
                    iv,
                    k,
                ) == (if iv == IdV::U8(0) && k == encode_utf8("baseURI"@) {
                    Some(encode_utf8(uri@))
                } else {
                    spec_attribute(old(self).manager_psp34_standard.metadata.attributes@, iv, k)
                })) && final(self).manager_psp34_standard.attribute_names@ == old(self).manager_psp34_standard.attribute_names@
                && final(self).manager_psp34_standard.locked_tokens@ == old(self).manager_psp34_standard.locked_tokens@
                && final(self).manager_psp34_standard.last_token_id == old(self).manager_psp34_standard.last_token_id),
    {
        if self.ownable.check_owner(caller).is_err() {
            return Err(Error::NotOwner);
        }
        self.manager_psp34_standard.set_base_uri(uri)
    }

    /// Writes several attributes of one token atomically; only the
    /// administrative owner may, the reserved pseudo-token is refused, and a
    /// locked token is refused.
    pub fn set_multiple_attributes(
        &mut self,
        caller: AccountId,
        token_id: Id,
        metadata: Vec<(String, String)>,
    ) -> (r: Result<(), Error>)
        requires
            old(self).wf(),
        ensures
            final(self).wf(),
            final(self).data == old(self).data,
            final(self).ownable == old(self).ownable,
            final(self).manager_psp34_standard.last_token_id == old(self).manager_psp34_standard.last_token_id,
            final(self).manager_psp34_standard.locked_tokens@ == old(self).manager_psp34_standard.locked_tokens@,
            old(self).ownable.owner != Some(caller) ==> (r matches Err(Error::NotOwner) && *final(self) == *old(self)),
            old(self).ownable.owner == Some(caller) && token_id@ == IdV::U8(0) ==> (r matches Err(
                Error::InvalidInput,
            ) && *final(self) == *old(self)),
            old(self).ownable.owner == Some(caller) && token_id@ != IdV::U8(0) && spec_is_locked(
                old(self).manager_psp34_standard.locked_tokens@,
                token_id@,
            ) ==> (r matches Err(Error::Locked) && *final(self) == *old(self)),
            old(self).ownable.owner == Some(caller) && token_id@ != IdV::U8(0) && !spec_is_locked(
                old(self).manager_psp34_standard.locked_tokens@,
                token_id@,
            ) && interned_after(
                names_view(old(self).manager_psp34_standard.attribute_names@),
                metadata@,
            ).len() > u32::MAX ==> (r matches Err(Error::AttributeNameOverflow) && *final(self)
                == *old(self)),
            old(self).ownable.owner == Some(caller) && token_id@ != IdV::U8(0) && !spec_is_locked(
                old(self).manager_psp34_standard.locked_tokens@,
                token_id@,
            ) && interned_after(
                names_view(old(self).manager_psp34_standard.attribute_names@),
                metadata@,
            ).len() <= u32::MAX ==> (r is Ok && names_view(
                final(self).manager_psp34_standard.attribute_names@,
            ) == interned_after(
                names_view(old(self).manager_psp34_standard.attribute_names@),
                metadata@,
            ) && (forall|iv: IdV, k: Seq<u8>| #[trigger] spec_attribute(
                final(self).manager_psp34_standard.metadata.attributes@,
                iv,
                k,
            ) == (if iv == token_id@ && spec_pairs_value(metadata@, k) is Some {
                spec_pairs_value(metadata@, k)
            } else {
                spec_attribute(old(self).manager_psp34_standard.metadata.attributes@, iv, k)
            }))),
    {
        if self.ownable.check_owner(caller).is_err() {
            return Err(Error::NotOwner);
        }
        self.manager_psp34_standard.set_multiple_attributes(token_id, metadata)
    }

    /// Reads several attributes of one token as text, empty text standing
    /// for an absent or non-textual value.
    pub fn get_attributes(&self, token_id: Id, attributes: Vec<String>) -> (r: Vec<String>)
        requires
            self.wf(),
        ensures
            r@.len() == attributes@.len(),
            forall|i: int|
                0 <= i < attributes@.len() ==> (#[trigger] r@[i])@ == text_of_opt_bytes(
                    spec_attribute(
                        self.manager_psp34_standard.metadata.attributes@,
                        token_id@,
                        encode_utf8(attributes@[i]@),
                    ),
                ),
    {
        self.manager_psp34_standard.get_attributes(token_id, attributes)
    }

    /// How many distinct attribute names have been interned.
    pub fn get_attribute_count(&self) -> (r: u32)
        ensures
            r == self.manager_psp34_standard.attribute_count,
    {
        self.manager_psp34_standard.get_attribute_count()
    }

    /// The interned attribute name at one-based `index`, as text.
    pub fn get_attribute_name(&self, index: u32) -> (r: String)
        ensures
            r@ == if 1 <= index && index as int
                <= self.manager_psp34_standard.attribute_names@.len() {
                text_of_bytes(self.manager_psp34_standard.attribute_names@[index as int - 1]@)
            } else {
                Seq::<char>::empty()
            },
    {
        self.manager_psp34_standard.get_attribute_name(index)
    }

    /// The metadata location of a token: base URI, decimal number, `.json`.
    pub fn token_uri(&self, token_id: u64) -> (r: String)
        requires
            self.wf(),
        ensures
            r@ == text_of_opt_bytes(
                spec_attribute(
                    self.manager_psp34_standard.metadata.attributes@,
                    IdV::U8(0),
                    encode_utf8("baseURI"@),
                ),
            ) + dec_chars(token_id as nat) + ".json"@,
    {
        self.manager_psp34_standard.token_uri(token_id)
    }

    /// The last issued token number.
    pub fn get_last_token_id(&self) -> (r: u64)
        ensures
            r == self.manager_psp34_standard.last_token_id,
    {
        self.manager_psp34_standard.get_last_token_id()
    }

    /// Locks a token so its attributes can no longer change; only the
    /// token's owner may, and the lock holds until the token is burned.
    pub fn lock(&mut self, caller: AccountId, token_id: Id) -> (r: Result<(), Error>)
        requires
            old(self).wf(),
        ensures
            final(self).wf(),
            final(self).data == old(self).data,
            final(self).ownable == old(self).ownable,
            final(self).manager_psp34_standard.last_token_id == old(self).manager_psp34_standard.last_token_id,
            final(self).manager_psp34_standard.attribute_names@ == old(self).manager_psp34_standard.attribute_names@,
            final(self).manager_psp34_standard.metadata == old(self).manager_psp34_standard.metadata,
            spec_owner_of(old(self).data.tokens@, token_id@) != Some(caller) ==> (r matches Err(
                Error::NotOwner,
            ) && *final(self) == *old(self)),
            spec_owner_of(old(self).data.tokens@, token_id@) == Some(caller) ==> {
                &&& spec_is_locked(old(self).manager_psp34_standard.locked_tokens@, token_id@)
                    ==> (r is Ok && *final(self) == *old(self))
                &&& (!spec_is_locked(old(self).manager_psp34_standard.locked_tokens@, token_id@)
                    && old(self).manager_psp34_standard.locked_token_count == u64::MAX) ==> (r
                    matches Err(Error::LockCountOverflow) && *final(self) == *old(self))
                &&& (!spec_is_locked(old(self).manager_psp34_standard.locked_tokens@, token_id@)
                    && old(self).manager_psp34_standard.locked_token_count < u64::MAX) ==> (r
                    is Ok && spec_is_locked(
                    final(self).manager_psp34_standard.locked_tokens@,
                    token_id@,
                ) && final(self).manager_psp34_standard.locked_token_count == old(self).manager_psp34_standard.locked_token_count
                    + 1 && (forall|x: IdV|
                    x != token_id@ ==> #[trigger] spec_is_locked(
                        final(self).manager_psp34_standard.locked_tokens@,
                        x,
                    ) == spec_is_locked(old(self).manager_psp34_standard.locked_tokens@, x)))
            },
    {
        let owner = self.data.owner_of(&token_id);
        let is_owner = match owner {
            Some(o) => o == caller,
            None => false,
        };
        if !is_owner {
            return Err(Error::NotOwner);
        }
        self.manager_psp34_standard.lock(token_id)
    }

    /// Whether a token is locked.
    pub fn is_locked_nft(&self, token_id: Id) -> (r: bool)
        ensures
            r == spec_is_locked(self.manager_psp34_standard.locked_tokens@, token_id@),
    {
        self.manager_psp34_standard.is_locked_nft(token_id)
    }

    /// How many tokens are currently locked.
    pub fn get_locked_token_count(&self) -> (r: u64)
        ensures
            r == self.manager_psp34_standard.locked_token_count,
    {
        self.manager_psp34_standard.get_locked_token_count()
    }
}

} // verus!

