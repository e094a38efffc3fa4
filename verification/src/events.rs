//! Domain events produced by registry operations.
//!
//! Mutating operations return the events they produced; the surrounding
//! call-dispatch layer re-emits them for external notification.

use vstd::prelude::*;

use crate::ids::{AccountId, Id, IdV, opt_id_view};

verus! {

/// An event produced by a registry operation.
#[derive(Debug)]
pub enum PSP34Event {
    /// An operator was approved or disapproved by `owner`, for one token or
    /// for the whole collection.
    Approval { owner: AccountId, operator: AccountId, id: Option<Id>, approved: bool },
    /// A token changed hands; `from` is `None` on mint and `to` is `None` on
    /// burn.
    Transfer { from: Option<AccountId>, to: Option<AccountId>, id: Id },
    /// An attribute value was written.
    AttributeSet { id: Id, key: Vec<u8>, data: Vec<u8> },
}

/// Whether `e` is the transfer event with the given endpoints and token.
pub open spec fn is_transfer_event(
    e: PSP34Event,
    from: Option<AccountId>,
    to: Option<AccountId>,
    id: IdV,
) -> bool {
    match e {
        PSP34Event::Transfer { from: f, to: t, id: i } => f == from && t == to && i@ == id,
        _ => false,
    }
}

/// Whether `e` is the approval event with the given parties and token.
pub open spec fn is_approval_event(
    e: PSP34Event,
    owner: AccountId,
    operator: AccountId,
    id: Option<IdV>,
    approved: bool,
) -> bool {
    match e {
        PSP34Event::Approval { owner: o, operator: p, id: i, approved: a } => o == owner && p
            == operator && opt_id_view(&i) == id && a == approved,
        _ => false,
    }
}

/// An approval record, as the call-dispatch layer publishes it.
#[derive(Debug)]
pub struct Approval {
    pub owner: AccountId,
    pub operator: AccountId,
    pub id: Option<Id>,
    pub approved: bool,
}

/// A transfer record, as the call-dispatch layer publishes it.
#[derive(Debug)]
pub struct Transfer {
    pub from: Option<AccountId>,
    pub to: Option<AccountId>,
    pub id: Id,
}

/// An attribute-write record, as the call-dispatch layer publishes it.
#[derive(Debug)]
pub struct AttributeSet {
    pub id: Id,
    pub key: Vec<u8>,
    pub data: Vec<u8>,
}

/// A change of the registry's administrative owner.
#[derive(Clone, Copy, Debug)]
pub struct OwnershipTransferred {
    pub old_owner: Option<AccountId>,
    pub new_owner: Option<AccountId>,
}

} // verus!
