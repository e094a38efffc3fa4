//! Account and token identifiers.
//!
//! A token is named by an [`Id`], a tagged union over the integer widths and
//! an arbitrary byte string.  `Id::U8(0)` is reserved as the collection
//! pseudo-token that carries collection-level attributes.  Accounts are stood
//! for by a plain integer identity.

use vstd::prelude::*;

verus! {

/// An account taking part in the registry, stood for by its raw identity value.
#[derive(Clone, Copy, Debug, PartialEq, Eq, Structural, Hash)]
pub struct AccountId {
    pub raw: u128,
}

/// The identifier of a token: one variant per integer width, or an arbitrary
/// byte string.
#[derive(Debug, PartialEq, Eq)]
pub enum Id {
    U8(u8),
    U16(u16),
    U32(u32),
    U64(u64),
    U128(u128),
    Bytes(Vec<u8>),
}

/// The mathematical value of an [`Id`]: the same tagged union, with the byte
/// string abstracted to a sequence.
pub enum IdV {
    U8(u8),
    U16(u16),
    U32(u32),
    U64(u64),
    U128(u128),
    Bytes(Seq<u8>),
}

impl View for Id {
    type V = IdV;

    open spec fn view(&self) -> IdV {
        match self {
            Id::U8(v) => IdV::U8(*v),
            Id::U16(v) => IdV::U16(*v),
            Id::U32(v) => IdV::U32(*v),
            Id::U64(v) => IdV::U64(*v),
            Id::U128(v) => IdV::U128(*v),
            Id::Bytes(v) => IdV::Bytes(v@),
        }
    }
}

/// Compares two byte vectors for equality of their contents.
pub fn bytes_eq(a: &Vec<u8>, b: &Vec<u8>) -> (r: bool)
    ensures
        r == (a@ == b@),
{
    if a.len() != b.len() {
        return false;
    }
    let mut i: usize = 0;
    while i < a.len()
        invariant
            a@.len() == b@.len(),
            i <= a@.len(),
            forall|j: int| 0 <= j < i ==> a@[j] == b@[j],
        decreases a@.len() - i,
    {
        if a[i] != b[i] {
            return false;
        }
        i += 1;
    }
    proof {
        assert(a@ =~= b@);
    }
    true
}

/// Copies a byte vector.
pub fn dup_bytes(a: &Vec<u8>) -> (r: Vec<u8>)
    ensures
        r@ == a@,
{
    let mut r: Vec<u8> = Vec::new();
    let mut i: usize = 0;
    while i < a.len()
        invariant
            i <= a@.len(),
            r@ =~= a@.subrange(0, i as int),
        decreases a@.len() - i,
    {
        r.push(a[i]);
        i += 1;
    }
    proof {
        assert(r@ =~= a@);
    }
    r
}

impl Id {
    /// Equality of identifiers: same variant, same value.
    pub fn eq_id(&self, other: &Id) -> (r: bool)
        ensures
            r == (self@ == other@),
    {
        match (self, other) {
            (Id::U8(a), Id::U8(b)) => *a == *b,
            (Id::U16(a), Id::U16(b)) => *a == *b,
            (Id::U32(a), Id::U32(b)) => *a == *b,
            (Id::U64(a), Id::U64(b)) => *a == *b,
            (Id::U128(a), Id::U128(b)) => *a == *b,
            (Id::Bytes(a), Id::Bytes(b)) => bytes_eq(a, b),
            _ => false,
        }
    }

    /// Copies an identifier.
    pub fn dup(&self) -> (r: Id)
        ensures
            r@ == self@,
    {
        match self {
            Id::U8(v) => Id::U8(*v),
            Id::U16(v) => Id::U16(*v),
            Id::U32(v) => Id::U32(*v),
            Id::U64(v) => Id::U64(*v),
            Id::U128(v) => Id::U128(*v),
            Id::Bytes(v) => Id::Bytes(dup_bytes(v)),
        }
    }
}

/// The mathematical value of an optional identifier.
pub open spec fn opt_id_view(o: &Option<Id>) -> Option<IdV> {
    match o {
        Some(id) => Some(id@),
        None => None,
    }
}

/// Equality between a stored optional identifier and a borrowed one.
pub fn opt_ref_id_eq(a: &Option<Id>, b: Option<&Id>) -> (r: bool)
    ensures
        r == (opt_id_view(a) == match b {
            Some(id) => Some(id@),
            None => None::<IdV>,
        }),
{
    match (a, b) {
        (None, None) => true,
        (Some(x), Some(y)) => x.eq_id(y),
        _ => false,
    }
}

/// Copies an optional identifier.
pub fn dup_opt_id(o: &Option<Id>) -> (r: Option<Id>)
    ensures
        opt_id_view(&r) == opt_id_view(o),
{
    match o {
        Some(id) => Some(id.dup()),
        None => None,
    }
}

} // verus!
