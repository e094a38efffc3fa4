use psp34_nft::errors::Error;
use psp34_nft::events::PSP34Event;
use psp34_nft::ids::{AccountId, Id};
use psp34_nft::ledger::PSP34Data;
use psp34_nft::Psp34Nft;

fn acct(n: u128) -> AccountId {
    AccountId { raw: n }
}

fn fresh(owner: AccountId) -> Psp34Nft {
    Psp34Nft::new(owner, String::from("My NFT"), String::from("MNFT"))
}

#[test]
fn full_lifecycle_scenario() {
    let a = acct(1);
    let b = acct(2);
    let c = acct(3);
    let mut nft = fresh(a);

    nft.mint(a).unwrap();
    assert_eq!(nft.balance_of(a), 1);
    assert_eq!(nft.total_supply(), 1u128);
    assert_eq!(nft.owner_of(Id::U64(1)), Some(a));

    nft.approve(a, b, Some(Id::U64(1)), true).unwrap();
    assert!(nft.allowance(a, b, Some(Id::U64(1))));

    nft.transfer(b, c, Id::U64(1), vec![]).unwrap();
    assert_eq!(nft.owner_of(Id::U64(1)), Some(c));
    assert!(!nft.allowance(a, b, Some(Id::U64(1))));

    nft.lock(c, Id::U64(1)).unwrap();
    assert!(nft.is_locked_nft(Id::U64(1)));
    assert_eq!(nft.get_locked_token_count(), 1);

    let e = nft.set_multiple_attributes(
        a,
        Id::U64(1),
        vec![(String::from("color"), String::from("red"))],
    );
    assert!(matches!(e, Err(Error::Locked)));

    nft.burn(c, c, Id::U64(1)).unwrap();
    assert_eq!(nft.total_supply(), 0u128);
    assert_eq!(nft.balance_of(c), 0);
    assert_eq!(nft.get_locked_token_count(), 0);
    assert!(!nft.is_locked_nft(Id::U64(1)));
}

#[test]
fn mint_numbers_tokens_and_emits_events() {
    let a = acct(1);
    let mut nft = fresh(a);
    let ev = nft.mint(a).unwrap();
    assert_eq!(ev.len(), 1);
    assert!(matches!(
        &ev[0],
        PSP34Event::Transfer { from: None, to: Some(t), id: Id::U64(1) } if *t == a
    ));
    assert_eq!(nft.get_last_token_id(), 1);
    nft.mint(a).unwrap();
    assert_eq!(nft.get_last_token_id(), 2);
    assert_eq!(nft.owner_of(Id::U64(2)), Some(a));
    assert_eq!(nft.total_supply(), 2u128);
    assert_eq!(nft.balance_of(a), 2);
}

#[test]
fn mint_rejects_non_owner() {
    let a = acct(1);
    let mut nft = fresh(a);
    let e = nft.mint(acct(9));
    assert!(matches!(e, Err(Error::NotOwner)));
    assert_eq!(nft.total_supply(), 0u128);
}

#[test]
fn transfer_errors() {
    let a = acct(1);
    let b = acct(2);
    let mut nft = fresh(a);
    nft.mint(a).unwrap();

    let e = nft.transfer(a, b, Id::U64(7), vec![]);
    assert!(matches!(e, Err(Error::TokenNotExists)));

    let e = nft.transfer(b, b, Id::U64(1), vec![]);
    assert!(matches!(e, Err(Error::NotApproved)));
    assert_eq!(nft.owner_of(Id::U64(1)), Some(a));
}

#[test]
fn transfer_moves_balances() {
    let a = acct(1);
    let b = acct(2);
    let mut nft = fresh(a);
    nft.mint(a).unwrap();
    nft.mint(a).unwrap();
    let ev = nft.transfer(a, b, Id::U64(1), vec![]).unwrap();
    assert_eq!(ev.len(), 1);
    assert!(matches!(
        &ev[0],
        PSP34Event::Transfer { from: Some(f), to: Some(t), id: Id::U64(1) } if *f == a && *t == b
    ));
    assert_eq!(nft.balance_of(a), 1);
    assert_eq!(nft.balance_of(b), 1);
    assert_eq!(nft.total_supply(), 2u128);
}

#[test]
fn approve_errors_and_revocation() {
    let a = acct(1);
    let b = acct(2);
    let mut nft = fresh(a);
    nft.mint(a).unwrap();

    let e = nft.approve(a, a, Some(Id::U64(1)), true);
    assert!(matches!(e, Err(Error::SelfApprove)));

    let e = nft.approve(a, b, Some(Id::U64(9)), true);
    assert!(matches!(e, Err(Error::TokenNotExists)));

    let e = nft.approve(b, acct(3), Some(Id::U64(1)), true);
    assert!(matches!(e, Err(Error::NotApproved)));

    nft.approve(a, b, Some(Id::U64(1)), true).unwrap();
    assert!(nft.allowance(a, b, Some(Id::U64(1))));
    nft.approve(a, b, Some(Id::U64(1)), false).unwrap();
    assert!(!nft.allowance(a, b, Some(Id::U64(1))));
}

#[test]
fn collection_wide_approval_authorizes_transfer() {
    let a = acct(1);
    let b = acct(2);
    let c = acct(3);
    let mut nft = fresh(a);
    nft.mint(a).unwrap();
    nft.approve(a, b, None, true).unwrap();
    assert!(nft.allowance(a, b, None));
    assert!(nft.allowance(a, b, Some(Id::U64(1))));
    nft.transfer(b, c, Id::U64(1), vec![]).unwrap();
    assert_eq!(nft.owner_of(Id::U64(1)), Some(c));
    // the collection-wide approval of the old owner is not cleared
    assert!(nft.allowance(a, b, None));
}

#[test]
fn burn_errors_and_operator_burn() {
    let a = acct(1);
    let b = acct(2);
    let mut nft = fresh(a);
    nft.mint(a).unwrap();

    let e = nft.burn(a, a, Id::U64(9));
    assert!(matches!(e, Err(Error::TokenNotExists)));

    let e = nft.burn(a, b, Id::U64(1));
    assert!(matches!(e, Err(Error::NotOwner)));

    let e = nft.burn(b, a, Id::U64(1));
    assert!(matches!(e, Err(Error::NotApproved)));

    nft.approve(a, b, Some(Id::U64(1)), true).unwrap();
    let ev = nft.burn(b, a, Id::U64(1)).unwrap();
    assert_eq!(ev.len(), 1);
    assert!(matches!(
        &ev[0],
        PSP34Event::Transfer { from: Some(f), to: None, id: Id::U64(1) } if *f == a
    ));
    assert_eq!(nft.total_supply(), 0u128);
    assert_eq!(nft.balance_of(a), 0);
}

#[test]
fn enumeration_indices() {
    let a = acct(1);
    let b = acct(2);
    let mut nft = fresh(a);
    nft.mint(a).unwrap();
    nft.mint(a).unwrap();
    nft.mint(a).unwrap();

    assert_eq!(nft.token_by_index(0).unwrap(), Id::U64(1));
    assert_eq!(nft.token_by_index(1).unwrap(), Id::U64(2));
    assert_eq!(nft.token_by_index(2).unwrap(), Id::U64(3));
    assert!(matches!(nft.token_by_index(3), Err(Error::TokenNotExists)));

    nft.transfer(a, b, Id::U64(2), vec![]).unwrap();
    assert_eq!(nft.owners_token_by_index(a, 0).unwrap(), Id::U64(1));
    assert_eq!(nft.owners_token_by_index(a, 1).unwrap(), Id::U64(3));
    assert!(matches!(nft.owners_token_by_index(a, 2), Err(Error::TokenNotExists)));
    assert_eq!(nft.owners_token_by_index(b, 0).unwrap(), Id::U64(2));
    assert!(matches!(nft.owners_token_by_index(b, 1), Err(Error::TokenNotExists)));

    // a burn compacts the global index and keeps the bijection
    nft.burn(a, a, Id::U64(1)).unwrap();
    assert_eq!(nft.total_supply(), 2u128);
    let t0 = nft.token_by_index(0).unwrap();
    let t1 = nft.token_by_index(1).unwrap();
    assert!(t0 == Id::U64(2) || t0 == Id::U64(3));
    assert!(t1 == Id::U64(2) || t1 == Id::U64(3));
    assert_ne!(t0, t1);
    assert!(matches!(nft.token_by_index(2), Err(Error::TokenNotExists)));
}

#[test]
fn byte_string_identifiers() {
    let a = acct(1);
    let b = acct(2);
    let mut data = PSP34Data::new();
    data.mint(a, Id::Bytes(vec![1, 2, 3])).unwrap();
    assert_eq!(data.owner_of(&Id::Bytes(vec![1, 2, 3])), Some(a));
    assert_eq!(data.owner_of(&Id::Bytes(vec![1, 2])), None);
    assert_eq!(data.owner_of(&Id::U8(1)), None);
    let e = data.mint(b, Id::Bytes(vec![1, 2, 3]));
    assert!(matches!(e, Err(Error::TokenExists)));
    data.transfer(a, b, Id::Bytes(vec![1, 2, 3]), vec![]).unwrap();
    assert_eq!(data.owner_of(&Id::Bytes(vec![1, 2, 3])), Some(b));
}

#[test]
fn ownership_administration() {
    let a = acct(1);
    let b = acct(2);
    let mut nft = fresh(a);
    assert_eq!(nft.owner(), Some(a));
    assert_eq!(nft.get_owner(), a);

    let e = nft.transfer_ownership(b, Some(b));
    assert!(matches!(e, Err(Error::NotOwner)));

    nft.transfer_ownership(a, Some(b)).unwrap();
    assert_eq!(nft.owner(), Some(b));

    let e = nft.mint(a);
    assert!(matches!(e, Err(Error::NotOwner)));
    nft.mint(b).unwrap();
    assert_eq!(nft.owner_of(Id::U64(1)), Some(b));

    nft.renounce_ownership(b).unwrap();
    assert_eq!(nft.owner(), None);
}

#[test]
fn collection_identifier() {
    let a = acct(1);
    let nft = fresh(a);
    let c = nft.collection_id(acct(77));
    assert_eq!(c, Id::U128(77));
}

#[test]
fn error_descriptions() {
    let a = acct(1);
    let mut nft = fresh(a);
    let e = nft.transfer(a, acct(2), Id::U64(1), vec![]).unwrap_err();
    assert_eq!(e.describe(), String::from("token does not exist"));
    let e = nft.mint(acct(9)).unwrap_err();
    assert_eq!(e.describe(), String::from("not token owner"));
}

#[test]
fn operator_grants_approval_for_the_owner() {
    let a = acct(1);
    let b = acct(2);
    let c = acct(3);
    let mut nft = fresh(a);
    nft.mint(a).unwrap();
    // a lets b operate the whole collection; b then approves c for one token,
    // which is recorded under the token's owner
    nft.approve(a, b, None, true).unwrap();
    nft.approve(b, c, Some(Id::U64(1)), true).unwrap();
    assert!(nft.allowance(a, c, Some(Id::U64(1))));
    nft.transfer(c, c, Id::U64(1), vec![]).unwrap();
    assert_eq!(nft.owner_of(Id::U64(1)), Some(c));
}

#[test]
fn transfer_to_self_keeps_balances() {
    let a = acct(1);
    let mut nft = fresh(a);
    nft.mint(a).unwrap();
    nft.transfer(a, a, Id::U64(1), vec![]).unwrap();
    assert_eq!(nft.owner_of(Id::U64(1)), Some(a));
    assert_eq!(nft.balance_of(a), 1);
    assert_eq!(nft.total_supply(), 1u128);
}
