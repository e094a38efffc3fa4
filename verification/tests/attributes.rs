use psp34_nft::errors::Error;
use psp34_nft::ids::{AccountId, Id};
use psp34_nft::Psp34Nft;

fn acct(n: u128) -> AccountId {
    AccountId { raw: n }
}

fn fresh(owner: AccountId) -> Psp34Nft {
    Psp34Nft::new(owner, String::from("My NFT"), String::from("MNFT"))
}

fn pair(k: &str, v: &str) -> (String, String) {
    (String::from(k), String::from(v))
}

#[test]
fn constructor_stores_name_and_symbol() {
    let nft = fresh(acct(1));
    assert_eq!(
        nft.get_attribute(Id::U8(0), b"name".to_vec()),
        Some(b"My NFT".to_vec())
    );
    assert_eq!(
        nft.get_attribute(Id::U8(0), b"symbol".to_vec()),
        Some(b"MNFT".to_vec())
    );
    assert_eq!(nft.get_attribute(Id::U8(0), b"baseURI".to_vec()), None);
    // the dedicated collection attributes are not interned
    assert_eq!(nft.get_attribute_count(), 0);
}

#[test]
fn attribute_round_trip() {
    let a = acct(1);
    let mut nft = fresh(a);
    nft.mint(a).unwrap();
    nft.set_multiple_attributes(a, Id::U64(1), vec![pair("color", "red")])
        .unwrap();
    assert_eq!(
        nft.get_attribute(Id::U64(1), b"color".to_vec()),
        Some(b"red".to_vec())
    );
    assert_eq!(nft.get_attribute(Id::U64(1), b"size".to_vec()), None);
    assert_eq!(nft.get_attribute(Id::U64(2), b"color".to_vec()), None);

    // an upsert replaces the value and does not grow the interning table
    nft.set_multiple_attributes(a, Id::U64(1), vec![pair("color", "blue")])
        .unwrap();
    assert_eq!(
        nft.get_attribute(Id::U64(1), b"color".to_vec()),
        Some(b"blue".to_vec())
    );
    assert_eq!(nft.get_attribute_count(), 1);
}

#[test]
fn attribute_name_interning() {
    let a = acct(1);
    let mut nft = fresh(a);
    nft.mint(a).unwrap();
    nft.set_multiple_attributes(
        a,
        Id::U64(1),
        vec![pair("color", "red"), pair("size", "xl"), pair("color", "green")],
    )
    .unwrap();
    assert_eq!(nft.get_attribute_count(), 2);
    assert_eq!(nft.get_attribute_name(1), String::from("color"));
    assert_eq!(nft.get_attribute_name(2), String::from("size"));
    assert_eq!(nft.get_attribute_name(0), String::from(""));
    assert_eq!(nft.get_attribute_name(3), String::from(""));
    // the later pair with the same name wins
    assert_eq!(
        nft.get_attribute(Id::U64(1), b"color".to_vec()),
        Some(b"green".to_vec())
    );
}

#[test]
fn set_multiple_attributes_guards() {
    let a = acct(1);
    let mut nft = fresh(a);
    nft.mint(a).unwrap();

    let e = nft.set_multiple_attributes(acct(9), Id::U64(1), vec![pair("color", "red")]);
    assert!(matches!(e, Err(Error::NotOwner)));

    let e = nft.set_multiple_attributes(a, Id::U8(0), vec![pair("color", "red")]);
    assert!(matches!(e, Err(Error::InvalidInput)));

    nft.lock(a, Id::U64(1)).unwrap();
    let e = nft.set_multiple_attributes(a, Id::U64(1), vec![pair("color", "red")]);
    assert!(matches!(e, Err(Error::Locked)));
    assert_eq!(nft.get_attribute(Id::U64(1), b"color".to_vec()), None);
    assert_eq!(nft.get_attribute_count(), 0);
}

#[test]
fn get_attributes_reads_text() {
    let a = acct(1);
    let mut nft = fresh(a);
    nft.mint(a).unwrap();
    nft.set_multiple_attributes(a, Id::U64(1), vec![pair("color", "red"), pair("size", "xl")])
        .unwrap();
    let got = nft.get_attributes(
        Id::U64(1),
        vec![String::from("size"), String::from("color"), String::from("shape")],
    );
    assert_eq!(got, vec![String::from("xl"), String::from("red"), String::from("")]);
}

#[test]
fn token_uri_concatenation() {
    let a = acct(1);
    let mut nft = fresh(a);
    assert_eq!(nft.token_uri(7), String::from("7.json"));
    nft.set_base_uri(a, String::from("ipfs://hash/")).unwrap();
    assert_eq!(nft.token_uri(7), String::from("ipfs://hash/7.json"));
    assert_eq!(nft.token_uri(120), String::from("ipfs://hash/120.json"));
    assert_eq!(nft.token_uri(0), String::from("ipfs://hash/0.json"));
    assert_eq!(
        nft.get_attribute(Id::U8(0), b"baseURI".to_vec()),
        Some(b"ipfs://hash/".to_vec())
    );
}

#[test]
fn set_base_uri_requires_owner() {
    let a = acct(1);
    let mut nft = fresh(a);
    let e = nft.set_base_uri(acct(9), String::from("ipfs://hash/"));
    assert!(matches!(e, Err(Error::NotOwner)));
    assert_eq!(nft.get_attribute(Id::U8(0), b"baseURI".to_vec()), None);
}

#[test]
fn lock_requires_token_owner() {
    let a = acct(1);
    let b = acct(2);
    let mut nft = fresh(a);
    nft.mint(a).unwrap();

    let e = nft.lock(b, Id::U64(1));
    assert!(matches!(e, Err(Error::NotOwner)));
    let e = nft.lock(a, Id::U64(9));
    assert!(matches!(e, Err(Error::NotOwner)));
    assert!(!nft.is_locked_nft(Id::U64(1)));

    nft.lock(a, Id::U64(1)).unwrap();
    assert!(nft.is_locked_nft(Id::U64(1)));
    assert_eq!(nft.get_locked_token_count(), 1);
    // locking twice is a no-op, the counter stays consistent
    nft.lock(a, Id::U64(1)).unwrap();
    assert_eq!(nft.get_locked_token_count(), 1);
}

#[test]
fn mint_with_attributes_is_atomic() {
    let a = acct(1);
    let mut nft = fresh(a);
    nft.mint_with_attributes(a, vec![pair("color", "red"), pair("size", "xl")])
        .unwrap();
    assert_eq!(nft.total_supply(), 1u128);
    assert_eq!(nft.owner_of(Id::U64(1)), Some(a));
    assert_eq!(
        nft.get_attribute(Id::U64(1), b"color".to_vec()),
        Some(b"red".to_vec())
    );
    assert_eq!(nft.get_attribute_count(), 2);

    let e = nft.mint_with_attributes(acct(9), vec![pair("color", "red")]);
    assert!(matches!(e, Err(Error::NotOwner)));
    assert_eq!(nft.total_supply(), 1u128);
    assert_eq!(nft.get_last_token_id(), 1);
}

#[test]
fn burn_consumes_the_lock() {
    let a = acct(1);
    let mut nft = fresh(a);
    nft.mint(a).unwrap();
    nft.mint(a).unwrap();
    nft.lock(a, Id::U64(1)).unwrap();
    assert_eq!(nft.get_locked_token_count(), 1);

    // burning an unlocked token leaves the counter alone
    nft.burn(a, a, Id::U64(2)).unwrap();
    assert_eq!(nft.get_locked_token_count(), 1);

    nft.burn(a, a, Id::U64(1)).unwrap();
    assert_eq!(nft.get_locked_token_count(), 0);
    assert!(!nft.is_locked_nft(Id::U64(1)));
}

#[test]
fn interning_is_global_across_tokens() {
    let a = acct(1);
    let mut nft = fresh(a);
    nft.mint(a).unwrap();
    nft.mint(a).unwrap();
    nft.set_multiple_attributes(a, Id::U64(1), vec![pair("color", "red")])
        .unwrap();
    nft.set_multiple_attributes(a, Id::U64(2), vec![pair("color", "blue"), pair("rarity", "epic")])
        .unwrap();
    // "color" was interned once, for the whole registry
    assert_eq!(nft.get_attribute_count(), 2);
    assert_eq!(nft.get_attribute_name(1), String::from("color"));
    assert_eq!(nft.get_attribute_name(2), String::from("rarity"));
    assert_eq!(
        nft.get_attribute(Id::U64(1), b"color".to_vec()),
        Some(b"red".to_vec())
    );
    assert_eq!(
        nft.get_attribute(Id::U64(2), b"color".to_vec()),
        Some(b"blue".to_vec())
    );
}
