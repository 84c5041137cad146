use solana_sdk::pubkey::Pubkey;
use validator_deposit::address::{Address, AddressError};
use validator_deposit::derive::{derive_deposit_address, derive_deposit_pda, DEPOSIT_SEED, REVENUE_PROGRAM_ID};

const IDENTITY: &str = "Vote111111111111111111111111111111111111111";

fn identity() -> Address {
    Address::parse(IDENTITY).unwrap()
}

#[test]
fn program_id_parses() {
    let p = Address::parse(REVENUE_PROGRAM_ID).unwrap();
    let expected: Pubkey = REVENUE_PROGRAM_ID.parse().unwrap();
    assert_eq!(p.bytes, expected.to_bytes());
}

#[test]
fn parse_refuses_bad_text() {
    assert_eq!(Address::parse("not-base58!"), Err(AddressError::Malformed));
    assert_eq!(Address::parse(""), Err(AddressError::Malformed));
    assert_eq!(Address::parse("abc"), Err(AddressError::Malformed));
    let long = "1".repeat(45);
    assert_eq!(Address::parse(&long), Err(AddressError::Malformed));
}

#[test]
fn parse_all_ones_is_zero_bytes() {
    assert_eq!(Address::parse("11111111111111111111111111111111").unwrap().bytes, [0u8; 32]);
}

#[test]
fn derivation_matches_network_standard() {
    let v = identity();
    let d = derive_deposit_pda(&v).unwrap();
    let program: Pubkey = REVENUE_PROGRAM_ID.parse().unwrap();
    let (pda, bump) = Pubkey::find_program_address(
        &[DEPOSIT_SEED.as_bytes(), &v.bytes],
        &program,
    );
    assert_eq!(d.address.bytes, pda.to_bytes());
    assert_eq!(d.bump, bump);
}

#[test]
fn derivation_is_deterministic() {
    let v = identity();
    let first = derive_deposit_pda(&v).unwrap();
    let second = derive_deposit_pda(&v).unwrap();
    assert_eq!(first, second);
    assert_eq!(first.bump, second.bump);
}

#[test]
fn derived_address_is_off_curve() {
    let v = identity();
    let d = derive_deposit_pda(&v).unwrap();
    assert!(d.address.is_off_curve());
    assert!(d.bump >= 1);
}

#[test]
fn a_signing_identity_is_on_curve() {
    // A point that decompresses: the ed25519 base point's encoding.
    let mut base = [0x66u8; 32];
    base[0] = 0x58;
    assert!(!Address::from_bytes(base).is_off_curve());
}

#[test]
fn distinct_identities_give_distinct_addresses() {
    let a = derive_deposit_pda(&Address::from_bytes([1u8; 32])).unwrap();
    let b = derive_deposit_pda(&Address::from_bytes([2u8; 32])).unwrap();
    let c = derive_deposit_pda(&identity()).unwrap();
    assert_ne!(a.address, b.address);
    assert_ne!(a.address, c.address);
    assert_ne!(b.address, c.address);
}

#[test]
fn derivation_depends_on_program() {
    let v = identity();
    let p1 = Address::parse(REVENUE_PROGRAM_ID).unwrap();
    let p2 = Address::from_bytes([9u8; 32]);
    let d1 = derive_deposit_address(&p1, &v).unwrap();
    let d2 = derive_deposit_address(&p2, &v).unwrap();
    assert_eq!(d1, derive_deposit_pda(&v).unwrap());
    assert_ne!(d1.address, d2.address);
}
