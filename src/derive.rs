use vstd::prelude::*;
use vstd::string::StringSliceAdditionalSpecFns;
use solana_sdk::pubkey::Pubkey;
use crate::address::{Address, AddressError, base58_address, curve_point};

verus! {

/// The seed label that tags the deposit account namespace.
pub const DEPOSIT_SEED: &'static str = "solana_validator_deposit";

/// Base58 text of the revenue distribution program, which owns the deposit accounts.
pub const REVENUE_PROGRAM_ID: &'static str = "dzrevZC94tBLwuHw1dyynZxaXTWyp7yocsinyEVPtt4";

/// The hash that `Pubkey::create_program_address` computes for a seed list and a
/// program identifier: SHA-256 over the seeds, the identifier and a fixed marker.
pub uninterp spec fn program_address_hash(seeds: Seq<Seq<u8>>, program_id: Seq<u8>) -> Seq<u8>;

/// The candidate address for one disambiguator byte: the hash of the seeds
/// followed by that single byte.
pub open spec fn candidate(seeds: Seq<Seq<u8>>, program_id: Seq<u8>, bump: u8) -> Seq<u8> {
    program_address_hash(seeds.push(seq![bump]), program_id)
}

/// `bump` is the disambiguator that the search from 255 down settles on: its
/// candidate lies off the curve, and the candidate of every larger byte lies on it.
pub open spec fn first_off_curve(seeds: Seq<Seq<u8>>, program_id: Seq<u8>, bump: u8) -> bool {
    &&& 1 <= bump
    &&& !curve_point(candidate(seeds, program_id, bump))
    &&& forall|c: u8| bump < c ==> curve_point(#[trigger] candidate(seeds, program_id, c))
}

/// Every disambiguator from 1 to 255 gives a candidate on the curve.
pub open spec fn search_exhausted(seeds: Seq<Seq<u8>>, program_id: Seq<u8>) -> bool {
    forall|c: u8| 1 <= c ==> curve_point(#[trigger] candidate(seeds, program_id, c))
}

/// A seed list of two seeds.
pub open spec fn seed_pair(first: Seq<u8>, second: Seq<u8>) -> Seq<Seq<u8>> {
    seq![first, second]
}

/// The seed list of a participant's deposit account: the label, then the identity.
pub open spec fn deposit_seeds(identity: Seq<u8>) -> Seq<Seq<u8>> {
    seed_pair(DEPOSIT_SEED.spec_bytes(), identity)
}

/// Relies on `Pubkey::try_find_program_address`: for a seed list of at most 15
/// seeds of at most 32 bytes each, it tries the disambiguators 255 down to 1 and
/// returns the first whose hash is not a curve point, with that hash.
#[verifier::external_body]
fn find_program_address(label: &[u8], identity: &[u8; 32], program_id: &[u8; 32]) -> (r: Option<([u8; 32], u8)>)
    requires
        label@.len() <= 32,
    ensures
        match r {
            Some((a, b)) => {
                &&& 1 <= b
                &&& a@ == program_address_hash(seed_pair(label@, identity@).push(seq![b]), program_id@)
                &&& !curve_point(a@)
                &&& forall|c: u8| b < c ==> curve_point(
                    #[trigger] candidate(seed_pair(label@, identity@), program_id@, c),
                )
            },
            None => forall|c: u8| 1 <= c ==> curve_point(
                #[trigger] candidate(seed_pair(label@, identity@), program_id@, c),
            ),
        },
{
    let program = Pubkey::new_from_array(*program_id);
    Pubkey::try_find_program_address(&[label, identity.as_slice()], &program).map(|(a, b)| (a.to_bytes(), b))
}

/// A derived deposit account.
#[derive(Clone, Copy, Debug, PartialEq, Eq)]
pub struct DepositAddress {
    pub address: Address,
    /// The disambiguator that the search settled on.
    pub bump: u8,
}

/// Why no deposit account could be derived.
#[derive(Clone, Copy, Debug, PartialEq, Eq)]
pub enum DeriveError {
    /// The program identifier is not valid base58 for 32 bytes.
    BadProgramId(AddressError),
    /// Every disambiguator gave an address on the curve.
    Exhausted,
}

proof fn lemma_deposit_seed_len()
    ensures
        DEPOSIT_SEED.spec_bytes().len() == 24,
{
    reveal_strlit("solana_validator_deposit");
    broadcast use vstd::string::is_ascii_spec_bytes;
    assert(vstd::string::is_ascii(DEPOSIT_SEED));
}

/// Derives the deposit account of `identity` under `program_id`.
pub fn derive_deposit_address(program_id: &Address, identity: &Address) -> (r: Result<DepositAddress, DeriveError>)
    ensures
        match r {
            Ok(d) => {
                &&& d.address@ == candidate(deposit_seeds(identity@), program_id@, d.bump)
                &&& first_off_curve(deposit_seeds(identity@), program_id@, d.bump)
            },
            Err(e) => search_exhausted(deposit_seeds(identity@), program_id@) && e == DeriveError::Exhausted,
        },
{
    proof { lemma_deposit_seed_len(); }
    match find_program_address(DEPOSIT_SEED.as_bytes(), &identity.bytes, &program_id.bytes) {
        Some((bytes, bump)) => Ok(DepositAddress { address: Address { bytes }, bump }),
        None => Err(DeriveError::Exhausted),
    }
}

/// Derives the deposit account of a validator identity under the revenue
/// distribution program.
pub fn derive_deposit_pda(identity: &Address) -> (r: Result<DepositAddress, DeriveError>)
    ensures
        match (r, base58_address(REVENUE_PROGRAM_ID@)) {
            (Ok(d), Some(p)) => {
                &&& d.address@ == candidate(deposit_seeds(identity@), p, d.bump)
                &&& first_off_curve(deposit_seeds(identity@), p, d.bump)
            },
            (Err(DeriveError::Exhausted), Some(p)) => search_exhausted(deposit_seeds(identity@), p),
            (Err(DeriveError::BadProgramId(e)), None) => e == AddressError::Malformed,
            _ => false,
        },
{
    match Address::parse(REVENUE_PROGRAM_ID) {
        Ok(program_id) => derive_deposit_address(&program_id, identity),
        Err(e) => Err(DeriveError::BadProgramId(e)),
    }
}

/// Derivation is deterministic: for one seed list and program identifier at
/// most one disambiguator is the first off the curve, so it and its address are
/// the same on every call, and a search that found one was not exhausted.
pub proof fn lemma_derivation_deterministic(seeds: Seq<Seq<u8>>, program_id: Seq<u8>, b1: u8, b2: u8)
    requires
        first_off_curve(seeds, program_id, b1),
        first_off_curve(seeds, program_id, b2),
    ensures
        b1 == b2,
        candidate(seeds, program_id, b1) == candidate(seeds, program_id, b2),
        !search_exhausted(seeds, program_id),
{
    if b1 < b2 {
        assert(curve_point(candidate(seeds, program_id, b2)));
    } else if b2 < b1 {
        assert(curve_point(candidate(seeds, program_id, b1)));
    }
}

/// A derived deposit account has no private key: its bytes are not a curve point.
pub proof fn lemma_deposit_address_off_curve(program_id: Seq<u8>, identity: Seq<u8>, d: DepositAddress)
    requires
        d.address@ == candidate(deposit_seeds(identity), program_id, d.bump),
        first_off_curve(deposit_seeds(identity), program_id, d.bump),
    ensures
        !curve_point(d.address@),
{
}

} // verus!
