use vstd::prelude::*;
use solana_sdk::pubkey::Pubkey;
use std::str::FromStr;
use vstd::string::StringSliceAdditionalSpecFns;

verus! {

/// A 32-byte network address or public identity.
#[derive(Clone, Copy, Debug, PartialEq, Eq)]
pub struct Address {
    pub bytes: [u8; 32],
}

impl View for Address {
    type V = Seq<u8>;

    open spec fn view(&self) -> Seq<u8> {
        self.bytes@
    }
}

/// The 32 bytes that base58 text decodes to, if it names an address at all.
pub uninterp spec fn base58_address(text: Seq<char>) -> Option<Seq<u8>>;

/// Whether 32 bytes are the compressed encoding of a point on the ed25519 curve.
pub uninterp spec fn curve_point(bytes: Seq<u8>) -> bool;

/// Relies on `Pubkey::from_str`: the text is decoded as base58 into exactly 32
/// bytes, and text longer than 44 characters is refused.
#[verifier::external_body]
fn decode_base58(text: &str) -> (r: Option<[u8; 32]>)
    ensures
        match r {
            Some(b) => base58_address(text@) == Some(b@),
            None => base58_address(text@) is None,
        },
        text.spec_bytes().len() > 44 ==> r is None,
{
    Pubkey::from_str(text).ok().map(|p| p.to_bytes())
}

/// Relies on `Pubkey::is_on_curve`: whether the bytes decompress to a curve point.
#[verifier::external_body]
fn bytes_on_curve(bytes: &[u8; 32]) -> (r: bool)
    ensures
        r == curve_point(bytes@),
{
    Pubkey::new_from_array(*bytes).is_on_curve()
}

/// Why a text does not name an address.
#[derive(Clone, Copy, Debug, PartialEq, Eq)]
pub enum AddressError {
    /// The text is not base58 for exactly 32 bytes.
    Malformed,
}

impl Address {
    pub fn from_bytes(bytes: [u8; 32]) -> (r: Address)
        ensures
            r@ == bytes@,
    {
        Address { bytes }
    }

    /// Parses the base58 text form of an address.
    pub fn parse(text: &str) -> (r: Result<Address, AddressError>)
        ensures
            match r {
                Ok(a) => base58_address(text@) == Some(a@),
                Err(e) => base58_address(text@) is None && e == AddressError::Malformed,
            },
    {
        match decode_base58(text) {
            Some(bytes) => Ok(Address { bytes }),
            None => Err(AddressError::Malformed),
        }
    }

    /// Whether no private key can exist for this address: its bytes are not a
    /// point on the curve that identities live on.
    pub fn is_off_curve(&self) -> (r: bool)
        ensures
            r == !curve_point(self@),
    {
        !bytes_on_curve(&self.bytes)
    }
}

} // verus!
