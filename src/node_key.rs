//! Node public keys carried in DNS labels: the first label of an SRV target
//! is the node's compressed secp256k1 key in Bech32.
use vstd::prelude::*;
use vstd::utf8::{valid_utf8, decode_utf8};
use secp256k1::PublicKey;
use std::str::FromStr;

verus! {

#[verifier::external_type_specification]
#[verifier::external_body]
pub struct ExPublicKey(secp256k1::PublicKey);

/// The 5-bit data part of a Bech32 string, if the string is valid Bech32.
pub uninterp spec fn bech32_payload(s: Seq<char>) -> Option<Seq<u8>>;

/// 5-bit groups regrouped into bytes without padding, if they fill whole
/// bytes with zero bits left over.
pub uninterp spec fn regroup_bits(data: Seq<u8>) -> Option<Seq<u8>>;

/// The bytes are the serialization of a point on secp256k1.
pub uninterp spec fn is_valid_public_key(b: Seq<u8>) -> bool;

/// Relies on `std::str::from_utf8`: it accepts exactly the valid UTF-8 slices.
#[verifier::external_body]
fn utf8_str(b: &[u8]) -> (r: Option<&str>)
    ensures
        r.is_some() == valid_utf8(b@),
        r matches Some(s) ==> s@ == decode_utf8(b@),
{
    std::str::from_utf8(b).ok()
}

/// Relies on `bech32::Bech32::from_str` and `Bech32::data`: the data part of
/// a valid Bech32 string, as 5-bit values.
#[verifier::external_body]
fn bech32_data(s: &str) -> (r: Option<Vec<u8>>)
    ensures
        r matches Some(d) ==> bech32_payload(s@) == Some(d@),
        r is None ==> bech32_payload(s@) is None,
{
    bech32::Bech32::from_str(s).ok().map(|b| b.data().iter().map(|v| v.to_u8()).collect())
}

/// Relies on `bech32::convert_bits(data, 5, 8, false)`.
#[verifier::external_body]
fn five_bit_to_bytes(data: &[u8]) -> (r: Option<Vec<u8>>)
    ensures
        r matches Some(d) ==> regroup_bits(data@) == Some(d@),
        r is None ==> regroup_bits(data@) is None,
{
    bech32::convert_bits(data, 5, 8, false).ok()
}

/// Relies on `secp256k1::PublicKey::from_slice`: a key for exactly the
/// serializations of valid points.
#[verifier::external_body]
fn parse_public_key(b: &[u8]) -> (r: Option<PublicKey>)
    ensures
        r.is_some() == is_valid_public_key(b@),
{
    PublicKey::from_slice(b).ok()
}

/// The key bytes a label carries: UTF-8, then Bech32, then 5-bit groups to bytes.
pub open spec fn label_key_bytes(label: Seq<u8>) -> Option<Seq<u8>> {
    if !valid_utf8(label) {
        None
    } else {
        match bech32_payload(decode_utf8(label)) {
            Some(d) => regroup_bits(d),
            None => None,
        }
    }
}

/// The label carries the serialization of a valid public key.
pub open spec fn label_holds_key(label: Seq<u8>) -> bool {
    match label_key_bytes(label) {
        Some(k) => is_valid_public_key(k),
        None => false,
    }
}

/// The key bytes a DNS label carries; `None` when the label is not UTF-8, not
/// Bech32, or its data does not regroup into whole bytes.
pub fn key_bytes_from_label(label: &[u8]) -> (r: Option<Vec<u8>>)
    ensures
        r matches Some(k) ==> label_key_bytes(label@) == Some(k@),
        r is None ==> label_key_bytes(label@) is None,
{
    let s = match utf8_str(label) {
        Some(s) => s,
        None => return None,
    };
    let data = match bech32_data(s) {
        Some(d) => d,
        None => return None,
    };
    five_bit_to_bytes(data.as_slice())
}

/// The node key that a DNS label carries; `None` when any step of decoding fails.
pub fn node_key_from_label(label: &[u8]) -> (r: Option<PublicKey>)
    ensures
        r.is_some() == label_holds_key(label@),
{
    match key_bytes_from_label(label) {
        Some(bytes) => parse_public_key(bytes.as_slice()),
        None => None,
    }
}

} // verus!
