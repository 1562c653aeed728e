//! The RIPEMD-160 fingerprint by which sender and receiver compare a message.
use vstd::prelude::*;
use ripemd::Digest;

verus! {

/// The RIPEMD-160 digest of `data`.
pub uninterp spec fn ripemd160(data: Seq<u8>) -> Seq<u8>;

/// Computes the RIPEMD-160 digest of `data`.
///
/// Calls `<ripemd::Ripemd160 as Digest>::digest`. Trusted: the result is
/// named `ripemd160(data)` and has the digest's 20 bytes.
#[verifier::external_body]
fn ripemd160_digest(data: &[u8]) -> (digest: Vec<u8>)
    ensures
        digest@ == ripemd160(data@),
        digest@.len() == 20,
{
    ripemd::Ripemd160::digest(data).to_vec()
}

/// The lowercase hexadecimal digit for `d`, which is below 16.
pub open spec fn hex_digit(d: u8) -> char {
    if d < 10 {
        ((d + 48) as u8) as char
    } else {
        ((d + 87) as u8) as char
    }
}

/// `bytes` in lowercase hexadecimal, two digits per byte, high digit first.
pub open spec fn hex_lower(bytes: Seq<u8>) -> Seq<char>
    decreases bytes.len(),
{
    if bytes.len() == 0 {
        Seq::empty()
    } else {
        seq![hex_digit(bytes[0] / 16), hex_digit(bytes[0] % 16)] + hex_lower(bytes.drop_first())
    }
}

/// Encodes `bytes` in lowercase hexadecimal.
///
/// Calls `hex::encode`, which maps each byte to two characters of
/// `0123456789abcdef`, high nibble first. Trusted to give `hex_lower(bytes)`.
#[verifier::external_body]
fn hex_encode(bytes: &[u8]) -> (s: String)
    ensures
        s@ == hex_lower(bytes@),
{
    hex::encode(bytes)
}

/// The fingerprint of a message: its RIPEMD-160 digest in lowercase hex.
pub open spec fn fingerprint(data: Seq<u8>) -> Seq<char> {
    hex_lower(ripemd160(data))
}

/// Computes the fingerprint of `data`.
pub fn ripemd160_bytes(data: &[u8]) -> (hex: String)
    ensures
        hex@ == fingerprint(data@),
        hex@.len() == 40,
{
    let digest = ripemd160_digest(data);
    proof {
        lemma_hex_lower_len(digest@);
    }
    hex_encode(digest.as_slice())
}

/// Hexadecimal text has two digits per byte.
pub proof fn lemma_hex_lower_len(bytes: Seq<u8>)
    ensures
        hex_lower(bytes).len() == 2 * bytes.len(),
    decreases bytes.len(),
{
    if bytes.len() > 0 {
        lemma_hex_lower_len(bytes.drop_first());
    }
}

} // verus!
