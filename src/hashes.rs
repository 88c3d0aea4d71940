//! The cryptographic hash functions and the hex encoding the library relies on.
use vstd::prelude::*;

verus! {

/// The 32-byte BLAKE2b digest of `data` under the 16-byte personalization `personal`.
pub uninterp spec fn blake2b_256_personal(personal: Seq<u8>, data: Seq<u8>) -> Seq<u8>;

/// The SHA-256 digest of `data`.
pub uninterp spec fn sha256(data: Seq<u8>) -> Seq<u8>;

/// SHA-256 applied twice, the hash of legacy transactions and block headers.
pub open spec fn sha256d(data: Seq<u8>) -> Seq<u8> {
    sha256(sha256(data))
}

/// The lowercase hex digit of a value below 16.
pub open spec fn hex_digit(n: u8) -> char {
    seq!['0', '1', '2', '3', '4', '5', '6', '7', '8', '9', 'a', 'b', 'c', 'd', 'e', 'f'][n as int]
}

/// Lowercase hex: two digits for each byte, the high nibble first.
pub open spec fn hex_of(data: Seq<u8>) -> Seq<char>
    decreases data.len(),
{
    if data.len() == 0 {
        seq![]
    } else {
        hex_of(data.drop_last()) + seq![hex_digit(data.last() / 16), hex_digit(data.last() % 16)]
    }
}

/// Relies on `blake2b_simd::Params::hash` with a 32-byte output length and the
/// given personalization: the digest depends on the personalization and the
/// input alone, and has 32 bytes.
#[verifier::external_body]
pub(crate) fn blake2b_256(personal: &[u8; 16], data: &[u8]) -> (r: [u8; 32])
    ensures
        r@ == blake2b_256_personal(personal@, data@),
{
    let hash = blake2b_simd::Params::new().hash_length(32).personal(personal).hash(data);
    let mut out = [0u8; 32];
    out.copy_from_slice(hash.as_bytes());
    out
}

/// Relies on `sha2::Sha256::digest`: the SHA-256 digest of the input.
#[verifier::external_body]
fn sha256_digest(data: &[u8]) -> (r: [u8; 32])
    ensures
        r@ == sha256(data@),
{
    <sha2::Sha256 as sha2::Digest>::digest(data).into()
}

/// Relies on `hex::encode`: two lowercase hex digits for each byte, in order.
#[verifier::external_body]
pub(crate) fn hex_encode(data: &[u8]) -> (r: String)
    ensures
        r@ == hex_of(data@),
{
    hex::encode(data)
}

/// Double SHA-256 of `data`.
pub fn sha256d_digest(data: &[u8]) -> (r: [u8; 32])
    ensures
        r@ == sha256d(data@),
{
    let first = sha256_digest(data);
    sha256_digest(&first)
}

} // verus!
