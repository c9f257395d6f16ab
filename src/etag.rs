//! Content hashes ("ETags"): the lowercase hexadecimal MD5 digest of an
//! object's bytes.

use md5::Digest;
use vstd::prelude::*;

verus! {

/// The MD5 digest of a byte sequence.
pub uninterp spec fn md5_digest(data: Seq<u8>) -> Seq<u8>;

/// The lowercase hexadecimal digit for a value below sixteen.
pub open spec fn hex_digit(n: u8) -> char {
    seq!['0', '1', '2', '3', '4', '5', '6', '7', '8', '9', 'a', 'b', 'c', 'd', 'e', 'f'][n as int]
}

/// Each byte as two lowercase hexadecimal digits, high nibble first.
pub open spec fn hex_of(bytes: Seq<u8>) -> Seq<char>
    decreases bytes.len(),
{
    if bytes.len() == 0 {
        Seq::empty()
    } else {
        seq![hex_digit(bytes[0] / 16), hex_digit(bytes[0] % 16)] + hex_of(bytes.drop_first())
    }
}

/// The ETag of a byte sequence.
pub open spec fn etag_of(data: Seq<u8>) -> Seq<char> {
    hex_of(md5_digest(data))
}

/// Relies on `md5::Md5` (through `Digest::digest`) for the MD5 digest of `data`.
#[verifier::external_body]
fn md5_bytes(data: &[u8]) -> (r: Vec<u8>)
    ensures
        r@ == md5_digest(data@),
{
    md5::Md5::digest(data).to_vec()
}

/// Relies on `hex::encode`: two lowercase digits per byte, high nibble first.
#[verifier::external_body]
fn hex_encode(bytes: &[u8]) -> (r: String)
    ensures
        r@ == hex_of(bytes@),
{
    hex::encode(bytes)
}

/// Computes the ETag of `data`.
pub fn calculate_etag(data: &[u8]) -> (r: String)
    ensures
        r@ == etag_of(data@),
{
    let digest = md5_bytes(data);
    hex_encode(digest.as_slice())
}

} // verus!
