//! Digests of bytes and their hexadecimal notation.

use vstd::prelude::*;
use crate::text;

verus! {

/// A digest is taken of fewer bytes than this: the number of bits is counted in 64 bits.
pub const DIGEST_LIMIT: u64 = 0x1000_0000_0000_0000;

/// The 20 bytes of the SHA-1 digest of `data`.
pub uninterp spec fn sha1_of(data: Seq<u8>) -> Seq<u8>;

/// The 32 bytes of the SHA-256 digest of `data`.
pub uninterp spec fn sha256_of(data: Seq<u8>) -> Seq<u8>;

/// Calls `sha1::Sha1::digest`: it hands back the 20 bytes of the SHA-1 digest of the data, which
/// depend on the data alone. The digest itself is only named.
#[verifier::external_body]
pub(crate) fn sha1(data: &[u8]) -> (r: Vec<u8>)
    requires
        data@.len() < DIGEST_LIMIT,
    ensures
        r@ == sha1_of(data@),
        r@.len() == 20,
{
    <sha1::Sha1 as sha1::Digest>::digest(data).to_vec()
}

/// Calls `sha2::Sha256::digest`: it hands back the 32 bytes of the SHA-256 digest of the data,
/// which depend on the data alone. The digest itself is only named.
#[verifier::external_body]
pub(crate) fn sha256(data: &[u8]) -> (r: Vec<u8>)
    requires
        data@.len() < DIGEST_LIMIT,
    ensures
        r@ == sha256_of(data@),
        r@.len() == 32,
{
    <sha2::Sha256 as sha2::Digest>::digest(data).to_vec()
}

/// Two lower-case hexadecimal digits for each byte.
pub open spec fn hex_text(data: Seq<u8>) -> Seq<char>
    decreases data.len(),
{
    if data.len() == 0 {
        Seq::empty()
    } else {
        hex_text(data.drop_last()).push(text::digit_char((data.last() / 16) as nat)).push(
            text::digit_char((data.last() % 16) as nat),
        )
    }
}

/// Calls `hex::encode`: it hands back two lower-case hexadecimal digits for each byte, the high
/// one first.
#[verifier::external_body]
pub(crate) fn hex(data: &[u8]) -> (r: String)
    ensures
        r@ == hex_text(data@),
{
    hex::encode(data)
}

/// The SHA-256 digest of a capture in hexadecimal notation.
pub fn capture_digest(data: &[u8]) -> (r: String)
    requires
        data@.len() < DIGEST_LIMIT,
    ensures
        r@ == hex_text(sha256_of(data@)),
{
    hex(&sha256(data))
}

/// The notation of a digest has two characters for each of its bytes.
pub proof fn law_hex_length(data: Seq<u8>)
    ensures
        hex_text(data).len() == 2 * data.len(),
    decreases data.len(),
{
    if data.len() > 0 {
        law_hex_length(data.drop_last());
    }
}

/// Each byte is written as two hexadecimal digits in small letters, the high one first.
pub proof fn law_hex_is_read_back(data: Seq<u8>, i: int)
    requires
        0 <= i < data.len(),
    ensures
        ({
            let high = text::digit_value(hex_text(data)[2 * i], 16);
            let low = text::digit_value(hex_text(data)[2 * i + 1], 16);
            &&& high is Some && low is Some
            &&& high->0 * 16 + low->0 == data[i]
            &&& !('A' <= hex_text(data)[2 * i] <= 'F') && !('A' <= hex_text(data)[2 * i + 1] <= 'F')
        }),
    decreases data.len(),
{
    let rest = data.drop_last();
    law_hex_length(rest);
    if i < rest.len() {
        law_hex_is_read_back(rest, i);
    }
}

} // verus!
