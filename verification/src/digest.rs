//! Content hashes: the SHA-256 digest of a byte string, in lower-case hexadecimal.

use crate::ident::hex_digit;
use sha2::Digest;
use vstd::prelude::*;

verus! {

/// The SHA-256 digest of a byte string.
pub uninterp spec fn sha256_digest(data: Seq<u8>) -> Seq<u8>;

/// Two lower-case hexadecimal digits per byte, high half first.
pub open spec fn hex_text(bytes: Seq<u8>) -> Seq<char> {
    Seq::new(
        2 * bytes.len(),
        |i: int|
            if i % 2 == 0 {
                hex_digit(bytes[i / 2] as int / 16)
            } else {
                hex_digit(bytes[i / 2] as int % 16)
            },
    )
}

/// The hash under which a content snapshot is known.
pub open spec fn content_hash(data: Seq<u8>) -> Seq<char> {
    hex_text(sha256_digest(data))
}

/// `Sha256` of the `sha2` crate, fed the whole input at once. Its output
/// is 32 bytes long.
#[verifier::external_body]
pub(crate) fn sha256(data: &[u8]) -> (digest: Vec<u8>)
    ensures
        digest@ == sha256_digest(data@),
        digest@.len() == 32,
{
    let mut hasher = sha2::Sha256::new();
    hasher.update(data);
    hasher.finalize().to_vec()
}

/// `hex::encode`: each byte as two lower-case hexadecimal digits.
#[verifier::external_body]
pub(crate) fn hex_encode(bytes: &[u8]) -> (text: String)
    ensures
        text@ == hex_text(bytes@),
{
    hex::encode(bytes)
}

/// Computes the hash of a content snapshot: 64 hexadecimal digits.
pub fn hash_content(content: &[u8]) -> (hash: String)
    ensures
        hash@ == content_hash(content@),
        hash@.len() == 64,
{
    let digest = sha256(content);
    hex_encode(digest.as_slice())
}

} // verus!
