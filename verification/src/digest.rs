//! Content hashes: the SHA-256 digest of a text, written in hexadecimal.

use crate::text::{lower_hex, to_lower_hex};
use vstd::prelude::*;
use vstd::string::*;
use vstd::utf8::*;

verus! {

/// The SHA-256 digest of `data`.
pub uninterp spec fn sha256(data: Seq<u8>) -> Seq<u8>;

/// Computes the SHA-256 digest of `data` with `sha2::Sha256::digest`.
///
/// Trusted: the digest is a function of the bytes of `data` alone, which is
/// given the name [`sha256`]. Nothing else is claimed of it.
#[verifier::external_body]
fn sha256_digest(data: &[u8]) -> (out: Vec<u8>)
    ensures
        out@ == sha256(data@),
{
    <sha2::Sha256 as sha2::Digest>::digest(data).to_vec()
}

/// The content hash of `text`: the SHA-256 digest of its UTF-8 encoding, in
/// lower-case hexadecimal.
pub open spec fn content_digest(text: Seq<char>) -> Seq<char> {
    lower_hex(sha256(encode_utf8(text)))
}

/// Computes the content hash of `text`.
pub fn content_hash(text: &str) -> (hash: String)
    ensures
        hash@ == content_digest(text@),
{
    let digest = sha256_digest(text.as_bytes());
    to_lower_hex(digest.as_slice())
}

} // verus!
