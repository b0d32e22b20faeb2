use vstd::prelude::*;
use vstd::utf8::encode_utf8;
use sha2::Digest;
use crate::hexenc::{hex_encode, spec_hex};

verus! {

/// The SHA-256 digest of a byte sequence.
pub uninterp spec fn sha256_of(bytes: Seq<u8>) -> Seq<u8>;

/// Relies on sha2::Sha256 (through the Digest trait's one-shot digest):
/// the SHA-256 digest is a pure function of the input bytes and is 32
/// bytes long.
#[verifier::external_body]
fn sha256(bytes: &[u8]) -> (r: Vec<u8>)
    ensures
        r@ == sha256_of(bytes@),
        r@.len() == 32,
{
    sha2::Sha256::digest(bytes).to_vec()
}

/// The stable identifier of a URL: the lowercase hex encoding of the
/// SHA-256 digest of the URL's UTF-8 bytes.
pub open spec fn spec_url_hash(url: Seq<char>) -> Seq<char> {
    spec_hex(sha256_of(encode_utf8(url)))
}

/// Computes the lowercase-hex SHA-256 digest of the UTF-8 bytes of `url`.
pub fn url_hash(url: &str) -> (r: String)
    ensures
        r@ == spec_url_hash(url@),
{
    let bytes: &[u8] = url.as_bytes();
    let digest: Vec<u8> = sha256(bytes);
    hex_encode(digest.as_slice())
}

} // verus!
