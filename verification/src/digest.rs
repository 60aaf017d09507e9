//! Content hashes of JSON values.

use crate::json::{json_encoding, json_string, json_tree, JsonTree};
use serde_json::Value;
use sha2::Digest;
use vstd::prelude::*;
use vstd::utf8::encode_utf8;

verus! {

/// The SHA-256 digest of `bytes`.
pub uninterp spec fn sha256_of(bytes: Seq<u8>) -> Seq<u8>;

/// `sha2::Sha256::digest`: the SHA-256 digest of `bytes`, 32 bytes long.
#[verifier::external_body]
fn sha256(bytes: &[u8]) -> (r: Vec<u8>)
    ensures
        r@ == sha256_of(bytes@),
        r@.len() == 32,
{
    sha2::Sha256::digest(bytes).to_vec()
}

/// The hexadecimal digit of `n`, in lower case.
pub open spec fn hex_digit(n: int) -> char {
    "0123456789abcdef"@[n]
}

/// Two digits for each byte, the high half first.
pub open spec fn hex_of(bytes: Seq<u8>) -> Seq<char> {
    Seq::new(
        2 * bytes.len(),
        |i: int|
            if i % 2 == 0 {
                hex_digit(bytes[i / 2] as int / 16)
            } else {
                hex_digit(bytes[i / 2] as int % 16)
            },
    )
}

/// `hex::encode`: two lower-case hexadecimal digits for each byte, in order.
#[verifier::external_body]
fn hex_encode(bytes: &Vec<u8>) -> (r: String)
    ensures
        r@ == hex_of(bytes@),
{
    hex::encode(bytes)
}

/// The content hash of `tree`: the SHA-256 digest of the UTF-8 bytes of its
/// compact JSON text, in hexadecimal.
pub open spec fn content_hash(tree: JsonTree) -> Seq<char> {
    hex_of(sha256_of(encode_utf8(json_encoding(tree))))
}

/// The content hash of `value`.
pub fn hash_json_value(value: &Value) -> (r: String)
    ensures
        r@ == content_hash(json_tree(*value)),
        r@.len() == 64,
{
    let text = json_string(value);
    let digest = sha256(text.as_str().as_bytes());
    hex_encode(&digest)
}

} // verus!
