//! Content hashes.

use vstd::prelude::*;

verus! {

/// The lower-case hexadecimal form of the BLAKE3 hash of some bytes.
pub uninterp spec fn blake3_hex(bytes: Seq<u8>) -> Seq<char>;

/// The UTF-8 bytes of two texts, one after the other.
pub open spec fn joined_bytes(first: Seq<char>, second: Seq<char>) -> Seq<u8> {
    vstd::utf8::encode_utf8(first) + vstd::utf8::encode_utf8(second)
}

/// The content hash of a text and a file type.
pub open spec fn content_hash(text: Seq<char>, file_type: Seq<char>) -> Seq<char> {
    blake3_hex(joined_bytes(text, file_type))
}

/// `blake3::Hasher`: `new`, `update` with the first bytes and with the second,
/// `finalize`, and `to_hex` of the hash. The result is named by `blake3_hex` of
/// the bytes one after the other.
#[verifier::external_body]
fn hash_parts(first: &[u8], second: &[u8]) -> (r: String)
    ensures
        r@ == blake3_hex(first@ + second@),
{
    let mut hasher = blake3::Hasher::new();
    hasher.update(first);
    hasher.update(second);
    hasher.finalize().to_hex().to_string()
}

/// Compute a BLAKE3 content hash from text content and file type.
/// Deterministic: same (text, type) always produces the same hash.
pub fn compute_content_hash(text: &str, file_type: &str) -> (r: String)
    ensures
        r@ == content_hash(text@, file_type@),
{
    hash_parts(text.as_bytes(), file_type.as_bytes())
}

/// The content hash of a text is that of all its bytes, and those of the type behind them.
pub proof fn whole_text_is_hashed(text: Seq<char>, file_type: Seq<char>)
    ensures
        content_hash(text, file_type) == blake3_hex(
            vstd::utf8::encode_utf8(text) + vstd::utf8::encode_utf8(file_type),
        ),
{
}

} // verus!
