//! The one fixed cryptographic primitive: SHA-256, rendered as lowercase
//! hexadecimal text. The digest computation itself is done by an outside
//! crate; its results are named by uninterpreted spec functions, and
//! everything built on top of them is verified against those names.

use vstd::prelude::*;

verus! {

/// The lowercase-hex SHA-256 digest of a byte sequence. A function of the
/// bytes alone; what it is on given bytes is known only to the outside crate.
pub uninterp spec fn sha256_hex(data: Seq<u8>) -> Seq<char>;

/// The lowercase-hex SHA-256 digest of a text's UTF-8 byte encoding.
/// A function of the text alone.
pub uninterp spec fn sha256_hex_str(text: Seq<char>) -> Seq<char>;

/// Relies on crypto::sha2::Sha256 via crypto::digest::Digest::input and
/// Digest::result_str: the result is the lowercase-hex rendering of the
/// 32-byte SHA-256 digest of exactly the input bytes, so it has 64
/// characters and depends on the input bytes alone.
#[verifier::external_body]
pub(crate) fn sha256_bytes_hex(data: &[u8]) -> (r: String)
    ensures
        r@ == sha256_hex(data@),
        r@.len() == 64,
{
    let mut sha = crypto::sha2::Sha256::new();
    crypto::digest::Digest::input(&mut sha, data);
    crypto::digest::Digest::result_str(&mut sha)
}

/// Relies on crypto::sha2::Sha256 via crypto::digest::Digest::input_str and
/// Digest::result_str: input_str feeds the text's UTF-8 bytes into the
/// digest, so the result is the 64-character lowercase-hex SHA-256 digest
/// of those bytes and depends on the text alone.
#[verifier::external_body]
pub(crate) fn sha256_text_hex(text: &str) -> (r: String)
    ensures
        r@ == sha256_hex_str(text@),
        r@.len() == 64,
{
    let mut sha = crypto::sha2::Sha256::new();
    crypto::digest::Digest::input_str(&mut sha, text);
    crypto::digest::Digest::result_str(&mut sha)
}

} // verus!
