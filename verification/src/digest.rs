//! MD5 digests in base64 and as identifiers, and random tokens.

use vstd::prelude::*;
use vstd::string::StringSliceAdditionalSpecFns;
use base64::Engine;
use rand::Rng;
use crate::chars::{chars_of, same_chars};
use crate::ident::Uuid;

verus! {

/// The generator of random numbers that the rand crate keeps for each
/// thread.
#[verifier::external_type_specification]
#[verifier::external_body]
pub struct ExThreadRng(rand::rngs::ThreadRng);

/// `rand::rng` hands out the generator of the calling thread. It panics only
/// where the operating system gives the generator no seed.
pub assume_specification[ rand::rng ]() -> rand::rngs::ThreadRng;

/// The MD5 digest of a sequence of bytes, as the md5 crate computes it.
pub uninterp spec fn md5_of(data: Seq<u8>) -> Seq<u8>;

/// The base64 text of a sequence of bytes in the standard alphabet with
/// padding, as the base64 crate's `STANDARD` engine encodes it.
pub uninterp spec fn base64_of(data: Seq<u8>) -> Seq<char>;

/// The longest input that the base64 crate encodes on every machine: four
/// characters for each three bytes must fit the smallest `usize`.
pub const BASE64_MAX_INPUT: usize = 0x2fff_ffff;

/// Calls the md5 crate's `compute` and takes the sixteen bytes of the
/// digest.
///
/// Trusted: the result is the MD5 digest of `data`, a function of the bytes
/// alone.
#[verifier::external_body]
fn md5_digest(data: &[u8]) -> (digest: [u8; 16])
    ensures
        digest@ == md5_of(data@),
{
    md5::compute(data).0
}

/// Calls `encode` of the base64 crate's `STANDARD` engine.
///
/// Trusted: the result is the base64 text of `data`, a function of the
/// bytes alone. The crate panics where the length of the text would not fit
/// a `usize`, which the bound on the input rules out.
#[verifier::external_body]
fn base64_standard(data: &[u8]) -> (text: String)
    requires
        data@.len() <= BASE64_MAX_INPUT,
    ensures
        text@ == base64_of(data@),
{
    base64::engine::general_purpose::STANDARD.encode(data)
}

/// Draws one byte from the generator.
///
/// Trusted: nothing is claimed of the byte.
#[verifier::external_body]
fn random_byte(rng: &mut rand::rngs::ThreadRng) -> u8 {
    rng.random()
}

/// The base64 text of `data` in the standard alphabet, with padding.
pub fn encode_base64(data: &[u8]) -> (text: String)
    requires
        data@.len() <= BASE64_MAX_INPUT,
    ensures
        text@ == base64_of(data@),
{
    base64_standard(data)
}

/// How many random bytes a token is made of.
pub const TOKEN_BYTES: usize = 36;

/// A random token: 36 bytes from the generator of the calling thread, in
/// base64.
pub fn random_base64() -> (r: String)
    ensures
        exists|bytes: Seq<u8>| bytes.len() == TOKEN_BYTES && r@ == #[trigger] base64_of(bytes),
{
    let mut rng = rand::rng();
    let mut random_bytes: Vec<u8> = Vec::new();
    while random_bytes.len() < TOKEN_BYTES
        invariant
            random_bytes.len() <= TOKEN_BYTES,
        decreases TOKEN_BYTES - random_bytes.len(),
    {
        random_bytes.push(random_byte(&mut rng));
    }
    encode_base64(random_bytes.as_slice())
}

/// The MD5 digest of a text, taken over its UTF-8 bytes, in base64.
pub fn md5_as_base64(in_string: &str) -> (r: String)
    ensures
        r@ == base64_of(md5_of(in_string.spec_bytes())),
{
    let digest = md5_digest(in_string.as_bytes());
    encode_base64(digest.as_slice())
}

/// The MD5 digest of a text, taken over its UTF-8 bytes, as the sixteen
/// bytes of an identifier.
pub fn md5_as_uuid(in_string: &str) -> (r: Uuid)
    ensures
        r@ == md5_of(in_string.spec_bytes()),
{
    Uuid::from_bytes(md5_digest(in_string.as_bytes()))
}

/// Tells whether `in_hash` is the MD5 digest of `in_string` in base64.
pub fn md5_verify_base64(in_string: &str, in_hash: &str) -> (r: bool)
    ensures
        r == (base64_of(md5_of(in_string.spec_bytes())) == in_hash@),
{
    let hash_of_input = md5_as_base64(in_string);
    same_chars(&chars_of(hash_of_input.as_str()), &chars_of(in_hash))
}

/// Tells whether `in_uuid` is made of the MD5 digest of `in_string`.
pub fn md5_verify_uuid(in_string: &str, in_uuid: Uuid) -> (r: bool)
    ensures
        r == (md5_of(in_string.spec_bytes()) == in_uuid@),
{
    let ver_uuid = md5_as_uuid(in_string);
    ver_uuid.same_bytes(&in_uuid)
}

} // verus!
