//! PKCE: the code verifier and its S256 challenge.

use vstd::prelude::*;
use vstd::utf8::encode_utf8;
use base64::Engine;
use sha2::Digest;

verus! {

/// The SHA-256 digest of a byte sequence, as the `sha2` crate computes it.
pub uninterp spec fn sha256_digest(data: Seq<u8>) -> Seq<u8>;

/// The unpadded base64 encoding of a byte sequence in the URL-safe alphabet,
/// as the `base64` crate's `URL_SAFE_NO_PAD` engine computes it.
pub uninterp spec fn base64_url_no_pad(data: Seq<u8>) -> Seq<char>;

/// The length of the unpadded base64 encoding of `n` bytes.
pub open spec fn base64_no_pad_len(n: nat) -> nat {
    n / 3 * 4 + if n % 3 == 0 {
        0
    } else {
        n % 3 + 1
    }
}

/// A character of the URL-safe base64 alphabet: ASCII letters, digits, `-`
/// and `_`.
pub open spec fn is_url_safe_char(c: char) -> bool {
    ||| ('A' <= c && c <= 'Z')
    ||| ('a' <= c && c <= 'z')
    ||| ('0' <= c && c <= '9')
    ||| c == '-'
    ||| c == '_'
}

/// Trusted: `sha2::Sha256::digest` hashes `data`; its result is named
/// `sha256_digest` of the bytes and, as a SHA-256 output, is 32 bytes long.
#[verifier::external_body]
fn sha256(data: &[u8]) -> (r: Vec<u8>)
    ensures
        r@ == sha256_digest(data@),
        r@.len() == 32,
{
    sha2::Sha256::digest(data).to_vec()
}

/// Trusted: the `URL_SAFE_NO_PAD` engine's `Engine::encode` encodes `data`;
/// its result is named `base64_url_no_pad` of the bytes. It has the length
/// that `encoded_len` computes without padding (four characters for each
/// three bytes, two or three for a final one or two), and every character is
/// of the URL-safe alphabet. The engine panics when the encoded length
/// overflows `usize`, which `requires` rules out.
#[verifier::external_body]
fn encode_base64_url(data: &[u8]) -> (r: String)
    requires
        base64_no_pad_len(data@.len()) <= usize::MAX,
    ensures
        r@ == base64_url_no_pad(data@),
        r@.len() == base64_no_pad_len(data@.len()),
        forall|i: int| 0 <= i < r@.len() ==> is_url_safe_char(#[trigger] r@[i]),
{
    base64::engine::general_purpose::URL_SAFE_NO_PAD.encode(data)
}

/// Trusted: `uuid::Uuid::new_v4` draws a random version-4 UUID, and
/// `into_bytes` gives its 16 bytes. Nothing is stated of their values, which
/// come from the operating system's random source; the call panics only when
/// that source fails, which no argument controls.
#[verifier::external_body]
fn random_uuid_bytes() -> (r: [u8; 16]) {
    uuid::Uuid::new_v4().into_bytes()
}

/// The PKCE code verifier made of three UUIDs: the URL-safe unpadded base64
/// encoding of their bytes, in order.
pub fn verifier_from(a: [u8; 16], b: [u8; 16], c: [u8; 16]) -> (r: String)
    ensures
        r@ == base64_url_no_pad(a@ + b@ + c@),
        r@.len() == 64,
        forall|i: int| 0 <= i < r@.len() ==> is_url_safe_char(#[trigger] r@[i]),
{
    let mut combined: Vec<u8> = Vec::with_capacity(48);
    let mut i: usize = 0;
    while i < 16
        invariant
            i <= 16,
            combined@ == a@.take(i as int),
        decreases 16 - i,
    {
        combined.push(a[i]);
        assert(a@.take(i + 1) == a@.take(i as int).push(a@[i as int]));
        i = i + 1;
    }
    assert(a@.take(16) == a@);
    i = 0;
    while i < 16
        invariant
            i <= 16,
            combined@ == a@ + b@.take(i as int),
        decreases 16 - i,
    {
        combined.push(b[i]);
        assert(b@.take(i + 1) == b@.take(i as int).push(b@[i as int]));
        i = i + 1;
    }
    assert(b@.take(16) == b@);
    i = 0;
    while i < 16
        invariant
            i <= 16,
            combined@ == a@ + b@ + c@.take(i as int),
        decreases 16 - i,
    {
        combined.push(c[i]);
        assert(c@.take(i + 1) == c@.take(i as int).push(c@[i as int]));
        i = i + 1;
    }
    assert(c@.take(16) == c@);
    encode_base64_url(combined.as_slice())
}

/// A fresh PKCE code verifier: the URL-safe unpadded base64 encoding of the
/// bytes of three random UUIDs, 64 characters long.
pub fn generate_verifier() -> (r: String)
    ensures
        exists|a: [u8; 16], b: [u8; 16], c: [u8; 16]|
            r@ == #[trigger] base64_url_no_pad(a@ + b@ + c@),
        r@.len() == 64,
        forall|i: int| 0 <= i < r@.len() ==> is_url_safe_char(#[trigger] r@[i]),
{
    let a = random_uuid_bytes();
    let b = random_uuid_bytes();
    let c = random_uuid_bytes();
    verifier_from(a, b, c)
}

/// The S256 challenge of a verifier: the URL-safe unpadded base64 encoding of
/// the SHA-256 digest of its UTF-8 bytes.
pub open spec fn spec_challenge(verifier: Seq<char>) -> Seq<char> {
    base64_url_no_pad(sha256_digest(encode_utf8(verifier)))
}

/// Computes the S256 challenge of a verifier.
pub fn compute_challenge(verifier: &str) -> (r: String)
    ensures
        r@ == spec_challenge(verifier@),
        r@ == base64_url_no_pad(sha256_digest(encode_utf8(verifier@))),
        r@.len() == 43,
        forall|i: int| 0 <= i < r@.len() ==> is_url_safe_char(#[trigger] r@[i]),
{
    let hash = sha256(verifier.as_bytes());
    encode_base64_url(hash.as_slice())
}

/// Law: the S256 challenge hashes every byte of the verifier, whatever its
/// length (RFC 7636: `BASE64URL(SHA256(ASCII(code_verifier)))`), the
/// 64-character verifiers made here included: the digest is taken of the
/// verifier's whole UTF-8 encoding, so two verifiers whose bytes differ
/// anywhere, after their 43rd character too, are hashed as different inputs.
pub proof fn law_challenge_hashes_whole_verifier(v: Seq<char>, w: Seq<char>)
    ensures
        spec_challenge(v) == base64_url_no_pad(sha256_digest(encode_utf8(v))),
        spec_challenge(w) == base64_url_no_pad(sha256_digest(encode_utf8(w))),
        v != w ==> encode_utf8(v) != encode_utf8(w),
{
    vstd::utf8::encode_utf8_decode_utf8(v);
    vstd::utf8::encode_utf8_decode_utf8(w);
}

} // verus!
