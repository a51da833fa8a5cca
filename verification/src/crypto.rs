//! The cryptographic and text primitives the overlay uses: SHA-256,
//! Ed25519 and hexadecimal text.
use vstd::prelude::*;
use ed25519_dalek::{Signer, Verifier};
use sha2::Digest;

verus! {

/// SHA-256 digest of a byte string.
pub uninterp spec fn sha256_digest(data: Seq<u8>) -> Seq<u8>;

/// Ed25519 public key (compressed point, 32 bytes) of a 32-byte secret seed.
pub uninterp spec fn ed25519_public_key(secret: Seq<u8>) -> Seq<u8>;

/// Ed25519 signature (64 bytes) of a message under a 32-byte secret seed.
pub uninterp spec fn ed25519_signature(secret: Seq<u8>, msg: Seq<u8>) -> [u8; 64];

/// Whether an Ed25519 signature over a message is accepted for a public key.
pub uninterp spec fn ed25519_accepts(public: Seq<u8>, msg: Seq<u8>, sig: Seq<u8>) -> bool;

/// Computes the SHA-256 digest of `data` with `sha2::Sha256::digest`.
/// Trusted: the digest is the named function of the input bytes.
#[verifier::external_body]
pub(crate) fn sha256(data: &[u8]) -> (r: [u8; 32])
    ensures
        r@ == sha256_digest(data@),
{
    let out = sha2::Sha256::digest(data);
    out.into()
}

/// Derives the public key of a secret seed with
/// `ed25519_dalek::SigningKey::from_bytes(..).verifying_key()`.
/// Trusted: the key is the named function of the seed.
#[verifier::external_body]
pub(crate) fn ed25519_public(secret: &[u8; 32]) -> (r: [u8; 32])
    ensures
        r@ == ed25519_public_key(secret@),
{
    ed25519_dalek::SigningKey::from_bytes(secret).verifying_key().to_bytes()
}

/// Signs `msg` with `ed25519_dalek::SigningKey::from_bytes(secret).sign(msg)`.
/// Trusted: Ed25519 signing is deterministic, so the signature is the named
/// function of the seed and the message.
#[verifier::external_body]
pub(crate) fn ed25519_sign(secret: &[u8; 32], msg: &[u8]) -> (r: [u8; 64])
    ensures
        r == ed25519_signature(secret@, msg@),
{
    ed25519_dalek::SigningKey::from_bytes(secret).sign(msg).to_bytes()
}

/// Verifies a signature with `ed25519_dalek::VerifyingKey::from_bytes` and
/// `Verifier::verify`; the result is `true` when the key decodes and the
/// signature verifies. Trusted: the result is the named function of the
/// three inputs, and a signature made with a seed is accepted for the
/// public key of that seed (the correctness of Ed25519).
#[verifier::external_body]
pub(crate) fn ed25519_verify(public: &[u8; 32], msg: &[u8], sig: &[u8; 64]) -> (r: bool)
    ensures
        r == ed25519_accepts(public@, msg@, sig@),
        forall|secret: Seq<u8>|
            #![trigger ed25519_signature(secret, msg@)]
            secret.len() == 32 && public@ == ed25519_public_key(secret) && sig@ == ed25519_signature(secret, msg@)@
                ==> r,
{
    let vk = match ed25519_dalek::VerifyingKey::from_bytes(public) {
        Ok(vk) => vk,
        Err(_) => return false,
    };
    let signature = ed25519_dalek::Signature::from_bytes(sig);
    vk.verify(msg, &signature).is_ok()
}

/// Draws a fresh secret seed with
/// `ed25519_dalek::SigningKey::generate(&mut rand::rngs::OsRng)`.
/// Nothing is stated of the seed: it comes from the operating system's
/// random source.
#[verifier::external_body]
pub(crate) fn ed25519_generate_secret() -> (r: [u8; 32]) {
    ed25519_dalek::SigningKey::generate(&mut rand::rngs::OsRng).to_bytes()
}

// ── hexadecimal text ─────────────────────────────────────────────────────────

pub open spec fn is_hex_digit(c: char) -> bool {
    ('0' <= c && c <= '9') || ('a' <= c && c <= 'f') || ('A' <= c && c <= 'F')
}

pub open spec fn hex_value(c: char) -> u8 {
    if '0' <= c && c <= '9' {
        (c as u32 - '0' as u32) as u8
    } else if 'a' <= c && c <= 'f' {
        (c as u32 - 'a' as u32 + 10) as u8
    } else {
        (c as u32 - 'A' as u32 + 10) as u8
    }
}

pub open spec fn hex_lower_digit(v: u8) -> char {
    if v < 10 {
        (('0' as u8) + v) as char
    } else {
        (('a' as u8) + (v - 10)) as char
    }
}

/// Lower-case hexadecimal text of a byte string, two characters per byte.
pub open spec fn hex_text(b: Seq<u8>) -> Seq<char> {
    Seq::new(
        2 * b.len(),
        |i: int|
            if i % 2 == 0 {
                hex_lower_digit(b[i / 2] >> 4u8)
            } else {
                hex_lower_digit(b[i / 2] & 0x0fu8)
            },
    )
}

/// Whether a text is a well-formed hexadecimal string (either case).
pub open spec fn is_hex_text(s: Seq<char>) -> bool {
    s.len() % 2 == 0 && forall|i: int| 0 <= i < s.len() ==> #[trigger] is_hex_digit(s[i])
}

/// The bytes that a well-formed hexadecimal text stands for.
pub open spec fn hex_bytes(s: Seq<char>) -> Seq<u8> {
    Seq::new(
        s.len() / 2,
        |i: int| ((hex_value(s[2 * i]) as int) * 16 + (hex_value(s[2 * i + 1]) as int)) as u8,
    )
}

/// Encodes bytes as lower-case hexadecimal text with `hex::encode`.
/// Trusted: the text is two lower-case digits per byte, high nibble first.
#[verifier::external_body]
pub(crate) fn hex_encode(data: &[u8]) -> (r: String)
    ensures
        r@ == hex_text(data@),
{
    hex::encode(data)
}

/// The message of the error `hex::decode` gives for a text that is not
/// well-formed hexadecimal.
pub uninterp spec fn hex_decode_error(s: Seq<char>) -> Seq<char>;

/// Decodes hexadecimal text with `hex::decode`. Trusted: the text decodes
/// exactly when it has an even number of characters that are all
/// hexadecimal digits of either case, and then to one byte per pair;
/// otherwise the error's message (its `Display` text) is the named function
/// of the text.
#[verifier::external_body]
pub(crate) fn hex_decode(s: &str) -> (r: Result<Vec<u8>, String>)
    ensures
        r is Ok <==> is_hex_text(s@),
        r matches Ok(v) ==> v@ == hex_bytes(s@),
        r matches Err(e) ==> e@ == hex_decode_error(s@),
{
    match hex::decode(s) {
        Ok(v) => Ok(v),
        Err(e) => Err(e.to_string()),
    }
}

} // verus!
