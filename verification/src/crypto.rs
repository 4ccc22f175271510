//! The cryptographic and encoding primitives that the relay takes from other
//! crates. Nothing about their bodies is proved here; each contract says what
//! is relied upon.
use base64::engine::general_purpose::STANDARD;
use base64::Engine;
use chacha20poly1305::aead::{Aead, KeyInit};
use chacha20poly1305::{ChaCha20Poly1305, Nonce};
use hkdf::Hkdf;
use sha2::{Digest, Sha256};
use vstd::prelude::*;
use x25519_dalek::{PublicKey, StaticSecret};

verus! {

/// The X25519 shared secret of a secret key and a peer's public key.
pub uninterp spec fn x25519(secret: Seq<u8>, public: Seq<u8>) -> Seq<u8>;

/// The first 32 bytes of HKDF-SHA256 output without a salt.
pub uninterp spec fn hkdf_sha256(ikm: Seq<u8>, info: Seq<u8>) -> Seq<u8>;

/// What ChaCha20-Poly1305 opens `sealed` to, `None` where the tag does not
/// match.
pub uninterp spec fn chacha20poly1305_open(
    key: Seq<u8>,
    nonce: Seq<u8>,
    sealed: Seq<u8>,
) -> Option<Seq<u8>>;

/// The SHA-256 digest.
pub uninterp spec fn sha256(data: Seq<u8>) -> Seq<u8>;

/// What a padded standard-alphabet base64 text decodes to, `None` where it is
/// not one.
pub uninterp spec fn base64_standard(text: Seq<char>) -> Option<Seq<u8>>;

/// Key derivation was asked for too much output.
#[verifier::external_type_specification]
#[verifier::external_body]
pub struct ExInvalidLength(hkdf::InvalidLength);

/// A sealed text did not open.
#[verifier::external_type_specification]
#[verifier::external_body]
pub struct ExAeadError(chacha20poly1305::Error);

/// A text is not base64.
#[verifier::external_type_specification]
#[verifier::external_body]
pub struct ExDecodeError(base64::DecodeError);

/// `x25519_dalek::StaticSecret::diffie_hellman`: the shared secret is a
/// function of the two keys' bytes. Every 32 bytes are taken as a key.
#[verifier::external_body]
pub(crate) fn shared_secret(secret: [u8; 32], public: [u8; 32]) -> (r: [u8; 32])
    ensures
        r@ == x25519(secret@, public@),
{
    StaticSecret::from(secret).diffie_hellman(&PublicKey::from(public)).to_bytes()
}

/// `hkdf::Hkdf::<Sha256>::new` without a salt, then `expand` to 32 bytes. The
/// output is a function of key material and info; `expand` fails only on
/// outputs above 255 blocks of 32 bytes, so never here.
#[verifier::external_body]
pub(crate) fn derive_key(ikm: &[u8], info: &[u8]) -> (r: Result<[u8; 32], hkdf::InvalidLength>)
    ensures
        r is Ok,
        r->Ok_0@ == hkdf_sha256(ikm@, info@),
{
    let mut key = [0u8; 32];
    Hkdf::<Sha256>::new(None, ikm).expand(info, &mut key)?;
    Ok(key)
}

/// `ChaCha20Poly1305::decrypt` without associated data: whether it opens, and
/// to what, is a function of key, nonce and input. The input ends in a tag of
/// 16 bytes, which the plaintext lacks; anything shorter does not open.
#[verifier::external_body]
pub(crate) fn open_sealed(key: [u8; 32], nonce: [u8; 12], sealed: &[u8]) -> (r: Result<
    Vec<u8>,
    chacha20poly1305::Error,
>)
    ensures
        match r {
            Ok(plain) => chacha20poly1305_open(key@, nonce@, sealed@) == Some(plain@) && plain@.len()
                + 16 == sealed@.len(),
            Err(_) => chacha20poly1305_open(key@, nonce@, sealed@) is None,
        },
{
    ChaCha20Poly1305::new((&key).into()).decrypt(Nonce::from_slice(&nonce), sealed)
}

/// `sha2::Sha256::digest`: 32 bytes that depend on the data alone.
#[verifier::external_body]
pub(crate) fn digest(data: &[u8]) -> (r: [u8; 32])
    ensures
        r@ == sha256(data@),
{
    Sha256::digest(data).into()
}

/// `base64::engine::general_purpose::STANDARD.decode`: whether it decodes, and
/// to what, is a function of the text.
#[verifier::external_body]
pub(crate) fn decode_base64(text: &str) -> (r: Result<Vec<u8>, base64::DecodeError>)
    ensures
        match r {
            Ok(bytes) => base64_standard(text@) == Some(bytes@),
            Err(_) => base64_standard(text@) is None,
        },
{
    STANDARD.decode(text)
}

} // verus!
