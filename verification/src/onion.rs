//! One onion layer: `ephemeral public key | nonce | sealed layer`.
use crate::crypto;
use crate::relay::RelayError;
use vstd::prelude::*;
use vstd::slice::slice_subrange;
use vstd::utf8::encode_utf8;

verus! {

/// Length of the ephemeral public key that opens a packet.
pub const KEY_LEN: usize = 32;

/// Length of the nonce that follows it.
pub const NONCE_LEN: usize = 12;

/// What a layer says once it is open and read: where its blob goes next, and
/// the blob in base64.
#[derive(Debug)]
pub struct OnionLayer {
    pub next_queue: String,
    pub body_b64: String,
}

/// The relay's secret key for development.
pub open spec fn secret_key() -> Seq<u8> {
    Seq::new(32, |i: int| 42u8)
}

/// The key derivation's info string.
pub open spec fn key_info() -> Seq<u8> {
    encode_utf8("horus-onion-v1"@)
}

/// The layer inside `packet` under `secret`: the bytes behind key and nonce,
/// opened with the key derived from the shared secret. A packet with nothing
/// behind the nonce has no layer.
pub open spec fn opened(secret: Seq<u8>, packet: Seq<u8>) -> Option<Seq<u8>> {
    if packet.len() < 45 {
        None
    } else {
        crypto::chacha20poly1305_open(
            crypto::hkdf_sha256(crypto::x25519(secret, packet.take(32)), key_info()),
            packet.subrange(32, 44),
            packet.skip(44),
        )
    }
}

/// Where a read layer sends what: nowhere if it could not be read or its blob
/// is not base64.
pub open spec fn destination(layer: Option<OnionLayer>) -> Option<(Seq<char>, Seq<u8>)> {
    match layer {
        None => None,
        Some(l) => match crypto::base64_standard(l.body_b64@) {
            None => None,
            Some(body) => Some((l.next_queue@, body)),
        },
    }
}

/// The relay's secret key for development; clients seal to its public half.
pub fn relay_secret() -> (r: [u8; 32])
    ensures
        r@ == secret_key(),
{
    let key = [42u8; 32];
    assert(key@ =~= secret_key());
    key
}

/// Opens the layer that `packet` seals to `secret`.
pub fn open_onion(secret: [u8; 32], packet: &[u8]) -> (r: Result<Vec<u8>, RelayError>)
    ensures
        match r {
            Ok(plain) => opened(secret@, packet@) == Some(plain@),
            Err(e) => e == RelayError::BadOnion && opened(secret@, packet@) is None,
        },
{
    if packet.len() < 45 {
        return Err(RelayError::BadOnion);
    }
    let mut eph = [0u8; 32];
    for i in 0..KEY_LEN
        invariant
            packet@.len() >= 45,
            eph@.len() == 32,
            forall|j: int| 0 <= j < i ==> eph@[j] == packet@[j],
    {
        eph[i] = packet[i];
    }
    let mut nonce = [0u8; 12];
    for i in 0..NONCE_LEN
        invariant
            packet@.len() >= 45,
            nonce@.len() == 12,
            forall|j: int| 0 <= j < i ==> nonce@[j] == packet@[j + 32],
    {
        nonce[i] = packet[i + KEY_LEN];
    }
    let sealed = slice_subrange(packet, KEY_LEN + NONCE_LEN, packet.len());
    proof {
        assert(eph@ =~= packet@.take(32));
        assert(nonce@ =~= packet@.subrange(32, 44));
        assert(sealed@ =~= packet@.skip(44));
    }
    let shared = crypto::shared_secret(secret, eph);
    let key = match crypto::derive_key(shared.as_slice(), "horus-onion-v1".as_bytes()) {
        Ok(key) => key,
        Err(_) => return Err(RelayError::BadOnion),
    };
    match crypto::open_sealed(key, nonce, sealed) {
        Ok(plain) => Ok(plain),
        Err(_) => Err(RelayError::BadOnion),
    }
}

/// Reads off where a layer sends what.
pub fn unpack_layer(layer: Option<OnionLayer>) -> (r: Result<(String, Vec<u8>), RelayError>)
    ensures
        match r {
            Ok((queue, body)) => destination(layer) == Some((queue@, body@)),
            Err(e) => e == RelayError::BadOnion && destination(layer) is None,
        },
{
    match layer {
        None => Err(RelayError::BadOnion),
        Some(l) => match crypto::decode_base64(l.body_b64.as_str()) {
            Ok(body) => Ok((l.next_queue, body)),
            Err(_) => Err(RelayError::BadOnion),
        },
    }
}

} // verus!
