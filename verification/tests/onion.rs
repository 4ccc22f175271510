use base64::engine::general_purpose::STANDARD;
use base64::Engine;
use chacha20poly1305::aead::{Aead, KeyInit};
use chacha20poly1305::{ChaCha20Poly1305, Nonce};
use hkdf::Hkdf;
use horus_dev_relay::onion::{open_onion, unpack_layer};
use horus_dev_relay::{millis, relay_secret, OnionLayer, Relay, RelayError};
use rand::RngCore;
use sha2::Sha256;
use x25519_dalek::{PublicKey, StaticSecret};

fn seal(plain: &[u8]) -> Vec<u8> {
    let mut sk_bytes = [0u8; 32];
    rand::thread_rng().fill_bytes(&mut sk_bytes);
    let eph = StaticSecret::from(sk_bytes);
    let eph_pub = PublicKey::from(&eph);
    let shared = eph.diffie_hellman(&PublicKey::from(&StaticSecret::from(relay_secret())));
    let hk = Hkdf::<Sha256>::new(None, shared.as_bytes());
    let mut key = [0u8; 32];
    hk.expand(b"horus-onion-v1", &mut key).unwrap();
    let cipher = ChaCha20Poly1305::new((&key).into());
    let mut nonce = [0u8; 12];
    rand::thread_rng().fill_bytes(&mut nonce);
    let ct = cipher.encrypt(Nonce::from_slice(&nonce), plain).unwrap();
    let mut packet = Vec::new();
    packet.extend_from_slice(eph_pub.as_bytes());
    packet.extend_from_slice(&nonce);
    packet.extend_from_slice(&ct);
    packet
}

fn read(plain: &[u8]) -> Option<OnionLayer> {
    let v: serde_json::Value = serde_json::from_slice(plain).ok()?;
    Some(OnionLayer {
        next_queue: v.get("next_queue")?.as_str()?.to_string(),
        body_b64: v.get("body_b64")?.as_str()?.to_string(),
    })
}

fn layer(next_queue: &str, body: &[u8]) -> Vec<u8> {
    let mut map = serde_json::Map::new();
    map.insert("next_queue".to_string(), serde_json::Value::from(next_queue));
    map.insert("body_b64".to_string(), serde_json::Value::from(STANDARD.encode(body)));
    serde_json::Value::Object(map).to_string().into_bytes()
}

#[test]
fn onion_forward() {
    let packet = seal(&layer("final", b"payload"));

    let mut relay = Relay::new(millis(30));
    assert_eq!(relay.forward_onion(&packet, read, |_| true).unwrap(), "final");
    let (id, body) = relay.poll("final").unwrap();
    assert_eq!(body, b"payload");
    assert!(relay.ack(&id));
}

#[test]
fn layer_opens_to_what_was_sealed() {
    assert_eq!(open_onion(relay_secret(), &seal(b"plain text")), Ok(b"plain text".to_vec()));
    assert_eq!(open_onion([41u8; 32], &seal(b"plain text")), Err(RelayError::BadOnion));
}

#[test]
fn damaged_packets_are_bad_onions() {
    let packet = seal(&layer("final", b"payload"));
    for i in [0usize, 33, packet.len() - 1] {
        let mut bent = packet.clone();
        bent[i] ^= 1;
        assert_eq!(open_onion(relay_secret(), &bent), Err(RelayError::BadOnion));
    }
    assert_eq!(open_onion(relay_secret(), &packet[..44]), Err(RelayError::BadOnion));
    assert_eq!(open_onion(relay_secret(), &packet[..45]), Err(RelayError::BadOnion));
    assert_eq!(open_onion(relay_secret(), &[]), Err(RelayError::BadOnion));
}

#[test]
fn refused_onions_leave_no_trace() {
    let mut relay = Relay::new(millis(30));
    let forward = |relay: &mut Relay, packet: &[u8], allowed: bool| {
        relay.forward_onion(packet, read, |key| {
            assert_eq!(key, "final");
            allowed
        })
    };
    let no_json = seal(b"not json");
    assert_eq!(forward(&mut relay, &no_json, true), Err(RelayError::BadOnion));
    let no_base64 = seal(b"{\"next_queue\":\"final\",\"body_b64\":\"***\"}");
    assert_eq!(forward(&mut relay, &no_base64, true), Err(RelayError::BadOnion));
    let blank = seal(&layer("  ", b"payload"));
    assert_eq!(forward(&mut relay, &blank, true), Err(RelayError::EmptyQueue));
    let empty = seal(&layer("final", b""));
    assert_eq!(forward(&mut relay, &empty, true), Err(RelayError::EmptyBody));
    let good = seal(&layer("final", b"payload"));
    assert_eq!(forward(&mut relay, &good, false), Err(RelayError::RateLimited));
    assert_eq!(relay.len("final"), 0);
}

#[test]
fn layers_unpack_from_base64() {
    let layer = |b: &str| {
        Some(OnionLayer { next_queue: "n".to_string(), body_b64: b.to_string() })
    };
    assert_eq!(unpack_layer(layer("cGF5bG9hZA==")), Ok(("n".to_string(), b"payload".to_vec())));
    assert_eq!(unpack_layer(layer("cGF5bG9hZA")), Err(RelayError::BadOnion));
    assert_eq!(unpack_layer(None), Err(RelayError::BadOnion));

    let mut relay = Relay::new(100);
    assert_eq!(relay.forward_layer_at(layer("cGF5bG9hZA=="), true, 7), Ok("n".to_string()));
    assert_eq!(relay.forward_layer_at(layer("!"), true, 7), Err(RelayError::BadOnion));
    assert_eq!(relay.poll_at("n", 8).unwrap().1, b"payload");
}
