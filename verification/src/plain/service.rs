//! The relay's operations and the server's in plain terms.
use crate::clock;
use crate::crypto;
use crate::digits;
use crate::http::{self, Deed, Question};
use crate::onion::{self, OnionLayer};
use crate::relay::{self, ClaimError, RegistryError, RelayError};
use crate::reply::{self, ClaimBody};
use crate::server::{self, Served};
use crate::state::{Grant, Message, State};
use crate::text;
use vstd::prelude::*;
use vstd::utf8::encode_utf8;

verus! {

/// The limits and spans that the relay goes by.
pub proof fn law_limits()
    ensures
        relay::MAX_BODY == 262144,
        relay::DEFAULT_LEASE_MS == 300000,
        relay::SEND_WINDOW_SECS == 60,
        relay::SEND_LIMIT == 120,
        relay::CLAIM_WINDOW_SECS == 3600,
        relay::CLAIM_LIMIT == 5,
        http::MAX_HEAD == 1048576,
        onion::KEY_LEN == 32,
        onion::NONCE_LEN == 12,
{
}

/// Whether a message is refused, and why: the name is blank, the body is empty,
/// the body is longer than a quarter of a mebibyte, or the limiter says no. The
/// first reason in this order counts. Everything else is taken.
pub proof fn law_refusals(queue: Seq<char>, len: nat, allowed: bool)
    ensures
        ({
            let blank = forall|i: int| 0 <= i < queue.len() ==> text::is_white(#[trigger] queue[i]);
            let r = relay::refusal(queue, len, allowed);
            &&& blank ==> r == Some(RelayError::EmptyQueue)
            &&& !blank && len == 0 ==> r == Some(RelayError::EmptyBody)
            &&& !blank && len > 262144 ==> r == Some(RelayError::PayloadTooLarge)
            &&& !blank && 0 < len <= 262144 && !allowed ==> r == Some(RelayError::RateLimited)
            &&& !blank && 0 < len <= 262144 && allowed ==> r is None
        }),
{
}

/// Numbers as bytes, most significant first.
pub proof fn law_big_endian(x: u64)
    ensures
        relay::be_bytes(x).len() == 8,
        relay::be_bytes(x)[0] == x / 0x100_0000_0000_0000 % 0x100,
        relay::be_bytes(x)[1] == x / 0x1_0000_0000_0000 % 0x100,
        relay::be_bytes(x)[2] == x / 0x100_0000_0000 % 0x100,
        relay::be_bytes(x)[3] == x / 0x1_0000_0000 % 0x100,
        relay::be_bytes(x)[4] == x / 0x100_0000 % 0x100,
        relay::be_bytes(x)[5] == x / 0x1_0000 % 0x100,
        relay::be_bytes(x)[6] == x / 0x100 % 0x100,
        relay::be_bytes(x)[7] == x % 0x100,
{
    assert(((x >> 56) & 0xff) as u8 == x / 0x100_0000_0000_0000 % 0x100) by (bit_vector);
    assert(((x >> 48) & 0xff) as u8 == x / 0x1_0000_0000_0000 % 0x100) by (bit_vector);
    assert(((x >> 40) & 0xff) as u8 == x / 0x100_0000_0000 % 0x100) by (bit_vector);
    assert(((x >> 32) & 0xff) as u8 == x / 0x1_0000_0000 % 0x100) by (bit_vector);
    assert(((x >> 24) & 0xff) as u8 == x / 0x100_0000 % 0x100) by (bit_vector);
    assert(((x >> 16) & 0xff) as u8 == x / 0x1_0000 % 0x100) by (bit_vector);
    assert(((x >> 8) & 0xff) as u8 == x / 0x100 % 0x100) by (bit_vector);
    assert(((x >> 0) & 0xff) as u8 == x % 0x100) by (bit_vector);
}

/// A lease is to go by the digest, in hexadecimal, of queue name, body and time,
/// each whole, with a bar between them.
pub proof fn law_lease_ids_are_digests(queue: Seq<char>, body: Seq<u8>, now: u64)
    ensures
        relay::lease_id_of(queue, body, now) == digits::hex(
            crypto::sha256(
                encode_utf8(queue) + seq![0x7cu8] + body + seq![0x7cu8] + relay::be_bytes(now),
            ),
        ),
{
}

/// A send. What is refused leaves the relay as it was. What is taken stands, whole,
/// behind everything else in exactly the named queue, with its full time to live,
/// and nothing else has changed beside clearing out.
pub proof fn law_sends(
    before: State,
    queue: Seq<char>,
    body: Seq<u8>,
    allowed: bool,
    now: u64,
    after: State,
    r: Result<(), RelayError>,
)
    requires
        relay::sends(before, queue, body, allowed, now, after, r),
    ensures
        ({
            let blank = forall|i: int| 0 <= i < queue.len() ==> text::is_white(#[trigger] queue[i]);
            let m = after.messages(queue).last();
            &&& r is Ok <==> !blank && 0 < body.len() <= 262144 && allowed
            &&& r is Err ==> after == before && Some(r->Err_0) == relay::refusal(
                queue,
                body.len(),
                allowed,
            )
            &&& r is Ok ==> {
                &&& after.messages(queue) == before.pruned(now).messages(queue).push(m)
                &&& m.body == body
                &&& now + before.ttl_ms <= u64::MAX ==> m.expires_unix_ms == now + before.ttl_ms
                &&& forall|q: Seq<char>|
                    q != queue ==> #[trigger] after.messages(q) == before.pruned(now).messages(q)
                &&& after.leases == before.pruned(now).leases
                &&& after.ttl_ms == before.ttl_ms
                &&& after.lease_ms == before.lease_ms
            }
        }),
{
    law_refusals(queue, body.len(), allowed);
    super::model::law_sent_messages_live_their_time(before, queue, body, now, now);
}

/// A message that is taken is kept until its time to live is over, and not from
/// then on: every clearing out before the sum of sending time and time to live
/// leaves it at the end of its queue, and none from then on leaves it at all.
pub proof fn law_messages_live_as_long_as_they_should(
    before: State,
    queue: Seq<char>,
    body: Seq<u8>,
    sent_at: u64,
    after: State,
    later: u64,
)
    requires
        relay::sends(before, queue, body, true, sent_at, after, Ok(())),
        sent_at + before.ttl_ms <= u64::MAX,
    ensures
        later < sent_at + before.ttl_ms ==> {
            &&& after.pruned(later).messages(queue).len() > 0
            &&& after.pruned(later).messages(queue).last() == (Message {
                body,
                expires_unix_ms: (sent_at + before.ttl_ms) as u64,
            })
        },
        later >= sent_at + before.ttl_ms ==> forall|i: int|
            0 <= i < after.pruned(later).messages(queue).len() ==> #[trigger] after.pruned(
                later,
            ).messages(queue)[i] != (Message {
                body,
                expires_unix_ms: (sent_at + before.ttl_ms) as u64,
            }),
{
    super::model::law_sent_messages_live_their_time(before, queue, body, sent_at, later);
    crate::laws::law_nothing_expired_stays(after, later);
}

/// A poll. Where nothing live waits it finds nothing and only clears out. Else it
/// hands out the first message, whole, under an id that no lease had, and leases
/// it for the full lease time; the rest of the queue, all other queues and all
/// earlier leases stay.
pub proof fn law_polls(
    before: State,
    queue: Seq<char>,
    now: u64,
    after: State,
    r: Option<(String, Vec<u8>)>,
)
    requires
        relay::polls(before, queue, now, after, r),
    ensures
        ({
            let p = before.pruned(now);
            let g = after.leases.last();
            &&& r is None <==> p.messages(queue).len() == 0
            &&& r is None ==> after == p
            &&& r is Some ==> {
                &&& r->Some_0.1@ == p.messages(queue)[0].body
                &&& p.messages(queue) == seq![g.msg] + after.messages(queue)
                &&& after.leases == p.leases.push(g)
                &&& g.id == r->Some_0.0@
                &&& g.queue == queue
                &&& now + before.lease_ms <= u64::MAX ==> g.lease_until_ms == now + before.lease_ms
                &&& forall|i: int| 0 <= i < p.leases.len() ==> (#[trigger] p.leases[i]).id != g.id
                &&& (forall|i: int|
                    0 <= i < p.leases.len() ==> (#[trigger] p.leases[i]).id != relay::lease_id_of(
                        queue,
                        r->Some_0.1@,
                        now,
                    )) ==> g.id == relay::lease_id_of(queue, r->Some_0.1@, now)
                &&& forall|q: Seq<char>|
                    q != queue ==> #[trigger] after.messages(q) == p.messages(q)
                &&& after.ttl_ms == before.ttl_ms
                &&& after.lease_ms == before.lease_ms
            }
        }),
{
    let p = before.pruned(now);
    if r is Some {
        super::model::law_leases_run_their_time(p, queue, r->Some_0.0@, now);
        assert forall|i: int| 0 <= i < p.leases.len() implies (#[trigger] p.leases[i]).id
            != r->Some_0.0@ by {}
    }
}

/// A confirmation says whether a lease goes by exactly this id, drops it, and
/// touches nothing else.
pub proof fn law_acks(before: State, id: Seq<char>, now: u64, after: State, known: bool)
    requires
        relay::acks(before, id, now, after, known),
    ensures
        ({
            let p = before.pruned(now);
            &&& known <==> exists|i: int| 0 <= i < p.leases.len() && (#[trigger] p.leases[i]).id == id
            &&& after.leases == p.leases.filter(|g: Grant| g.id != id)
            &&& after.queues == p.queues
            &&& after.ttl_ms == before.ttl_ms
            &&& after.lease_ms == before.lease_ms
        }),
{
}

/// The relay's key and what it derives keys with.
pub proof fn law_relay_key(i: int)
    requires
        0 <= i < 32,
    ensures
        onion::secret_key().len() == 32,
        onion::secret_key()[i] == 42,
        onion::key_info() == encode_utf8("horus-onion-v1"@),
{
}

/// An onion is a public key of 32 bytes, a nonce of 12 and at least one sealed
/// byte, of any number. It opens to what the cipher opens the sealed part to,
/// whole, under the key derived from what the two keys share. Anything shorter
/// does not open.
pub proof fn law_onions_open(
    secret: Seq<u8>,
    public: Seq<u8>,
    nonce: Seq<u8>,
    sealed: Seq<u8>,
    short: Seq<u8>,
)
    requires
        public.len() == 32,
        nonce.len() == 12,
        sealed.len() > 0,
        short.len() < 45,
    ensures
        onion::opened(secret, public + nonce + sealed) == crypto::chacha20poly1305_open(
            crypto::hkdf_sha256(
                crypto::x25519(secret, public),
                encode_utf8("horus-onion-v1"@),
            ),
            nonce,
            sealed,
        ),
        onion::opened(secret, short) is None,
{
    let packet = public + nonce + sealed;
    assert(packet.take(32) =~= public);
    assert(packet.subrange(32, 44) =~= nonce);
    assert(packet.skip(44) =~= sealed);
}

/// A layer goes to the queue it names, character for character, with what its
/// text decodes to, byte for byte. A layer that could not be read or decoded goes
/// nowhere.
pub proof fn law_layers_go_where_they_say(l: OnionLayer)
    ensures
        onion::destination(None) is None,
        crypto::base64_standard(l.body_b64@) is None ==> onion::destination(Some(l)) is None,
        crypto::base64_standard(l.body_b64@) is Some ==> onion::destination(Some(l)) == Some(
            (l.next_queue@, crypto::base64_standard(l.body_b64@)->Some_0),
        ),
{
}

/// Forwarding a read layer at a given time: it succeeds exactly if what it holds
/// can be decoded and sent, answers exactly the name that the layer gives, and
/// sends exactly what the layer holds to exactly that queue.
pub proof fn law_forwards(
    before: State,
    l: OnionLayer,
    allowed: bool,
    now: u64,
    after: State,
    r: Result<String, RelayError>,
)
    requires
        relay::forwards(before, Some(l), allowed, now, after, r),
    ensures
        match crypto::base64_standard(l.body_b64@) {
            None => r == Err::<String, RelayError>(RelayError::BadOnion) && after == before,
            Some(b) => match relay::refusal(l.next_queue@, b.len(), allowed) {
                Some(e) => r == Err::<String, RelayError>(e) && after == before,
                None => {
                    &&& r is Ok
                    &&& r->Ok_0@ == l.next_queue@
                    &&& after == before.sent(l.next_queue@, b, now)
                    &&& after.messages(l.next_queue@) == before.pruned(now).messages(
                        l.next_queue@,
                    ).push(after.messages(l.next_queue@).last())
                    &&& after.messages(l.next_queue@).last().body == b
                },
            },
        },
{
    if let Some(b) = crypto::base64_standard(l.body_b64@) {
        super::model::law_sent_messages_live_their_time(before, l.next_queue@, b, now, now);
    }
}

/// A layer that could not be read is a bad onion and leaves no trace.
pub proof fn law_unread_layers_are_bad(
    before: State,
    allowed: bool,
    now: u64,
    after: State,
    r: Result<String, RelayError>,
)
    requires
        relay::forwards(before, None, allowed, now, after, r),
    ensures
        r == Err::<String, RelayError>(RelayError::BadOnion),
        after == before,
{
}

/// The limiter is asked about exactly the name in question.
pub proof fn law_limiter_is_asked_by_name<F: FnOnce(&str) -> bool>(
    limiter: F,
    key: Seq<char>,
    allowed: bool,
)
    requires
        relay::rules(limiter, key, allowed),
    ensures
        exists|k: &str| k@ == key && #[trigger] limiter.ensures((k,), allowed),
{
}

/// The reader is handed exactly the opened bytes.
pub proof fn law_reader_is_handed_the_bytes<R: FnOnce(&[u8]) -> Option<OnionLayer>>(
    reader: R,
    plain: Seq<u8>,
    layer: Option<OnionLayer>,
)
    requires
        relay::reads(reader, plain, layer),
    ensures
        exists|p: &[u8]| p@ == plain && #[trigger] reader.ensures((p,), layer),
{
}

/// A send by the clock. A message that is bad in itself is refused for that, and
/// leaves no trace. Else the limiter's word on exactly this queue decides: with it
/// the message is sent at a time that the clock tells, without it it is refused
/// and leaves no trace.
pub proof fn law_sends_by_the_clock<F: FnOnce(&str) -> bool>(
    before: State,
    queue: Seq<char>,
    body: Seq<u8>,
    limiter: F,
    after: State,
    r: Result<(), RelayError>,
)
    requires
        relay::send_outcome(before, queue, body, limiter, after, r),
    ensures
        ({
            let blank = forall|i: int| 0 <= i < queue.len() ==> text::is_white(#[trigger] queue[i]);
            &&& blank ==> r == Err::<(), RelayError>(RelayError::EmptyQueue)
            &&& !blank && body.len() == 0 ==> r == Err::<(), RelayError>(RelayError::EmptyBody)
            &&& !blank && body.len() > 262144 ==> r == Err::<(), RelayError>(
                RelayError::PayloadTooLarge,
            )
            &&& r is Err ==> after == before
            &&& !blank && 0 < body.len() <= 262144 && r is Err ==> r->Err_0
                == RelayError::RateLimited && exists|k: &str|
                k@ == queue && #[trigger] limiter.ensures((k,), false)
            &&& r is Ok ==> (exists|k: &str| k@ == queue && #[trigger] limiter.ensures((k,), true))
                && exists|now: u64| clock::told(now) && after == #[trigger] before.sent(
                queue,
                body,
                now,
            )
        }),
{
    law_refusals(queue, body.len(), true);
    if relay::refusal(queue, body.len(), true) is None {
        let (allowed, now) = choose|allowed: bool, now: u64| #[trigger]
            relay::sends(before, queue, body, allowed, now, after, r) && relay::rules(
                limiter,
                queue,
                allowed,
            ) && clock::told(now);
        law_refusals(queue, body.len(), allowed);
        law_limiter_is_asked_by_name(limiter, queue, allowed);
    }
}

/// Forwarding a read layer by the clock. Where it succeeds, the answer is the
/// layer's own `next_queue`, character for character, and what the layer's text
/// decodes to was sent, whole, to exactly that queue, at a time that the clock
/// tells and with the limiter's word on exactly that queue. Where it fails, the
/// relay is as it was.
pub proof fn law_forwards_by_the_clock<F: FnOnce(&str) -> bool>(
    before: State,
    l: OnionLayer,
    limiter: F,
    after: State,
    r: Result<String, RelayError>,
)
    requires
        relay::layer_outcome(before, Some(l), limiter, after, r),
    ensures
        ({
            let decoded = crypto::base64_standard(l.body_b64@);
            &&& decoded is None ==> r == Err::<String, RelayError>(RelayError::BadOnion)
            &&& r is Err ==> after == before
            &&& decoded is Some && r is Err ==> r->Err_0 == RelayError::RateLimited
                && (exists|k: &str|
                k@ == l.next_queue@ && #[trigger] limiter.ensures((k,), false)) || relay::refusal(
                l.next_queue@,
                decoded->Some_0.len(),
                true,
            ) == Some(r->Err_0)
            &&& r is Ok ==> {
                &&& decoded is Some
                &&& r->Ok_0@ == l.next_queue@
                &&& exists|k: &str|
                    k@ == l.next_queue@ && #[trigger] limiter.ensures((k,), true)
                &&& exists|now: u64|
                    clock::told(now) && after == #[trigger] before.sent(
                        l.next_queue@,
                        decoded->Some_0,
                        now,
                    )
            }
        }),
{
    if let Some(b) = crypto::base64_standard(l.body_b64@) {
        law_layers_go_where_they_say(l);
        law_refusals(l.next_queue@, b.len(), true);
        match r {
            Ok(_) => {
                law_sends_by_the_clock(before, l.next_queue@, b, limiter, after, Ok(()));
            },
            Err(e) => {
                law_sends_by_the_clock(before, l.next_queue@, b, limiter, after, Err(e));
            },
        }
    }
}

/// Forwarding an onion by the clock. One that does not open, or that opens to
/// what the reader cannot read, is a bad onion and leaves no trace. Else what the
/// reader made of exactly the opened bytes is forwarded.
pub proof fn law_onions_are_forwarded<
    R: FnOnce(&[u8]) -> Option<OnionLayer>,
    F: FnOnce(&str) -> bool,
>(
    before: State,
    packet: Seq<u8>,
    reader: R,
    limiter: F,
    after: State,
    r: Result<String, RelayError>,
)
    requires
        relay::forward_outcome(before, packet, reader, limiter, after, r),
    ensures
        match onion::opened(onion::secret_key(), packet) {
            None => r == Err::<String, RelayError>(RelayError::BadOnion) && after == before,
            Some(plain) => exists|p: &[u8], layer: Option<OnionLayer>|
                {
                    &&& p@ == plain
                    &&& #[trigger] reader.ensures((p,), layer)
                    &&& layer is None ==> r == Err::<String, RelayError>(RelayError::BadOnion)
                        && after == before
                    &&& layer is Some ==> relay::layer_outcome(before, layer, limiter, after, r)
                    &&& layer is Some && r is Ok ==> r->Ok_0@ == layer->Some_0.next_queue@
                },
        },
{
    if let Some(plain) = onion::opened(onion::secret_key(), packet) {
        let layer = choose|layer: Option<OnionLayer>| #[trigger]
            relay::reads(reader, plain, layer) && relay::layer_outcome(
                before,
                layer,
                limiter,
                after,
                r,
            );
        law_reader_is_handed_the_bytes(reader, plain, layer);
        let p = choose|p: &[u8]| p@ == plain && #[trigger] reader.ensures((p,), layer);
        assert(reader.ensures((p,), layer));
        if let Some(l) = layer {
            law_forwards_by_the_clock(before, l, limiter, after, r);
        }
    }
}

/// Claims are counted under the name's nullifier, as it is, or under the marked
/// name where there is none.
pub proof fn law_claims_are_counted_by_name(n: String, username: Seq<char>)
    ensures
        relay::claim_key_of(Some(n), username) == n@,
        relay::claim_key_of(None, username) == "bad:"@ + username,
{
}

/// A claim. It succeeds only with the limiter's word on the claim's key and the
/// registry's on exactly the name, salt, findability and contact that were given.
/// The registry's refusals are passed on as they are, and a limiter that says no
/// is the only reason to be told so.
pub proof fn law_claims<
    N: FnOnce(&str) -> Option<String>,
    F: FnOnce(&str) -> bool,
    G: FnOnce(&str, &[u8], bool, Option<&str>) -> Result<(), RegistryError>,
>(
    username: &str,
    salt: &[u8],
    findable: bool,
    contact: Option<&str>,
    nullifier: N,
    limiter: F,
    registry: G,
    r: Result<(), ClaimError>,
)
    requires
        relay::claim_outcome(
            username,
            salt,
            findable,
            contact,
            nullifier,
            limiter,
            registry,
            r,
        ),
    ensures
        exists|n: Option<String>, k: &str, allowed: bool|
            {
                &&& #[trigger] nullifier.ensures((username,), n)
                &&& n is Some ==> k@ == n->Some_0@
                &&& n is None ==> k@ == "bad:"@ + username@
                &&& #[trigger] limiter.ensures((k,), allowed)
                &&& allowed <==> r != Err::<(), ClaimError>(ClaimError::RateLimited)
            },
        r is Ok ==> registry.ensures((username, salt, findable, contact), Ok(())),
        forall|e: RegistryError|
            r == Err::<(), ClaimError>(ClaimError::Registry(e)) ==> #[trigger] registry.ensures(
                (username, salt, findable, contact),
                Err(e),
            ),
{
    let (n, allowed) = choose|n: Option<String>, allowed: bool|
        {
            &&& #[trigger] nullifier.ensures((username,), n)
            &&& #[trigger] relay::rules(limiter, relay::claim_key_of(n, username@), allowed)
            &&& if allowed {
                exists|outcome: Result<(), RegistryError>| #[trigger]
                    registry.ensures((username, salt, findable, contact), outcome) && r
                        == relay::claim_result(outcome)
            } else {
                r == Err::<(), ClaimError>(ClaimError::RateLimited)
            }
        };
    law_limiter_is_asked_by_name(limiter, relay::claim_key_of(n, username@), allowed);
    let k = choose|k: &str|
        k@ == relay::claim_key_of(n, username@) && #[trigger] limiter.ensures((k,), allowed);
    assert(allowed == (r != Err::<(), ClaimError>(ClaimError::RateLimited)));
    if allowed {
        let outcome = choose|outcome: Result<(), RegistryError>| #[trigger]
            registry.ensures((username, salt, findable, contact), outcome) && r
                == relay::claim_result(outcome);
        if r is Ok {
            assert(outcome->Ok_0 == ());
            assert(outcome == Ok::<(), RegistryError>(()));
        }
    }
}

/// Nobody needs to be there to be asked in vain: a message that is bad in itself
/// does not reach the limiter, an onion that does not open does not reach the
/// reader, and a claim that cannot be read or decoded reaches nobody.
pub proof fn law_nobody_is_asked_in_vain<
    R: FnOnce(&[u8]) -> Option<OnionLayer>,
    N: FnOnce(&str) -> Option<String>,
    F: FnOnce(&str) -> bool,
    G: FnOnce(&str, &[u8], bool, Option<&str>) -> Result<(), RegistryError>,
>(
    queue: Seq<char>,
    body: Seq<u8>,
    packet: Seq<u8>,
    name: &str,
    c: ClaimBody,
    reader: R,
    nullifier: N,
    limiter: F,
    registry: G,
)
    ensures
        (forall|i: int| 0 <= i < queue.len() ==> text::is_white(#[trigger] queue[i])) || body.len()
            == 0 || body.len() > 262144 ==> relay::send_ready(queue, body.len(), limiter)
            && server::serve_ready(Deed::Send(queue, body), reader, limiter),
        onion::opened(onion::secret_key(), packet) is None ==> relay::forward_ready(
            packet,
            reader,
            limiter,
        ) && server::serve_ready(Deed::Forward(packet), reader, limiter),
        server::serve_ready(Deed::Poll(queue), reader, limiter),
        server::serve_ready(Deed::Ack(queue), reader, limiter),
        server::serve_claim_ready(name, None, nullifier, limiter, registry),
        crypto::base64_standard(text::trim(c.salt_b64@)) is None ==> server::serve_claim_ready(
            name,
            Some(c),
            nullifier,
            limiter,
            registry,
        ),
{
    law_refusals(queue, body.len(), true);
}

/// What is asked in order is asked only then: the limiter only about the queue a
/// good message is for, and the registry only after the limiter allowed the claim
/// under its key.
pub proof fn law_questions_are_asked_in_order<
    N: FnOnce(&str) -> Option<String>,
    F: FnOnce(&str) -> bool,
    G: FnOnce(&str, &[u8], bool, Option<&str>) -> Result<(), RegistryError>,
>(
    queue: Seq<char>,
    len: nat,
    username: &str,
    salt: &[u8],
    findable: bool,
    contact: Option<&str>,
    nullifier: N,
    limiter: F,
    registry: G,
)
    ensures
        (forall|k: &str| k@ == queue ==> #[trigger] limiter.requires((k,))) ==> relay::send_ready(
            queue,
            len,
            limiter,
        ),
        ({
            let key = |n: Option<String>|
                match n {
                    Some(s) => s@,
                    None => "bad:"@ + username@,
                };
            &&& nullifier.requires((username,))
            &&& forall|n: Option<String>, k: &str|
                #![trigger nullifier.ensures((username,), n), limiter.requires((k,))]
                nullifier.ensures((username,), n) && k@ == key(n) ==> limiter.requires((k,))
            &&& forall|n: Option<String>, k: &str|
                #![trigger nullifier.ensures((username,), n), limiter.ensures((k,), true)]
                nullifier.ensures((username,), n) && k@ == key(n) && limiter.ensures((k,), true)
                    ==> registry.requires((username, salt, findable, contact))
        }) ==> relay::claim_ready(
            username,
            salt,
            findable,
            contact,
            nullifier,
            limiter,
            registry,
        ),
{
}

/// Forwarding asks in order too: the reader only about what the packet opens to,
/// and the limiter only about the queue of a layer that was read, decodes, and
/// holds a good message.
pub proof fn law_onions_ask_in_order<
    R: FnOnce(&[u8]) -> Option<OnionLayer>,
    F: FnOnce(&str) -> bool,
>(packet: Seq<u8>, reader: R, limiter: F)
    requires
        forall|p: &[u8]|
            Some(p@) == onion::opened(onion::secret_key(), packet) ==> #[trigger] reader.requires(
                (p,),
            ),
        forall|p: &[u8], l: OnionLayer, k: &str|
            #![trigger reader.ensures((p,), Some(l)), limiter.requires((k,))]
            {
                &&& Some(p@) == onion::opened(onion::secret_key(), packet)
                &&& reader.ensures((p,), Some(l))
                &&& crypto::base64_standard(l.body_b64@) is Some
                &&& 0 < crypto::base64_standard(l.body_b64@)->Some_0.len() <= 262144
                &&& k@ == l.next_queue@
                &&& exists|i: int| 0 <= i < k@.len() && !text::is_white(#[trigger] k@[i])
            } ==> limiter.requires((k,)),
    ensures
        relay::forward_ready(packet, reader, limiter),
        server::serve_ready(Deed::Forward(packet), reader, limiter),
{
    if let Some(plain) = onion::opened(onion::secret_key(), packet) {
        assert forall|layer: Option<OnionLayer>| #[trigger]
            relay::reads(reader, plain, layer) implies relay::layer_ready(layer, limiter) by {
            let p = choose|p: &[u8]| p@ == plain && #[trigger] reader.ensures((p,), layer);
            if let Some(l) = layer {
                if let Some(b) = crypto::base64_standard(l.body_b64@) {
                    law_refusals(l.next_queue@, b.len(), true);
                    assert(relay::send_ready(l.next_queue@, b.len(), limiter)) by {
                        assert forall|k: &str|
                            k@ == l.next_queue@ && relay::refusal(l.next_queue@, b.len(), true)
                                is None implies #[trigger] limiter.requires((k,)) by {
                            assert(reader.ensures((p,), Some(l)));
                        }
                    }
                }
            }
        }
    }
}

/// A lookup asks for nothing but the registry's word on its own name.
pub proof fn law_lookups_ask_about_their_name<
    R: FnOnce(&str) -> Option<ClaimBody>,
    N: FnOnce(&str) -> Option<String>,
    F: FnOnce(&str) -> bool,
    G: FnOnce(&str, &[u8], bool, Option<&str>) -> Result<(), RegistryError>,
    T: FnOnce(&str) -> bool,
    C: FnOnce(&str) -> Option<String>,
>(
    name: Seq<char>,
    read: R,
    nullifier: N,
    limiter: F,
    registry: G,
    taken: T,
    resolve: C,
)
    ensures
        (forall|n: &str| n@ == name ==> #[trigger] taken.requires((n,))) ==> server::inquiry_ready(
            Question::Taken(name),
            read,
            nullifier,
            limiter,
            registry,
            taken,
            resolve,
        ),
        (forall|n: &str| n@ == name ==> #[trigger] resolve.requires((n,)))
            ==> server::inquiry_ready(
            Question::Resolve(name),
            read,
            nullifier,
            limiter,
            registry,
            taken,
            resolve,
        ),
{
}

/// Serving a message: it is told as taken exactly if it was sent whole to exactly
/// its queue, and as refused exactly if nothing happened.
pub proof fn law_serving_a_message<F: FnOnce(&str) -> bool>(
    before: State,
    queue: Seq<char>,
    body: Seq<u8>,
    limiter: F,
    after: State,
    s: Served,
)
    requires
        server::serves_send(before, queue, body, limiter, after, s),
    ensures
        ({
            let blank = forall|i: int| 0 <= i < queue.len() ==> text::is_white(#[trigger] queue[i]);
            &&& s.reply.lease is None
            &&& s.reply.code == 202 || s.reply.code == 400
            &&& s.changed <==> s.reply.code == 202
            &&& blank || body.len() == 0 || body.len() > 262144 ==> s.reply.code == 400
            &&& s.reply.code == 202 ==> s.reply.body@ == encode_utf8("queued"@) && (exists|k: &str|
                k@ == queue && #[trigger] limiter.ensures((k,), true)) && exists|now: u64|
                clock::told(now) && after == #[trigger] before.sent(queue, body, now)
            &&& s.reply.code == 400 ==> s.reply.body@ == encode_utf8("bad queue"@) && after == before
            &&& s.reply.code == 400 && !blank && 0 < body.len() <= 262144 ==> exists|k: &str|
                k@ == queue && #[trigger] limiter.ensures((k,), false)
        }),
{
    let r = choose|r: Result<(), RelayError>|
        {
            &&& #[trigger] relay::send_outcome(before, queue, body, limiter, after, r)
            &&& s.reply@ == reply::send_answer(r)
            &&& s.changed == (r is Ok)
        };
    law_sends_by_the_clock(before, queue, body, limiter, after, r);
    lemma_reply_fields(s);
}

/// A reply's fields are its meaning's.
proof fn lemma_reply_fields(s: Served)
    ensures
        s.reply.code == s.reply@.code,
        s.reply.body@ == s.reply@.body,
        s.reply.lease is None <==> s.reply@.lease is None,
        s.reply.lease is Some ==> s.reply@.lease == Some(s.reply.lease->Some_0@),
{
}

/// Serving a poll: where nothing waits the answer is empty and nothing is leased.
/// Else the answer is the first message of the cleared-out queue, all its bytes
/// and nothing else, with the id under which exactly that message is now leased.
pub proof fn law_serving_a_poll(before: State, queue: Seq<char>, after: State, s: Served)
    requires
        server::serves_poll(before, queue, after, s),
    ensures
        exists|now: u64|
            {
                let p = #[trigger] before.pruned(now);
                let g = after.leases.last();
                &&& clock::told(now)
                &&& p.messages(queue).len() == 0 ==> {
                    &&& s.reply.code == 204
                    &&& s.reply.body@.len() == 0
                    &&& s.reply.lease is None
                    &&& !s.changed
                    &&& after == p
                }
                &&& p.messages(queue).len() > 0 ==> {
                    &&& s.reply.code == 200
                    &&& s.reply.body@ == p.messages(queue)[0].body
                    &&& s.reply.lease is Some
                    &&& s.reply.lease->Some_0@ == g.id
                    &&& s.changed
                    &&& after.leases == p.leases.push(g)
                    &&& g.queue == queue
                    &&& g.msg == p.messages(queue)[0]
                    &&& p.messages(queue) == seq![g.msg] + after.messages(queue)
                }
            },
{
    let (now, r) = choose|now: u64, r: Option<(String, Vec<u8>)>|
        {
            &&& #[trigger] relay::polls(before, queue, now, after, r)
            &&& clock::told(now)
            &&& s.reply@ == reply::poll_answer(r)
            &&& s.changed == (r is Some)
        };
    law_polls(before, queue, now, after, r);
    lemma_reply_fields(s);
    let p = before.pruned(now);
    if r is Some {
        assert(p.messages(queue)[0] == after.leases.last().msg);
    }
}

/// Serving a confirmation: it is told as known exactly if a lease went by exactly
/// this id, which is then gone, and nothing else has changed.
pub proof fn law_serving_a_confirmation(before: State, id: Seq<char>, after: State, s: Served)
    requires
        server::serves_ack(before, id, after, s),
    ensures
        exists|now: u64|
            {
                let p = #[trigger] before.pruned(now);
                let known = exists|i: int|
                    0 <= i < p.leases.len() && (#[trigger] p.leases[i]).id == id;
                &&& clock::told(now)
                &&& s.reply.lease is None
                &&& s.changed <==> known
                &&& known ==> s.reply.code == 200 && s.reply.body@ == encode_utf8("acked"@)
                &&& !known ==> s.reply.code == 404 && s.reply.body@ == encode_utf8(
                    "unknown lease"@,
                )
                &&& after.leases == p.leases.filter(|g: Grant| g.id != id)
                &&& after.queues == p.queues
            },
{
    let (now, known) = choose|now: u64, known: bool|
        {
            &&& #[trigger] relay::acks(before, id, now, after, known)
            &&& clock::told(now)
            &&& s.reply@ == reply::ack_answer(known)
            &&& s.changed == known
        };
    law_acks(before, id, now, after, known);
    lemma_reply_fields(s);
    let p = before.pruned(now);
    assert(clock::told(now));
}

/// Serving an onion: it is told as forwarded exactly if forwarding succeeded, and
/// as bad exactly if nothing happened.
pub proof fn law_serving_an_onion<
    R: FnOnce(&[u8]) -> Option<OnionLayer>,
    F: FnOnce(&str) -> bool,
>(before: State, packet: Seq<u8>, reader: R, limiter: F, after: State, s: Served)
    requires
        server::serves_forward(before, packet, reader, limiter, after, s),
    ensures
        s.reply.lease is None,
        s.reply.code == 202 || s.reply.code == 400,
        s.changed <==> s.reply.code == 202,
        s.reply.code == 400 ==> s.reply.body@ == encode_utf8("bad onion"@) && after == before,
        s.reply.code == 202 ==> {
            &&& s.reply.body@ == encode_utf8("forwarded"@)
            &&& onion::opened(onion::secret_key(), packet) is Some
            &&& exists|p: &[u8], l: OnionLayer, now: u64|
                {
                    &&& p@ == onion::opened(onion::secret_key(), packet)->Some_0
                    &&& #[trigger] reader.ensures((p,), Some(l))
                    &&& crypto::base64_standard(l.body_b64@) is Some
                    &&& clock::told(now)
                    &&& after == #[trigger] before.sent(
                        l.next_queue@,
                        crypto::base64_standard(l.body_b64@)->Some_0,
                        now,
                    )
                }
        },
{
    let r = choose|r: Result<String, RelayError>|
        {
            &&& #[trigger] relay::forward_outcome(before, packet, reader, limiter, after, r)
            &&& s.reply@ == reply::forward_answer(r)
            &&& s.changed == (r is Ok)
        };
    law_onions_are_forwarded(before, packet, reader, limiter, after, r);
    lemma_reply_fields(s);
    if let Some(plain) = onion::opened(onion::secret_key(), packet) {
        let (p, layer) = choose|p: &[u8], layer: Option<OnionLayer>|
            {
                &&& p@ == plain
                &&& #[trigger] reader.ensures((p,), layer)
                &&& layer is None ==> r == Err::<String, RelayError>(RelayError::BadOnion) && after
                    == before
                &&& layer is Some ==> relay::layer_outcome(before, layer, limiter, after, r)
                &&& layer is Some && r is Ok ==> r->Ok_0@ == layer->Some_0.next_queue@
            };
        if let Some(l) = layer {
            law_forwards_by_the_clock(before, l, limiter, after, r);
            if r is Ok {
                let b = crypto::base64_standard(l.body_b64@)->Some_0;
                let now = choose|now: u64|
                    clock::told(now) && after == #[trigger] before.sent(l.next_queue@, b, now);
                assert(reader.ensures((p,), Some(l)));
                assert(after == before.sent(l.next_queue@, b, now));
            }
        }
    }
}

/// Each kind of action is served as such, and a finished answer is passed on as
/// it is with nothing done.
pub proof fn law_actions_are_served_in_kind<
    R: FnOnce(&[u8]) -> Option<OnionLayer>,
    F: FnOnce(&str) -> bool,
>(before: State, deed: Deed, reader: R, limiter: F, after: State, s: Served)
    requires
        server::serves(before, deed, reader, limiter, after, s),
    ensures
        match deed {
            Deed::Answer(a) => {
                &&& s.reply.code == a.code
                &&& s.reply.body@ == a.body
                &&& s.reply.lease is Some <==> a.lease is Some
                &&& a.lease is Some ==> s.reply.lease->Some_0@ == a.lease->Some_0
                &&& !s.changed
                &&& after == before
            },
            Deed::Forward(packet) => server::serves_forward(
                before,
                packet,
                reader,
                limiter,
                after,
                s,
            ),
            Deed::Send(queue, body) => server::serves_send(before, queue, body, limiter, after, s),
            Deed::Poll(queue) => server::serves_poll(before, queue, after, s),
            Deed::Ack(id) => server::serves_ack(before, id, after, s),
            Deed::Registry(_) => false,
        },
{
    lemma_reply_fields(s);
}

/// Serving a claim. One that could not be read, or whose salt does not decode, is
/// told so. Else exactly the name, the decoded salt, the findability and the
/// contact are claimed, and what comes of it is told.
pub proof fn law_serving_a_claim<
    N: FnOnce(&str) -> Option<String>,
    F: FnOnce(&str) -> bool,
    G: FnOnce(&str, &[u8], bool, Option<&str>) -> Result<(), RegistryError>,
>(
    name: &str,
    claim: Option<ClaimBody>,
    nullifier: N,
    limiter: F,
    registry: G,
    s: Served,
)
    requires
        server::serves_claim(name, claim, nullifier, limiter, registry, s),
    ensures
        s.reply.lease is None,
        s.changed <==> s.reply.code == 201,
        claim is None ==> s.reply.code == 400 && s.reply.body@ == encode_utf8("bad json"@),
        claim is Some ==> match crypto::base64_standard(text::trim(claim->Some_0.salt_b64@)) {
            None => s.reply.code == 400 && s.reply.body@ == encode_utf8("bad salt"@),
            Some(salt) => exists|b: &[u8], contact: Option<&str>, r: Result<(), ClaimError>|
                {
                    &&& #[trigger] relay::claim_outcome(
                        name,
                        b,
                        claim->Some_0.findable,
                        contact,
                        nullifier,
                        limiter,
                        registry,
                        r,
                    )
                    &&& b@ == salt
                    &&& contact is Some <==> claim->Some_0.contact is Some
                    &&& contact is Some ==> contact->Some_0@ == claim->Some_0.contact->Some_0@
                    &&& r is Ok ==> s.reply.code == 201 && s.reply.body@ == encode_utf8("claimed"@)
                    &&& r == Err::<(), ClaimError>(ClaimError::Registry(RegistryError::Taken))
                        ==> s.reply.code == 409 && s.reply.body@ == encode_utf8("taken"@)
                    &&& r == Err::<(), ClaimError>(ClaimError::Registry(RegistryError::Invalid))
                        ==> s.reply.code == 400 && s.reply.body@ == encode_utf8("bad claim"@)
                    &&& r == Err::<(), ClaimError>(ClaimError::RateLimited) ==> s.reply.code == 429
                        && s.reply.body@ == encode_utf8("rate limited"@)
                },
        },
{
    lemma_reply_fields(s);
    if let Some(c) = claim {
        if let Some(salt) = crypto::base64_standard(text::trim(c.salt_b64@)) {
            let (b, contact, r) = choose|
                b: &[u8],
                contact: Option<&str>,
                r: Result<(), ClaimError>,
            |
                {
                    &&& #[trigger] relay::claim_outcome(
                        name,
                        b,
                        c.findable,
                        contact,
                        nullifier,
                        limiter,
                        registry,
                        r,
                    )
                    &&& b@ == salt
                    &&& server::same_text(contact, c.contact)
                    &&& s.reply@ == reply::claim_answer(r)
                    &&& s.changed == (r is Ok)
                };
            assert(relay::claim_outcome(
                name,
                b,
                c.findable,
                contact,
                nullifier,
                limiter,
                registry,
                r,
            ));
        }
    }
}

/// Serving an inquiry. A claim is read from exactly its text and served under
/// exactly its name. A lookup passes on the registry's word on exactly its name,
/// whole, and changes nothing.
pub proof fn law_serving_an_inquiry<
    R: FnOnce(&str) -> Option<ClaimBody>,
    N: FnOnce(&str) -> Option<String>,
    F: FnOnce(&str) -> bool,
    G: FnOnce(&str, &[u8], bool, Option<&str>) -> Result<(), RegistryError>,
    T: FnOnce(&str) -> bool,
    C: FnOnce(&str) -> Option<String>,
>(
    question: Question,
    read: R,
    nullifier: N,
    limiter: F,
    registry: G,
    taken: T,
    resolve: C,
    s: Served,
)
    requires
        server::serves_inquiry(question, read, nullifier, limiter, registry, taken, resolve, s),
    ensures
        match question {
            Question::Claim(name, json) => exists|n: &str, j: &str, claim: Option<ClaimBody>|
                {
                    &&& n@ == name
                    &&& j@ == json
                    &&& #[trigger] read.ensures((j,), claim)
                    &&& #[trigger] server::serves_claim(n, claim, nullifier, limiter, registry, s)
                },
            Question::Taken(name) => exists|n: &str, word: bool|
                {
                    &&& n@ == name
                    &&& #[trigger] taken.ensures((n,), word)
                    &&& s.reply.code == 200
                    &&& s.reply.lease is None
                    &&& word ==> s.reply.body@ == encode_utf8("1"@)
                    &&& !word ==> s.reply.body@ == encode_utf8("0"@)
                    &&& !s.changed
                },
            Question::Resolve(name) => exists|n: &str, contact: Option<String>|
                {
                    &&& n@ == name
                    &&& #[trigger] resolve.ensures((n,), contact)
                    &&& s.reply.lease is None
                    &&& contact is Some ==> s.reply.code == 200 && s.reply.body@ == encode_utf8(
                        contact->Some_0@,
                    )
                    &&& contact is None ==> s.reply.code == 404 && s.reply.body@ == encode_utf8(
                        "not found"@,
                    )
                    &&& !s.changed
                },
        },
{
    lemma_reply_fields(s);
    match question {
        Question::Claim(name, json) => {
            let (n, claim) = choose|n: &str, claim: Option<ClaimBody>|
                {
                    &&& n@ == name
                    &&& #[trigger] server::reads_claim(read, json, claim)
                    &&& #[trigger] server::serves_claim(n, claim, nullifier, limiter, registry, s)
                };
            let j = choose|j: &str| j@ == json && #[trigger] read.ensures((j,), claim);
            assert(read.ensures((j,), claim));
            assert(server::serves_claim(n, claim, nullifier, limiter, registry, s));
        },
        Question::Taken(name) => {
            let (n, word) = choose|n: &str, word: bool|
                {
                    &&& n@ == name
                    &&& #[trigger] taken.ensures((n,), word)
                    &&& s.reply@ == reply::taken_answer(word)
                    &&& !s.changed
                };
            assert(taken.ensures((n,), word));
        },
        Question::Resolve(name) => {
            let (n, contact) = choose|n: &str, contact: Option<String>|
                {
                    &&& n@ == name
                    &&& #[trigger] resolve.ensures((n,), contact)
                    &&& s.reply@ == reply::resolve_answer(
                        match contact {
                            Some(c) => Some(c@),
                            None => None,
                        },
                    )
                    &&& !s.changed
                };
            assert(resolve.ensures((n,), contact));
        },
    }
}

} // verus!
