//! What a call of each function gives, for every argument that it takes.
use crate::clock;
use crate::crypto;
use crate::digits;
use crate::http::{self, Action, Deed, Inquiry, RequestReader};
use crate::onion::{self, OnionLayer};
use crate::relay::{self, ClaimError, RegistryError, Relay, RelayError, Snapshot};
use crate::reply::{self, ClaimBody, ClaimRequest, Reply};
use crate::server::{self, Served};
use crate::text;
use vstd::prelude::*;
use vstd::utf8::encode_utf8;

verus! {

/// A new relay holds nothing, lets messages live for exactly the given span, and
/// leases them for five minutes.
pub proof fn law_new_relays(ttl_ms: u64, relay: Relay, queue: Seq<char>)
    requires
        call_ensures(Relay::new, (ttl_ms,), relay),
    ensures
        relay.wf(),
        relay@.ttl_ms == ttl_ms,
        relay@.lease_ms == 300000,
        relay@.messages(queue).len() == 0,
        relay@.leases.len() == 0,
{
}

/// Setting the lease time sets exactly that.
pub proof fn law_set_lease_ms(lease_ms: u64)
    ensures
        forall|relay: &mut Relay| #[trigger]
            call_ensures(Relay::set_lease_ms, (relay, lease_ms), ()) ==> {
                &&& final(relay)@.lease_ms == lease_ms
                &&& final(relay)@.ttl_ms == relay@.ttl_ms
                &&& final(relay)@.queues == relay@.queues
                &&& final(relay)@.leases == relay@.leases
                &&& final(relay).wf()
            },
        forall|relay: &mut Relay|
            relay.wf() ==> #[trigger] call_requires(Relay::set_lease_ms, (relay, lease_ms)),
{
}

/// `send_at` takes any name and any body. It answers by them and the limiter's
/// word alone, and what it takes stands whole behind everything else in exactly
/// the named queue, with the full time to live.
pub proof fn law_send_at(queue: &str, body: Vec<u8>, allowed: bool, now: u64)
    ensures
        forall|relay: &mut Relay, r: Result<(), RelayError>| #[trigger]
            call_ensures(Relay::send_at, (relay, queue, body, allowed, now), r) ==> {
                let blank = forall|i: int|
                    0 <= i < queue@.len() ==> text::is_white(#[trigger] queue@[i]);
                let m = final(relay)@.messages(queue@).last();
                &&& final(relay).wf()
                &&& blank ==> r == Err::<(), RelayError>(RelayError::EmptyQueue)
                &&& !blank && body@.len() == 0 ==> r == Err::<(), RelayError>(RelayError::EmptyBody)
                &&& !blank && body@.len() > 262144 ==> r == Err::<(), RelayError>(
                    RelayError::PayloadTooLarge,
                )
                &&& !blank && 0 < body@.len() <= 262144 && !allowed ==> r == Err::<
                    (),
                    RelayError,
                >(RelayError::RateLimited)
                &&& !blank && 0 < body@.len() <= 262144 && allowed ==> r is Ok
                &&& r is Err ==> final(relay)@ == relay@
                &&& r is Ok ==> {
                    &&& final(relay)@.messages(queue@) == relay@.pruned(now).messages(
                        queue@,
                    ).push(m)
                    &&& m.body == body@
                    &&& now + relay@.ttl_ms <= u64::MAX ==> m.expires_unix_ms == now
                        + relay@.ttl_ms
                    &&& final(relay)@ == relay@.sent(queue@, body@, now)
                }
            },
        forall|relay: &mut Relay|
            relay.wf() ==> #[trigger] call_requires(
                Relay::send_at,
                (relay, queue, body, allowed, now),
            ),
{
    assert forall|relay: &mut Relay, r: Result<(), RelayError>| #[trigger]
        call_ensures(Relay::send_at, (relay, queue, body, allowed, now), r) implies {
        let blank = forall|i: int|
            0 <= i < queue@.len() ==> text::is_white(#[trigger] queue@[i]);
        let m = final(relay)@.messages(queue@).last();
        &&& final(relay).wf()
        &&& blank ==> r == Err::<(), RelayError>(RelayError::EmptyQueue)
        &&& !blank && body@.len() == 0 ==> r == Err::<(), RelayError>(RelayError::EmptyBody)
        &&& !blank && body@.len() > 262144 ==> r == Err::<(), RelayError>(
            RelayError::PayloadTooLarge,
        )
        &&& !blank && 0 < body@.len() <= 262144 && !allowed ==> r == Err::<(), RelayError>(
            RelayError::RateLimited,
        )
        &&& !blank && 0 < body@.len() <= 262144 && allowed ==> r is Ok
        &&& r is Err ==> final(relay)@ == relay@
        &&& r is Ok ==> {
            &&& final(relay)@.messages(queue@) == relay@.pruned(now).messages(queue@).push(m)
            &&& m.body == body@
            &&& now + relay@.ttl_ms <= u64::MAX ==> m.expires_unix_ms == now + relay@.ttl_ms
            &&& final(relay)@ == relay@.sent(queue@, body@, now)
        }
    } by {
        assert(relay::sends(relay@, queue@, body@, allowed, now, final(relay)@, r));
        super::service::law_refusals(queue@, body@.len(), allowed);
        super::service::law_sends(relay@, queue@, body@, allowed, now, final(relay)@, r);
    }
}

/// `poll_at` takes any name. It finds nothing exactly if nothing live waits there;
/// else it hands out all bytes of the first message and leases it.
pub proof fn law_poll_at(queue: &str, now: u64)
    ensures
        forall|relay: &mut Relay, r: Option<(String, Vec<u8>)>| #[trigger]
            call_ensures(Relay::poll_at, (relay, queue, now), r) ==> {
                let p = relay@.pruned(now);
                let g = final(relay)@.leases.last();
                &&& final(relay).wf()
                &&& relay::polls(relay@, queue@, now, final(relay)@, r)
                &&& r is None <==> p.messages(queue@).len() == 0
                &&& r is Some ==> {
                    &&& r->Some_0.1@ == p.messages(queue@)[0].body
                    &&& final(relay)@.leases == p.leases.push(g)
                    &&& g.id == r->Some_0.0@
                    &&& g.msg == p.messages(queue@)[0]
                    &&& g.queue == queue@
                    &&& now + relay@.lease_ms <= u64::MAX ==> g.lease_until_ms == now
                        + relay@.lease_ms
                }
            },
        forall|relay: &mut Relay|
            relay.wf() ==> #[trigger] call_requires(Relay::poll_at, (relay, queue, now)),
{
    assert forall|relay: &mut Relay, r: Option<(String, Vec<u8>)>| #[trigger]
        call_ensures(Relay::poll_at, (relay, queue, now), r) implies {
        let p = relay@.pruned(now);
        let g = final(relay)@.leases.last();
        &&& final(relay).wf()
        &&& relay::polls(relay@, queue@, now, final(relay)@, r)
        &&& r is None <==> p.messages(queue@).len() == 0
        &&& r is Some ==> {
            &&& r->Some_0.1@ == p.messages(queue@)[0].body
            &&& final(relay)@.leases == p.leases.push(g)
            &&& g.id == r->Some_0.0@
            &&& g.msg == p.messages(queue@)[0]
            &&& g.queue == queue@
            &&& now + relay@.lease_ms <= u64::MAX ==> g.lease_until_ms == now + relay@.lease_ms
        }
    } by {
        super::service::law_polls(relay@, queue@, now, final(relay)@, r);
        let p = relay@.pruned(now);
        if r is Some {
            assert(p.messages(queue@)[0] == final(relay)@.leases.last().msg);
        }
    }
}

/// Clearing out, confirming, counting and forwarding a layer at a given time are
/// of exactly what they are asked.
pub proof fn law_calls_at_a_time(id: &str, layer: Option<OnionLayer>, allowed: bool, now: u64)
    ensures
        forall|relay: &mut Relay| #[trigger]
            call_ensures(Relay::prune_at, (relay, now), ()) ==> final(relay).wf() && final(relay)@
                == relay@.pruned(now),
        forall|relay: &mut Relay, r: bool| #[trigger]
            call_ensures(Relay::ack_at, (relay, id, now), r) ==> final(relay).wf() && relay::acks(
                relay@,
                id@,
                now,
                final(relay)@,
                r,
            ),
        forall|relay: &mut Relay, r: usize| #[trigger]
            call_ensures(Relay::len_at, (relay, id, now), r) ==> {
                &&& final(relay).wf()
                &&& final(relay)@ == relay@.pruned(now)
                &&& final(relay)@.count(id@) <= usize::MAX ==> r == final(relay)@.count(id@)
            },
        forall|relay: &mut Relay, r: Result<String, RelayError>| #[trigger]
            call_ensures(Relay::forward_layer_at, (relay, layer, allowed, now), r) ==> final(relay).wf() && relay::forwards(relay@, layer, allowed, now, final(relay)@, r),
        forall|relay: &mut Relay|
            relay.wf() ==> #[trigger] call_requires(Relay::prune_at, (relay, now)),
        forall|relay: &mut Relay|
            relay.wf() ==> #[trigger] call_requires(Relay::ack_at, (relay, id, now)),
        forall|relay: &mut Relay|
            relay.wf() ==> #[trigger] call_requires(Relay::len_at, (relay, id, now)),
        forall|relay: &mut Relay|
            relay.wf() ==> #[trigger] call_requires(
                Relay::forward_layer_at,
                (relay, layer, allowed, now),
            ),
{
    assert forall|relay: &mut Relay, r: usize| #[trigger]
        call_ensures(Relay::len_at, (relay, id, now), r) && final(relay)@.count(id@)
            <= usize::MAX implies r == final(relay)@.count(id@) by {
        vstd::arithmetic::div_mod::lemma_small_mod(
            final(relay)@.count(id@),
            (usize::MAX + 1) as nat,
        );
    }
}

/// By the clock the same is done, of exactly what is asked, at a time that the
/// clock tells.
pub proof fn law_calls_by_the_clock(name: &str)
    ensures
        forall|relay: &mut Relay| #[trigger]
            call_ensures(Relay::prune, (relay,), ()) ==> final(relay).wf() && exists|now: u64|
                clock::told(now) && final(relay)@ == #[trigger] relay@.pruned(now),
        forall|relay: &mut Relay, r: Option<(String, Vec<u8>)>| #[trigger]
            call_ensures(Relay::poll, (relay, name), r) ==> final(relay).wf() && exists|now: u64|
                clock::told(now) && #[trigger] relay::polls(
                    relay@,
                    name@,
                    now,
                    final(relay)@,
                    r,
                ),
        forall|relay: &mut Relay, r: bool| #[trigger]
            call_ensures(Relay::ack, (relay, name), r) ==> final(relay).wf() && exists|now: u64|
                clock::told(now) && #[trigger] relay::acks(relay@, name@, now, final(relay)@, r),
        forall|relay: &mut Relay, r: usize| #[trigger]
            call_ensures(Relay::len, (relay, name), r) ==> {
                &&& final(relay).wf()
                &&& exists|now: u64|
                    clock::told(now) && final(relay)@ == #[trigger] relay@.pruned(now)
                &&& final(relay)@.count(name@) <= usize::MAX ==> r == final(relay)@.count(name@)
            },
        forall|relay: &mut Relay| relay.wf() ==> #[trigger] call_requires(Relay::prune, (relay,)),
        forall|relay: &mut Relay|
            relay.wf() ==> #[trigger] call_requires(Relay::poll, (relay, name)),
        forall|relay: &mut Relay|
            relay.wf() ==> #[trigger] call_requires(Relay::ack, (relay, name)),
        forall|relay: &mut Relay|
            relay.wf() ==> #[trigger] call_requires(Relay::len, (relay, name)),
{
    assert forall|relay: &mut Relay, r: usize| #[trigger]
        call_ensures(Relay::len, (relay, name), r) && final(relay)@.count(name@)
            <= usize::MAX implies r == final(relay)@.count(name@) by {
        vstd::arithmetic::div_mod::lemma_small_mod(
            final(relay)@.count(name@),
            (usize::MAX + 1) as nat,
        );
    }
}

/// Sending and forwarding by the clock are of exactly what is asked, and ask no
/// more of reader and limiter than that takes.
pub proof fn law_sending_calls<
    R: FnOnce(&[u8]) -> Option<OnionLayer>,
    F: FnOnce(&str) -> bool,
>(queue: &str, body: Vec<u8>, packet: &[u8], reader: R, limiter: F)
    ensures
        forall|relay: &mut Relay, r: Result<(), RelayError>| #[trigger]
            call_ensures(Relay::send, (relay, queue, body, limiter), r) ==> final(relay).wf()
                && relay::send_outcome(relay@, queue@, body@, limiter, final(relay)@, r),
        forall|relay: &mut Relay, r: Result<String, RelayError>| #[trigger]
            call_ensures(Relay::forward_onion, (relay, packet, reader, limiter), r) ==> final(relay).wf() && relay::forward_outcome(relay@, packet@, reader, limiter, final(relay)@, r),
        forall|relay: &mut Relay|
            relay.wf() && relay::send_ready(queue@, body@.len(), limiter) ==> #[trigger]
                call_requires(Relay::send, (relay, queue, body, limiter)),
        forall|relay: &mut Relay|
            relay.wf() && relay::forward_ready(packet@, reader, limiter) ==> #[trigger]
                call_requires(Relay::forward_onion, (relay, packet, reader, limiter)),
{
}

/// A claim is of exactly what is asked, and asks no more than that takes.
pub proof fn law_claim_calls<
    N: FnOnce(&str) -> Option<String>,
    F: FnOnce(&str) -> bool,
    G: FnOnce(&str, &[u8], bool, Option<&str>) -> Result<(), RegistryError>,
>(
    username: &str,
    salt: &[u8],
    findable: bool,
    contact: Option<&str>,
    nullifier: N,
    limiter: F,
    registry: G,
    r: Result<(), ClaimError>,
)
    ensures
        call_ensures(
            Relay::claim_username,
            (username, salt, findable, contact, nullifier, limiter, registry),
            r,
        ) ==> relay::claim_outcome(
            username,
            salt,
            findable,
            contact,
            nullifier,
            limiter,
            registry,
            r,
        ),
        relay::claim_ready(username, salt, findable, contact, nullifier, limiter, registry)
            ==> call_requires(
            Relay::claim_username,
            (username, salt, findable, contact, nullifier, limiter, registry),
        ),
{
}

/// A snapshot is of everything, and what is taken over from one is everything in
/// it, cleared out.
pub proof fn law_snapshot_calls(snapshot: Snapshot, now: u64)
    ensures
        forall|relay: &Relay, s: Snapshot| #[trigger]
            call_ensures(Relay::snapshot, (relay,), s) ==> s.queues() == relay@.queues
                && s.leases() == relay@.leases,
        forall|relay: &mut Relay| #[trigger]
            call_ensures(Relay::restore_at, (relay, snapshot, now), ()) ==> {
                &&& final(relay).wf()
                &&& final(relay)@ == relay@.holding(
                    snapshot.queues(),
                    snapshot.leases(),
                ).pruned(now)
            },
        forall|relay: &mut Relay| #[trigger]
            call_ensures(Relay::restore, (relay, snapshot), ()) ==> final(relay).wf() && exists|
                now: u64,
            |
                clock::told(now) && final(relay)@ == #[trigger] relay@.holding(
                    snapshot.queues(),
                    snapshot.leases(),
                ).pruned(now),
        forall|relay: &Relay| relay.wf() ==> #[trigger] call_requires(Relay::snapshot, (relay,)),
        forall|relay: &mut Relay|
            relay.wf() ==> #[trigger] call_requires(Relay::restore_at, (relay, snapshot, now)),
        forall|relay: &mut Relay|
            relay.wf() ==> #[trigger] call_requires(Relay::restore, (relay, snapshot)),
{
}

/// The smaller functions of the relay.
pub proof fn law_relay_calls(
    queue: &str,
    body: &[u8],
    now: u64,
    id: String,
    checked: Result<(), RelayError>,
    nullifier: Option<String>,
    key: String,
)
    ensures
        call_ensures(relay::lease_id, (queue, body, now), id) ==> id@ == relay::lease_id_of(
            queue@,
            body@,
            now,
        ),
        call_ensures(relay::check_send, (queue, body), checked) ==> match relay::refusal(
            queue@,
            body@.len(),
            true,
        ) {
            Some(e) => checked == Err::<(), RelayError>(e),
            None => checked is Ok,
        },
        call_ensures(relay::claim_key, (nullifier, queue), key) ==> {
            &&& nullifier is Some ==> key@ == nullifier->Some_0@
            &&& nullifier is None ==> key@ == "bad:"@ + queue@
        },
        call_requires(relay::lease_id, (queue, body, now)),
        call_requires(relay::check_send, (queue, body)),
        call_requires(relay::claim_key, (nullifier, queue)),
{
}

/// The onion functions: the key is 32 times 42, opening is of exactly the packet
/// under exactly the key, and unpacking gives the layer's own name and what its
/// text decodes to.
pub proof fn law_onion_calls(
    secret: [u8; 32],
    packet: &[u8],
    plain: Result<Vec<u8>, RelayError>,
    layer: Option<OnionLayer>,
    unpacked: Result<(String, Vec<u8>), RelayError>,
)
    ensures
        call_ensures(onion::relay_secret, (), secret) ==> secret@.len() == 32 && forall|i: int|
            0 <= i < 32 ==> #[trigger] secret@[i] == 42,
        call_ensures(onion::open_onion, (secret, packet), plain) ==> match onion::opened(
            secret@,
            packet@,
        ) {
            Some(p) => plain is Ok && plain->Ok_0@ == p,
            None => plain == Err::<Vec<u8>, RelayError>(RelayError::BadOnion),
        },
        call_ensures(onion::unpack_layer, (layer,), unpacked) ==> {
            &&& layer is None ==> unpacked == Err::<(String, Vec<u8>), RelayError>(
                RelayError::BadOnion,
            )
            &&& layer is Some ==> match crypto::base64_standard(layer->Some_0.body_b64@) {
                Some(b) => {
                    &&& unpacked is Ok
                    &&& unpacked->Ok_0.0@ == layer->Some_0.next_queue@
                    &&& unpacked->Ok_0.1@ == b
                },
                None => unpacked == Err::<(String, Vec<u8>), RelayError>(RelayError::BadOnion),
            }
        },
        call_requires(onion::open_onion, (secret, packet)),
        call_requires(onion::unpack_layer, (layer,)),
{
}

/// The clock functions.
pub proof fn law_clock_calls(secs: u64, span: u64, wide: u128, clock: Option<u128>, ms: u64)
    ensures
        call_ensures(clock::millis, (secs,), span) ==> span as int == secs * 1000
            % 0x1_0000_0000_0000_0000,
        call_ensures(clock::millis, (secs,), span) && secs * 1000 <= u64::MAX ==> span == secs
            * 1000,
        call_ensures(clock::narrow, (wide,), ms) ==> ms as int == wide as int
            % 0x1_0000_0000_0000_0000,
        call_ensures(clock::unix_ms, (clock,), ms) ==> ms as int == match clock {
            Some(n) => n as int % 0x1_0000_0000_0000_0000,
            None => 0,
        },
        call_ensures(clock::now_ms, (), ms) ==> clock::told(ms),
        call_requires(clock::millis, (secs,)),
        call_requires(clock::unix_ms, (clock,)),
        call_requires(clock::now_ms, ()),
{
}

/// The functions that read requests.
pub proof fn law_reading_calls(
    buf: &[u8],
    at: Option<usize>,
    headers: &str,
    length: Option<usize>,
    reader: RequestReader,
    whole: String,
)
    ensures
        call_ensures(http::find_headers_end, (buf,), at) ==> match text::find(
            buf@,
            seq![13u8, 10u8, 13u8, 10u8],
        ) {
            Some(i) => at is Some && at->Some_0 == i,
            None => at is None,
        },
        call_ensures(http::content_length, (buf,), length) ==> match http::stated_length(
            text::lines(http::as_text(buf@)),
        ) {
            Some(n) => length is Some && length->Some_0 == n,
            None => length is None,
        },
        call_ensures(http::content_length_in, (headers,), length) ==> match http::stated_length(
            text::lines(headers@),
        ) {
            Some(n) => length is Some && length->Some_0 == n,
            None => length is None,
        },
        call_ensures(RequestReader::new, (), reader) ==> reader.buf@.len() == 0 && reader.end is None,
        call_ensures(RequestReader::text, (&reader,), whole) ==> whole@ == http::as_text(
            reader.buf@,
        ),
        forall|r: &mut RequestReader, more: bool| #[trigger]
            call_ensures(RequestReader::feed, (r, buf), more) ==> http::feeds(
                *r,
                buf@,
                *final(r),
                more,
            ),
        call_requires(http::find_headers_end, (buf,)),
        call_requires(http::content_length, (buf,)),
        call_requires(http::content_length_in, (headers,)),
        call_requires(RequestReader::text, (&reader,)),
        forall|r: &mut RequestReader| #[trigger] call_requires(RequestReader::feed, (r, buf)),
{
}

/// The functions that decide what a request asks for. Only one request line is
/// left out.
pub proof fn law_deciding_calls(
    request: &str,
    nameless: bool,
    action: Action,
    method: &[char],
    path: &[char],
    body: &[char],
    bytes: Vec<u8>,
)
    ensures
        call_ensures(http::is_nameless, (request,), nameless) ==> (nameless
            <==> http::asks_nameless(request@)),
        call_ensures(http::decide, (request,), action) ==> action@ == http::deed(request@),
        call_ensures(http::decide_route, (method, path, body), action) ==> action@ == http::route(
            method@,
            path@,
            body@,
        ),
        call_ensures(http::bytes_of, (body,), bytes) ==> bytes@ == encode_utf8(body@),
        call_requires(http::is_nameless, (request,)),
        !http::asks_nameless(request@) ==> call_requires(http::decide, (request,)),
        !(method@ == "GET"@ && path@ == "/registry/taken"@) ==> call_requires(
            http::decide_route,
            (method, path, body),
        ),
{
    super::wire::law_one_path_is_nameless(method@, path@);
}

/// The functions that answer.
pub proof fn law_answering_calls(
    code: u16,
    words: &str,
    forwarded: Result<String, RelayError>,
    sent: Result<(), RelayError>,
    polled: Option<(String, Vec<u8>)>,
    flag: bool,
    claimed: Result<(), ClaimError>,
    contact: Option<&str>,
    a: Reply,
    head: String,
    wire: Vec<u8>,
    phrase: &'static str,
)
    ensures
        call_ensures(reply::reply, (code, words), a) ==> a@ == reply::says(code, words@),
        call_ensures(reply::forward_reply, (&forwarded,), a) ==> a@ == reply::forward_answer(
            forwarded,
        ),
        call_ensures(reply::send_reply, (&sent,), a) ==> a@ == reply::send_answer(sent),
        call_ensures(reply::poll_reply, (polled,), a) ==> {
            &&& polled is Some ==> a.code == 200 && a.body@ == polled->Some_0.1@ && a.lease is Some
                && a.lease->Some_0@ == polled->Some_0.0@
            &&& polled is None ==> a.code == 204 && a.body@.len() == 0 && a.lease is None
        },
        call_ensures(reply::ack_reply, (flag,), a) ==> a@ == reply::ack_answer(flag),
        call_ensures(reply::claim_reply, (&claimed,), a) ==> a@ == reply::claim_answer(claimed),
        call_ensures(reply::taken_reply, (flag,), a) ==> a@ == reply::taken_answer(flag),
        call_ensures(reply::resolve_reply, (contact,), a) ==> {
            &&& contact is Some ==> a@ == reply::resolve_answer(Some(contact->Some_0@))
            &&& contact is None ==> a@ == reply::resolve_answer(None)
        },
        call_ensures(reply::reason_phrase, (code,), phrase) ==> phrase@ == reply::reason(code),
        call_ensures(reply::head, (&a,), head) ==> encode_utf8(head@) + a.body@ == reply::rendered(
            a@,
        ),
        call_ensures(reply::render, (&a,), wire) ==> wire@ == reply::rendered(a@),
        call_requires(reply::reply, (code, words)),
        call_requires(reply::render, (&a,)),
        call_requires(reply::poll_reply, (polled,)),
{
    super::wire::law_actions_mean_their_fields(
        arbitrary(),
        arbitrary(),
        arbitrary(),
        a,
        arbitrary(),
    );
    if polled is Some {
        super::wire::law_outcomes_are_answered(
            arbitrary(),
            arbitrary(),
            polled->Some_0.0,
            polled->Some_0.1,
            arbitrary(),
        );
    }
}

/// A claim is made ready with exactly the decoded salt and all else as it was
/// read, or answered with what is wrong with it.
pub proof fn law_claim_request_calls(claim: Option<ClaimBody>, r: Result<ClaimRequest, Reply>)
    requires
        call_ensures(reply::claim_request, (claim,), r),
    ensures
        claim is None ==> r is Err && r->Err_0.code == 400 && r->Err_0.body@ == encode_utf8(
            "bad json"@,
        ),
        claim is Some ==> match crypto::base64_standard(text::trim(claim->Some_0.salt_b64@)) {
            None => r is Err && r->Err_0.code == 400 && r->Err_0.body@ == encode_utf8("bad salt"@),
            Some(salt) => {
                &&& r is Ok
                &&& r->Ok_0.salt@ == salt
                &&& r->Ok_0.findable == claim->Some_0.findable
                &&& r->Ok_0.contact == claim->Some_0.contact
            },
        },
{
    if r is Err {
        let a = r->Err_0;
        assert(a@.code == a.code && a@.body == a.body@);
    }
}

/// An action is served as what it is; what it asks of the registry is handed back
/// as it is with nothing done.
pub proof fn law_serve_calls<
    R: FnOnce(&[u8]) -> Option<OnionLayer>,
    F: FnOnce(&str) -> bool,
>(action: Action, reader: R, limiter: F)
    ensures
        forall|relay: &mut Relay, r: Result<Served, Inquiry>| #[trigger]
            call_ensures(server::serve, (relay, action, reader, limiter), r) ==> {
                &&& final(relay).wf()
                &&& r is Ok <==> !(action@ is Registry)
                &&& r is Ok ==> server::serves(
                    relay@,
                    action@,
                    reader,
                    limiter,
                    final(relay)@,
                    r->Ok_0,
                )
                &&& r is Err ==> action@ == Deed::Registry(r->Err_0@) && final(relay)@ == relay@
            },
        forall|relay: &mut Relay|
            relay.wf() && server::serve_ready(action@, reader, limiter) ==> #[trigger]
                call_requires(server::serve, (relay, action, reader, limiter)),
{
}

/// Claims and inquiries are served as what they are.
pub proof fn law_registry_calls<
    R: FnOnce(&str) -> Option<ClaimBody>,
    N: FnOnce(&str) -> Option<String>,
    F: FnOnce(&str) -> bool,
    G: FnOnce(&str, &[u8], bool, Option<&str>) -> Result<(), RegistryError>,
    T: FnOnce(&str) -> bool,
    C: FnOnce(&str) -> Option<String>,
>(
    name: &str,
    claim: Option<ClaimBody>,
    inquiry: Inquiry,
    read: R,
    nullifier: N,
    limiter: F,
    registry: G,
    taken: T,
    resolve: C,
    s: Served,
)
    ensures
        call_ensures(server::serve_claim, (name, claim, nullifier, limiter, registry), s)
            ==> server::serves_claim(name, claim, nullifier, limiter, registry, s),
        server::serve_claim_ready(name, claim, nullifier, limiter, registry) ==> call_requires(
            server::serve_claim,
            (name, claim, nullifier, limiter, registry),
        ),
        call_ensures(
            server::serve_inquiry,
            (inquiry, read, nullifier, limiter, registry, taken, resolve),
            s,
        ) ==> server::serves_inquiry(
            inquiry@,
            read,
            nullifier,
            limiter,
            registry,
            taken,
            resolve,
            s,
        ),
        server::inquiry_ready(inquiry@, read, nullifier, limiter, registry, taken, resolve)
            ==> call_requires(
            server::serve_inquiry,
            (inquiry, read, nullifier, limiter, registry, taken, resolve),
        ),
{
}

/// The functions on text and numbers.
pub proof fn law_text_calls(
    s: &[char],
    t: &[char],
    word: &str,
    chars: Vec<char>,
    string: String,
    flag: bool,
    at: Option<usize>,
    number: Option<usize>,
    bytes: &[u8],
    c: char,
)
    ensures
        call_ensures(text::whitespace, (c,), flag) ==> flag == text::is_white(c),
        call_ensures(text::chars_of, (word,), chars) ==> chars@ == word@,
        call_ensures(text::string_of, (s,), string) ==> string@ == s@,
        call_ensures(text::blank, (word,), flag) ==> flag == text::is_blank(word@),
        call_ensures(text::without_lead, (s,), t) ==> t@ == text::trim_start(s@),
        call_ensures(text::trimmed, (s,), t) ==> t@ == text::trim(s@),
        call_ensures(text::starts_with, (s, t), flag) ==> flag == text::has_prefix(s@, t@),
        call_ensures(text::ends_with, (s, word), flag) ==> flag == text::has_suffix(s@, word@),
        call_ensures(text::is_word, (s, word), flag) ==> flag == (s@ == word@),
        call_ensures(text::to_lower, (s,), chars) ==> chars@ == text::lowered(s@),
        call_ensures(text::search, (s, t), at) ==> match text::find(s@, t@) {
            Some(i) => at is Some && at->Some_0 == i,
            None => at is None,
        },
        call_ensures(digits::number, (s,), number) ==> match digits::parse_number(s@) {
            Some(n) => number is Some && number->Some_0 == n,
            None => number is None,
        },
        call_ensures(digits::to_hex, (bytes,), string) ==> string@ == digits::hex(bytes@),
{
}

} // verus!
