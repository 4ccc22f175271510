//! The relay itself.
use crate::clock;
use crate::crypto;
use crate::digits;
use crate::onion::{self, OnionLayer};
use crate::state::{self, Grant, Message, State};
use crate::store::{self, Lease, Queue, RelayMessage};
use crate::text;
use vstd::prelude::*;
use vstd::utf8::encode_utf8;

verus! {

/// How long a polled message stays leased before it is delivered again.
pub const DEFAULT_LEASE_MS: u64 = 5 * 60 * 1000;

/// The longest body that is taken, in bytes.
pub const MAX_BODY: usize = 256 * 1024;

/// Window of the limit on messages per queue, in seconds.
pub const SEND_WINDOW_SECS: u64 = 60;

/// Messages per queue and window.
pub const SEND_LIMIT: u32 = 120;

/// Window of the limit on username claims, in seconds.
pub const CLAIM_WINDOW_SECS: u64 = 60 * 60;

/// Claims per username and window.
pub const CLAIM_LIMIT: u32 = 5;

/// Why a message was not taken.
#[derive(Debug, PartialEq, Eq, Structural)]
pub enum RelayError {
    EmptyQueue,
    EmptyBody,
    PayloadTooLarge,
    BadOnion,
    RateLimited,
}

/// How a username registry turned a claim down: the name is gone, or anything
/// else is wrong with the claim.
#[derive(Debug, PartialEq, Eq, Structural)]
pub enum RegistryError {
    Taken,
    Invalid,
}

/// Why a username was not claimed.
#[derive(Debug, PartialEq, Eq, Structural)]
pub enum ClaimError {
    Registry(RegistryError),
    RateLimited,
}

/// Named queues, the leases on messages that were polled from them, and the
/// two time spans that govern both.
#[derive(Debug)]
pub struct Relay {
    ttl_ms: u64,
    lease_ms: u64,
    queues: Vec<Queue>,
    leases: Vec<Lease>,
}

/// Queues and leases as plain records, to be written down and read back.
#[derive(Debug)]
pub struct Snapshot {
    pub queues: Vec<Queue>,
    pub leases: Vec<Lease>,
}

/// Big-endian bytes.
pub open spec fn be_bytes(x: u64) -> Seq<u8> {
    Seq::new(8, |i: int| ((x >> ((56 - 8 * i) as u64)) & 0xff) as u8)
}

/// What a lease id is the digest of.
pub open spec fn lease_material(queue: Seq<char>, body: Seq<u8>, now: u64) -> Seq<u8> {
    encode_utf8(queue) + seq![124u8] + body + seq![124u8] + be_bytes(now)
}

/// The id that a lease on `body` is to go by when it is polled from `queue` at
/// `now`.
pub open spec fn lease_id_of(queue: Seq<char>, body: Seq<u8>, now: u64) -> Seq<char> {
    digits::hex(crypto::sha256(lease_material(queue, body, now)))
}

/// Why `queue` does not take a body of `len` bytes, or `None` if it does.
/// `allowed` is the rate limiter's word.
pub open spec fn refusal(queue: Seq<char>, len: nat, allowed: bool) -> Option<RelayError> {
    if text::is_blank(queue) {
        Some(RelayError::EmptyQueue)
    } else if len == 0 {
        Some(RelayError::EmptyBody)
    } else if len > MAX_BODY {
        Some(RelayError::PayloadTooLarge)
    } else if !allowed {
        Some(RelayError::RateLimited)
    } else {
        None
    }
}

/// A send of `body` to `queue` at `now` takes `before` to `after` and answers
/// `r`. What is refused leaves no trace.
pub open spec fn sends(
    before: State,
    queue: Seq<char>,
    body: Seq<u8>,
    allowed: bool,
    now: u64,
    after: State,
    r: Result<(), RelayError>,
) -> bool {
    match refusal(queue, body.len(), allowed) {
        Some(e) => r == Err::<(), RelayError>(e) && after == before,
        None => r == Ok::<(), RelayError>(()) && after == before.sent(queue, body, now),
    }
}

/// A poll of `queue` at `now` takes `before` to `after` and answers `r`. The
/// lease goes by the digest of what is leased, unless a lease already does.
pub open spec fn polls(
    before: State,
    queue: Seq<char>,
    now: u64,
    after: State,
    r: Option<(String, Vec<u8>)>,
) -> bool {
    let p = before.pruned(now);
    match r {
        None => p.messages(queue).len() == 0 && after == p,
        Some((id, body)) => {
            &&& p.messages(queue).len() > 0
            &&& body@ == p.messages(queue)[0].body
            &&& id@ == state::free_id(p.leases, lease_id_of(queue, body@, now))
            &&& !state::holds(p.leases, id@)
            &&& !state::holds(p.leases, lease_id_of(queue, body@, now)) ==> id@ == lease_id_of(
                queue,
                body@,
                now,
            )
            &&& after == p.leased(queue, id@, now)
        },
    }
}

/// A confirmation of `id` at `now` takes `before` to `after` and answers
/// whether there was such a lease.
pub open spec fn acks(before: State, id: Seq<char>, now: u64, after: State, known: bool) -> bool {
    let p = before.pruned(now);
    known == state::holds(p.leases, id) && after == p.acked(id)
}

/// Forwarding a read layer at `now` takes `before` to `after` and answers `r`.
pub open spec fn forwards(
    before: State,
    layer: Option<OnionLayer>,
    allowed: bool,
    now: u64,
    after: State,
    r: Result<String, RelayError>,
) -> bool {
    match onion::destination(layer) {
        None => r == Err::<String, RelayError>(RelayError::BadOnion) && after == before,
        Some((queue, body)) => match refusal(queue, body.len(), allowed) {
            Some(e) => r == Err::<String, RelayError>(e) && after == before,
            None => r is Ok && r->Ok_0@ == queue && after == before.sent(queue, body, now),
        },
    }
}

/// `allowed` is an answer that the rate limiter may give for `key`.
pub open spec fn rules<F: FnOnce(&str) -> bool>(limiter: F, key: Seq<char>, allowed: bool) -> bool {
    exists|k: &str| k@ == key && #[trigger] limiter.ensures((k,), allowed)
}

/// `layer` is what the reader may make of `plain`.
pub open spec fn reads<F: FnOnce(&[u8]) -> Option<OnionLayer>>(
    reader: F,
    plain: Seq<u8>,
    layer: Option<OnionLayer>,
) -> bool {
    exists|p: &[u8]| p@ == plain && #[trigger] reader.ensures((p,), layer)
}

/// The limiter can be asked about `queue`, should nothing else speak against a
/// body of `len` bytes.
pub open spec fn send_ready<F: FnOnce(&str) -> bool>(
    queue: Seq<char>,
    len: nat,
    limiter: F,
) -> bool {
    refusal(queue, len, true) is None ==> forall|k: &str|
        k@ == queue ==> #[trigger] limiter.requires((k,))
}

/// The limiter can be asked about the queue that `layer` names, should nothing
/// else speak against what it holds.
pub open spec fn layer_ready<F: FnOnce(&str) -> bool>(
    layer: Option<OnionLayer>,
    limiter: F,
) -> bool {
    match onion::destination(layer) {
        None => true,
        Some((queue, body)) => send_ready(queue, body.len(), limiter),
    }
}

/// The reader can be handed `plain`, and the limiter can be asked about what the
/// reader makes of it.
pub open spec fn read_ready<R: FnOnce(&[u8]) -> Option<OnionLayer>, F: FnOnce(&str) -> bool>(
    plain: Seq<u8>,
    reader: R,
    limiter: F,
) -> bool {
    &&& forall|p: &[u8]| p@ == plain ==> #[trigger] reader.requires((p,))
    &&& forall|layer: Option<OnionLayer>| #[trigger]
        reads(reader, plain, layer) ==> layer_ready(layer, limiter)
}

/// Reader and limiter can be asked what forwarding `packet` takes: nothing of a
/// packet that does not open.
pub open spec fn forward_ready<R: FnOnce(&[u8]) -> Option<OnionLayer>, F: FnOnce(&str) -> bool>(
    packet: Seq<u8>,
    reader: R,
    limiter: F,
) -> bool {
    match onion::opened(onion::secret_key(), packet) {
        None => true,
        Some(plain) => read_ready(plain, reader, limiter),
    }
}

/// The nullifier can be asked for, the limiter can be asked about the claim's
/// key, and the registry can be asked once the limiter allows it.
pub open spec fn claim_ready<
    N: FnOnce(&str) -> Option<String>,
    F: FnOnce(&str) -> bool,
    G: FnOnce(&str, &[u8], bool, Option<&str>) -> Result<(), RegistryError>,
>(
    username: &str,
    salt: &[u8],
    findable: bool,
    contact: Option<&str>,
    nullifier: N,
    limiter: F,
    registry: G,
) -> bool {
    &&& nullifier.requires((username,))
    &&& forall|n: Option<String>, k: &str|
        #![trigger nullifier.ensures((username,), n), limiter.requires((k,))]
        nullifier.ensures((username,), n) && k@ == claim_key_of(n, username@) ==> limiter.requires(
            (k,),
        )
    &&& forall|n: Option<String>| #[trigger]
        nullifier.ensures((username,), n) && rules(limiter, claim_key_of(n, username@), true)
            ==> registry.requires((username, salt, findable, contact))
}

/// A send of `body` to `queue` by the clock takes `before` to `after` and
/// answers `r`; the limiter's word counts once nothing else speaks against the
/// message.
pub open spec fn send_outcome<F: FnOnce(&str) -> bool>(
    before: State,
    queue: Seq<char>,
    body: Seq<u8>,
    limiter: F,
    after: State,
    r: Result<(), RelayError>,
) -> bool {
    match refusal(queue, body.len(), true) {
        Some(e) => r == Err::<(), RelayError>(e) && after == before,
        None => exists|allowed: bool, now: u64| #[trigger]
            sends(before, queue, body, allowed, now, after, r) && rules(limiter, queue, allowed)
                && clock::told(now),
    }
}

/// Forwarding a read layer by the clock takes `before` to `after` and answers
/// `r`: what the layer holds is sent to the queue it names.
pub open spec fn layer_outcome<F: FnOnce(&str) -> bool>(
    before: State,
    layer: Option<OnionLayer>,
    limiter: F,
    after: State,
    r: Result<String, RelayError>,
) -> bool {
    match onion::destination(layer) {
        None => r == Err::<String, RelayError>(RelayError::BadOnion) && after == before,
        Some((queue, body)) => match r {
            Ok(name) => name@ == queue && send_outcome(before, queue, body, limiter, after, Ok(())),
            Err(e) => send_outcome(before, queue, body, limiter, after, Err(e)),
        },
    }
}

/// Forwarding opened bytes by the clock takes `before` to `after` and answers
/// `r`: what the reader makes of them is forwarded.
pub open spec fn read_outcome<R: FnOnce(&[u8]) -> Option<OnionLayer>, F: FnOnce(&str) -> bool>(
    before: State,
    plain: Seq<u8>,
    reader: R,
    limiter: F,
    after: State,
    r: Result<String, RelayError>,
) -> bool {
    exists|layer: Option<OnionLayer>| #[trigger]
        reads(reader, plain, layer) && layer_outcome(before, layer, limiter, after, r)
}

/// Forwarding `packet` by the clock takes `before` to `after` and answers `r`:
/// the layer is opened with the relay's key, read, and forwarded.
pub open spec fn forward_outcome<R: FnOnce(&[u8]) -> Option<OnionLayer>, F: FnOnce(&str) -> bool>(
    before: State,
    packet: Seq<u8>,
    reader: R,
    limiter: F,
    after: State,
    r: Result<String, RelayError>,
) -> bool {
    match onion::opened(onion::secret_key(), packet) {
        None => r == Err::<String, RelayError>(RelayError::BadOnion) && after == before,
        Some(plain) => read_outcome(before, plain, reader, limiter, after, r),
    }
}

/// A claim on `username` comes to `r`: the limiter rules on the claim's key,
/// and where it allows the claim the registry has the last word.
pub open spec fn claim_outcome<
    N: FnOnce(&str) -> Option<String>,
    F: FnOnce(&str) -> bool,
    G: FnOnce(&str, &[u8], bool, Option<&str>) -> Result<(), RegistryError>,
>(
    username: &str,
    salt: &[u8],
    findable: bool,
    contact: Option<&str>,
    nullifier: N,
    limiter: F,
    registry: G,
    r: Result<(), ClaimError>,
) -> bool {
    exists|n: Option<String>, allowed: bool|
        {
            &&& #[trigger] nullifier.ensures((username,), n)
            &&& #[trigger] rules(limiter, claim_key_of(n, username@), allowed)
            &&& if allowed {
                exists|outcome: Result<(), RegistryError>| #[trigger]
                    registry.ensures((username, salt, findable, contact), outcome) && r
                        == claim_result(outcome)
            } else {
                r == Err::<(), ClaimError>(ClaimError::RateLimited)
            }
        }
}

/// The key under which claims on `username` are counted: its nullifier, or the
/// name itself, marked, where it has none.
pub open spec fn claim_key_of(nullifier: Option<String>, username: Seq<char>) -> Seq<char> {
    match nullifier {
        Some(n) => n@,
        None => "bad:"@ + username,
    }
}

/// What a claim comes to, given the registry's word.
pub open spec fn claim_result(outcome: Result<(), RegistryError>) -> Result<(), ClaimError> {
    match outcome {
        Ok(()) => Ok(()),
        Err(e) => Err(ClaimError::Registry(e)),
    }
}

/// The id that a lease on `body` is to go by when it is polled from `queue` at
/// `now`: hexadecimal, so that it can stand in a URL path.
pub fn lease_id(queue: &str, body: &[u8], now: u64) -> (r: String)
    ensures
        r@ == lease_id_of(queue@, body@, now),
        r@.len() == 64,
        forall|i: int|
            0 <= i < r@.len() ==> '0' <= #[trigger] r@[i] <= '9' || 'a' <= r@[i] <= 'f',
{
    let mut data: Vec<u8> = Vec::new();
    data.extend_from_slice(queue.as_bytes());
    assert(data@ =~= encode_utf8(queue@));
    data.push(124);
    data.extend_from_slice(body);
    assert(data@ =~= encode_utf8(queue@) + seq![124u8] + body@);
    data.push(124);
    let ghost head = data@;
    for i in 0..8u64
        invariant
            data@ == head + be_bytes(now).take(i as int),
    {
        let byte: u8 = ((now >> (56 - 8 * i)) & 0xff) as u8;
        data.push(byte);
        assert(data@ =~= head + be_bytes(now).take(i as int + 1));
    }
    assert(data@ =~= lease_material(queue@, body@, now));
    let hash = crypto::digest(data.as_slice());
    digits::to_hex(hash.as_slice())
}

/// What can be said of a message before the rate limiter is asked.
pub fn check_send(queue: &str, body: &[u8]) -> (r: Result<(), RelayError>)
    ensures
        r == match refusal(queue@, body@.len(), true) {
            Some(e) => Err::<(), RelayError>(e),
            None => Ok(()),
        },
{
    if text::blank(queue) {
        return Err(RelayError::EmptyQueue);
    }
    if body.len() == 0 {
        return Err(RelayError::EmptyBody);
    }
    if body.len() > MAX_BODY {
        return Err(RelayError::PayloadTooLarge);
    }
    Ok(())
}

/// The key under which claims on `username` are counted.
pub fn claim_key(nullifier: Option<String>, username: &str) -> (r: String)
    ensures
        r@ == claim_key_of(nullifier, username@),
{
    match nullifier {
        Some(n) => n,
        None => {
            let mut key = "bad:".to_owned();
            key.append(username);
            key
        },
    }
}

impl View for Relay {
    type V = State;

    closed spec fn view(&self) -> State {
        State {
            ttl_ms: self.ttl_ms,
            lease_ms: self.lease_ms,
            queues: store::table(self.queues@),
            leases: store::leases_of(self.leases@),
        }
    }
}

impl Relay {
    /// Queue names and lease ids are unique.
    pub closed spec fn wf(&self) -> bool {
        store::distinct_names(self.queues@) && self@.wf()
    }

    /// What a relay is kept to, its model is kept to as well.
    pub proof fn lemma_wf(&self)
        requires
            self.wf(),
        ensures
            self@.wf(),
    {
    }

    /// An empty relay whose messages live for `ttl_ms`.
    pub fn new(ttl_ms: u64) -> (r: Relay)
        ensures
            r.wf(),
            r@ == State::empty(ttl_ms, DEFAULT_LEASE_MS),
    {
        let r = Relay { ttl_ms, lease_ms: DEFAULT_LEASE_MS, queues: Vec::new(), leases: Vec::new() };
        assert(r@ =~= State::empty(ttl_ms, DEFAULT_LEASE_MS));
        r
    }

    /// Sets how long later polls lease a message.
    pub fn set_lease_ms(&mut self, lease_ms: u64)
        requires
            old(self).wf(),
        ensures
            final(self).wf(),
            final(self)@ == (State { lease_ms, ..old(self)@ }),
    {
        self.lease_ms = lease_ms;
    }

    /// Drops what has expired at `now` and returns what was leased for too
    /// long to the front of its queue.
    pub fn prune_at(&mut self, now: u64)
        requires
            old(self).wf(),
        ensures
            final(self).wf(),
            final(self)@ == old(self)@.pruned(now),
    {
        let ghost before = self@;
        let mut queues: Vec<Queue> = Vec::new();
        let mut leases: Vec<Lease> = Vec::new();
        std::mem::swap(&mut self.queues, &mut queues);
        std::mem::swap(&mut self.leases, &mut leases);
        let mut queues = store::live_queues(queues, now);
        let (kept, due) = store::settle(leases, now);
        store::give_back(&mut queues, due, now);
        self.queues = queues;
        self.leases = kept;
        proof {
            let p = before.pruned(now);
            state::lemma_filter_distinct(before.leases, |g: Grant| !g.due(now));
            assert forall|q: Seq<char>| #[trigger] self@.queues.contains_key(q)
                == p.queues.contains_key(q) && (p.queues.contains_key(q) ==> self@.queues[q]
                == p.queues[q]) by {
                assert(state::waiting(store::table(self.queues@), q) == before.pruned_queue(
                    q,
                    now,
                ));
            }
            assert(self@.queues =~= p.queues);
            assert(self@ =~= p);
        }
    }

    /// `prune_at` by the clock.
    pub fn prune(&mut self)
        requires
            old(self).wf(),
        ensures
            final(self).wf(),
            exists|now: u64|
                clock::told(now) && final(self)@ == #[trigger] old(self)@.pruned(now),
    {
        let now = clock::now_ms();
        self.prune_at(now);
    }

    /// Takes `body` for `queue` at `now`. `allowed` is the rate limiter's word
    /// on `queue`.
    pub fn send_at(&mut self, queue: &str, body: Vec<u8>, allowed: bool, now: u64) -> (r: Result<
        (),
        RelayError,
    >)
        requires
            old(self).wf(),
        ensures
            final(self).wf(),
            sends(old(self)@, queue@, body@, allowed, now, final(self)@, r),
    {
        check_send(queue, body.as_slice())?;
        if !allowed {
            return Err(RelayError::RateLimited);
        }
        self.prune_at(now);
        let expires_unix_ms = now.wrapping_add(self.ttl_ms);
        let ghost p = self@;
        let msg = RelayMessage { body, expires_unix_ms };
        store::push_back(&mut self.queues, queue.to_owned(), msg);
        assert(self@ =~= p.enqueued(queue@, msg@));
        Ok(())
    }

    /// Takes `body` for `queue` by the clock. The rate limiter is asked about
    /// `queue` once nothing else speaks against the message.
    pub fn send(&mut self, queue: &str, body: Vec<u8>, limiter: impl FnOnce(&str) -> bool) -> (r:
        Result<(), RelayError>)
        requires
            old(self).wf(),
            send_ready(queue@, body@.len(), limiter),
        ensures
            final(self).wf(),
            send_outcome(old(self)@, queue@, body@, limiter, final(self)@, r),
    {
        check_send(queue, body.as_slice())?;
        let allowed = limiter(queue);
        let now = clock::now_ms();
        let r = self.send_at(queue, body, allowed, now);
        assert(rules(limiter, queue@, allowed));
        assert(sends(old(self)@, queue@, body@, allowed, now, self@, r));
        r
    }

    /// Leases the next message of `queue` at `now`, without deleting it: the
    /// lease's id and the body. Unless `ack` confirms the lease in time, the
    /// message is delivered again.
    pub fn poll_at(&mut self, queue: &str, now: u64) -> (r: Option<(String, Vec<u8>)>)
        requires
            old(self).wf(),
        ensures
            final(self).wf(),
            polls(old(self)@, queue@, now, final(self)@, r),
    {
        self.prune_at(now);
        let ghost p = self@;
        let ghost was = self.queues@;
        let name = queue.to_owned();
        proof {
            store::lemma_table(was);
        }
        let i = match store::position(&self.queues, &name) {
            Some(i) => i,
            None => return None,
        };
        let msg = match self.queues[i].messages.pop_front() {
            Some(msg) => msg,
            None => {
                assert(self.queues@ =~= was);
                return None;
            },
        };
        proof {
            let now_at_i = self.queues@[i as int];
            store::lemma_table_update(was, i as int, now_at_i);
            assert(self.queues@ =~= was.update(i as int, now_at_i));
            assert(store::messages_of(now_at_i.messages@) =~= store::messages_of(
                was[i as int].messages@,
            ).drop_first());
        }
        let wanted = lease_id(queue, msg.body.as_slice(), now);
        proof {
            state::lemma_free_id(p.leases, wanted@);
        }
        let id = store::free_id(&self.leases, wanted);
        let body = msg.body.clone();
        assert(body@ =~= msg.body@);
        let lease = Lease {
            id: id.clone(),
            queue: name,
            msg,
            lease_until_ms: now.wrapping_add(self.lease_ms),
        };
        assert(store::leases_of(self.leases@.push(lease)) =~= store::leases_of(self.leases@).push(
            lease@,
        ));
        self.leases.push(lease);
        assert(self@ =~= p.leased(queue@, id@, now));
        Some((id, body))
    }

    /// `poll_at` by the clock.
    pub fn poll(&mut self, queue: &str) -> (r: Option<(String, Vec<u8>)>)
        requires
            old(self).wf(),
        ensures
            final(self).wf(),
            exists|now: u64|
                clock::told(now) && #[trigger] polls(old(self)@, queue@, now, final(self)@, r),
    {
        let now = clock::now_ms();
        self.poll_at(queue, now)
    }

    /// Confirms delivery at `now`: the leased message is gone for good. Says
    /// whether there was such a lease.
    pub fn ack_at(&mut self, lease_id: &str, now: u64) -> (r: bool)
        requires
            old(self).wf(),
        ensures
            final(self).wf(),
            acks(old(self)@, lease_id@, now, final(self)@, r),
    {
        self.prune_at(now);
        let ghost p = self@;
        let id = lease_id.to_owned();
        proof {
            state::lemma_filter_distinct(p.leases, |g: Grant| g.id != id@);
        }
        let removed = store::remove_lease(&mut self.leases, &id);
        assert(self@ =~= p.acked(lease_id@));
        removed
    }

    /// `ack_at` by the clock.
    pub fn ack(&mut self, lease_id: &str) -> (r: bool)
        requires
            old(self).wf(),
        ensures
            final(self).wf(),
            exists|now: u64|
                clock::told(now) && #[trigger] acks(old(self)@, lease_id@, now, final(self)@, r),
    {
        let now = clock::now_ms();
        self.ack_at(lease_id, now)
    }

    /// How many messages of `queue` wait or are leased at `now`.
    pub fn len_at(&mut self, queue: &str, now: u64) -> (r: usize)
        requires
            old(self).wf(),
        ensures
            final(self).wf(),
            final(self)@ == old(self)@.pruned(now),
            r as int == final(self)@.count(queue@) as int % (usize::MAX + 1),
    {
        self.prune_at(now);
        let name = queue.to_owned();
        proof {
            store::lemma_table(self.queues@);
        }
        let queued = match store::position(&self.queues, &name) {
            Some(i) => self.queues[i].messages.len(),
            None => 0,
        };
        let leased = store::count_leases(&self.leases, &name);
        proof {
            let total = queued as int + leased as int;
            let range = usize::MAX + 1;
            if total < range {
                vstd::arithmetic::div_mod::lemma_small_mod(total as nat, range as nat);
            } else {
                vstd::arithmetic::div_mod::lemma_mod_sub_multiples_vanish(total, range);
                vstd::arithmetic::div_mod::lemma_small_mod((total - range) as nat, range as nat);
            }
        }
        queued.wrapping_add(leased)
    }

    /// `len_at` by the clock.
    pub fn len(&mut self, queue: &str) -> (r: usize)
        requires
            old(self).wf(),
        ensures
            final(self).wf(),
            exists|now: u64|
                clock::told(now) && final(self)@ == #[trigger] old(self)@.pruned(now),
            r as int == final(self)@.count(queue@) as int % (usize::MAX + 1),
    {
        let now = clock::now_ms();
        self.len_at(queue, now)
    }

    /// Sends what a read onion layer holds to the queue it names, at `now`, and
    /// answers that name. A layer that could not be read is `None`.
    pub fn forward_layer_at(
        &mut self,
        layer: Option<OnionLayer>,
        allowed: bool,
        now: u64,
    ) -> (r: Result<String, RelayError>)
        requires
            old(self).wf(),
        ensures
            final(self).wf(),
            forwards(old(self)@, layer, allowed, now, final(self)@, r),
    {
        let (next_queue, body) = onion::unpack_layer(layer)?;
        self.send_at(next_queue.as_str(), body, allowed, now)?;
        Ok(next_queue)
    }

    /// Unwraps one onion layer and enqueues the inner blob on the queue that
    /// the layer names. `reader` makes a layer of the opened bytes, if they
    /// spell one; the rate limiter is asked about the named queue once nothing
    /// else speaks against the blob.
    pub fn forward_onion(
        &mut self,
        packet: &[u8],
        reader: impl FnOnce(&[u8]) -> Option<OnionLayer>,
        limiter: impl FnOnce(&str) -> bool,
    ) -> (r: Result<String, RelayError>)
        requires
            old(self).wf(),
            forward_ready(packet@, reader, limiter),
        ensures
            final(self).wf(),
            forward_outcome(old(self)@, packet@, reader, limiter, final(self)@, r),
    {
        let plain = onion::open_onion(onion::relay_secret(), packet)?;
        let layer = reader(plain.as_slice());
        assert(reads(reader, plain@, layer));
        let (next_queue, body) = onion::unpack_layer(layer)?;
        self.send(next_queue.as_str(), body, limiter)?;
        Ok(next_queue)
    }

    /// Claims `username` in a registry. Attempts are counted under the name's
    /// nullifier, and the registry is asked only while the limiter allows it.
    pub fn claim_username(
        username: &str,
        salt: &[u8],
        findable: bool,
        contact: Option<&str>,
        nullifier: impl FnOnce(&str) -> Option<String>,
        limiter: impl FnOnce(&str) -> bool,
        registry: impl FnOnce(&str, &[u8], bool, Option<&str>) -> Result<(), RegistryError>,
    ) -> (r: Result<(), ClaimError>)
        requires
            claim_ready(username, salt, findable, contact, nullifier, limiter, registry),
        ensures
            claim_outcome(
                username,
                salt,
                findable,
                contact,
                nullifier,
                limiter,
                registry,
                r,
            ),
    {
        let n = nullifier(username);
        let ghost named = n;
        let key = claim_key(n, username);
        let allowed = limiter(key.as_str());
        assert(rules(limiter, claim_key_of(named, username@), allowed));
        if !allowed {
            return Err(ClaimError::RateLimited);
        }
        match registry(username, salt, findable, contact) {
            Ok(()) => Ok(()),
            Err(e) => Err(ClaimError::Registry(e)),
        }
    }

    /// The relay's queues and leases as records.
    pub fn snapshot(&self) -> (r: Snapshot)
        requires
            self.wf(),
        ensures
            r.queues() == self@.queues,
            r.leases() == self@.leases,
    {
        let queues = store::copy_queues(&self.queues);
        let leases = store::copy_leases(&self.leases);
        proof {
            store::lemma_lease_table(leases@);
        }
        Snapshot { queues, leases }
    }

    /// Takes over the queues and leases of `snapshot`, cleared out at `now`.
    pub fn restore_at(&mut self, snapshot: Snapshot, now: u64)
        requires
            old(self).wf(),
        ensures
            final(self).wf(),
            final(self)@ == old(self)@.holding(snapshot.queues(), snapshot.leases()).pruned(now),
    {
        self.queues = store::by_name(snapshot.queues);
        self.leases = store::by_id(snapshot.leases);
        self.prune_at(now);
    }

    /// `restore_at` by the clock.
    pub fn restore(&mut self, snapshot: Snapshot)
        requires
            old(self).wf(),
        ensures
            final(self).wf(),
            exists|now: u64|
                clock::told(now) && final(self)@ == #[trigger] old(self)@.holding(
                    snapshot.queues(),
                    snapshot.leases(),
                ).pruned(now),
    {
        let now = clock::now_ms();
        self.restore_at(snapshot, now);
    }
}

impl Snapshot {
    /// The queues that the records spell out.
    pub open spec fn queues(&self) -> Map<Seq<char>, Seq<Message>> {
        store::table(self.queues@)
    }

    /// The leases that the records spell out.
    pub open spec fn leases(&self) -> Seq<Grant> {
        store::lease_table(self.leases@)
    }
}

} // verus!
