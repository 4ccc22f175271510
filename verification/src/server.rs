//! From what a request asks for to what it is answered.
use crate::clock;
use crate::http::{Action, Deed, Inquiry, Question};
use crate::onion::OnionLayer;
use crate::relay::{self, ClaimError, RegistryError, Relay, RelayError};
use crate::reply::{self, ClaimBody, Reply};
use crate::state::State;
use vstd::prelude::*;

verus! {

/// An answer, and whether it reports a change that is worth writing down.
#[derive(Debug, PartialEq, Eq)]
pub struct Served {
    pub reply: Reply,
    pub changed: bool,
}

/// An onion forwarded, and what is answered.
pub open spec fn serves_forward<R: FnOnce(&[u8]) -> Option<OnionLayer>, F: FnOnce(&str) -> bool>(
    before: State,
    packet: Seq<u8>,
    reader: R,
    limiter: F,
    after: State,
    s: Served,
) -> bool {
    exists|r: Result<String, RelayError>|
        {
            &&& #[trigger] relay::forward_outcome(before, packet, reader, limiter, after, r)
            &&& s.reply@ == reply::forward_answer(r)
            &&& s.changed == (r is Ok)
        }
}

/// A message sent, and what is answered.
pub open spec fn serves_send<F: FnOnce(&str) -> bool>(
    before: State,
    queue: Seq<char>,
    body: Seq<u8>,
    limiter: F,
    after: State,
    s: Served,
) -> bool {
    exists|r: Result<(), RelayError>|
        {
            &&& #[trigger] relay::send_outcome(before, queue, body, limiter, after, r)
            &&& s.reply@ == reply::send_answer(r)
            &&& s.changed == (r is Ok)
        }
}

/// A queue polled, and what is answered.
pub open spec fn serves_poll(before: State, queue: Seq<char>, after: State, s: Served) -> bool {
    exists|now: u64, r: Option<(String, Vec<u8>)>|
        {
            &&& #[trigger] relay::polls(before, queue, now, after, r)
            &&& clock::told(now)
            &&& s.reply@ == reply::poll_answer(r)
            &&& s.changed == (r is Some)
        }
}

/// A delivery confirmed, and what is answered.
pub open spec fn serves_ack(before: State, id: Seq<char>, after: State, s: Served) -> bool {
    exists|now: u64, known: bool|
        {
            &&& #[trigger] relay::acks(before, id, now, after, known)
            &&& clock::told(now)
            &&& s.reply@ == reply::ack_answer(known)
            &&& s.changed == known
        }
}

/// Serving `deed` takes the relay from `before` to `after` and answers `s`.
pub open spec fn serves<R: FnOnce(&[u8]) -> Option<OnionLayer>, F: FnOnce(&str) -> bool>(
    before: State,
    deed: Deed,
    reader: R,
    limiter: F,
    after: State,
    s: Served,
) -> bool {
    match deed {
        Deed::Answer(a) => s.reply@ == a && !s.changed && after == before,
        Deed::Forward(packet) => serves_forward(before, packet, reader, limiter, after, s),
        Deed::Send(queue, body) => serves_send(before, queue, body, limiter, after, s),
        Deed::Poll(queue) => serves_poll(before, queue, after, s),
        Deed::Ack(id) => serves_ack(before, id, after, s),
        Deed::Registry(_) => false,
    }
}

/// Reader and limiter can be asked what serving `deed` takes.
pub open spec fn serve_ready<R: FnOnce(&[u8]) -> Option<OnionLayer>, F: FnOnce(&str) -> bool>(
    deed: Deed,
    reader: R,
    limiter: F,
) -> bool {
    match deed {
        Deed::Forward(packet) => relay::forward_ready(packet, reader, limiter),
        Deed::Send(queue, body) => relay::send_ready(queue, body.len(), limiter),
        _ => true,
    }
}

/// Does what `action` asks of the relay. What it asks of the username registry
/// is handed back.
pub fn serve(
    relay: &mut Relay,
    action: Action,
    reader: impl FnOnce(&[u8]) -> Option<OnionLayer>,
    limiter: impl FnOnce(&str) -> bool,
) -> (r: Result<Served, Inquiry>)
    requires
        old(relay).wf(),
        serve_ready(action@, reader, limiter),
    ensures
        final(relay).wf(),
        match r {
            Ok(s) => serves(old(relay)@, action@, reader, limiter, final(relay)@, s),
            Err(inquiry) => action@ == Deed::Registry(inquiry@) && final(relay)@ == old(relay)@,
        },
        r is Err <==> action is Registry,
{
    match action {
        Action::Answer(reply) => Ok(Served { reply, changed: false }),
        Action::Forward(packet) => {
            let r = relay.forward_onion(packet.as_slice(), reader, limiter);
            Ok(Served { reply: reply::forward_reply(&r), changed: r.is_ok() })
        },
        Action::Send(queue, body) => {
            let r = relay.send(queue.as_str(), body, limiter);
            Ok(Served { reply: reply::send_reply(&r), changed: r.is_ok() })
        },
        Action::Poll(queue) => {
            let r = relay.poll(queue.as_str());
            let changed = r.is_some();
            Ok(Served { reply: reply::poll_reply(r), changed })
        },
        Action::Ack(id) => {
            let known = relay.ack(id.as_str());
            Ok(Served { reply: reply::ack_reply(known), changed: known })
        },
        Action::Registry(inquiry) => Err(inquiry),
    }
}

/// The same text, or none.
pub open spec fn same_text(a: Option<&str>, b: Option<String>) -> bool {
    match (a, b) {
        (Some(x), Some(y)) => x@ == y@,
        (None, None) => true,
        _ => false,
    }
}

/// Serving a claim on `name` answers `s`. A claim whose JSON could not be read
/// is `None`; one with a bad salt does not reach limiter or registry.
pub open spec fn serves_claim<
    N: FnOnce(&str) -> Option<String>,
    F: FnOnce(&str) -> bool,
    G: FnOnce(&str, &[u8], bool, Option<&str>) -> Result<(), RegistryError>,
>(
    name: &str,
    claim: Option<ClaimBody>,
    nullifier: N,
    limiter: F,
    registry: G,
    s: Served,
) -> bool {
    match claim {
        None => s.reply@ == reply::says(400, "bad json"@) && !s.changed,
        Some(c) => match reply::salt_of(c) {
            None => s.reply@ == reply::says(400, "bad salt"@) && !s.changed,
            Some(salt) => exists|b: &[u8], contact: Option<&str>, r: Result<(), ClaimError>|
                {
                    &&& #[trigger] relay::claim_outcome(
                        name,
                        b,
                        c.findable,
                        contact,
                        nullifier,
                        limiter,
                        registry,
                        r,
                    )
                    &&& b@ == salt
                    &&& same_text(contact, c.contact)
                    &&& s.reply@ == reply::claim_answer(r)
                    &&& s.changed == (r is Ok)
                },
        },
    }
}

/// Nullifier, limiter and registry can be asked what serving the claim takes:
/// nothing of a claim that could not be read or has a bad salt.
pub open spec fn serve_claim_ready<
    N: FnOnce(&str) -> Option<String>,
    F: FnOnce(&str) -> bool,
    G: FnOnce(&str, &[u8], bool, Option<&str>) -> Result<(), RegistryError>,
>(name: &str, claim: Option<ClaimBody>, nullifier: N, limiter: F, registry: G) -> bool {
    match claim {
        None => true,
        Some(c) => match reply::salt_of(c) {
            None => true,
            Some(salt) => forall|b: &[u8], contact: Option<&str>|
                b@ == salt && same_text(contact, c.contact) ==> #[trigger] relay::claim_ready(
                    name,
                    b,
                    c.findable,
                    contact,
                    nullifier,
                    limiter,
                    registry,
                ),
        },
    }
}

/// Answers a claim on `name`.
pub fn serve_claim(
    name: &str,
    claim: Option<ClaimBody>,
    nullifier: impl FnOnce(&str) -> Option<String>,
    limiter: impl FnOnce(&str) -> bool,
    registry: impl FnOnce(&str, &[u8], bool, Option<&str>) -> Result<(), RegistryError>,
) -> (s: Served)
    requires
        serve_claim_ready(name, claim, nullifier, limiter, registry),
    ensures
        serves_claim(name, claim, nullifier, limiter, registry, s),
{
    let request = match reply::claim_request(claim) {
        Ok(request) => request,
        Err(reply) => return Served { reply, changed: false },
    };
    let contact = match &request.contact {
        Some(text) => Some(text.as_str()),
        None => None,
    };
    let r = Relay::claim_username(
        name,
        request.salt.as_slice(),
        request.findable,
        contact,
        nullifier,
        limiter,
        registry,
    );
    assert(same_text(contact, request.contact));
    Served { reply: reply::claim_reply(&r), changed: r.is_ok() }
}

/// `claim` is what the reader may make of `json`.
pub open spec fn reads_claim<R: FnOnce(&str) -> Option<ClaimBody>>(
    read: R,
    json: Seq<char>,
    claim: Option<ClaimBody>,
) -> bool {
    exists|j: &str| j@ == json && #[trigger] read.ensures((j,), claim)
}

/// A claim on `name` read from `json` and served.
pub open spec fn serves_claim_text<
    R: FnOnce(&str) -> Option<ClaimBody>,
    N: FnOnce(&str) -> Option<String>,
    F: FnOnce(&str) -> bool,
    G: FnOnce(&str, &[u8], bool, Option<&str>) -> Result<(), RegistryError>,
>(
    name: Seq<char>,
    json: Seq<char>,
    read: R,
    nullifier: N,
    limiter: F,
    registry: G,
    s: Served,
) -> bool {
    exists|n: &str, claim: Option<ClaimBody>|
        {
            &&& n@ == name
            &&& #[trigger] reads_claim(read, json, claim)
            &&& #[trigger] serves_claim(n, claim, nullifier, limiter, registry, s)
        }
}

/// The registry's word on whether `name` is taken, passed on.
pub open spec fn serves_taken<T: FnOnce(&str) -> bool>(
    name: Seq<char>,
    taken: T,
    s: Served,
) -> bool {
    exists|n: &str, word: bool|
        {
            &&& n@ == name
            &&& #[trigger] taken.ensures((n,), word)
            &&& s.reply@ == reply::taken_answer(word)
            &&& !s.changed
        }
}

/// The registry's contact for `name`, passed on.
pub open spec fn serves_resolve<C: FnOnce(&str) -> Option<String>>(
    name: Seq<char>,
    resolve: C,
    s: Served,
) -> bool {
    exists|n: &str, contact: Option<String>|
        {
            &&& n@ == name
            &&& #[trigger] resolve.ensures((n,), contact)
            &&& s.reply@ == reply::resolve_answer(
                match contact {
                    Some(c) => Some(c@),
                    None => None,
                },
            )
            &&& !s.changed
        }
}

/// Serving `question` answers `s`.
pub open spec fn serves_inquiry<
    R: FnOnce(&str) -> Option<ClaimBody>,
    N: FnOnce(&str) -> Option<String>,
    F: FnOnce(&str) -> bool,
    G: FnOnce(&str, &[u8], bool, Option<&str>) -> Result<(), RegistryError>,
    T: FnOnce(&str) -> bool,
    C: FnOnce(&str) -> Option<String>,
>(
    question: Question,
    read: R,
    nullifier: N,
    limiter: F,
    registry: G,
    taken: T,
    resolve: C,
    s: Served,
) -> bool {
    match question {
        Question::Claim(name, json) => serves_claim_text(
            name,
            json,
            read,
            nullifier,
            limiter,
            registry,
            s,
        ),
        Question::Taken(name) => serves_taken(name, taken, s),
        Question::Resolve(name) => serves_resolve(name, resolve, s),
    }
}

/// The reader can be handed `json`, and what it makes of it can be served as a
/// claim on `name`.
pub open spec fn claim_text_ready<
    R: FnOnce(&str) -> Option<ClaimBody>,
    N: FnOnce(&str) -> Option<String>,
    F: FnOnce(&str) -> bool,
    G: FnOnce(&str, &[u8], bool, Option<&str>) -> Result<(), RegistryError>,
>(
    name: Seq<char>,
    json: Seq<char>,
    read: R,
    nullifier: N,
    limiter: F,
    registry: G,
) -> bool {
    &&& forall|j: &str| j@ == json ==> #[trigger] read.requires((j,))
    &&& forall|n: &str, claim: Option<ClaimBody>|
        #![trigger reads_claim(read, json, claim), serve_claim_ready(
            n,
            claim,
            nullifier,
            limiter,
            registry,
        )]
        n@ == name && reads_claim(read, json, claim) ==> serve_claim_ready(
            n,
            claim,
            nullifier,
            limiter,
            registry,
        )
}

/// `asked` can be asked about `name`.
pub open spec fn askable<A, Q: FnOnce(&str) -> A>(name: Seq<char>, asked: Q) -> bool {
    forall|n: &str| n@ == name ==> #[trigger] asked.requires((n,))
}

/// Those who are handed over can be asked what serving `question` takes, and
/// nothing else.
pub open spec fn inquiry_ready<
    R: FnOnce(&str) -> Option<ClaimBody>,
    N: FnOnce(&str) -> Option<String>,
    F: FnOnce(&str) -> bool,
    G: FnOnce(&str, &[u8], bool, Option<&str>) -> Result<(), RegistryError>,
    T: FnOnce(&str) -> bool,
    C: FnOnce(&str) -> Option<String>,
>(
    question: Question,
    read: R,
    nullifier: N,
    limiter: F,
    registry: G,
    taken: T,
    resolve: C,
) -> bool {
    match question {
        Question::Claim(name, json) => claim_text_ready(
            name,
            json,
            read,
            nullifier,
            limiter,
            registry,
        ),
        Question::Taken(name) => askable(name, taken),
        Question::Resolve(name) => askable(name, resolve),
    }
}

/// Answers what a request asks of the username registry. `read` makes a claim of
/// JSON text, if it spells one; `taken` and `resolve` are the registry's lookups.
pub fn serve_inquiry(
    inquiry: Inquiry,
    read: impl FnOnce(&str) -> Option<ClaimBody>,
    nullifier: impl FnOnce(&str) -> Option<String>,
    limiter: impl FnOnce(&str) -> bool,
    registry: impl FnOnce(&str, &[u8], bool, Option<&str>) -> Result<(), RegistryError>,
    taken: impl FnOnce(&str) -> bool,
    resolve: impl FnOnce(&str) -> Option<String>,
) -> (s: Served)
    requires
        inquiry_ready(inquiry@, read, nullifier, limiter, registry, taken, resolve),
    ensures
        serves_inquiry(inquiry@, read, nullifier, limiter, registry, taken, resolve, s),
{
    match inquiry {
        Inquiry::Claim(name, json) => {
            let claim = read(json.as_str());
            assert(reads_claim(read, json@, claim));
            serve_claim(name.as_str(), claim, nullifier, limiter, registry)
        },
        Inquiry::Taken(name) => {
            let word = taken(name.as_str());
            Served { reply: reply::taken_reply(word), changed: false }
        },
        Inquiry::Resolve(name) => {
            let contact = resolve(name.as_str());
            let reply = match &contact {
                Some(c) => reply::resolve_reply(Some(c.as_str())),
                None => reply::resolve_reply(None),
            };
            Served { reply, changed: false }
        },
    }
}

} // verus!
