//! The relay as mathematics: what its queues and leases hold, and what each
//! operation makes of them.
use vstd::prelude::*;

verus! {

/// A queued message: its body, and the first instant (Unix milliseconds) at
/// which it counts as expired.
pub struct Message {
    pub body: Seq<u8>,
    pub expires_unix_ms: u64,
}

/// A message that was handed out and waits for its confirmation.
pub struct Grant {
    pub id: Seq<char>,
    pub queue: Seq<char>,
    pub msg: Message,
    pub lease_until_ms: u64,
}

/// Everything a relay knows. Leases stand in the order in which they were
/// granted.
#[verifier::ext_equal]
pub struct State {
    pub ttl_ms: u64,
    pub lease_ms: u64,
    pub queues: Map<Seq<char>, Seq<Message>>,
    pub leases: Seq<Grant>,
}

/// `now + span` on a 64-bit millisecond clock.
pub open spec fn deadline(now: u64, span: u64) -> u64 {
    if now + span <= u64::MAX {
        (now + span) as u64
    } else {
        (now + span - 0x1_0000_0000_0000_0000) as u64
    }
}

/// The messages of `msgs` that have not expired at `now`, in order.
pub open spec fn live(msgs: Seq<Message>, now: u64) -> Seq<Message> {
    msgs.filter(|m: Message| m.expires_unix_ms > now)
}

impl Grant {
    /// The lease ran out, or its message did.
    pub open spec fn due(self, now: u64) -> bool {
        self.lease_until_ms <= now || self.msg.expires_unix_ms <= now
    }

    /// The lease ran out before its message did, so the message goes back to
    /// `queue`.
    pub open spec fn returns_to(self, queue: Seq<char>, now: u64) -> bool {
        self.queue == queue && self.lease_until_ms <= now && self.msg.expires_unix_ms > now
    }
}

/// What waits under `queue`, next to be delivered first.
pub open spec fn waiting(queues: Map<Seq<char>, Seq<Message>>, queue: Seq<char>) -> Seq<Message> {
    if queues.contains_key(queue) {
        queues[queue]
    } else {
        Seq::empty()
    }
}

/// The messages that go back from `leases` to `queue` at `now`, oldest lease
/// first.
pub open spec fn returning(leases: Seq<Grant>, queue: Seq<char>, now: u64) -> Seq<Message> {
    leases.filter(|g: Grant| g.returns_to(queue, now)).map_values(|g: Grant| g.msg)
}

/// The leases other than `id`, in order.
pub open spec fn without(leases: Seq<Grant>, id: Seq<char>) -> Seq<Grant> {
    leases.filter(|g: Grant| g.id != id)
}

/// Whether one of `leases` goes by `id`.
pub open spec fn holds(leases: Seq<Grant>, id: Seq<char>) -> bool {
    exists|i: int| 0 <= i < leases.len() && (#[trigger] leases[i]).id == id
}

/// No two leases share an id.
pub open spec fn distinct_ids(leases: Seq<Grant>) -> bool {
    forall|i: int, j: int|
        0 <= i < j < leases.len() ==> (#[trigger] leases[i]).id != (#[trigger] leases[j]).id
}

/// The length of the longest id among `leases`.
pub open spec fn longest(leases: Seq<Grant>) -> nat
    decreases leases.len(),
{
    if leases.len() == 0 {
        0
    } else if leases.last().id.len() > longest(leases.drop_last()) {
        leases.last().id.len()
    } else {
        longest(leases.drop_last())
    }
}

/// `id`, or where a lease already goes by it, `id` with as many zeros behind it
/// as it takes to find one that is free.
pub open spec fn free_id(leases: Seq<Grant>, id: Seq<char>) -> Seq<char>
    decreases longest(leases) + 1 - id.len(),
{
    if holds(leases, id) {
        proof {
            let i = choose|i: int| 0 <= i < leases.len() && (#[trigger] leases[i]).id == id;
            lemma_longest(leases, i);
        }
        free_id(leases, id.push('0'))
    } else {
        id
    }
}

impl State {
    /// A relay that holds nothing.
    pub open spec fn empty(ttl_ms: u64, lease_ms: u64) -> State {
        State { ttl_ms, lease_ms, queues: Map::empty(), leases: Seq::empty() }
    }

    /// The relay with other queues and leases.
    pub open spec fn holding(
        self,
        queues: Map<Seq<char>, Seq<Message>>,
        leases: Seq<Grant>,
    ) -> State {
        State { queues, leases, ..self }
    }

    /// Lease ids are unique.
    pub open spec fn wf(self) -> bool {
        distinct_ids(self.leases)
    }

    /// What waits in `queue`, next to be delivered first.
    pub open spec fn messages(self, queue: Seq<char>) -> Seq<Message> {
        waiting(self.queues, queue)
    }

    /// What `queue` holds after clearing out at `now`: messages whose lease
    /// ran out come back ahead of what never left, and expired messages are
    /// gone.
    pub open spec fn pruned_queue(self, queue: Seq<char>, now: u64) -> Seq<Message> {
        returning(self.leases, queue, now) + live(self.messages(queue), now)
    }

    /// The relay cleared out at `now`. Queues left empty disappear.
    pub open spec fn pruned(self, now: u64) -> State {
        State {
            queues: Map::new(
                |q: Seq<char>| self.pruned_queue(q, now).len() > 0,
                |q: Seq<char>| self.pruned_queue(q, now),
            ),
            leases: self.leases.filter(|g: Grant| !g.due(now)),
            ..self
        }
    }

    /// `msg` appended to `queue`.
    pub open spec fn enqueued(self, queue: Seq<char>, msg: Message) -> State {
        State { queues: self.queues.insert(queue, self.messages(queue).push(msg)), ..self }
    }

    /// The relay after it accepted `body` for `queue` at `now`.
    pub open spec fn sent(self, queue: Seq<char>, body: Seq<u8>, now: u64) -> State {
        self.pruned(now).enqueued(
            queue,
            Message { body, expires_unix_ms: deadline(now, self.ttl_ms) },
        )
    }

    /// The next message of `queue` moved to a lease that goes by `id`.
    pub open spec fn leased(self, queue: Seq<char>, id: Seq<char>, now: u64) -> State {
        State {
            queues: self.queues.insert(queue, self.messages(queue).drop_first()),
            leases: self.leases.push(
                Grant {
                    id,
                    queue,
                    msg: self.messages(queue)[0],
                    lease_until_ms: deadline(now, self.lease_ms),
                },
            ),
            ..self
        }
    }

    /// The lease `id` dropped.
    pub open spec fn acked(self, id: Seq<char>) -> State {
        State { leases: without(self.leases, id), ..self }
    }

    /// Messages of `queue`, waiting or leased.
    pub open spec fn count(self, queue: Seq<char>) -> nat {
        self.messages(queue).len() + self.leases.filter(|g: Grant| g.queue == queue).len()
    }
}

/// No id is longer than the longest.
pub proof fn lemma_longest(leases: Seq<Grant>, i: int)
    requires
        0 <= i < leases.len(),
    ensures
        leases[i].id.len() <= longest(leases),
    decreases leases.len(),
{
    if i < leases.len() - 1 {
        lemma_longest(leases.drop_last(), i);
    }
}

/// A free id is free, and nothing but zeros was added to find it.
pub proof fn lemma_free_id(leases: Seq<Grant>, id: Seq<char>)
    ensures
        !holds(leases, free_id(leases, id)),
        !holds(leases, id) ==> free_id(leases, id) == id,
        id.len() <= free_id(leases, id).len(),
        free_id(leases, id).take(id.len() as int) == id,
        forall|i: int|
            id.len() <= i < free_id(leases, id).len() ==> #[trigger] free_id(leases, id)[i] == '0',
    decreases longest(leases) + 1 - id.len(),
{
    if holds(leases, id) {
        let i = choose|i: int| 0 <= i < leases.len() && (#[trigger] leases[i]).id == id;
        lemma_longest(leases, i);
        let next = id.push('0');
        lemma_free_id(leases, next);
        let f = free_id(leases, id);
        assert(f.take(id.len() as int) =~= f.take(next.len() as int).take(id.len() as int));
        assert(next.take(id.len() as int) =~= id);
        assert(f.take(next.len() as int)[id.len() as int] == f[id.len() as int]);
    } else {
        assert(id.take(id.len() as int) =~= id);
    }
}

/// Filtering a sequence that grew by one element.
pub proof fn lemma_filter_push<A>(s: Seq<A>, x: A, p: spec_fn(A) -> bool)
    ensures
        s.push(x).filter(p) == if p(x) {
            s.filter(p).push(x)
        } else {
            s.filter(p)
        },
{
    reveal(Seq::filter);
    assert(s.push(x).drop_last() =~= s);
}

/// One more live or expired message at the end.
pub proof fn lemma_live_push(msgs: Seq<Message>, m: Message, now: u64)
    ensures
        live(msgs.push(m), now) == if m.expires_unix_ms > now {
            live(msgs, now).push(m)
        } else {
            live(msgs, now)
        },
{
    lemma_filter_push(msgs, m, |m: Message| m.expires_unix_ms > now);
}

/// One more lease at the end.
pub proof fn lemma_returning_push(leases: Seq<Grant>, g: Grant, queue: Seq<char>, now: u64)
    ensures
        returning(leases.push(g), queue, now) == if g.returns_to(queue, now) {
            returning(leases, queue, now).push(g.msg)
        } else {
            returning(leases, queue, now)
        },
{
    lemma_filter_push(leases, g, |g: Grant| g.returns_to(queue, now));
    assert(returning(leases.push(g), queue, now) =~= if g.returns_to(queue, now) {
        returning(leases, queue, now).push(g.msg)
    } else {
        returning(leases, queue, now)
    });
}

/// One more lease at the front.
pub proof fn lemma_returning_prepend(leases: Seq<Grant>, g: Grant, queue: Seq<char>, now: u64)
    ensures
        returning(seq![g] + leases, queue, now) == if g.returns_to(queue, now) {
            seq![g.msg] + returning(leases, queue, now)
        } else {
            returning(leases, queue, now)
        },
{
    leases.lemma_filter_prepend(g, |g: Grant| g.returns_to(queue, now));
    assert(returning(seq![g] + leases, queue, now) =~= if g.returns_to(queue, now) {
        seq![g.msg] + returning(leases, queue, now)
    } else {
        returning(leases, queue, now)
    });
}

/// Filtered leases still have distinct ids.
pub proof fn lemma_filter_distinct(leases: Seq<Grant>, p: spec_fn(Grant) -> bool)
    requires
        distinct_ids(leases),
    ensures
        distinct_ids(leases.filter(p)),
    decreases leases.len(),
{
    reveal(Seq::filter);
    if leases.len() > 0 {
        let rest = leases.drop_last();
        lemma_filter_distinct(rest, p);
        let kept = rest.filter(p);
        assert forall|i: int| 0 <= i < kept.len() implies (#[trigger] kept[i]).id
            != leases.last().id by {
            rest.lemma_filter_contains_rev(p, kept[i]);
            let j = choose|j: int| 0 <= j < rest.len() && rest[j] == kept[i];
            assert(leases[j] == kept[i]);
            assert(leases[j].id != leases[leases.len() - 1].id);
        }
    }
}

} // verus!
