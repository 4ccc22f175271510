//! What holds of the relay over any run of operations.
use crate::laws;
use crate::relay::{self, RelayError};
use crate::state::{self, Grant, Message, State};
use vstd::prelude::*;

verus! {

/// An operation that reaches the relay's state. A send that is refused does
/// not; taking over a snapshot is a clearing out.
pub enum Step {
    Send(Seq<char>, Seq<u8>),
    Poll(Seq<char>),
    Ack(Seq<char>),
    Prune,
}

/// The id that the next message of `queue` is leased under at `now`.
pub open spec fn next_id(p: State, queue: Seq<char>, now: u64) -> Seq<char> {
    state::free_id(p.leases, relay::lease_id_of(queue, p.messages(queue)[0].body, now))
}

/// The relay after one operation at `now`.
pub open spec fn applied(s: State, step: Step, now: u64) -> State {
    let p = s.pruned(now);
    match step {
        Step::Send(queue, body) => s.sent(queue, body, now),
        Step::Poll(queue) => if p.messages(queue).len() == 0 {
            p
        } else {
            p.leased(queue, next_id(p, queue, now), now)
        },
        Step::Ack(id) => p.acked(id),
        Step::Prune => p,
    }
}

/// The relay after a run of operations, each at its time.
pub open spec fn run(s: State, steps: Seq<(Step, u64)>) -> State
    decreases steps.len(),
{
    if steps.len() == 0 {
        s
    } else {
        applied(run(s, steps.drop_last()), steps.last().0, steps.last().1)
    }
}

/// Accepted sends, polls and confirmations are the steps of these names.
pub proof fn law_operations_are_steps(
    before: State,
    queue: Seq<char>,
    body: Seq<u8>,
    id: Seq<char>,
    now: u64,
    after: State,
)
    ensures
        forall|allowed: bool| #[trigger]
            relay::sends(before, queue, body, allowed, now, after, Ok(())) ==> after == applied(
                before,
                Step::Send(queue, body),
                now,
            ),
        forall|allowed: bool, e: RelayError| #[trigger]
            relay::sends(before, queue, body, allowed, now, after, Err(e)) ==> after == before,
        forall|r: Option<(String, Vec<u8>)>| #[trigger]
            relay::polls(before, queue, now, after, r) ==> after == applied(
                before,
                Step::Poll(queue),
                now,
            ),
        forall|known: bool| #[trigger]
            relay::acks(before, id, now, after, known) ==> after == applied(
                before,
                Step::Ack(id),
                now,
            ),
{
}

/// Operations keep lease ids unique and the two time spans as they are.
pub proof fn law_steps_keep_ids_unique(s: State, steps: Seq<(Step, u64)>)
    requires
        s.wf(),
    ensures
        run(s, steps).wf(),
        run(s, steps).ttl_ms == s.ttl_ms,
        run(s, steps).lease_ms == s.lease_ms,
    decreases steps.len(),
{
    if steps.len() > 0 {
        law_steps_keep_ids_unique(s, steps.drop_last());
        let t = run(s, steps.drop_last());
        let now = steps.last().1;
        let p = t.pruned(now);
        state::lemma_filter_distinct(t.leases, |g: Grant| !g.due(now));
        match steps.last().0 {
            Step::Poll(queue) => {
                let wanted = relay::lease_id_of(queue, p.messages(queue)[0].body, now);
                state::lemma_free_id(p.leases, wanted);
            },
            Step::Ack(id) => {
                state::lemma_filter_distinct(p.leases, |g: Grant| g.id != id);
            },
            _ => {},
        }
    }
}

/// The poll `step` leases a message under `id`.
pub open spec fn gives_out(s: State, step: Step, now: u64, id: Seq<char>) -> bool {
    match step {
        Step::Poll(queue) => s.pruned(now).messages(queue).len() > 0 && next_id(
            s.pruned(now),
            queue,
            now,
        ) == id,
        _ => false,
    }
}

/// Where no lease goes by `id`, none does after clearing out.
proof fn lemma_still_free(leases: Seq<Grant>, p: spec_fn(Grant) -> bool, id: Seq<char>)
    requires
        !state::holds(leases, id),
    ensures
        !state::holds(leases.filter(p), id),
{
    let kept = leases.filter(p);
    if state::holds(kept, id) {
        let i = choose|i: int| 0 <= i < kept.len() && (#[trigger] kept[i]).id == id;
        assert(kept.contains(kept[i]));
        laws::lemma_kept(leases, p, kept[i]);
        let j = choose|j: int| 0 <= j < leases.len() && leases[j] == kept[i];
        assert(leases[j].id == id);
    }
}

/// An id that is free stays free until a poll gives it out.
proof fn lemma_free_until_given(s: State, id: Seq<char>, steps: Seq<(Step, u64)>)
    requires
        !state::holds(s.leases, id),
        forall|k: int|
            0 <= k < steps.len() ==> !gives_out(
                run(s, steps.take(k)),
                (#[trigger] steps[k]).0,
                steps[k].1,
                id,
            ),
    ensures
        !state::holds(run(s, steps).leases, id),
    decreases steps.len(),
{
    if steps.len() > 0 {
        let rest = steps.drop_last();
        assert forall|k: int| 0 <= k < rest.len() implies !gives_out(
            run(s, rest.take(k)),
            (#[trigger] rest[k]).0,
            rest[k].1,
            id,
        ) by {
            assert(rest.take(k) =~= steps.take(k));
            assert(rest[k] == steps[k]);
        }
        lemma_free_until_given(s, id, rest);
        let n = steps.len() - 1;
        assert(steps.take(n) =~= rest);
        assert(steps[n] == steps.last());
        let t = run(s, rest);
        let now = steps.last().1;
        let p = t.pruned(now);
        lemma_still_free(t.leases, |g: Grant| !g.due(now), id);
        match steps.last().0 {
            Step::Poll(queue) => {
                if p.messages(queue).len() > 0 {
                    let after = p.leased(queue, next_id(p, queue, now), now);
                    if state::holds(after.leases, id) {
                        let i = choose|i: int|
                            0 <= i < after.leases.len() && (#[trigger] after.leases[i]).id == id;
                        if i < p.leases.len() {
                            assert(p.leases[i].id == id);
                        }
                    }
                }
            },
            Step::Ack(other) => {
                lemma_still_free(p.leases, |g: Grant| g.id != other, id);
            },
            _ => {},
        }
    }
}

/// A confirmed lease is gone: whatever is done afterwards, no confirmation
/// finds its id, for as long as no poll gives that id out again.
pub proof fn law_ack_is_final(
    s: State,
    id: Seq<char>,
    acked_at: u64,
    confirmed: State,
    known: bool,
    steps: Seq<(Step, u64)>,
    now: u64,
    after: State,
    again: bool,
)
    requires
        relay::acks(s, id, acked_at, confirmed, known),
        forall|k: int|
            0 <= k < steps.len() ==> !gives_out(
                run(confirmed, steps.take(k)),
                (#[trigger] steps[k]).0,
                steps[k].1,
                id,
            ),
        relay::acks(run(confirmed, steps), id, now, after, again),
    ensures
        !again,
{
    let p = s.pruned(acked_at);
    let others = |g: Grant| g.id != id;
    if state::holds(confirmed.leases, id) {
        let kept = confirmed.leases;
        let i = choose|i: int| 0 <= i < kept.len() && (#[trigger] kept[i]).id == id;
        p.leases.lemma_filter_pred(others, i);
    }
    lemma_free_until_given(confirmed, id, steps);
    lemma_still_free(run(confirmed, steps).leases, |g: Grant| !g.due(now), id);
}

/// The test for the message `m`.
pub open spec fn same(m: Message) -> spec_fn(Message) -> bool {
    |x: Message| x == m
}

/// The test for a lease on the message `m` of `queue`.
pub open spec fn lease_on(queue: Seq<char>, m: Message) -> spec_fn(Grant) -> bool {
    |g: Grant| g.queue == queue && g.msg == m
}

/// How many times `m` is held for the readers of `queue`, waiting or leased.
pub open spec fn copies(s: State, queue: Seq<char>, m: Message) -> nat {
    s.messages(queue).filter(same(m)).len() + s.leases.filter(lease_on(queue, m)).len()
}

/// A poll deletes nothing: every message is held as many times after it as
/// before it. What it hands out has moved from the front of its queue to a
/// lease that goes by the answered id, and all earlier leases are kept.
pub proof fn law_poll_deletes_nothing(
    before: State,
    queue: Seq<char>,
    now: u64,
    after: State,
    r: Option<(String, Vec<u8>)>,
)
    requires
        relay::polls(before, queue, now, after, r),
    ensures
        forall|q: Seq<char>, m: Message| #[trigger]
            copies(after, q, m) == copies(before.pruned(now), q, m),
        forall|q: Seq<char>| q != queue ==> #[trigger] after.messages(q) == before.pruned(
            now,
        ).messages(q),
        r is Some ==> {
            let p = before.pruned(now);
            &&& p.messages(queue) == seq![p.messages(queue)[0]] + after.messages(queue)
            &&& p.messages(queue)[0].body == r->Some_0.1@
            &&& !state::holds(p.leases, r->Some_0.0@)
            &&& after.leases == p.leases.push(
                Grant {
                    id: r->Some_0.0@,
                    queue,
                    msg: p.messages(queue)[0],
                    lease_until_ms: state::deadline(now, before.lease_ms),
                },
            )
        },
{
    let p = before.pruned(now);
    if r is Some {
        let front = p.messages(queue)[0];
        let rest = p.messages(queue).drop_first();
        assert(p.messages(queue) =~= seq![front] + rest);
        assert(after.messages(queue) == rest);
        assert forall|q: Seq<char>, m: Message| #[trigger] copies(after, q, m) == copies(
            p,
            q,
            m,
        ) by {
            let g = after.leases.last();
            state::lemma_filter_push(p.leases, g, lease_on(q, m));
            if q == queue {
                rest.lemma_filter_prepend(front, same(m));
            } else {
                assert(after.messages(q) == p.messages(q));
            }
        }
    }
}

/// Of what passes one test, no more passes a second than of everything.
proof fn lemma_filter_filter<A>(s: Seq<A>, p: spec_fn(A) -> bool, q: spec_fn(A) -> bool)
    ensures
        s.filter(p).filter(q).len() <= s.filter(q).len(),
    decreases s.len(),
{
    reveal(Seq::filter);
    if s.len() > 0 {
        let rest = s.drop_last();
        laws::lemma_split_last(s);
        lemma_filter_filter(rest, p, q);
        state::lemma_filter_push(rest, s.last(), p);
        state::lemma_filter_push(rest, s.last(), q);
        if p(s.last()) {
            state::lemma_filter_push(rest.filter(p), s.last(), q);
        }
    }
}

/// Of what passes a test, the copies of one value are all of them or none.
proof fn lemma_filter_same(s: Seq<Message>, p: spec_fn(Message) -> bool, m: Message)
    ensures
        s.filter(p).filter(same(m)).len() == if p(m) {
            s.filter(same(m)).len()
        } else {
            0
        },
    decreases s.len(),
{
    reveal(Seq::filter);
    if s.len() > 0 {
        let rest = s.drop_last();
        laws::lemma_split_last(s);
        lemma_filter_same(rest, p, m);
        state::lemma_filter_push(rest, s.last(), p);
        state::lemma_filter_push(rest, s.last(), same(m));
        if p(s.last()) {
            state::lemma_filter_push(rest.filter(p), s.last(), same(m));
        }
    }
}

/// A leased message that has not expired goes back to its queue or stays leased,
/// one or the other; one that has expired does neither.
proof fn lemma_leased_copies(leases: Seq<Grant>, queue: Seq<char>, m: Message, now: u64)
    ensures
        state::returning(leases, queue, now).filter(same(m)).len() + leases.filter(
            |g: Grant| !g.due(now),
        ).filter(lease_on(queue, m)).len() == if m.expires_unix_ms > now {
            leases.filter(lease_on(queue, m)).len()
        } else {
            0
        },
    decreases leases.len(),
{
    let runs = |g: Grant| !g.due(now);
    let of = lease_on(queue, m);
    reveal(Seq::filter);
    if leases.len() > 0 {
        let rest = leases.drop_last();
        let last = leases.last();
        laws::lemma_split_last(leases);
        lemma_leased_copies(rest, queue, m, now);
        state::lemma_returning_push(rest, last, queue, now);
        state::lemma_filter_push(rest, last, runs);
        state::lemma_filter_push(rest, last, of);
        state::lemma_filter_push(rest.filter(runs), last, of);
        state::lemma_filter_push(state::returning(rest, queue, now), last.msg, same(m));
    } else {
        assert(state::returning(leases, queue, now) =~= Seq::<Message>::empty());
    }
}

/// Clearing out drops exactly what has expired: of every other message as many
/// copies are held afterwards as before.
pub proof fn law_prune_drops_exactly_what_expired(
    s: State,
    queue: Seq<char>,
    m: Message,
    now: u64,
)
    ensures
        copies(s.pruned(now), queue, m) == if m.expires_unix_ms > now {
            copies(s, queue, m)
        } else {
            0
        },
{
    let l = |m: Message| m.expires_unix_ms > now;
    let back = state::returning(s.leases, queue, now);
    let live = state::live(s.messages(queue), now);
    assert(s.pruned(now).messages(queue) =~= back + live);
    Seq::filter_distributes_over_add(back, live, same(m));
    lemma_filter_same(s.messages(queue), l, m);
    lemma_leased_copies(s.leases, queue, m, now);
}

/// How many of `steps` send the message `m` to `queue` when messages live for
/// `ttl_ms`.
pub open spec fn made(steps: Seq<(Step, u64)>, queue: Seq<char>, m: Message, ttl_ms: u64) -> nat
    decreases steps.len(),
{
    if steps.len() == 0 {
        0
    } else {
        made(steps.drop_last(), queue, m, ttl_ms) + match steps.last().0 {
            Step::Send(q, body) => if q == queue && m == (Message {
                body,
                expires_unix_ms: state::deadline(steps.last().1, ttl_ms),
            }) {
                1nat
            } else {
                0nat
            },
            _ => 0nat,
        }
    }
}

/// Only sends make copies: over any run of operations a message is held no more
/// often than it was held before and has been sent since.
pub proof fn law_only_sends_make_copies(
    s: State,
    steps: Seq<(Step, u64)>,
    queue: Seq<char>,
    m: Message,
)
    requires
        s.wf(),
    ensures
        copies(run(s, steps), queue, m) <= copies(s, queue, m) + made(
            steps,
            queue,
            m,
            s.ttl_ms,
        ),
    decreases steps.len(),
{
    if steps.len() > 0 {
        let rest = steps.drop_last();
        law_only_sends_make_copies(s, rest, queue, m);
        law_steps_keep_ids_unique(s, rest);
        let t = run(s, rest);
        let now = steps.last().1;
        let p = t.pruned(now);
        let of = lease_on(queue, m);
        law_prune_drops_exactly_what_expired(t, queue, m, now);
        match steps.last().0 {
            Step::Send(q, body) => {
                let msg = Message { body, expires_unix_ms: state::deadline(now, s.ttl_ms) };
                state::lemma_filter_push(p.messages(queue), msg, same(m));
                let after = t.sent(q, body, now);
                if q == queue {
                    assert(after.messages(queue) == p.messages(queue).push(msg));
                } else {
                    assert(after.messages(queue) == p.messages(queue));
                }
            },
            Step::Poll(q) => {
                if p.messages(q).len() > 0 {
                    let after = p.leased(q, next_id(p, q, now), now);
                    let front = p.messages(q)[0];
                    let behind = p.messages(q).drop_first();
                    state::lemma_filter_push(p.leases, after.leases.last(), of);
                    behind.lemma_filter_prepend(front, same(m));
                    assert(p.messages(q) =~= seq![front] + behind);
                    if q == queue {
                        assert(after.messages(queue) == behind);
                    } else {
                        assert(after.messages(queue) == p.messages(queue));
                    }
                }
            },
            Step::Ack(id) => {
                lemma_filter_filter(p.leases, |g: Grant| g.id != id, of);
            },
            Step::Prune => {},
        }
    }
}

/// Dropping a unique lease drops one copy of its message.
proof fn lemma_without_copies(leases: Seq<Grant>, i: int, queue: Seq<char>, m: Message)
    requires
        state::distinct_ids(leases),
        0 <= i < leases.len(),
        leases[i].queue == queue,
        leases[i].msg == m,
    ensures
        state::without(leases, leases[i].id).filter(lease_on(queue, m)).len() + 1
            == leases.filter(lease_on(queue, m)).len(),
    decreases leases.len(),
{
    let id = leases[i].id;
    let of = lease_on(queue, m);
    let others = |g: Grant| g.id != id;
    let rest = leases.drop_last();
    let last = leases.last();
    laws::lemma_split_last(leases);
    state::lemma_filter_push(rest, last, of);
    state::lemma_filter_push(rest, last, others);
    if i < rest.len() {
        assert(state::distinct_ids(rest)) by {
            assert forall|a: int, b: int| 0 <= a < b < rest.len() implies (#[trigger] rest[a]).id
                != (#[trigger] rest[b]).id by {
                assert(leases[a].id != leases[b].id);
            }
        }
        lemma_without_copies(rest, i, queue, m);
        assert(leases[i].id != leases[leases.len() - 1].id);
        state::lemma_filter_push(state::without(rest, id), last, of);
    } else {
        assert forall|j: int| 0 <= j < rest.len() implies (#[trigger] rest[j]).id != id by {
            assert(leases[j].id != leases[leases.len() - 1].id);
        }
        crate::store::lemma_without_none(rest, id);
    }
}

/// A confirmed message is gone for good. One copy of it less is held, and only
/// sends can make up for that: once no copy is left, no later poll hands it
/// out, whatever else is done.
pub proof fn law_confirmed_does_not_come_back(
    s: State,
    i: int,
    acked_at: u64,
    confirmed: State,
    known: bool,
    steps: Seq<(Step, u64)>,
    now: u64,
    after: State,
    r: Option<(String, Vec<u8>)>,
)
    requires
        s.wf(),
        0 <= i < s.pruned(acked_at).leases.len(),
        relay::acks(s, s.pruned(acked_at).leases[i].id, acked_at, confirmed, known),
        relay::polls(
            run(confirmed, steps),
            s.pruned(acked_at).leases[i].queue,
            now,
            after,
            r,
        ),
    ensures
        ({
            let p = s.pruned(acked_at);
            let queue = p.leases[i].queue;
            let m = p.leases[i].msg;
            &&& known
            &&& copies(confirmed, queue, m) + 1 == copies(p, queue, m)
            &&& copies(run(confirmed, steps), queue, m) + 1 <= copies(p, queue, m) + made(
                steps,
                queue,
                m,
                s.ttl_ms,
            )
            &&& r is Some && copies(p, queue, m) == 1 && made(steps, queue, m, s.ttl_ms) == 0
                ==> run(confirmed, steps).pruned(now).messages(queue)[0] != m
        }),
{
    let p = s.pruned(acked_at);
    let id = p.leases[i].id;
    let queue = p.leases[i].queue;
    let m = p.leases[i].msg;
    state::lemma_filter_distinct(s.leases, |g: Grant| !g.due(acked_at));
    lemma_without_copies(p.leases, i, queue, m);
    state::lemma_filter_distinct(p.leases, |g: Grant| g.id != id);
    assert(state::holds(p.leases, id));
    law_only_sends_make_copies(confirmed, steps, queue, m);
    let t = run(confirmed, steps);
    law_prune_drops_exactly_what_expired(t, queue, m, now);
    let waiting = t.pruned(now).messages(queue);
    if waiting.len() > 0 && waiting[0] == m {
        waiting.lemma_filter_contains(same(m), 0);
        assert(waiting.filter(same(m)).len() > 0);
    }
}

/// `step` confirms a lease on the message `m` of `queue`.
pub open spec fn confirms(s: State, step: Step, now: u64, queue: Seq<char>, m: Message) -> bool {
    match step {
        Step::Ack(id) => exists|i: int|
            0 <= i < s.pruned(now).leases.len() && (#[trigger] s.pruned(now).leases[i]).id == id
                && s.pruned(now).leases[i].queue == queue && s.pruned(now).leases[i].msg == m,
        _ => false,
    }
}

/// A message that has not expired is not lost over any run of operations, until
/// a lease on it is confirmed.
pub proof fn law_live_messages_stay_until_confirmed(
    s: State,
    steps: Seq<(Step, u64)>,
    queue: Seq<char>,
    m: Message,
)
    requires
        laws::keeps(s, queue, m),
        forall|k: int|
            0 <= k < steps.len() ==> (#[trigger] steps[k]).1 < m.expires_unix_ms && !confirms(
                run(s, steps.take(k)),
                steps[k].0,
                steps[k].1,
                queue,
                m,
            ),
    ensures
        laws::keeps(run(s, steps), queue, m),
    decreases steps.len(),
{
    if steps.len() > 0 {
        let rest = steps.drop_last();
        assert forall|k: int| 0 <= k < rest.len() implies (#[trigger] rest[k]).1
            < m.expires_unix_ms && !confirms(
            run(s, rest.take(k)),
            rest[k].0,
            rest[k].1,
            queue,
            m,
        ) by {
            assert(rest.take(k) =~= steps.take(k));
            assert(rest[k] == steps[k]);
        }
        law_live_messages_stay_until_confirmed(s, rest, queue, m);
        let n = steps.len() - 1;
        assert(steps.take(n) =~= rest);
        assert(steps[n] == steps.last());
        let t = run(s, rest);
        let now = steps.last().1;
        let none = Seq::<char>::empty();
        match steps.last().0 {
            Step::Send(other, body) => {
                laws::law_live_messages_stay(t, queue, m, other, body, none, now);
            },
            Step::Poll(other) => {
                let id = next_id(t.pruned(now), other, now);
                laws::law_live_messages_stay(t, queue, m, other, Seq::empty(), id, now);
            },
            Step::Ack(id) => {
                laws::law_live_messages_stay(t, queue, m, none, Seq::empty(), id, now);
            },
            Step::Prune => {
                laws::law_live_messages_stay(t, queue, m, none, Seq::empty(), none, now);
            },
        }
    }
}

/// `step` does not confirm `id`.
pub open spec fn spares(step: Step, id: Seq<char>) -> bool {
    match step {
        Step::Ack(other) => other != id,
        _ => true,
    }
}

/// One operation before a lease is due keeps the lease.
proof fn lemma_lease_stays(s: State, g: Grant, step: Step, now: u64)
    requires
        s.leases.contains(g),
        !g.due(now),
        spares(step, g.id),
    ensures
        applied(s, step, now).leases.contains(g),
{
    let runs = |g: Grant| !g.due(now);
    let i = choose|i: int| 0 <= i < s.leases.len() && s.leases[i] == g;
    s.leases.lemma_filter_contains(runs, i);
    let p = s.pruned(now);
    let k = choose|k: int| 0 <= k < p.leases.len() && p.leases[k] == g;
    match step {
        Step::Poll(queue) => {
            if p.messages(queue).len() > 0 {
                assert(applied(s, step, now).leases[k] == g);
            }
        },
        Step::Ack(id) => {
            p.leases.lemma_filter_contains(|h: Grant| h.id != id, k);
        },
        _ => {},
    }
}

/// A lease stays through any run of operations before it is due that does not
/// confirm it.
proof fn lemma_lease_runs(s: State, g: Grant, steps: Seq<(Step, u64)>)
    requires
        s.leases.contains(g),
        forall|k: int|
            0 <= k < steps.len() ==> !g.due((#[trigger] steps[k]).1) && spares(steps[k].0, g.id),
    ensures
        run(s, steps).leases.contains(g),
    decreases steps.len(),
{
    if steps.len() > 0 {
        let rest = steps.drop_last();
        assert forall|k: int| 0 <= k < rest.len() implies !g.due((#[trigger] rest[k]).1) && spares(
            rest[k].0,
            g.id,
        ) by {
            assert(rest[k] == steps[k]);
        }
        lemma_lease_runs(s, g, rest);
        let n = steps.len() - 1;
        assert(steps[n] == steps.last());
        lemma_lease_stays(run(s, rest), g, steps.last().0, steps.last().1);
    }
}

/// What returns to a queue does not hang on a lease that is not due.
proof fn lemma_returning_without(leases: Seq<Grant>, id: Seq<char>, queue: Seq<char>, now: u64)
    requires
        forall|i: int|
            0 <= i < leases.len() && (#[trigger] leases[i]).id == id ==> !leases[i].due(now),
    ensures
        state::returning(state::without(leases, id), queue, now) == state::returning(
            leases,
            queue,
            now,
        ),
    decreases leases.len(),
{
    reveal(Seq::filter);
    if leases.len() > 0 {
        let rest = leases.drop_last();
        let last = leases.last();
        laws::lemma_split_last(leases);
        assert(leases[leases.len() - 1] == last);
        assert forall|i: int| 0 <= i < rest.len() && (#[trigger] rest[i]).id == id implies !rest[i].due(
            now,
        ) by {
            assert(leases[i] == rest[i]);
        }
        lemma_returning_without(rest, id, queue, now);
        state::lemma_returning_push(rest, last, queue, now);
        state::lemma_filter_push(rest, last, |g: Grant| g.id != id);
        if last.id != id {
            state::lemma_returning_push(state::without(rest, id), last, queue, now);
        }
    }
}

/// A leased message is set aside until its lease is due: through any run of
/// operations that does not confirm it the lease stays, and meanwhile every
/// queue offers exactly what it would offer if that message did not exist.
pub proof fn law_leased_message_is_set_aside(
    s: State,
    g: Grant,
    steps: Seq<(Step, u64)>,
    queue: Seq<char>,
    now: u64,
)
    requires
        s.wf(),
        s.leases.contains(g),
        forall|k: int|
            0 <= k < steps.len() ==> !g.due((#[trigger] steps[k]).1) && spares(steps[k].0, g.id),
        !g.due(now),
    ensures
        run(s, steps).leases.contains(g),
        run(s, steps).pruned(now).messages(queue) == run(s, steps).acked(g.id).pruned(
            now,
        ).messages(queue),
{
    lemma_lease_runs(s, g, steps);
    law_steps_keep_ids_unique(s, steps);
    let t = run(s, steps);
    let i = choose|i: int| 0 <= i < t.leases.len() && t.leases[i] == g;
    assert forall|j: int| 0 <= j < t.leases.len() && (#[trigger] t.leases[j]).id
        == g.id implies !t.leases[j].due(now) by {
        if j < i {
            assert(t.leases[j].id != t.leases[i].id);
        } else if i < j {
            assert(t.leases[i].id != t.leases[j].id);
        }
    }
    lemma_returning_without(t.leases, g.id, queue, now);
    assert(t.acked(g.id).messages(queue) == t.messages(queue));
    assert(t.pruned(now).messages(queue) =~= t.pruned_queue(queue, now));
    assert(t.acked(g.id).pruned(now).messages(queue) =~= t.acked(g.id).pruned_queue(queue, now));
}

/// The message of `g` is owed to its queue next: its lease is there, or the lease
/// has run out and the message waits in front. All other leases on the queue are
/// `quiet`.
pub open spec fn owed(s: State, g: Grant, quiet: spec_fn(Grant) -> bool) -> bool {
    ||| {
        &&& s.leases.contains(g)
        &&& forall|j: int|
            0 <= j < s.leases.len() && (#[trigger] s.leases[j]).queue == g.queue ==> s.leases[j]
                == g || quiet(s.leases[j])
    }
    ||| {
        &&& s.messages(g.queue).len() > 0
        &&& s.messages(g.queue)[0] == g.msg
        &&& forall|j: int|
            0 <= j < s.leases.len() && (#[trigger] s.leases[j]).queue == g.queue ==> quiet(
                s.leases[j],
            )
    }
}

/// No quiet lease sends its message back at `now`.
pub open spec fn none_returns(quiet: spec_fn(Grant) -> bool, now: u64) -> bool {
    forall|h: Grant| #[trigger] quiet(h) ==> !h.returns_to(h.queue, now)
}

/// What is owed stays owed through clearing out, and waits in front once its
/// lease has run out.
proof fn lemma_owed_prune(s: State, g: Grant, quiet: spec_fn(Grant) -> bool, now: u64)
    requires
        owed(s, g, quiet),
        none_returns(quiet, now),
        g.msg.expires_unix_ms > now,
    ensures
        owed(s.pruned(now), g, quiet),
        g.lease_until_ms <= now ==> s.pruned(now).messages(g.queue).len() > 0 && s.pruned(
            now,
        ).messages(g.queue)[0] == g.msg,
{
    let queue = g.queue;
    let p = s.pruned(now);
    let runs = |h: Grant| !h.due(now);
    let goes = |h: Grant| h.returns_to(queue, now);
    let back = state::returning(s.leases, queue, now);
    let live = state::live(s.messages(queue), now);
    let kept = s.leases.filter(goes);
    assert(p.messages(queue) =~= back + live);
    assert forall|j: int| 0 <= j < p.leases.len() implies !(#[trigger] p.leases[j]).due(now)
        && s.leases.contains(p.leases[j]) by {
        assert(p.leases.contains(p.leases[j]));
        laws::lemma_kept(s.leases, runs, p.leases[j]);
    }
    if kept.len() > 0 {
        assert(kept.contains(kept[0]));
        laws::lemma_kept(s.leases, goes, kept[0]);
        let j = choose|j: int| 0 <= j < s.leases.len() && s.leases[j] == kept[0];
        assert(!quiet(s.leases[j]));
    }
    if s.leases.contains(g) && forall|j: int|
        0 <= j < s.leases.len() && (#[trigger] s.leases[j]).queue == queue ==> s.leases[j] == g
            || quiet(s.leases[j]) {
        let i = choose|i: int| 0 <= i < s.leases.len() && s.leases[i] == g;
        if g.lease_until_ms <= now {
            s.leases.lemma_filter_contains(goes, i);
            assert(kept.len() > 0);
            assert(back[0] == g.msg);
        } else {
            s.leases.lemma_filter_contains(runs, i);
        }
    } else {
        let l = |m: Message| m.expires_unix_ms > now;
        let m = s.messages(queue);
        assert(back.len() == 0);
        m.drop_first().lemma_filter_prepend(m[0], l);
        assert(m =~= seq![m[0]] + m.drop_first());
        assert(live[0] == g.msg);
    }
}

/// What is owed stays owed through any operation but a poll of its queue and
/// its own confirmation.
proof fn lemma_owed_step(
    s: State,
    g: Grant,
    quiet: spec_fn(Grant) -> bool,
    step: Step,
    now: u64,
)
    requires
        owed(s, g, quiet),
        none_returns(quiet, now),
        g.msg.expires_unix_ms > now,
        spares(step, g.id),
        step != Step::Poll(g.queue),
    ensures
        owed(applied(s, step, now), g, quiet),
{
    lemma_owed_prune(s, g, quiet, now);
    let p = s.pruned(now);
    let t = applied(s, step, now);
    match step {
        Step::Send(queue, body) => {
            if p.messages(g.queue).len() > 0 {
                assert(t.messages(g.queue)[0] == p.messages(g.queue)[0]);
            }
        },
        Step::Poll(queue) => {
            if p.messages(queue).len() > 0 {
                assert(t.messages(g.queue) == p.messages(g.queue));
                if p.leases.contains(g) {
                    let k = choose|k: int| 0 <= k < p.leases.len() && p.leases[k] == g;
                    assert(t.leases[k] == g);
                }
            }
        },
        Step::Ack(id) => {
            let others = |h: Grant| h.id != id;
            assert(t.messages(g.queue) == p.messages(g.queue));
            assert forall|j: int| 0 <= j < t.leases.len() implies p.leases.contains(
                #[trigger] t.leases[j],
            ) by {
                assert(t.leases.contains(t.leases[j]));
                laws::lemma_kept(p.leases, others, t.leases[j]);
            }
            if p.leases.contains(g) {
                let k = choose|k: int| 0 <= k < p.leases.len() && p.leases[k] == g;
                p.leases.lemma_filter_contains(others, k);
            }
        },
        Step::Prune => {},
    }
}

/// What is owed stays owed through a run of such operations.
proof fn lemma_owed_run(
    s: State,
    g: Grant,
    quiet: spec_fn(Grant) -> bool,
    steps: Seq<(Step, u64)>,
)
    requires
        owed(s, g, quiet),
        forall|k: int|
            0 <= k < steps.len() ==> g.msg.expires_unix_ms > (#[trigger] steps[k]).1 && spares(
                steps[k].0,
                g.id,
            ) && steps[k].0 != Step::Poll(g.queue) && none_returns(quiet, steps[k].1),
    ensures
        owed(run(s, steps), g, quiet),
    decreases steps.len(),
{
    if steps.len() > 0 {
        let rest = steps.drop_last();
        assert forall|k: int| 0 <= k < rest.len() implies g.msg.expires_unix_ms > (
        #[trigger] rest[k]).1 && spares(rest[k].0, g.id) && rest[k].0 != Step::Poll(g.queue)
            && none_returns(quiet, rest[k].1) by {
            assert(rest[k] == steps[k]);
        }
        lemma_owed_run(s, g, quiet, rest);
        let n = steps.len() - 1;
        assert(steps[n] == steps.last());
        lemma_owed_step(run(s, rest), g, quiet, steps.last().0, steps.last().1);
    }
}

/// The lease that a poll of `queue` at `now` grants under `id`.
pub open spec fn granted(before: State, queue: Seq<char>, now: u64, id: Seq<char>) -> Grant {
    Grant {
        id,
        queue,
        msg: before.pruned(now).messages(queue)[0],
        lease_until_ms: state::deadline(now, before.lease_ms),
    }
}

/// The lease `h` does not send its message back at the time of any of `steps`,
/// nor at `now`: it has not run out by then, or its message has expired.
pub open spec fn never_returns(h: Grant, steps: Seq<(Step, u64)>, now: u64) -> bool {
    &&& !h.returns_to(h.queue, now)
    &&& forall|k: int| 0 <= k < steps.len() ==> !h.returns_to(h.queue, (#[trigger] steps[k]).1)
}

/// The lease that a poll grants is there after any run before it is due that
/// does not confirm it, and no other lease goes by its id.
proof fn lemma_grant_runs(
    before: State,
    queue: Seq<char>,
    polled_at: u64,
    leased: State,
    first: Option<(String, Vec<u8>)>,
    early: Seq<(Step, u64)>,
)
    requires
        before.wf(),
        relay::polls(before, queue, polled_at, leased, first),
        first is Some,
        ({
            let g = granted(before, queue, polled_at, first->Some_0.0@);
            forall|k: int|
                0 <= k < early.len() ==> !g.due((#[trigger] early[k]).1) && spares(
                    early[k].0,
                    g.id,
                )
        }),
    ensures
        ({
            let g = granted(before, queue, polled_at, first->Some_0.0@);
            let t = run(leased, early);
            &&& t.leases.contains(g)
            &&& forall|j: int|
                0 <= j < t.leases.len() && (#[trigger] t.leases[j]).id == g.id ==> t.leases[j] == g
        }),
{
    let g = granted(before, queue, polled_at, first->Some_0.0@);
    let one = seq![(Step::Poll(queue), polled_at)];
    laws::law_poll_leases(before, queue, polled_at, leased, first);
    law_steps_keep_ids_unique(before, one);
    law_operations_are_steps(before, queue, Seq::empty(), g.id, polled_at, leased);
    assert(one.drop_last() =~= Seq::empty());
    assert(run(before, Seq::empty()) == before);
    assert(run(before, one) == leased);
    lemma_lease_runs(leased, g, early);
    law_steps_keep_ids_unique(leased, early);
    let t = run(leased, early);
    let i = choose|i: int| 0 <= i < t.leases.len() && t.leases[i] == g;
    assert forall|j: int| 0 <= j < t.leases.len() && (#[trigger] t.leases[j]).id
        == g.id implies t.leases[j] == g by {
        if j < i {
            assert(t.leases[j].id != t.leases[i].id);
        } else if i < j {
            assert(t.leases[i].id != t.leases[j].id);
        }
    }
}

/// A polled message that is not confirmed is delivered again. `early` is done
/// before its lease runs out, `late` afterwards or before, up to the next poll
/// of the queue at a time when the lease has run out: that poll hands the
/// message out, ahead of everything else in the queue. The message must not
/// have expired, and no other lease on the queue may send its message back in
/// the meantime.
pub proof fn law_unconfirmed_is_delivered_again(
    before: State,
    queue: Seq<char>,
    polled_at: u64,
    leased: State,
    first: Option<(String, Vec<u8>)>,
    early: Seq<(Step, u64)>,
    late: Seq<(Step, u64)>,
    now: u64,
    after: State,
    second: Option<(String, Vec<u8>)>,
)
    requires
        before.wf(),
        relay::polls(before, queue, polled_at, leased, first),
        first is Some,
        ({
            let g = granted(before, queue, polled_at, first->Some_0.0@);
            let t = run(leased, early);
            &&& forall|k: int|
                0 <= k < early.len() ==> !g.due((#[trigger] early[k]).1) && spares(
                    early[k].0,
                    g.id,
                )
            &&& forall|j: int|
                0 <= j < t.leases.len() && (#[trigger] t.leases[j]).queue == queue
                    && t.leases[j].id != g.id ==> never_returns(t.leases[j], late, now)
            &&& forall|k: int|
                0 <= k < late.len() ==> (#[trigger] late[k]).1 < g.msg.expires_unix_ms && spares(
                    late[k].0,
                    g.id,
                ) && late[k].0 != Step::Poll(queue)
            &&& g.lease_until_ms <= now < g.msg.expires_unix_ms
        }),
        relay::polls(run(run(leased, early), late), queue, now, after, second),
    ensures
        second is Some,
        second->Some_0.1@ == first->Some_0.1@,
        run(run(leased, early), late).pruned(now).messages(queue)[0] == before.pruned(
            polled_at,
        ).messages(queue)[0],
{
    let g = granted(before, queue, polled_at, first->Some_0.0@);
    let quiet = |h: Grant| never_returns(h, late, now);
    lemma_grant_runs(before, queue, polled_at, leased, first, early);
    let t = run(leased, early);
    assert(owed(t, g, quiet));
    assert(none_returns(quiet, now));
    assert forall|k: int| 0 <= k < late.len() implies none_returns(
        quiet,
        (#[trigger] late[k]).1,
    ) by {
        assert forall|h: Grant| #[trigger] quiet(h) implies !h.returns_to(
            h.queue,
            late[k].1,
        ) by {}
    }
    lemma_owed_run(t, g, quiet, late);
    lemma_owed_prune(run(t, late), g, quiet, now);
}

/// Leases that run out together bring their messages back in the order in which
/// they were granted: a polled message that is not confirmed is what the first
/// poll after its lease ran out hands out, whatever leases on the queue were
/// granted later, as long as no older one sends its message back too.
pub proof fn law_oldest_lease_is_delivered_first(
    before: State,
    queue: Seq<char>,
    polled_at: u64,
    leased: State,
    first: Option<(String, Vec<u8>)>,
    early: Seq<(Step, u64)>,
    i: int,
    now: u64,
    after: State,
    second: Option<(String, Vec<u8>)>,
)
    requires
        before.wf(),
        relay::polls(before, queue, polled_at, leased, first),
        first is Some,
        ({
            let g = granted(before, queue, polled_at, first->Some_0.0@);
            let t = run(leased, early);
            &&& forall|k: int|
                0 <= k < early.len() ==> !g.due((#[trigger] early[k]).1) && spares(
                    early[k].0,
                    g.id,
                )
            &&& 0 <= i < t.leases.len()
            &&& t.leases[i].id == g.id
            &&& forall|j: int| 0 <= j < i ==> !(#[trigger] t.leases[j]).returns_to(queue, now)
            &&& g.lease_until_ms <= now < g.msg.expires_unix_ms
        }),
        relay::polls(run(leased, early), queue, now, after, second),
    ensures
        second is Some,
        second->Some_0.1@ == first->Some_0.1@,
        run(leased, early).pruned(now).messages(queue)[0] == before.pruned(polled_at).messages(
            queue,
        )[0],
{
    let g = granted(before, queue, polled_at, first->Some_0.0@);
    let t = run(leased, early);
    let goes = |h: Grant| h.returns_to(queue, now);
    lemma_grant_runs(before, queue, polled_at, leased, first, early);
    assert(t.leases[i] == g);
    let older = t.leases.take(i);
    let younger = t.leases.skip(i + 1);
    laws::lemma_filter_none(older, goes);
    younger.lemma_filter_prepend(g, goes);
    Seq::filter_distributes_over_add(older, seq![g] + younger, goes);
    assert(t.leases =~= older + (seq![g] + younger));
    let back = state::returning(t.leases, queue, now);
    assert(t.leases.filter(goes)[0] == g);
    assert(back[0] == g.msg);
    assert(t.pruned(now).messages(queue) =~= t.pruned_queue(queue, now));
}

} // verus!
