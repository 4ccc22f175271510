//! What holds of the relay across operations.
use crate::http;
use crate::onion::{self, OnionLayer};
use crate::relay::{self, MAX_BODY};
use crate::reply;
use crate::server::{self, Served};
use crate::state::{self, Grant, Message, State};
use crate::store;
use crate::text;
use vstd::prelude::*;

verus! {

/// A sequence split behind its last element, for inductions over leases.
pub(crate) proof fn lemma_split_last<A>(s: Seq<A>)
    requires
        s.len() > 0,
    ensures
        s == s.drop_last().push(s.last()),
{
    assert(s =~= s.drop_last().push(s.last()));
}

/// Only elements that pass are kept, and every kept one was there.
pub(crate) proof fn lemma_kept<A>(s: Seq<A>, p: spec_fn(A) -> bool, x: A)
    requires
        s.filter(p).contains(x),
    ensures
        p(x),
        s.contains(x),
{
    s.lemma_filter_contains_rev(p, x);
    let i = choose|i: int| 0 <= i < s.filter(p).len() && s.filter(p)[i] == x;
    s.lemma_filter_pred(p, i);
}

/// Where everything passes, filtering changes nothing.
pub(crate) proof fn lemma_filter_all<A>(s: Seq<A>, p: spec_fn(A) -> bool)
    requires
        forall|i: int| 0 <= i < s.len() ==> p(#[trigger] s[i]),
    ensures
        s.filter(p) == s,
    decreases s.len(),
{
    reveal(Seq::filter);
    if s.len() > 0 {
        lemma_filter_all(s.drop_last(), p);
        lemma_split_last(s);
    }
}

/// Where nothing passes, filtering leaves nothing.
pub(crate) proof fn lemma_filter_none<A>(s: Seq<A>, p: spec_fn(A) -> bool)
    requires
        forall|i: int| 0 <= i < s.len() ==> !p(#[trigger] s[i]),
    ensures
        s.filter(p).len() == 0,
    decreases s.len(),
{
    reveal(Seq::filter);
    if s.len() > 0 {
        lemma_filter_none(s.drop_last(), p);
    }
}

/// Clearing out leaves nothing expired and no lease that is due: every message
/// still waiting, and every message still leased, is live.
pub proof fn law_nothing_expired_stays(s: State, now: u64)
    ensures
        forall|q: Seq<char>, i: int|
            0 <= i < s.pruned(now).messages(q).len() ==> (#[trigger] s.pruned(now).messages(
                q,
            )[i]).expires_unix_ms > now,
        forall|i: int|
            0 <= i < s.pruned(now).leases.len() ==> !(#[trigger] s.pruned(now).leases[i]).due(now),
{
    assert forall|q: Seq<char>, i: int|
        0 <= i < s.pruned(now).messages(q).len() implies (#[trigger] s.pruned(now).messages(
        q,
    )[i]).expires_unix_ms > now by {
        let back = state::returning(s.leases, q, now);
        let live = state::live(s.messages(q), now);
        if i < back.len() {
            s.leases.lemma_filter_pred(|g: Grant| g.returns_to(q, now), i);
        } else {
            s.messages(q).lemma_filter_pred(
                |m: Message| m.expires_unix_ms > now,
                i - back.len(),
            );
        }
    }
    assert forall|i: int| 0 <= i < s.pruned(now).leases.len() implies !(#[trigger] s.pruned(
        now,
    ).leases[i]).due(now) by {
        s.leases.lemma_filter_pred(|g: Grant| !g.due(now), i);
    }
}

/// A relay that holds nothing expired and no due lease is already cleared out,
/// except that empty queues disappear.
proof fn lemma_settled(s: State, now: u64)
    requires
        forall|q: Seq<char>, i: int|
            0 <= i < s.messages(q).len() ==> (#[trigger] s.messages(q)[i]).expires_unix_ms > now,
        forall|i: int| 0 <= i < s.leases.len() ==> !(#[trigger] s.leases[i]).due(now),
    ensures
        forall|q: Seq<char>| #[trigger] s.pruned(now).messages(q) == s.messages(q),
        s.pruned(now).leases == s.leases,
{
    assert forall|q: Seq<char>| #[trigger] s.pruned(now).messages(q) == s.messages(q) by {
        lemma_filter_none(s.leases, |g: Grant| g.returns_to(q, now));
        lemma_filter_all(s.messages(q), |m: Message| m.expires_unix_ms > now);
        assert(s.pruned_queue(q, now) =~= s.messages(q));
        assert(s.pruned(now).messages(q) =~= s.messages(q));
    }
    lemma_filter_all(s.leases, |g: Grant| !g.due(now));
}

/// Clearing out twice at one instant is clearing out once.
pub proof fn law_prune_is_idempotent(s: State, now: u64)
    ensures
        s.pruned(now).pruned(now) == s.pruned(now),
{
    let p = s.pruned(now);
    law_nothing_expired_stays(s, now);
    lemma_settled(p, now);
    assert forall|q: Seq<char>| #[trigger] p.pruned(now).queues.contains_key(q)
        == p.queues.contains_key(q) && (p.queues.contains_key(q) ==> p.pruned(now).queues[q]
        == p.queues[q]) by {
        assert(p.pruned(now).messages(q) == p.messages(q));
        assert(p.pruned_queue(q, now) == p.pruned(now).messages(q) || p.pruned_queue(q, now).len()
            == 0);
    }
    assert(p.pruned(now).queues =~= p.queues);
    assert(p.pruned(now) =~= p);
}

/// What one queue is sent, or has polled from it, does not show in another.
pub proof fn law_queues_are_separate(
    s: State,
    queue: Seq<char>,
    other: Seq<char>,
    body: Seq<u8>,
    id: Seq<char>,
    now: u64,
)
    requires
        other != queue,
    ensures
        s.sent(queue, body, now).messages(other) == s.pruned(now).messages(other),
        s.pruned(now).leased(queue, id, now).messages(other) == s.pruned(now).messages(other),
        s.pruned(now).acked(id).messages(other) == s.pruned(now).messages(other),
{
}

/// A poll hands out the first message of its queue that has not expired, and
/// the live ones behind it stay in order, at any time at which no lease on the
/// queue runs out.
pub proof fn law_poll_takes_the_first_live(
    s: State,
    queue: Seq<char>,
    i: int,
    now: u64,
    after: State,
    r: Option<(String, Vec<u8>)>,
)
    requires
        state::returning(s.leases, queue, now).len() == 0,
        0 <= i < s.messages(queue).len(),
        s.messages(queue)[i].expires_unix_ms > now,
        forall|j: int| 0 <= j < i ==> (#[trigger] s.messages(queue)[j]).expires_unix_ms <= now,
        relay::polls(s, queue, now, after, r),
    ensures
        r is Some,
        r->Some_0.1@ == s.messages(queue)[i].body,
        after.messages(queue) == state::live(s.messages(queue).skip(i + 1), now),
{
    let m = s.messages(queue);
    let l = |m: Message| m.expires_unix_ms > now;
    let rest = state::live(m.skip(i + 1), now);
    lemma_filter_none(m.take(i), l);
    assert(m.take(i).filter(l) =~= Seq::<Message>::empty());
    m.skip(i + 1).lemma_filter_prepend(m[i], l);
    Seq::filter_distributes_over_add(m.take(i), seq![m[i]] + m.skip(i + 1), l);
    assert(m =~= m.take(i) + (seq![m[i]] + m.skip(i + 1)));
    assert(s.pruned_queue(queue, now) =~= seq![m[i]] + rest);
    assert(s.pruned(now).messages(queue) =~= seq![m[i]] + rest);
    assert((seq![m[i]] + rest).drop_first() =~= rest);
}

/// The relay after `n` polls of `queue` at `now`, each of which found a
/// message.
pub open spec fn drained(s: State, queue: Seq<char>, now: u64, n: nat) -> State
    decreases n,
{
    if n == 0 {
        s
    } else {
        let p = drained(s, queue, now, (n - 1) as nat).pruned(now);
        p.leased(
            queue,
            state::free_id(
                p.leases,
                relay::lease_id_of(queue, p.messages(queue)[0].body, now),
            ),
            now,
        )
    }
}

/// Polls at one instant take messages off the front, one each.
proof fn lemma_drained(s: State, queue: Seq<char>, now: u64, n: nat)
    requires
        state::deadline(now, s.lease_ms) > now,
        n <= s.pruned(now).messages(queue).len(),
    ensures
        drained(s, queue, now, n).lease_ms == s.lease_ms,
        drained(s, queue, now, n).pruned(now).messages(queue) == s.pruned(now).messages(
            queue,
        ).skip(n as int),
    decreases n,
{
    let m = s.pruned(now).messages(queue);
    if n == 0 {
        assert(m.skip(0) =~= m);
    } else {
        let k = (n - 1) as nat;
        lemma_drained(s, queue, now, k);
        let d = drained(s, queue, now, k);
        let p = d.pruned(now);
        let id = state::free_id(
            p.leases,
            relay::lease_id_of(queue, p.messages(queue)[0].body, now),
        );
        let next = p.leased(queue, id, now);
        law_nothing_expired_stays(d, now);
        assert(p.messages(queue)[0].expires_unix_ms > now);
        assert forall|q: Seq<char>, i: int| 0 <= i < next.messages(q).len() implies (
        #[trigger] next.messages(q)[i]).expires_unix_ms > now by {
            if q == queue {
                assert(next.messages(q)[i] == p.messages(q)[i + 1]);
            } else {
                assert(next.messages(q)[i] == p.messages(q)[i]);
            }
        }
        assert forall|i: int| 0 <= i < next.leases.len() implies !(#[trigger] next.leases[i]).due(
            now,
        ) by {
            if i < p.leases.len() {
                assert(!p.leases[i].due(now));
            }
        }
        lemma_settled(next, now);
        assert(next.messages(queue) =~= m.skip(n as int));
        assert(next.pruned(now).messages(queue) == next.messages(queue));
    }
}

/// First in, first out: a message that is accepted is what a poll hands back
/// once those ahead of it have been polled, for as long as it has not expired
/// and leases outlast the polling.
pub proof fn law_polls_give_back_what_was_sent(
    s: State,
    queue: Seq<char>,
    body: Seq<u8>,
    sent_at: u64,
    now: u64,
)
    requires
        state::deadline(sent_at, s.ttl_ms) > now,
        state::deadline(now, s.lease_ms) > now,
    ensures
        s.sent(queue, body, sent_at).pruned(now).messages(queue).len() > 0,
        ({
            let waiting = s.sent(queue, body, sent_at);
            let ahead = (waiting.pruned(now).messages(queue).len() - 1) as nat;
            forall|after: State, r: Option<(String, Vec<u8>)>| #[trigger]
                relay::polls(drained(waiting, queue, now, ahead), queue, now, after, r) ==> r is Some
                    && r->Some_0.1@ == body
        }),
{
    let w = s.sent(queue, body, sent_at);
    let msg = Message { body, expires_unix_ms: state::deadline(sent_at, s.ttl_ms) };
    let before = s.pruned(sent_at).messages(queue);
    assert(w.messages(queue) == before.push(msg));
    state::lemma_live_push(before, msg, now);
    let m = w.pruned(now).messages(queue);
    assert(w.pruned_queue(queue, now).last() == msg);
    assert(m == w.pruned_queue(queue, now));
    let ahead = (m.len() - 1) as nat;
    lemma_drained(w, queue, now, ahead);
    assert(m.skip(ahead as int)[0] == msg);
}

/// A poll deletes nothing: the message it hands out is held under the lease id
/// it answers, until the lease's deadline.
pub proof fn law_poll_leases(
    before: State,
    queue: Seq<char>,
    now: u64,
    after: State,
    r: Option<(String, Vec<u8>)>,
)
    requires
        relay::polls(before, queue, now, after, r),
        r is Some,
    ensures
        after.leases.contains(
            (Grant {
                id: r->Some_0.0@,
                queue,
                msg: before.pruned(now).messages(queue)[0],
                lease_until_ms: state::deadline(now, before.lease_ms),
            }),
        ),
        before.pruned(now).messages(queue)[0].body == r->Some_0.1@,
        state::holds(after.leases, r->Some_0.0@),
{
    let g = Grant {
        id: r->Some_0.0@,
        queue,
        msg: before.pruned(now).messages(queue)[0],
        lease_until_ms: state::deadline(now, before.lease_ms),
    };
    let i = after.leases.len() - 1;
    assert(after.leases[i] == g);
}

/// Every lease id that a poll answers is made of hexadecimal digits, so that it
/// can stand in a URL path and in a header.
pub proof fn law_lease_ids_are_hexadecimal(
    before: State,
    queue: Seq<char>,
    now: u64,
    after: State,
    r: Option<(String, Vec<u8>)>,
    i: int,
)
    requires
        relay::polls(before, queue, now, after, r),
        r is Some,
        0 <= i < r->Some_0.0@.len(),
    ensures
        '0' <= r->Some_0.0@[i] <= '9' || 'a' <= r->Some_0.0@[i] <= 'f',
{
    let id = r->Some_0.0@;
    let wanted = relay::lease_id_of(queue, r->Some_0.1@, now);
    state::lemma_free_id(before.pruned(now).leases, wanted);
    if i < wanted.len() {
        assert(id.take(wanted.len() as int)[i] == id[i]);
    }
}

/// A lease that runs out before its message does puts the message back into its
/// queue, ahead of everything that never left it.
pub proof fn law_unconfirmed_comes_back(s: State, i: int, now: u64)
    requires
        0 <= i < s.leases.len(),
        s.leases[i].lease_until_ms <= now,
        s.leases[i].msg.expires_unix_ms > now,
    ensures
        ({
            let queue = s.leases[i].queue;
            let back = state::returning(s.leases, queue, now);
            &&& back.contains(s.leases[i].msg)
            &&& s.pruned(now).messages(queue).take(back.len() as int) == back
            &&& s.pruned(now).messages(queue).skip(back.len() as int) == state::live(
                s.messages(queue),
                now,
            )
        }),
{
    let g = s.leases[i];
    let queue = g.queue;
    let p = |h: Grant| h.returns_to(queue, now);
    let back = state::returning(s.leases, queue, now);
    s.leases.lemma_filter_contains(p, i);
    let k = choose|k: int| 0 <= k < s.leases.filter(p).len() && s.leases.filter(p)[k] == g;
    assert(back[k] == g.msg);
    let m = s.pruned(now).messages(queue);
    assert(m == s.pruned_queue(queue, now));
    assert(m.take(back.len() as int) =~= back);
    assert(m.skip(back.len() as int) =~= state::live(s.messages(queue), now));
}

/// How many leases are on messages of `queue`.
pub open spec fn leased_from(leases: Seq<Grant>, queue: Seq<char>) -> nat {
    leases.filter(|g: Grant| g.queue == queue).len()
}

/// One more lease on `queue` or on another.
proof fn lemma_leased_from_push(leases: Seq<Grant>, g: Grant, queue: Seq<char>)
    ensures
        leased_from(leases.push(g), queue) == leased_from(leases, queue) + if g.queue == queue {
            1nat
        } else {
            0nat
        },
{
    state::lemma_filter_push(leases, g, |g: Grant| g.queue == queue);
}

/// A unique lease that is dropped is missing once from its queue's count.
proof fn lemma_leased_from_without(leases: Seq<Grant>, id: Seq<char>, queue: Seq<char>)
    requires
        state::distinct_ids(leases),
    ensures
        !state::holds(leases, id) ==> leased_from(state::without(leases, id), queue)
            == leased_from(leases, queue),
        forall|i: int|
            0 <= i < leases.len() && (#[trigger] leases[i]).id == id ==> leased_from(
                state::without(leases, id),
                queue,
            ) + (if leases[i].queue == queue {
                1nat
            } else {
                0nat
            }) == leased_from(leases, queue),
    decreases leases.len(),
{
    if !state::holds(leases, id) {
        store::lemma_without_none(leases, id);
    }
    if leases.len() > 0 {
        let rest = leases.drop_last();
        let last = leases.last();
        lemma_split_last(leases);
        assert(state::distinct_ids(rest)) by {
            assert forall|i: int, j: int| 0 <= i < j < rest.len() implies (#[trigger] rest[i]).id
                != (#[trigger] rest[j]).id by {
                assert(leases[i].id != leases[j].id);
            }
        }
        lemma_leased_from_without(rest, id, queue);
        lemma_leased_from_push(rest, last, queue);
        state::lemma_filter_push(rest, last, |g: Grant| g.id != id);
        if last.id == id {
            assert forall|j: int| 0 <= j < rest.len() implies (#[trigger] rest[j]).id != id by {
                assert(leases[j].id != leases[leases.len() - 1].id);
            }
        } else {
            lemma_leased_from_push(state::without(rest, id), last, queue);
        }
        assert forall|i: int| 0 <= i < leases.len() && (#[trigger] leases[i]).id
            == id implies leased_from(state::without(leases, id), queue) + (if leases[i].queue
            == queue {
            1nat
        } else {
            0nat
        }) == leased_from(leases, queue) by {
            if i < rest.len() {
                assert(rest[i].id == id);
                assert(leases[i].id != leases[leases.len() - 1].id);
            } else {
                assert(!state::holds(rest, id));
            }
        }
    }
}

/// An accepted message is one more of its queue, and none of any other.
pub proof fn law_send_counts_one(
    s: State,
    queue: Seq<char>,
    other: Seq<char>,
    body: Seq<u8>,
    now: u64,
)
    requires
        other != queue,
    ensures
        s.sent(queue, body, now).count(queue) == s.pruned(now).count(queue) + 1,
        s.sent(queue, body, now).count(other) == s.pruned(now).count(other),
{
}

/// A polled message still counts while it is leased, and no other queue's count
/// changes either.
pub proof fn law_poll_keeps_the_count(
    before: State,
    queue: Seq<char>,
    counted: Seq<char>,
    now: u64,
    after: State,
    r: Option<(String, Vec<u8>)>,
)
    requires
        relay::polls(before, queue, now, after, r),
    ensures
        after.count(counted) == before.pruned(now).count(counted),
{
    let p = before.pruned(now);
    if r is Some {
        let g = Grant {
            id: r->Some_0.0@,
            queue,
            msg: p.messages(queue)[0],
            lease_until_ms: state::deadline(now, p.lease_ms),
        };
        lemma_leased_from_push(p.leases, g, counted);
        if counted == queue {
            assert(after.messages(queue) == p.messages(queue).drop_first());
        } else {
            assert(after.messages(counted) == p.messages(counted));
        }
    }
}

/// A confirmed message counts no more; nothing else changes in number.
pub proof fn law_ack_uncounts_one(s: State, i: int, counted: Seq<char>)
    requires
        s.wf(),
        0 <= i < s.leases.len(),
    ensures
        s.acked(s.leases[i].id).count(counted) + (if s.leases[i].queue == counted {
            1nat
        } else {
            0nat
        }) == s.count(counted),
{
    lemma_leased_from_without(s.leases, s.leases[i].id, counted);
}

/// How many leases are on messages of `queue` that have not expired at `now`.
pub open spec fn live_leases(leases: Seq<Grant>, queue: Seq<char>, now: u64) -> nat {
    leases.filter(|g: Grant| g.queue == queue && g.msg.expires_unix_ms > now).len()
}

/// Leases that return and leases that stay are those on live messages.
proof fn lemma_leases_part(leases: Seq<Grant>, queue: Seq<char>, now: u64)
    ensures
        state::returning(leases, queue, now).len() + leased_from(
            leases.filter(|g: Grant| !g.due(now)),
            queue,
        ) == live_leases(leases, queue, now),
        live_leases(leases, queue, now) <= leased_from(leases, queue),
    decreases leases.len(),
{
    let runs = |g: Grant| !g.due(now);
    reveal(Seq::filter);
    if leases.len() > 0 {
        let rest = leases.drop_last();
        let last = leases.last();
        lemma_split_last(leases);
        lemma_leases_part(rest, queue, now);
        state::lemma_returning_push(rest, last, queue, now);
        state::lemma_filter_push(rest, last, runs);
        state::lemma_filter_push(
            rest,
            last,
            |g: Grant| g.queue == queue && g.msg.expires_unix_ms > now,
        );
        lemma_leased_from_push(rest, last, queue);
        lemma_leased_from_push(rest.filter(runs), last, queue);
    }
}

/// After clearing out, a queue's count is the number of its messages that have
/// not expired, waiting or leased: none is added, and only expired ones are
/// gone.
pub proof fn law_prune_counts_what_lives(s: State, queue: Seq<char>, now: u64)
    ensures
        s.pruned(now).count(queue) == state::live(s.messages(queue), now).len() + live_leases(
            s.leases,
            queue,
            now,
        ),
        s.pruned(now).count(queue) <= s.count(queue),
{
    lemma_leases_part(s.leases, queue, now);
    s.messages(queue).lemma_filter_len(|m: Message| m.expires_unix_ms > now);
    assert(s.pruned(now).messages(queue).len() == s.pruned_queue(queue, now).len());
}

/// A relay that takes over what another wrote down carries on where that one
/// stood, cleared out at the time of taking over.
pub proof fn law_restore_of_snapshot(s: State, fresh: State, now: u64)
    requires
        fresh.ttl_ms == s.ttl_ms,
        fresh.lease_ms == s.lease_ms,
    ensures
        fresh.holding(s.queues, s.leases).pruned(now) == s.pruned(now),
{
    assert(fresh.holding(s.queues, s.leases) =~= s);
}

/// A body that a relay takes: not empty, and no longer than `MAX_BODY`.
pub open spec fn fits(m: Message) -> bool {
    0 < m.body.len() <= MAX_BODY
}

/// Every message of the relay, waiting or leased, fits.
pub open spec fn all_fit(s: State) -> bool {
    &&& forall|q: Seq<char>, i: int|
        0 <= i < s.messages(q).len() ==> fits(#[trigger] s.messages(q)[i])
    &&& forall|i: int| 0 <= i < s.leases.len() ==> fits((#[trigger] s.leases[i]).msg)
}

/// No message that is empty or too long is ever held: true of an empty relay,
/// and kept by every send, poll, confirmation and clearing out.
pub proof fn law_only_fitting_messages(
    s: State,
    queue: Seq<char>,
    body: Seq<u8>,
    allowed: bool,
    id: Seq<char>,
    now: u64,
)
    requires
        all_fit(s),
    ensures
        all_fit(State::empty(s.ttl_ms, s.lease_ms)),
        all_fit(s.pruned(now)),
        relay::refusal(queue, body.len(), allowed) is None ==> all_fit(s.sent(queue, body, now)),
        s.pruned(now).messages(queue).len() > 0 ==> all_fit(s.pruned(now).leased(queue, id, now)),
        all_fit(s.pruned(now).acked(id)),
{
    let p = s.pruned(now);
    assert forall|q: Seq<char>, i: int| 0 <= i < p.messages(q).len() implies fits(
        #[trigger] p.messages(q)[i],
    ) by {
        let f = |g: Grant| g.returns_to(q, now);
        let l = |m: Message| m.expires_unix_ms > now;
        let back = state::returning(s.leases, q, now);
        assert(p.messages(q) == s.pruned_queue(q, now));
        if i < back.len() {
            let g = s.leases.filter(f)[i];
            assert(s.leases.filter(f).contains(g));
            lemma_kept(s.leases, f, g);
            let j = choose|j: int| 0 <= j < s.leases.len() && s.leases[j] == g;
            assert(fits(s.leases[j].msg));
        } else {
            let m = s.messages(q).filter(l)[i - back.len()];
            assert(s.messages(q).filter(l).contains(m));
            lemma_kept(s.messages(q), l, m);
            let j = choose|j: int| 0 <= j < s.messages(q).len() && s.messages(q)[j] == m;
            assert(fits(s.messages(q)[j]));
        }
    }
    assert forall|i: int| 0 <= i < p.leases.len() implies fits((#[trigger] p.leases[i]).msg) by {
        assert(p.leases.contains(p.leases[i]));
        lemma_kept(s.leases, |g: Grant| !g.due(now), p.leases[i]);
        let j = choose|j: int| 0 <= j < s.leases.len() && s.leases[j] == p.leases[i];
        assert(fits(s.leases[j].msg));
    }
    let kept = state::without(p.leases, id);
    assert forall|i: int| 0 <= i < kept.len() implies fits((#[trigger] kept[i]).msg) by {
        assert(kept.contains(kept[i]));
        lemma_kept(p.leases, |g: Grant| g.id != id, kept[i]);
        let j = choose|j: int| 0 <= j < p.leases.len() && p.leases[j] == kept[i];
        assert(fits(p.leases[j].msg));
    }
    let acked = p.acked(id);
    assert forall|q: Seq<char>, i: int| 0 <= i < acked.messages(q).len() implies fits(
        #[trigger] acked.messages(q)[i],
    ) by {
        assert(fits(p.messages(q)[i]));
    }
    if relay::refusal(queue, body.len(), allowed) is None {
        let t = s.sent(queue, body, now);
        assert forall|q: Seq<char>, i: int| 0 <= i < t.messages(q).len() implies fits(
            #[trigger] t.messages(q)[i],
        ) by {
            if q != queue || i < p.messages(q).len() {
                assert(t.messages(q)[i] == p.messages(q)[i]);
                assert(fits(p.messages(q)[i]));
            }
        }
    }
    if p.messages(queue).len() > 0 {
        let t = p.leased(queue, id, now);
        assert(fits(p.messages(queue)[0]));
        assert forall|q: Seq<char>, i: int| 0 <= i < t.messages(q).len() implies fits(
            #[trigger] t.messages(q)[i],
        ) by {
            if q == queue {
                assert(t.messages(q)[i] == p.messages(q)[i + 1]);
                assert(fits(p.messages(q)[i + 1]));
            } else {
                assert(t.messages(q)[i] == p.messages(q)[i]);
                assert(fits(p.messages(q)[i]));
            }
        }
    }
}

/// The relay has `m` for the readers of `queue`: it waits there, or it is
/// leased from there.
pub open spec fn keeps(s: State, queue: Seq<char>, m: Message) -> bool {
    s.messages(queue).contains(m) || exists|i: int|
        0 <= i < s.leases.len() && (#[trigger] s.leases[i]).queue == queue && s.leases[i].msg == m
}

/// A message that has not expired is not lost: clearing out, sends and polls
/// keep it, and so does every confirmation but that of its own lease.
pub proof fn law_live_messages_stay(
    s: State,
    queue: Seq<char>,
    m: Message,
    other: Seq<char>,
    body: Seq<u8>,
    id: Seq<char>,
    now: u64,
)
    requires
        keeps(s, queue, m),
        m.expires_unix_ms > now,
    ensures
        keeps(s.pruned(now), queue, m),
        keeps(s.sent(other, body, now), queue, m),
        ({
            let p = s.pruned(now);
            p.messages(other).len() > 0 ==> keeps(p.leased(other, id, now), queue, m)
        }),
        ({
            let p = s.pruned(now);
            (forall|i: int|
                0 <= i < p.leases.len() && (#[trigger] p.leases[i]).id == id ==> p.leases[i].queue
                    != queue || p.leases[i].msg != m) ==> keeps(p.acked(id), queue, m)
        }),
{
    let p = s.pruned(now);
    let back = state::returning(s.leases, queue, now);
    assert(keeps(p, queue, m)) by {
        if s.messages(queue).contains(m) {
            let l = |m: Message| m.expires_unix_ms > now;
            let i = choose|i: int| 0 <= i < s.messages(queue).len() && s.messages(queue)[i] == m;
            s.messages(queue).lemma_filter_contains(l, i);
            let k = choose|k: int|
                0 <= k < s.messages(queue).filter(l).len() && s.messages(queue).filter(l)[k] == m;
            assert(s.pruned_queue(queue, now)[back.len() + k] == m);
            assert(p.messages(queue).contains(m));
        } else {
            let i = choose|i: int|
                0 <= i < s.leases.len() && (#[trigger] s.leases[i]).queue == queue
                    && s.leases[i].msg == m;
            if s.leases[i].lease_until_ms <= now {
                law_unconfirmed_comes_back(s, i, now);
                let k = choose|k: int| 0 <= k < back.len() && back[k] == m;
                assert(s.pruned_queue(queue, now)[k] == m);
                assert(p.messages(queue).contains(m));
            } else {
                let runs = |g: Grant| !g.due(now);
                s.leases.lemma_filter_contains(runs, i);
                let k = choose|k: int|
                    0 <= k < s.leases.filter(runs).len() && s.leases.filter(runs)[k] == s.leases[i];
                assert(p.leases[k].queue == queue && p.leases[k].msg == m);
            }
        }
    }
    lemma_keeps_on(p, queue, m, other, body, id, now);
}

/// What a cleared out relay keeps, it keeps through its next operation.
proof fn lemma_keeps_on(
    p: State,
    queue: Seq<char>,
    m: Message,
    other: Seq<char>,
    body: Seq<u8>,
    id: Seq<char>,
    now: u64,
)
    requires
        keeps(p, queue, m),
    ensures
        forall|msg: Message| keeps(#[trigger] p.enqueued(other, msg), queue, m),
        p.messages(other).len() > 0 ==> keeps(p.leased(other, id, now), queue, m),
        (forall|i: int|
            0 <= i < p.leases.len() && (#[trigger] p.leases[i]).id == id ==> p.leases[i].queue
                != queue || p.leases[i].msg != m) ==> keeps(p.acked(id), queue, m),
{
    if p.messages(queue).contains(m) {
        let i = choose|i: int| 0 <= i < p.messages(queue).len() && p.messages(queue)[i] == m;
        assert forall|msg: Message| keeps(#[trigger] p.enqueued(other, msg), queue, m) by {
            assert(p.enqueued(other, msg).messages(queue)[i] == m);
        }
        assert(p.acked(id).messages(queue)[i] == m);
        if p.messages(other).len() > 0 {
            let t = p.leased(other, id, now);
            if queue != other {
                assert(t.messages(queue)[i] == m);
            } else if i > 0 {
                assert(t.messages(queue)[i - 1] == m);
            } else {
                let last = t.leases.len() - 1;
                assert(t.leases[last].queue == queue && t.leases[last].msg == m);
            }
        }
    } else {
        let i = choose|i: int|
            0 <= i < p.leases.len() && (#[trigger] p.leases[i]).queue == queue && p.leases[i].msg
                == m;
        assert forall|msg: Message| keeps(#[trigger] p.enqueued(other, msg), queue, m) by {
            assert(p.enqueued(other, msg).leases[i].queue == queue);
        }
        let t = p.leased(other, id, now);
        assert(t.leases[i].queue == queue && t.leases[i].msg == m);
        if p.leases[i].id != id {
            let others = |g: Grant| g.id != id;
            p.leases.lemma_filter_contains(others, i);
            let k = choose|k: int|
                0 <= k < p.leases.filter(others).len() && p.leases.filter(others)[k] == p.leases[i];
            assert(p.acked(id).leases[k].queue == queue && p.acked(id).leases[k].msg == m);
        }
    }
}

/// A message that is turned away is told so and leaves no trace; one that is
/// taken is told so and waits at the end of its queue.
pub proof fn law_messages_are_taken_or_leave_no_trace<F: FnOnce(&str) -> bool>(
    before: State,
    queue: Seq<char>,
    body: Seq<u8>,
    limiter: F,
    after: State,
    s: Served,
)
    requires
        server::serves_send(before, queue, body, limiter, after, s),
    ensures
        !s.changed ==> after == before && s.reply@ == reply::says(400, "bad queue"@),
        s.changed ==> s.reply@ == reply::says(202, "queued"@) && exists|now: u64|
            after == #[trigger] before.sent(queue, body, now),
{
}

/// An onion that is turned away is told so and leaves no trace; one that is
/// taken is told so, and what its layer held waits at the end of the queue that
/// the layer named.
pub proof fn law_onions_are_taken_or_leave_no_trace<
    R: FnOnce(&[u8]) -> Option<OnionLayer>,
    F: FnOnce(&str) -> bool,
>(before: State, packet: Seq<u8>, reader: R, limiter: F, after: State, s: Served)
    requires
        server::serves_forward(before, packet, reader, limiter, after, s),
    ensures
        !s.changed ==> after == before && s.reply@ == reply::says(400, "bad onion"@),
        s.changed ==> s.reply@ == reply::says(202, "forwarded"@) && exists|
            layer: Option<OnionLayer>,
            now: u64,
        |
            {
                &&& onion::opened(onion::secret_key(), packet) is Some
                &&& #[trigger] relay::reads(
                    reader,
                    onion::opened(onion::secret_key(), packet)->Some_0,
                    layer,
                )
                &&& onion::destination(layer) is Some
                &&& after == #[trigger] before.sent(
                    onion::destination(layer)->Some_0.0,
                    onion::destination(layer)->Some_0.1,
                    now,
                )
            },
{
}

/// The bridge paths reach the same queues and leases as the plain ones, with
/// the same messages.
pub proof fn law_bridge_shares_queues(name: Seq<char>, body: Seq<char>)
    ensures
        http::route("POST"@, "/waku/v1/queues/"@ + name, body) == http::route(
            "POST"@,
            "/queues/"@ + name,
            body,
        ),
        http::route("GET"@, "/waku/v1/queues/"@ + name, body) == http::route(
            "GET"@,
            "/queues/"@ + name,
            body,
        ),
        http::route("POST"@, "/waku/v1/ack/"@ + name, body) == http::route(
            "POST"@,
            "/ack/"@ + name,
            body,
        ),
{
    reveal_strlit("GET");
    reveal_strlit("POST");
    reveal_strlit("PUT");
    reveal_strlit("/health");
    reveal_strlit("/forward");
    reveal_strlit("/queues/");
    reveal_strlit("/ack/");
    reveal_strlit("/waku/v1/queues/");
    reveal_strlit("/waku/v1/ack/");
    reveal_strlit("/registry/");
    assert("GET"@.len() != "POST"@.len());
    assert("PUT"@.len() != "POST"@.len());
    assert("GET"@[0] != "PUT"@[0]);
    assert forall|prefix: Seq<char>| #[trigger] text::has_prefix(prefix + name, prefix) && (prefix
        + name).skip(prefix.len() as int) == name by {
        assert((prefix + name).take(prefix.len() as int) =~= prefix);
        assert((prefix + name).skip(prefix.len() as int) =~= name);
    }
    let w = "/waku/v1/queues/"@ + name;
    let a = "/waku/v1/ack/"@ + name;
    let q = "/queues/"@ + name;
    let k = "/ack/"@ + name;
    assert(text::has_prefix(w, "/waku/v1/queues/"@));
    assert(text::has_prefix(a, "/waku/v1/ack/"@));
    assert(text::has_prefix(q, "/queues/"@));
    assert(text::has_prefix(k, "/ack/"@));
    assert(w[1] == 'w' && a[1] == 'w' && q[1] == 'q' && k[1] == 'a' && a[9] == 'a');
    assert forall|s: Seq<char>| #[trigger] text::has_prefix(s, "/queues/"@) implies s[1] == 'q' by {
        assert(s.take("/queues/"@.len() as int)[1] == s[1]);
    }
    assert forall|s: Seq<char>| #[trigger] text::has_prefix(s, "/ack/"@) implies s[1] == 'a' by {
        assert(s.take("/ack/"@.len() as int)[1] == s[1]);
    }
    assert forall|s: Seq<char>| #[trigger] text::has_prefix(s, "/waku/v1/queues/"@) implies s[9]
        == 'q' && s[1] == 'w' by {
        assert(s.take("/waku/v1/queues/"@.len() as int)[9] == s[9]);
        assert(s.take("/waku/v1/queues/"@.len() as int)[1] == s[1]);
    }
    assert("/health"@[1] == 'h' && "/forward"@[1] == 'f');
}

} // verus!
