//! Queues, leases, time spans and records in plain terms.
use crate::relay::Snapshot;
use crate::state::{self, Grant, Message, State};
use crate::store::{self, Lease, Queue, RelayMessage};
use vstd::prelude::*;

verus! {

/// A span of any length is added in full: a deadline is the sum of instant and
/// span, which only a 64-bit clock that overflows falls short of, by its range.
pub proof fn law_deadlines_add_up(now: u64, span: u64)
    ensures
        now + span <= u64::MAX ==> state::deadline(now, span) == now + span,
        now + span > u64::MAX ==> state::deadline(now, span) + 0x1_0000_0000_0000_0000 == now
            + span,
{
}

/// A relay that holds nothing: its two spans are the given ones, no queue exists
/// and nothing is leased.
pub proof fn law_empty_holds_nothing(ttl_ms: u64, lease_ms: u64, queue: Seq<char>)
    ensures
        State::empty(ttl_ms, lease_ms).ttl_ms == ttl_ms,
        State::empty(ttl_ms, lease_ms).lease_ms == lease_ms,
        !State::empty(ttl_ms, lease_ms).queues.contains_key(queue),
        State::empty(ttl_ms, lease_ms).messages(queue).len() == 0,
        State::empty(ttl_ms, lease_ms).leases.len() == 0,
{
}

/// Taking over queues and leases changes nothing else.
pub proof fn law_holding_takes_over(
    s: State,
    queues: Map<Seq<char>, Seq<Message>>,
    leases: Seq<Grant>,
)
    ensures
        s.holding(queues, leases).queues == queues,
        s.holding(queues, leases).leases == leases,
        s.holding(queues, leases).ttl_ms == s.ttl_ms,
        s.holding(queues, leases).lease_ms == s.lease_ms,
{
}

/// What waits in a queue is what is stored under exactly its name.
pub proof fn law_messages_are_stored_by_name(s: State, queue: Seq<char>)
    ensures
        s.queues.contains_key(queue) ==> s.messages(queue) == s.queues[queue],
        !s.queues.contains_key(queue) ==> s.messages(queue) == Seq::<Message>::empty(),
{
}

/// A lease is due from its deadline on, and from its message's expiry on.
pub proof fn law_leases_fall_due(g: Grant, queue: Seq<char>, now: u64)
    ensures
        g.due(now) <==> now >= g.lease_until_ms || now >= g.msg.expires_unix_ms,
        g.returns_to(queue, now) <==> g.queue == queue && now >= g.lease_until_ms && now
            < g.msg.expires_unix_ms,
{
}

/// Clearing out at `now`, queue by queue and lease by lease. First come the
/// messages of leases on the queue that ran out while the message lives, oldest
/// lease first; then the live ones of those that waited, in their order. Leases
/// stay exactly while neither they nor their messages have run out. A queue
/// exists exactly if something waits in it.
pub proof fn law_clearing_out(s: State, queue: Seq<char>, now: u64)
    ensures
        s.pruned(now).messages(queue) == s.leases.filter(
            |g: Grant|
                g.queue == queue && g.lease_until_ms <= now && g.msg.expires_unix_ms > now,
        ).map_values(|g: Grant| g.msg) + (if s.queues.contains_key(queue) {
            s.queues[queue]
        } else {
            Seq::empty()
        }).filter(|m: Message| m.expires_unix_ms > now),
        s.pruned(now).leases == s.leases.filter(
            |g: Grant| g.lease_until_ms > now && g.msg.expires_unix_ms > now,
        ),
        s.pruned(now).queues.contains_key(queue) <==> s.pruned(now).messages(queue).len() > 0,
        s.pruned(now).ttl_ms == s.ttl_ms,
        s.pruned(now).lease_ms == s.lease_ms,
{
    let goes = |g: Grant|
        g.queue == queue && g.lease_until_ms <= now && g.msg.expires_unix_ms > now;
    let stays = |g: Grant| g.lease_until_ms > now && g.msg.expires_unix_ms > now;
    lemma_same_filter(s.leases, |g: Grant| g.returns_to(queue, now), goes);
    lemma_same_filter(s.leases, |g: Grant| !g.due(now), stays);
    assert(s.pruned(now).messages(queue) =~= s.pruned_queue(queue, now));
    assert(state::returning(s.leases, queue, now) =~= s.leases.filter(goes).map_values(
        |g: Grant| g.msg,
    ));
}

/// Tests that agree keep the same.
proof fn lemma_same_filter<A>(s: Seq<A>, p: spec_fn(A) -> bool, q: spec_fn(A) -> bool)
    requires
        forall|x: A| #[trigger] p(x) == q(x),
    ensures
        s.filter(p) == s.filter(q),
    decreases s.len(),
{
    reveal(Seq::filter);
    if s.len() > 0 {
        lemma_same_filter(s.drop_last(), p, q);
    }
}

/// Clearing out leaves a queue as it is, while nothing in it has expired and no
/// lease sends a message back to it.
pub proof fn law_clearing_out_spares_the_living(s: State, queue: Seq<char>, now: u64)
    requires
        forall|i: int| 0 <= i < s.leases.len() ==> (#[trigger] s.leases[i]).queue != queue || now
            < s.leases[i].lease_until_ms || now >= s.leases[i].msg.expires_unix_ms,
        forall|i: int|
            0 <= i < s.messages(queue).len() ==> now < (#[trigger] s.messages(
                queue,
            )[i]).expires_unix_ms,
    ensures
        s.pruned(now).messages(queue) == s.messages(queue),
{
    crate::laws::lemma_filter_none(s.leases, |g: Grant| g.returns_to(queue, now));
    crate::laws::lemma_filter_all(s.messages(queue), |m: Message| m.expires_unix_ms > now);
    assert(state::returning(s.leases, queue, now) =~= Seq::<Message>::empty());
    assert(s.pruned(now).messages(queue) =~= s.pruned_queue(queue, now));
    assert(s.pruned_queue(queue, now) =~= s.messages(queue));
}

/// Taking a message appends it, whole, to exactly the named queue, with the full
/// time to live ahead of it; every other queue and all leases are as clearing out
/// left them. It is held through every clearing out before its time is over.
pub proof fn law_sent_messages_live_their_time(
    s: State,
    queue: Seq<char>,
    body: Seq<u8>,
    now: u64,
    later: u64,
)
    ensures
        ({
            let t = s.sent(queue, body, now);
            let p = s.pruned(now);
            let m = t.messages(queue).last();
            &&& t.messages(queue) == p.messages(queue).push(m)
            &&& m.body == body
            &&& now + s.ttl_ms <= u64::MAX ==> m.expires_unix_ms == now + s.ttl_ms
            &&& now + s.ttl_ms > u64::MAX ==> m.expires_unix_ms + 0x1_0000_0000_0000_0000 == now
                + s.ttl_ms
            &&& forall|q: Seq<char>| q != queue ==> #[trigger] t.messages(q) == p.messages(q)
            &&& t.leases == p.leases
            &&& t.ttl_ms == s.ttl_ms
            &&& t.lease_ms == s.lease_ms
            &&& now + s.ttl_ms <= u64::MAX && later < now + s.ttl_ms ==> t.pruned(later).messages(
                queue,
            ).len() > 0 && t.pruned(later).messages(queue).last() == m
        }),
{
    let t = s.sent(queue, body, now);
    let p = s.pruned(now);
    let m = Message { body, expires_unix_ms: state::deadline(now, s.ttl_ms) };
    assert(t.messages(queue) == p.messages(queue).push(m));
    law_deadlines_add_up(now, s.ttl_ms);
    if now + s.ttl_ms <= u64::MAX && later < now + s.ttl_ms {
        state::lemma_live_push(p.messages(queue), m, later);
        assert(t.pruned(later).messages(queue) =~= t.pruned_queue(queue, later));
        assert(t.pruned_queue(queue, later).last() == m);
    }
}

/// Leasing takes the first message off its queue, whole, and adds one lease
/// behind the others, with the full lease time ahead of it; nothing else changes.
pub proof fn law_leases_run_their_time(s: State, queue: Seq<char>, id: Seq<char>, now: u64)
    requires
        s.messages(queue).len() > 0,
    ensures
        ({
            let t = s.leased(queue, id, now);
            let g = t.leases.last();
            &&& s.messages(queue) == seq![g.msg] + t.messages(queue)
            &&& t.leases == s.leases.push(g)
            &&& g.id == id
            &&& g.queue == queue
            &&& now + s.lease_ms <= u64::MAX ==> g.lease_until_ms == now + s.lease_ms
            &&& now + s.lease_ms > u64::MAX ==> g.lease_until_ms + 0x1_0000_0000_0000_0000 == now
                + s.lease_ms
            &&& forall|q: Seq<char>| q != queue ==> #[trigger] t.messages(q) == s.messages(q)
            &&& t.ttl_ms == s.ttl_ms
            &&& t.lease_ms == s.lease_ms
        }),
{
    law_deadlines_add_up(now, s.lease_ms);
    assert(s.messages(queue) =~= seq![s.messages(queue)[0]] + s.messages(queue).drop_first());
    assert(s.leased(queue, id, now).messages(queue) == s.messages(queue).drop_first());
}

/// Confirming drops exactly the leases that go by the id, and touches no queue.
pub proof fn law_confirming_drops_the_lease(s: State, id: Seq<char>)
    ensures
        s.acked(id).leases == s.leases.filter(|g: Grant| g.id != id),
        s.acked(id).queues == s.queues,
        s.acked(id).ttl_ms == s.ttl_ms,
        s.acked(id).lease_ms == s.lease_ms,
        state::holds(s.leases, id) <==> exists|i: int|
            0 <= i < s.leases.len() && (#[trigger] s.leases[i]).id == id,
{
}

/// A count goes up by one with each message that waits in the queue and with
/// each lease on it, and with nothing else.
pub proof fn law_counts_go_up_one_by_one(s: State, queue: Seq<char>, g: Grant)
    ensures
        s.leases.len() == 0 ==> s.count(queue) == s.messages(queue).len(),
        (State { leases: s.leases.push(g), ..s }).count(queue) == s.count(queue) + if g.queue
            == queue {
            1int
        } else {
            0int
        },
        s.count(queue) == s.messages(queue).len() + s.leases.filter(
            |h: Grant| h.queue == queue,
        ).len(),
{
    reveal(Seq::filter);
    state::lemma_filter_push(s.leases, g, |g: Grant| g.queue == queue);
}

/// An id is taken as it is if it is free. Otherwise zeros are added behind it, no
/// more than it takes: every shorter form is in use.
pub proof fn law_free_ids_are_found(leases: Seq<Grant>, id: Seq<char>, n: int)
    requires
        id.len() <= n <= state::free_id(leases, id).len(),
    ensures
        ({
            let r = state::free_id(leases, id);
            let shorter = id + Seq::new((n - id.len()) as nat, |i: int| '0');
            &&& r.take(n) == shorter
            &&& n == r.len() ==> r == shorter
            &&& n < r.len() ==> exists|i: int|
                0 <= i < leases.len() && (#[trigger] leases[i]).id == shorter
            &&& forall|i: int| 0 <= i < leases.len() ==> (#[trigger] leases[i]).id != r
        }),
    decreases state::longest(leases) + 1 - id.len(),
{
    let r = state::free_id(leases, id);
    state::lemma_free_id(leases, id);
    assert(r.take(n) =~= id + Seq::new((n - id.len()) as nat, |i: int| '0')) by {
        assert forall|k: int| 0 <= k < n implies r.take(n)[k] == (id + Seq::new(
            (n - id.len()) as nat,
            |i: int| '0',
        ))[k] by {
            if k < id.len() {
                assert(r.take(id.len() as int)[k] == r[k]);
            }
        }
    }
    if n == r.len() {
        assert(r.take(n) =~= r);
    }
    if n < r.len() {
        if state::holds(leases, id) {
            let i = choose|i: int| 0 <= i < leases.len() && (#[trigger] leases[i]).id == id;
            state::lemma_longest(leases, i);
            if n == id.len() {
                assert(id + Seq::new(0, |i: int| '0') =~= id);
                assert(leases[i].id == id + Seq::new((n - id.len()) as nat, |i: int| '0'));
            } else {
                let next = id.push('0');
                law_free_ids_are_found(leases, next, n);
                assert(next + Seq::new((n - next.len()) as nat, |i: int| '0') =~= id + Seq::new(
                    (n - id.len()) as nat,
                    |i: int| '0',
                ));
            }
        }
    }
    assert forall|i: int| 0 <= i < leases.len() implies (#[trigger] leases[i]).id != r by {
        assert(!state::holds(leases, r));
    }
}

/// Records mean what their fields say.
pub proof fn law_records_mean_their_fields(m: RelayMessage, l: Lease)
    ensures
        m@.body == m.body@,
        m@.expires_unix_ms == m.expires_unix_ms,
        l@.id == l.id@,
        l@.queue == l.queue@,
        l@.msg.body == l.msg.body@,
        l@.msg.expires_unix_ms == l.msg.expires_unix_ms,
        l@.lease_until_ms == l.lease_until_ms,
{
}

/// Queue records without repeated names spell out one queue each: under exactly
/// the record's name, with exactly its messages in their order. There are no
/// other queues.
pub proof fn law_queue_records_are_queues(records: Seq<Queue>)
    requires
        forall|i: int, j: int|
            0 <= i < j < records.len() ==> (#[trigger] records[i]).name@ != (
            #[trigger] records[j]).name@,
    ensures
        forall|name: Seq<char>| #[trigger]
            store::table(records).contains_key(name) <==> exists|i: int|
                0 <= i < records.len() && (#[trigger] records[i]).name@ == name,
        forall|i: int|
            0 <= i < records.len() ==> store::table(records)[(#[trigger] records[i]).name@].len()
                == records[i].messages@.len(),
        forall|i: int, k: int|
            0 <= i < records.len() && 0 <= k < records[i].messages@.len() ==> {
                let m = store::table(records)[records[i].name@][k];
                &&& m.body == (#[trigger] records[i].messages@[k]).body@
                &&& m.expires_unix_ms == records[i].messages@[k].expires_unix_ms
            },
{
    store::lemma_table(records);
    assert forall|name: Seq<char>| #[trigger] store::table(records).contains_key(name)
        <==> exists|i: int| 0 <= i < records.len() && (#[trigger] records[i]).name@ == name by {
        assert(store::table(records).contains_key(name) <==> store::names(records, name));
    }
    assert forall|i: int, k: int|
        0 <= i < records.len() && 0 <= k < records[i].messages@.len() implies {
        let m = store::table(records)[records[i].name@][k];
        &&& m.body == (#[trigger] records[i].messages@[k]).body@
        &&& m.expires_unix_ms == records[i].messages@[k].expires_unix_ms
    } by {
        let r = records[i];
        assert(store::table(records)[r.name@] == store::messages_of(r.messages@));
        assert(store::messages_of(r.messages@)[k] == r.messages@[k]@);
    }
}

/// Of queue records with one name the last counts, whatever stands before it.
pub proof fn law_later_queue_records_count(records: Seq<Queue>, last: Queue, name: Seq<char>)
    ensures
        store::table(Seq::<Queue>::empty()) == Map::<Seq<char>, Seq<Message>>::empty(),
        store::table(records.push(last)).contains_key(name) <==> name == last.name@
            || store::table(records).contains_key(name),
        name != last.name@ && store::table(records).contains_key(name) ==> store::table(
            records.push(last),
        )[name] == store::table(records)[name],
        store::table(records.push(last))[last.name@] == last.messages@.map_values(
            |m: RelayMessage|
                Message { body: m.body@, expires_unix_ms: m.expires_unix_ms },
        ),
{
    assert(records.push(last).drop_last() =~= records);
    assert(store::messages_of(last.messages@) =~= last.messages@.map_values(
        |m: RelayMessage| Message { body: m.body@, expires_unix_ms: m.expires_unix_ms },
    ));
}

/// Of lease records with one id the last counts, in its own place; all others
/// keep theirs.
pub proof fn law_later_lease_records_count(records: Seq<Lease>, last: Lease)
    ensures
        store::lease_table(Seq::<Lease>::empty()) == Seq::<Grant>::empty(),
        store::lease_table(records.push(last)) == store::lease_table(records).filter(
            |g: Grant| g.id != last.id@,
        ).push(
            Grant {
                id: last.id@,
                queue: last.queue@,
                msg: Message {
                    body: last.msg.body@,
                    expires_unix_ms: last.msg.expires_unix_ms,
                },
                lease_until_ms: last.lease_until_ms,
            },
        ),
{
    let id = last.id@;
    assert(records.push(last).drop_last() =~= records);
    assert(records.push(last).last() == last);
    lemma_same_filter(
        store::lease_table(records),
        |g: Grant| g.id != id,
        |g: Grant| g.id != last.id@,
    );
}

/// A snapshot means its records, all of them.
pub proof fn law_snapshots_mean_their_records(s: Snapshot)
    ensures
        s.queues() == store::table(s.queues@),
        s.leases() == store::lease_table(s.leases@),
{
}

} // verus!
