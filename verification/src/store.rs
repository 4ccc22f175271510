//! The executable tables behind a relay: queues by name, leases by id.
use crate::state::{self, Grant, Message};
use std::collections::VecDeque;
use vstd::prelude::*;

verus! {

/// A message as the relay keeps it.
#[derive(Clone, Debug, PartialEq, Eq)]
pub struct RelayMessage {
    pub body: Vec<u8>,
    pub expires_unix_ms: u64,
}

/// The messages that wait under one name.
#[derive(Debug)]
pub struct Queue {
    pub name: String,
    pub messages: VecDeque<RelayMessage>,
}

/// A message that was handed out and waits for its confirmation.
#[derive(Debug)]
pub struct Lease {
    pub id: String,
    pub queue: String,
    pub msg: RelayMessage,
    pub lease_until_ms: u64,
}

impl View for RelayMessage {
    type V = Message;

    open spec fn view(&self) -> Message {
        Message { body: self.body@, expires_unix_ms: self.expires_unix_ms }
    }
}

impl View for Lease {
    type V = Grant;

    open spec fn view(&self) -> Grant {
        Grant {
            id: self.id@,
            queue: self.queue@,
            msg: self.msg@,
            lease_until_ms: self.lease_until_ms,
        }
    }
}

/// The model of a run of messages.
pub open spec fn messages_of(s: Seq<RelayMessage>) -> Seq<Message> {
    s.map_values(|m: RelayMessage| m@)
}

/// The model of a run of leases.
pub open spec fn leases_of(s: Seq<Lease>) -> Seq<Grant> {
    s.map_values(|l: Lease| l@)
}

/// The map from name to messages that `s` spells out. Of two records with one
/// name the later counts.
pub open spec fn table(s: Seq<Queue>) -> Map<Seq<char>, Seq<Message>>
    decreases s.len(),
{
    if s.len() == 0 {
        Map::empty()
    } else {
        table(s.drop_last()).insert(s.last().name@, messages_of(s.last().messages@))
    }
}

/// No two records share a name.
pub open spec fn distinct_names(s: Seq<Queue>) -> bool {
    forall|i: int, j: int|
        0 <= i < j < s.len() ==> (#[trigger] s[i]).name@ != (#[trigger] s[j]).name@
}

/// One of the records goes by `name`.
pub open spec fn names(s: Seq<Queue>, name: Seq<char>) -> bool {
    exists|i: int| 0 <= i < s.len() && (#[trigger] s[i]).name@ == name
}

/// With distinct names the table is exactly the records.
pub proof fn lemma_table(s: Seq<Queue>)
    requires
        distinct_names(s),
    ensures
        forall|q: Seq<char>| #[trigger] table(s).contains_key(q) <==> names(s, q),
        forall|i: int|
            #![trigger s[i]]
            0 <= i < s.len() ==> table(s).contains_key(s[i].name@) && table(s)[s[i].name@]
                == messages_of(s[i].messages@),
    decreases s.len(),
{
    if s.len() > 0 {
        let rest = s.drop_last();
        lemma_table(rest);
        assert forall|q: Seq<char>| #[trigger] table(s).contains_key(q) <==> names(s, q) by {
            assert(table(rest).contains_key(q) <==> names(rest, q));
            if names(s, q) {
                let i = choose|i: int| 0 <= i < s.len() && (#[trigger] s[i]).name@ == q;
                if i < rest.len() {
                    assert(rest[i].name@ == q);
                }
            }
            if names(rest, q) {
                let i = choose|i: int| 0 <= i < rest.len() && (#[trigger] rest[i]).name@ == q;
                assert(s[i].name@ == q);
            }
            assert(s[s.len() - 1] == s.last());
        }
        assert forall|i: int| #![trigger s[i]] 0 <= i < s.len() implies table(s).contains_key(
            s[i].name@,
        ) && table(s)[s[i].name@] == messages_of(s[i].messages@) by {
            if i < rest.len() {
                assert(rest[i] == s[i]);
                assert(s[i].name@ != s[s.len() - 1].name@);
            }
        }
    }
}

/// A record replaced by one of the same name.
pub proof fn lemma_table_update(s: Seq<Queue>, i: int, r: Queue)
    requires
        distinct_names(s),
        0 <= i < s.len(),
        r.name@ == s[i].name@,
    ensures
        distinct_names(s.update(i, r)),
        table(s.update(i, r)) == table(s).insert(r.name@, messages_of(r.messages@)),
{
    let t = s.update(i, r);
    assert forall|a: int, b: int| 0 <= a < b < t.len() implies (#[trigger] t[a]).name@ != (
    #[trigger] t[b]).name@ by {
        assert(s[a].name@ != s[b].name@);
    }
    lemma_table(s);
    lemma_table(t);
    let want = table(s).insert(r.name@, messages_of(r.messages@));
    assert forall|q: Seq<char>| #[trigger] table(t).contains_key(q) == want.contains_key(q) by {
        if names(s, q) {
            let k = choose|k: int| 0 <= k < s.len() && (#[trigger] s[k]).name@ == q;
            assert(t[k].name@ == q);
        }
        if names(t, q) {
            let k = choose|k: int| 0 <= k < t.len() && (#[trigger] t[k]).name@ == q;
            assert(s[k].name@ == q);
        }
    }
    assert forall|q: Seq<char>| #[trigger] table(t).contains_key(q) implies table(t)[q]
        == want[q] by {
        let k = choose|k: int| 0 <= k < t.len() && (#[trigger] t[k]).name@ == q;
        assert(s[k].name@ == q);
        assert(t[i] == r);
        if k != i {
            assert(t[k] == s[k]);
            if k < i {
                assert(s[k].name@ != s[i].name@);
            } else {
                assert(s[i].name@ != s[k].name@);
            }
        }
    }
    assert(table(t) =~= want);
}

/// A record added under a new name.
pub proof fn lemma_table_push(s: Seq<Queue>, r: Queue)
    requires
        distinct_names(s),
        !names(s, r.name@),
    ensures
        distinct_names(s.push(r)),
        table(s.push(r)) == table(s).insert(r.name@, messages_of(r.messages@)),
        !table(s).contains_key(r.name@),
{
    assert(s.push(r).drop_last() =~= s);
    assert forall|a: int, b: int| 0 <= a < b < s.push(r).len() implies (#[trigger] s.push(
        r,
    )[a]).name@ != (#[trigger] s.push(r)[b]).name@ by {
        if b == s.len() {
            assert(s[a].name@ != r.name@);
        } else {
            assert(s[a].name@ != s[b].name@);
        }
    }
    lemma_table(s);
}

impl RelayMessage {
    /// A copy of the message.
    pub fn duplicate(&self) -> (r: RelayMessage)
        ensures
            r@ == self@,
    {
        let body = self.body.clone();
        assert(body@ =~= self.body@);
        RelayMessage { body, expires_unix_ms: self.expires_unix_ms }
    }
}

impl Lease {
    /// A copy of the lease.
    pub fn duplicate(&self) -> (r: Lease)
        ensures
            r@ == self@,
    {
        Lease {
            id: self.id.clone(),
            queue: self.queue.clone(),
            msg: self.msg.duplicate(),
            lease_until_ms: self.lease_until_ms,
        }
    }
}

impl Queue {
    /// A copy of the queue.
    pub fn duplicate(&self) -> (r: Queue)
        ensures
            r.name@ == self.name@,
            messages_of(r.messages@) == messages_of(self.messages@),
    {
        let mut messages: VecDeque<RelayMessage> = VecDeque::new();
        for i in 0..self.messages.len()
            invariant
                messages_of(messages@) == messages_of(self.messages@).take(i as int),
        {
            let copy = self.messages[i].duplicate();
            assert(messages_of(messages@.push(copy)) =~= messages_of(messages@).push(copy@));
            messages.push_back(copy);
            assert(messages_of(messages@) =~= messages_of(self.messages@).take(i as int + 1));
        }
        assert(messages_of(self.messages@).take(self.messages@.len() as int) =~= messages_of(
            self.messages@,
        ));
        Queue { name: self.name.clone(), messages }
    }
}

/// Where `name` stands among the records.
pub fn position(queues: &Vec<Queue>, name: &String) -> (r: Option<usize>)
    ensures
        match r {
            Some(i) => i < queues@.len() && queues@[i as int].name@ == name@,
            None => !names(queues@, name@),
        },
{
    for i in 0..queues.len()
        invariant
            forall|j: int| 0 <= j < i ==> (#[trigger] queues@[j]).name@ != name@,
    {
        if queues[i].name == *name {
            return Some(i);
        }
    }
    None
}

/// Drops the messages that have expired at `now`.
pub fn retain_live(messages: &mut VecDeque<RelayMessage>, now: u64)
    ensures
        messages_of(final(messages)@) == state::live(messages_of(old(messages)@), now),
{
    let ghost all = messages@;
    let total = messages.len();
    let ghost mut kept: Seq<RelayMessage> = Seq::empty();
    proof {
        reveal(Seq::filter);
        assert(messages@ =~= all.skip(0) + kept);
        assert(messages_of(kept) =~= state::live(messages_of(all).take(0), now));
    }
    for i in 0..total
        invariant
            total == all.len(),
            messages@ == all.skip(i as int) + kept,
            messages_of(kept) == state::live(messages_of(all).take(i as int), now),
    {
        let ghost before = messages@;
        let front = messages.pop_front();
        proof {
            assert(before.len() > 0);
            assert(front == Some(all[i as int]));
            assert(messages@ =~= all.skip(i as int + 1) + kept);
            state::lemma_live_push(messages_of(all).take(i as int), all[i as int]@, now);
            assert(messages_of(all).take(i as int + 1) =~= messages_of(all).take(i as int).push(
                all[i as int]@,
            ));
        }
        if let Some(msg) = front {
            if msg.expires_unix_ms > now {
                proof {
                    assert(messages_of(kept.push(msg)) =~= messages_of(kept).push(msg@));
                    kept = kept.push(msg);
                }
                messages.push_back(msg);
                assert(messages@ =~= all.skip(i as int + 1) + kept);
            }
        }
    }
    assert(messages@ =~= kept);
    assert(messages_of(all).take(total as int) =~= messages_of(all));
}

/// Every record holds at least one message.
pub open spec fn none_empty(s: Seq<Queue>) -> bool {
    forall|q: Seq<char>| #[trigger]
        table(s).contains_key(q) ==> state::waiting(table(s), q).len() > 0
}

/// The queues without their expired messages; those left empty are dropped.
pub fn live_queues(queues: Vec<Queue>, now: u64) -> (r: Vec<Queue>)
    requires
        distinct_names(queues@),
    ensures
        distinct_names(r@),
        none_empty(r@),
        forall|q: Seq<char>| #[trigger]
            state::waiting(table(r@), q) == state::live(state::waiting(table(queues@), q), now),
{
    let ghost all = queues@;
    let mut rest = queues;
    let mut kept: Vec<Queue> = Vec::new();
    proof {
        reveal(Seq::filter);
        lemma_table(all);
        assert(all.take(all.len() as int) =~= all);
    }
    while rest.len() > 0
        invariant
            distinct_names(all),
            rest@ == all.take(rest@.len() as int),
            rest@.len() <= all.len(),
            distinct_names(kept@),
            none_empty(kept@),
            forall|q: Seq<char>| #[trigger] names(kept@, q) ==> !names(rest@, q),
            forall|q: Seq<char>|
                !names(rest@, q) ==> #[trigger] state::waiting(table(kept@), q) == state::live(
                    state::waiting(table(all), q),
                    now,
                ),
        decreases rest@.len(),
    {
        let ghost before = rest@;
        let ghost was = kept@;
        let ghost n = rest@.len() - 1;
        if let Some(mut queue) = rest.pop() {
            proof {
                assert(queue == all[n]);
                assert(rest@ =~= all.take(n));
                lemma_table(all);
                lemma_table(was);
                assert(names(all, all[n].name@));
                if names(was, all[n].name@) {
                    assert(before[n] == all[n]);
                    assert(names(before, all[n].name@));
                }
                if names(rest@, all[n].name@) {
                    let i = choose|i: int|
                        0 <= i < rest@.len() && (#[trigger] rest@[i]).name@ == all[n].name@;
                    assert(all[i].name@ != all[n].name@);
                }
                assert forall|q: Seq<char>| names(before, q) implies names(rest@, q) || q
                    == all[n].name@ by {
                    let i = choose|i: int| 0 <= i < before.len() && (#[trigger] before[i]).name@ == q;
                    if i < n {
                        assert(rest@[i].name@ == q);
                    }
                }
                assert forall|q: Seq<char>| names(rest@, q) implies names(before, q) by {
                    let i = choose|i: int| 0 <= i < rest@.len() && (#[trigger] rest@[i]).name@ == q;
                    assert(before[i].name@ == q);
                }
            }
            retain_live(&mut queue.messages, now);
            if queue.messages.len() > 0 {
                proof {
                    lemma_table_push(was, queue);
                    lemma_table(was.push(queue));
                    assert forall|q: Seq<char>| #[trigger] names(was.push(queue), q) implies names(
                        was,
                        q,
                    ) || q == queue.name@ by {
                        let i = choose|i: int|
                            0 <= i < was.push(queue).len() && (#[trigger] was.push(queue)[i]).name@
                                == q;
                        if i < was.len() {
                            assert(was[i].name@ == q);
                        }
                    }
                }
                kept.push(queue);
            }
            assert forall|q: Seq<char>| !names(rest@, q) implies #[trigger] state::waiting(
                table(kept@),
                q,
            ) == state::live(state::waiting(table(all), q), now) by {
                if q == all[n].name@ {
                } else {
                    assert(!names(before, q));
                    assert(state::waiting(table(was), q) == state::live(
                        state::waiting(table(all), q),
                        now,
                    ));
                }
            }
        }
    }
    kept
}

/// Puts `msg` ahead of everything that waits under `name`.
pub fn push_front(queues: &mut Vec<Queue>, name: String, msg: RelayMessage)
    requires
        distinct_names(old(queues)@),
    ensures
        distinct_names(final(queues)@),
        table(final(queues)@) == table(old(queues)@).insert(
            name@,
            seq![msg@] + state::waiting(table(old(queues)@), name@),
        ),
{
    let ghost was = queues@;
    proof {
        lemma_table(was);
    }
    match position(queues, &name) {
        Some(i) => {
            queues[i].messages.push_front(msg);
            proof {
                lemma_table_update(was, i as int, queues@[i as int]);
                assert(queues@ =~= was.update(i as int, queues@[i as int]));
                assert(messages_of(queues@[i as int].messages@) =~= seq![msg@] + messages_of(
                    was[i as int].messages@,
                ));
            }
        },
        None => {
            let mut messages: VecDeque<RelayMessage> = VecDeque::new();
            messages.push_front(msg);
            let queue = Queue { name, messages };
            proof {
                lemma_table_push(was, queue);
                assert(messages_of(messages@) =~= seq![msg@] + Seq::<Message>::empty());
            }
            queues.push(queue);
        },
    }
}

/// Puts `msg` behind everything that waits under `name`.
pub fn push_back(queues: &mut Vec<Queue>, name: String, msg: RelayMessage)
    requires
        distinct_names(old(queues)@),
    ensures
        distinct_names(final(queues)@),
        table(final(queues)@) == table(old(queues)@).insert(
            name@,
            state::waiting(table(old(queues)@), name@).push(msg@),
        ),
{
    let ghost was = queues@;
    proof {
        lemma_table(was);
    }
    match position(queues, &name) {
        Some(i) => {
            queues[i].messages.push_back(msg);
            proof {
                lemma_table_update(was, i as int, queues@[i as int]);
                assert(queues@ =~= was.update(i as int, queues@[i as int]));
                assert(messages_of(queues@[i as int].messages@) =~= messages_of(
                    was[i as int].messages@,
                ).push(msg@));
            }
        },
        None => {
            let mut messages: VecDeque<RelayMessage> = VecDeque::new();
            messages.push_back(msg);
            let queue = Queue { name, messages };
            proof {
                lemma_table_push(was, queue);
                assert(messages_of(messages@) =~= Seq::<Message>::empty().push(msg@));
            }
            queues.push(queue);
        },
    }
}

/// Sends the messages of leases that ran out back to the front of their
/// queues, the oldest lease foremost; messages that expired are dropped.
pub fn give_back(queues: &mut Vec<Queue>, due: Vec<Lease>, now: u64)
    requires
        distinct_names(old(queues)@),
        none_empty(old(queues)@),
        forall|i: int| 0 <= i < due@.len() ==> (#[trigger] due@[i])@.due(now),
    ensures
        distinct_names(final(queues)@),
        none_empty(final(queues)@),
        forall|q: Seq<char>| #[trigger]
            state::waiting(table(final(queues)@), q) == state::returning(leases_of(due@), q, now)
                + state::waiting(table(old(queues)@), q),
{
    let ghost was = queues@;
    let ghost all = due@;
    let mut rest = due;
    proof {
        reveal(Seq::filter);
        assert forall|q: Seq<char>| #[trigger] state::waiting(table(queues@), q)
            == state::returning(leases_of(all.skip(all.len() as int)), q, now) + state::waiting(
            table(was),
            q,
        ) by {
            assert(leases_of(all.skip(all.len() as int)) =~= Seq::<Grant>::empty());
            assert(state::returning(Seq::<Grant>::empty(), q, now) =~= Seq::<Message>::empty());
            assert(Seq::<Message>::empty() + state::waiting(table(was), q) =~= state::waiting(
                table(was),
                q,
            ));
        }
        assert(rest@ =~= all.take(all.len() as int));
    }
    while rest.len() > 0
        invariant
            rest@.len() <= all.len(),
            rest@ == all.take(rest@.len() as int),
            forall|i: int| 0 <= i < all.len() ==> (#[trigger] all[i])@.due(now),
            distinct_names(queues@),
            none_empty(queues@),
            forall|q: Seq<char>| #[trigger]
                state::waiting(table(queues@), q) == state::returning(
                    leases_of(all.skip(rest@.len() as int)),
                    q,
                    now,
                ) + state::waiting(table(was), q),
        decreases rest@.len(),
    {
        let ghost n = rest@.len() - 1;
        let ghost mid = queues@;
        if let Some(lease) = rest.pop() {
            proof {
                assert(lease == all[n]);
                assert(lease@.due(now));
                assert(rest@ =~= all.take(n));
                assert(leases_of(all.skip(n)) =~= seq![lease@] + leases_of(all.skip(n + 1)));
                assert forall|q: Seq<char>| #[trigger] state::returning(
                    leases_of(all.skip(n)),
                    q,
                    now,
                ) == if lease@.returns_to(q, now) {
                    seq![lease.msg@] + state::returning(leases_of(all.skip(n + 1)), q, now)
                } else {
                    state::returning(leases_of(all.skip(n + 1)), q, now)
                } by {
                    state::lemma_returning_prepend(leases_of(all.skip(n + 1)), lease@, q, now);
                }
            }
            let ghost grant = lease@;
            if lease.msg.expires_unix_ms > now {
                push_front(queues, lease.queue, lease.msg);
            }
            assert forall|q: Seq<char>| #[trigger] state::waiting(table(queues@), q)
                == state::returning(leases_of(all.skip(n)), q, now) + state::waiting(
                table(was),
                q,
            ) by {
                let back = state::returning(leases_of(all.skip(n + 1)), q, now);
                assert(state::waiting(table(mid), q) == back + state::waiting(table(was), q));
                assert(seq![grant.msg] + (back + state::waiting(table(was), q)) =~= (seq![grant.msg]
                    + back) + state::waiting(table(was), q));
            }
        }
    }
    assert(all.skip(0) =~= all);
}

/// Parts the leases that still run from those that are due, each in order.
pub fn settle(leases: Vec<Lease>, now: u64) -> (r: (Vec<Lease>, Vec<Lease>))
    ensures
        leases_of(r.0@) == leases_of(leases@).filter(|g: Grant| !g.due(now)),
        forall|i: int| 0 <= i < r.1@.len() ==> (#[trigger] r.1@[i])@.due(now),
        forall|q: Seq<char>| #[trigger]
            state::returning(leases_of(r.1@), q, now) == state::returning(
                leases_of(leases@),
                q,
                now,
            ),
{
    let ghost all = leases@;
    let ghost runs = |g: Grant| !g.due(now);
    let mut kept: Vec<Lease> = Vec::new();
    let mut due: Vec<Lease> = Vec::new();
    proof {
        reveal(Seq::filter);
        assert(leases_of(kept@) =~= leases_of(all.take(0)).filter(runs));
        assert(leases_of(due@) =~= leases_of(all.take(0)));
    }
    for lease in it: leases.into_iter()
        invariant
            it.seq() == all,
            runs == (|g: Grant| !g.due(now)),
            leases_of(kept@) == leases_of(all.take(it.index() as int)).filter(runs),
            forall|i: int| 0 <= i < due@.len() ==> (#[trigger] due@[i])@.due(now),
            forall|q: Seq<char>| #[trigger]
                state::returning(leases_of(due@), q, now) == state::returning(
                    leases_of(all.take(it.index() as int)),
                    q,
                    now,
                ),
    {
        let ghost i = it.index() as int;
        let ghost seen = leases_of(all.take(i));
        let ghost g = lease@;
        let ghost due_before = leases_of(due@);
        proof {
            assert(leases_of(all.take(i + 1)) =~= seen.push(g));
            state::lemma_filter_push(seen, g, runs);
            assert(leases_of(kept@.push(lease)) =~= leases_of(kept@).push(g));
            assert(leases_of(due@.push(lease)) =~= due_before.push(g));
        }
        if lease.lease_until_ms <= now || lease.msg.expires_unix_ms <= now {
            due.push(lease);
        } else {
            kept.push(lease);
        }
        assert forall|q: Seq<char>| #[trigger] state::returning(leases_of(due@), q, now)
            == state::returning(leases_of(all.take(i + 1)), q, now) by {
            state::lemma_returning_push(seen, g, q, now);
            state::lemma_returning_push(due_before, g, q, now);
            assert(state::returning(due_before, q, now) == state::returning(seen, q, now));
        }
    }
    assert(all.take(all.len() as int) =~= all);
    (kept, due)
}

/// Drops the lease `id`, if there is one, and says whether there was.
pub fn remove_lease(leases: &mut Vec<Lease>, id: &String) -> (r: bool)
    ensures
        leases_of(final(leases)@) == state::without(leases_of(old(leases)@), id@),
        r == state::holds(leases_of(old(leases)@), id@),
{
    let ghost all = leases@;
    let ghost other = |g: Grant| g.id != id@;
    let mut rest: Vec<Lease> = Vec::new();
    std::mem::swap(leases, &mut rest);
    let mut found = false;
    proof {
        reveal(Seq::filter);
        assert(leases_of(leases@) =~= leases_of(all.take(0)).filter(other));
    }
    for lease in it: rest.into_iter()
        invariant
            it.seq() == all,
            other == (|g: Grant| g.id != id@),
            leases_of(leases@) == leases_of(all.take(it.index() as int)).filter(other),
            found == exists|k: int| 0 <= k < it.index() && (#[trigger] leases_of(all)[k]).id == id@,
    {
        let ghost i = it.index() as int;
        let ghost seen = leases_of(all.take(i));
        proof {
            assert(leases_of(all.take(i + 1)) =~= seen.push(lease@));
            state::lemma_filter_push(seen, lease@, other);
            assert(leases_of(leases@.push(lease)) =~= leases_of(leases@).push(lease@));
            assert(leases_of(all)[i] == lease@);
        }
        if lease.id == *id {
            found = true;
        } else {
            leases.push(lease);
        }
    }
    assert(all.take(all.len() as int) =~= all);
    found
}

/// Whether one of `leases` goes by `id`.
pub fn has_lease(leases: &Vec<Lease>, id: &String) -> (r: bool)
    ensures
        r == state::holds(leases_of(leases@), id@),
{
    for i in 0..leases.len()
        invariant
            forall|j: int| 0 <= j < i ==> (#[trigger] leases_of(leases@)[j]).id != id@,
    {
        assert(leases_of(leases@)[i as int] == leases@[i as int]@);
        if leases[i].id == *id {
            return true;
        }
    }
    false
}

/// `id`, with zeros behind it while a lease already goes by it.
pub fn free_id(leases: &Vec<Lease>, id: String) -> (r: String)
    ensures
        r@ == state::free_id(leases_of(leases@), id@),
{
    let ghost all = leases_of(leases@);
    let ghost wanted = id@;
    let mut id = id;
    while has_lease(leases, &id)
        invariant
            all == leases_of(leases@),
            state::free_id(all, wanted) == state::free_id(all, id@),
        decreases state::longest(all) + 1 - id@.len(),
    {
        proof {
            let i = choose|i: int| 0 <= i < all.len() && (#[trigger] all[i]).id == id@;
            state::lemma_longest(all, i);
        }
        id.push('0');
    }
    id
}

/// Copies of the leases, in order.
pub fn copy_leases(leases: &Vec<Lease>) -> (r: Vec<Lease>)
    ensures
        leases_of(r@) == leases_of(leases@),
{
    let mut out: Vec<Lease> = Vec::new();
    for i in 0..leases.len()
        invariant
            leases_of(out@) == leases_of(leases@).take(i as int),
    {
        let copy = leases[i].duplicate();
        assert(leases_of(out@.push(copy)) =~= leases_of(out@).push(copy@));
        out.push(copy);
        assert(leases_of(out@) =~= leases_of(leases@).take(i as int + 1));
    }
    assert(leases_of(leases@).take(leases@.len() as int) =~= leases_of(leases@));
    out
}

/// Copies of the queues, in order.
pub fn copy_queues(queues: &Vec<Queue>) -> (r: Vec<Queue>)
    ensures
        table(r@) == table(queues@),
{
    let mut out: Vec<Queue> = Vec::new();
    for i in 0..queues.len()
        invariant
            out@.len() == i,
            table(out@) == table(queues@.take(i as int)),
    {
        let copy = queues[i].duplicate();
        proof {
            assert(out@.push(copy).drop_last() =~= out@);
            assert(queues@.take(i as int + 1).drop_last() =~= queues@.take(i as int));
        }
        out.push(copy);
    }
    assert(queues@.take(queues@.len() as int) =~= queues@);
    out
}

/// The records with earlier ones of a repeated name dropped.
pub fn by_name(queues: Vec<Queue>) -> (r: Vec<Queue>)
    ensures
        distinct_names(r@),
        table(r@) == table(queues@),
{
    let ghost all = queues@;
    let mut out: Vec<Queue> = Vec::new();
    assert(all.take(0) =~= Seq::<Queue>::empty());
    for queue in it: queues.into_iter()
        invariant
            it.seq() == all,
            distinct_names(out@),
            table(out@) == table(all.take(it.index() as int)),
    {
        let ghost i = it.index() as int;
        let ghost was = out@;
        assert(all.take(i + 1).drop_last() =~= all.take(i));
        match position(&out, &queue.name) {
            Some(k) => {
                proof {
                    lemma_table_update(was, k as int, queue);
                }
                out.set(k, queue);
            },
            None => {
                proof {
                    lemma_table_push(was, queue);
                }
                out.push(queue);
            },
        }
    }
    assert(all.take(all.len() as int) =~= all);
    out
}

/// The leases that `records` spell out: of two with one id the later counts,
/// in the later one's place.
pub open spec fn lease_table(records: Seq<Lease>) -> Seq<Grant>
    decreases records.len(),
{
    if records.len() == 0 {
        Seq::empty()
    } else {
        state::without(lease_table(records.drop_last()), records.last().id@).push(records.last()@)
    }
}

/// A lease that takes the place of the one with its id.
pub proof fn lemma_grant(leases: Seq<Grant>, g: Grant)
    requires
        state::distinct_ids(leases),
    ensures
        state::distinct_ids(state::without(leases, g.id).push(g)),
{
    let p = |h: Grant| h.id != g.id;
    state::lemma_filter_distinct(leases, p);
    let kept = state::without(leases, g.id);
    assert forall|i: int| 0 <= i < kept.len() implies (#[trigger] kept[i]).id != g.id by {
        leases.lemma_filter_pred(p, i);
    }
}

/// The leases with earlier ones of a repeated id dropped.
pub fn by_id(leases: Vec<Lease>) -> (r: Vec<Lease>)
    ensures
        state::distinct_ids(leases_of(r@)),
        leases_of(r@) == lease_table(leases@),
{
    let ghost all = leases@;
    let mut out: Vec<Lease> = Vec::new();
    assert(all.take(0) =~= Seq::<Lease>::empty());
    assert(leases_of(out@) =~= Seq::<Grant>::empty());
    for lease in it: leases.into_iter()
        invariant
            it.seq() == all,
            state::distinct_ids(leases_of(out@)),
            leases_of(out@) == lease_table(all.take(it.index() as int)),
    {
        let ghost i = it.index() as int;
        assert(all.take(i + 1).drop_last() =~= all.take(i));
        proof {
            lemma_grant(leases_of(out@), lease@);
        }
        remove_lease(&mut out, &lease.id);
        assert(leases_of(out@.push(lease)) =~= leases_of(out@).push(lease@));
        out.push(lease);
    }
    assert(all.take(all.len() as int) =~= all);
    out
}

/// With distinct ids every lease record counts.
pub proof fn lemma_lease_table(records: Seq<Lease>)
    requires
        state::distinct_ids(leases_of(records)),
    ensures
        lease_table(records) == leases_of(records),
    decreases records.len(),
{
    if records.len() > 0 {
        let rest = records.drop_last();
        let last = records.last();
        assert forall|i: int, j: int| 0 <= i < j < leases_of(rest).len() implies (
        #[trigger] leases_of(rest)[i]).id != (#[trigger] leases_of(rest)[j]).id by {
            assert(leases_of(records)[i].id != leases_of(records)[j].id);
        }
        lemma_lease_table(rest);
        let g = leases_of(rest);
        assert forall|i: int| 0 <= i < g.len() implies (#[trigger] g[i]).id != last.id@ by {
            assert(leases_of(records)[i].id != leases_of(records)[records.len() - 1].id);
        }
        lemma_without_none(g, last.id@);
        assert(leases_of(records) =~= g.push(last@));
    } else {
        assert(leases_of(records) =~= Seq::<Grant>::empty());
    }
}

/// Dropping an id that no lease has changes nothing.
pub proof fn lemma_without_none(leases: Seq<Grant>, id: Seq<char>)
    requires
        !state::holds(leases, id),
    ensures
        state::without(leases, id) == leases,
    decreases leases.len(),
{
    reveal(Seq::filter);
    if leases.len() > 0 {
        assert(leases[leases.len() - 1].id != id);
        assert forall|i: int| 0 <= i < leases.drop_last().len() implies (
        #[trigger] leases.drop_last()[i]).id != id by {
            assert(leases[i].id != id);
        }
        lemma_without_none(leases.drop_last(), id);
        assert(leases.drop_last().push(leases.last()) =~= leases);
    }
}

/// How many leases are on messages of `queue`.
pub fn count_leases(leases: &Vec<Lease>, queue: &String) -> (r: usize)
    ensures
        r == leases_of(leases@).filter(|g: Grant| g.queue == queue@).len(),
{
    let ghost of_queue = |g: Grant| g.queue == queue@;
    let mut n: usize = 0;
    proof {
        reveal(Seq::filter);
        assert(leases_of(leases@).take(0).filter(of_queue).len() == 0);
    }
    for i in 0..leases.len()
        invariant
            n <= i,
            of_queue == (|g: Grant| g.queue == queue@),
            n == leases_of(leases@).take(i as int).filter(of_queue).len(),
    {
        proof {
            let seen = leases_of(leases@).take(i as int);
            assert(leases_of(leases@).take(i as int + 1) =~= seen.push(leases@[i as int]@));
            state::lemma_filter_push(seen, leases@[i as int]@, of_queue);
        }
        if leases[i].queue == *queue {
            n = n + 1;
        }
    }
    assert(leases_of(leases@).take(leases@.len() as int) =~= leases_of(leases@));
    n
}

} // verus!
