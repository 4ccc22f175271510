use horus_dev_relay::clock::unix_ms;
use horus_dev_relay::relay::{check_send, claim_key, lease_id, CLAIM_LIMIT, DEFAULT_LEASE_MS, MAX_BODY};
use horus_dev_relay::{
    millis, now_ms, ClaimError, Lease, Queue, RegistryError, Relay, RelayError, RelayMessage,
    Snapshot,
};
use std::collections::VecDeque;

const T: u64 = 1_700_000_000_000;

fn yes(_: &str) -> bool {
    true
}

#[test]
fn send_then_poll_leases_until_ack() {
    let mut relay = Relay::new(millis(30));
    relay.send("q1", b"cipher".to_vec(), yes).unwrap();

    assert_eq!(relay.len("q1"), 1);
    let (id, body) = relay.poll("q1").unwrap();
    assert_eq!(body, b"cipher");
    // Still counted while leased.
    assert_eq!(relay.len("q1"), 1);
    assert_eq!(relay.poll("q1"), None);
    assert!(relay.ack(&id));
    assert_eq!(relay.len("q1"), 0);
    assert!(!relay.ack(&id));
}

#[test]
fn expired_lease_redelivers() {
    let mut relay = Relay::new(millis(30));
    relay.set_lease_ms(5);
    relay.send_at("q", b"again".to_vec(), true, T).unwrap();
    let (_id, body) = relay.poll_at("q", T).unwrap();
    assert_eq!(body, b"again");
    let (_id2, body2) = relay.poll_at("q", T + 15).unwrap();
    assert_eq!(body2, b"again");
}

#[test]
fn keeps_queues_separate() {
    let mut relay = Relay::new(millis(30));
    relay.send("a", b"one".to_vec(), yes).unwrap();
    relay.send("b", b"two".to_vec(), yes).unwrap();

    assert_eq!(relay.poll("b").map(|(_, b)| b), Some(b"two".to_vec()));
    assert_eq!(relay.poll("a").map(|(_, b)| b), Some(b"one".to_vec()));
}

#[test]
fn ttl_prunes_expired_messages() {
    let mut relay = Relay::new(5);
    relay.send_at("q", b"old".to_vec(), true, T).unwrap();

    assert_eq!(relay.poll_at("q", T + 10), None);
}

#[test]
fn rejects_bad_inputs() {
    let mut relay = Relay::new(millis(30));

    assert_eq!(relay.send("", b"x".to_vec(), yes), Err(RelayError::EmptyQueue));
    assert_eq!(relay.send("q", Vec::new(), yes), Err(RelayError::EmptyBody));
}

#[test]
fn registry_claim_resolve() {
    let invite = "horus://invite/testdata";
    let mut taken: Vec<(String, String)> = Vec::new();
    let mut claim = |names: &mut Vec<(String, String)>| {
        Relay::claim_username(
            "alice",
            b"salt-alice-aaaaaa",
            true,
            Some(invite),
            |name| Some(name.to_string()),
            yes,
            |name, salt, findable, contact| {
                assert_eq!(salt, b"salt-alice-aaaaaa");
                assert!(findable);
                if names.iter().any(|(n, _)| n == name) {
                    return Err(RegistryError::Taken);
                }
                names.push((name.to_string(), contact.unwrap().to_string()));
                Ok(())
            },
        )
    };
    claim(&mut taken).unwrap();
    assert_eq!(taken, vec![("alice".to_string(), invite.to_string())]);
    assert!(matches!(
        claim(&mut taken),
        Err(ClaimError::Registry(RegistryError::Taken))
    ));
}

#[test]
fn registry_claim_is_rate_limited() {
    let invite = "horus://invite/testdata";
    let mut attempts: u32 = 0;
    let mut asked: u32 = 0;
    let mut claim = |attempts: &mut u32, asked: &mut u32| {
        Relay::claim_username(
            "limited",
            b"salt-limit-aaaaaa",
            true,
            Some(invite),
            |_| None,
            |key| {
                assert_eq!(key, "bad:limited");
                *attempts += 1;
                *attempts <= CLAIM_LIMIT
            },
            |_, _, _, _| {
                *asked += 1;
                if *asked == 1 { Ok(()) } else { Err(RegistryError::Taken) }
            },
        )
    };
    claim(&mut attempts, &mut asked).unwrap();
    for _ in 0..4 {
        let _ = claim(&mut attempts, &mut asked);
    }
    assert_eq!(claim(&mut attempts, &mut asked), Err(ClaimError::RateLimited));
    // The registry was not asked again.
    assert_eq!(asked, 5);
}

#[test]
fn invalid_claim_is_reported() {
    let r = Relay::claim_username(
        "x",
        b"",
        false,
        None,
        |_| Some("n".to_string()),
        yes,
        |_, _, _, _| Err(RegistryError::Invalid),
    );
    assert_eq!(r, Err(ClaimError::Registry(RegistryError::Invalid)));
}

#[test]
fn claims_are_counted_under_the_nullifier() {
    assert_eq!(claim_key(Some("n1".to_string()), "bob"), "n1");
    assert_eq!(claim_key(None, "bob"), "bad:bob");
}

#[test]
fn persists_queues_and_registry() {
    let mut names: Vec<(String, String)> = Vec::new();
    let mut relay = Relay::new(millis(60));
    relay.send("q", b"blob".to_vec(), yes).unwrap();
    Relay::claim_username(
        "bob",
        b"salt-bob-bbbbbbbb",
        true,
        Some("horus://invite/bob"),
        |name| Some(name.to_string()),
        yes,
        |name, _, _, contact| {
            names.push((name.to_string(), contact.unwrap().to_string()));
            Ok(())
        },
    )
    .unwrap();
    let snapshot = relay.snapshot();

    let mut relay = Relay::new(millis(60));
    relay.restore(snapshot);
    let (id, body) = relay.poll("q").unwrap();
    assert_eq!(body, b"blob");
    assert!(relay.ack(&id));
    assert_eq!(names, vec![("bob".to_string(), "horus://invite/bob".to_string())]);
}

#[test]
fn snapshot_keeps_leases() {
    let mut relay = Relay::new(millis(60));
    relay.send_at("q", b"blob".to_vec(), true, T).unwrap();
    let (id, _) = relay.poll_at("q", T + 1).unwrap();
    let snapshot = relay.snapshot();
    assert_eq!(snapshot.leases.len(), 1);
    assert_eq!(snapshot.leases[0].id, id);
    assert_eq!(snapshot.leases[0].lease_until_ms, T + 1 + DEFAULT_LEASE_MS);
    assert_eq!(snapshot.leases[0].msg.expires_unix_ms, T + 60_000);

    let mut other = Relay::new(millis(60));
    other.restore_at(snapshot, T + 2);
    assert_eq!(other.poll_at("q", T + 2), None);
    assert_eq!(other.len_at("q", T + 2), 1);
    assert!(other.ack_at(&id, T + 3));
    assert_eq!(other.len_at("q", T + 3), 0);
}

#[test]
fn restore_drops_what_expired_and_takes_the_later_record() {
    let message = |b: &[u8], e: u64| RelayMessage { body: b.to_vec(), expires_unix_ms: e };
    let queue = |name: &str, m: RelayMessage| {
        let mut messages = VecDeque::new();
        messages.push_back(m);
        Queue { name: name.to_string(), messages }
    };
    let lease = |id: &str, m: RelayMessage, until: u64| Lease {
        id: id.to_string(),
        queue: "l".to_string(),
        msg: m,
        lease_until_ms: until,
    };
    let snapshot = Snapshot {
        queues: vec![
            queue("q", message(b"first", T + 5)),
            queue("old", message(b"gone", T)),
            queue("q", message(b"second", T + 5)),
        ],
        leases: vec![
            lease("x", message(b"early", T + 5), T + 4),
            lease("x", message(b"late", T + 5), T),
        ],
    };
    let mut relay = Relay::new(5);
    relay.restore_at(snapshot, T);
    assert_eq!(relay.poll_at("old", T), None);
    assert_eq!(relay.poll_at("q", T).map(|(_, b)| b), Some(b"second".to_vec()));
    assert_eq!(relay.poll_at("q", T), None);
    assert_eq!(relay.poll_at("l", T).map(|(_, b)| b), Some(b"late".to_vec()));
}

#[test]
fn messages_come_out_in_order() {
    let mut relay = Relay::new(1000);
    for b in [b"a", b"b", b"c"] {
        relay.send_at("q", b.to_vec(), true, T).unwrap();
    }
    for b in [b"a", b"b", b"c"] {
        assert_eq!(relay.poll_at("q", T + 1).unwrap().1, b.to_vec());
    }
    assert_eq!(relay.poll_at("q", T + 1), None);
    assert_eq!(relay.len_at("q", T + 1), 3);
}

#[test]
fn returned_messages_go_first_oldest_lease_foremost() {
    let mut relay = Relay::new(100_000);
    relay.set_lease_ms(10);
    for b in [b"a", b"b", b"c"] {
        relay.send_at("q", b.to_vec(), true, T).unwrap();
    }
    relay.poll_at("q", T).unwrap();
    relay.poll_at("q", T + 1).unwrap();
    let order: Vec<Vec<u8>> = (0..3).map(|_| relay.poll_at("q", T + 50).unwrap().1).collect();
    assert_eq!(order, vec![b"a".to_vec(), b"b".to_vec(), b"c".to_vec()]);
}

#[test]
fn boundaries_of_lease_and_ttl() {
    let mut relay = Relay::new(100);
    relay.set_lease_ms(10);
    relay.send_at("q", b"m".to_vec(), true, T).unwrap();
    let (id, _) = relay.poll_at("q", T).unwrap();
    assert_eq!(relay.poll_at("q", T + 9), None);
    relay.prune_at(T + 10);
    assert!(!relay.ack_at(&id, T + 10));
    assert!(relay.poll_at("q", T + 99).is_some());
    assert_eq!(relay.len_at("q", T + 99), 1);
    assert_eq!(relay.len_at("q", T + 100), 0);
    assert_eq!(relay.poll_at("q", T + 200), None);
}

#[test]
fn one_id_holds_one_lease() {
    let mut relay = Relay::new(100);
    relay.set_lease_ms(10);
    relay.send_at("q", b"same".to_vec(), true, T).unwrap();
    relay.send_at("q", b"same".to_vec(), true, T).unwrap();
    let (a, _) = relay.poll_at("q", T).unwrap();
    let (b, _) = relay.poll_at("q", T).unwrap();
    assert_eq!(a, lease_id("q", b"same", T));
    assert_eq!(b, format!("{a}0"));
    assert_eq!(relay.len_at("q", T), 2);
    assert!(relay.ack_at(&b, T + 1));
    assert_eq!(relay.len_at("q", T + 1), 1);
    // The other one is still owed.
    assert_eq!(relay.poll_at("q", T + 10).unwrap().1, b"same");
}

#[test]
fn ids_do_not_collide_across_queues() {
    let mut relay = Relay::new(100);
    relay.send_at("q", b"x|y".to_vec(), true, T).unwrap();
    relay.send_at("q|x", b"y".to_vec(), true, T).unwrap();
    assert_eq!(lease_id("q", b"x|y", T), lease_id("q|x", b"y", T));
    let (a, _) = relay.poll_at("q", T).unwrap();
    let (b, _) = relay.poll_at("q|x", T).unwrap();
    assert_ne!(a, b);
    assert_eq!((relay.len_at("q", T), relay.len_at("q|x", T)), (1, 1));
}

#[test]
fn limits_on_a_message() {
    assert_eq!(check_send(" \t\u{3000}", b"x"), Err(RelayError::EmptyQueue));
    assert_eq!(check_send("\u{200b}", b"x"), Ok(()));
    let full = vec![0u8; MAX_BODY];
    assert_eq!(check_send("q", &full), Ok(()));
    let over = vec![0u8; MAX_BODY + 1];
    assert_eq!(check_send("q", &over), Err(RelayError::PayloadTooLarge));

    let mut relay = Relay::new(100);
    assert_eq!(
        relay.send("q", b"x".to_vec(), |key| key != "q"),
        Err(RelayError::RateLimited)
    );
    assert_eq!(relay.send_at("q", b"x".to_vec(), false, T), Err(RelayError::RateLimited));
    assert_eq!(relay.len_at("q", T), 0);
    // The limiter is not asked about a message that is bad anyway.
    let mut asked = false;
    let r = relay.send("q", Vec::new(), |_| {
        asked = true;
        true
    });
    assert_eq!(r, Err(RelayError::EmptyBody));
    assert!(!asked);
}

#[test]
fn deadlines_wrap_with_the_clock() {
    let mut relay = Relay::new(10);
    relay.send_at("q", b"x".to_vec(), true, u64::MAX - 3).unwrap();
    assert_eq!(relay.snapshot().queues[0].messages[0].expires_unix_ms, 6);
    assert_eq!(relay.poll_at("q", u64::MAX - 2), None);
}

#[test]
fn lease_ids_are_hex_digests() {
    let id = lease_id("q1", b"cipher", 1_700_000_000_123);
    assert_eq!(id, "ee9f2fdd812d62b27aefde5d4facc0a1ee2e72215b4b1371adebb65d70741193");
}

#[test]
fn clock_runs_after_the_epoch() {
    assert!(now_ms() > 1_600_000_000_000);
    let mut relay = Relay::new(millis(60));
    relay.send("q", b"m".to_vec(), yes).unwrap();
    relay.prune();
    assert_eq!(relay.len("q"), 1);
}

#[test]
fn readings_narrow_to_words() {
    assert_eq!(unix_ms(None), 0);
    assert_eq!(unix_ms(Some(17)), 17);
    assert_eq!(unix_ms(Some(u64::MAX as u128 + 3)), 2);
    assert_eq!(millis(30), 30_000);
    assert_eq!(millis(u64::MAX), u64::MAX - 999);
}

#[test]
fn live_messages_are_kept_until_confirmed() {
    let mut relay = Relay::new(1_000);
    relay.set_lease_ms(10);
    relay.send_at("q", b"kept".to_vec(), true, T).unwrap();
    relay.send_at("other", b"x".to_vec(), true, T + 1).unwrap();
    relay.poll_at("other", T + 2).unwrap();
    assert!(!relay.ack_at("no such lease", T + 3));
    for round in 0..5u64 {
        let (_, body) = relay.poll_at("q", T + 20 * round + 5).unwrap();
        assert_eq!(body, b"kept");
        assert_eq!(relay.len_at("q", T + 20 * round + 6), 1);
    }
    let (id, _) = relay.poll_at("q", T + 900).unwrap();
    assert!(relay.ack_at(&id, T + 901));
    assert_eq!(relay.poll_at("q", T + 950), None);
}

#[test]
fn clearing_out_twice_is_clearing_out_once() {
    let mut relay = Relay::new(50);
    relay.set_lease_ms(10);
    for b in [b"a", b"b"] {
        relay.send_at("q", b.to_vec(), true, T).unwrap();
    }
    relay.poll_at("q", T).unwrap();
    relay.prune_at(T + 20);
    let once = relay.snapshot();
    relay.prune_at(T + 20);
    let twice = relay.snapshot();
    assert_eq!(once.queues.len(), 1);
    assert_eq!(once.queues[0].messages, twice.queues[0].messages);
    assert_eq!(once.queues[0].messages.len(), 2);
    assert_eq!(twice.leases.len(), 0);
}

#[test]
fn a_poll_takes_the_first_live_message() {
    let mut relay = Relay::new(100);
    for (b, at) in [(b"a", T), (b"b", T + 50), (b"c", T + 60)] {
        relay.send_at("q", b.to_vec(), true, at).unwrap();
    }
    assert_eq!(relay.poll_at("q", T + 120).unwrap().1, b"b");
    assert_eq!(relay.poll_at("q", T + 120).unwrap().1, b"c");
    assert_eq!(relay.poll_at("q", T + 120), None);
}

#[test]
fn redelivery_survives_other_operations() {
    let mut relay = Relay::new(1_000);
    relay.set_lease_ms(100);
    relay.send_at("q", b"first".to_vec(), true, T).unwrap();
    let (id, _) = relay.poll_at("q", T).unwrap();
    // While the lease runs, the queue offers what else is there.
    relay.send_at("q", b"second".to_vec(), true, T + 10).unwrap();
    let (other, body) = relay.poll_at("q", T + 99).unwrap();
    assert_eq!(body, b"second");
    assert!(relay.ack_at(&other, T + 99));
    // The lease runs out during other work.
    relay.send_at("q", b"third".to_vec(), true, T + 100).unwrap();
    relay.send_at("r", b"x".to_vec(), true, T + 110).unwrap();
    relay.poll_at("r", T + 120).unwrap();
    assert!(!relay.ack_at("nothing", T + 130));
    assert_eq!(relay.poll_at("q", T + 140).unwrap().1, b"first");
    assert_eq!(relay.poll_at("q", T + 140).unwrap().1, b"third");
    assert!(!relay.ack_at(&id, T + 150));
}

#[test]
fn what_is_confirmed_does_not_come_back() {
    let mut relay = Relay::new(1_000);
    relay.set_lease_ms(10);
    relay.send_at("q", b"once".to_vec(), true, T).unwrap();
    let (id, _) = relay.poll_at("q", T).unwrap();
    assert!(relay.ack_at(&id, T + 1));
    relay.send_at("q", b"other".to_vec(), true, T + 2).unwrap();
    for at in [3u64, 20, 40, 60] {
        assert_eq!(relay.poll_at("q", T + at).unwrap().1, b"other");
        assert!(!relay.ack_at(&id, T + at));
    }
    let snapshot = relay.snapshot();
    let mut reloaded = Relay::new(1_000);
    reloaded.restore_at(snapshot, T + 80);
    assert_eq!(reloaded.poll_at("q", T + 80).unwrap().1, b"other");
    assert_eq!(reloaded.poll_at("q", T + 80), None);
    assert!(!reloaded.ack_at(&id, T + 80));
}

#[test]
fn other_leases_do_not_hold_up_redelivery() {
    let mut relay = Relay::new(1_000);
    relay.set_lease_ms(100);
    for b in [b"a", b"b"] {
        relay.send_at("q", b.to_vec(), true, T).unwrap();
    }
    relay.poll_at("q", T).unwrap();
    relay.poll_at("q", T + 50).unwrap();
    // The later lease still runs.
    relay.prune_at(T + 110);
    assert_eq!(relay.poll_at("q", T + 120).unwrap().1, b"a");
    // Both have run out: the older one goes first.
    assert_eq!(relay.poll_at("q", T + 400).unwrap().1, b"b");
    assert_eq!(relay.poll_at("q", T + 400).unwrap().1, b"a");
}

#[test]
fn clearing_out_drops_exactly_what_expired() {
    let mut relay = Relay::new(100);
    relay.set_lease_ms(30);
    for (b, at) in [(b"a", T), (b"b", T), (b"c", T + 50), (b"d", T + 50)] {
        relay.send_at("q", b.to_vec(), true, at).unwrap();
    }
    relay.poll_at("q", T + 60).unwrap();
    assert_eq!(relay.len_at("q", T + 99), 4);
    assert_eq!(relay.len_at("q", T + 100), 2);
    assert_eq!(relay.poll_at("q", T + 100).unwrap().1, b"c");
}
