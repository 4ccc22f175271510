use horus_dev_relay::http::decide;
use horus_dev_relay::reply::ClaimBody;
use horus_dev_relay::{
    millis, serve, serve_claim, serve_inquiry, Action, Inquiry, OnionLayer, RegistryError, Relay, Reply, Served,
};

fn no_layer(_: &[u8]) -> Option<OnionLayer> {
    None
}

fn ask(relay: &mut Relay, line: &str, body: &str) -> Served {
    let request = format!("{line} HTTP/1.1\r\nHost: x\r\n\r\n{body}");
    serve(relay, decide(&request), no_layer, |_| true).unwrap()
}

fn words(code: u16, body: &str, changed: bool) -> Served {
    let reply = Reply { code, body: body.as_bytes().to_vec(), lease: None };
    Served { reply, changed }
}

#[test]
fn a_message_goes_round() {
    let mut relay = Relay::new(millis(60));
    assert_eq!(ask(&mut relay, "GET /health", ""), words(200, "ok", false));
    assert_eq!(ask(&mut relay, "GET /queues/q", ""), words(204, "", false));
    assert_eq!(ask(&mut relay, "POST /queues/q", "hello"), words(202, "queued", true));
    let polled = ask(&mut relay, "GET /waku/v1/queues/q", "");
    assert_eq!(polled.reply.code, 200);
    assert_eq!(polled.reply.body, b"hello");
    assert!(polled.changed);
    let ack = format!("POST /ack/{}", polled.reply.lease.unwrap());
    assert_eq!(ask(&mut relay, &ack, ""), words(200, "acked", true));
    assert_eq!(ask(&mut relay, &ack, ""), words(404, "unknown lease", false));
    assert_eq!(relay.len("q"), 0);
}

#[test]
fn refusals_change_nothing() {
    let mut relay = Relay::new(millis(60));
    assert_eq!(ask(&mut relay, "POST /queues/q", ""), words(400, "bad queue", false));
    assert_eq!(ask(&mut relay, "POST /forward", "x"), words(400, "bad onion", false));
    let limited = serve(
        &mut relay,
        Action::Send("q".to_string(), b"m".to_vec()),
        no_layer,
        |key| key != "q",
    );
    assert_eq!(limited, Ok(words(400, "bad queue", false)));
    assert_eq!(relay.len("q"), 0);
}

#[test]
fn inquiries_are_handed_back() {
    let mut relay = Relay::new(millis(60));
    let action = decide("GET /registry/bob HTTP/1.1\r\n\r\n");
    assert_eq!(
        serve(&mut relay, action, no_layer, |_| true),
        Err(Inquiry::Resolve("bob".to_string()))
    );
}

#[test]
fn claims_are_served() {
    let claim = |salt: &str| {
        Some(ClaimBody {
            salt_b64: salt.to_string(),
            findable: true,
            contact: Some("horus://invite/bob".to_string()),
        })
    };
    let run = |claim: Option<ClaimBody>, allowed: bool, outcome: Result<(), RegistryError>| {
        serve_claim(
            "bob",
            claim,
            |name| Some(format!("n-{name}")),
            |key| {
                assert_eq!(key, "n-bob");
                allowed
            },
            |name, salt, findable, contact| {
                assert_eq!(name, "bob");
                assert_eq!(salt, b"salt");
                assert!(findable);
                assert_eq!(contact, Some("horus://invite/bob"));
                outcome
            },
        )
    };
    // A claim that cannot be read reaches nobody.
    for unread in [None, claim("%")] {
        let reply = serve_claim(
            "bob",
            unread,
            |_| panic!("nullifier asked"),
            |_| panic!("limiter asked"),
            |_, _, _, _| panic!("registry asked"),
        );
        assert_eq!(reply.reply.code, 400);
    }
    assert_eq!(run(None, true, Ok(())), words(400, "bad json", false));
    assert_eq!(run(claim("%"), true, Ok(())), words(400, "bad salt", false));
    assert_eq!(run(claim("c2FsdA=="), true, Ok(())), words(201, "claimed", true));
    assert_eq!(run(claim("c2FsdA=="), false, Ok(())), words(429, "rate limited", false));
    assert_eq!(
        run(claim("c2FsdA=="), true, Err(RegistryError::Taken)),
        words(409, "taken", false)
    );
    assert_eq!(
        run(claim("c2FsdA=="), true, Err(RegistryError::Invalid)),
        words(400, "bad claim", false)
    );
}

#[test]
fn inquiries_are_served() {
    let run = |inquiry: Inquiry| {
        serve_inquiry(
            inquiry,
            |json| {
                assert_eq!(json, "{claim}");
                Some(ClaimBody {
                    salt_b64: "c2FsdA==".to_string(),
                    findable: false,
                    contact: None,
                })
            },
            |_| None,
            |key| key == "bad:bob",
            |name, salt, findable, contact| {
                assert_eq!((name, salt, findable, contact), ("bob", &b"salt"[..], false, None));
                Ok(())
            },
            |name| name == "bob",
            |name| if name == "bob" { Some("horus://b".to_string()) } else { None },
        )
    };
    let taken = |name: &str| run(Inquiry::Taken(name.to_string()));
    let resolve = |name: &str| run(Inquiry::Resolve(name.to_string()));
    assert_eq!(taken("bob"), words(200, "1", false));
    assert_eq!(taken("eve"), words(200, "0", false));
    assert_eq!(resolve("bob"), words(200, "horus://b", false));
    assert_eq!(resolve("eve"), words(404, "not found", false));
    let claim = Inquiry::Claim("bob".to_string(), "{claim}".to_string());
    assert_eq!(run(claim), words(201, "claimed", true));
    let unread = serve_inquiry(
        Inquiry::Claim("bob".to_string(), "?".to_string()),
        |_| None,
        |_| panic!("nullifier asked"),
        |_| panic!("limiter asked"),
        |_, _, _, _| panic!("registry asked"),
        |_| panic!("lookup asked"),
        |_| panic!("lookup asked"),
    );
    assert_eq!(unread, words(400, "bad json", false));
}
