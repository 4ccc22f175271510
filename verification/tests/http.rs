use horus_dev_relay::http::{content_length_in, decide, is_nameless, MAX_HEAD};
use horus_dev_relay::reply::{
    ack_reply, claim_reply, claim_request, forward_reply, head, poll_reply, render, reply,
    resolve_reply, send_reply, taken_reply, ClaimBody,
};
use horus_dev_relay::{
    content_length, find_headers_end, Action, ClaimError, Inquiry, RegistryError, RelayError,
    Reply, RequestReader,
};

fn ask(line: &str, body: &str) -> Action {
    let request = format!("{line} HTTP/1.1\r\nHost: x\r\n\r\n{body}");
    assert!(!is_nameless(&request));
    decide(&request)
}

fn words(code: u16, body: &str) -> Reply {
    Reply { code, body: body.as_bytes().to_vec(), lease: None }
}

#[test]
fn headers_end_at_the_first_blank_line() {
    assert_eq!(find_headers_end(b""), None);
    assert_eq!(find_headers_end(b"\r\n\r"), None);
    assert_eq!(find_headers_end(b"\r\n\r\n"), Some(0));
    assert_eq!(find_headers_end(b"a\r\r\n\r\nb\r\n\r\n"), Some(2));
}

#[test]
fn content_length_is_read() {
    assert_eq!(content_length(b"POST / HTTP/1.1\r\nContent-Length: 12"), Some(12));
    assert_eq!(content_length(b"A: b\nCONTENT-LENGTH:\t+7 \r\nX: y"), Some(7));
    assert_eq!(content_length(b"A: b"), None);
    assert_eq!(content_length(b""), None);
    assert_eq!(content_length(b"Content-Length: x\r\nContent-Length: 3"), None);
    assert_eq!(content_length(b"Content-Length: 99999999999999999999999"), None);
    assert_eq!(content_length(b"\xff\xfe\r\ncontent-length: 4"), Some(4));
    assert_eq!(content_length(b" Content-Length: 4"), None);
    assert_eq!(content_length_in("content-length:"), None);
    assert_eq!(content_length_in("content-length: +"), None);
    assert_eq!(content_length_in("content-length: -1"), None);
    assert_eq!(content_length_in("content-length: 007\u{a0}"), Some(7));
}

#[test]
fn reader_stops_when_the_body_is_there() {
    let mut r = RequestReader::new();
    assert!(r.feed(b"POST /queues/a HTTP/1.1\r\nContent-"));
    assert!(r.feed(b"Length: 5\r\n\r\nab"));
    assert!(r.feed(b"cd"));
    assert!(!r.feed(b"e"));
    assert!(r.text().ends_with("\r\n\r\nabcde"));
}

#[test]
fn reader_stops_without_a_body_at_the_end_or_at_the_limit() {
    let mut r = RequestReader::new();
    assert!(!r.feed(b"GET /health HTTP/1.1\r\n\r\n"));

    let mut r = RequestReader::new();
    assert!(r.feed(b"GET"));
    assert!(!r.feed(b""));
    assert_eq!(r.text(), "GET");

    let mut r = RequestReader::new();
    assert!(r.feed(&vec![b'a'; MAX_HEAD]));
    assert!(!r.feed(b"a"));
}

#[test]
fn reader_counts_in_machine_words() {
    let mut r = RequestReader::new();
    assert!(!r.feed(b"A: b\r\nContent-Length: 18446744073709551615\r\n\r\n"));
    assert_eq!(r.end, Some(45));
}

#[test]
fn malformed_bytes_become_replacement_characters() {
    let mut r = RequestReader::new();
    r.feed(b"GET /\xff");
    assert_eq!(r.text(), "GET /\u{fffd}");
}

#[test]
fn requests_are_routed() {
    assert_eq!(ask("GET /health", ""), Action::Answer(words(200, "ok")));
    assert_eq!(ask("POST /forward", "abc"), Action::Forward(b"abc".to_vec()));
    assert_eq!(ask("POST /queues/q1", "m\u{e9}"), Action::Send("q1".into(), b"m\xc3\xa9".to_vec()));
    assert_eq!(ask("GET /queues/q1", ""), Action::Poll("q1".into()));
    assert_eq!(ask("POST /ack/ff", ""), Action::Ack("ff".into()));
    assert_eq!(
        ask("PUT /registry/bob", " {} \r\n"),
        Action::Registry(Inquiry::Claim("bob".into(), "{}".into()))
    );
    assert_eq!(
        ask("GET /registry/bob/taken", ""),
        Action::Registry(Inquiry::Taken("bob".into()))
    );
    assert_eq!(
        ask("GET /registry//taken", ""),
        Action::Registry(Inquiry::Taken("".into()))
    );
    assert_eq!(
        ask("GET /registry/bob", ""),
        Action::Registry(Inquiry::Resolve("bob".into()))
    );
    assert_eq!(ask("GET /", ""), Action::Answer(words(404, "not found")));
    assert_eq!(ask("DELETE /queues/a", ""), Action::Answer(words(404, "not found")));
}

#[test]
fn bridge_paths_reach_the_same_queues() {
    assert_eq!(ask("POST /waku/v1/queues/a", "m"), ask("POST /queues/a", "m"));
    assert_eq!(ask("GET /waku/v1/queues/a", ""), ask("GET /queues/a", ""));
    assert_eq!(ask("POST /waku/v1/ack/a", ""), ask("POST /ack/a", ""));
}

#[test]
fn bad_requests_are_told_so() {
    let bad = || Action::Answer(words(400, "bad request"));
    assert_eq!(decide(""), bad());
    assert_eq!(decide("GET /health HTTP/1.1\r\n"), bad());
    assert_eq!(decide("\r\n\r\nbody"), bad());
    assert_eq!(decide("GET\r\n\r\n"), bad());
    assert_eq!(decide("\nGET /health\r\n\r\n"), bad());
    assert_eq!(decide(" \t GET \u{2003} /health\r\n\r\n"), Action::Answer(words(200, "ok")));
}

#[test]
fn a_path_without_room_for_a_name_is_noticed() {
    assert!(is_nameless("GET /registry/taken HTTP/1.1\r\n\r\n"));
    assert!(!is_nameless("GET /registry//taken HTTP/1.1\r\n\r\n"));
    assert!(!is_nameless("PUT /registry/taken HTTP/1.1\r\n\r\n"));
    assert!(!is_nameless(""));
}

#[test]
fn outcomes_are_answered() {
    assert_eq!(forward_reply(&Ok("q".into())), words(202, "forwarded"));
    assert_eq!(forward_reply(&Err(RelayError::BadOnion)), words(400, "bad onion"));
    assert_eq!(send_reply(&Ok(())), words(202, "queued"));
    assert_eq!(send_reply(&Err(RelayError::RateLimited)), words(400, "bad queue"));
    assert_eq!(poll_reply(None), words(204, ""));
    assert_eq!(
        poll_reply(Some(("id".into(), b"m".to_vec()))),
        Reply { code: 200, body: b"m".to_vec(), lease: Some("id".into()) }
    );
    assert_eq!(ack_reply(true), words(200, "acked"));
    assert_eq!(ack_reply(false), words(404, "unknown lease"));
    assert_eq!(claim_reply(&Ok(())), words(201, "claimed"));
    assert_eq!(
        claim_reply(&Err(ClaimError::Registry(RegistryError::Taken))),
        words(409, "taken")
    );
    assert_eq!(claim_reply(&Err(ClaimError::RateLimited)), words(429, "rate limited"));
    assert_eq!(
        claim_reply(&Err(ClaimError::Registry(RegistryError::Invalid))),
        words(400, "bad claim")
    );
    assert_eq!(taken_reply(true), words(200, "1"));
    assert_eq!(taken_reply(false), words(200, "0"));
    assert_eq!(resolve_reply(Some("horus://x")), words(200, "horus://x"));
    assert_eq!(resolve_reply(None), words(404, "not found"));
}

#[test]
fn claims_need_json_and_a_salt() {
    let body = |salt: &str| ClaimBody {
        salt_b64: salt.to_string(),
        findable: true,
        contact: Some("c".to_string()),
    };
    assert_eq!(claim_request(None).unwrap_err(), words(400, "bad json"));
    assert_eq!(claim_request(Some(body("%"))).unwrap_err(), words(400, "bad salt"));
    let ok = claim_request(Some(body(" c2FsdA== \n"))).unwrap();
    assert_eq!(ok.salt, b"salt");
    assert!(ok.findable);
    assert_eq!(ok.contact.as_deref(), Some("c"));
}

#[test]
fn replies_are_rendered() {
    assert_eq!(
        head(&reply(404, "not found")),
        "HTTP/1.1 404 Not Found\r\nContent-Length: 9\r\nConnection: close\r\n\r\n"
    );
    let leased = poll_reply(Some(("0af".into(), b"\xff\x00".to_vec())));
    assert_eq!(
        render(&leased),
        b"HTTP/1.1 200 OK\r\nContent-Length: 2\r\nX-Horus-Lease: 0af\r\nConnection: close\r\n\r\n\xff\x00"
            .to_vec()
    );
    for (code, phrase) in [
        (200, "OK"),
        (201, "Created"),
        (202, "Accepted"),
        (204, "No Content"),
        (400, "Bad Request"),
        (409, "Conflict"),
        (429, "Too Many Requests"),
        (599, "OK"),
    ] {
        let h = head(&reply(code, ""));
        assert!(h.starts_with(&format!("HTTP/1.1 {code} {phrase}\r\nContent-Length: 0\r\n")));
    }
}

#[test]
fn rendered_replies_are_read_back() {
    let leased = |id: &str, body: &[u8]| poll_reply(Some((id.into(), body.to_vec())));
    for r in [
        reply(404, "not found"),
        poll_reply(None),
        leased("0af", b"\r\n\r\nbody"),
        leased("gr\u{fc}n", b"x"),
    ] {
        let bytes = render(&r);
        let end = find_headers_end(&bytes).unwrap();
        assert_eq!(content_length(&bytes[..end]), Some(r.body.len()));
        assert_eq!(&bytes[end + 4..], &r.body[..]);
        let head = String::from_utf8(bytes[..end].to_vec()).unwrap();
        let named = head.lines().find_map(|l| l.strip_prefix("X-Horus-Lease: "));
        assert_eq!(named, r.lease.as_deref());
    }
}

#[test]
fn pieces_do_not_matter() {
    let request: &[u8] = b"POST /queues/a HTTP/1.1\r\nContent-Length: 5\r\n\r\nabcde";
    for size in 1..=request.len() {
        let mut r = RequestReader::new();
        let pieces: Vec<&[u8]> = request.chunks(size).collect();
        for (i, piece) in pieces.iter().enumerate() {
            assert_eq!(r.feed(piece), i + 1 < pieces.len());
        }
        assert_eq!(r.buf, request);
        assert_eq!(r.end, Some(request.len()));
    }
}
