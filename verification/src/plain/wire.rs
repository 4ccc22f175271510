//! Requests and answers in plain terms.
use crate::crypto;
use crate::digits;
use crate::http::{self, Action, Deed, Inquiry, Question, RequestReader};
use crate::relay::{ClaimError, RegistryError, RelayError};
use crate::reply::{self, Answer, ClaimBody, Reply};
use crate::text;
use vstd::prelude::*;
use vstd::utf8::{decode_utf8, encode_utf8, valid_utf8};

verus! {

/// The line is a `Content-Length` header, in capitals or small letters.
pub open spec fn is_length_header(line: Seq<char>) -> bool {
    exists|rest: Seq<char>| text::lowered(line) == #[trigger] ("content-length:"@ + rest)
}

/// The first `Content-Length` line counts, whatever number of other lines stands
/// before or behind it, with whatever number stands in it between white space.
pub proof fn law_first_length_line_counts(lines: Seq<Seq<char>>, i: int, spelled: Seq<char>)
    requires
        0 <= i < lines.len(),
        text::lowered(lines[i]) == "content-length:"@ + spelled,
        forall|j: int| 0 <= j < i ==> !is_length_header(#[trigger] lines[j]),
    ensures
        http::stated_length(lines) == digits::parse_number(text::trim(spelled)),
    decreases i,
{
    let name = "content-length:"@;
    if i == 0 {
        let line = text::lowered(lines[0]);
        assert(line.take(name.len() as int) =~= name);
        assert(line.skip(name.len() as int) =~= spelled);
    } else {
        lemma_not_length(lines[0]);
        let rest = lines.drop_first();
        assert forall|j: int| 0 <= j < i - 1 implies !is_length_header(#[trigger] rest[j]) by {
            assert(rest[j] == lines[j + 1]);
        }
        assert(rest[i - 1] == lines[i]);
        law_first_length_line_counts(rest, i - 1, spelled);
    }
}

/// A line that is no length header does not open as one.
proof fn lemma_not_length(line: Seq<char>)
    ensures
        text::has_prefix(text::lowered(line), "content-length:"@) ==> is_length_header(line),
{
    let l = text::lowered(line);
    let name = "content-length:"@;
    if text::has_prefix(l, name) {
        assert(l =~= name + l.skip(name.len() as int));
    }
}

/// Without a `Content-Length` line no length is stated.
pub proof fn law_no_length_line_no_length(lines: Seq<Seq<char>>)
    requires
        forall|j: int| 0 <= j < lines.len() ==> !is_length_header(#[trigger] lines[j]),
    ensures
        http::stated_length(lines) is None,
    decreases lines.len(),
{
    if lines.len() > 0 {
        lemma_not_length(lines[0]);
        let rest = lines.drop_first();
        assert forall|j: int| 0 <= j < rest.len() implies !is_length_header(#[trigger] rest[j]) by {
            assert(rest[j] == lines[j + 1]);
        }
        law_no_length_line_no_length(rest);
    }
}

/// Bytes are read as the text that they encode, character for character.
pub proof fn law_bytes_are_read_as_text(s: Seq<char>, bytes: Seq<u8>)
    ensures
        http::as_text(encode_utf8(s)) == s,
        valid_utf8(bytes) ==> http::as_text(bytes) == decode_utf8(bytes),
        !valid_utf8(bytes) ==> http::as_text(bytes) == http::utf8_lossy(bytes),
{
    vstd::utf8::encode_utf8_valid_utf8(s);
    vstd::utf8::encode_utf8_decode_utf8(s);
}

/// A request ends as many bytes behind its blank line as its headers state, and
/// right behind it where they state nothing; before the blank line is there it is
/// not known where. The sum is a machine word's.
pub proof fn law_requests_end_where_they_state(buf: Seq<u8>)
    ensures
        match text::find(buf, seq![13u8, 10u8, 13u8, 10u8]) {
            None => http::expected_end(buf) is None,
            Some(i) => {
                let stated = match http::stated_length(text::lines(http::as_text(buf.take(i)))) {
                    Some(n) => n as int,
                    None => 0,
                };
                http::expected_end(buf) == Some(
                    if i + 4 + stated <= usize::MAX {
                        i + 4 + stated
                    } else {
                        i + 4 + stated - (usize::MAX + 1)
                    },
                )
            },
        },
{
}

/// A read that brings nothing ends the request. Any other adds all its bytes
/// behind the earlier ones, and reading goes on until the request's end is
/// reached, or while its end is not known and no more than a mebibyte has come.
pub proof fn law_reads_add_up(
    before: RequestReader,
    chunk: Seq<u8>,
    after: RequestReader,
    more: bool,
)
    requires
        http::feeds(before, chunk, after, more),
    ensures
        chunk.len() == 0 ==> !more && after == before,
        chunk.len() > 0 ==> {
            &&& after.buf@ == before.buf@ + chunk
            &&& before.end is Some ==> after.end == before.end
            &&& before.end is None && after.end is Some ==> http::expected_end(after.buf@) == Some(
                after.end->Some_0 as int,
            )
            &&& before.end is None && after.end is None ==> http::expected_end(after.buf@) is None
            &&& after.end is Some ==> (more <==> after.buf@.len() < after.end->Some_0)
            &&& after.end is None ==> (more <==> after.buf@.len() <= 1048576)
        },
{
}

/// A request is its head, a blank line and its body. The first line of the head
/// names method and path, the first two words on it; the body is everything
/// behind the blank line. White space may stand before, between and behind the
/// words, and anything may follow them.
pub proof fn law_requests_are_taken_apart(
    head: Seq<char>,
    body: Seq<char>,
    lead: Seq<char>,
    method: Seq<char>,
    gap: Seq<char>,
    path: Seq<char>,
    tail: Seq<char>,
)
    requires
        text::find(head + "\r\n\r\n"@ + body, "\r\n\r\n"@) == Some(head.len() as int),
        text::lines(head).len() > 0,
        text::lines(head)[0] == lead + method + gap + path + tail,
        forall|i: int| 0 <= i < lead.len() ==> text::is_white(#[trigger] lead[i]),
        forall|i: int| 0 <= i < gap.len() ==> text::is_white(#[trigger] gap[i]),
        forall|i: int| 0 <= i < method.len() ==> !text::is_white(#[trigger] method[i]),
        forall|i: int| 0 <= i < path.len() ==> !text::is_white(#[trigger] path[i]),
        method.len() > 0,
        gap.len() > 0,
        path.len() > 0,
        tail.len() > 0 ==> text::is_white(tail[0]),
    ensures
        http::dissect(head + "\r\n\r\n"@ + body) == Some((method, path, body)),
{
    let request = head + "\r\n\r\n"@ + body;
    let line = text::lines(head)[0];
    assert(request.take(head.len() as int) =~= head);
    assert(request.skip(head.len() as int + "\r\n\r\n"@.len()) =~= body);
    let behind = path + tail;
    let rest = gap + behind;
    let from_method = method + rest;
    assert(line =~= lead + from_method);
    assert(from_method[0] == method[0]);
    super::text::law_words_are_found_behind_white_space(lead, from_method);
    assert(rest[0] == gap[0]);
    super::text::law_words_end_at_white_space(method, rest);
    assert(from_method.skip(method.len() as int) =~= rest);
    assert(behind[0] == path[0]);
    super::text::law_words_are_found_behind_white_space(gap, behind);
    super::text::law_words_end_at_white_space(path, tail);
}

/// What is no request: text without a blank line, with nothing before it, or with
/// fewer than two words on its first line.
pub proof fn law_what_is_no_request(
    request: Seq<char>,
    lead: Seq<char>,
    word: Seq<char>,
    tail: Seq<char>,
)
    requires
        forall|i: int| 0 <= i < lead.len() ==> text::is_white(#[trigger] lead[i]),
        forall|i: int| 0 <= i < tail.len() ==> text::is_white(#[trigger] tail[i]),
        forall|i: int| 0 <= i < word.len() ==> !text::is_white(#[trigger] word[i]),
    ensures
        match text::find(request, "\r\n\r\n"@) {
            None => http::dissect(request) is None,
            Some(i) => {
                &&& i == 0 ==> http::dissect(request) is None
                &&& text::lines(request.take(i)).len() > 0 && text::lines(request.take(i))[0]
                    == lead + word + tail ==> http::dissect(request) is None
            },
        },
{
    if let Some(i) = text::find(request, "\r\n\r\n"@) {
        let head = request.take(i);
        if i == 0 {
            assert(head =~= Seq::<char>::empty());
        }
        if text::lines(head).len() > 0 && text::lines(head)[0] == lead + word + tail {
            let line = lead + word + tail;
            let none = Seq::<char>::empty();
            if word.len() > 0 {
                assert(line =~= lead + (word + tail));
                assert((word + tail)[0] == word[0]);
                super::text::law_words_are_found_behind_white_space(lead, word + tail);
                super::text::law_words_end_at_white_space(word, tail);
                assert((word + tail).skip(word.len() as int) =~= tail);
                super::text::law_words_are_found_behind_white_space(tail, none);
                assert(tail + none =~= tail);
            } else {
                let white = lead + tail;
                assert forall|k: int| 0 <= k < white.len() implies text::is_white(
                    #[trigger] white[k],
                ) by {
                    if k < lead.len() {
                        assert(white[k] == lead[k]);
                    } else {
                        assert(white[k] == tail[k - lead.len()]);
                    }
                }
                assert(line =~= white + none);
                super::text::law_words_are_found_behind_white_space(white, none);
                super::text::law_words_end_at_white_space(none, none);
                assert(none + none =~= none);
                assert(none.skip(0) =~= none);
                super::text::law_words_are_found_behind_white_space(none, none);
            }
        }
    }
}

/// What is no request is answered so; anything else is routed by method, path and
/// body.
pub proof fn law_requests_are_routed(request: Seq<char>)
    ensures
        match http::dissect(request) {
            None => http::deed(request) == Deed::Answer(
                Answer { code: 400, body: encode_utf8("bad request"@), lease: None },
            ),
            Some((method, path, body)) => http::deed(request) == http::route(method, path, body),
        },
        http::asks_nameless(request) <==> http::dissect(request) is Some && http::nameless(
            http::dissect(request)->Some_0.0,
            http::dissect(request)->Some_0.1,
        ),
{
}

/// Literals told apart.
proof fn lemma_literals()
    ensures
        "GET"@ != "POST"@,
        "GET"@ != "PUT"@,
        "PUT"@ != "POST"@,
        "/health"@.len() > 1 && "/health"@[1] == 'h',
        "/forward"@.len() > 1 && "/forward"@[1] == 'f',
        forall|s: Seq<char>| #[trigger] text::has_prefix(s, "/queues/"@) ==> s[1] == 'q',
        forall|s: Seq<char>| #[trigger] text::has_prefix(s, "/ack/"@) ==> s[1] == 'a',
        forall|s: Seq<char>| #[trigger]
            text::has_prefix(s, "/waku/v1/queues/"@) ==> s[1] == 'w' && s[9] == 'q',
        forall|s: Seq<char>| #[trigger]
            text::has_prefix(s, "/waku/v1/ack/"@) ==> s[1] == 'w' && s[9] == 'a',
        forall|s: Seq<char>| #[trigger] text::has_prefix(s, "/registry/"@) ==> s[1] == 'r',
{
    reveal_strlit("GET");
    reveal_strlit("POST");
    reveal_strlit("PUT");
    reveal_strlit("/health");
    reveal_strlit("/forward");
    reveal_strlit("/queues/");
    reveal_strlit("/ack/");
    reveal_strlit("/waku/v1/queues/");
    reveal_strlit("/waku/v1/ack/");
    reveal_strlit("/registry/");
    assert("GET"@.len() != "POST"@.len());
    assert("PUT"@.len() != "POST"@.len());
    assert("GET"@[0] != "PUT"@[0]);
    assert forall|s: Seq<char>| #[trigger] text::has_prefix(s, "/queues/"@) implies s[1] == 'q' by {
        assert(s.take("/queues/"@.len() as int)[1] == s[1]);
    }
    assert forall|s: Seq<char>| #[trigger] text::has_prefix(s, "/ack/"@) implies s[1] == 'a' by {
        assert(s.take("/ack/"@.len() as int)[1] == s[1]);
    }
    assert forall|s: Seq<char>| #[trigger] text::has_prefix(s, "/waku/v1/queues/"@) implies s[1]
        == 'w' && s[9] == 'q' by {
        assert(s.take("/waku/v1/queues/"@.len() as int)[1] == s[1]);
        assert(s.take("/waku/v1/queues/"@.len() as int)[9] == s[9]);
    }
    assert forall|s: Seq<char>| #[trigger] text::has_prefix(s, "/waku/v1/ack/"@) implies s[1]
        == 'w' && s[9] == 'a' by {
        assert(s.take("/waku/v1/ack/"@.len() as int)[1] == s[1]);
        assert(s.take("/waku/v1/ack/"@.len() as int)[9] == s[9]);
    }
    assert forall|s: Seq<char>| #[trigger] text::has_prefix(s, "/registry/"@) implies s[1]
        == 'r' by {
        assert(s.take("/registry/"@.len() as int)[1] == s[1]);
    }
}

/// A prefix and what follows it come apart again.
proof fn lemma_after(prefix: Seq<char>, rest: Seq<char>)
    ensures
        text::has_prefix(prefix + rest, prefix),
        (prefix + rest).skip(prefix.len() as int) == rest,
{
    assert((prefix + rest).take(prefix.len() as int) =~= prefix);
    assert((prefix + rest).skip(prefix.len() as int) =~= rest);
}

/// The routes to queues and leases. Names are taken from the path as they stand,
/// character for character, and bodies whole, whatever their length.
pub proof fn law_queue_routes(name: Seq<char>, body: Seq<char>)
    ensures
        http::route("GET"@, "/health"@, body) == Deed::Answer(
            Answer { code: 200, body: encode_utf8("ok"@), lease: None },
        ),
        http::route("POST"@, "/forward"@, body) == Deed::Forward(encode_utf8(body)),
        http::route("POST"@, "/queues/"@ + name, body) == Deed::Send(name, encode_utf8(body)),
        http::route("GET"@, "/queues/"@ + name, body) == Deed::Poll(name),
        http::route("POST"@, "/ack/"@ + name, body) == Deed::Ack(name),
        http::route("POST"@, "/waku/v1/queues/"@ + name, body) == Deed::Send(
            name,
            encode_utf8(body),
        ),
        http::route("GET"@, "/waku/v1/queues/"@ + name, body) == Deed::Poll(name),
        http::route("POST"@, "/waku/v1/ack/"@ + name, body) == Deed::Ack(name),
{
    lemma_literals();
    lemma_after("/queues/"@, name);
    lemma_after("/ack/"@, name);
    lemma_after("/waku/v1/queues/"@, name);
    lemma_after("/waku/v1/ack/"@, name);
}

/// A claim is on the name that stands in the path, character for character, and
/// hands on the whole text of the body, in one piece, but for white space at its
/// two ends.
pub proof fn law_claim_route(name: Seq<char>, body: Seq<char>)
    ensures
        http::route("PUT"@, "/registry/"@ + name, body) is Registry,
        http::route("PUT"@, "/registry/"@ + name, body)->Registry_0 is Claim,
        http::route("PUT"@, "/registry/"@ + name, body)->Registry_0->Claim_0 == name,
        ({
            let json = http::route("PUT"@, "/registry/"@ + name, body)->Registry_0->Claim_1;
            &&& exists|lead: Seq<char>, tail: Seq<char>|
                {
                    &&& #[trigger] (lead + json + tail) == body
                    &&& forall|i: int| 0 <= i < lead.len() ==> text::is_white(#[trigger] lead[i])
                    &&& forall|i: int| 0 <= i < tail.len() ==> text::is_white(#[trigger] tail[i])
                }
            &&& json.len() > 0 ==> !text::is_white(json[0]) && !text::is_white(json.last())
        }),
{
    lemma_literals();
    lemma_after("/registry/"@, name);
    let claim = http::route("PUT"@, "/registry/"@ + name, body);
    let json = text::trim(body);
    assert(claim == Deed::Registry(Question::Claim(name, json)));
    super::text::law_trim_cuts_only_the_ends(body);
    let (lead, tail) = choose|lead: Seq<char>, tail: Seq<char>|
        {
            &&& #[trigger] (lead + json + tail) == body
            &&& forall|i: int| 0 <= i < lead.len() ==> text::is_white(#[trigger] lead[i])
            &&& forall|i: int| 0 <= i < tail.len() ==> text::is_white(#[trigger] tail[i])
        };
    assert(lead + claim->Registry_0->Claim_1 + tail == body);
}

/// A path that closes with the suffix asks whether the name before it is taken.
pub proof fn law_taken_route(name: Seq<char>, body: Seq<char>)
    ensures
        http::route("GET"@, "/registry/"@ + name + "/taken"@, body) == Deed::Registry(
            Question::Taken(name),
        ),
{
    let prefix = "/registry/"@;
    let path = prefix + name + "/taken"@;
    lemma_literals();
    assert(path =~= prefix + (name + "/taken"@));
    lemma_after(prefix, name + "/taken"@);
    super::text::law_prefix_and_suffix(path, "/taken"@);
    assert(path == (prefix + name) + "/taken"@);
    assert(text::has_suffix(path, "/taken"@));
    assert(path.subrange(prefix.len() as int, path.len() - "/taken"@.len()) =~= name);
}

/// Any other registry path asks for the contact of the name in it.
pub proof fn law_resolve_route(name: Seq<char>, body: Seq<char>)
    requires
        forall|n: Seq<char>| name != #[trigger] (n + "/taken"@),
        name != "taken"@,
    ensures
        http::route("GET"@, "/registry/"@ + name, body) == Deed::Registry(Question::Resolve(name)),
{
    let path = "/registry/"@ + name;
    lemma_literals();
    lemma_after("/registry/"@, name);
    assert(!text::has_suffix(path, "/taken"@)) by {
        if text::has_suffix(path, "/taken"@) {
            lemma_suffix_in_name(name);
        }
    }
}

/// A registry path that closes with the suffix has it in the name, or is the path
/// in which prefix and suffix share their slash.
proof fn lemma_suffix_in_name(name: Seq<char>)
    requires
        text::has_suffix("/registry/"@ + name, "/taken"@),
    ensures
        name == "taken"@ || exists|n: Seq<char>| name == #[trigger] (n + "/taken"@),
{
    reveal_strlit("/registry/");
    reveal_strlit("/taken");
    reveal_strlit("taken");
    let path = "/registry/"@ + name;
    let at = path.len() - 6;
    let end = path.skip(at);
    assert(end == "/taken"@);
    if name.len() >= 6 {
        let n = name.take(name.len() - 6);
        assert forall|k: int| 0 <= k < 6 implies #[trigger] end[k] == name[name.len() - 6 + k] by {
            assert(end[k] == path[at + k]);
        }
        assert(name =~= n + "/taken"@);
    } else {
        assert(end[0] == path[at]);
        if name.len() == 5 {
            assert forall|k: int| 0 <= k < 5 implies #[trigger] name[k] == "taken"@[k] by {
                assert(end[k + 1] == path[at + k + 1]);
                assert(path[10 + k] == name[k]);
            }
            assert(name =~= "taken"@);
        } else {
            assert(path[at] == "/registry/"@[at]);
        }
    }
}

/// Everything else is not found.
pub proof fn law_other_routes(method: Seq<char>, path: Seq<char>, body: Seq<char>)
    requires
        !(method == "GET"@ && path == "/health"@),
        !(method == "POST"@ && path == "/forward"@),
        method == "GET"@ || method == "POST"@ ==> forall|n: Seq<char>|
            path != #[trigger] ("/queues/"@ + n),
        method == "GET"@ || method == "POST"@ ==> forall|n: Seq<char>|
            path != #[trigger] ("/waku/v1/queues/"@ + n),
        method == "POST"@ ==> forall|n: Seq<char>| path != #[trigger] ("/ack/"@ + n),
        method == "POST"@ ==> forall|n: Seq<char>| path != #[trigger] ("/waku/v1/ack/"@ + n),
        method == "GET"@ || method == "PUT"@ ==> forall|n: Seq<char>|
            path != #[trigger] ("/registry/"@ + n),
    ensures
        http::route(method, path, body) == Deed::Answer(
            Answer { code: 404, body: encode_utf8("not found"@), lease: None },
        ),
{
    lemma_literals();
    super::text::law_prefix_and_suffix(path, "/queues/"@);
    super::text::law_prefix_and_suffix(path, "/waku/v1/queues/"@);
    super::text::law_prefix_and_suffix(path, "/ack/"@);
    super::text::law_prefix_and_suffix(path, "/waku/v1/ack/"@);
    super::text::law_prefix_and_suffix(path, "/registry/"@);
}

/// One request alone has no room for a name between prefix and suffix.
pub proof fn law_one_path_is_nameless(method: Seq<char>, path: Seq<char>)
    ensures
        http::nameless(method, path) <==> method == "GET"@ && path == "/registry/taken"@,
{
    reveal_strlit("/registry/");
    reveal_strlit("/taken");
    reveal_strlit("/registry/taken");
    if http::nameless(method, path) {
        let name = path.skip(10);
        assert(path =~= "/registry/"@ + name);
        lemma_suffix_in_name(name);
        reveal_strlit("taken");
        assert(path.len() < 16);
        if name != "taken"@ {
            let n = choose|n: Seq<char>| name == #[trigger] (n + "/taken"@);
            assert(name.len() >= 6);
        }
        assert(path =~= "/registry/taken"@);
    }
    if path == "/registry/taken"@ {
        assert(path.take(10) =~= "/registry/"@);
        assert(path.skip(9) =~= "/taken"@);
    }
}

/// Actions, inquiries and replies mean what their fields say.
pub proof fn law_actions_mean_their_fields(
    text: String,
    other: String,
    bytes: Vec<u8>,
    reply: Reply,
    inquiry: Inquiry,
)
    ensures
        Action::Answer(reply)@ == Deed::Answer(reply@),
        Action::Forward(bytes)@ == Deed::Forward(bytes@),
        Action::Send(text, bytes)@ == Deed::Send(text@, bytes@),
        Action::Poll(text)@ == Deed::Poll(text@),
        Action::Ack(text)@ == Deed::Ack(text@),
        Action::Registry(inquiry)@ == Deed::Registry(inquiry@),
        Inquiry::Claim(text, other)@ == Question::Claim(text@, other@),
        Inquiry::Taken(text)@ == Question::Taken(text@),
        Inquiry::Resolve(text)@ == Question::Resolve(text@),
        reply@.code == reply.code,
        reply@.body == reply.body@,
        reply.lease is Some <==> reply@.lease is Some,
        reply.lease is Some ==> reply@.lease->Some_0 == reply.lease->Some_0@,
{
}

/// What each outcome is answered: status, words, and for a polled message all of
/// its bytes and its lease.
pub proof fn law_outcomes_are_answered(
    name: String,
    error: RelayError,
    lease: String,
    body: Vec<u8>,
    contact: Seq<char>,
)
    ensures
        reply::forward_answer(Ok(name)) == (Answer {
            code: 202,
            body: encode_utf8("forwarded"@),
            lease: None,
        }),
        reply::forward_answer(Err(error)) == (Answer {
            code: 400,
            body: encode_utf8("bad onion"@),
            lease: None,
        }),
        reply::send_answer(Ok(())) == (Answer {
            code: 202,
            body: encode_utf8("queued"@),
            lease: None,
        }),
        reply::send_answer(Err(error)) == (Answer {
            code: 400,
            body: encode_utf8("bad queue"@),
            lease: None,
        }),
        reply::poll_answer(Some((lease, body))) == (Answer {
            code: 200,
            body: body@,
            lease: Some(lease@),
        }),
        reply::poll_answer(None) == (Answer { code: 204, body: Seq::empty(), lease: None }),
        reply::ack_answer(true) == (Answer { code: 200, body: encode_utf8("acked"@), lease: None }),
        reply::ack_answer(false) == (Answer {
            code: 404,
            body: encode_utf8("unknown lease"@),
            lease: None,
        }),
        reply::claim_answer(Ok(())) == (Answer {
            code: 201,
            body: encode_utf8("claimed"@),
            lease: None,
        }),
        reply::claim_answer(Err(ClaimError::Registry(RegistryError::Taken))) == (Answer {
            code: 409,
            body: encode_utf8("taken"@),
            lease: None,
        }),
        reply::claim_answer(Err(ClaimError::Registry(RegistryError::Invalid))) == (Answer {
            code: 400,
            body: encode_utf8("bad claim"@),
            lease: None,
        }),
        reply::claim_answer(Err(ClaimError::RateLimited)) == (Answer {
            code: 429,
            body: encode_utf8("rate limited"@),
            lease: None,
        }),
        reply::taken_answer(true) == (Answer { code: 200, body: encode_utf8("1"@), lease: None }),
        reply::taken_answer(false) == (Answer { code: 200, body: encode_utf8("0"@), lease: None }),
        reply::resolve_answer(Some(contact)) == (Answer {
            code: 200,
            body: encode_utf8(contact),
            lease: None,
        }),
        reply::resolve_answer(None) == (Answer {
            code: 404,
            body: encode_utf8("not found"@),
            lease: None,
        }),
{
}

/// Words are answered as they stand.
pub proof fn law_words_are_said(code: u16, words: Seq<char>)
    ensures
        reply::says(code, words) == (Answer { code, body: encode_utf8(words), lease: None }),
{
}

/// The salt of a claim is what its text decodes to, without white space around
/// it.
pub proof fn law_salts_are_decoded(c: ClaimBody)
    ensures
        reply::salt_of(c) == crypto::base64_standard(text::trim(c.salt_b64@)),
{
}

/// The phrase for each status.
pub proof fn law_phrases(code: u16)
    ensures
        reply::reason(201) == "Created"@,
        reply::reason(202) == "Accepted"@,
        reply::reason(204) == "No Content"@,
        reply::reason(400) == "Bad Request"@,
        reply::reason(404) == "Not Found"@,
        reply::reason(409) == "Conflict"@,
        reply::reason(429) == "Too Many Requests"@,
        code != 201 && code != 202 && code != 204 && code != 400 && code != 404 && code != 409
            && code != 429 ==> reply::reason(code) == "OK"@,
{
}

/// An answer on the wire, byte for byte: status line, length of the body, lease
/// where there is one, the end of the connection, a blank line, and the whole
/// body.
pub proof fn law_answers_on_the_wire(code: u16, body: Seq<u8>, id: Seq<char>)
    ensures
        reply::rendered(Answer { code, body, lease: None }) == encode_utf8(
            "HTTP/1.1 "@ + digits::decimal(code as nat) + " "@ + reply::reason(code)
                + "\r\nContent-Length: "@ + digits::decimal(body.len())
                + "\r\nConnection: close\r\n\r\n"@,
        ) + body,
        reply::rendered(Answer { code, body, lease: Some(id) }) == encode_utf8(
            "HTTP/1.1 "@ + digits::decimal(code as nat) + " "@ + reply::reason(code)
                + "\r\nContent-Length: "@ + digits::decimal(body.len()) + "\r\nX-Horus-Lease: "@
                + id + "\r\nConnection: close\r\n\r\n"@,
        ) + body,
{
    reveal_strlit("\r\n");
    reveal_strlit("X-Horus-Lease: ");
    reveal_strlit("\r\nX-Horus-Lease: ");
    reveal_strlit("Connection: close\r\n\r\n");
    reveal_strlit("\r\nConnection: close\r\n\r\n");
    assert("\r\nX-Horus-Lease: "@ =~= "\r\n"@ + "X-Horus-Lease: "@);
    assert("\r\nConnection: close\r\n\r\n"@ =~= "\r\n"@ + "Connection: close\r\n\r\n"@);
    let start = "HTTP/1.1 "@ + digits::decimal(code as nat) + " "@ + reply::reason(code)
        + "\r\nContent-Length: "@ + digits::decimal(body.len());
    assert(reply::head_of(Answer { code, body, lease: None }) =~= start
        + "\r\nConnection: close\r\n\r\n"@);
    assert(reply::head_of(Answer { code, body, lease: Some(id) }) =~= start
        + "\r\nX-Horus-Lease: "@ + id + "\r\nConnection: close\r\n\r\n"@);
}

} // verus!
