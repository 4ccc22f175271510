//! Answers: what each outcome is told as, and how an answer looks on the wire.
use crate::crypto;
use crate::digits;
use crate::relay::{ClaimError, RegistryError, RelayError};
use crate::text;
use vstd::prelude::*;
use vstd::slice::slice_to_vec;
use vstd::utf8::encode_utf8;

verus! {

/// An answer to a request. A leased message carries its lease's id.
#[derive(Debug, PartialEq, Eq)]
pub struct Reply {
    pub code: u16,
    pub body: Vec<u8>,
    pub lease: Option<String>,
}

/// A reply as mathematics.
pub struct Answer {
    pub code: u16,
    pub body: Seq<u8>,
    pub lease: Option<Seq<char>>,
}

impl View for Reply {
    type V = Answer;

    open spec fn view(&self) -> Answer {
        Answer {
            code: self.code,
            body: self.body@,
            lease: match self.lease {
                Some(id) => Some(id@),
                None => None,
            },
        }
    }
}

/// An answer that is a status and a few words.
pub open spec fn says(code: u16, words: Seq<char>) -> Answer {
    Answer { code, body: encode_utf8(words), lease: None }
}

/// A reply that is a status and a few words.
pub fn reply(code: u16, words: &str) -> (r: Reply)
    ensures
        r@ == says(code, words@),
{
    let body = slice_to_vec(words.as_bytes());
    Reply { code, body, lease: None }
}

/// A username claim as its JSON spells it.
#[derive(Debug)]
pub struct ClaimBody {
    pub salt_b64: String,
    pub findable: bool,
    pub contact: Option<String>,
}

/// A username claim with its salt decoded.
#[derive(Debug)]
pub struct ClaimRequest {
    pub salt: Vec<u8>,
    pub findable: bool,
    pub contact: Option<String>,
}

/// The salt that a claim carries.
pub open spec fn salt_of(claim: ClaimBody) -> Option<Seq<u8>> {
    crypto::base64_standard(text::trim(claim.salt_b64@))
}

/// The phrase that goes with a status code.
pub open spec fn reason(code: u16) -> Seq<char> {
    if code == 201 {
        "Created"@
    } else if code == 202 {
        "Accepted"@
    } else if code == 204 {
        "No Content"@
    } else if code == 400 {
        "Bad Request"@
    } else if code == 404 {
        "Not Found"@
    } else if code == 409 {
        "Conflict"@
    } else if code == 429 {
        "Too Many Requests"@
    } else {
        "OK"@
    }
}

/// The header line that names a lease.
pub open spec fn lease_line(lease: Option<Seq<char>>) -> Seq<char> {
    match lease {
        Some(id) => "X-Horus-Lease: "@ + id + "\r\n"@,
        None => Seq::empty(),
    }
}

/// Status line and headers, with the blank line that ends them.
pub open spec fn head_of(a: Answer) -> Seq<char> {
    "HTTP/1.1 "@ + digits::decimal(a.code as nat) + " "@ + reason(a.code)
        + "\r\nContent-Length: "@ + digits::decimal(a.body.len()) + "\r\n"@ + lease_line(a.lease)
        + "Connection: close\r\n\r\n"@
}

/// An answer as it goes over the wire.
pub open spec fn rendered(a: Answer) -> Seq<u8> {
    encode_utf8(head_of(a)) + a.body
}

/// What a forwarded onion is answered.
pub open spec fn forward_answer(r: Result<String, RelayError>) -> Answer {
    match r {
        Ok(_) => says(202, "forwarded"@),
        Err(_) => says(400, "bad onion"@),
    }
}

/// What a message for a queue is answered.
pub open spec fn send_answer(r: Result<(), RelayError>) -> Answer {
    match r {
        Ok(()) => says(202, "queued"@),
        Err(_) => says(400, "bad queue"@),
    }
}

/// What a poll is answered: the message with its lease, or nothing.
pub open spec fn poll_answer(r: Option<(String, Vec<u8>)>) -> Answer {
    match r {
        Some((lease, body)) => Answer { code: 200, body: body@, lease: Some(lease@) },
        None => Answer { code: 204, body: Seq::empty(), lease: None },
    }
}

/// What a confirmation is answered.
pub open spec fn ack_answer(known: bool) -> Answer {
    if known {
        says(200, "acked"@)
    } else {
        says(404, "unknown lease"@)
    }
}

/// What a username claim is answered.
pub open spec fn claim_answer(r: Result<(), ClaimError>) -> Answer {
    match r {
        Ok(()) => says(201, "claimed"@),
        Err(ClaimError::Registry(RegistryError::Taken)) => says(409, "taken"@),
        Err(ClaimError::RateLimited) => says(429, "rate limited"@),
        Err(ClaimError::Registry(RegistryError::Invalid)) => says(400, "bad claim"@),
    }
}

/// What the question whether a username is taken is answered.
pub open spec fn taken_answer(taken: bool) -> Answer {
    if taken {
        says(200, "1"@)
    } else {
        says(200, "0"@)
    }
}

/// What a username lookup is answered.
pub open spec fn resolve_answer(contact: Option<Seq<char>>) -> Answer {
    match contact {
        Some(c) => says(200, c),
        None => says(404, "not found"@),
    }
}

/// The answer to a forwarded onion.
pub fn forward_reply(r: &Result<String, RelayError>) -> (a: Reply)
    ensures
        a@ == forward_answer(*r),
{
    match r {
        Ok(_) => reply(202, "forwarded"),
        Err(_) => reply(400, "bad onion"),
    }
}

/// The answer to a message for a queue.
pub fn send_reply(r: &Result<(), RelayError>) -> (a: Reply)
    ensures
        a@ == send_answer(*r),
{
    match r {
        Ok(()) => reply(202, "queued"),
        Err(_) => reply(400, "bad queue"),
    }
}

/// The answer to a poll.
pub fn poll_reply(r: Option<(String, Vec<u8>)>) -> (a: Reply)
    ensures
        a@ == poll_answer(r),
{
    match r {
        Some((lease, body)) => Reply { code: 200, body, lease: Some(lease) },
        None => Reply { code: 204, body: Vec::new(), lease: None },
    }
}

/// The answer to a confirmation.
pub fn ack_reply(known: bool) -> (a: Reply)
    ensures
        a@ == ack_answer(known),
{
    if known {
        reply(200, "acked")
    } else {
        reply(404, "unknown lease")
    }
}

/// A claim ready for the registry, or the answer to one that is not. A claim
/// whose JSON could not be read is `None`.
pub fn claim_request(claim: Option<ClaimBody>) -> (r: Result<ClaimRequest, Reply>)
    ensures
        match claim {
            None => r is Err && r->Err_0@ == says(400, "bad json"@),
            Some(c) => match salt_of(c) {
                None => r is Err && r->Err_0@ == says(400, "bad salt"@),
                Some(salt) => {
                    &&& r is Ok
                    &&& r->Ok_0.salt@ == salt
                    &&& r->Ok_0.findable == c.findable
                    &&& r->Ok_0.contact == c.contact
                },
            },
        },
{
    match claim {
        None => Err(reply(400, "bad json")),
        Some(c) => {
            let chars = text::chars_of(c.salt_b64.as_str());
            let salt = text::string_of(text::trimmed(chars.as_slice()));
            match crypto::decode_base64(salt.as_str()) {
                Ok(salt) => Ok(
                    ClaimRequest { salt, findable: c.findable, contact: c.contact },
                ),
                Err(_) => Err(reply(400, "bad salt")),
            }
        },
    }
}

/// The answer to a username claim.
pub fn claim_reply(r: &Result<(), ClaimError>) -> (a: Reply)
    ensures
        a@ == claim_answer(*r),
{
    match r {
        Ok(()) => reply(201, "claimed"),
        Err(ClaimError::Registry(RegistryError::Taken)) => reply(409, "taken"),
        Err(ClaimError::RateLimited) => reply(429, "rate limited"),
        Err(ClaimError::Registry(RegistryError::Invalid)) => reply(400, "bad claim"),
    }
}

/// The answer to whether a username is taken.
pub fn taken_reply(taken: bool) -> (a: Reply)
    ensures
        a@ == taken_answer(taken),
{
    if taken {
        reply(200, "1")
    } else {
        reply(200, "0")
    }
}

/// The answer to a username lookup.
pub fn resolve_reply(contact: Option<&str>) -> (a: Reply)
    ensures
        a@ == resolve_answer(
            match contact {
                Some(c) => Some(c@),
                None => None,
            },
        ),
{
    match contact {
        Some(c) => reply(200, c),
        None => reply(404, "not found"),
    }
}

/// The phrase that goes with a status code.
pub fn reason_phrase(code: u16) -> (r: &'static str)
    ensures
        r@ == reason(code),
{
    if code == 201 {
        "Created"
    } else if code == 202 {
        "Accepted"
    } else if code == 204 {
        "No Content"
    } else if code == 400 {
        "Bad Request"
    } else if code == 404 {
        "Not Found"
    } else if code == 409 {
        "Conflict"
    } else if code == 429 {
        "Too Many Requests"
    } else {
        "OK"
    }
}

/// Status line and headers of an answer.
pub fn head(r: &Reply) -> (h: String)
    ensures
        h@ == head_of(r@),
{
    let mut h = "HTTP/1.1 ".to_owned();
    digits::push_decimal(&mut h, r.code as u64);
    h.append(" ");
    h.append(reason_phrase(r.code));
    h.append("\r\nContent-Length: ");
    digits::push_decimal(&mut h, r.body.len() as u64);
    h.append("\r\n");
    let ghost so_far = h@;
    match &r.lease {
        Some(id) => {
            h.append("X-Horus-Lease: ");
            h.append(id.as_str());
            h.append("\r\n");
        },
        None => {},
    }
    assert(h@ =~= so_far + lease_line(r@.lease));
    h.append("Connection: close\r\n\r\n");
    h
}

/// An answer as it goes over the wire.
pub fn render(r: &Reply) -> (bytes: Vec<u8>)
    ensures
        bytes@ == rendered(r@),
{
    let mut bytes = slice_to_vec(head(r).as_str().as_bytes());
    bytes.extend_from_slice(r.body.as_slice());
    assert(bytes@ =~= encode_utf8(head_of(r@)) + r.body@);
    bytes
}

} // verus!
