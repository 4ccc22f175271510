//! The HTTP surface: reading a request off the wire, deciding what it asks
//! for, and rendering the answer.
use crate::digits;
use crate::reply::{self, Answer, Reply};
use crate::text;
use vstd::prelude::*;
use vstd::slice::{slice_subrange, slice_to_vec};
use vstd::utf8::{decode_utf8, encode_utf8, valid_utf8};

verus! {

/// Bytes that may arrive before the headers must have ended.
pub const MAX_HEAD: usize = 1024 * 1024;

/// Bytes that are not UTF-8 as text: what is malformed is replaced by U+FFFD.
pub uninterp spec fn utf8_lossy(bytes: Seq<u8>) -> Seq<char>;

/// `bytes` as text.
pub open spec fn as_text(bytes: Seq<u8>) -> Seq<char> {
    if valid_utf8(bytes) {
        decode_utf8(bytes)
    } else {
        utf8_lossy(bytes)
    }
}

/// `String::from_utf8_lossy`: what the bytes encode where they are UTF-8, and
/// a function of the bytes in any case.
#[verifier::external_body]
fn lossy(bytes: &[u8]) -> (r: String)
    ensures
        valid_utf8(bytes@) ==> r@ == decode_utf8(bytes@),
        !valid_utf8(bytes@) ==> r@ == utf8_lossy(bytes@),
{
    String::from_utf8_lossy(bytes).into_owned()
}

/// The blank line that ends the headers, with the ending of the line before it.
pub open spec fn blank_line() -> Seq<u8> {
    seq![13u8, 10u8, 13u8, 10u8]
}

/// The length that the first `Content-Length` line states, if there is such a
/// line and it holds a number.
pub open spec fn stated_length(lines: Seq<Seq<char>>) -> Option<nat>
    decreases lines.len(),
{
    if lines.len() == 0 {
        None
    } else {
        let line = text::lowered(lines[0]);
        if text::has_prefix(line, "content-length:"@) {
            digits::parse_number(text::trim(line.skip("content-length:"@.len() as int)))
        } else {
            stated_length(lines.drop_first())
        }
    }
}

/// Where the headers end: the index of the blank line.
pub fn find_headers_end(buf: &[u8]) -> (r: Option<usize>)
    ensures
        match r {
            Some(i) => text::find(buf@, blank_line()) == Some(i as int) && i + 4 <= buf@.len(),
            None => text::find(buf@, blank_line()) is None,
        },
{
    let mut i: usize = 0;
    while i < buf.len() && 4 <= buf.len() - i
        invariant
            i <= buf@.len(),
            forall|j: int| 0 <= j < i ==> !#[trigger] text::occurs_at(buf@, blank_line(), j),
        decreases buf@.len() - i,
    {
        let ghost window = buf@.subrange(i as int, i + 4);
        if buf[i] == 13 && buf[i + 1] == 10 && buf[i + 2] == 13 && buf[i + 3] == 10 {
            proof {
                assert(window =~= blank_line());
                assert(text::occurs_at(buf@, blank_line(), i as int));
                text::lemma_find(buf@, blank_line(), i as int);
            }
            return Some(i);
        }
        proof {
            if window == blank_line() {
                assert(window[0] == 13u8 && window[1] == 10u8 && window[2] == 13u8 && window[3]
                    == 10u8);
            }
        }
        i = i + 1;
    }
    assert forall|j: int| !text::first_at(buf@, blank_line(), j) by {
        if 0 <= j < i {
            assert(!text::occurs_at(buf@, blank_line(), j));
        }
    }
    None
}

/// The length that header text states.
pub fn content_length_in(headers: &str) -> (r: Option<usize>)
    ensures
        match r {
            Some(n) => stated_length(text::lines(headers@)) == Some(n as nat),
            None => stated_length(text::lines(headers@)) is None,
        },
{
    let chars = text::chars_of(headers);
    let mut rest = chars.as_slice();
    while rest.len() > 0
        invariant
            stated_length(text::lines(headers@)) == stated_length(text::lines(rest@)),
        decreases rest@.len(),
    {
        let (line, next) = text::split_line(rest);
        proof {
            let all = text::lines(rest@);
            assert(all[0] == line@);
            assert(all.drop_first() =~= text::lines(next@));
        }
        let small = text::to_lower(line);
        if let Some(v) = text::after_prefix(small.as_slice(), "content-length:") {
            return digits::number(text::trimmed(v));
        }
        rest = next;
    }
    None
}

/// The length that raw headers state.
pub fn content_length(headers: &[u8]) -> (r: Option<usize>)
    ensures
        match r {
            Some(n) => stated_length(text::lines(as_text(headers@))) == Some(n as nat),
            None => stated_length(text::lines(as_text(headers@))) is None,
        },
{
    let s = lossy(headers);
    content_length_in(s.as_str())
}

/// Where a request ends: `length` bytes behind the blank line at `head`, on a
/// machine-word count.
pub open spec fn request_end(head: int, length: nat) -> int {
    let end = head + 4 + length;
    if end <= usize::MAX {
        end
    } else {
        end - usize::MAX - 1
    }
}

/// Where the request in `buf` ends, once its headers are there.
pub open spec fn expected_end(buf: Seq<u8>) -> Option<int> {
    match text::find(buf, blank_line()) {
        None => None,
        Some(i) => Some(
            request_end(
                i,
                match stated_length(text::lines(as_text(buf.take(i)))) {
                    Some(n) => n,
                    None => 0,
                },
            ),
        ),
    }
}

/// Collects a request from the chunks in which it arrives.
#[derive(Debug)]
pub struct RequestReader {
    pub buf: Vec<u8>,
    /// Where the request ends, known once its headers are complete.
    pub end: Option<usize>,
}

/// Taking `chunk` leads a reader from `before` to `after` and answers whether to
/// read on.
pub open spec fn feeds(
    before: RequestReader,
    chunk: Seq<u8>,
    after: RequestReader,
    more: bool,
) -> bool {
    if chunk.len() == 0 {
        !more && after == before
    } else {
        &&& after.buf@ == before.buf@ + chunk
        &&& before.end is Some ==> after.end == before.end
        &&& before.end is None ==> after.end_is(expected_end(after.buf@))
        &&& more == match after.end {
            Some(end) => after.buf@.len() < end,
            None => after.buf@.len() <= MAX_HEAD,
        }
    }
}

/// Whether reading goes on when `bytes` have arrived: the stated length is not
/// there yet, or the headers are not complete and may still grow.
pub open spec fn unfinished(bytes: Seq<u8>) -> bool {
    match expected_end(bytes) {
        Some(end) => bytes.len() < end,
        None => bytes.len() <= MAX_HEAD,
    }
}

impl RequestReader {
    /// The reader takes the request to end at `end`.
    pub open spec fn end_is(self, end: Option<int>) -> bool {
        match self.end {
            Some(e) => end == Some(e as int),
            None => end is None,
        }
    }

    /// Nothing has arrived.
    pub fn new() -> (r: RequestReader)
        ensures
            r.buf@ == Seq::<u8>::empty(),
            r.end is None,
    {
        RequestReader { buf: Vec::new(), end: None }
    }

    /// Takes what a read returned and says whether to read on. An empty chunk
    /// is the end of the stream. Without complete headers reading goes on up
    /// to `MAX_HEAD` bytes; with them, until the stated length has arrived.
    pub fn feed(&mut self, chunk: &[u8]) -> (more: bool)
        ensures
            feeds(*old(self), chunk@, *final(self), more),
    {
        if chunk.len() == 0 {
            return false;
        }
        let ghost was = self.buf@;
        self.buf.extend_from_slice(chunk);
        assert(self.buf@ =~= was + chunk@);
        if self.end.is_none() {
            if let Some(i) = find_headers_end(self.buf.as_slice()) {
                let head = slice_subrange(self.buf.as_slice(), 0, i);
                assert(head@ =~= self.buf@.take(i as int));
                let length = match content_length(head) {
                    Some(n) => n,
                    None => 0,
                };
                assert(i + 4 <= self.buf.len());
                self.end = Some((i + 4).wrapping_add(length));
            }
        }
        match self.end {
            Some(end) => self.buf.len() < end,
            None => self.buf.len() <= MAX_HEAD,
        }
    }

    /// What has arrived, as text.
    pub fn text(&self) -> (r: String)
        ensures
            r@ == as_text(self.buf@),
    {
        lossy(self.buf.as_slice())
    }
}

/// What a request asks for.
#[derive(Debug, PartialEq, Eq)]
pub enum Action {
    Answer(Reply),
    Forward(Vec<u8>),
    Send(String, Vec<u8>),
    Poll(String),
    Ack(String),
    Registry(Inquiry),
}

/// What a request asks of the username registry.
#[derive(Debug, PartialEq, Eq)]
pub enum Inquiry {
    /// A username, and the JSON text of the claim.
    Claim(String, String),
    Taken(String),
    Resolve(String),
}

/// An inquiry as mathematics.
pub enum Question {
    Claim(Seq<char>, Seq<char>),
    Taken(Seq<char>),
    Resolve(Seq<char>),
}

impl View for Inquiry {
    type V = Question;

    open spec fn view(&self) -> Question {
        match self {
            Inquiry::Claim(name, json) => Question::Claim(name@, json@),
            Inquiry::Taken(name) => Question::Taken(name@),
            Inquiry::Resolve(name) => Question::Resolve(name@),
        }
    }
}

/// What a request asks for, as mathematics.
pub enum Deed {
    Answer(Answer),
    Forward(Seq<u8>),
    Send(Seq<char>, Seq<u8>),
    Poll(Seq<char>),
    Ack(Seq<char>),
    Registry(Question),
}

impl View for Action {
    type V = Deed;

    open spec fn view(&self) -> Deed {
        match self {
            Action::Answer(reply) => Deed::Answer(reply@),
            Action::Forward(packet) => Deed::Forward(packet@),
            Action::Send(queue, body) => Deed::Send(queue@, body@),
            Action::Poll(queue) => Deed::Poll(queue@),
            Action::Ack(id) => Deed::Ack(id@),
            Action::Registry(inquiry) => Deed::Registry(inquiry@),
        }
    }
}

/// What `method` on `path` asks for; `body` follows the headers.
pub open spec fn route(method: Seq<char>, path: Seq<char>, body: Seq<char>) -> Deed {
    let get = method == "GET"@;
    let post = method == "POST"@;
    let put = method == "PUT"@;
    let under = |prefix: Seq<char>| text::has_prefix(path, prefix);
    let rest = |prefix: Seq<char>| path.skip(prefix.len() as int);
    if get && path == "/health"@ {
        Deed::Answer(reply::says(200, "ok"@))
    } else if post && path == "/forward"@ {
        Deed::Forward(encode_utf8(body))
    } else if post && under("/queues/"@) {
        Deed::Send(rest("/queues/"@), encode_utf8(body))
    } else if get && under("/queues/"@) {
        Deed::Poll(rest("/queues/"@))
    } else if post && under("/ack/"@) {
        Deed::Ack(rest("/ack/"@))
    } else if post && under("/waku/v1/queues/"@) {
        Deed::Send(rest("/waku/v1/queues/"@), encode_utf8(body))
    } else if get && under("/waku/v1/queues/"@) {
        Deed::Poll(rest("/waku/v1/queues/"@))
    } else if post && under("/waku/v1/ack/"@) {
        Deed::Ack(rest("/waku/v1/ack/"@))
    } else if put && under("/registry/"@) {
        Deed::Registry(Question::Claim(rest("/registry/"@), text::trim(body)))
    } else if get && under("/registry/"@) && text::has_suffix(path, "/taken"@) {
        Deed::Registry(
            Question::Taken(
                path.subrange("/registry/"@.len() as int, path.len() - "/taken"@.len()),
            ),
        )
    } else if get && under("/registry/"@) {
        Deed::Registry(Question::Resolve(rest("/registry/"@)))
    } else {
        Deed::Answer(reply::says(404, "not found"@))
    }
}

/// A `/registry/../taken` path in which prefix and suffix share characters, so
/// that no name stands between them.
pub open spec fn nameless(method: Seq<char>, path: Seq<char>) -> bool {
    method == "GET"@ && text::has_prefix(path, "/registry/"@) && text::has_suffix(path, "/taken"@)
        && path.len() < "/registry/"@.len() + "/taken"@.len()
}

/// A request taken apart: method, path, and what follows the headers. `None`
/// where there is no blank line, no request line, or no path on it.
pub open spec fn dissect(request: Seq<char>) -> Option<(Seq<char>, Seq<char>, Seq<char>)> {
    match text::find(request, "\r\n\r\n"@) {
        None => None,
        Some(i) => {
            let lines = text::lines(request.take(i));
            if lines.len() == 0 {
                None
            } else {
                let from_method = text::trim_start(lines[0]);
                let method = text::first_word(from_method);
                let path = text::first_word(
                    text::trim_start(from_method.skip(method.len() as int)),
                );
                if path.len() == 0 {
                    None
                } else {
                    Some((method, path, request.skip(i + "\r\n\r\n"@.len())))
                }
            }
        },
    }
}

/// What `request` asks for.
pub open spec fn deed(request: Seq<char>) -> Deed {
    match dissect(request) {
        None => Deed::Answer(reply::says(400, "bad request"@)),
        Some((method, path, body)) => route(method, path, body),
    }
}

/// Whether `request` looks up a name that its path has no room for.
pub open spec fn asks_nameless(request: Seq<char>) -> bool {
    match dissect(request) {
        None => false,
        Some((method, path, _)) => nameless(method, path),
    }
}

/// Takes a request apart.
pub fn split_request(request: &str) -> (r: Option<(Vec<char>, Vec<char>, Vec<char>)>)
    ensures
        match r {
            Some((method, path, body)) => dissect(request@) == Some((method@, path@, body@)),
            None => dissect(request@) is None,
        },
{
    let all = text::chars_of(request);
    let gap = text::chars_of("\r\n\r\n");
    let i = match text::search(all.as_slice(), gap.as_slice()) {
        Some(i) => i,
        None => return None,
    };
    assert(i + gap.len() <= all.len());
    let head = slice_subrange(all.as_slice(), 0, i);
    let body = slice_subrange(all.as_slice(), i + gap.len(), all.len());
    proof {
        assert(head@ =~= request@.take(i as int));
        assert(body@ =~= request@.skip(i + gap@.len()));
    }
    if head.len() == 0 {
        return None;
    }
    let (line, _rest) = text::split_line(head);
    assert(text::lines(head@)[0] == line@);
    let from_method = text::without_lead(line);
    let (method, behind) = text::split_word(from_method);
    let (path, _tail) = text::split_word(text::without_lead(behind));
    if path.len() == 0 {
        return None;
    }
    Some((slice_to_vec(method), slice_to_vec(path), slice_to_vec(body)))
}

/// Whether `request` looks up a name that its path has no room for.
pub fn is_nameless(request: &str) -> (r: bool)
    ensures
        r == asks_nameless(request@),
{
    match split_request(request) {
        None => false,
        Some((method, path, _body)) => {
            let registry = text::chars_of("/registry/");
            let taken = text::chars_of("/taken");
            text::is_word(method.as_slice(), "GET") && text::starts_with(
                path.as_slice(),
                registry.as_slice(),
            ) && text::ends_with(path.as_slice(), "/taken") && (path.len() < registry.len()
                || path.len() - registry.len() < taken.len())
        },
    }
}

/// What `request` asks for.
pub fn decide(request: &str) -> (r: Action)
    requires
        !asks_nameless(request@),
    ensures
        r@ == deed(request@),
{
    match split_request(request) {
        None => Action::Answer(reply::reply(400, "bad request")),
        Some((method, path, body)) => {
            decide_route(method.as_slice(), path.as_slice(), body.as_slice())
        },
    }
}

/// What `method` on `path` asks for.
pub fn decide_route(method: &[char], path: &[char], body: &[char]) -> (r: Action)
    requires
        !nameless(method@, path@),
    ensures
        r@ == route(method@, path@, body@),
{
    let get = text::is_word(method, "GET");
    let post = text::is_word(method, "POST");
    let put = text::is_word(method, "PUT");
    if get && text::is_word(path, "/health") {
        return Action::Answer(reply::reply(200, "ok"));
    }
    if post && text::is_word(path, "/forward") {
        return Action::Forward(bytes_of(body));
    }
    if post {
        if let Some(queue) = text::after_prefix(path, "/queues/") {
            return Action::Send(text::string_of(queue), bytes_of(body));
        }
    }
    if get {
        if let Some(queue) = text::after_prefix(path, "/queues/") {
            return Action::Poll(text::string_of(queue));
        }
    }
    if post {
        if let Some(id) = text::after_prefix(path, "/ack/") {
            return Action::Ack(text::string_of(id));
        }
        if let Some(queue) = text::after_prefix(path, "/waku/v1/queues/") {
            return Action::Send(text::string_of(queue), bytes_of(body));
        }
    }
    if get {
        if let Some(queue) = text::after_prefix(path, "/waku/v1/queues/") {
            return Action::Poll(text::string_of(queue));
        }
    }
    if post {
        if let Some(id) = text::after_prefix(path, "/waku/v1/ack/") {
            return Action::Ack(text::string_of(id));
        }
    }
    if put {
        if let Some(name) = text::after_prefix(path, "/registry/") {
            let json = text::string_of(text::trimmed(body));
            return Action::Registry(Inquiry::Claim(text::string_of(name), json));
        }
    }
    if get {
        if let Some(name) = text::after_prefix(path, "/registry/") {
            if text::ends_with(path, "/taken") {
                let taken = text::chars_of("/taken");
                let cut = slice_subrange(name, 0, name.len() - taken.len());
                assert(cut@ =~= path@.subrange(
                    "/registry/"@.len() as int,
                    path@.len() - "/taken"@.len(),
                ));
                return Action::Registry(Inquiry::Taken(text::string_of(cut)));
            }
            return Action::Registry(Inquiry::Resolve(text::string_of(name)));
        }
    }
    Action::Answer(reply::reply(404, "not found"))
}

/// The UTF-8 encoding of `s`.
pub fn bytes_of(s: &[char]) -> (r: Vec<u8>)
    ensures
        r@ == encode_utf8(s@),
{
    slice_to_vec(text::string_of(s).as_str().as_bytes())
}

} // verus!
