//! Bytes on the wire. A request is read as the same whatever pieces it arrives
//! in, and a rendered answer is read back as it was meant: where its headers end,
//! what length they state, which lease they name, and what follows them.
use crate::digits;
use crate::http::{self, RequestReader, MAX_HEAD};
use crate::reply::{self, Answer};
use crate::text;
use vstd::prelude::*;
use vstd::utf8::{encode_scalar, encode_utf8};

verus! {

/// Pieces put together.
pub open spec fn joined(chunks: Seq<Seq<u8>>) -> Seq<u8>
    decreases chunks.len(),
{
    if chunks.len() == 0 {
        Seq::empty()
    } else {
        joined(chunks.drop_last()) + chunks.last()
    }
}

/// A blank line is where it is, whatever arrives behind it.
proof fn lemma_find_extends(s: Seq<u8>, more: Seq<u8>)
    requires
        text::find(s, http::blank_line()) is Some,
    ensures
        text::find(s + more, http::blank_line()) == text::find(s, http::blank_line()),
        0 <= text::find(s, http::blank_line())->Some_0,
        text::find(s, http::blank_line())->Some_0 + 4 <= s.len(),
{
    let gap = http::blank_line();
    let i = text::find(s, gap)->Some_0;
    assert(text::first_at(s, gap, i));
    assert((s + more).subrange(i, i + 4) =~= s.subrange(i, i + 4));
    assert forall|j: int| 0 <= j < i implies !#[trigger] text::occurs_at(s + more, gap, j) by {
        assert((s + more).subrange(j, j + 4) =~= s.subrange(j, j + 4));
        assert(!text::occurs_at(s, gap, j));
    }
    text::lemma_find(s + more, gap, i);
}

/// Once it is known where a request ends, more bytes do not change it.
proof fn lemma_end_extends(s: Seq<u8>, more: Seq<u8>)
    requires
        http::expected_end(s) is Some,
    ensures
        http::expected_end(s + more) == http::expected_end(s),
{
    lemma_find_extends(s, more);
    let i = text::find(s, http::blank_line())->Some_0;
    assert((s + more).take(i) =~= s.take(i));
}

/// What a reader holds does not depend on the pieces in which the bytes arrived:
/// it has all of them, knows where the request ends by them, and reads on
/// according to them. `readers` are the states around the reads of `chunks`, and
/// `mores` their answers.
pub proof fn law_pieces_do_not_matter(
    readers: Seq<RequestReader>,
    chunks: Seq<Seq<u8>>,
    mores: Seq<bool>,
)
    requires
        readers.len() == chunks.len() + 1,
        mores.len() == chunks.len(),
        readers[0].buf@ == Seq::<u8>::empty(),
        readers[0].end is None,
        forall|k: int|
            0 <= k < chunks.len() ==> (#[trigger] chunks[k]).len() > 0 && http::feeds(
                readers[k],
                chunks[k],
                readers[k + 1],
                mores[k],
            ),
    ensures
        readers.last().buf@ == joined(chunks),
        readers.last().end_is(http::expected_end(joined(chunks))),
        chunks.len() > 0 ==> mores.last() == http::unfinished(joined(chunks)),
    decreases chunks.len(),
{
    let n = chunks.len() - 1;
    if chunks.len() == 0 {
        let none = Seq::<u8>::empty();
        if http::expected_end(none) is Some {
            lemma_find_extends(none, none);
        }
    } else {
        let rest = chunks.drop_last();
        assert forall|k: int| 0 <= k < rest.len() implies (#[trigger] rest[k]).len() > 0
            && http::feeds(
            readers.drop_last()[k],
            rest[k],
            readers.drop_last()[k + 1],
            mores.drop_last()[k],
        ) by {
            assert(rest[k] == chunks[k]);
        }
        law_pieces_do_not_matter(readers.drop_last(), rest, mores.drop_last());
        assert(chunks[n] == chunks.last());
        assert(readers.drop_last().last() == readers[n]);
        assert(readers[n + 1] == readers.last());
        if http::expected_end(joined(rest)) is Some {
            lemma_end_extends(joined(rest), chunks.last());
        }
    }
}

/// A part of a request is what its first pieces make.
proof fn lemma_joined_part(chunks: Seq<Seq<u8>>, k: int)
    requires
        0 <= k < chunks.len(),
        forall|j: int| 0 <= j < chunks.len() ==> (#[trigger] chunks[j]).len() > 0,
    ensures
        joined(chunks.take(k)).len() < joined(chunks).len(),
        joined(chunks).take(joined(chunks.take(k)).len() as int) == joined(chunks.take(k)),
    decreases chunks.len(),
{
    let rest = chunks.drop_last();
    let part = joined(chunks.take(k));
    assert(chunks[chunks.len() - 1] == chunks.last());
    if k < rest.len() {
        assert forall|j: int| 0 <= j < rest.len() implies (#[trigger] rest[j]).len() > 0 by {
            assert(rest[j] == chunks[j]);
        }
        assert(rest.take(k) =~= chunks.take(k));
        lemma_joined_part(rest, k);
        assert(joined(chunks).take(part.len() as int) =~= joined(rest).take(part.len() as int));
    } else {
        assert(chunks.take(k) =~= rest);
        assert(joined(chunks).take(part.len() as int) =~= part);
    }
}

/// A whole request is read whole, whatever pieces it arrives in: `w` has its
/// blank line within the limit and ends where it states. Reading goes on until
/// the last piece is there and stops then, so that the text is that of `w`.
pub proof fn law_whole_requests_are_read_whole(w: Seq<u8>, chunks: Seq<Seq<u8>>)
    requires
        joined(chunks) == w,
        forall|j: int| 0 <= j < chunks.len() ==> (#[trigger] chunks[j]).len() > 0,
        text::find(w, http::blank_line()) is Some,
        text::find(w, http::blank_line())->Some_0 + 3 <= MAX_HEAD,
        http::expected_end(w) == Some(w.len() as int),
    ensures
        forall|k: int|
            0 <= k < chunks.len() ==> http::unfinished(joined(#[trigger] chunks.take(k))),
        !http::unfinished(joined(chunks)),
{
    let i = text::find(w, http::blank_line())->Some_0;
    assert forall|k: int| 0 <= k < chunks.len() implies http::unfinished(
        joined(#[trigger] chunks.take(k)),
    ) by {
        let part = joined(chunks.take(k));
        let behind = w.skip(part.len() as int);
        lemma_joined_part(chunks, k);
        assert(w =~= part + behind);
        if http::expected_end(part) is Some {
            lemma_end_extends(part, behind);
        } else if part.len() >= i + 4 {
            let gap = http::blank_line();
            assert(text::first_at(w, gap, i));
            assert(part.subrange(i, i + 4) =~= w.subrange(i, i + 4));
            assert forall|j: int| 0 <= j < i implies !#[trigger] text::occurs_at(
                part,
                gap,
                j,
            ) by {
                assert(part.subrange(j, j + 4) =~= w.subrange(j, j + 4));
                assert(!text::occurs_at(w, gap, j));
            }
            text::lemma_find(part, gap, i);
        }
    }
}

/// Text without line breaks.
pub open spec fn unbroken(s: Seq<char>) -> bool {
    forall|i: int| 0 <= i < s.len() ==> #[trigger] s[i] != '\r' && s[i] != '\n'
}

/// Bytes without line breaks.
pub open spec fn unbroken_bytes(s: Seq<u8>) -> bool {
    forall|i: int| 0 <= i < s.len() ==> #[trigger] s[i] != 13 && s[i] != 10
}

/// Text is encoded piece by piece.
proof fn lemma_encode_concat(a: Seq<char>, b: Seq<char>)
    ensures
        encode_utf8(a + b) == encode_utf8(a) + encode_utf8(b),
    decreases a.len(),
{
    if a.len() == 0 {
        assert(a + b =~= b);
        assert(encode_utf8(a) + encode_utf8(b) =~= encode_utf8(b));
    } else {
        lemma_encode_concat(a.drop_first(), b);
        assert((a + b).drop_first() =~= a.drop_first() + b);
        assert(encode_scalar(a[0] as u32) + (encode_utf8(a.drop_first()) + encode_utf8(b)) =~= (
        encode_scalar(a[0] as u32) + encode_utf8(a.drop_first())) + encode_utf8(b));
    }
}

/// An ASCII character is encoded as itself, any other without ASCII bytes.
proof fn lemma_encode_char(c: char)
    ensures
        c as u32 <= 0x7f ==> encode_scalar(c as u32).len() == 1 && encode_scalar(c as u32)[0]
            == c as u32,
        c as u32 > 0x7f ==> forall|i: int|
            0 <= i < encode_scalar(c as u32).len() ==> #[trigger] encode_scalar(c as u32)[i] >= 0x80,
        encode_scalar(c as u32).len() > 0,
{
    let v = c as u32;
    assert(v <= 0x7f ==> (v & 0x7f) as u8 == v) by (bit_vector);
    assert forall|x: u8| #[trigger] (0x80u8 | x) >= 0x80 by {
        assert(0x80u8 | x >= 0x80) by (bit_vector);
    }
    assert forall|x: u8| #[trigger] (0xc0u8 | x) >= 0x80 by {
        assert(0xc0u8 | x >= 0x80) by (bit_vector);
    }
    assert forall|x: u8| #[trigger] (0xe0u8 | x) >= 0x80 by {
        assert(0xe0u8 | x >= 0x80) by (bit_vector);
    }
    assert forall|x: u8| #[trigger] (0xf0u8 | x) >= 0x80 by {
        assert(0xf0u8 | x >= 0x80) by (bit_vector);
    }
}

/// Text without line breaks is encoded without them.
proof fn lemma_encode_unbroken(s: Seq<char>)
    requires
        unbroken(s),
    ensures
        unbroken_bytes(encode_utf8(s)),
        s.len() > 0 ==> encode_utf8(s).len() > 0,
    decreases s.len(),
{
    if s.len() > 0 {
        let rest = s.drop_first();
        assert forall|i: int| 0 <= i < rest.len() implies #[trigger] rest[i] != '\r' && rest[i]
            != '\n' by {
            assert(rest[i] == s[i + 1]);
        }
        lemma_encode_unbroken(rest);
        lemma_encode_char(s[0]);
        let first = encode_scalar(s[0] as u32);
        let behind = encode_utf8(rest);
        assert(s[0] != '\r' && s[0] != '\n');
        assert(s[0] as u32 != '\r' as u32 && s[0] as u32 != '\n' as u32) by {
            vstd::utf8::char_u32_cast(s[0], s[0] as u32);
            vstd::utf8::char_u32_cast('\r', 13);
            vstd::utf8::char_u32_cast('\n', 10);
        }
        assert(encode_utf8(s) == first + behind);
        assert forall|i: int| 0 <= i < encode_utf8(s).len() implies #[trigger] encode_utf8(s)[i]
            != 13 && encode_utf8(s)[i] != 10 by {
            if i < first.len() {
                assert(encode_utf8(s)[i] == first[i]);
            } else {
                assert(encode_utf8(s)[i] == behind[i - first.len()]);
            }
        }
    }
}

/// A line break is two bytes.
proof fn lemma_encode_break()
    ensures
        encode_utf8("\r\n"@) == seq![13u8, 10u8],
{
    reveal_strlit("\r\n");
    let s = "\r\n"@;
    lemma_encode_char('\r');
    lemma_encode_char('\n');
    assert(s.drop_first() =~= seq!['\n']);
    assert(s.drop_first().drop_first() =~= Seq::<char>::empty());
    assert(encode_utf8(Seq::<char>::empty()) =~= Seq::<u8>::empty());
    assert(encode_utf8(s.drop_first()) =~= seq![10u8]);
    assert(encode_utf8(s) =~= seq![13u8, 10u8]);
}

/// A line in front does not hide the first blank line behind it.
proof fn lemma_past_line(line: Seq<u8>, rest: Seq<u8>, i: int)
    requires
        unbroken_bytes(line),
        rest.len() > 0,
        rest[0] != 13,
        text::first_at(rest, http::blank_line(), i),
    ensures
        text::first_at(
            line + seq![13u8, 10u8] + rest,
            http::blank_line(),
            line.len() + 2 + i,
        ),
{
    let s = line + seq![13u8, 10u8] + rest;
    let n = line.len() as int;
    let gap = http::blank_line();
    assert(s.subrange(n + 2 + i, n + 2 + i + 4) =~= rest.subrange(i, i + 4));
    assert forall|j: int| 0 <= j < n + 2 + i implies !#[trigger] text::occurs_at(s, gap, j) by {
        if text::occurs_at(s, gap, j) {
            let w = s.subrange(j, j + 4);
            assert(w[0] == s[j] && w[2] == s[j + 2]);
            assert(gap[0] == 13 && gap[2] == 13);
            if j < n {
                assert(s[j] == line[j]);
            } else if j == n {
                assert(s[j + 2] == rest[0]);
            } else if j == n + 1 {
                assert(s[j] == 10);
            } else {
                assert(w =~= rest.subrange(j - n - 2, j - n - 2 + 4));
                assert(text::occurs_at(rest, gap, j - n - 2));
            }
        }
    }
}

/// The blank line behind the last line is the first one.
proof fn lemma_last_line(line: Seq<u8>, body: Seq<u8>)
    requires
        unbroken_bytes(line),
    ensures
        text::first_at(
            line + seq![13u8, 10u8] + seq![13u8, 10u8] + body,
            http::blank_line(),
            line.len() as int,
        ),
{
    let s = line + seq![13u8, 10u8] + seq![13u8, 10u8] + body;
    let n = line.len() as int;
    let gap = http::blank_line();
    assert(s.subrange(n, n + 4) =~= gap);
    assert forall|j: int| 0 <= j < n implies !#[trigger] text::occurs_at(s, gap, j) by {
        if text::occurs_at(s, gap, j) {
            assert(s.subrange(j, j + 4)[0] == s[j]);
            assert(s[j] == line[j]);
        }
    }
}

/// The length of a line that a line feed ends.
pub(crate) proof fn lemma_line_len(line: Seq<char>, rest: Seq<char>)
    requires
        forall|i: int| 0 <= i < line.len() ==> #[trigger] line[i] != '\n',
        rest.len() > 0 ==> rest[0] == '\n',
    ensures
        text::line_len(line + rest) == line.len(),
    decreases line.len(),
{
    if line.len() == 0 {
        assert(line + rest =~= rest);
    } else {
        let behind = line.drop_first();
        assert forall|i: int| 0 <= i < behind.len() implies #[trigger] behind[i] != '\n' by {
            assert(behind[i] == line[i + 1]);
        }
        lemma_line_len(behind, rest);
        assert((line + rest).drop_first() =~= behind + rest);
        assert((line + rest)[0] == line[0]);
    }
}

/// A line in front is the first of the lines.
proof fn lemma_lines_past(line: Seq<char>, rest: Seq<char>)
    requires
        unbroken(line),
    ensures
        text::lines(line + "\r\n"@ + rest) == seq![line] + text::lines(rest),
{
    reveal_strlit("\r\n");
    let s = line + "\r\n"@ + rest;
    let cut = line.push('\r');
    let behind = seq!['\n'] + rest;
    assert(s =~= cut + behind);
    assert forall|i: int| 0 <= i < cut.len() implies #[trigger] cut[i] != '\n' by {
        if i < line.len() {
            assert(cut[i] == line[i]);
        }
    }
    lemma_line_len(cut, behind);
    assert(s.take(cut.len() as int) =~= cut);
    assert(text::chomp(cut) =~= line);
    assert(s.skip(cut.len() as int + 1) =~= rest);
}

/// A last line that nothing ends is a line.
proof fn lemma_lines_last(line: Seq<char>)
    requires
        unbroken(line),
        line.len() > 0,
    ensures
        text::lines(line) == seq![line],
{
    lemma_line_len(line, Seq::empty());
    assert(line + Seq::<char>::empty() =~= line);
}

/// A number in decimal is digits, and they spell it.
pub(crate) proof fn lemma_decimal(n: nat)
    ensures
        digits::decimal(n).len() > 0,
        digits::all_digits(digits::decimal(n)),
        digits::value(digits::decimal(n)) == n,
    decreases n,
{
    reveal_with_fuel(digits::value, 2);
    let d = digits::decimal(n);
    if n < 10 {
        assert(d.drop_last() =~= Seq::<char>::empty());
    } else {
        lemma_decimal(n / 10);
        let front = digits::decimal(n / 10);
        assert(d.drop_last() =~= front);
        assert forall|i: int| 0 <= i < d.len() implies '0' <= #[trigger] d[i] <= '9' by {
            if i < front.len() {
                assert(d[i] == front[i]);
            }
        }
    }
}

/// The status line of an answer.
pub open spec fn status_line(a: Answer) -> Seq<char> {
    "HTTP/1.1 "@ + digits::decimal(a.code as nat) + " "@ + reply::reason(a.code)
}

/// The header that states the length of an answer's body.
pub open spec fn length_line(a: Answer) -> Seq<char> {
    "Content-Length: "@ + digits::decimal(a.body.len())
}

/// The header that names a lease.
pub open spec fn lease_header(id: Seq<char>) -> Seq<char> {
    "X-Horus-Lease: "@ + id
}

/// Headers from the lease on, up to the blank line.
pub open spec fn closing(a: Answer) -> Seq<char> {
    match a.lease {
        Some(id) => lease_header(id) + "\r\n"@ + "Connection: close"@,
        None => "Connection: close"@,
    }
}

/// Status line and headers up to the blank line.
pub open spec fn headers(a: Answer) -> Seq<char> {
    status_line(a) + "\r\n"@ + (length_line(a) + "\r\n"@ + closing(a))
}

/// Digits are unbroken.
proof fn lemma_digits_unbroken(n: nat)
    ensures
        unbroken(digits::decimal(n)),
{
    lemma_decimal(n);
}

/// Unbroken pieces make an unbroken line.
proof fn lemma_unbroken_concat(a: Seq<char>, b: Seq<char>)
    requires
        unbroken(a),
        unbroken(b),
    ensures
        unbroken(a + b),
{
}

/// What the lines of an answer are made of has no line breaks.
proof fn lemma_lines_unbroken(a: Answer)
    ensures
        unbroken(status_line(a)),
        unbroken(length_line(a)),
        unbroken("Connection: close"@),
        unbroken("X-Horus-Lease: "@),
        status_line(a)[0] == 'H',
        length_line(a)[0] == 'C',
        "Connection: close"@[0] == 'C',
        "X-Horus-Lease: "@[0] == 'X',
        status_line(a).len() > 0,
        length_line(a).len() > 0,
        "Connection: close"@.len() > 0,
        "X-Horus-Lease: "@.len() > 0,
{
    reveal_strlit("HTTP/1.1 ");
    reveal_strlit(" ");
    reveal_strlit("Content-Length: ");
    reveal_strlit("Connection: close");
    reveal_strlit("X-Horus-Lease: ");
    lemma_reason_unbroken(a.code);
    lemma_digits_unbroken(a.code as nat);
    lemma_digits_unbroken(a.body.len());
    let code = digits::decimal(a.code as nat);
    lemma_unbroken_concat("HTTP/1.1 "@, code);
    lemma_unbroken_concat("HTTP/1.1 "@ + code, " "@);
    lemma_unbroken_concat("HTTP/1.1 "@ + code + " "@, reply::reason(a.code));
    lemma_unbroken_concat("Content-Length: "@, digits::decimal(a.body.len()));
}

/// Phrases have no line breaks.
proof fn lemma_reason_unbroken(code: u16)
    ensures
        unbroken(reply::reason(code)),
{
    reveal_strlit("Created");
    reveal_strlit("Accepted");
    reveal_strlit("No Content");
    reveal_strlit("Bad Request");
    reveal_strlit("Not Found");
    reveal_strlit("Conflict");
    reveal_strlit("Too Many Requests");
    reveal_strlit("OK");
}

/// Head is headers and a blank line.
proof fn lemma_head(a: Answer)
    ensures
        reply::head_of(a) == headers(a) + "\r\n"@ + "\r\n"@,
{
    reveal_strlit("\r\n");
    reveal_strlit("\r\nContent-Length: ");
    reveal_strlit("Content-Length: ");
    reveal_strlit("Connection: close");
    reveal_strlit("Connection: close\r\n\r\n");
    assert("\r\nContent-Length: "@ =~= "\r\n"@ + "Content-Length: "@);
    assert("Connection: close\r\n\r\n"@ =~= "Connection: close"@ + "\r\n"@ + "\r\n"@);
    assert(reply::head_of(a) =~= headers(a) + "\r\n"@ + "\r\n"@);
}

/// The length header states the length.
proof fn lemma_stated(a: Answer, rest: Seq<Seq<char>>)
    requires
        a.body.len() <= usize::MAX,
    ensures
        http::stated_length(seq![status_line(a)] + (seq![length_line(a)] + rest)) == Some(
            a.body.len(),
        ),
{
    let lines = seq![status_line(a)] + (seq![length_line(a)] + rest);
    let name = "content-length:"@;
    let d = digits::decimal(a.body.len());
    reveal_strlit("content-length:");
    reveal_strlit("Content-Length: ");
    lemma_lines_unbroken(a);
    lemma_decimal(a.body.len());
    let first = text::lowered(status_line(a));
    assert(first[0] == 'h');
    assert(!text::has_prefix(first, name)) by {
        if text::has_prefix(first, name) {
            assert(first.take(name.len() as int)[0] == first[0]);
        }
    }
    assert(lines.drop_first() =~= seq![length_line(a)] + rest);
    assert(lines.drop_first()[0] == length_line(a));
    let line = text::lowered(length_line(a));
    assert(line.take(name.len() as int) =~= name);
    let spaced = seq![' '] + d;
    assert(line.skip(name.len() as int) =~= spaced);
    assert(spaced.drop_first() =~= d);
    assert(!text::is_white(d[0]) && !text::is_white(d[d.len() - 1]));
    assert(text::trim_start(d) == d);
    assert(text::trim_start(spaced) == d);
    assert(text::trim(spaced) == d);
    assert(d[0] != '+');
    assert(digits::parse_number(d) == Some(a.body.len()));
    reveal_with_fuel(http::stated_length, 3);
}

/// The lines of the headers.
proof fn lemma_header_lines(a: Answer)
    requires
        a.lease is Some ==> unbroken(a.lease->Some_0),
    ensures
        text::lines(headers(a)) == seq![status_line(a)] + (seq![length_line(a)] + text::lines(
            closing(a),
        )),
        text::lines(closing(a)) == match a.lease {
            Some(id) => seq![lease_header(id), "Connection: close"@],
            None => seq!["Connection: close"@],
        },
{
    lemma_lines_unbroken(a);
    lemma_lines_past(status_line(a), length_line(a) + "\r\n"@ + closing(a));
    lemma_lines_past(length_line(a), closing(a));
    lemma_lines_last("Connection: close"@);
    if let Some(id) = a.lease {
        lemma_unbroken_concat("X-Horus-Lease: "@, id);
        lemma_lines_past(lease_header(id), "Connection: close"@);
        assert(seq![lease_header(id)] + seq!["Connection: close"@] =~= seq![
            lease_header(id),
            "Connection: close"@,
        ]);
    }
}

/// The blank line behind the headers is the first one of the rendered answer.
proof fn lemma_headers_end(a: Answer)
    requires
        a.lease is Some ==> unbroken(a.lease->Some_0),
    ensures
        text::first_at(
            reply::rendered(a),
            http::blank_line(),
            encode_utf8(headers(a)).len() as int,
        ),
        reply::rendered(a) == encode_utf8(headers(a)) + http::blank_line() + a.body,
{
    let br = "\r\n"@;
    let b = seq![13u8, 10u8];
    let last = encode_utf8("Connection: close"@);
    let status = encode_utf8(status_line(a));
    let length = encode_utf8(length_line(a));
    lemma_lines_unbroken(a);
    lemma_encode_break();
    lemma_head(a);
    lemma_encode_unbroken(status_line(a));
    lemma_encode_unbroken(length_line(a));
    lemma_encode_unbroken("Connection: close"@);
    lemma_encode_concat(headers(a) + br, br);
    lemma_encode_concat(headers(a), br);
    let end = b + a.body;
    assert(reply::rendered(a) =~= encode_utf8(headers(a)) + http::blank_line() + a.body);
    lemma_encode_concat(status_line(a) + br, length_line(a) + br + closing(a));
    lemma_encode_concat(status_line(a), br);
    lemma_encode_concat(length_line(a) + br, closing(a));
    lemma_encode_concat(length_line(a), br);
    lemma_last_line(last, a.body);
    let tail = last + b + b + a.body;
    let from_closing = encode_utf8(closing(a)) + b + b + a.body;
    assert(last[0] != 13);
    match a.lease {
        Some(id) => {
            let named = encode_utf8(lease_header(id));
            lemma_unbroken_concat("X-Horus-Lease: "@, id);
            lemma_encode_unbroken(lease_header(id));
            lemma_encode_concat(lease_header(id) + br, "Connection: close"@);
            lemma_encode_concat(lease_header(id), br);
            lemma_past_line(named, tail, last.len() as int);
            assert(from_closing =~= named + b + tail);
            assert(named[0] != 13);
        },
        None => {
            assert(from_closing =~= tail);
        },
    }
    let k = encode_utf8(closing(a)).len() as int;
    assert(text::first_at(from_closing, http::blank_line(), k));
    lemma_past_line(length, from_closing, k);
    let from_length = length + b + from_closing;
    assert(length[0] != 13);
    lemma_past_line(status, from_length, length.len() + 2 + k);
    assert(reply::rendered(a) =~= status + b + from_length);
}

/// The headers name a lease exactly if the answer carries it.
proof fn lemma_lease_named(a: Answer, id: Seq<char>)
    requires
        a.lease is Some ==> unbroken(a.lease->Some_0),
    ensures
        text::lines(headers(a)).contains(lease_header(id)) <==> a.lease == Some(id),
{
    lemma_header_lines(a);
    lemma_lines_unbroken(a);
    let lines = text::lines(headers(a));
    let rest = text::lines(closing(a));
    let h = lease_header(id);
    assert(h[0] == 'X');
    assert(lines[0] == status_line(a));
    assert(lines[1] == length_line(a));
    if lines.contains(h) {
        let i = choose|i: int| 0 <= i < lines.len() && lines[i] == h;
        assert(i >= 2 && lines[i] == rest[i - 2]);
        assert(a.lease is Some && i == 2);
        let held = a.lease->Some_0;
        let n = "X-Horus-Lease: "@.len() as int;
        assert(lease_header(held).skip(n) =~= held);
        assert(h.skip(n) =~= id);
    }
    if a.lease == Some(id) {
        assert(lines[2] == rest[0]);
        assert(rest[0] == h);
    }
}

/// What stands before the blank line reads as the headers.
proof fn lemma_headers_read(a: Answer)
    requires
        a.lease is Some ==> unbroken(a.lease->Some_0),
    ensures
        text::find(reply::rendered(a), http::blank_line()) == Some(
            reply::rendered(a).len() - a.body.len() - 4,
        ),
        http::as_text(
            reply::rendered(a).take(reply::rendered(a).len() - a.body.len() - 4),
        ) == headers(a),
        reply::rendered(a).skip(reply::rendered(a).len() - a.body.len()) == a.body,
{
    let w = reply::rendered(a);
    let head = encode_utf8(headers(a));
    let end = head.len() as int;
    lemma_headers_end(a);
    text::lemma_find(w, http::blank_line(), end);
    assert(w.take(end) =~= head);
    assert(w.skip(end + 4) =~= a.body);
    vstd::utf8::encode_utf8_valid_utf8(headers(a));
    vstd::utf8::encode_utf8_decode_utf8(headers(a));
}

/// A rendered answer is read back: its headers end where its body begins, they
/// state the body's length, and they name a lease exactly if the answer carries
/// it. The lease id must not break lines, and the length must be a machine
/// word.
pub proof fn law_answers_are_read_back(a: Answer)
    requires
        a.body.len() <= usize::MAX,
        a.lease is Some ==> unbroken(a.lease->Some_0),
    ensures
        ({
            let w = reply::rendered(a);
            let end = w.len() - a.body.len() - 4;
            let lines = text::lines(http::as_text(w.take(end)));
            &&& text::find(w, http::blank_line()) == Some(end)
            &&& http::stated_length(lines) == Some(a.body.len())
            &&& w.skip(end + 4) == a.body
            &&& forall|id: Seq<char>| #[trigger]
                lines.contains(lease_header(id)) <==> a.lease == Some(id)
        }),
{
    lemma_headers_read(a);
    lemma_header_lines(a);
    lemma_stated(a, text::lines(closing(a)));
    assert forall|id: Seq<char>| #[trigger]
        text::lines(headers(a)).contains(lease_header(id)) <==> a.lease == Some(id) by {
        lemma_lease_named(a, id);
    }
}

} // verus!
