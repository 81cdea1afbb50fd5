//! Messages on the wire.

use vstd::prelude::*;
use vstd::utf8::{decode_utf8, encode_utf8, valid_utf8};

use crate::error::{bare, fail, fail_with, seen, with, Error, ErrorV, Fault};
use crate::number::{decimal, format_u64, format_usize, parse_u16, parse_usize, parsed};
use crate::primitives::{
    lossy, lossy_text, percent_decode_text, percent_decoded, percent_encode_byte, upper_hex, utf8_text, UrlParts,
    UrlPartsV,
};
use crate::text::{
    append_bytes, comes_before, concat3, copy_bytes, cut, find, from_chars, lower, part, precedes, runs,
    same_ignoring_case, split_words, to_chars, trim, trim_back, trim_both, trim_end, words, Trim,
};
use crate::types::pairs;

verus! {

broadcast use vstd::string::group_string_axioms;

// Reading.

/// The length of the first line with its line feed; everything when there is
/// none.
pub open spec fn line_len(b: Seq<u8>) -> nat
    decreases b.len(),
{
    if b.len() == 0 {
        0
    } else if b[0] == 10 {
        1
    } else {
        1 + line_len(b.skip(1))
    }
}

/// The first line ends at its first line feed.
pub proof fn lemma_line_len(b: Seq<u8>)
    ensures
        line_len(b) <= b.len(),
        b.len() > 0 ==> line_len(b) > 0,
        forall|k: int| 0 <= k < line_len(b) - 1 ==> b[k] != 10,
        0 < line_len(b) < b.len() ==> b[line_len(b) - 1] == 10,
    decreases b.len(),
{
    if b.len() > 0 && b[0] != 10 {
        lemma_line_len(b.skip(1));
        assert forall|k: int| 0 <= k < line_len(b) - 1 implies b[k] != 10 by {
            if k > 0 {
                assert(b[k] == b.skip(1)[k - 1]);
            }
        }
        if line_len(b) < b.len() {
            assert(b.skip(1).len() > 0);
            assert(b[line_len(b) - 1] == b.skip(1)[line_len(b) - 2]);
        }
    }
}

pub(crate) fn line_length(b: &[u8], from: usize) -> (r: usize)
    requires
        from <= b@.len(),
    ensures
        r == line_len(b@.skip(from as int)),
        from + r <= b@.len(),
{
    let n: usize = b.len();
    let mut i: usize = from;
    while i < n
        invariant
            from <= i <= n == b@.len(),
            (i - from) + line_len(b@.skip(i as int)) == line_len(b@.skip(from as int)),
        decreases n - i,
    {
        assert(b@.skip(i as int)[0] == b@[i as int]);
        assert(b@.skip(i as int).skip(1) =~= b@.skip(i + 1));
        if b[i] == 10 {
            return i + 1 - from;
        }
        i = i + 1;
    }
    n - from
}

/// The header that a line holds: a name and a value around the first colon.
pub open spec fn header_in(line: Seq<char>) -> Option<(Seq<char>, Seq<char>)> {
    match cut(line, ':') {
        Some((name, value)) => Some((trim(name, Trim::Space), trim(value, Trim::Space))),
        None => None,
    }
}

/// The headers at the start of some bytes, up to the empty line, and how many
/// bytes they take. Lines without a colon are passed over.
pub open spec fn headers_in(b: Seq<u8>) -> Result<(Seq<(Seq<char>, Seq<char>)>, nat), ErrorV>
    decreases b.len(),
    via headers_in_decreases
{
    if b.len() == 0 {
        Ok((Seq::empty(), 0))
    } else if !valid_utf8(b.take(line_len(b) as int)) {
        Err(bare(Fault::LineNotUtf8))
    } else {
        let n = line_len(b);
        let line = trim_back(decode_utf8(b.take(n as int)), Trim::LineEnd);
        if line.len() == 0 {
            Ok((Seq::empty(), n))
        } else {
            match headers_in(b.skip(n as int)) {
                Ok((rest, used)) => Ok(
                    (
                        (match header_in(line) {
                            Some(h) => seq![h],
                            None => Seq::empty(),
                        }) + rest,
                        n + used,
                    ),
                ),
                Err(e) => Err(e),
            }
        }
    }
}

#[via_fn]
proof fn headers_in_decreases(b: Seq<u8>) {
    lemma_line_len(b);
}

/// The length of the body that headers announce.
pub open spec fn content_length(headers: Seq<(Seq<char>, Seq<char>)>) -> nat
    decreases headers.len(),
{
    if headers.len() == 0 {
        0
    } else if lower(headers[0].0) == "content-length"@ {
        match parsed(headers[0].1, usize::MAX as nat) {
            Some(n) => n,
            None => 0,
        }
    } else {
        content_length(headers.skip(1))
    }
}

/// A message: its first line, its headers and its body.
#[derive(Debug)]
pub struct Message {
    pub first_line: String,
    pub headers: Vec<(String, String)>,
    pub body: Vec<u8>,
}

/// The view of a message.
#[verifier::ext_equal]
pub struct MessageV {
    pub first_line: Seq<char>,
    pub headers: Seq<(Seq<char>, Seq<char>)>,
    pub body: Seq<u8>,
}

impl View for Message {
    type V = MessageV;

    open spec fn view(&self) -> MessageV {
        MessageV { first_line: self.first_line@, headers: pairs(self.headers@), body: self.body@ }
    }
}

/// The message that bytes hold. The body is as long as the headers say, and
/// empty when it is to be skipped.
pub open spec fn message_in(b: Seq<u8>, skip_body: bool) -> Result<MessageV, ErrorV> {
    let n = line_len(b) as int;
    if b.len() == 0 {
        Err(bare(Fault::EmptyMessage))
    } else if !valid_utf8(b.take(n)) {
        Err(bare(Fault::LineNotUtf8))
    } else {
        match headers_in(b.skip(n)) {
            Ok((headers, used)) => {
                let rest = b.skip(n + used);
                let wanted = if skip_body {
                    0
                } else {
                    content_length(headers)
                };
                if rest.len() < wanted {
                    Err(bare(Fault::BodyTruncated))
                } else {
                    Ok(MessageV { first_line: decode_utf8(b.take(n)), headers, body: rest.take(wanted as int) })
                }
            },
            Err(e) => Err(e),
        }
    }
}

fn header_of(line: &[char]) -> (r: Option<(String, String)>)
    ensures
        r is Some <==> header_in(line@) is Some,
        r matches Some(h) ==> header_in(line@) == Some((h.0@, h.1@)),
{
    let n: usize = line.len();
    let at: usize = find(line, ':');
    if at == n {
        return None;
    }
    assert(line@.subrange(0, at as int) =~= line@.take(at as int));
    assert(line@.subrange(at + 1, n as int) =~= line@.skip(at + 1));
    let name = from_chars(trim_both(part(line, 0, at), Trim::Space));
    let value = from_chars(trim_both(part(line, at + 1, n), Trim::Space));
    Some((name, value))
}

/// Headers and the number of bytes that they take, with others before them.
pub open spec fn headers_after(
    before: Seq<(Seq<char>, Seq<char>)>,
    used: nat,
    rest: Result<(Seq<(Seq<char>, Seq<char>)>, nat), ErrorV>,
) -> Result<(Seq<(Seq<char>, Seq<char>)>, nat), ErrorV> {
    match rest {
        Ok((list, more)) => Ok((before + list, used + more)),
        Err(e) => Err(e),
    }
}

pub(crate) fn read_headers(b: &[u8], from: usize) -> (r: Result<(Vec<(String, String)>, usize), Error>)
    requires
        from <= b@.len(),
    ensures
        r matches Ok(h) ==> from <= h.1 <= b@.len() && headers_in(b@.skip(from as int)) == Ok::<
            (Seq<(Seq<char>, Seq<char>)>, nat),
            ErrorV,
        >((pairs(h.0@), (h.1 - from) as nat)),
        r matches Err(e) ==> headers_in(b@.skip(from as int)) == Err::<(Seq<(Seq<char>, Seq<char>)>, nat), ErrorV>(e@),
{
    let n: usize = b.len();
    let mut out: Vec<(String, String)> = Vec::new();
    let mut at: usize = from;
    let ghost whole = headers_in(b@.skip(from as int));
    assert(whole == headers_after(pairs(out@), 0, headers_in(b@.skip(at as int)))) by {
        if let Ok((list, more)) = whole {
            assert(pairs(out@) + list =~= list);
        }
    }
    while at < n
        invariant
            from <= at <= n == b@.len(),
            whole == headers_in(b@.skip(from as int)),
            whole == headers_after(pairs(out@), (at - from) as nat, headers_in(b@.skip(at as int))),
        decreases n - at,
    {
        let length: usize = line_length(b, at);
        let ghost here = b@.skip(at as int);
        proof {
            lemma_line_len(here);
            assert(b@.subrange(at as int, at + length) =~= here.take(length as int));
            assert(here.skip(length as int) =~= b@.skip(at + length));
        }
        let text = match utf8_text(vstd::slice::slice_subrange(b, at, at + length)) {
            Some(t) => to_chars(&t),
            None => {
                return Err(fail(Fault::LineNotUtf8));
            },
        };
        let line = trim_end(&text, Trim::LineEnd);
        if line.len() == 0 {
            assert(pairs(out@) + Seq::<(Seq<char>, Seq<char>)>::empty() =~= pairs(out@));
            return Ok((out, at + length));
        }
        let ghost earlier = pairs(out@);
        let ghost found = match header_in(line@) {
            Some(h) => seq![h],
            None => Seq::empty(),
        };
        match header_of(line) {
            Some(h) => {
                out.push(h);
            },
            None => {},
        }
        proof {
            assert(pairs(out@) =~= earlier + found);
            if let Ok((list, more)) = headers_in(b@.skip(at + length)) {
                assert(earlier + (found + list) =~= (earlier + found) + list);
            }
        }
        at = at + length;
    }
    assert(b@.skip(at as int).len() == 0);
    assert(pairs(out@) + Seq::<(Seq<char>, Seq<char>)>::empty() =~= pairs(out@));
    Ok((out, at))
}

fn body_length(headers: &[(String, String)]) -> (r: usize)
    ensures
        r == content_length(pairs(headers@)),
{
    let n: usize = headers.len();
    let mut i: usize = 0;
    let ghost all = pairs(headers@);
    assert(all.skip(0) =~= all);
    while i < n
        invariant
            i <= n == headers@.len(),
            all == pairs(headers@),
            content_length(all.skip(i as int)) == content_length(all),
        decreases n - i,
    {
        assert(all.skip(i as int)[0] == (headers@[i as int].0@, headers@[i as int].1@));
        assert(all.skip(i as int).skip(1) =~= all.skip(i + 1));
        assert(lower("content-length"@) == "content-length"@) by {
            reveal_strlit("content-length");
            assert(lower("content-length"@) =~= "content-length"@);
        }
        if same_ignoring_case(&headers[i].0, "content-length") {
            return match parse_usize(&to_chars(&headers[i].1)) {
                Some(length) => length,
                None => 0,
            };
        }
        i = i + 1;
    }
    0
}

/// Reads a message.
pub fn read_message(bytes: &[u8], skip_body: bool) -> (r: Result<Message, Error>)
    ensures
        seen(r) == message_in(bytes@, skip_body),
{
    let n: usize = bytes.len();
    if n == 0 {
        return Err(fail(Fault::EmptyMessage));
    }
    assert(bytes@.skip(0) =~= bytes@);
    let length: usize = line_length(bytes, 0);
    assert(bytes@.subrange(0, length as int) =~= bytes@.take(length as int));
    let first_line = match utf8_text(vstd::slice::slice_subrange(bytes, 0, length)) {
        Some(t) => t,
        None => {
            return Err(fail(Fault::LineNotUtf8));
        },
    };
    let (headers, at) = match read_headers(bytes, length) {
        Ok(h) => h,
        Err(e) => {
            return Err(e);
        },
    };
    let wanted: usize = if skip_body { 0 } else { body_length(&headers) };
    let ghost rest = bytes@.skip(at as int);
    if n - at < wanted {
        return Err(fail(Fault::BodyTruncated));
    }
    let body = copy_bytes(vstd::slice::slice_subrange(bytes, at, at + wanted));
    assert(body@ =~= rest.take(wanted as int));
    Ok(Message { first_line, headers, body })
}

/// Whether a line holds nothing but its end.
pub open spec fn blank_line(line: Seq<u8>) -> bool {
    forall|k: int| 0 <= k < line.len() ==> #[trigger] line[k] == 13 || line[k] == 10
}

/// How many bytes the headers take up to and with their empty line, once that
/// has arrived.
pub open spec fn head_end(b: Seq<u8>) -> Option<nat>
    decreases b.len(),
    via head_end_decreases
{
    let n = line_len(b);
    if b.len() == 0 || b[n - 1] != 10 {
        None
    } else if blank_line(b.take(n as int)) {
        Some(n)
    } else {
        match head_end(b.skip(n as int)) {
            Some(k) => Some(n + k),
            None => None,
        }
    }
}

#[via_fn]
proof fn head_end_decreases(b: Seq<u8>) {
    lemma_line_len(b);
}

/// Whether the bytes that have arrived hold a whole message, so that no more
/// need be waited for. Headers that cannot be read are not waited for either.
pub open spec fn message_complete(b: Seq<u8>, skip_body: bool) -> bool {
    let n = line_len(b) as int;
    &&& b.len() > 0
    &&& b[n - 1] == 10
    &&& head_end(b.skip(n)) is Some
    &&& skip_body || match headers_in(b.skip(n)) {
        Ok((headers, used)) => b.len() >= n + used + content_length(headers),
        Err(_) => true,
    }
}

fn head_has_ended(b: &[u8], from: usize) -> (r: bool)
    requires
        from <= b@.len(),
    ensures
        r == (head_end(b@.skip(from as int)) is Some),
{
    let n: usize = b.len();
    let mut at: usize = from;
    while at < n
        invariant
            from <= at <= n == b@.len(),
            head_end(b@.skip(at as int)) is Some == head_end(b@.skip(from as int)) is Some,
        decreases n - at,
    {
        let length: usize = line_length(b, at);
        let ghost here = b@.skip(at as int);
        proof {
            lemma_line_len(here);
            assert(here[length - 1] == b@[at + length - 1]);
            assert(here.skip(length as int) =~= b@.skip(at + length));
        }
        if b[at + length - 1] != 10 {
            return false;
        }
        let end: usize = at + length;
        let mut i: usize = at;
        let mut blank = true;
        while i < end
            invariant
                at <= i <= end == at + length <= b@.len(),
                here == b@.skip(at as int),
                blank == forall|k: int| 0 <= k < i - at ==> (#[trigger] here[k] == 13 || here[k] == 10),
            decreases end - i,
        {
            assert(here[i - at] == b@[i as int]);
            if b[i] != 13 && b[i] != 10 {
                blank = false;
            }
            i = i + 1;
        }
        proof {
            let line = here.take(length as int);
            if blank {
                assert forall|k: int| 0 <= k < line.len() implies #[trigger] line[k] == 13 || line[k] == 10 by {
                    assert(line[k] == here[k]);
                }
            } else {
                let k = choose|k: int| 0 <= k < length && !(#[trigger] here[k] == 13 || here[k] == 10);
                assert(line[k] == here[k]);
            }
        }
        if blank {
            return true;
        }
        at = at + length;
    }
    false
}

/// Whether the bytes that have arrived hold a whole message.
pub fn message_is_complete(bytes: &[u8], skip_body: bool) -> (r: bool)
    ensures
        r == message_complete(bytes@, skip_body),
{
    let n: usize = bytes.len();
    if n == 0 {
        return false;
    }
    assert(bytes@.skip(0) =~= bytes@);
    let length: usize = line_length(bytes, 0);
    proof {
        lemma_line_len(bytes@);
    }
    if bytes[length - 1] != 10 || !head_has_ended(bytes, length) {
        return false;
    }
    if skip_body {
        return true;
    }
    match read_headers(bytes, length) {
        Ok((headers, at)) => n - at >= body_length(&headers),
        Err(_) => true,
    }
}

// Requests and responses.

/// A request: its method, its decoded target, its headers and its body.
#[derive(Debug)]
pub struct Request {
    pub method: String,
    pub target: String,
    pub headers: Vec<(String, String)>,
    pub body: Vec<u8>,
}

/// The view of a request.
#[verifier::ext_equal]
pub struct RequestV {
    pub method: Seq<char>,
    pub target: Seq<char>,
    pub headers: Seq<(Seq<char>, Seq<char>)>,
    pub body: Seq<u8>,
}

impl View for Request {
    type V = RequestV;

    open spec fn view(&self) -> RequestV {
        RequestV { method: self.method@, target: self.target@, headers: pairs(self.headers@), body: self.body@ }
    }
}

/// The request that a message is: its first line has three words, the second
/// of them the percent-encoded target.
pub open spec fn request_in(m: MessageV) -> Result<RequestV, ErrorV> {
    let line = words(m.first_line);
    if line.len() != 3 {
        Err(bare(Fault::BadRequestLine))
    } else {
        match percent_decoded(line[1]) {
            Some(target) => Ok(RequestV { method: line[0], target, headers: m.headers, body: m.body }),
            None => Err(bare(Fault::InvalidPath)),
        }
    }
}

/// The request that bytes hold.
pub open spec fn request_read(b: Seq<u8>, skip_body: bool) -> Result<RequestV, ErrorV> {
    match message_in(b, skip_body) {
        Ok(m) => request_in(m),
        Err(e) => Err(e),
    }
}

/// Reads a request.
pub fn read_request(bytes: &[u8], skip_body: bool) -> (r: Result<Request, Error>)
    ensures
        seen(r) == request_read(bytes@, skip_body),
{
    let message = match read_message(bytes, skip_body) {
        Ok(m) => m,
        Err(e) => {
            return Err(e);
        },
    };
    let parts = split_words(&to_chars(&message.first_line));
    assert(runs(parts@).len() == parts@.len());
    if parts.len() != 3 {
        return Err(fail(Fault::BadRequestLine));
    }
    assert(runs(parts@)[0] == parts@[0]@ && runs(parts@)[1] == parts@[1]@);
    match percent_decode_text(&from_chars(&parts[1])) {
        Some(target) => Ok(
            Request { method: from_chars(&parts[0]), target, headers: message.headers, body: message.body },
        ),
        None => Err(fail(Fault::InvalidPath)),
    }
}

/// A response: its status code, its headers and its body.
#[derive(Debug)]
pub struct Response {
    pub status: u16,
    pub headers: Vec<(String, String)>,
    pub body: Vec<u8>,
}

/// The view of a response.
#[verifier::ext_equal]
pub struct ResponseV {
    pub status: u16,
    pub headers: Seq<(Seq<char>, Seq<char>)>,
    pub body: Seq<u8>,
}

impl View for Response {
    type V = ResponseV;

    open spec fn view(&self) -> ResponseV {
        ResponseV { status: self.status, headers: pairs(self.headers@), body: self.body@ }
    }
}

/// The response that a message is: the second word of its first line is the
/// status code.
pub open spec fn response_in(m: MessageV) -> Result<ResponseV, ErrorV> {
    let line = words(m.first_line);
    if line.len() < 2 {
        Err(bare(Fault::NoStatusCode))
    } else {
        match parsed(line[1], u16::MAX as nat) {
            Some(code) => Ok(ResponseV { status: code as u16, headers: m.headers, body: m.body }),
            None => Err(bare(Fault::BadStatusCode)),
        }
    }
}

/// The response that bytes hold.
pub open spec fn response_read(b: Seq<u8>, skip_body: bool) -> Result<ResponseV, ErrorV> {
    match message_in(b, skip_body) {
        Ok(m) => response_in(m),
        Err(e) => Err(e),
    }
}

/// Reads a response.
pub fn read_response(bytes: &[u8], skip_body: bool) -> (r: Result<Response, Error>)
    ensures
        seen(r) == response_read(bytes@, skip_body),
{
    let message = match read_message(bytes, skip_body) {
        Ok(m) => m,
        Err(e) => {
            return Err(e);
        },
    };
    let parts = split_words(&to_chars(&message.first_line));
    assert(runs(parts@).len() == parts@.len());
    if parts.len() < 2 {
        return Err(fail(Fault::NoStatusCode));
    }
    assert(runs(parts@)[1] == parts@[1]@);
    match parse_u16(&parts[1]) {
        Some(status) => Ok(Response { status, headers: message.headers, body: message.body }),
        None => Err(fail(Fault::BadStatusCode)),
    }
}

/// Whether a status code means success.
pub open spec fn is_success(code: u16) -> bool {
    200 <= code < 300
}

/// The error that a refused request comes back as.
pub open spec fn http_error(code: u16, body: Seq<u8>) -> ErrorV {
    with(Fault::Http, decimal(code as nat) + ": "@ + lossy_text(body))
}

/// The error that a refused request comes back as.
pub fn refused(code: u16, body: &[u8]) -> (r: Error)
    ensures
        r@ == http_error(code, body@),
{
    fail_with(Fault::Http, concat3(&format_u64(code as u64), ": ", &lossy(body)))
}

/// Refuses a response that does not mean success.
pub fn check_response_code(code: u16, body: &[u8]) -> (r: Result<(), Error>)
    ensures
        r is Ok <==> is_success(code),
        r matches Err(e) ==> e@ == http_error(code, body@),
{
    if 200 <= code && code < 300 {
        Ok(())
    } else {
        Err(refused(code, body))
    }
}

// Writing.

/// Headers with one more put in its place: behind all that do not come after
/// it.
pub open spec fn inserted(list: Seq<(Seq<char>, Seq<char>)>, h: (Seq<char>, Seq<char>)) -> Seq<(Seq<char>, Seq<char>)>
    decreases list.len(),
{
    if list.len() == 0 || !precedes(h.0, list.last().0) {
        list.push(h)
    } else {
        inserted(list.drop_last(), h).push(list.last())
    }
}

/// Headers in the order of their names; those with one name stay in the order
/// in which they came.
pub open spec fn sorted(list: Seq<(Seq<char>, Seq<char>)>) -> Seq<(Seq<char>, Seq<char>)>
    decreases list.len(),
{
    if list.len() == 0 {
        list
    } else {
        inserted(sorted(list.drop_last()), list.last())
    }
}

/// Whether some header has a name, up to ASCII case.
pub open spec fn has_header(list: Seq<(Seq<char>, Seq<char>)>, name: Seq<char>) -> bool {
    exists|i: int| 0 <= i < list.len() && lower((#[trigger] list[i]).0) == lower(name)
}

/// The headers of a message: those given, and the length of the body where none
/// of them gives it, in the order of their names.
pub open spec fn final_headers(list: Seq<(Seq<char>, Seq<char>)>, length: nat) -> Seq<(Seq<char>, Seq<char>)> {
    sorted(
        if has_header(list, "Content-Length"@) {
            list
        } else {
            list.push(("Content-Length"@, decimal(length)))
        },
    )
}

/// The lines that headers are written as.
pub open spec fn header_lines(list: Seq<(Seq<char>, Seq<char>)>) -> Seq<char>
    decreases list.len(),
{
    if list.len() == 0 {
        Seq::empty()
    } else {
        header_lines(list.drop_last()) + list.last().0 + ": "@ + list.last().1 + "\r\n"@
    }
}

/// The bytes of a message.
pub open spec fn message_bytes(
    first_line: Seq<char>,
    headers: Seq<(Seq<char>, Seq<char>)>,
    body: Seq<u8>,
) -> Seq<u8> {
    encode_utf8(first_line + header_lines(final_headers(headers, body.len())) + "\r\n"@) + body
}

fn insert_header(list: &mut Vec<(String, String)>, header: (String, String))
    ensures
        pairs(final(list)@) == inserted(pairs(old(list)@), (header.0@, header.1@)),
{
    let ghost whole = pairs(list@);
    let ghost h = (header.0@, header.1@);
    let mut at: usize = list.len();
    assert(whole.take(at as int) =~= whole);
    assert(inserted(whole, h) =~= inserted(whole.take(at as int), h) + whole.skip(at as int));
    while at > 0 && comes_before(&header.0, &list[at - 1].0)
        invariant
            at <= list@.len(),
            whole == pairs(list@),
            h == (header.0@, header.1@),
            inserted(whole, h) == inserted(whole.take(at as int), h) + whole.skip(at as int),
        decreases at,
    {
        proof {
            let here = whole.take(at as int);
            assert(here.last() == (list@[at - 1].0@, list@[at - 1].1@));
            assert(here.drop_last() =~= whole.take(at - 1));
            assert(inserted(here, h) == inserted(here.drop_last(), h).push(here.last()));
            assert(inserted(here.drop_last(), h).push(here.last()) + whole.skip(at as int) =~= inserted(
                whole.take(at - 1),
                h,
            ) + whole.skip(at - 1));
        }
        at = at - 1;
    }
    proof {
        let here = whole.take(at as int);
        if at > 0 {
            assert(here.last() == (list@[at - 1].0@, list@[at - 1].1@));
        }
        assert(inserted(here, h) == here.push(h));
    }
    let ghost before = list@;
    list.insert(at, header);
    assert(pairs(list@) =~= inserted(whole, h)) by {
        assert(inserted(whole, h) == whole.take(at as int).push(h) + whole.skip(at as int));
        assert forall|k: int| 0 <= k < list@.len() implies #[trigger] pairs(list@)[k] == inserted(whole, h)[k] by {
            if k < at {
                assert(list@[k] == before[k]);
                assert(whole[k] == (before[k].0@, before[k].1@));
            } else if k > at {
                assert(list@[k] == before[k - 1]);
                assert(whole[k - 1] == (before[k - 1].0@, before[k - 1].1@));
            }
        }
    }
}

fn named(headers: &[(String, String)], name: &str) -> (r: bool)
    ensures
        r == has_header(pairs(headers@), name@),
{
    let n: usize = headers.len();
    let mut i: usize = 0;
    while i < n
        invariant
            i <= n == headers@.len(),
            forall|k: int| 0 <= k < i ==> lower((#[trigger] pairs(headers@)[k]).0) != lower(name@),
        decreases n - i,
    {
        if same_ignoring_case(&headers[i].0, name) {
            assert(lower(pairs(headers@)[i as int].0) == lower(name@));
            return true;
        }
        i = i + 1;
    }
    false
}

/// Named values in the order of their names; those with one name stay in the
/// order in which they came.
pub fn sort_pairs(list: &[(String, String)]) -> (r: Vec<(String, String)>)
    ensures
        pairs(r@) == sorted(pairs(list@)),
{
    let mut out: Vec<(String, String)> = Vec::new();
    let n: usize = list.len();
    let mut i: usize = 0;
    let ghost all = pairs(list@);
    assert(pairs(out@) =~= sorted(all.take(0)));
    while i < n
        invariant
            i <= n == list@.len(),
            all == pairs(list@),
            pairs(out@) == sorted(all.take(i as int)),
        decreases n - i,
    {
        assert(all.take(i + 1).drop_last() =~= all.take(i as int));
        assert(all.take(i + 1).last() == (list@[i as int].0@, list@[i as int].1@));
        insert_header(&mut out, (list[i].0.clone(), list[i].1.clone()));
        i = i + 1;
    }
    assert(all.take(n as int) =~= all);
    out
}

fn order_headers(headers: &[(String, String)], length: usize) -> (r: Vec<(String, String)>)
    ensures
        pairs(r@) == final_headers(pairs(headers@), length as nat),
{
    let mut out = sort_pairs(headers);
    if !named(headers, "Content-Length") {
        proof {
            let all = pairs(headers@);
            let more = all.push(("Content-Length"@, decimal(length as nat)));
            assert(more.drop_last() =~= all);
        }
        insert_header(&mut out, ("Content-Length".to_owned(), format_usize(length)));
    }
    out
}

/// Writes a first line, headers as they are, and an empty line.
pub fn write_head(first_line: &str, list: &[(String, String)]) -> (r: String)
    ensures
        r@ == first_line@ + header_lines(pairs(list@)) + "\r\n"@,
{
    let mut text = first_line.to_owned();
    let n: usize = list.len();
    let mut i: usize = 0;
    let ghost all = pairs(list@);
    assert(first_line@ + header_lines(all.take(0)) =~= first_line@);
    while i < n
        invariant
            i <= n == list@.len(),
            all == pairs(list@),
            text@ == first_line@ + header_lines(all.take(i as int)),
        decreases n - i,
    {
        let ghost earlier = text@;
        text.append(&list[i].0);
        text.append(": ");
        text.append(&list[i].1);
        text.append("\r\n");
        proof {
            assert(all.take(i + 1).drop_last() =~= all.take(i as int));
            assert(all.take(i + 1).last() == (list@[i as int].0@, list@[i as int].1@));
            assert(text@ =~= first_line@ + header_lines(all.take(i + 1)));
        }
        i = i + 1;
    }
    assert(all.take(n as int) =~= all);
    text.append("\r\n");
    text
}

/// Writes a message: the first line, the headers in order with the length of
/// the body, an empty line and the body.
pub fn write_message(first_line: &str, headers: &[(String, String)], body: &[u8]) -> (r: Vec<u8>)
    ensures
        r@ == message_bytes(first_line@, pairs(headers@), body@),
{
    let list = order_headers(headers, body.len());
    let text = write_head(first_line, &list);
    let mut out = copy_bytes(text.as_str().as_bytes());
    append_bytes(&mut out, body);
    out
}

/// The phrase that goes with a status code.
pub open spec fn reason(code: u16) -> Seq<char> {
    if code == 200 {
        "OK"@
    } else if code == 201 {
        "Created"@
    } else if code == 204 {
        "No Content"@
    } else if code == 400 {
        "Bad Request"@
    } else if code == 401 {
        "Unauthorized"@
    } else if code == 403 {
        "Forbidden"@
    } else if code == 404 {
        "Not Found"@
    } else if code == 405 {
        "Method Not Allowed"@
    } else if code == 409 {
        "Conflict"@
    } else if code == 500 {
        "Internal Server Error"@
    } else {
        "Unknown"@
    }
}

/// The phrase that goes with a status code.
pub fn status_msg(status_code: u16) -> (r: &'static str)
    ensures
        r@ == reason(status_code),
{
    match status_code {
        200 => "OK",
        201 => "Created",
        204 => "No Content",
        400 => "Bad Request",
        401 => "Unauthorized",
        403 => "Forbidden",
        404 => "Not Found",
        405 => "Method Not Allowed",
        409 => "Conflict",
        500 => "Internal Server Error",
        _ => "Unknown",
    }
}

/// The first line of a response.
pub open spec fn status_line(code: u16) -> Seq<char> {
    "HTTP/1.1 "@ + decimal(code as nat) + " "@ + reason(code) + "\r\n"@
}

/// The bytes of a response.
pub open spec fn response_bytes(code: u16, headers: Seq<(Seq<char>, Seq<char>)>, body: Seq<u8>) -> Seq<u8> {
    message_bytes(status_line(code), headers, body)
}

/// Writes a response.
pub fn write_response(status_code: u16, headers: &[(String, String)], body: &[u8]) -> (r: Vec<u8>)
    ensures
        r@ == response_bytes(status_code, pairs(headers@), body@),
{
    let mut line = concat3("HTTP/1.1 ", &format_u64(status_code as u64), " ");
    line.append(status_msg(status_code));
    line.append("\r\n");
    write_message(&line, headers, body)
}

/// The headers of a short answer in plain text.
pub open spec fn text_headers() -> Seq<(Seq<char>, Seq<char>)> {
    seq![("Content-Type"@, "text/plain"@), ("Connection"@, "close"@)]
}

/// A header.
pub(crate) fn header(name: &str, value: &str) -> (r: (String, String))
    ensures
        (r.0@, r.1@) == (name@, value@),
{
    (name.to_owned(), value.to_owned())
}

/// Writes a short answer in plain text.
pub fn write_text(status_code: u16, body: &[u8]) -> (r: Vec<u8>)
    ensures
        r@ == response_bytes(status_code, text_headers(), body@),
{
    let mut headers: Vec<(String, String)> = Vec::new();
    headers.push(header("Content-Type", "text/plain"));
    headers.push(header("Connection", "close"));
    assert(pairs(headers@) =~= text_headers());
    write_response(status_code, &headers, body)
}

/// Whether a byte of a path is percent-encoded: controls, everything that is not
/// ASCII, the space and the characters `"#<>?` and `` `{} ``.
pub open spec fn path_byte_encoded(b: u8) -> bool {
    b < 32 || b >= 127 || b == 32 || b == 34 || b == 35 || b == 60 || b == 62 || b == 63 || b == 96 || b == 123 || b
        == 125
}

/// The text of a path byte.
pub open spec fn path_byte(b: u8) -> Seq<char> {
    if path_byte_encoded(b) {
        seq!['%', upper_hex(b as int / 16), upper_hex(b as int % 16)]
    } else {
        seq![b as char]
    }
}

/// The percent-encoded text of path bytes.
pub open spec fn path_bytes_encoded(b: Seq<u8>) -> Seq<char>
    decreases b.len(),
{
    if b.len() == 0 {
        Seq::empty()
    } else {
        path_bytes_encoded(b.drop_last()) + path_byte(b.last())
    }
}

/// A path with the bytes percent-encoded that a request line cannot hold.
pub open spec fn path_encoded(path: Seq<char>) -> Seq<char> {
    path_bytes_encoded(encode_utf8(path))
}

/// A path with the bytes percent-encoded that a request line cannot hold.
pub fn encode_path(path: &str) -> (r: String)
    ensures
        r@ == path_encoded(path@),
{
    let bytes = path.as_bytes();
    let mut out = String::new();
    let n: usize = bytes.len();
    let mut i: usize = 0;
    assert(bytes@.take(0).len() == 0);
    while i < n
        invariant
            i <= n == bytes@.len(),
            bytes@ == encode_utf8(path@),
            out@ == path_bytes_encoded(bytes@.take(i as int)),
        decreases n - i,
    {
        let b: u8 = bytes[i];
        assert(bytes@.take(i + 1).drop_last() =~= bytes@.take(i as int));
        assert(bytes@.take(i + 1).last() == b);
        if b < 32 || b >= 127 || b == 32 || b == 34 || b == 35 || b == 60 || b == 62 || b == 63 || b == 96 || b == 123
            || b == 125 {
            out.append(percent_encode_byte(b));
        } else {
            out.push(b as char);
            assert(out@ =~= path_bytes_encoded(bytes@.take(i as int)) + seq![b as char]);
        }
        i = i + 1;
    }
    assert(bytes@.take(n as int) =~= bytes@);
    out
}

/// The host of a URL as the `Host` header gives it.
pub open spec fn host_header(u: UrlPartsV) -> Option<Seq<char>> {
    match u.host {
        Some(host) => Some(
            match u.port {
                Some(port) => host + ":"@ + decimal(port as nat),
                None => host,
            },
        ),
        None => None,
    }
}

/// The target of a request line: the path, and the query if there is one.
pub open spec fn target_of(path: Seq<char>, query: Option<Seq<char>>) -> Seq<char> {
    match query {
        Some(q) => path_encoded(path) + "?"@ + path_encoded(q),
        None => path_encoded(path),
    }
}

/// The bytes of a request.
pub open spec fn request_bytes(
    host: Seq<char>,
    path: Seq<char>,
    query: Option<Seq<char>>,
    method: Seq<char>,
    headers: Seq<(Seq<char>, Seq<char>)>,
    body: Seq<u8>,
) -> Seq<u8> {
    message_bytes(method + " "@ + target_of(path, query) + " HTTP/1.1\r\n"@, headers.push(("Host"@, host)), body)
}

/// A copy of a list of headers.
pub(crate) fn copy_headers(headers: &[(String, String)]) -> (r: Vec<(String, String)>)
    ensures
        r@ == headers@,
{
    let mut out: Vec<(String, String)> = Vec::new();
    let n: usize = headers.len();
    let mut i: usize = 0;
    while i < n
        invariant
            i <= n == headers@.len(),
            out@ == headers@.take(i as int),
        decreases n - i,
    {
        out.push((headers[i].0.clone(), headers[i].1.clone()));
        i = i + 1;
    }
    assert(headers@.take(n as int) =~= headers@);
    out
}

/// Writes a request.
pub fn write_request(url: &UrlParts, method: &str, headers: &[(String, String)], body: &[u8]) -> (r: Result<
    Vec<u8>,
    Error,
>)
    ensures
        seen(r) == (match host_header(url@) {
            Some(host) => Ok(request_bytes(host, url@.path, url@.query, method@, pairs(headers@), body@)),
            None => Err(bare(Fault::UrlMissingHost)),
        }),
{
    let host = match &url.host {
        Some(h) => match url.port {
            Some(port) => concat3(h, ":", &format_u64(port as u64)),
            None => h.clone(),
        },
        None => {
            return Err(fail(Fault::UrlMissingHost));
        },
    };
    let mut target = encode_path(&url.path);
    if let Some(query) = &url.query {
        target.append("?");
        target.append(&encode_path(query));
    }
    let mut line = concat3(method, " ", &target);
    line.append(" HTTP/1.1\r\n");
    let mut list = copy_headers(headers);
    let ghost h = host@;
    list.push(("Host".to_owned(), host));
    assert(pairs(list@) =~= pairs(headers@).push(("Host"@, h)));
    Ok(write_message(&line, &list, body))
}

} // verus!
