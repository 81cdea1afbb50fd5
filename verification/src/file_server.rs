//! What the plain file server decides: a server without accounts, for files
//! below `/ark/`.

use vstd::prelude::*;
use vstd::utf8::{decode_utf8, encode_utf8, valid_utf8};

use crate::error::{bare, fail, seen, Error, ErrorV, Fault};
use crate::http::{
    header, header_lines, headers_in, line_len, line_length, read_headers, status_line, status_msg, write_head,
};
use crate::listing::{content_type, list_dir, listing, type_of, Layout};
use crate::membership::copy_error;
use crate::number::{decimal, format_u64, format_usize, parse_usize, parsed};
use crate::paths::{file_name, last_name, path_segments, segments};
use crate::primitives::{hex_value, is_hex, utf8_text};
use crate::server::{reads, Node, NodeV};
use crate::text::{
    append_bytes, before, concat3, copy_bytes, from_chars, lower, opt_bytes, opt_text, runs, same, same_ignoring_case,
    split, split_on, split_words, texts, to_chars, trim_front, trim_start, up_to, words, Trim,
};
use crate::types::pairs;

verus! {

// Targets.

/// Whether a target lies in `/ark/` with at least one more name.
pub open spec fn allowed(target: Seq<char>) -> bool {
    let names = segments(before(target, '?'));
    names.len() >= 2 && names[0] == "ark"@
}

/// Whether a target lies in `/ark/` with at least one more name.
pub fn is_allowed(target: &str) -> (r: bool)
    ensures
        r == allowed(target@),
{
    let names = path_segments(&up_to(target, '?'));
    assert(texts(names@).len() == names@.len());
    if names.len() < 2 {
        return false;
    }
    assert(texts(names@)[0] == names@[0]@);
    same(&names[0], "ark")
}

/// Whether a target is a directory right below `/ark/`.
pub open spec fn account_root(target: Seq<char>) -> bool {
    let names = segments(before(target, '?'));
    names.len() == 2 && names[0] == "ark"@
}

/// Whether a target is a directory right below `/ark/`.
pub fn is_ark_root(target: &str) -> (r: bool)
    ensures
        r == account_root(target@),
{
    let names = path_segments(&up_to(target, '?'));
    assert(texts(names@).len() == names@.len());
    if names.len() != 2 {
        return false;
    }
    assert(texts(names@)[0] == names@[0]@);
    same(&names[0], "ark")
}

/// One byte in front of others.
pub open spec fn cons(b: u8, rest: Option<Seq<u8>>) -> Option<Seq<u8>> {
    match rest {
        Some(list) => Some(seq![b] + list),
        None => None,
    }
}

/// Bytes with every `%` and two hexadecimal digits made the byte that they stand
/// for and every `+` a space. A `%` with two other bytes behind it is refused.
pub open spec fn unescaped(b: Seq<u8>) -> Option<Seq<u8>>
    decreases b.len(),
{
    if b.len() == 0 {
        Some(Seq::empty())
    } else if b[0] == 37 && b.len() >= 3 {
        if is_hex(b[1]) && is_hex(b[2]) {
            cons((hex_value(b[1]) * 16 + hex_value(b[2])) as u8, unescaped(b.skip(3)))
        } else {
            None
        }
    } else if b[0] == 43 {
        cons(32, unescaped(b.skip(1)))
    } else {
        cons(b[0], unescaped(b.skip(1)))
    }
}

/// Some bytes in front of others.
pub open spec fn prefixed(front: Seq<u8>, rest: Option<Seq<u8>>) -> Option<Seq<u8>> {
    match rest {
        Some(list) => Some(front + list),
        None => None,
    }
}

fn hex_digit(b: u8) -> (r: Option<u8>)
    ensures
        r is Some <==> is_hex(b),
        r matches Some(d) ==> d == hex_value(b) && d < 16,
{
    if 48 <= b && b <= 57 {
        Some(b - 48)
    } else if 65 <= b && b <= 70 {
        Some(b - 55)
    } else if 97 <= b && b <= 102 {
        Some(b - 87)
    } else {
        None
    }
}

fn unescape(b: &[u8]) -> (r: Option<Vec<u8>>)
    ensures
        opt_bytes(r) == unescaped(b@),
{
    let mut out: Vec<u8> = Vec::new();
    let n: usize = b.len();
    let mut i: usize = 0;
    proof {
        assert(b@.skip(0) =~= b@);
        if let Some(list) = unescaped(b@) {
            assert(out@ + list =~= list);
        }
    }
    while i < n
        invariant
            i <= n == b@.len(),
            unescaped(b@) == prefixed(out@, unescaped(b@.skip(i as int))),
        decreases n - i,
    {
        let ghost rest = b@.skip(i as int);
        let ghost earlier = out@;
        assert(rest[0] == b@[i as int]);
        if b[i] == 37 && n - i >= 3 {
            assert(rest[1] == b@[i + 1] && rest[2] == b@[i + 2]);
            match (hex_digit(b[i + 1]), hex_digit(b[i + 2])) {
                (Some(hi), Some(lo)) => {
                    out.push(hi * 16 + lo);
                    proof {
                        assert(rest.skip(3) =~= b@.skip(i + 3));
                        if let Some(list) = unescaped(b@.skip(i + 3)) {
                            assert(earlier + (seq![(hi * 16 + lo) as u8] + list) =~= out@ + list);
                        }
                    }
                    i = i + 3;
                },
                _ => {
                    return None;
                },
            }
        } else {
            let byte: u8 = if b[i] == 43 { 32 } else { b[i] };
            out.push(byte);
            proof {
                assert(rest.skip(1) =~= b@.skip(i + 1));
                if let Some(list) = unescaped(b@.skip(i + 1)) {
                    assert(earlier + (seq![byte] + list) =~= out@ + list);
                }
            }
            i = i + 1;
        }
    }
    assert(b@.skip(n as int).len() == 0);
    assert(out@ + Seq::<u8>::empty() =~= out@);
    Some(out)
}

/// A target decoded, when the result is text.
pub open spec fn target_decoded(s: Seq<char>) -> Option<Seq<char>> {
    match unescaped(encode_utf8(s)) {
        Some(b) => if valid_utf8(b) {
            Some(decode_utf8(b))
        } else {
            None
        },
        None => None,
    }
}

/// Decodes a target.
pub fn percent_decode(s: &str) -> (r: Option<String>)
    ensures
        opt_text(r) == target_decoded(s@),
{
    match unescape(s.as_bytes()) {
        Some(b) => utf8_text(&b),
        None => None,
    }
}

/// Whether a path climbs: one of its names is `..`.
pub open spec fn climbs(path: Seq<char>) -> bool {
    split(path, '/').contains(".."@)
}

/// The file that a target names, from the root of the server, unless the target
/// cannot be decoded or climbs.
pub open spec fn resolved(target: Seq<char>) -> Option<Seq<char>> {
    match target_decoded(before(target, '?')) {
        None => None,
        Some(path) => {
            let file = trim_front(path, Trim::Slash);
            if climbs(file) {
                None
            } else {
                Some(file)
            }
        },
    }
}

/// Finds the file that a target names.
pub fn resolve(target: &str) -> (r: Option<String>)
    ensures
        opt_text(r) == resolved(target@),
{
    let path = match percent_decode(&up_to(target, '?')) {
        Some(p) => to_chars(&p),
        None => {
            return None;
        },
    };
    let file = trim_start(&path, Trim::Slash);
    let parts = split_on(file, '/');
    let n: usize = parts.len();
    let mut i: usize = 0;
    let dots = to_chars("..");
    while i < n
        invariant
            i <= n == parts@.len(),
            dots@ == ".."@,
            file@ == trim_front(path@, Trim::Slash),
            runs(parts@) == split(file@, '/'),
            target_decoded(before(target@, '?')) == Some(path@),
            forall|k: int| 0 <= k < i ==> #[trigger] runs(parts@)[k] != ".."@,
        decreases n - i,
    {
        if crate::text::same_chars(&parts[i], &dots) {
            assert(runs(parts@)[i as int] == ".."@);
            return None;
        }
        i = i + 1;
    }
    assert(!climbs(file@)) by {
        assert(runs(parts@).len() == n);
    }
    Some(from_chars(file))
}

// Answers.

/// The bytes of a head with headers as they are.
pub open spec fn head_bytes(code: u16, headers: Seq<(Seq<char>, Seq<char>)>) -> Seq<u8> {
    encode_utf8(status_line(code) + header_lines(headers) + "\r\n"@)
}

fn write_start(code: u16, headers: &[(String, String)]) -> (r: Vec<u8>)
    ensures
        r@ == head_bytes(code, pairs(headers@)),
{
    let mut line = concat3("HTTP/1.1 ", &format_u64(code as u64), " ");
    line.append(status_msg(code));
    line.append("\r\n");
    let text = write_head(&line, headers);
    copy_bytes(text.as_str().as_bytes())
}

/// The headers of an answer with a type and a length.
pub open spec fn typed(kind: Seq<char>, length: nat) -> Seq<(Seq<char>, Seq<char>)> {
    seq![("Content-Type"@, kind), ("Content-Length"@, decimal(length)), ("Connection"@, "close"@)]
}

fn write_typed(code: u16, kind: &str, length: &str) -> (r: Vec<u8>)
    ensures
        r@ == head_bytes(
            code,
            seq![("Content-Type"@, kind@), ("Content-Length"@, length@), ("Connection"@, "close"@)],
        ),
{
    let mut headers: Vec<(String, String)> = Vec::new();
    headers.push(header("Content-Type", kind));
    headers.push(header("Content-Length", length));
    headers.push(header("Connection", "close"));
    assert(pairs(headers@) =~= seq![
        ("Content-Type"@, kind@),
        ("Content-Length"@, length@),
        ("Connection"@, "close"@),
    ]);
    write_start(code, &headers)
}

/// The bytes of a short answer in plain text.
pub open spec fn status_bytes(code: u16, text: Seq<char>) -> Seq<u8> {
    head_bytes(code, typed("text/plain"@, encode_utf8(text).len())) + encode_utf8(text)
}

/// Writes a short answer in plain text.
pub fn write_status(code: u16, text: &str) -> (r: Vec<u8>)
    ensures
        r@ == status_bytes(code, text@),
{
    let body = text.as_bytes();
    let mut out = write_typed(code, "text/plain", &format_usize(body.len()));
    append_bytes(&mut out, body);
    out
}

/// The bytes of an answer without a body.
pub open spec fn empty_bytes(code: u16) -> Seq<u8> {
    head_bytes(code, seq![("Content-Length"@, "0"@), ("Connection"@, "close"@)])
}

/// Writes an answer without a body.
pub fn write_empty(code: u16) -> (r: Vec<u8>)
    ensures
        r@ == empty_bytes(code),
{
    let mut headers: Vec<(String, String)> = Vec::new();
    headers.push(header("Content-Length", "0"));
    headers.push(header("Connection", "close"));
    assert(pairs(headers@) =~= seq![("Content-Length"@, "0"@), ("Connection"@, "close"@)]);
    write_start(code, &headers)
}

// Requests.

/// The last length that headers announce.
pub open spec fn last_length(headers: Seq<(Seq<char>, Seq<char>)>) -> nat
    decreases headers.len(),
{
    if headers.len() == 0 {
        0
    } else if lower(headers.last().0) == lower("content-length"@) {
        match parsed(headers.last().1, usize::MAX as nat) {
            Some(n) => n,
            None => 0,
        }
    } else {
        last_length(headers.drop_last())
    }
}

fn announced(headers: &[(String, String)]) -> (r: usize)
    ensures
        r == last_length(pairs(headers@)),
{
    let n: usize = headers.len();
    let mut i: usize = n;
    let ghost all = pairs(headers@);
    assert(all.take(n as int) =~= all);
    while i > 0
        invariant
            i <= n == headers@.len(),
            all == pairs(headers@),
            last_length(all.take(i as int)) == last_length(all),
        decreases i,
    {
        let ghost front = all.take(i as int);
        assert(front.last() == (headers@[i - 1].0@, headers@[i - 1].1@));
        assert(front.drop_last() =~= all.take(i - 1));
        if same_ignoring_case(&headers[i - 1].0, "content-length") {
            return match parse_usize(&to_chars(&headers[i - 1].1)) {
                Some(length) => length,
                None => 0,
            };
        }
        i = i - 1;
    }
    0
}

/// What the server does about a request.
#[derive(Debug)]
pub enum Plan {
    /// Close the connection.
    Nothing,
    /// Answer with these bytes.
    Answer { bytes: Vec<u8> },
    /// Answer with a file or listing, with the body if `send`.
    Get { file: String, send: bool },
    /// Write these bytes to the file.
    Put { file: String, body: Vec<u8> },
    /// Remove the file or directory.
    Delete { file: String },
}

/// The view of a plan.
pub enum PlanV {
    Nothing,
    Answer { bytes: Seq<u8> },
    Get { file: Seq<char>, send: bool },
    Put { file: Seq<char>, body: Seq<u8> },
    Delete { file: Seq<char> },
}

impl View for Plan {
    type V = PlanV;

    open spec fn view(&self) -> PlanV {
        match self {
            Plan::Nothing => PlanV::Nothing,
            Plan::Answer { bytes } => PlanV::Answer { bytes: bytes@ },
            Plan::Get { file, send } => PlanV::Get { file: file@, send: *send },
            Plan::Put { file, body } => PlanV::Put { file: file@, body: body@ },
            Plan::Delete { file } => PlanV::Delete { file: file@ },
        }
    }
}

/// What is done about a request with a method, a target and a body.
pub open spec fn chosen(method: Seq<char>, target: Seq<char>, body: Seq<u8>) -> PlanV {
    if !allowed(target) {
        PlanV::Answer { bytes: status_bytes(403, "forbidden"@) }
    } else if account_root(target) && !reads(method) {
        PlanV::Answer { bytes: status_bytes(405, "method not allowed"@) }
    } else {
        match resolved(target) {
            None => PlanV::Answer { bytes: status_bytes(400, "bad path"@) },
            Some(file) => if method == "GET"@ {
                PlanV::Get { file, send: true }
            } else if method == "HEAD"@ {
                PlanV::Get { file, send: false }
            } else if method == "PUT"@ {
                PlanV::Put { file, body }
            } else if method == "DELETE"@ {
                PlanV::Delete { file }
            } else {
                PlanV::Answer { bytes: status_bytes(405, "method not allowed"@) }
            },
        }
    }
}

/// Decides about a request with a method, a target and a body.
pub fn choose_plan(method: &str, target: &str, body: Vec<u8>) -> (r: Plan)
    ensures
        r@ == chosen(method@, target@, body@),
{
    if !is_allowed(target) {
        return Plan::Answer { bytes: write_status(403, "forbidden") };
    }
    let get = same(method, "GET");
    let head = same(method, "HEAD");
    if is_ark_root(target) && !get && !head {
        return Plan::Answer { bytes: write_status(405, "method not allowed") };
    }
    let file = match resolve(target) {
        Some(f) => f,
        None => {
            return Plan::Answer { bytes: write_status(400, "bad path") };
        },
    };
    if get {
        Plan::Get { file, send: true }
    } else if head {
        Plan::Get { file, send: false }
    } else if same(method, "PUT") {
        Plan::Put { file, body }
    } else if same(method, "DELETE") {
        Plan::Delete { file }
    } else {
        Plan::Answer { bytes: write_status(405, "method not allowed") }
    }
}

/// The body behind a head: as many bytes as were announced, or all that came.
pub open spec fn body_behind(rest: Seq<u8>, length: nat) -> Seq<u8> {
    if length < rest.len() {
        rest.take(length as int)
    } else {
        rest
    }
}

/// What is done about the bytes that came over a connection.
pub open spec fn planned(b: Seq<u8>) -> Result<PlanV, ErrorV> {
    let n = line_len(b) as int;
    if b.len() == 0 {
        Ok(PlanV::Nothing)
    } else if !valid_utf8(b.take(n)) {
        Err(bare(Fault::LineNotUtf8))
    } else {
        let line = words(decode_utf8(b.take(n)));
        if line.len() != 3 {
            Ok(PlanV::Answer { bytes: status_bytes(400, "bad request line"@) })
        } else {
            match headers_in(b.skip(n)) {
                Err(e) => Err(e),
                Ok((headers, used)) => Ok(
                    chosen(line[0], line[1], body_behind(b.skip(n + used), last_length(headers))),
                ),
            }
        }
    }
}

/// Decides about the bytes that came over a connection.
pub fn handle(bytes: &[u8]) -> (r: Result<Plan, Error>)
    ensures
        seen(r) == planned(bytes@),
{
    let n: usize = bytes.len();
    if n == 0 {
        return Ok(Plan::Nothing);
    }
    assert(bytes@.skip(0) =~= bytes@);
    let length: usize = line_length(bytes, 0);
    assert(bytes@.subrange(0, length as int) =~= bytes@.take(length as int));
    let line = match utf8_text(vstd::slice::slice_subrange(bytes, 0, length)) {
        Some(t) => t,
        None => {
            return Err(fail(Fault::LineNotUtf8));
        },
    };
    let parts = split_words(&to_chars(&line));
    assert(runs(parts@).len() == parts@.len());
    if parts.len() != 3 {
        return Ok(Plan::Answer { bytes: write_status(400, "bad request line") });
    }
    assert(runs(parts@)[0] == parts@[0]@ && runs(parts@)[1] == parts@[1]@);
    let (headers, at) = match read_headers(bytes, length) {
        Ok(h) => h,
        Err(e) => {
            return Err(e);
        },
    };
    let wanted: usize = announced(&headers);
    let end: usize = if wanted < n - at {
        at + wanted
    } else {
        n
    };
    let body = copy_bytes(vstd::slice::slice_subrange(bytes, at, end));
    assert(body@ =~= body_behind(bytes@.skip(at as int), wanted as nat));
    Ok(choose_plan(&from_chars(&parts[0]), &from_chars(&parts[1]), body))
}

/// What is sent of a file or directory.
#[derive(Debug)]
pub enum Sent {
    /// These bytes.
    Answer { bytes: Vec<u8> },
    /// This head, and then the file if `send`.
    File { head: Vec<u8>, send: bool },
    /// Nothing: the connection is closed.
    Fail { error: Error },
}

/// The view of what is sent.
pub enum SentV {
    Answer { bytes: Seq<u8> },
    File { head: Seq<u8>, send: bool },
    Fail { error: ErrorV },
}

impl View for Sent {
    type V = SentV;

    open spec fn view(&self) -> SentV {
        match self {
            Sent::Answer { bytes } => SentV::Answer { bytes: bytes@ },
            Sent::File { head, send } => SentV::File { head: head@, send: *send },
            Sent::Fail { error } => SentV::Fail { error: error@ },
        }
    }
}

/// What is sent of what stands at a path.
pub open spec fn fetched(node: NodeV, file: Seq<char>, send: bool) -> SentV {
    match node {
        NodeV::Missing => SentV::Answer { bytes: status_bytes(404, "not found"@) },
        NodeV::Dir { entries } => match entries {
            Err(error) => SentV::Fail { error },
            Ok(list) => {
                let body = encode_utf8(listing(list, Layout::Plain));
                let head = head_bytes(200, typed("application/json"@, body.len()));
                SentV::Answer {
                    bytes: if send {
                        head + body
                    } else {
                        head
                    },
                }
            },
        },
        NodeV::File { size } => SentV::File {
            head: head_bytes(200, typed(type_of(file_name(file)), size as nat)),
            send,
        },
    }
}

/// Decides what is sent of what stands at a path.
pub fn serve_get(node: &Node, file: &str, send_body: bool) -> (r: Sent)
    ensures
        r@ == fetched(node@, file@, send_body),
{
    match node {
        Node::Missing => Sent::Answer { bytes: write_status(404, "not found") },
        Node::Dir { entries } => match entries {
            Err(e) => Sent::Fail { error: copy_error(e) },
            Ok(list) => {
                let text = list_dir(list, Layout::Plain);
                let body = text.as_str().as_bytes();
                let mut out = write_typed(200, "application/json", &format_usize(body.len()));
                if send_body {
                    append_bytes(&mut out, body);
                }
                Sent::Answer { bytes: out }
            },
        },
        Node::File { size } => {
            let name = last_name(file);
            Sent::File { head: write_typed(200, content_type(&name), &format_u64(*size)), send: send_body }
        },
    }
}

/// The answer to a file that was written.
pub fn serve_put(existed: bool) -> (r: Vec<u8>)
    ensures
        r@ == empty_bytes(
            if existed {
                204
            } else {
                201
            },
        ),
{
    if existed {
        write_empty(204)
    } else {
        write_empty(201)
    }
}

/// Decides about removing what stands at a path: how, or the answer that there
/// is nothing.
pub fn serve_delete(node: &Node) -> (r: Result<bool, Vec<u8>>)
    ensures
        match node@ {
            NodeV::Missing => r matches Err(bytes) && bytes@ == status_bytes(404, "not found"@),
            NodeV::Dir { entries } => r == Ok::<bool, Vec<u8>>(true),
            NodeV::File { size } => r == Ok::<bool, Vec<u8>>(false),
        },
{
    match node {
        Node::Missing => Err(write_status(404, "not found")),
        Node::Dir { entries } => Ok(true),
        Node::File { size } => Ok(false),
    }
}

/// The answer once removing was tried.
pub fn deleted(done: bool) -> (r: Vec<u8>)
    ensures
        r@ == (if done {
            empty_bytes(204)
        } else {
            status_bytes(500, "delete failed"@)
        }),
{
    if done {
        write_empty(204)
    } else {
        write_status(500, "delete failed")
    }
}

// Laws.

/// No target leads out of the directory that is served: the file has no `..`
/// among its names and does not start at the root of the file system.
pub proof fn targets_stay_inside(target: Seq<char>)
    ensures
        resolved(target) matches Some(file) ==> !climbs(file) && (file.len() > 0 ==> file[0] != '/'),
{
    if let Some(path) = target_decoded(before(target, '?')) {
        crate::text::lemma_trim_front(path, Trim::Slash);
    }
}

/// Only a request below `/ark/<name>/` writes or removes anything.
pub proof fn only_allowed_targets_change(method: Seq<char>, target: Seq<char>, body: Seq<u8>)
    requires
        chosen(method, target, body) is Put || chosen(method, target, body) is Delete,
    ensures
        allowed(target),
        !account_root(target),
{
    reveal_strlit("PUT");
    reveal_strlit("DELETE");
    reveal_strlit("GET");
    reveal_strlit("HEAD");
    assert("PUT"@.len() == 3 && "DELETE"@.len() == 6 && "GET"@.len() == 3 && "HEAD"@.len() == 4);
    assert("PUT"@[0] != "GET"@[0]);
}

} // verus!
