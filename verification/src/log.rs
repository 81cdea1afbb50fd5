//! The log of requests that an account keeps.

use vstd::prelude::*;
use vstd::utf8::{decode_utf8, encode_utf8, valid_utf8};

use crate::crypto::{json_signed, keys_match, DEFAULT_ENCRYPTION_ALGORITHM};
use crate::error::{bare, fail, seen, Error, ErrorV, Fault};
use crate::http::{
    blank_line, head_end, headers_in, lemma_line_len, line_len, line_length, message_complete, message_in,
    message_is_complete, read_headers, read_request, read_response, request_read, response_bytes, response_read,
    write_response, RequestV,
};
use crate::json::metadata_json;
use crate::metadata::{create_metadata, hash_of, metadata_verified, new_metadata, sign_metadata, unsigned};
use crate::number::{decimal, format_u64, is_digit, lemma_decimal};
use crate::primitives::{percent_decode_text, percent_decoded, utf8_text};
use crate::text::{
    append_bytes, concat3, copy_bytes, from_chars, lemma_first_is, opt_bytes, runs, same, split_words, to_chars,
    trim_back, words, Trim,
};
use crate::timestamp::{format_fs_safe, fs_safe};
use crate::types::{pairs, Context, Member, MemberV, Metadata, MetadataV, Permission, Tagged};
use crate::wire::{lemma_line_len_is, response_round_trip};

verus! {

/// A request in the log, with the status that it was answered with.
#[derive(Debug)]
pub struct LogEntry {
    pub method: String,
    pub target: String,
    pub request_headers: Vec<(String, String)>,
    pub status: u16,
}

/// The view of a request in the log.
#[verifier::ext_equal]
pub struct LogEntryV {
    pub method: Seq<char>,
    pub target: Seq<char>,
    pub request_headers: Seq<(Seq<char>, Seq<char>)>,
    pub status: u16,
}

impl View for LogEntry {
    type V = LogEntryV;

    open spec fn view(&self) -> LogEntryV {
        LogEntryV {
            method: self.method@,
            target: self.target@,
            request_headers: pairs(self.request_headers@),
            status: self.status,
        }
    }
}

/// The request that a log entry holds: the head of the request, and behind it the
/// head of the response.
pub open spec fn entry_in(b: Seq<u8>) -> Result<LogEntryV, ErrorV> {
    let n = line_len(b) as int;
    if b.len() == 0 {
        Err(bare(Fault::EmptyMessage))
    } else if !valid_utf8(b.take(n)) {
        Err(bare(Fault::LineNotUtf8))
    } else {
        match headers_in(b.skip(n)) {
            Err(e) => Err(e),
            Ok((request_headers, used)) => {
                let line = words(decode_utf8(b.take(n)));
                if line.len() != 3 {
                    Err(bare(Fault::BadRequestLine))
                } else {
                    match percent_decoded(line[1]) {
                        None => Err(bare(Fault::InvalidPath)),
                        Some(target) => match response_read(b.skip(n + used), true) {
                            Err(e) => Err(e),
                            Ok(response) => Ok(
                                LogEntryV { method: line[0], target, request_headers, status: response.status },
                            ),
                        },
                    }
                }
            },
        }
    }
}

/// Reads a log entry.
pub fn parse_request_entry(bytes: &[u8]) -> (r: Result<LogEntry, Error>)
    ensures
        seen(r) == entry_in(bytes@),
{
    let n: usize = bytes.len();
    if n == 0 {
        return Err(fail(Fault::EmptyMessage));
    }
    assert(bytes@.skip(0) =~= bytes@);
    let length: usize = line_length(bytes, 0);
    assert(bytes@.subrange(0, length as int) =~= bytes@.take(length as int));
    let line = match utf8_text(vstd::slice::slice_subrange(bytes, 0, length)) {
        Some(t) => t,
        None => {
            return Err(fail(Fault::LineNotUtf8));
        },
    };
    let (request_headers, at) = match read_headers(bytes, length) {
        Ok(h) => h,
        Err(e) => {
            return Err(e);
        },
    };
    let parts = split_words(&to_chars(&line));
    assert(runs(parts@).len() == parts@.len());
    if parts.len() != 3 {
        return Err(fail(Fault::BadRequestLine));
    }
    assert(runs(parts@)[0] == parts@[0]@ && runs(parts@)[1] == parts@[1]@);
    let target = match percent_decode_text(&from_chars(&parts[1])) {
        Some(t) => t,
        None => {
            return Err(fail(Fault::InvalidPath));
        },
    };
    let rest = vstd::slice::slice_subrange(bytes, at, n);
    assert(rest@ =~= bytes@.skip(at as int));
    match read_response(rest, true) {
        Ok(response) => Ok(
            LogEntry { method: from_chars(&parts[0]), target, request_headers, status: response.status },
        ),
        Err(e) => Err(e),
    }
}

// Recording.

/// The name of the log entry for a request with a method that was answered with a
/// status at a time.
pub open spec fn entry_name_of(method: Seq<char>, status: u16, stamp: Seq<char>) -> Seq<char> {
    method + "_"@ + decimal(status as nat) + "_"@ + stamp + ".http"@
}

/// The name of a log entry.
pub fn entry_name(method: &str, status: u16, stamp: &str) -> (r: String)
    ensures
        r@ == entry_name_of(method@, status, stamp@),
{
    let mut out = concat3(method, "_", &format_u64(status as u64));
    out.append("_");
    out.append(stamp);
    out.append(".http");
    out
}

/// The bytes of the log entry for a request that was answered with a status: the
/// head of the request as it came, and behind it the head of a response. A request
/// without a whole head is not recorded.
pub open spec fn entry_bytes(b: Seq<u8>, status: u16) -> Option<Seq<u8>> {
    let n = line_len(b) as int;
    if message_complete(b, true) {
        match headers_in(b.skip(n)) {
            Ok((_, used)) => Some(b.take(n + used) + response_bytes(status, Seq::empty(), Seq::empty())),
            Err(_) => None,
        }
    } else {
        None
    }
}

/// Writes a log entry.
pub fn write_request_entry(bytes: &[u8], status: u16) -> (r: Option<Vec<u8>>)
    ensures
        opt_bytes(r) == entry_bytes(bytes@, status),
{
    if !message_is_complete(bytes, true) {
        return None;
    }
    assert(bytes@.skip(0) =~= bytes@);
    let length: usize = line_length(bytes, 0);
    match read_headers(bytes, length) {
        Ok((_, at)) => {
            let mut out = copy_bytes(vstd::slice::slice_subrange(bytes, 0, at));
            assert(out@ =~= bytes@.take(at as int));
            let none: [(String, String); 0] = [];
            let empty: [u8; 0] = [];
            let answer = write_response(status, &none, &empty);
            assert(pairs(none@) =~= Seq::empty());
            assert(empty@ =~= Seq::empty());
            append_bytes(&mut out, &answer);
            Some(out)
        },
        Err(_) => None,
    }
}

/// The metadata of a log entry before it is signed: the server owns it, and so does
/// the account.
pub open spec fn entry_metadata(
    id: Seq<char>,
    now: Seq<char>,
    server: Seq<char>,
    account: Seq<char>,
    body: Seq<u8>,
) -> MetadataV {
    let fresh = new_metadata(id, now, server, None);
    MetadataV {
        members: fresh.members.push(MemberV { address: account, permission: Permission::Owner, key: None }),
        body_hash: hash_of(Some(body)),
        ..fresh
    }
}

/// A log entry, as it is written to the account.
#[derive(Debug)]
pub struct Record {
    pub name: String,
    pub body: Vec<u8>,
    pub metadata: Metadata,
}

/// The log entry of a request, if one is written: of every request to write.
pub open spec fn recorded(b: Seq<u8>, status: u16) -> Option<Seq<u8>> {
    match request_read(b, true) {
        Ok(request) => if request.method == "PUT"@ {
            entry_bytes(b, status)
        } else {
            None
        },
        Err(_) => None,
    }
}

/// Records a request to write that was answered with a status, in the log of the
/// account that it is for. The server signs the entry: whoever knows it by a
/// matching public key accepts it.
///
/// The secret key of the server's account must be there.
pub fn record_request(server: &Context, account: &str, bytes: &[u8], status: u16, now: &str) -> (r: Result<
    Option<Record>,
    Error,
>)
    requires
        server@.identity_key is Some,
    ensures
        match recorded(bytes@, status) {
            None => r matches Ok(record) && record is None,
            Some(body) => match r {
                Ok(Some(record)) => {
                    let fresh = entry_metadata(
                        record.metadata@.id,
                        now@,
                        server@.identity.address,
                        account@,
                        body,
                    );
                    &&& record.name@ == entry_name_of("PUT"@, status, fs_safe(now@))
                    &&& record.body@ == body
                    &&& record.metadata@ == MetadataV { signature: record.metadata@.signature, ..fresh }
                    &&& json_signed(server@.identity_key->0, metadata_json(unsigned(fresh))) == Ok::<Tagged, ErrorV>(
                        record.metadata@.signature,
                    )
                },
                Ok(None) => false,
                Err(e) => exists|id: Seq<char>|
                    json_signed(
                        server@.identity_key->0,
                        metadata_json(
                            unsigned(
                                #[trigger] entry_metadata(id, now@, server@.identity.address, account@, body),
                            ),
                        ),
                    ) == Err::<Tagged, ErrorV>(e@),
            },
        },
        r matches Ok(Some(record)) ==> forall|public: Tagged|
            public.algorithm != DEFAULT_ENCRYPTION_ALGORITHM@ && #[trigger] keys_match(
                server@.identity_key->0,
                public,
            ) ==> metadata_verified(public, record.metadata@, Some(record.body@)) is Ok,
{
    let put = match read_request(bytes, true) {
        Ok(request) => same(&request.method, "PUT"),
        Err(_) => false,
    };
    if !put {
        return Ok(None);
    }
    let body = match write_request_entry(bytes, status) {
        Some(b) => b,
        None => {
            return Ok(None);
        },
    };
    let secret = match &server.identity_key {
        Some(k) => k,
        None => {
            return Err(fail(Fault::SecretKeySize));
        },
    };
    let mut metadata = create_metadata(&server.identity.address, None, now);
    let ghost id = metadata@.id;
    metadata.members.push(Member { address: account.to_owned(), permission: Permission::Owner, key: None });
    proof {
        let expected = entry_metadata(id, now@, server@.identity.address, account@, body@);
        assert(metadata@.members =~= expected.members);
        assert(MetadataV { body_hash: hash_of(Some(body@)), ..metadata@ } =~= expected);
    }
    match sign_metadata(secret, &mut metadata, Some(&body)) {
        Ok(()) => Ok(Some(Record { name: entry_name("PUT", status, &format_fs_safe(now)), body, metadata })),
        Err(e) => Err(e),
    }
}

// Laws.

proof fn lemma_blank(line: Seq<u8>)
    requires
        blank_line(line),
    ensures
        valid_utf8(line),
        trim_back(decode_utf8(line), Trim::LineEnd).len() == 0,
{
    broadcast use vstd::utf8::encode_utf8_valid_utf8;
    broadcast use vstd::utf8::encode_utf8_decode_utf8;

    let text = Seq::new(line.len(), |i: int| line[i] as char);
    assert forall|i: int| 0 <= i < text.len() implies (#[trigger] text[i] == '\r' || text[i] == '\n') by {
        assert(line[i] == 13 || line[i] == 10);
    }
    assert(vstd::utf8::is_ascii_chars(text));
    vstd::utf8::is_ascii_chars_encode_utf8(text);
    assert(encode_utf8(text) =~= line);
    lemma_trimmed_away(text);
}

proof fn lemma_trimmed_away(text: Seq<char>)
    requires
        forall|i: int| 0 <= i < text.len() ==> (#[trigger] text[i] == '\r' || text[i] == '\n'),
    ensures
        trim_back(text, Trim::LineEnd).len() == 0,
    decreases text.len(),
{
    if text.len() > 0 {
        assert(text[text.len() - 1] == '\r' || text[text.len() - 1] == '\n');
        lemma_trimmed_away(text.drop_last());
    }
}

/// Headers that have ended are read the same, whatever follows them.
proof fn lemma_ended_headers(b: Seq<u8>, rest: Seq<u8>)
    requires
        head_end(b) is Some,
        headers_in(b) is Ok,
    ensures
        ({
            let used = headers_in(b)->Ok_0.1 as int;
            &&& used <= b.len()
            &&& headers_in(b.take(used) + rest) == headers_in(b)
        }),
    decreases b.len(),
{
    let n = line_len(b) as int;
    let used = headers_in(b)->Ok_0.1 as int;
    lemma_line_len(b);
    let line = trim_back(decode_utf8(b.take(n)), Trim::LineEnd);
    if blank_line(b.take(n)) {
        lemma_blank(b.take(n));
    }
    if line.len() > 0 {
        let after = b.skip(n);
        lemma_ended_headers(after, rest);
        let more = headers_in(after)->Ok_0.1 as int;
        assert((b.take(used) + rest).skip(n) =~= after.take(more) + rest);
    }
    let whole = b.take(used) + rest;
    assert(whole.take(n) =~= b.take(n));
    assert forall|k: int| 0 <= k < n - 1 implies whole[k] != 10 by {
        assert(whole[k] == b[k]);
    }
    assert(whole[n - 1] == b[n - 1]);
    lemma_line_len_is(whole, n);
}

/// A request in the log is read back as the server read it, with the status that
/// it was answered with.
pub proof fn logged_request_is_read_back(b: Seq<u8>, status: u16, request: RequestV)
    requires
        request_read(b, true) matches Ok(r) && r == request,
        entry_bytes(b, status) is Some,
    ensures
        entry_in(entry_bytes(b, status)->0) == Ok::<LogEntryV, ErrorV>(
            LogEntryV {
                method: request.method,
                target: request.target,
                request_headers: request.headers,
                status,
            },
        ),
{
    let n = line_len(b) as int;
    let answer = response_bytes(status, Seq::empty(), Seq::empty());
    let e = entry_bytes(b, status)->0;
    let after = b.skip(n);
    let used = headers_in(after)->Ok_0.1 as int;
    lemma_line_len(b);
    lemma_ended_headers(after, answer);
    assert(e.take(n) =~= b.take(n));
    assert forall|k: int| 0 <= k < n - 1 implies e[k] != 10 by {
        assert(e[k] == b[k]);
    }
    assert(e[n - 1] == b[n - 1]);
    lemma_line_len_is(e, n);
    assert(e.skip(n) =~= after.take(used) + answer);
    assert(e.skip(n + used) =~= answer);
    response_round_trip(status, Seq::empty(), Seq::empty(), false);
    assert(message_in(answer, true) is Ok);
}

/// The name of a log entry tells when it was written.
pub proof fn entry_names_tell_the_time(method: Seq<char>, status: u16, time: Seq<char>)
    requires
        forall|i: int| 0 <= i < method.len() ==> #[trigger] method[i] != '_',
    ensures
        crate::sync::stamp(entry_name_of(method, status, time)) == time + ".http"@,
{
    reveal_strlit("_");
    let number = decimal(status as nat);
    lemma_decimal(status as nat);
    let name = entry_name_of(method, status, time);
    let rest = number + "_"@ + time + ".http"@;
    let m = method.len() as int;
    let k = number.len() as int;
    lemma_first_is(name, '_', m);
    assert(name.skip(m + 1) =~= rest);
    assert forall|i: int| 0 <= i < k implies rest[i] != '_' by {
        assert(rest[i] == number[i]);
        assert(is_digit(number[i]));
    }
    lemma_first_is(rest, '_', k);
    assert(rest.skip(k + 1) =~= time + ".http"@);
}

} // verus!
