//! What holds of every request that is made, and of how it is understood.

use vstd::prelude::*;
use vstd::utf8::{encode_scalar, encode_utf8};

use crate::auth::{
    ark_request_bytes, auth_params, authorization, claim_in, last_value, params_in, signing_bytes, CallV,
};
use crate::crypto::signed;
use crate::download::{listing_url, plain_request};
use crate::error::{ErrorV, Fault};
use crate::file_server::{chosen, last_length, planned, status_bytes, typed, PlanV};
use crate::http::{content_length, header_lines, host_header, line_len, request_bytes, request_in, response_read, status_line, MessageV};
use crate::listing::{type_of, type_of_extension, EntryV};
use crate::locate::{client_url, located};
use crate::number::{decimal, lemma_decimal};
use crate::primitives::{
    form_byte, form_byte_kept, form_bytes, percent_decoded, percent_unescaped, upper_hex, url_parts, UrlPartsV,
};
use crate::server::{asked_prefix, only_metadata, plus_to_space, routed};
use crate::text::{cut, lower, split, trim, words, Trim};
use crate::types::{ContextV, Tagged};
use crate::upload::upload_query;
use crate::watch::{action_name, remote_event, watch_bytes, EntryEventV};
use crate::events::EventV;
use crate::wire::{all_clean, encode_concat, lemma_hex_byte, lemma_high_bytes, lemma_line, lemma_message, lemma_status_line, lemma_written_headers};

verus! {

// Requests of an account.

/// A request in the name of an account carries its address, the time and its signature
/// over the method, the host, the path and the body, beside the headers that are given;
/// one in nobody's name carries those alone.
#[verifier::rlimit(40)]
pub proof fn requests_carry_their_signature(
    ctx: ContextV,
    method: Seq<char>,
    url: UrlPartsV,
    headers: Seq<(Seq<char>, Seq<char>)>,
    body: Seq<u8>,
    timestamp: nat,
    host: Seq<char>,
    signature: Tagged,
)
    requires
        host_header(url) == Some(host),
        signed(
            ctx.identity_key->0,
            signing_bytes(CallV { method, host, path: url.path, body }, timestamp),
        ) == Ok::<Tagged, ErrorV>(signature),
    ensures
        ark_request_bytes(Some(ctx), method, url, headers, body, timestamp) == Ok::<Seq<u8>, ErrorV>(
            request_bytes(
                host,
                url.path,
                url.query,
                method,
                headers + seq![
                    ("Authorization"@, authorization(ctx.identity.address, timestamp, signature.value)),
                    ("Connection"@, "close"@),
                ],
                body,
            ),
        ),
        ark_request_bytes(None, method, url, headers, body, timestamp) == Ok::<Seq<u8>, ErrorV>(
            request_bytes(host, url.path, url.query, method, headers + seq![("Connection"@, "close"@)], body),
        ),
{
    let value = authorization(ctx.identity.address, timestamp, signature.value);
    assert(headers.push(("Authorization"@, value)).push(("Connection"@, "close"@)) =~= headers + seq![
        ("Authorization"@, value),
        ("Connection"@, "close"@),
    ]);
    assert(headers.push(("Connection"@, "close"@)) =~= headers + seq![("Connection"@, "close"@)]);
}

/// No request is made without a host, nor in the name of an account that cannot sign it.
#[verifier::rlimit(40)]
pub proof fn requests_need_a_host(
    ctx: ContextV,
    method: Seq<char>,
    url: UrlPartsV,
    headers: Seq<(Seq<char>, Seq<char>)>,
    body: Seq<u8>,
    timestamp: nat,
)
    ensures
        url.host is None ==> (ark_request_bytes(Some(ctx), method, url, headers, body, timestamp) matches Err(e)
            && e.fault == Fault::UrlMissingHost) && ark_request_bytes(None, method, url, headers, body, timestamp) is Err,
        url.host is Some ==> (ark_request_bytes(Some(ctx), method, url, headers, body, timestamp) is Ok <==> signed(
            ctx.identity_key->0,
            signing_bytes(CallV { method, host: host_header(url)->0, path: url.path, body }, timestamp),
        ) is Ok) && ark_request_bytes(None, method, url, headers, body, timestamp) is Ok,
{
}

/// A plain request about a path is signed, has no body and goes where the path leads; one
/// for events asks for them and is signed as a `GET`.
pub proof fn plain_requests_go_to_the_path(ctx: ContextV, method: Seq<char>, path: Seq<char>, timestamp: nat)
    ensures
        match client_url(ctx.identity.address, path) {
            Ok(url) => plain_request(ctx, method, path, timestamp) == ark_request_bytes(
                Some(ctx),
                method,
                url,
                Seq::empty(),
                Seq::empty(),
                timestamp,
            ) && (host_header(url) matches Some(host) ==> (match signed(
                ctx.identity_key->0,
                signing_bytes(CallV { method: "GET"@, host, path: url.path, body: Seq::empty() }, timestamp),
            ) {
                Ok(signature) => watch_bytes(ctx, path, timestamp) == Ok::<Seq<u8>, ErrorV>(
                    request_bytes(
                        host,
                        url.path,
                        url.query,
                        "GET"@,
                        seq![
                            ("Authorization"@, authorization(ctx.identity.address, timestamp, signature.value)),
                            ("Accept"@, "text/event-stream"@),
                        ],
                        Seq::empty(),
                    ),
                ),
                Err(_) => watch_bytes(ctx, path, timestamp) is Err,
            })),
            Err(e) => plain_request(ctx, method, path, timestamp) is Err && watch_bytes(ctx, path, timestamp) is Err,
        },
{
}

/// The URL of a path is the one that is written for it, with the port that is given, even
/// where that is the usual one.
#[verifier::rlimit(40)]
pub proof fn ports_are_kept(account: Seq<char>, path: Seq<char>, plain: bool, rest: Seq<char>)
    requires
        located(account, path) == Ok::<(bool, Seq<char>), ErrorV>((plain, rest)),
    ensures
        ({
            let text = (if plain {
                "http://"@
            } else {
                "https://"@
            }) + rest;
            let other = (if plain {
                "https://"@
            } else {
                "http://"@
            }) + rest;
            match url_parts(text) {
                None => client_url(account, path) is Err,
                Some(u) => match client_url(account, path) {
                    Ok(v) => v.host == u.host && v.path == u.path && v.query == u.query && v.username == u.username && (
                    u.port is Some ==> v.port == u.port) && (u.port is None ==> v.port == (match url_parts(other) {
                        Some(w) => w.port,
                        None => None,
                    })),
                    Err(_) => false,
                },
            }
        }),
{
}

/// The parts of an `Authorization` header are read one by one: each is a name and a value
/// around its first `=`, without spaces and quotes around them. A part without one makes
/// the header unreadable.
pub proof fn header_parts_are_read_in_turn(a: Seq<Seq<char>>, b: Seq<Seq<char>>)
    ensures
        params_in(a + b) == (match (params_in(a), params_in(b)) {
            (Some(x), Some(y)) => Some(x + y),
            _ => None,
        }),
        forall|part: Seq<char>| #[trigger]
            params_in(seq![part]) == (match cut(trim(part, Trim::Space), '=') {
                Some((k, v)) => Some(seq![(lower(trim(k, Trim::Space)), trim(trim(v, Trim::Space), Trim::Quote))]),
                None => None,
            }),
    decreases b.len(),
{
    if b.len() == 0 {
        assert(a + b =~= a);
        if let Some(x) = params_in(a) {
            assert(x + Seq::<(Seq<char>, Seq<char>)>::empty() =~= x);
        }
    } else {
        let whole = a + b;
        assert(whole.drop_last() =~= a + b.drop_last());
        assert(whole.last() == b.last());
        header_parts_are_read_in_turn(a, b.drop_last());
        if let (Some(x), Some(y)) = (params_in(a), params_in(b)) {
            assert(params_in(whole)->0 =~= x + y);
        }
    }
    assert forall|part: Seq<char>| #[trigger]
        params_in(seq![part]) == (match cut(trim(part, Trim::Space), '=') {
            Some((k, v)) => Some(seq![(lower(trim(k, Trim::Space)), trim(trim(v, Trim::Space), Trim::Quote))]),
            None => None,
        }) by {
        let one = seq![part];
        assert(one.drop_last() =~= Seq::empty());
        assert(params_in(one.drop_last()) == Some(Seq::<(Seq<char>, Seq<char>)>::empty()));
        if let Some((k, v)) = cut(trim(part, Trim::Space), '=') {
            assert(params_in(one)->0 =~= seq![(lower(trim(k, Trim::Space)), trim(trim(v, Trim::Space), Trim::Quote))]);
        }
    }
}

// What is asked for.

proof fn lemma_ascii(c: char)
    requires
        (c as u32) < 128,
    ensures
        encode_utf8(seq![c]) == seq![c as u8],
{
    let s = seq![c];
    lemma_high_bytes(c as u32);
    assert(s.drop_first() =~= Seq::<char>::empty());
    assert(encode_utf8(s.drop_first()) =~= Seq::<u8>::empty());
    assert(encode_scalar(c as u32) =~= seq![c as u8]);
    assert(encode_utf8(s) =~= seq![c as u8]);
}

proof fn lemma_form_front(b: Seq<u8>)
    requires
        b.len() > 0,
    ensures
        form_bytes(b) == form_byte(b[0]) + form_bytes(b.skip(1)),
    decreases b.len(),
{
    if b.len() == 1 {
        assert(b.drop_last() =~= Seq::empty());
        assert(b.skip(1) =~= Seq::empty());
        assert(form_bytes(b) =~= form_byte(b[0]) + form_bytes(b.skip(1)));
    } else {
        lemma_form_front(b.drop_last());
        assert(b.skip(1).drop_last() =~= b.drop_last().skip(1));
        assert(form_bytes(b) =~= form_byte(b[0]) + form_bytes(b.skip(1)));
    }
}

proof fn lemma_form_chars(b: Seq<u8>)
    ensures
        forall|i: int| 0 <= i < form_bytes(b).len() ==> #[trigger] form_bytes(b)[i] != '&' && form_bytes(b)[i] != '=',
    decreases b.len(),
{
    if b.len() > 0 {
        lemma_form_chars(b.drop_last());
        let x = form_bytes(b.drop_last());
        let y = form_byte(b.last());
        assert forall|i: int| 0 <= i < form_bytes(b).len() implies #[trigger] form_bytes(b)[i] != '&' && form_bytes(b)[i]
            != '=' by {
            if i < x.len() {
                assert(form_bytes(b)[i] == x[i]);
            } else {
                assert(form_bytes(b)[i] == y[i - x.len()]);
            }
        }
    }
}

#[verifier::rlimit(40)]
proof fn lemma_form_unescaped(b: Seq<u8>)
    ensures
        percent_unescaped(encode_utf8(plus_to_space(form_bytes(b)))) == b,
    decreases b.len(),
{
    let f = form_bytes(b);
    if b.len() == 0 {
        assert(plus_to_space(f) =~= Seq::<char>::empty());
        assert(encode_utf8(plus_to_space(f)) =~= Seq::<u8>::empty());
        assert(b =~= Seq::<u8>::empty());
    } else {
        let rest = b.skip(1);
        lemma_form_front(b);
        lemma_form_unescaped(rest);
        let x = form_byte(b[0]);
        let g = form_bytes(rest);
        assert(plus_to_space(f) =~= plus_to_space(x) + plus_to_space(g));
        encode_concat(plus_to_space(x), plus_to_space(g));
        let t = encode_utf8(plus_to_space(g));
        let w = encode_utf8(plus_to_space(f));
        if form_byte_kept(b[0]) || b[0] == 32 {
            let c = if b[0] == 32 {
                ' '
            } else {
                b[0] as char
            };
            assert(plus_to_space(x) =~= seq![c]);
            lemma_ascii(c);
            assert(w =~= seq![b[0]] + t);
            assert(w.skip(1) =~= t);
        } else {
            lemma_hex_byte(b[0]);
            let h = upper_hex(b[0] as int / 16);
            let l = upper_hex(b[0] as int % 16);
            assert(plus_to_space(x) =~= seq!['%'] + (seq![h] + seq![l]));
            encode_concat(seq!['%'], seq![h] + seq![l]);
            encode_concat(seq![h], seq![l]);
            lemma_ascii('%');
            lemma_ascii(h);
            lemma_ascii(l);
            assert(w =~= seq![37u8, h as u8, l as u8] + t);
            assert(w.skip(3) =~= t);
        }
        assert(seq![b[0]] + rest =~= b);
    }
}

/// A listing that is asked for with a prefix is answered for that prefix, whatever
/// characters are in it.
#[verifier::rlimit(40)]
pub proof fn asked_prefixes_are_understood(url: UrlPartsV, prefix: Seq<char>)
    ensures
        asked_prefix(listing_url(url, Some(prefix)).query) == Some(prefix),
        listing_url(url, None) == url,
        listing_url(url, Some(prefix)).path == url.path,
        listing_url(url, Some(prefix)).host == url.host,
        listing_url(url, Some(prefix)).port == url.port,
{
    broadcast use vstd::utf8::encode_utf8_valid_utf8;
    broadcast use vstd::utf8::encode_utf8_decode_utf8;

    let name = form_bytes(encode_utf8("prefix"@));
    let value = form_bytes(encode_utf8(prefix));
    let query = name + "="@ + value;
    lemma_prefix_name();
    lemma_form_chars(encode_utf8("prefix"@));
    lemma_form_chars(encode_utf8(prefix));
    reveal_strlit("=");
    assert forall|i: int| 0 <= i < query.len() implies query[i] != '&' by {
        if i < name.len() {
            assert(query[i] == name[i]);
        } else if i > name.len() {
            assert(query[i] == value[i - name.len() - 1]);
        }
    }
    assert(!query.contains('&'));
    assert(!name.contains('=')) by {
        if name.contains('=') {
            let k = choose|k: int| 0 <= k < name.len() && name[k] == '=';
            assert(name[k] != '=');
        }
    }
    crate::text_laws::texts_are_cut_at_the_first(query, '&', Seq::empty());
    assert(split(query, '&') == seq![query]);
    assert(name + seq!['='] + value =~= query);
    crate::text_laws::texts_are_cut_at_the_first(name, '=', value);
    lemma_form_unescaped(encode_utf8(prefix));
}

#[verifier::rlimit(40)]
proof fn lemma_prefix_name()
    ensures
        form_bytes(encode_utf8("prefix"@)) == "prefix"@,
{
    reveal_strlit("prefix");
    let s = "prefix"@;
    let b = seq![112u8, 114, 101, 102, 105, 120];
    lemma_ascii('p');
    lemma_ascii('r');
    lemma_ascii('e');
    lemma_ascii('f');
    lemma_ascii('i');
    lemma_ascii('x');
    encode_concat(seq!['p'], seq!['r', 'e', 'f', 'i', 'x']);
    encode_concat(seq!['r'], seq!['e', 'f', 'i', 'x']);
    encode_concat(seq!['e'], seq!['f', 'i', 'x']);
    encode_concat(seq!['f'], seq!['i', 'x']);
    encode_concat(seq!['i'], seq!['x']);
    assert(seq!['i'] + seq!['x'] =~= seq!['i', 'x']);
    assert(seq!['f'] + seq!['i', 'x'] =~= seq!['f', 'i', 'x']);
    assert(seq!['e'] + seq!['f', 'i', 'x'] =~= seq!['e', 'f', 'i', 'x']);
    assert(seq!['r'] + seq!['e', 'f', 'i', 'x'] =~= seq!['r', 'e', 'f', 'i', 'x']);
    assert(seq!['p'] + seq!['r', 'e', 'f', 'i', 'x'] =~= s);
    assert(encode_utf8(s) =~= b);
    assert(b.drop_last() =~= seq![112u8, 114, 101, 102, 105]);
    assert(b.drop_last().drop_last() =~= seq![112u8, 114, 101, 102]);
    assert(b.drop_last().drop_last().drop_last() =~= seq![112u8, 114, 101]);
    assert(b.drop_last().drop_last().drop_last().drop_last() =~= seq![112u8, 114]);
    assert(b.drop_last().drop_last().drop_last().drop_last().drop_last() =~= seq![112u8]);
    assert(b.drop_last().drop_last().drop_last().drop_last().drop_last().drop_last() =~= Seq::<u8>::empty());
    reveal_with_fuel(form_bytes, 7);
    assert(form_bytes(b) =~= s);
}

/// An upload of metadata alone is understood as that, and any other is not.
#[verifier::rlimit(40)]
pub proof fn metadata_uploads_are_understood(metadata_only: bool)
    ensures
        crate::server::only_metadata(Some(upload_query(metadata_only))) == metadata_only,
{
    reveal_strlit("relay=full&metadata");
    reveal_strlit("relay=full");
    reveal_strlit("metadata");
    let a = seq!['r', 'e', 'l', 'a', 'y', '=', 'f', 'u', 'l', 'l'];
    let m = "metadata"@;
    assert(!a.contains('&'));
    assert(!m.contains('&'));
    assert(!m.contains('='));
    let name = seq!['r', 'e', 'l', 'a', 'y'];
    let value = seq!['f', 'u', 'l', 'l'];
    assert(!name.contains('='));
    crate::text_laws::texts_are_cut_at_the_first(name, '=', value);
    assert(name + seq!['='] + value =~= a);
    assert(name.len() != m.len());
    crate::text_laws::texts_are_cut_at_the_first(m, '=', Seq::empty());
    crate::text_laws::texts_are_cut_at_the_first(m, '&', Seq::empty());
    crate::text_laws::texts_are_cut_at_the_first(a, '&', m);
    assert("relay=full"@ =~= a);
    assert("relay=full&metadata"@ =~= a + seq!['&'] + m);
    assert(split(m, '&') == seq![m]);
    if metadata_only {
        let parts = split("relay=full&metadata"@, '&');
        assert(parts =~= seq![a, m]);
        assert(parts.skip(1) =~= seq![m]);
        reveal_with_fuel(crate::server::pair_value, 3);
    } else {
        let parts = split("relay=full"@, '&');
        assert(parts =~= seq![a]);
        assert(parts.skip(1) =~= Seq::<Seq<char>>::empty());
        reveal_with_fuel(crate::server::pair_value, 3);
    }
}

/// A target is routed where it is an absolute path that can be read as that of a URL, as
/// the path of that URL is.
#[verifier::rlimit(40)]
pub proof fn absolute_targets_are_routed(method: Seq<char>, target: Seq<char>)
    ensures
        target.len() == 0 || target[0] != '/' ==> (routed(method, target) matches Err(r) && r.status == 400),
        target.len() > 0 && target[0] == '/' ==> (match url_parts("http://localhost"@ + target) {
            Some(u) => routed(method, target) == crate::server::place_of(method, u.path, u.query),
            None => routed(method, target) matches Err(r) && r.status == 400,
        }),
{
}

// The plain file server.

/// A request with a whole head is planned for by its method, its target and its body.
pub proof fn requests_are_planned_for(
    line: Seq<char>,
    method: Seq<char>,
    target: Seq<char>,
    version: Seq<char>,
    headers: Seq<(Seq<char>, Seq<char>)>,
    body: Seq<u8>,
)
    requires
        forall|i: int| 0 <= i < line.len() ==> #[trigger] line[i] != '\n',
        words(line.push('\n')) == seq![method, target, version],
        all_clean(headers),
        last_length(headers) == body.len(),
    ensures
        planned(encode_utf8(line.push('\n') + header_lines(headers) + "\r\n"@) + body) == Ok::<PlanV, ErrorV>(
            chosen(method, target, body),
        ),
        planned(Seq::empty()) == Ok::<PlanV, ErrorV>(PlanV::Nothing),
{
    let first_line = line.push('\n');
    let text = header_lines(headers) + "\r\n"@;
    assert(first_line + header_lines(headers) + "\r\n"@ =~= first_line + text);
    encode_concat(first_line, text);
    let after = encode_utf8(text) + body;
    let b = encode_utf8(first_line + header_lines(headers) + "\r\n"@) + body;
    assert(b =~= encode_utf8(first_line) + after);
    lemma_line(line, after);
    lemma_written_headers(headers, body);
    let n = line_len(b) as int;
    let used = encode_utf8(text).len();
    assert(b.skip(n) == after);
    assert(b.skip(n + used) =~= body);
}

/// A short answer of the plain file server is read back with its status and its text.
#[verifier::rlimit(40)]
pub proof fn plain_answers_are_read_back(code: u16, text: Seq<char>)
    requires
        encode_utf8(text).len() <= usize::MAX,
    ensures
        response_read(status_bytes(code, text), false) matches Ok(r) && r.status == code && r.body == encode_utf8(text),
{
    let body = encode_utf8(text);
    let headers = typed("text/plain"@, body.len());
    lemma_status_line(code);
    let line = status_line(code).drop_last();
    lemma_decimal(body.len());
    reveal_strlit("Content-Type");
    reveal_strlit("text/plain");
    reveal_strlit("Connection");
    reveal_strlit("close");
    reveal_strlit("Content-Length");
    reveal_strlit("content-length");
    let d = decimal(body.len());
    assert forall|i: int| 0 <= i < d.len() implies #[trigger] d[i] != '\n' && !crate::text::is_space(d[i]) by {
        assert(crate::number::is_digit(d[i]));
    }
    assert(crate::wire::clean(headers[1])) by {
        assert(!crate::text::is_space(d[0]));
        assert(!crate::text::is_space(d[d.len() - 1]));
    }
    assert(all_clean(headers));
    assert(lower("Content-Type"@)[8] == 't');
    assert("content-length"@[8] == 'l');
    assert(lower("Content-Length"@) =~= "content-length"@);
    assert(headers.skip(1)[0] == headers[1]);
    crate::number::decimal_round_trip(body.len(), usize::MAX as nat);
    assert(content_length(headers) == body.len()) by {
        crate::message_laws::first_length_counts(headers, 1);
    }
    lemma_message(line, headers, body, false);
    assert(status_bytes(code, text) == encode_utf8(line.push('\n') + header_lines(headers) + "\r\n"@) + body);
}

// Listings and events.

/// The content type that goes with each extension: that of plain bytes for any other.
pub proof fn extensions_have_their_type(e: Seq<char>)
    ensures
        type_of_extension(e) == (if e == "htm"@ || e == "html"@ {
            "text/html; charset=utf-8"@
        } else if e == "css"@ {
            "text/css; charset=utf-8"@
        } else if e == "js"@ {
            "application/javascript"@
        } else if e == "json"@ {
            "application/json"@
        } else if e == "png"@ {
            "image/png"@
        } else if e == "jpeg"@ || e == "jpg"@ {
            "image/jpeg"@
        } else if e == "gif"@ {
            "image/gif"@
        } else if e == "svg"@ {
            "image/svg+xml"@
        } else if e == "md"@ || e == "txt"@ {
            "text/plain; charset=utf-8"@
        } else if e == "pdf"@ {
            "application/pdf"@
        } else {
            "application/octet-stream"@
        }),
{
}

/// The content type of a file goes by its extension, whatever the case.
pub proof fn types_go_by_the_extension(stem: Seq<char>, end: Seq<char>)
    requires
        stem.len() > 0,
        !end.contains('.'),
    ensures
        type_of(stem + "."@ + end) == type_of_extension(lower(end)),
        type_of(end) == type_of_extension(Seq::empty()),
{
    crate::serving_laws::extensions_follow_the_last_dot(stem, end);
    assert(lower(Seq::<char>::empty()) =~= Seq::<char>::empty());
}

/// A message of the server is an event just where it is of a kind that is known, of the
/// entry that it carries.
#[verifier::rlimit(40)]
pub proof fn messages_are_events(event: EventV, entry: Result<EntryV, ErrorV>)
    ensures
        ({
            let known = event.event == "created"@ || event.event == "modified"@ || event.event == "deleted"@ || event.event
                == "metadata"@;
            &&& !known ==> remote_event(event, entry) == Ok::<Option<EntryEventV>, ErrorV>(None)
            &&& known && entry is Err ==> remote_event(event, entry) is Err
            &&& known ==> (entry matches Ok(e) ==> (match remote_event(event, entry) {
                Ok(Some(x)) => action_name(x.action) == event.event && x.kind == Some(e.kind) && x.path == e.name
                    && !x.conflict,
                _ => false,
            }))
        }),
{
}

// How a request is read.

/// The parameters of an `Authorization` header are the parts between commas behind its
/// scheme; its claim is what they give for the address, the signature and the time, in
/// any order and whatever else they give.
pub proof fn claims_are_read_in_any_order(rest: Seq<char>, value: Seq<char>, list: Seq<(Seq<char>, Seq<char>)>)
    ensures
        auth_params("ArkAccount "@ + rest) == params_in(split(trim(rest, Trim::Space), ',')),
        !"ArkAccount "@.is_prefix_of(value) ==> auth_params(value) is None,
        auth_params(value) == Some(list) ==> (match (
            last_value(list, "address"@),
            last_value(list, "signature"@),
            last_value(list, "timestamp"@),
        ) {
            (Some(a), Some(s), Some(t)) => claim_in(value) matches Ok(claim) && claim.address == a && claim.signature == s
                && claim.timestamp == t,
            _ => claim_in(value) is Err,
        }),
        auth_params(value) is None ==> (claim_in(value) matches Err(e) && e.fault == Fault::AuthorizationScheme),
{
    let whole = "ArkAccount "@ + rest;
    let n = "ArkAccount "@.len() as int;
    assert("ArkAccount "@ =~= whole.subrange(0, n));
    assert(whole.skip(n) =~= rest);
}

/// A message is a request where its first line has three words and the second can be
/// decoded: they are its method and its target.
pub proof fn requests_have_three_words(m: MessageV)
    ensures
        request_in(m) is Ok <==> words(m.first_line).len() == 3 && percent_decoded(words(m.first_line)[1]) is Some,
        request_in(m) matches Ok(r) ==> r.method == words(m.first_line)[0] && Some(r.target) == percent_decoded(
            words(m.first_line)[1],
        ) && r.headers == m.headers && r.body == m.body,
{
}

/// A line of a request that has not three words is answered with `400`.
pub proof fn odd_requests_are_refused(line: Seq<char>, rest: Seq<u8>)
    requires
        forall|i: int| 0 <= i < line.len() ==> #[trigger] line[i] != '\n',
        words(line.push('\n')).len() != 3,
    ensures
        planned(encode_utf8(line.push('\n')) + rest) matches Ok(plan) && crate::plain_laws::told_off(plan, 400),
{
    lemma_line(line, rest);
    assert(crate::plain_laws::told_off(PlanV::Answer { bytes: status_bytes(400, "bad request line"@) }, 400));
}

} // verus!
