//! What holds of every message that is written or read.

use vstd::prelude::*;
use vstd::utf8::{decode_utf8, encode_scalar, encode_utf8, valid_utf8};

use crate::error::{ErrorV, Fault};
use crate::events::{ended, event_step, event_with, field_in, no_event, reader_step, EventV, ReaderV, Stage};
use crate::http::{
    blank_line, content_length, final_headers, has_header, head_end, header_lines, headers_in, host_header,
    inserted, lemma_line_len, line_len, message_bytes, message_complete, message_in, path_byte, path_bytes_encoded,
    response_in, sorted, MessageV,
};
use crate::number::{decimal, parsed};
use crate::primitives::UrlPartsV;
use crate::text::{cut, lemma_precedes_irreflexive, lower, precedes, trim, trim_back, words, Trim};
use crate::wire::{all_clean, in_order, lemma_high_bytes, lemma_line, message_round_trip, sorting_orders_headers};

verus! {

// Headers.

/// Headers are written one after the other, each on a line of its own.
#[verifier::rlimit(40)]
pub proof fn headers_are_written_in_turn(a: Seq<(Seq<char>, Seq<char>)>, b: Seq<(Seq<char>, Seq<char>)>)
    ensures
        header_lines(a + b) == header_lines(a) + header_lines(b),
        crate::commands::header_lines(a + b) == crate::commands::header_lines(a) + crate::commands::header_lines(b),
    decreases b.len(),
{
    if b.len() == 0 {
        assert(a + b =~= a);
        assert(header_lines(a) + header_lines(b) =~= header_lines(a));
        assert(crate::commands::header_lines(a) + crate::commands::header_lines(b) =~= crate::commands::header_lines(a));
    } else {
        let whole = a + b;
        assert(whole.drop_last() =~= a + b.drop_last());
        assert(whole.last() == b.last());
        headers_are_written_in_turn(a, b.drop_last());
        assert(header_lines(whole) =~= header_lines(a) + header_lines(b));
        assert(crate::commands::header_lines(whole) =~= crate::commands::header_lines(a) + crate::commands::header_lines(
            b,
        ));
    }
}

/// A header is its name, a colon, a space and its value.
pub proof fn a_header_is_one_line(name: Seq<char>, value: Seq<char>)
    ensures
        header_lines(seq![(name, value)]) == name + ": "@ + value + "\r\n"@,
        crate::commands::header_lines(seq![(name, value)]) == name + ": "@ + value + "\n"@,
{
    let one = seq![(name, value)];
    assert(one.drop_last() =~= Seq::empty());
    assert(header_lines(one.drop_last()) =~= Seq::<char>::empty());
    assert(crate::commands::header_lines(one.drop_last()) =~= Seq::<char>::empty());
    assert(Seq::<char>::empty() + name =~= name);
}

#[verifier::rlimit(40)]
proof fn lemma_inserted_filter(list: Seq<(Seq<char>, Seq<char>)>, h: (Seq<char>, Seq<char>), name: Seq<char>)
    requires
        in_order(list),
    ensures
        inserted(list, h).filter(|x: (Seq<char>, Seq<char>)| x.0 == name) == (if h.0 == name {
            list.filter(|x: (Seq<char>, Seq<char>)| x.0 == name).push(h)
        } else {
            list.filter(|x: (Seq<char>, Seq<char>)| x.0 == name)
        }),
    decreases list.len(),
{
    reveal(Seq::filter);
    let keep = |x: (Seq<char>, Seq<char>)| x.0 == name;
    if list.len() == 0 || !precedes(h.0, list.last().0) {
        assert(list.push(h).drop_last() =~= list);
    } else {
        let front = list.drop_last();
        let last = list.last();
        assert(in_order(front)) by {
            assert forall|i: int, j: int| 0 <= i < j < front.len() implies !precedes(
                (#[trigger] front[j]).0,
                (#[trigger] front[i]).0,
            ) by {
                assert(front[i] == list[i] && front[j] == list[j]);
            }
        }
        lemma_inserted_filter(front, h, name);
        let r = inserted(front, h).push(last);
        assert(r.drop_last() =~= inserted(front, h));
        if h.0 == name {
            lemma_precedes_irreflexive(name);
            assert(last.0 != name);
        }
    }
}

/// Headers with one and the same name stay in the order in which they came.
pub proof fn same_headers_keep_their_order(list: Seq<(Seq<char>, Seq<char>)>, name: Seq<char>)
    ensures
        sorted(list).filter(|x: (Seq<char>, Seq<char>)| x.0 == name) == list.filter(
            |x: (Seq<char>, Seq<char>)| x.0 == name,
        ),
    decreases list.len(),
{
    reveal(Seq::filter);
    if list.len() > 0 {
        same_headers_keep_their_order(list.drop_last(), name);
        sorting_orders_headers(list.drop_last());
        lemma_inserted_filter(sorted(list.drop_last()), list.last(), name);
    }
}

/// The length of a body is what the first header of that name says, whatever its case,
/// and none where there is no such header or it says no number.
pub proof fn first_length_counts(headers: Seq<(Seq<char>, Seq<char>)>, i: int)
    requires
        0 <= i <= headers.len(),
        forall|j: int| 0 <= j < i ==> lower((#[trigger] headers[j]).0) != "content-length"@,
        i < headers.len() ==> lower(headers[i].0) == "content-length"@,
    ensures
        i == headers.len() ==> content_length(headers) == 0,
        i < headers.len() ==> content_length(headers) == (match parsed(headers[i].1, usize::MAX as nat) {
            Some(n) => n,
            None => 0,
        }),
    decreases headers.len(),
{
    if i > 0 {
        let rest = headers.skip(1);
        assert(lower(headers[0].0) != "content-length"@);
        assert forall|j: int| 0 <= j < i - 1 implies lower((#[trigger] rest[j]).0) != "content-length"@ by {
            assert(rest[j] == headers[j + 1]);
        }
        if i < headers.len() {
            assert(rest[i - 1] == headers[i]);
        }
        first_length_counts(rest, i - 1);
    }
}

/// A line of a head is a header where there is a colon in it, with what stands around
/// the first one, trimmed, and is passed over where there is none.
pub proof fn lines_of_a_head_are_headers(line: Seq<char>, rest: Seq<u8>, more: Seq<(Seq<char>, Seq<char>)>, used: nat)
    requires
        forall|i: int| 0 <= i < line.len() ==> #[trigger] line[i] != '\n' && line[i] != '\r',
        line.len() > 0,
        headers_in(rest) == Ok::<(Seq<(Seq<char>, Seq<char>)>, nat), ErrorV>((more, used)),
    ensures
        ({
            let b = encode_utf8(line.push('\n')) + rest;
            let n = encode_utf8(line.push('\n')).len();
            match cut(line, ':') {
                Some((name, value)) => headers_in(b) == Ok::<(Seq<(Seq<char>, Seq<char>)>, nat), ErrorV>(
                    (seq![(trim(name, Trim::Space), trim(value, Trim::Space))] + more, n + used),
                ),
                None => headers_in(b) == Ok::<(Seq<(Seq<char>, Seq<char>)>, nat), ErrorV>((more, n + used)),
            }
        }),
{
    lemma_line(line, rest);
    let full = line.push('\n');
    assert(full.drop_last() =~= line);
    assert(line.last() == line[line.len() - 1]);
    assert(trim_back(full, Trim::LineEnd) == line) by {
        reveal_with_fuel(trim_back, 2);
    }
    assert(Seq::<(Seq<char>, Seq<char>)>::empty() + more =~= more);
}

// Whole messages.

proof fn lemma_more_line(b: Seq<u8>, x: Seq<u8>)
    requires
        b.len() > 0,
        b[line_len(b) - 1] == 10,
    ensures
        line_len(b + x) == line_len(b),
        (b + x).take(line_len(b) as int) == b.take(line_len(b) as int),
        (b + x).skip(line_len(b) as int) == b.skip(line_len(b) as int) + x,
{
    lemma_line_len(b);
    let w = b + x;
    let n = line_len(b) as int;
    assert forall|k: int| 0 <= k < n - 1 implies w[k] != 10 by {
        assert(w[k] == b[k]);
    }
    crate::wire::lemma_line_len_is(w, n);
    assert(w.take(n) =~= b.take(n));
    assert(w.skip(n) =~= b.skip(n) + x);
}

#[verifier::rlimit(40)]
proof fn lemma_ends_only(s: Seq<char>)
    requires
        forall|k: int| 0 <= k < encode_utf8(s).len() ==> #[trigger] encode_utf8(s)[k] == 13 || encode_utf8(s)[k] == 10,
    ensures
        forall|i: int| 0 <= i < s.len() ==> Trim::LineEnd.has(#[trigger] s[i]),
    decreases s.len(),
{
    if s.len() > 0 {
        let c = s[0] as u32;
        let head = encode_scalar(c);
        let rest = s.drop_first();
        let all = encode_utf8(s);
        assert(all == head + encode_utf8(rest));
        lemma_high_bytes(c);
        assert(all[0] == head[0]);
        assert(head[0] == 13 || head[0] == 10);
        vstd::utf8::char_is_scalar(s[0]);
        assert(c == 13 || c == 10);
        vstd::utf8::char_u32_cast(s[0], c);
        assert(s[0] == '\r' || s[0] == '\n');
        assert forall|k: int| 0 <= k < encode_utf8(rest).len() implies #[trigger] encode_utf8(rest)[k] == 13
            || encode_utf8(rest)[k] == 10 by {
            assert(all[head.len() + k] == encode_utf8(rest)[k]);
        }
        lemma_ends_only(rest);
        assert forall|i: int| 0 <= i < s.len() implies Trim::LineEnd.has(#[trigger] s[i]) by {
            if i > 0 {
                assert(rest[i - 1] == s[i]);
            }
        }
    }
}

proof fn lemma_trimmed_away(s: Seq<char>)
    requires
        forall|i: int| 0 <= i < s.len() ==> Trim::LineEnd.has(#[trigger] s[i]),
    ensures
        trim_back(s, Trim::LineEnd).len() == 0,
    decreases s.len(),
{
    if s.len() > 0 {
        assert(Trim::LineEnd.has(s[s.len() - 1]));
        let front = s.drop_last();
        assert forall|i: int| 0 <= i < front.len() implies Trim::LineEnd.has(#[trigger] front[i]) by {
            assert(front[i] == s[i]);
        }
        lemma_trimmed_away(front);
    }
}

proof fn lemma_blank(t: Seq<u8>)
    requires
        blank_line(t),
        valid_utf8(t),
    ensures
        trim_back(decode_utf8(t), Trim::LineEnd).len() == 0,
{
    broadcast use vstd::utf8::decode_utf8_encode_utf8;

    let s = decode_utf8(t);
    assert(encode_utf8(s) == t);
    lemma_ends_only(s);
    lemma_trimmed_away(s);
}

proof fn lemma_more_headers(b: Seq<u8>, x: Seq<u8>)
    requires
        head_end(b) is Some,
    ensures
        headers_in(b + x) == headers_in(b),
        head_end(b + x) == head_end(b),
        headers_in(b) matches Ok((list, used)) ==> used <= b.len(),
    decreases b.len(),
{
    lemma_line_len(b);
    lemma_more_line(b, x);
    let n = line_len(b) as int;
    let line = b.take(n);
    if valid_utf8(line) && trim_back(decode_utf8(line), Trim::LineEnd).len() > 0 {
        if blank_line(line) {
            lemma_blank(line);
        }
        lemma_more_headers(b.skip(n), x);
    } else if !blank_line(line) {
        lemma_more_headers(b.skip(n), x);
    }
}

/// Once a message has arrived whole, it is read the same whatever follows it, and still
/// counts as whole.
pub proof fn whole_messages_stay_whole(b: Seq<u8>, x: Seq<u8>, skip_body: bool)
    requires
        message_complete(b, skip_body),
    ensures
        message_complete(b + x, skip_body),
        message_in(b + x, skip_body) == message_in(b, skip_body),
{
    let n = line_len(b) as int;
    lemma_line_len(b);
    lemma_more_line(b, x);
    lemma_more_headers(b.skip(n), x);
    if let Ok((headers, used)) = headers_in(b.skip(n)) {
        let wanted = if skip_body {
            0
        } else {
            content_length(headers)
        };
        let w = b + x;
        assert(w.skip(n + used).take(wanted as int) =~= b.skip(n + used).take(wanted as int));
    }
}

/// A message that was written is whole with its last byte, and not before.
#[verifier::rlimit(40)]
pub proof fn messages_are_whole_at_their_end(
    line: Seq<char>,
    headers: Seq<(Seq<char>, Seq<char>)>,
    body: Seq<u8>,
    k: int,
)
    requires
        forall|i: int| 0 <= i < line.len() ==> #[trigger] line[i] != '\n',
        all_clean(headers),
        !has_header(headers, "Content-Length"@),
        body.len() <= usize::MAX,
        0 <= k < message_bytes(line.push('\n'), headers, body).len(),
    ensures
        message_complete(message_bytes(line.push('\n'), headers, body), false),
        !message_complete(message_bytes(line.push('\n'), headers, body).take(k), false),
{
    let list = final_headers(headers, body.len());
    crate::wire::lemma_final_headers(headers, body.len());
    let head = encode_utf8(line.push('\n') + header_lines(list) + "\r\n"@);
    let b = message_bytes(line.push('\n'), headers, body);
    message_round_trip(line, headers, body, false);
    let text = header_lines(list) + "\r\n"@;
    assert(line.push('\n') + header_lines(list) + "\r\n"@ =~= line.push('\n') + text);
    crate::wire::encode_concat(line.push('\n'), text);
    let after = encode_utf8(text) + body;
    assert(b =~= encode_utf8(line.push('\n')) + after);
    lemma_line(line, after);
    let n = line_len(b) as int;
    lemma_line_len(b);
    crate::wire::lemma_written_headers(list, body);
    assert(b[n - 1] == 10) by {
        assert(after.len() > 0);
    }
    lemma_written_head_end(list, body);
    assert(message_complete(b, false));
    let part = b.take(k);
    if message_complete(part, false) {
        let x = b.skip(k);
        assert(part + x =~= b);
        whole_messages_stay_whole(part, x, false);
        let m = line_len(part) as int;
        lemma_line_len(part);
        lemma_more_line(part, x);
        lemma_more_headers(part.skip(m), x);
        assert(b.skip(m) == part.skip(m) + x);
    }
}

#[verifier::rlimit(40)]
proof fn lemma_written_head_end(list: Seq<(Seq<char>, Seq<char>)>, body: Seq<u8>)
    requires
        all_clean(list),
    ensures
        head_end(encode_utf8(header_lines(list) + "\r\n"@) + body) is Some,
        encode_utf8(header_lines(list) + "\r\n"@).len() > 0,
    decreases list.len(),
{
    reveal_strlit("\r\n");
    let text = header_lines(list) + "\r\n"@;
    if list.len() == 0 {
        let line = seq!['\r'];
        assert(text =~= line.push('\n'));
        lemma_line(line, body);
        let b = encode_utf8(text) + body;
        let n = line_len(b) as int;
        lemma_line_len(b);
        lemma_end_bytes();
        assert(b.take(n) =~= encode_utf8(text));
        assert(b[n - 1] == encode_utf8(text)[n - 1]);
        assert(blank_line(b.take(n)));
    } else {
        crate::wire::lemma_header_front(list);
        let h = list[0];
        let line = h.0 + seq![':', ' '] + h.1;
        let rest = list.skip(1);
        let rest_text = header_lines(rest) + "\r\n"@;
        assert(crate::wire::clean(list[0]));
        assert(text =~= line.push('\r').push('\n') + rest_text);
        crate::wire::encode_concat(line.push('\r').push('\n'), rest_text);
        let after = encode_utf8(rest_text) + body;
        let b = encode_utf8(text) + body;
        assert(b =~= encode_utf8(line.push('\r').push('\n')) + after);
        assert forall|i: int| 0 <= i < line.push('\r').len() implies #[trigger] line.push('\r')[i] != '\n' by {}
        lemma_line(line.push('\r'), after);
        assert forall|i: int| 0 <= i < rest.len() implies crate::wire::clean(#[trigger] rest[i]) by {
            assert(rest[i] == list[i + 1]);
        }
        lemma_written_head_end(rest, body);
        lemma_line_len(b);
        let n = line_len(b) as int;
        assert(b.skip(n) == after);
        assert(n < b.len());
    }
}

proof fn lemma_end_bytes()
    ensures
        encode_utf8(seq!['\r'].push('\n')) == seq![13u8, 10u8],
{
    let s = seq!['\r'].push('\n');
    let t = s.drop_first();
    assert(t =~= seq!['\n']);
    assert(t.drop_first() =~= Seq::<char>::empty());
    assert(encode_utf8(t.drop_first()) =~= Seq::<u8>::empty());
    lemma_high_bytes(10);
    lemma_high_bytes(13);
    assert(encode_scalar(10) =~= seq![10u8]);
    assert(encode_scalar(13) =~= seq![13u8]);
    assert(encode_utf8(t) =~= seq![10u8]);
    assert(encode_utf8(s) =~= seq![13u8, 10u8]);
}

/// A body that is shorter than announced is not taken, nor more than was announced.
pub proof fn bodies_are_as_long_as_announced(b: Seq<u8>)
    ensures
        message_in(b, false) matches Ok(m) ==> m.body.len() == content_length(m.headers),
        message_in(b, true) matches Ok(m) ==> m.body.len() == 0,
        message_in(b, true) is Err ==> message_in(b, false) is Err,
        message_in(b, true) is Ok && message_in(b, false) is Err ==> message_in(b, false)->Err_0.fault
            == Fault::BodyTruncated,
{
}

/// The status of a response is the number that is the second word of its first line.
pub proof fn statuses_are_the_second_word(m: MessageV, version: Seq<char>, code: u16, rest: Seq<char>)
    requires
        words(m.first_line).len() >= 2,
        words(m.first_line)[1] == decimal(code as nat),
    ensures
        response_in(m) matches Ok(r) && r.status == code && r.headers == m.headers && r.body == m.body,
{
    crate::number::decimal_round_trip(code as nat, u16::MAX as nat);
}

// Paths.

#[verifier::rlimit(40)]
proof fn lemma_path_byte(b: u8)
    ensures
        forall|i: int|
            0 <= i < path_byte(b).len() ==> '!' <= #[trigger] path_byte(b)[i] <= '~' && path_byte(b)[i] != '"'
                && path_byte(b)[i] != '#' && path_byte(b)[i] != '<' && path_byte(b)[i] != '>' && path_byte(b)[i] != '?'
                && path_byte(b)[i] != '`' && path_byte(b)[i] != '{' && path_byte(b)[i] != '}',
{
}

/// An encoded path holds visible ASCII characters alone, and none that ends a path or is
/// unsafe in a request line. A path of other such characters is its own encoding.
pub proof fn paths_are_encoded_where_needed(b: Seq<u8>)
    ensures
        forall|i: int|
            0 <= i < path_bytes_encoded(b).len() ==> '!' <= #[trigger] path_bytes_encoded(b)[i] <= '~'
                && path_bytes_encoded(b)[i] != '"' && path_bytes_encoded(b)[i] != '#' && path_bytes_encoded(b)[i] != '<'
                && path_bytes_encoded(b)[i] != '>' && path_bytes_encoded(b)[i] != '?' && path_bytes_encoded(b)[i] != '`'
                && path_bytes_encoded(b)[i] != '{' && path_bytes_encoded(b)[i] != '}',
        (forall|i: int|
            0 <= i < b.len() ==> 33 <= #[trigger] b[i] <= 126 && b[i] != 34 && b[i] != 35 && b[i] != 60 && b[i] != 62
                && b[i] != 63 && b[i] != 96 && b[i] != 123 && b[i] != 125) ==> path_bytes_encoded(b) == b.map_values(
            |c: u8| c as char,
        ),
    decreases b.len(),
{
    if b.len() > 0 {
        let front = b.drop_last();
        paths_are_encoded_where_needed(front);
        lemma_path_byte(b.last());
        let x = path_bytes_encoded(front);
        let y = path_byte(b.last());
        let r = path_bytes_encoded(b);
        assert forall|i: int| 0 <= i < r.len() implies '!' <= #[trigger] r[i] <= '~' && r[i] != '"' && r[i] != '#' && r[i]
            != '<' && r[i] != '>' && r[i] != '?' && r[i] != '`' && r[i] != '{' && r[i] != '}' by {
            if i < x.len() {
                assert(r[i] == x[i]);
            } else {
                assert(r[i] == y[i - x.len()]);
            }
        }
        if forall|i: int|
            0 <= i < b.len() ==> 33 <= #[trigger] b[i] <= 126 && b[i] != 34 && b[i] != 35 && b[i] != 60 && b[i] != 62
                && b[i] != 63 && b[i] != 96 && b[i] != 123 && b[i] != 125 {
            assert forall|i: int| 0 <= i < front.len() implies 33 <= #[trigger] front[i] <= 126 && front[i] != 34
                && front[i] != 35 && front[i] != 60 && front[i] != 62 && front[i] != 63 && front[i] != 96 && front[i]
                != 123 && front[i] != 125 by {
                assert(front[i] == b[i]);
            }
            let k = b.len() - 1;
            assert(b[k] == b.last());
            assert(y == seq![b.last() as char]);
            assert(r =~= b.map_values(|c: u8| c as char));
        }
    } else {
        assert(path_bytes_encoded(b) =~= b.map_values(|c: u8| c as char));
    }
}

/// The `Host` header gives the host, with its port where there is one.
#[verifier::rlimit(40)]
pub proof fn hosts_come_with_their_port(u: UrlPartsV)
    ensures
        host_header(u) is Some <==> u.host is Some,
        u.host is Some && u.port is Some ==> host_header(u) == Some(u.host->0 + ":"@ + decimal(u.port->0 as nat)),
        u.host is Some && u.port is None ==> host_header(u) == u.host,
{
}

// Events.

/// Several lines of data are one text with line feeds between them; any other field but
/// the id and the kind of an event is passed over, and so are comments.
pub proof fn data_is_joined_by_line_feeds(e: EventV, a: Seq<char>, b: Seq<char>, name: Seq<char>, line: Seq<char>)
    ensures
        ({
            let once = event_with(e, "data"@, a);
            let twice = event_with(once, "data"@, b);
            &&& e.data.len() == 0 ==> once.data == a
            &&& e.data.len() > 0 ==> once.data == e.data + "\n"@ + a
            &&& a.len() > 0 ==> twice.data == once.data + "\n"@ + b
            &&& once.id == e.id
            &&& once.event == e.event
        }),
        event_with(e, "id"@, a) == (EventV { id: a, event: e.event, data: e.data }),
        event_with(e, "event"@, a) == (EventV { id: e.id, event: a, data: e.data }),
        name != "id"@ && name != "event"@ && name != "data"@ ==> event_with(e, name, a) == e,
        line.len() > 0 && line[0] == ':' ==> event_step(e, line) == (e, None::<EventV>),
        event_step(e, Seq::empty()).0 == no_event(),
        e.data.len() > 0 ==> event_step(e, Seq::empty()).1 == Some(e),
        e.data.len() == 0 ==> event_step(e, Seq::empty()).1 is None,
        line.len() > 0 ==> event_step(e, line).1 is None,
{
    reveal_strlit("\n");
    reveal_strlit("id");
    reveal_strlit("event");
    reveal_strlit("data");
    assert("id"@.len() == 2 && "event"@.len() == 5 && "data"@.len() == 4);
    let once = event_with(e, "data"@, a);
    let twice = event_with(once, "data"@, b);
    assert(Seq::<char>::empty() + a =~= a);
    if e.data.len() == 0 {
        assert(e.data =~= Seq::empty());
        assert(once.data =~= a);
    } else {
        assert(e.data.push('\n') + a =~= e.data + "\n"@ + a);
    }
    assert(once.data.push('\n') + b =~= once.data + "\n"@ + b);
}

/// A field of an event is what stands before the first colon, and its value what follows
/// it but for one space.
pub proof fn fields_end_at_the_first_colon(name: Seq<char>, value: Seq<char>)
    requires
        !name.contains(':'),
    ensures
        field_in(name + seq![':', ' '] + value) == (name, value),
        value.len() > 0 && value[0] != ' ' ==> field_in(name + seq![':'] + value) == (name, value),
        field_in(name) == (name, Seq::<char>::empty()),
{
    let spaced = seq![' '] + value;
    crate::text_laws::texts_are_cut_at_the_first(name, ':', spaced);
    crate::text_laws::texts_are_cut_at_the_first(name, ':', value);
    assert(name + seq![':', ' '] + value =~= name + seq![':'] + spaced);
    assert(spaced.skip(1) =~= value);
}

/// A stream has to begin with `200`; its headers end with an empty line, and what ended
/// too soon is told apart.
pub proof fn streams_begin_with_success(r: ReaderV, line: Seq<char>)
    ensures
        r.stage == Stage::Status ==> (reader_step(r, line) is Ok <==> "HTTP/1.1 200"@.is_prefix_of(line)),
        r.stage == Stage::Status ==> (reader_step(r, line) matches Ok((next, done)) ==> next.stage == Stage::Headers
            && next.event == r.event && done is None),
        r.stage == Stage::Headers ==> (reader_step(r, line) matches Ok((next, done)) && next.event == r.event && done
            is None && (next.stage == Stage::Events <==> trim_back(line, Trim::LineEnd).len() == 0) && (next.stage
            == Stage::Headers <==> trim_back(line, Trim::LineEnd).len() > 0)),
        r.stage == Stage::Events ==> (reader_step(r, line) matches Ok((next, done)) && next.stage == Stage::Events && (
        next.event, done) == event_step(r.event, trim_back(line, Trim::LineEnd))),
        ended(Stage::Status).fault == Fault::ClosedBeforeStatus,
        ended(Stage::Headers).fault == Fault::ClosedInHeaders,
        ended(Stage::Events).fault == Fault::StreamClosed,
{
}

} // verus!
