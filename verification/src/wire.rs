//! What is written on the wire is read back unchanged.

use vstd::prelude::*;
use vstd::utf8::{decode_utf8, encode_scalar, encode_utf8, valid_utf8};

use crate::error::{bare, ErrorV, Fault};
use crate::events::{
    event_lines, event_with, events_in, field_in, new_reader, no_event, reader_step, stream_start, EventV, ReaderV,
    Stage,
};
use crate::http::{
    content_length, final_headers, has_header, header_in, header_lines, headers_in, inserted, lemma_line_len, line_len,
    message_bytes, message_in, path_byte, path_byte_encoded, path_bytes_encoded, path_encoded, reason, request_bytes,
    request_read, response_bytes, response_read, sorted, status_line, target_of, MessageV, RequestV, ResponseV,
};
use crate::number::{decimal, decimal_round_trip, is_digit, lemma_decimal, parsed};
use crate::primitives::{hex_value, is_hex, percent_decoded, percent_unescaped, upper_hex};
use crate::text::{first_space, is_space, lemma_first_is, lower, precedes, trim, trim_back, trim_front, words, Trim};

verus! {

// UTF-8.

pub proof fn lemma_high_bytes(c: u32)
    by (bit_vector)
    ensures
        vstd::utf8::leading_byte_width_2(c) >= 0x80,
        vstd::utf8::leading_byte_width_3(c) >= 0x80,
        vstd::utf8::leading_byte_width_4(c) >= 0x80,
        vstd::utf8::last_continuation_byte(c) >= 0x80,
        vstd::utf8::second_last_continuation_byte(c) >= 0x80,
        vstd::utf8::third_last_continuation_byte(c) >= 0x80,
        c <= 0x7f ==> vstd::utf8::leading_byte_width_1(c) == c,
{
}

/// The encoding of one text after another is the one encoding after the other.
pub proof fn encode_concat(a: Seq<char>, b: Seq<char>)
    ensures
        encode_utf8(a + b) == encode_utf8(a) + encode_utf8(b),
    decreases a.len(),
{
    if a.len() == 0 {
        assert(a + b =~= b);
        assert(encode_utf8(a) + encode_utf8(b) =~= encode_utf8(b));
    } else {
        assert((a + b).drop_first() =~= a.drop_first() + b);
        encode_concat(a.drop_first(), b);
        assert(encode_utf8(a + b) =~= encode_utf8(a) + encode_utf8(b));
    }
}

/// Only a line feed is encoded with a byte 10.
pub proof fn lemma_no_line_feed(s: Seq<char>)
    requires
        forall|i: int| 0 <= i < s.len() ==> #[trigger] s[i] != '\n',
    ensures
        forall|k: int| 0 <= k < encode_utf8(s).len() ==> #[trigger] encode_utf8(s)[k] != 10,
    decreases s.len(),
{
    if s.len() > 0 {
        let c = s[0] as u32;
        lemma_high_bytes(c);
        vstd::utf8::char_is_scalar(s[0]);
        assert forall|i: int| 0 <= i < s.drop_first().len() implies #[trigger] s.drop_first()[i] != '\n' by {
            assert(s.drop_first()[i] == s[i + 1]);
        }
        lemma_no_line_feed(s.drop_first());
        let head = encode_scalar(c);
        assert(c != 10) by {
            vstd::utf8::char_u32_cast(s[0], c);
            assert(s[0] != '\n');
        }
        assert forall|k: int| 0 <= k < encode_utf8(s).len() implies #[trigger] encode_utf8(s)[k] != 10 by {
            if k < head.len() {
                assert(encode_utf8(s)[k] == head[k]);
            } else {
                assert(encode_utf8(s)[k] == encode_utf8(s.drop_first())[k - head.len()]);
            }
        }
    }
}

/// The first line ends at a line feed with none before it.
pub proof fn lemma_line_len_is(b: Seq<u8>, n: int)
    requires
        0 < n <= b.len(),
        b[n - 1] == 10,
        forall|k: int| 0 <= k < n - 1 ==> b[k] != 10,
    ensures
        line_len(b) == n,
{
    lemma_line_len(b);
    let m = line_len(b) as int;
    if m < n {
        assert(b[m - 1] == 10);
    }
    if n < m {
        assert(b[n - 1] != 10);
    }
}

/// The first line of bytes that start with a line.
pub proof fn lemma_line(line: Seq<char>, rest: Seq<u8>)
    requires
        forall|i: int| 0 <= i < line.len() ==> #[trigger] line[i] != '\n',
    ensures
        ({
            let b = encode_utf8(line.push('\n')) + rest;
            let n = line_len(b) as int;
            &&& b.len() > 0
            &&& valid_utf8(b.take(n))
            &&& decode_utf8(b.take(n)) == line.push('\n')
            &&& b.skip(n) == rest
            &&& n == encode_utf8(line.push('\n')).len()
        }),
{
    broadcast use vstd::utf8::encode_utf8_valid_utf8;
    broadcast use vstd::utf8::encode_utf8_decode_utf8;

    let full = line.push('\n');
    let feed = seq!['\n'];
    assert(full =~= line + feed);
    encode_concat(line, feed);
    lemma_no_line_feed(line);
    assert(encode_utf8(feed) =~= seq![10u8]) by {
        lemma_high_bytes(10);
        assert(feed.drop_first().len() == 0);
        assert(encode_utf8(feed.drop_first()) =~= Seq::<u8>::empty());
        assert(feed[0] as u32 == 10);
        assert(encode_scalar(10) =~= seq![10u8]);
    }
    let head = encode_utf8(full);
    let b = head + rest;
    assert(head.len() == encode_utf8(line).len() + 1);
    assert forall|k: int| 0 <= k < head.len() - 1 implies b[k] != 10 by {
        assert(b[k] == encode_utf8(line)[k]);
    }
    lemma_line_len_is(b, head.len() as int);
    assert(b.take(head.len() as int) =~= head);
    assert(b.skip(head.len() as int) =~= rest);
}

// Events.

/// Whether a text can stand in one line of an event.
pub open spec fn one_line(s: Seq<char>) -> bool {
    &&& forall|i: int| 0 <= i < s.len() ==> #[trigger] s[i] != '\n'
    &&& s.len() > 0 ==> s.last() != '\r'
}

/// A line feed at the end is cut off, and nothing else.
proof fn lemma_cut_end(s: Seq<char>)
    requires
        s.len() > 0 ==> s.last() != '\r' && s.last() != '\n',
    ensures
        trim_back(s.push('\n'), Trim::LineEnd) == s,
{
    assert(s.push('\n').drop_last() =~= s);
    assert(trim_back(s, Trim::LineEnd) == s);
}

/// A line with a field, a colon, a space and a value is taken apart into the
/// field and the value.
proof fn lemma_field(name: Seq<char>, value: Seq<char>)
    requires
        forall|i: int| 0 <= i < name.len() ==> #[trigger] name[i] != ':',
    ensures
        field_in(name + seq![':', ' '] + value) == (name, value),
{
    let line = name + seq![':', ' '] + value;
    let at = name.len() as int;
    assert forall|k: int| 0 <= k < at implies line[k] != ':' by {
        assert(line[k] == name[k]);
    }
    assert(line[at] == ':');
    lemma_first_is(line, ':', at);
    assert(line.take(at) =~= name);
    assert(line.skip(at + 1)[0] == ' ');
    assert(line.skip(at + 1).skip(1) =~= value);
}

/// One line of an event is taken in.
proof fn lemma_event_line(e: EventV, name: Seq<char>, value: Seq<char>, rest: Seq<u8>)
    requires
        name.len() > 0,
        forall|i: int| 0 <= i < name.len() ==> #[trigger] name[i] != ':' && name[i] != '\n',
        one_line(value),
    ensures
        events_in(
            (ReaderV { stage: Stage::Events, event: e }),
            encode_utf8((name + seq![':', ' '] + value).push('\n')) + rest,
        ) == events_in((ReaderV { stage: Stage::Events, event: event_with(e, name, value) }), rest),
{
    let line = name + seq![':', ' '] + value;
    assert forall|i: int| 0 <= i < line.len() implies #[trigger] line[i] != '\n' by {
        if i < name.len() {
            assert(line[i] == name[i]);
        } else if i >= name.len() + 2 {
            assert(line[i] == value[i - name.len() - 2]);
        }
    }
    lemma_line(line, rest);
    assert(line.last() == (if value.len() > 0 { value.last() } else { ' ' }));
    assert(line.last() != '\n') by {
        assert(line[line.len() - 1] != '\n');
    }
    lemma_cut_end(line);
    lemma_field(name, value);
    assert(line[0] == name[0]);
    let r = ReaderV { stage: Stage::Events, event: e };
    let b = encode_utf8(line.push('\n')) + rest;
    let next = ReaderV { stage: Stage::Events, event: event_with(e, name, value) };
    assert(reader_step(r, line.push('\n')) == Ok::<(ReaderV, Option<EventV>), ErrorV>((next, None)));
    assert(Seq::<EventV>::empty() + events_in(next, rest).0 =~= events_in(next, rest).0);
    assert(events_in(r, b) == events_in(next, rest));
}

/// An empty line ends an event.
proof fn lemma_event_end(e: EventV, rest: Seq<u8>)
    ensures
        ({
            let after = events_in((ReaderV { stage: Stage::Events, event: no_event() }), rest);
            events_in((ReaderV { stage: Stage::Events, event: e }), encode_utf8(seq!['\n']) + rest) == ((if e.data.len()
                > 0 {
                seq![e]
            } else {
                Seq::empty()
            }) + after.0, after.1)
        }),
{
    let nothing = Seq::<char>::empty();
    lemma_line(nothing, rest);
    assert(nothing.push('\n') =~= seq!['\n']);
    lemma_cut_end(nothing);
    let r = ReaderV { stage: Stage::Events, event: e };
    let b = encode_utf8(seq!['\n']) + rest;
    let after = events_in((ReaderV { stage: Stage::Events, event: no_event() }), rest);
    assert(reader_step(r, seq!['\n']) is Ok);
    assert(events_in(r, b).1 == after.1);
}

/// An event with data that was written between events is read back unchanged.
/// One without data is passed over.
pub proof fn event_read_back(e: EventV, rest: Seq<u8>)
    requires
        one_line(e.id),
        one_line(e.event),
        one_line(e.data),
    ensures
        ({
            let between = ReaderV { stage: Stage::Events, event: no_event() };
            let after = events_in(between, rest);
            events_in(between, encode_utf8(event_lines(e)) + rest) == ((if e.data.len() > 0 {
                seq![e]
            } else {
                Seq::empty()
            }) + after.0, after.1)
        }),
{
    reveal_strlit("id: ");
    reveal_strlit("\nevent: ");
    reveal_strlit("\ndata: ");
    reveal_strlit("\n\n");
    reveal_strlit("id");
    reveal_strlit("event");
    reveal_strlit("data");
    let one = ("id"@ + seq![':', ' '] + e.id).push('\n');
    let two = ("event"@ + seq![':', ' '] + e.event).push('\n');
    let three = ("data"@ + seq![':', ' '] + e.data).push('\n');
    let four = seq!['\n'];
    assert(event_lines(e) =~= one + (two + (three + four)));
    encode_concat(one, two + (three + four));
    encode_concat(two, three + four);
    encode_concat(three, four);
    let b4 = encode_utf8(four) + rest;
    let b3 = encode_utf8(three) + b4;
    let b2 = encode_utf8(two) + b3;
    let b1 = encode_utf8(one) + b2;
    assert(encode_utf8(event_lines(e)) + rest =~= b1);
    assert("id"@.len() == 2 && "event"@.len() == 5 && "data"@.len() == 4);
    let e0 = no_event();
    let e1 = event_with(e0, "id"@, e.id);
    let e2 = event_with(e1, "event"@, e.event);
    let e3 = event_with(e2, "data"@, e.data);
    lemma_event_line(e0, "id"@, e.id, b2);
    lemma_event_line(e1, "event"@, e.event, b3);
    lemma_event_line(e2, "data"@, e.data, b4);
    lemma_event_end(e3, rest);
    assert(e3 =~= e);
}

/// The bytes of a list of events.
pub open spec fn all_event_bytes(list: Seq<EventV>) -> Seq<u8>
    decreases list.len(),
{
    if list.len() == 0 {
        Seq::empty()
    } else {
        encode_utf8(event_lines(list[0])) + all_event_bytes(list.skip(1))
    }
}

proof fn lemma_events(list: Seq<EventV>)
    requires
        forall|i: int|
            0 <= i < list.len() ==> one_line((#[trigger] list[i]).id) && one_line(list[i].event) && one_line(
                list[i].data,
            ) && list[i].data.len() > 0,
    ensures
        events_in((ReaderV { stage: Stage::Events, event: no_event() }), all_event_bytes(list)) == (
            list,
            bare(Fault::StreamClosed),
        ),
    decreases list.len(),
{
    let between = ReaderV { stage: Stage::Events, event: no_event() };
    if list.len() == 0 {
        assert(events_in(between, all_event_bytes(list)).0 =~= list);
    } else {
        let rest = list.skip(1);
        assert forall|i: int| 0 <= i < rest.len() implies one_line((#[trigger] rest[i]).id) && one_line(rest[i].event)
            && one_line(rest[i].data) && rest[i].data.len() > 0 by {
            assert(rest[i] == list[i + 1]);
        }
        lemma_events(rest);
        event_read_back(list[0], all_event_bytes(rest));
        assert(seq![list[0]] + rest =~= list);
    }
}

/// One line of the head of a stream is taken in.
proof fn lemma_head_line(r: ReaderV, line: Seq<char>, rest: Seq<u8>)
    requires
        forall|i: int| 0 <= i < line.len() ==> #[trigger] line[i] != '\n',
        r.stage == Stage::Status && "HTTP/1.1 200"@.is_prefix_of(line.push('\n')) || r.stage == Stage::Headers,
    ensures
        ({
            let next = ReaderV {
                stage: if r.stage == Stage::Headers && trim_back(line.push('\n'), Trim::LineEnd).len() == 0 {
                    Stage::Events
                } else {
                    Stage::Headers
                },
                ..r
            };
            events_in(r, encode_utf8(line.push('\n')) + rest) == events_in(next, rest)
        }),
{
    lemma_line(line, rest);
    let b = encode_utf8(line.push('\n')) + rest;
    let step = reader_step(r, line.push('\n'));
    let next = step->Ok_0.0;
    assert(Seq::<EventV>::empty() + events_in(next, rest).0 =~= events_in(next, rest).0);
    assert(events_in(r, b) == events_in(next, rest));
}

proof fn lemma_stream_start(rest: Seq<u8>)
    ensures
        events_in(new_reader(), encode_utf8(stream_start()) + rest) == events_in(
            (ReaderV { stage: Stage::Events, event: no_event() }),
            rest,
        ),
{
    reveal_strlit("HTTP/1.1 200");
    reveal_strlit("HTTP/1.1 200 OK\r\n");
    reveal_strlit("Content-Type: text/event-stream\r\n");
    reveal_strlit("Cache-Control: no-cache\r\n");
    reveal_strlit("Connection: keep-alive\r\n");
    reveal_strlit("X-Accel-Buffering: no\r\n");
    reveal_strlit("\r\n");
    let l1 = "HTTP/1.1 200 OK\r\n"@.drop_last();
    let l2 = "Content-Type: text/event-stream\r\n"@.drop_last();
    let l3 = "Cache-Control: no-cache\r\n"@.drop_last();
    let l4 = "Connection: keep-alive\r\n"@.drop_last();
    let l5 = "X-Accel-Buffering: no\r\n"@.drop_last();
    let l6 = "\r\n"@.drop_last();
    assert(l1.push('\n') =~= "HTTP/1.1 200 OK\r\n"@);
    assert(l2.push('\n') =~= "Content-Type: text/event-stream\r\n"@);
    assert(l3.push('\n') =~= "Cache-Control: no-cache\r\n"@);
    assert(l4.push('\n') =~= "Connection: keep-alive\r\n"@);
    assert(l5.push('\n') =~= "X-Accel-Buffering: no\r\n"@);
    assert(l6.push('\n') =~= "\r\n"@);
    let s6 = "\r\n"@;
    let s5 = "X-Accel-Buffering: no\r\n"@ + s6;
    let s4 = "Connection: keep-alive\r\n"@ + s5;
    let s3 = "Cache-Control: no-cache\r\n"@ + s4;
    let s2 = "Content-Type: text/event-stream\r\n"@ + s3;
    assert(stream_start() =~= "HTTP/1.1 200 OK\r\n"@ + s2);
    encode_concat("HTTP/1.1 200 OK\r\n"@, s2);
    encode_concat("Content-Type: text/event-stream\r\n"@, s3);
    encode_concat("Cache-Control: no-cache\r\n"@, s4);
    encode_concat("Connection: keep-alive\r\n"@, s5);
    encode_concat("X-Accel-Buffering: no\r\n"@, s6);
    let b6 = encode_utf8(s6) + rest;
    let b5 = encode_utf8("X-Accel-Buffering: no\r\n"@) + b6;
    let b4 = encode_utf8("Connection: keep-alive\r\n"@) + b5;
    let b3 = encode_utf8("Cache-Control: no-cache\r\n"@) + b4;
    let b2 = encode_utf8("Content-Type: text/event-stream\r\n"@) + b3;
    let b1 = encode_utf8("HTTP/1.1 200 OK\r\n"@) + b2;
    assert(encode_utf8(stream_start()) + rest =~= b1);
    let head = ReaderV { stage: Stage::Headers, event: no_event() };
    assert("HTTP/1.1 200"@.is_prefix_of("HTTP/1.1 200 OK\r\n"@)) by {
        assert("HTTP/1.1 200 OK\r\n"@.subrange(0, 12) =~= "HTTP/1.1 200"@);
    }
    lemma_head_line(new_reader(), l1, b2);
    lemma_not_blank(l2);
    lemma_head_line(head, l2, b3);
    lemma_not_blank(l3);
    lemma_head_line(head, l3, b4);
    lemma_not_blank(l4);
    lemma_head_line(head, l4, b5);
    lemma_not_blank(l5);
    lemma_head_line(head, l5, b6);
    assert(trim_back("\r\n"@, Trim::LineEnd).len() == 0) by {
        assert("\r\n"@.drop_last() =~= seq!['\r']);
        assert(seq!['\r'].drop_last().len() == 0);
        reveal_with_fuel(trim_back, 3);
    }
    lemma_head_line(head, l6, rest);
}

/// A line that does not start with its end is not blank.
proof fn lemma_not_blank(line: Seq<char>)
    requires
        line.len() > 0,
        line[0] != '\r',
        line[0] != '\n',
    ensures
        trim_back(line.push('\n'), Trim::LineEnd).len() > 0,
{
    assert(line.push('\n').drop_last() =~= line);
    lemma_trim_back_keeps(line, Trim::LineEnd);
}

proof fn lemma_trim_back_keeps(s: Seq<char>, set: Trim)
    requires
        s.len() > 0,
        !set.has(s[0]),
    ensures
        trim_back(s, set).len() > 0,
    decreases s.len(),
{
    if set.has(s.last()) {
        assert(s.len() > 1);
        assert(s.drop_last()[0] == s[0]);
        lemma_trim_back_keeps(s.drop_last(), set);
    }
}

/// A stream that was opened and on which events were written is read back: all
/// of the events, in order, and then the end.
pub proof fn stream_round_trip(list: Seq<EventV>)
    requires
        forall|i: int|
            0 <= i < list.len() ==> one_line((#[trigger] list[i]).id) && one_line(list[i].event) && one_line(
                list[i].data,
            ) && list[i].data.len() > 0,
    ensures
        events_in(new_reader(), encode_utf8(stream_start()) + all_event_bytes(list)) == (
            list,
            bare(Fault::StreamClosed),
        ),
{
    lemma_stream_start(all_event_bytes(list));
    lemma_events(list);
}

/// A comment that keeps a stream open is passed over between events.
pub proof fn keepalive_is_passed_over(rest: Seq<u8>)
    ensures
        ({
            let between = ReaderV { stage: Stage::Events, event: no_event() };
            events_in(between, encode_utf8(": keepalive\n\n"@) + rest) == events_in(between, rest)
        }),
{
    reveal_strlit(": keepalive\n\n");
    let between = ReaderV { stage: Stage::Events, event: no_event() };
    let comment = ": keepalive\n\n"@.take(11);
    let end = seq!['\n'];
    assert(": keepalive\n\n"@.len() == 13);
    assert(comment.push('\n') + end =~= ": keepalive\n\n"@);
    encode_concat(comment.push('\n'), end);
    let b2 = encode_utf8(end) + rest;
    assert(encode_utf8(": keepalive\n\n"@) + rest =~= encode_utf8(comment.push('\n')) + b2);
    lemma_line(comment, b2);
    lemma_cut_end(comment);
    let b1 = encode_utf8(comment.push('\n')) + b2;
    assert(reader_step(between, comment.push('\n')) == Ok::<(ReaderV, Option<EventV>), ErrorV>((between, None)));
    assert(Seq::<EventV>::empty() + events_in(between, b2).0 =~= events_in(between, b2).0);
    assert(events_in(between, b1) == events_in(between, b2));
    lemma_event_end(no_event(), rest);
    assert(Seq::<EventV>::empty() + events_in(between, rest).0 =~= events_in(between, rest).0);
}

// Messages.

/// Whether a text has no white space at either end.
pub open spec fn neat(s: Seq<char>) -> bool {
    s.len() > 0 ==> !is_space(s[0]) && !is_space(s.last())
}

/// Whether a header can be written and read back.
pub open spec fn clean(h: (Seq<char>, Seq<char>)) -> bool {
    &&& forall|i: int| 0 <= i < h.0.len() ==> #[trigger] h.0[i] != '\n' && h.0[i] != ':'
    &&& forall|i: int| 0 <= i < h.1.len() ==> #[trigger] h.1[i] != '\n'
    &&& neat(h.0)
    &&& neat(h.1)
}

/// Whether all headers can be written and read back.
pub open spec fn all_clean(list: Seq<(Seq<char>, Seq<char>)>) -> bool {
    forall|i: int| 0 <= i < list.len() ==> clean(#[trigger] list[i])
}

proof fn lemma_neat_trim(s: Seq<char>)
    requires
        neat(s),
    ensures
        trim(s, Trim::Space) == s,
{
}

proof fn lemma_spaced_trim(s: Seq<char>)
    requires
        neat(s),
    ensures
        trim(seq![' '] + s, Trim::Space) == s,
{
    let t = seq![' '] + s;
    assert(t.skip(1) =~= s);
    assert(trim_front(s, Trim::Space) == s);
}

/// A header's line is read back as the header.
proof fn lemma_header_line(h: (Seq<char>, Seq<char>))
    requires
        clean(h),
    ensures
        ({
            let line = h.0 + seq![':', ' '] + h.1;
            &&& header_in(line) == Some(h)
            &&& trim_back(line.push('\r').push('\n'), Trim::LineEnd) == line
            &&& line.len() > 0
            &&& forall|i: int| 0 <= i < line.push('\r').len() ==> #[trigger] line.push('\r')[i] != '\n'
        }),
{
    let line = h.0 + seq![':', ' '] + h.1;
    let at = h.0.len() as int;
    assert forall|k: int| 0 <= k < at implies line[k] != ':' by {
        assert(line[k] == h.0[k]);
    }
    assert(line[at] == ':');
    lemma_first_is(line, ':', at);
    assert(line.take(at) =~= h.0);
    assert(line.skip(at + 1) =~= seq![' '] + h.1);
    lemma_neat_trim(h.0);
    lemma_spaced_trim(h.1);
    let ended = line.push('\r').push('\n');
    assert(ended.drop_last() =~= line.push('\r'));
    assert(line.push('\r').drop_last() =~= line);
    assert(line.last() == (if h.1.len() > 0 { h.1.last() } else { ' ' }));
    assert(trim_back(line, Trim::LineEnd) == line) by {
        if h.1.len() > 0 {
            assert(!is_space(h.1.last()));
            assert(is_space('\r') && is_space('\n'));
        }
    }
    assert(trim_back(line.push('\r'), Trim::LineEnd) == line);
    assert forall|i: int| 0 <= i < line.push('\r').len() implies #[trigger] line.push('\r')[i] != '\n' by {
        if i < at {
            assert(line[i] == h.0[i]);
        } else if at + 2 <= i < line.len() {
            assert(line[i] == h.1[i - at - 2]);
        }
    }
}

/// The lines of headers, from the front.
spec fn front_lines(list: Seq<(Seq<char>, Seq<char>)>) -> Seq<char>
    decreases list.len(),
{
    if list.len() == 0 {
        Seq::empty()
    } else {
        (list[0].0 + seq![':', ' '] + list[0].1).push('\r').push('\n') + front_lines(list.skip(1))
    }
}

proof fn lemma_front_lines(list: Seq<(Seq<char>, Seq<char>)>)
    ensures
        header_lines(list) == front_lines(list),
    decreases list.len(),
{
    if list.len() > 0 {
        lemma_front_lines(list.drop_last());
        lemma_front_lines_push(list.drop_last(), list.last());
        assert(list.drop_last().push(list.last()) =~= list);
        reveal_strlit(": ");
        reveal_strlit("\r\n");
        let h = list.last();
        assert(h.0 + ": "@ + h.1 + "\r\n"@ =~= (h.0 + seq![':', ' '] + h.1).push('\r').push('\n'));
        assert(header_lines(list) =~= header_lines(list.drop_last()) + (h.0 + seq![':', ' '] + h.1).push('\r').push(
            '\n',
        ));
    }
}

proof fn lemma_front_lines_push(list: Seq<(Seq<char>, Seq<char>)>, h: (Seq<char>, Seq<char>))
    ensures
        front_lines(list.push(h)) == front_lines(list) + (h.0 + seq![':', ' '] + h.1).push('\r').push('\n'),
    decreases list.len(),
{
    let more = list.push(h);
    let line = (h.0 + seq![':', ' '] + h.1).push('\r').push('\n');
    if list.len() == 0 {
        assert(more.skip(1).len() == 0);
        assert(front_lines(more.skip(1)) =~= Seq::empty());
        assert(front_lines(more) =~= front_lines(list) + line);
    } else {
        lemma_front_lines_push(list.skip(1), h);
        assert(more.skip(1) =~= list.skip(1).push(h));
        assert(more[0] == list[0]);
        assert(front_lines(more) =~= front_lines(list) + line);
    }
}

/// Headers that were written are read back.
proof fn lemma_headers(list: Seq<(Seq<char>, Seq<char>)>, body: Seq<u8>)
    requires
        all_clean(list),
    ensures
        ({
            let text = front_lines(list) + "\r\n"@;
            headers_in(encode_utf8(text) + body) == Ok::<(Seq<(Seq<char>, Seq<char>)>, nat), ErrorV>(
                (list, encode_utf8(text).len()),
            )
        }),
    decreases list.len(),
{
    reveal_strlit("\r\n");
    let text = front_lines(list) + "\r\n"@;
    let b = encode_utf8(text) + body;
    if list.len() == 0 {
        let line = seq!['\r'];
        assert(text =~= line.push('\n'));
        lemma_line(line, body);
        assert(trim_back(line.push('\n'), Trim::LineEnd).len() == 0) by {
            assert(line.push('\n').drop_last() =~= line);
            assert(line.drop_last().len() == 0);
            reveal_with_fuel(trim_back, 3);
        }
        assert(list =~= Seq::empty());
    } else {
        let h = list[0];
        let line = h.0 + seq![':', ' '] + h.1;
        let rest = list.skip(1);
        let rest_text = front_lines(rest) + "\r\n"@;
        assert(clean(list[0]));
        lemma_header_line(h);
        assert(text =~= line.push('\r').push('\n') + rest_text);
        encode_concat(line.push('\r').push('\n'), rest_text);
        let after = encode_utf8(rest_text) + body;
        assert(b =~= encode_utf8(line.push('\r').push('\n')) + after);
        lemma_line(line.push('\r'), after);
        assert forall|i: int| 0 <= i < rest.len() implies clean(#[trigger] rest[i]) by {
            assert(rest[i] == list[i + 1]);
        }
        lemma_headers(rest, body);
        assert(seq![h] + rest =~= list);
        assert(headers_in(b) == Ok::<(Seq<(Seq<char>, Seq<char>)>, nat), ErrorV>((list, encode_utf8(text).len())));
    }
}

/// Sorting keeps exactly the headers that were given.
pub proof fn sorting_keeps_headers(list: Seq<(Seq<char>, Seq<char>)>)
    ensures
        sorted(list).to_multiset() == list.to_multiset(),
        sorted(list).len() == list.len(),
    decreases list.len(),
{
    broadcast use vstd::seq_lib::group_to_multiset_ensures;

    if list.len() > 0 {
        sorting_keeps_headers(list.drop_last());
        lemma_inserted(sorted(list.drop_last()), list.last());
        assert(list =~= list.drop_last().push(list.last()));
    }
}

proof fn lemma_inserted(list: Seq<(Seq<char>, Seq<char>)>, h: (Seq<char>, Seq<char>))
    ensures
        inserted(list, h).to_multiset() == list.to_multiset().insert(h),
        inserted(list, h).len() == list.len() + 1,
    decreases list.len(),
{
    broadcast use vstd::seq_lib::group_to_multiset_ensures;

    if list.len() > 0 && precedes(h.0, list.last().0) {
        lemma_inserted(list.drop_last(), h);
        assert(list =~= list.drop_last().push(list.last()));
        assert(inserted(list, h).to_multiset() =~= list.to_multiset().insert(h));
    }
}

/// Whether headers are in the order of their names.
pub open spec fn in_order(list: Seq<(Seq<char>, Seq<char>)>) -> bool {
    forall|i: int, j: int| 0 <= i < j < list.len() ==> !precedes((#[trigger] list[j]).0, (#[trigger] list[i]).0)
}

/// Headers are written in the order of their names.
pub proof fn sorting_orders_headers(list: Seq<(Seq<char>, Seq<char>)>)
    ensures
        in_order(sorted(list)),
    decreases list.len(),
{
    if list.len() > 0 {
        sorting_orders_headers(list.drop_last());
        lemma_inserted_order(sorted(list.drop_last()), list.last());
    }
}

/// Everything in a list with one more header put in its place is that header or
/// from the list.
proof fn lemma_inserted_members(list: Seq<(Seq<char>, Seq<char>)>, h: (Seq<char>, Seq<char>), i: int)
    requires
        0 <= i < inserted(list, h).len(),
    ensures
        inserted(list, h)[i] == h || list.contains(inserted(list, h)[i]),
    decreases list.len(),
{
    if list.len() > 0 && precedes(h.0, list.last().0) {
        lemma_inserted(list.drop_last(), h);
        if i < list.len() {
            lemma_inserted_members(list.drop_last(), h, i);
            let x = inserted(list.drop_last(), h)[i];
            if x != h {
                let k = choose|k: int| 0 <= k < list.drop_last().len() && list.drop_last()[k] == x;
                assert(list[k] == x);
            }
        } else {
            assert(list[list.len() - 1] == inserted(list, h)[i]);
        }
    } else if i < list.len() {
        assert(list[i] == inserted(list, h)[i]);
    }
}

proof fn lemma_inserted_order(list: Seq<(Seq<char>, Seq<char>)>, h: (Seq<char>, Seq<char>))
    requires
        in_order(list),
    ensures
        in_order(inserted(list, h)),
    decreases list.len(),
{
    let after = inserted(list, h);
    lemma_inserted(list, h);
    if list.len() > 0 && precedes(h.0, list.last().0) {
        let init = list.drop_last();
        assert forall|i: int, j: int| 0 <= i < j < init.len() implies !precedes(
            (#[trigger] init[j]).0,
            (#[trigger] init[i]).0,
        ) by {
            assert(init[i] == list[i] && init[j] == list[j]);
        }
        lemma_inserted_order(init, h);
        lemma_inserted(init, h);
        let front = inserted(init, h);
        let last = list.last();
        assert forall|i: int, j: int| 0 <= i < j < after.len() implies !precedes(
            (#[trigger] after[j]).0,
            (#[trigger] after[i]).0,
        ) by {
            if j < front.len() {
                assert(after[i] == front[i] && after[j] == front[j]);
            } else {
                assert(after[j] == last && after[i] == front[i]);
                lemma_inserted_members(init, h, i);
                if front[i] == h {
                    if precedes(last.0, h.0) {
                        crate::text::lemma_precedes_transitive(last.0, h.0, last.0);
                        crate::text::lemma_precedes_irreflexive(last.0);
                    }
                } else {
                    let k = choose|k: int| 0 <= k < init.len() && init[k] == front[i];
                    assert(list[k] == front[i]);
                    assert(!precedes(list[list.len() - 1].0, list[k].0));
                }
            }
        }
    } else {
        assert forall|i: int, j: int| 0 <= i < j < after.len() implies !precedes(
            (#[trigger] after[j]).0,
            (#[trigger] after[i]).0,
        ) by {
            if j < list.len() {
                assert(after[i] == list[i] && after[j] == list[j]);
            } else {
                assert(after[j] == h && after[i] == list[i]);
                let last = list.last();
                if precedes(h.0, list[i].0) {
                    crate::text::lemma_precedes_total(last.0, list[i].0);
                    if i < list.len() - 1 {
                        assert(!precedes(list[list.len() - 1].0, list[i].0));
                        if precedes(list[i].0, last.0) {
                            crate::text::lemma_precedes_transitive(h.0, list[i].0, last.0);
                        }
                    }
                }
            }
        }
    }
}

/// Everything that is sorted was in the list.
proof fn lemma_sorted_members(list: Seq<(Seq<char>, Seq<char>)>, i: int)
    requires
        0 <= i < sorted(list).len(),
    ensures
        list.contains(sorted(list)[i]),
{
    broadcast use vstd::seq_lib::group_to_multiset_ensures;

    sorting_keeps_headers(list);
    assert(sorted(list).contains(sorted(list)[i]));
    assert(sorted(list).to_multiset().count(sorted(list)[i]) > 0);
}

proof fn lemma_sorted_has(list: Seq<(Seq<char>, Seq<char>)>, i: int)
    requires
        0 <= i < list.len(),
    ensures
        sorted(list).contains(list[i]),
{
    broadcast use vstd::seq_lib::group_to_multiset_ensures;

    sorting_keeps_headers(list);
    assert(list.contains(list[i]));
    assert(list.to_multiset().count(list[i]) > 0);
}

/// The body's length is found wherever it stands.
proof fn lemma_content_length(list: Seq<(Seq<char>, Seq<char>)>, value: Seq<char>)
    requires
        exists|i: int| 0 <= i < list.len() && lower((#[trigger] list[i]).0) == "content-length"@,
        forall|i: int|
            0 <= i < list.len() && lower((#[trigger] list[i]).0) == "content-length"@ ==> list[i].1 == value,
    ensures
        content_length(list) == (match parsed(value, usize::MAX as nat) {
            Some(n) => n,
            None => 0,
        }),
    decreases list.len(),
{
    if lower(list[0].0) != "content-length"@ {
        let rest = list.skip(1);
        let i = choose|i: int| 0 <= i < list.len() && lower((#[trigger] list[i]).0) == "content-length"@;
        assert(rest[i - 1] == list[i]);
        assert forall|k: int|
            0 <= k < rest.len() && lower((#[trigger] rest[k]).0) == "content-length"@ implies rest[k].1 == value by {
            assert(rest[k] == list[k + 1]);
        }
        lemma_content_length(rest, value);
    }
}

/// A head that was written, with what follows it, is read back.
pub proof fn lemma_message(line: Seq<char>, list: Seq<(Seq<char>, Seq<char>)>, body: Seq<u8>, skip_body: bool)
    requires
        forall|i: int| 0 <= i < line.len() ==> #[trigger] line[i] != '\n',
        all_clean(list),
        skip_body || content_length(list) == body.len(),
    ensures
        message_in(encode_utf8(line.push('\n') + header_lines(list) + "\r\n"@) + body, skip_body) == Ok::<
            MessageV,
            ErrorV,
        >(
            MessageV {
                first_line: line.push('\n'),
                headers: list,
                body: if skip_body {
                    Seq::empty()
                } else {
                    body
                },
            },
        ),
{
    lemma_front_lines(list);
    let text = front_lines(list) + "\r\n"@;
    let first_line = line.push('\n');
    assert(first_line + header_lines(list) + "\r\n"@ =~= first_line + text);
    encode_concat(first_line, text);
    let after = encode_utf8(text) + body;
    let b = encode_utf8(first_line + header_lines(list) + "\r\n"@) + body;
    assert(b =~= encode_utf8(first_line) + after);
    lemma_line(line, after);
    lemma_headers(list, body);
    assert(b.skip(encode_utf8(first_line).len() as int + encode_utf8(text).len()) =~= body);
    assert(body.take(body.len() as int) =~= body);
    assert(body.take(0) =~= Seq::empty());
}

/// Sorted headers are as clean as the headers.
proof fn lemma_sorted_clean(all: Seq<(Seq<char>, Seq<char>)>)
    requires
        all_clean(all),
    ensures
        all_clean(sorted(all)),
{
    let list = sorted(all);
    assert forall|i: int| 0 <= i < list.len() implies clean(#[trigger] list[i]) by {
        lemma_sorted_members(all, i);
        let k = choose|k: int| 0 <= k < all.len() && all[k] == list[i];
        assert(clean(all[k]));
    }
}

/// The length that all headers with that name agree on is read.
proof fn lemma_sorted_length(all: Seq<(Seq<char>, Seq<char>)>, length: nat)
    requires
        has_header(all, "Content-Length"@),
        forall|i: int|
            0 <= i < all.len() && lower((#[trigger] all[i]).0) == lower("Content-Length"@) ==> all[i].1 == decimal(
                length,
            ),
        length <= usize::MAX,
    ensures
        content_length(sorted(all)) == length,
{
    let list = sorted(all);
    assert(lower("Content-Length"@) == "content-length"@) by {
        reveal_strlit("Content-Length");
        reveal_strlit("content-length");
        assert(lower("Content-Length"@) =~= "content-length"@);
    }
    assert(exists|i: int| 0 <= i < list.len() && lower((#[trigger] list[i]).0) == "content-length"@) by {
        let k = choose|k: int| 0 <= k < all.len() && lower((#[trigger] all[k]).0) == lower("Content-Length"@);
        lemma_sorted_has(all, k);
        let i = choose|i: int| 0 <= i < list.len() && list[i] == all[k];
        assert(lower(list[i].0) == "content-length"@);
    }
    assert forall|i: int|
        0 <= i < list.len() && lower((#[trigger] list[i]).0) == "content-length"@ implies list[i].1 == decimal(
        length,
    ) by {
        lemma_sorted_members(all, i);
        let k = choose|k: int| 0 <= k < all.len() && all[k] == list[i];
        assert(lower(all[k].0) == lower("Content-Length"@));
    }
    lemma_content_length(list, decimal(length));
    decimal_round_trip(length, usize::MAX as nat);
}

/// A message is read back as it was written, with its headers in order and the
/// length of its body among them, and without its body where that is left out.
pub proof fn message_round_trip(
    line: Seq<char>,
    headers: Seq<(Seq<char>, Seq<char>)>,
    body: Seq<u8>,
    skip_body: bool,
)
    requires
        forall|i: int| 0 <= i < line.len() ==> #[trigger] line[i] != '\n',
        all_clean(headers),
        !has_header(headers, "Content-Length"@),
        body.len() <= usize::MAX,
    ensures
        message_in(message_bytes(line.push('\n'), headers, body), skip_body) == Ok::<MessageV, ErrorV>(
            MessageV {
                first_line: line.push('\n'),
                headers: final_headers(headers, body.len()),
                body: if skip_body {
                    Seq::empty()
                } else {
                    body
                },
            },
        ),
{
    let all = headers.push(("Content-Length"@, decimal(body.len())));
    lemma_length_clean(body.len());
    assert forall|i: int| 0 <= i < all.len() implies clean(#[trigger] all[i]) by {
        if i < headers.len() {
            assert(clean(headers[i]));
        }
    }
    lemma_sorted_clean(all);
    assert(has_header(all, "Content-Length"@)) by {
        assert(lower(all[headers.len() as int].0) == lower("Content-Length"@));
    }
    assert forall|i: int|
        0 <= i < all.len() && lower((#[trigger] all[i]).0) == lower("Content-Length"@) implies all[i].1 == decimal(
        body.len(),
    ) by {
        if i < headers.len() {
            assert(lower(headers[i].0) == lower("Content-Length"@));
        }
    }
    lemma_sorted_length(all, body.len());
    lemma_message(line, sorted(all), body, skip_body);
}

/// A head that gives the length of what follows it is read back with that.
pub proof fn streamed_message_round_trip(
    line: Seq<char>,
    headers: Seq<(Seq<char>, Seq<char>)>,
    body: Seq<u8>,
    skip_body: bool,
)
    requires
        forall|i: int| 0 <= i < line.len() ==> #[trigger] line[i] != '\n',
        all_clean(headers),
        has_header(headers, "Content-Length"@),
        forall|i: int|
            0 <= i < headers.len() && lower((#[trigger] headers[i]).0) == lower("Content-Length"@) ==> headers[i].1
                == decimal(body.len()),
        body.len() <= usize::MAX,
    ensures
        message_in(message_bytes(line.push('\n'), headers, Seq::empty()) + body, skip_body) == Ok::<MessageV, ErrorV>(
            MessageV {
                first_line: line.push('\n'),
                headers: sorted(headers),
                body: if skip_body {
                    Seq::empty()
                } else {
                    body
                },
            },
        ),
{
    lemma_sorted_clean(headers);
    lemma_sorted_length(headers, body.len());
    lemma_message(line, sorted(headers), body, skip_body);
    let head = encode_utf8(line.push('\n') + header_lines(sorted(headers)) + "\r\n"@);
    assert(head + Seq::<u8>::empty() =~= head);
}

proof fn lemma_length_clean(n: nat)
    ensures
        clean(("Content-Length"@, decimal(n))),
{
    reveal_strlit("Content-Length");
    lemma_decimal(n);
    let s = decimal(n);
    assert(is_digit(s[0]) && is_digit(s[s.len() - 1]));
    assert forall|i: int| 0 <= i < s.len() implies #[trigger] s[i] != '\n' by {
        assert(is_digit(s[i]));
    }
}

// Requests and responses.

proof fn lemma_first_space_is(s: Seq<char>, n: int)
    requires
        0 <= n <= s.len(),
        forall|i: int| 0 <= i < n ==> !is_space(#[trigger] s[i]),
        n < s.len() ==> is_space(s[n]),
    ensures
        first_space(s) == n,
    decreases n,
{
    if n > 0 {
        assert(!is_space(s[0]));
        let t = s.skip(1);
        assert forall|i: int| 0 <= i < n - 1 implies !is_space(#[trigger] t[i]) by {
            assert(t[i] == s[i + 1]);
        }
        lemma_first_space_is(t, n - 1);
    }
}

/// A word in front of white space is the first word.
proof fn lemma_first_word(word: Seq<char>, rest: Seq<char>)
    requires
        word.len() > 0,
        forall|i: int| 0 <= i < word.len() ==> !is_space(#[trigger] word[i]),
        rest.len() > 0 ==> is_space(rest[0]),
    ensures
        words(word + rest) == seq![word] + words(rest),
{
    let s = word + rest;
    assert(!is_space(word[0]) && s[0] == word[0]);
    assert(trim_front(s, Trim::Space) == s);
    assert forall|i: int| 0 <= i < word.len() implies !is_space(#[trigger] s[i]) by {
        assert(s[i] == word[i]);
    }
    lemma_first_space_is(s, word.len() as int);
    assert(s.take(word.len() as int) =~= word);
    assert(s.skip(word.len() as int) =~= rest);
}

/// White space in front of words is passed over.
proof fn lemma_space_before(c: char, s: Seq<char>)
    requires
        is_space(c),
    ensures
        words(seq![c] + s) == words(s),
{
    let t = seq![c] + s;
    assert(t.skip(1) =~= s);
    assert(trim_front(t, Trim::Space) == trim_front(s, Trim::Space));
}

/// A response is read back as it was written: the same code and headers, and the
/// same body unless that is left out, as in the answer to a request for headers.
pub proof fn response_round_trip(
    code: u16,
    headers: Seq<(Seq<char>, Seq<char>)>,
    body: Seq<u8>,
    skip_body: bool,
)
    requires
        all_clean(headers),
        !has_header(headers, "Content-Length"@),
        body.len() <= usize::MAX,
    ensures
        response_read(response_bytes(code, headers, body), skip_body) == Ok::<ResponseV, ErrorV>(
            ResponseV {
                status: code,
                headers: final_headers(headers, body.len()),
                body: if skip_body {
                    Seq::empty()
                } else {
                    body
                },
            },
        ),
{
    lemma_status_line(code);
    message_round_trip(status_line(code).drop_last(), headers, body, skip_body);
}

/// A response whose head gives the length of what follows it is read back with
/// that.
pub proof fn streamed_response_round_trip(
    code: u16,
    headers: Seq<(Seq<char>, Seq<char>)>,
    body: Seq<u8>,
    skip_body: bool,
)
    requires
        all_clean(headers),
        has_header(headers, "Content-Length"@),
        forall|i: int|
            0 <= i < headers.len() && lower((#[trigger] headers[i]).0) == lower("Content-Length"@) ==> headers[i].1
                == decimal(body.len()),
        body.len() <= usize::MAX,
    ensures
        response_read(response_bytes(code, headers, Seq::empty()) + body, skip_body) == Ok::<ResponseV, ErrorV>(
            ResponseV {
                status: code,
                headers: sorted(headers),
                body: if skip_body {
                    Seq::empty()
                } else {
                    body
                },
            },
        ),
{
    lemma_status_line(code);
    streamed_message_round_trip(status_line(code).drop_last(), headers, body, skip_body);
}

/// The second word of the first line of a response is its code.
pub proof fn lemma_status_line(code: u16)
    ensures
        ({
            let line = status_line(code).drop_last();
            &&& status_line(code) == line.push('\n')
            &&& forall|i: int| 0 <= i < line.len() ==> #[trigger] line[i] != '\n'
            &&& words(status_line(code)).len() >= 2
            &&& parsed(words(status_line(code))[1], u16::MAX as nat) == Some(code as nat)
        }),
{
    reveal_strlit("HTTP/1.1 ");
    reveal_strlit(" ");
    reveal_strlit("\r\n");
    lemma_reason(code);
    let number = decimal(code as nat);
    lemma_decimal(code as nat);
    let version = seq!['H', 'T', 'T', 'P', '/', '1', '.', '1'];
    let tail = reason(code) + seq!['\r', '\n'];
    let after = number + (seq![' '] + tail);
    let line = status_line(code).drop_last();
    assert(status_line(code) =~= version + (seq![' '] + after));
    assert(status_line(code) =~= line.push('\n'));
    assert forall|i: int| 0 <= i < line.len() implies #[trigger] line[i] != '\n' by {
        if 9 <= i < 9 + number.len() {
            assert(line[i] == number[i - 9]);
            assert(is_digit(number[i - 9]));
        } else if 10 + number.len() <= i < line.len() - 1 {
            assert(line[i] == reason(code)[i - 10 - number.len()]);
        }
    }
    assert forall|i: int| 0 <= i < number.len() implies !is_space(#[trigger] number[i]) by {
        assert(is_digit(number[i]));
    }
    assert(is_space(' '));
    lemma_first_word(version, seq![' '] + after);
    lemma_space_before(' ', after);
    lemma_first_word(number, seq![' '] + tail);
    assert(words(status_line(code))[1] == number);
    decimal_round_trip(code as nat, u16::MAX as nat);
}

proof fn lemma_reason(code: u16)
    ensures
        forall|i: int| 0 <= i < reason(code).len() ==> #[trigger] reason(code)[i] != '\n',
{
    reveal_strlit("OK");
    reveal_strlit("Created");
    reveal_strlit("No Content");
    reveal_strlit("Bad Request");
    reveal_strlit("Unauthorized");
    reveal_strlit("Forbidden");
    reveal_strlit("Not Found");
    reveal_strlit("Method Not Allowed");
    reveal_strlit("Conflict");
    reveal_strlit("Internal Server Error");
    reveal_strlit("Unknown");
}

/// The characters of a percent-encoded path are visible ASCII.
proof fn lemma_path_chars(b: Seq<u8>)
    ensures
        forall|i: int|
            0 <= i < path_bytes_encoded(b).len() ==> '!' <= #[trigger] path_bytes_encoded(b)[i] <= '~',
        b.len() > 0 ==> path_bytes_encoded(b).len() > 0,
    decreases b.len(),
{
    if b.len() > 0 {
        lemma_path_chars(b.drop_last());
        let head = path_bytes_encoded(b.drop_last());
        let tail = path_byte(b.last());
        assert forall|i: int| 0 <= i < tail.len() implies '!' <= #[trigger] tail[i] <= '~' by {}
        assert forall|i: int| 0 <= i < path_bytes_encoded(b).len() implies '!' <= #[trigger] path_bytes_encoded(b)[i]
            <= '~' by {
            if i < head.len() {
                assert(path_bytes_encoded(b)[i] == head[i]);
            } else {
                assert(path_bytes_encoded(b)[i] == tail[i - head.len()]);
            }
        }
    }
}

/// The bytes of a percent-encoded path.
spec fn path_ascii(b: Seq<u8>) -> Seq<u8> {
    let s = path_bytes_encoded(b);
    Seq::new(s.len(), |i: int| s[i] as u8)
}

/// The bytes that one byte of a path is encoded as.
spec fn path_byte_ascii(b: u8) -> Seq<u8> {
    if path_byte_encoded(b) {
        seq![37u8, upper_hex(b as int / 16) as u8, upper_hex(b as int % 16) as u8]
    } else {
        seq![b]
    }
}

proof fn lemma_path_front(b: Seq<u8>)
    requires
        b.len() > 0,
    ensures
        path_ascii(b) == path_byte_ascii(b[0]) + path_ascii(b.skip(1)),
    decreases b.len(),
{
    let rest = b.skip(1);
    if b.len() == 1 {
        assert(b.drop_last().len() == 0);
        assert(path_bytes_encoded(b.drop_last()).len() == 0);
        assert(path_bytes_encoded(rest).len() == 0);
        assert(path_ascii(b) =~= path_byte_ascii(b[0]) + path_ascii(rest));
    } else {
        lemma_path_front(b.drop_last());
        assert(b.drop_last().skip(1) =~= rest.drop_last());
        assert(path_ascii(b) =~= path_ascii(b.drop_last()) + path_byte_ascii(b.last()));
        assert(path_ascii(rest) =~= path_ascii(rest.drop_last()) + path_byte_ascii(rest.last()));
        assert(path_ascii(b) =~= path_byte_ascii(b[0]) + path_ascii(rest));
    }
}

pub proof fn lemma_hex_byte(b: u8)
    ensures
        is_hex(upper_hex(b as int / 16) as u8),
        is_hex(upper_hex(b as int % 16) as u8),
        hex_value(upper_hex(b as int / 16) as u8) * 16 + hex_value(upper_hex(b as int % 16) as u8) == b,
{
}

/// Whether the bytes start with an escape.
spec fn escape_first(b: Seq<u8>) -> bool {
    b.len() >= 3 && b[0] == 37 && is_hex(b[1]) && is_hex(b[2])
}

proof fn lemma_path_unescaped(b: Seq<u8>)
    ensures
        percent_unescaped(path_ascii(b)) == percent_unescaped(b),
    decreases b.len(),
{
    let e = path_ascii(b);
    if b.len() == 0 {
        assert(e.len() == 0);
    } else {
        lemma_path_front(b);
        let rest = b.skip(1);
        let er = path_ascii(rest);
        if escape_first(b) {
            let last = b.skip(2);
            let tail = b.skip(3);
            assert(rest.skip(1) =~= last && last.skip(1) =~= tail);
            lemma_path_front(rest);
            lemma_path_front(last);
            assert(e =~= seq![37u8, b[1], b[2]] + path_ascii(tail));
            assert(e.skip(3) =~= path_ascii(tail));
            lemma_path_unescaped(tail);
        } else if path_byte_encoded(b[0]) {
            lemma_hex_byte(b[0]);
            assert(e.skip(3) =~= er);
            lemma_path_unescaped(rest);
            assert(seq![b[0]] =~= seq![(hex_value(e[1]) * 16 + hex_value(e[2])) as u8]);
        } else {
            assert(e.skip(1) =~= er);
            assert(!escape_first(e)) by {
                if escape_first(e) {
                    assert(e[1] == er[0] && e[2] == er[1]);
                    assert(rest.len() > 0);
                    lemma_path_front(rest);
                    assert(b[1] == er[0]);
                    let last = rest.skip(1);
                    let el = path_ascii(last);
                    assert(er[1] == el[0]);
                    assert(last.len() > 0);
                    lemma_path_front(last);
                    assert(last[0] == b[2]);
                }
            }
            lemma_path_unescaped(rest);
        }
    }
}

/// A question mark keeps apart what is unescaped before and behind it.
proof fn lemma_unescaped_mark(a: Seq<u8>, b: Seq<u8>)
    ensures
        percent_unescaped(a + seq![63u8] + b) == percent_unescaped(a) + seq![63u8] + percent_unescaped(b),
    decreases a.len(),
{
    let all = a + seq![63u8] + b;
    if a.len() == 0 {
        assert(all.skip(1) =~= b);
        assert(all[0] == 63);
        assert(percent_unescaped(a) =~= Seq::empty());
        assert(percent_unescaped(all) =~= percent_unescaped(a) + seq![63u8] + percent_unescaped(b));
    } else if escape_first(a) {
        assert(all[0] == a[0] && all[1] == a[1] && all[2] == a[2]);
        assert(all.skip(3) =~= a.skip(3) + seq![63u8] + b);
        lemma_unescaped_mark(a.skip(3), b);
        assert(percent_unescaped(all) =~= percent_unescaped(a) + seq![63u8] + percent_unescaped(b));
    } else {
        assert(!escape_first(all)) by {
            if escape_first(all) {
                assert(all[0] == a[0]);
                if a.len() == 1 {
                    assert(all[1] == 63);
                } else if a.len() == 2 {
                    assert(all[2] == 63);
                } else {
                    assert(all[1] == a[1] && all[2] == a[2]);
                }
            }
        }
        assert(all[0] == a[0]);
        assert(all.skip(1) =~= a.skip(1) + seq![63u8] + b);
        lemma_unescaped_mark(a.skip(1), b);
        assert(percent_unescaped(all) =~= percent_unescaped(a) + seq![63u8] + percent_unescaped(b));
    }
}

/// Percent-encoding a path for a request line does not change what it decodes
/// to, whether or not parts of it are encoded already.
pub proof fn path_decodes_unchanged(path: Seq<char>)
    ensures
        percent_decoded(path_encoded(path)) == percent_decoded(path),
{
    let b = encode_utf8(path);
    lemma_path_chars(b);
    let s = path_encoded(path);
    assert(vstd::utf8::is_ascii_chars(s));
    vstd::utf8::is_ascii_chars_encode_utf8(s);
    assert(encode_utf8(s) =~= path_ascii(b));
    lemma_path_unescaped(b);
}

/// A path with its query.
pub open spec fn with_query(path: Seq<char>, query: Option<Seq<char>>) -> Seq<char> {
    match query {
        Some(q) => path + "?"@ + q,
        None => path,
    }
}

proof fn lemma_mark()
    ensures
        encode_utf8("?"@) == seq![63u8],
        "?"@ == seq!['?'],
{
    reveal_strlit("?");
    assert("?"@ =~= seq!['?']);
    assert(vstd::utf8::is_ascii_chars("?"@));
    vstd::utf8::is_ascii_chars_encode_utf8("?"@);
    assert(encode_utf8("?"@) =~= seq![63u8]);
}

/// Writing a path and a query as a target does not change what they decode to.
pub proof fn target_decodes_unchanged(path: Seq<char>, query: Option<Seq<char>>)
    ensures
        percent_decoded(target_of(path, query)) == percent_decoded(with_query(path, query)),
{
    match query {
        None => {
            path_decodes_unchanged(path);
        },
        Some(q) => {
            let p = path_encoded(path);
            let r = path_encoded(q);
            lemma_mark();
            lemma_path_chars(encode_utf8(path));
            lemma_path_chars(encode_utf8(q));
            assert(vstd::utf8::is_ascii_chars(p));
            assert(vstd::utf8::is_ascii_chars(r));
            vstd::utf8::is_ascii_chars_encode_utf8(p);
            vstd::utf8::is_ascii_chars_encode_utf8(r);
            assert(encode_utf8(p) =~= path_ascii(encode_utf8(path)));
            assert(encode_utf8(r) =~= path_ascii(encode_utf8(q)));
            encode_concat(p, "?"@);
            encode_concat(p + "?"@, r);
            encode_concat(path, "?"@);
            encode_concat(path + "?"@, q);
            lemma_unescaped_mark(encode_utf8(p), encode_utf8(r));
            lemma_unescaped_mark(encode_utf8(path), encode_utf8(q));
            lemma_path_unescaped(encode_utf8(path));
            lemma_path_unescaped(encode_utf8(q));
        },
    }
}

/// The characters of a target are visible ASCII.
proof fn lemma_target_chars(path: Seq<char>, query: Option<Seq<char>>)
    requires
        path.len() > 0,
    ensures
        target_of(path, query).len() > 0,
        forall|i: int|
            0 <= i < target_of(path, query).len() ==> '!' <= #[trigger] target_of(path, query)[i] <= '~',
{
    lemma_path_chars(encode_utf8(path));
    assert(encode_utf8(path).len() > 0);
    if let Some(q) = query {
        lemma_path_chars(encode_utf8(q));
        lemma_mark();
        let p = path_encoded(path);
        let all = target_of(path, query);
        assert forall|i: int| 0 <= i < all.len() implies '!' <= #[trigger] all[i] <= '~' by {
            if i < p.len() {
                assert(all[i] == p[i]);
            } else if i > p.len() {
                assert(all[i] == path_encoded(q)[i - p.len() - 1]);
            }
        }
    }
}

/// A request is read back as it was written: its target is the path decoded,
/// with the query.
pub proof fn request_round_trip(
    host: Seq<char>,
    path: Seq<char>,
    query: Option<Seq<char>>,
    method: Seq<char>,
    headers: Seq<(Seq<char>, Seq<char>)>,
    body: Seq<u8>,
)
    requires
        method.len() > 0,
        forall|i: int| 0 <= i < method.len() ==> !is_space(#[trigger] method[i]),
        path.len() > 0,
        all_clean(headers.push(("Host"@, host))),
        !has_header(headers.push(("Host"@, host)), "Content-Length"@),
        body.len() <= usize::MAX,
    ensures
        request_read(request_bytes(host, path, query, method, headers, body), false) == (match percent_decoded(
            with_query(path, query),
        ) {
            Some(target) => Ok::<RequestV, ErrorV>(
                RequestV {
                    method,
                    target,
                    headers: final_headers(headers.push(("Host"@, host)), body.len()),
                    body,
                },
            ),
            None => Err(bare(Fault::InvalidPath)),
        }),
{
    reveal_strlit(" ");
    reveal_strlit(" HTTP/1.1\r\n");
    let target = target_of(path, query);
    lemma_target_chars(path, query);
    let version = seq!['H', 'T', 'T', 'P', '/', '1', '.', '1'];
    let end = seq!['\r', '\n'];
    let last = version + end;
    let mid = target + (seq![' '] + last);
    let full = method + " "@ + target + " HTTP/1.1\r\n"@;
    let line = full.drop_last();
    assert(full =~= method + (seq![' '] + mid));
    assert(full =~= line.push('\n'));
    assert forall|i: int| 0 <= i < line.len() implies #[trigger] line[i] != '\n' by {
        if i < method.len() {
            assert(line[i] == method[i]);
            assert(is_space('\n'));
        } else if method.len() < i <= method.len() + target.len() {
            assert(line[i] == target[i - method.len() - 1]);
        }
    }
    message_round_trip(line, headers.push(("Host"@, host)), body, false);
    assert forall|i: int| 0 <= i < target.len() implies !is_space(#[trigger] target[i]) by {
        assert('!' <= target[i] <= '~');
    }
    assert(is_space(' ') && is_space('\r') && is_space('\n'));
    lemma_first_word(method, seq![' '] + mid);
    lemma_space_before(' ', mid);
    lemma_first_word(target, seq![' '] + last);
    lemma_space_before(' ', last);
    lemma_first_word(version, end);
    assert(words(end).len() == 0) by {
        assert(end =~= seq!['\r'] + seq!['\n']);
        lemma_space_before('\r', seq!['\n']);
        assert(seq!['\n'] =~= seq!['\n'] + Seq::<char>::empty());
        lemma_space_before('\n', Seq::<char>::empty());
    }
    assert(words(full) =~= seq![method, target, version]);
    target_decodes_unchanged(path, query);
}

/// The headers that a message is written with can be read back, and announce its body.
pub proof fn lemma_final_headers(headers: Seq<(Seq<char>, Seq<char>)>, length: nat)
    requires
        all_clean(headers),
        !has_header(headers, "Content-Length"@),
        length <= usize::MAX,
    ensures
        all_clean(final_headers(headers, length)),
        content_length(final_headers(headers, length)) == length,
{
    let all = headers.push(("Content-Length"@, decimal(length)));
    lemma_length_clean(length);
    assert forall|i: int| 0 <= i < all.len() implies clean(#[trigger] all[i]) by {
        if i < headers.len() {
            assert(clean(headers[i]));
        }
    }
    lemma_sorted_clean(all);
    assert(has_header(all, "Content-Length"@)) by {
        assert(lower(all[headers.len() as int].0) == lower("Content-Length"@));
    }
    assert forall|i: int|
        0 <= i < all.len() && lower((#[trigger] all[i]).0) == lower("Content-Length"@) implies all[i].1 == decimal(
        length,
    ) by {
        if i < headers.len() {
            assert(lower(headers[i].0) == lower("Content-Length"@));
        }
    }
    lemma_sorted_length(all, length);
}

/// Headers that were written are read back, whatever follows their empty line.
pub proof fn lemma_written_headers(list: Seq<(Seq<char>, Seq<char>)>, body: Seq<u8>)
    requires
        all_clean(list),
    ensures
        headers_in(encode_utf8(header_lines(list) + "\r\n"@) + body) == Ok::<(Seq<(Seq<char>, Seq<char>)>, nat), ErrorV>(
            (list, encode_utf8(header_lines(list) + "\r\n"@).len()),
        ),
{
    lemma_front_lines(list);
    lemma_headers(list, body);
}

/// The lines of headers are the line of the first and those of the others.
pub proof fn lemma_header_front(list: Seq<(Seq<char>, Seq<char>)>)
    requires
        list.len() > 0,
    ensures
        header_lines(list) == (list[0].0 + seq![':', ' '] + list[0].1).push('\r').push('\n') + header_lines(list.skip(1)),
{
    lemma_front_lines(list);
    lemma_front_lines(list.skip(1));
}

} // verus!
