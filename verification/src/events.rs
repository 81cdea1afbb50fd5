//! Streams of server-sent events.

use vstd::prelude::*;
use vstd::utf8::{decode_utf8, encode_utf8, valid_utf8};

use crate::error::{bare, fail, fail_with, with, Error, ErrorV, Fault};
use crate::http::line_len;
use crate::primitives::utf8_text;
use crate::text::{
    copy_bytes, cut, find, from_chars, part, same_chars, starts_with, to_chars, trim_back, trim_end, Trim,
};

verus! {

/// An event of a stream.
#[derive(Clone, Debug, PartialEq, Eq)]
pub struct StreamEvent {
    pub id: String,
    pub event: String,
    pub data: String,
}

/// The view of an event.
#[verifier::ext_equal]
pub struct EventV {
    pub id: Seq<char>,
    pub event: Seq<char>,
    pub data: Seq<char>,
}

impl View for StreamEvent {
    type V = EventV;

    open spec fn view(&self) -> EventV {
        EventV { id: self.id@, event: self.event@, data: self.data@ }
    }
}

/// An event of which nothing has arrived.
pub open spec fn no_event() -> EventV {
    EventV { id: Seq::empty(), event: Seq::empty(), data: Seq::empty() }
}

fn new_event() -> (r: StreamEvent)
    ensures
        r@ == no_event(),
{
    let r = StreamEvent { id: String::new(), event: String::new(), data: String::new() };
    assert(r@ =~= no_event());
    r
}

/// How far a stream has been read: the status line, the headers or the events.
#[derive(Clone, Copy, Debug, PartialEq, Eq, Structural)]
pub enum Stage {
    Status,
    Headers,
    Events,
}

/// A stream while it is read.
#[derive(Debug)]
pub struct EventReader {
    pub stage: Stage,
    pub event: StreamEvent,
}

/// The view of a stream while it is read.
#[verifier::ext_equal]
pub struct ReaderV {
    pub stage: Stage,
    pub event: EventV,
}

impl View for EventReader {
    type V = ReaderV;

    open spec fn view(&self) -> ReaderV {
        ReaderV { stage: self.stage, event: self.event@ }
    }
}

/// A stream of which nothing has been read.
pub open spec fn new_reader() -> ReaderV {
    ReaderV { stage: Stage::Status, event: no_event() }
}

/// The field and the value of a line: one space after the colon is not part of
/// the value, and a line without a colon is a field without a value.
pub open spec fn field_in(line: Seq<char>) -> (Seq<char>, Seq<char>) {
    match cut(line, ':') {
        Some((field, value)) => (field, if value.len() > 0 && value[0] == ' ' {
            value.skip(1)
        } else {
            value
        }),
        None => (line, Seq::empty()),
    }
}

/// An event after one of its fields. The values of several data fields are
/// joined by line feeds.
pub open spec fn event_with(e: EventV, field: Seq<char>, value: Seq<char>) -> EventV {
    if field == "id"@ {
        EventV { id: value, ..e }
    } else if field == "event"@ {
        EventV { event: value, ..e }
    } else if field == "data"@ {
        EventV {
            data: (if e.data.len() > 0 {
                e.data.push('\n')
            } else {
                e.data
            }) + value,
            ..e
        }
    } else {
        e
    }
}

/// The event after a line, and the event that the line completes, if it is the
/// empty line after some data. Lines that start with a colon are comments.
pub open spec fn event_step(e: EventV, line: Seq<char>) -> (EventV, Option<EventV>) {
    if line.len() == 0 {
        (no_event(), if e.data.len() > 0 {
            Some(e)
        } else {
            None
        })
    } else if line[0] == ':' {
        (e, None)
    } else {
        (event_with(e, field_in(line).0, field_in(line).1), None)
    }
}

/// The stream after a line, and the event that the line completes, if any.
pub open spec fn reader_step(r: ReaderV, line: Seq<char>) -> Result<(ReaderV, Option<EventV>), ErrorV> {
    match r.stage {
        Stage::Status => if "HTTP/1.1 200"@.is_prefix_of(line) {
            Ok((ReaderV { stage: Stage::Headers, ..r }, None))
        } else {
            Err(with(Fault::StreamOpen, trim_back(line, Trim::Space)))
        },
        Stage::Headers => if trim_back(line, Trim::LineEnd).len() == 0 {
            Ok((ReaderV { stage: Stage::Events, ..r }, None))
        } else {
            Ok((r, None))
        },
        Stage::Events => {
            let (event, done) = event_step(r.event, trim_back(line, Trim::LineEnd));
            Ok((ReaderV { event, ..r }, done))
        },
    }
}

/// What it means that a stream ended.
pub open spec fn ended(stage: Stage) -> ErrorV {
    match stage {
        Stage::Status => bare(Fault::ClosedBeforeStatus),
        Stage::Headers => bare(Fault::ClosedInHeaders),
        Stage::Events => bare(Fault::StreamClosed),
    }
}

/// The events in the bytes of a stream, in order, and how it ended.
pub open spec fn events_in(r: ReaderV, b: Seq<u8>) -> (Seq<EventV>, ErrorV)
    decreases b.len(),
    via events_in_decreases
{
    let n = line_len(b) as int;
    if b.len() == 0 {
        (Seq::empty(), ended(r.stage))
    } else if !valid_utf8(b.take(n)) {
        (Seq::empty(), bare(Fault::LineNotUtf8))
    } else {
        match reader_step(r, decode_utf8(b.take(n))) {
            Ok((next, done)) => {
                let (rest, end) = events_in(next, b.skip(n));
                ((match done {
                    Some(e) => seq![e],
                    None => Seq::empty(),
                }) + rest, end)
            },
            Err(e) => (Seq::empty(), e),
        }
    }
}

#[via_fn]
proof fn events_in_decreases(r: ReaderV, b: Seq<u8>) {
    crate::http::lemma_line_len(b);
}

/// The view of an optional event.
pub open spec fn opt_event(e: Option<StreamEvent>) -> Option<EventV> {
    match e {
        Some(event) => Some(event@),
        None => None,
    }
}

impl StreamEvent {
    /// Takes in one field.
    fn set(&mut self, field: &[char], value: &[char])
        ensures
            final(self)@ == event_with(old(self)@, field@, value@),
    {
        if same_chars(field, &to_chars("id")) {
            self.id = from_chars(value);
        } else if same_chars(field, &to_chars("event")) {
            self.event = from_chars(value);
        } else if same_chars(field, &to_chars("data")) {
            if !self.data.as_str().is_empty() {
                self.data.push('\n');
            }
            self.data.append(&from_chars(value));
        }
    }
}

impl EventReader {
    /// A stream of which nothing has been read.
    pub fn new() -> (r: EventReader)
        ensures
            r@ == new_reader(),
    {
        EventReader { stage: Stage::Status, event: new_event() }
    }

    /// Takes in one line with its end, and gives the event that it completes, if
    /// any.
    pub fn line(&mut self, text: &str) -> (r: Result<Option<StreamEvent>, Error>)
        ensures
            r matches Ok(done) ==> reader_step(old(self)@, text@) == Ok::<(ReaderV, Option<EventV>), ErrorV>(
                (final(self)@, opt_event(done)),
            ),
            r matches Err(e) ==> reader_step(old(self)@, text@) == Err::<(ReaderV, Option<EventV>), ErrorV>(e@),
    {
        let chars = to_chars(text);
        match self.stage {
            Stage::Status => {
                if starts_with(&chars, &to_chars("HTTP/1.1 200")) {
                    self.stage = Stage::Headers;
                    Ok(None)
                } else {
                    Err(fail_with(Fault::StreamOpen, from_chars(trim_end(&chars, Trim::Space))))
                }
            },
            Stage::Headers => {
                if trim_end(&chars, Trim::LineEnd).len() == 0 {
                    self.stage = Stage::Events;
                }
                Ok(None)
            },
            Stage::Events => {
                let line = trim_end(&chars, Trim::LineEnd);
                if line.len() == 0 {
                    let mut event = new_event();
                    std::mem::swap(&mut event, &mut self.event);
                    if event.data.as_str().is_empty() {
                        return Ok(None);
                    }
                    return Ok(Some(event));
                }
                if line[0] == ':' {
                    return Ok(None);
                }
                let n: usize = line.len();
                let at: usize = find(line, ':');
                if at == n {
                    let nothing: Vec<char> = Vec::new();
                    assert(nothing@ =~= Seq::empty());
                    self.event.set(line, &nothing);
                } else {
                    assert(line@.subrange(0, at as int) =~= line@.take(at as int));
                    assert(line@.subrange(at + 1, n as int) =~= line@.skip(at + 1));
                    let from: usize = if at + 1 < n && line[at + 1] == ' ' { at + 2 } else { at + 1 };
                    proof {
                        let value = line@.skip(at + 1);
                        if value.len() > 0 {
                            assert(value[0] == line@[at + 1]);
                        }
                        if from == at + 2 {
                            assert(line@.subrange(from as int, n as int) =~= value.skip(1));
                        }
                    }
                    self.event.set(part(line, 0, at), part(line, from, n));
                }
                Ok(None)
            },
        }
    }

    /// What it means that the stream ended here.
    pub fn closed(&self) -> (r: Error)
        ensures
            r@ == ended(self@.stage),
    {
        match self.stage {
            Stage::Status => fail(Fault::ClosedBeforeStatus),
            Stage::Headers => fail(Fault::ClosedInHeaders),
            Stage::Events => fail(Fault::StreamClosed),
        }
    }
}

/// The views of a list of events.
pub open spec fn events_view(list: Seq<StreamEvent>) -> Seq<EventV> {
    list.map_values(|e: StreamEvent| e@)
}

fn end_of_line(b: &[u8], from: usize) -> (r: usize)
    requires
        from < b@.len(),
    ensures
        from < r <= b@.len(),
        r - from == line_len(b@.skip(from as int)),
{
    let n: usize = b.len();
    let mut i: usize = from;
    while i < n
        invariant
            from <= i <= n == b@.len(),
            from < n,
            (i - from) + line_len(b@.skip(i as int)) == line_len(b@.skip(from as int)),
        decreases n - i,
    {
        assert(b@.skip(i as int)[0] == b@[i as int]);
        assert(b@.skip(i as int).skip(1) =~= b@.skip(i + 1));
        if b[i] == 10 {
            return i + 1;
        }
        i = i + 1;
    }
    n
}

/// Reads the events in the bytes of a stream, and how it ended.
pub fn read_stream_events(bytes: &[u8]) -> (r: (Vec<StreamEvent>, Error))
    ensures
        (events_view(r.0@), r.1@) == events_in(new_reader(), bytes@),
{
    let mut reader = EventReader::new();
    let mut out: Vec<StreamEvent> = Vec::new();
    let n: usize = bytes.len();
    let mut at: usize = 0;
    let ghost whole = events_in(new_reader(), bytes@);
    assert(bytes@.skip(0) =~= bytes@);
    assert(events_view(out@) + whole.0 =~= whole.0);
    while at < n
        invariant
            at <= n == bytes@.len(),
            whole == events_in(new_reader(), bytes@),
            whole.0 == events_view(out@) + events_in(reader@, bytes@.skip(at as int)).0,
            whole.1 == events_in(reader@, bytes@.skip(at as int)).1,
        decreases n - at,
    {
        let end: usize = end_of_line(bytes, at);
        let ghost here = bytes@.skip(at as int);
        let ghost earlier = events_view(out@);
        proof {
            assert(bytes@.subrange(at as int, end as int) =~= here.take(end - at));
            assert(here.skip(end - at) =~= bytes@.skip(end as int));
        }
        let text = match utf8_text(vstd::slice::slice_subrange(bytes, at, end)) {
            Some(t) => t,
            None => {
                assert(earlier + Seq::<EventV>::empty() =~= earlier);
                return (out, fail(Fault::LineNotUtf8));
            },
        };
        match reader.line(&text) {
            Ok(done) => {
                let ghost found = match opt_event(done) {
                    Some(e) => seq![e],
                    None => Seq::empty(),
                };
                match done {
                    Some(event) => {
                        out.push(event);
                    },
                    None => {},
                }
                proof {
                    assert(events_view(out@) =~= earlier + found);
                    let rest = events_in(reader@, bytes@.skip(end as int)).0;
                    assert(earlier + (found + rest) =~= (earlier + found) + rest);
                }
            },
            Err(e) => {
                assert(earlier + Seq::<EventV>::empty() =~= earlier);
                return (out, e);
            },
        }
        at = end;
    }
    assert(bytes@.skip(at as int).len() == 0);
    assert(events_view(out@) + Seq::<EventV>::empty() =~= events_view(out@));
    (out, reader.closed())
}

// Writing.

/// The head of a stream of events.
pub open spec fn stream_start() -> Seq<char> {
    "HTTP/1.1 200 OK\r\n"@ + "Content-Type: text/event-stream\r\n"@ + "Cache-Control: no-cache\r\n"@
        + "Connection: keep-alive\r\n"@ + "X-Accel-Buffering: no\r\n"@ + "\r\n"@
}

/// Writes the head of a stream of events.
pub fn write_stream_start() -> (r: Vec<u8>)
    ensures
        r@ == encode_utf8(stream_start()),
{
    let mut out = "HTTP/1.1 200 OK\r\n".to_owned();
    out.append("Content-Type: text/event-stream\r\n");
    out.append("Cache-Control: no-cache\r\n");
    out.append("Connection: keep-alive\r\n");
    out.append("X-Accel-Buffering: no\r\n");
    out.append("\r\n");
    copy_bytes(out.as_str().as_bytes())
}

/// The lines of an event.
pub open spec fn event_lines(e: EventV) -> Seq<char> {
    "id: "@ + e.id + "\nevent: "@ + e.event + "\ndata: "@ + e.data + "\n\n"@
}

/// Writes an event.
pub fn write_stream_event(id: &str, event: &str, data: &str) -> (r: Vec<u8>)
    ensures
        r@ == encode_utf8(event_lines((EventV { id: id@, event: event@, data: data@ }))),
{
    let mut out = "id: ".to_owned();
    out.append(id);
    out.append("\nevent: ");
    out.append(event);
    out.append("\ndata: ");
    out.append(data);
    out.append("\n\n");
    copy_bytes(out.as_str().as_bytes())
}

/// Writes a comment that keeps a stream open.
pub fn write_stream_keepalive() -> (r: Vec<u8>)
    ensures
        r@ == encode_utf8(": keepalive\n\n"@),
{
    copy_bytes(": keepalive\n\n".as_bytes())
}

} // verus!
