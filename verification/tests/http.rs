use ark::error::{Fault, Kind};
use ark::events::{
    read_stream_events, write_stream_event, write_stream_keepalive, write_stream_start, EventReader, StreamEvent,
};
use ark::http::{
    encode_path, message_is_complete, read_request, read_response, status_msg, write_request, write_response,
};
use ark::listing::{list_dir, DirectoryEntry, DirectoryEntryKind, Layout};
use ark::locate::{resolve_client_url, resolve_client_url_raw, resolve_path, to_fs_path, write_url};
use ark::log::parse_request_entry;
use ark::manage::url_path_for;
use ark::number::{format_u64, parse_u16};
use ark::paths::{last_name, path_segments, strip_root};
use ark::permissions::{change_members, cli_address_to_wire};
use ark::primitives::UrlParts;
use ark::text::to_chars;
use ark::types::{Context, Key, Member, Permission, Permissions};
use ark::watch::{rewatch, to_entry_event_local, to_entry_event_remote, watch_request, Change, EntryAction};

fn pair(name: &str, value: &str) -> (String, String) {
    (name.to_string(), value.to_string())
}

fn url(path: &str, query: Option<&str>) -> UrlParts {
    UrlParts {
        username: String::new(),
        host: Some("example.com".to_string()),
        port: None,
        path: path.to_string(),
        query: query.map(|q| q.to_string()),
    }
}

fn context() -> Context {
    let key = Key { algorithm: "ed25519".to_string(), value: vec![1u8; 32] };
    let identity = ark::identity::create_identity_with_key(&key, "alice@example.com:8080", None).unwrap();
    Context { root: "/home/alice".to_string(), identity, identity_key: Some(key) }
}

#[test]
fn requests_are_written_in_order_and_read_back() {
    let headers = [pair("X-B", "2"), pair("X-A", "1")];
    let bytes = write_request(&url("/a b", Some("q=1")), "PUT", &headers, b"body").unwrap();
    assert_eq!(
        String::from_utf8(bytes.clone()).unwrap(),
        "PUT /a%20b?q=1 HTTP/1.1\r\nContent-Length: 4\r\nHost: example.com\r\nX-A: 1\r\nX-B: 2\r\n\r\nbody"
    );
    let request = read_request(&bytes, false).unwrap();
    assert_eq!(request.method, "PUT");
    assert_eq!(request.target, "/a b?q=1");
    assert_eq!(request.body, b"body");
    assert_eq!(request.headers, vec![
        pair("Content-Length", "4"),
        pair("Host", "example.com"),
        pair("X-A", "1"),
        pair("X-B", "2"),
    ]);
}

#[test]
fn responses_are_written_and_read_back() {
    let bytes = write_response(404, &[pair("Content-Type", "text/plain")], b"not found");
    assert_eq!(
        String::from_utf8(bytes.clone()).unwrap(),
        "HTTP/1.1 404 Not Found\r\nContent-Length: 9\r\nContent-Type: text/plain\r\n\r\nnot found"
    );
    let response = read_response(&bytes, false).unwrap();
    assert_eq!(response.status, 404);
    assert_eq!(response.body, b"not found");
    let head = read_response(&bytes, true).unwrap();
    assert_eq!((head.status, &head.headers), (response.status, &response.headers));
    assert!(head.body.is_empty());
    assert!(message_is_complete(&bytes, false));
    assert!(!message_is_complete(&bytes[..bytes.len() - 1], false));
    assert_eq!(status_msg(204), "No Content");
}

#[test]
fn broken_messages_are_refused() {
    assert_eq!(read_request(b"", false).unwrap_err().fault, Fault::EmptyMessage);
    assert_eq!(read_request(b"GET /\r\n\r\n", false).unwrap_err().fault, Fault::BadRequestLine);
    assert_eq!(read_request(b"GET /%ff HTTP/1.1\r\n\r\n", false).unwrap_err().fault, Fault::InvalidPath);
    let err = read_request(b"PUT / HTTP/1.1\r\nContent-Length: 5\r\n\r\nabc", false).unwrap_err();
    assert_eq!(err.kind(), Kind::UnexpectedEof);
    assert_eq!(read_request(b"\xff\r\n\r\n", false).unwrap_err().fault, Fault::LineNotUtf8);
    assert_eq!(read_response(b"HTTP/1.1\r\n\r\n", false).unwrap_err().fault, Fault::NoStatusCode);
    assert_eq!(read_response(b"HTTP/1.1 abc X\r\n\r\n", false).unwrap_err().fault, Fault::BadStatusCode);
}

#[test]
fn paths_are_encoded() {
    assert_eq!(encode_path("/a b/%41/\u{e9}"), "/a%20b/%41/%C3%A9");
    assert_eq!(encode_path("/plain-path_1.txt"), "/plain-path_1.txt");
}

#[test]
fn numbers_are_parsed_and_written() {
    assert_eq!(format_u64(0), "0");
    assert_eq!(format_u64(u64::MAX), "18446744073709551615");
    assert_eq!(parse_u16(&to_chars("65535")), Some(65535));
    assert_eq!(parse_u16(&to_chars("65536")), None);
    assert_eq!(parse_u16(&to_chars("")), None);
}

// Streams of events.

#[test]
fn event_streams_are_read_back() {
    let mut bytes = write_stream_start();
    bytes.extend(write_stream_event("1", "created", "{\"a\":1}"));
    bytes.extend(write_stream_keepalive());
    bytes.extend(write_stream_event("2", "deleted", "x"));
    let (events, end) = read_stream_events(&bytes);
    assert_eq!(events, vec![
        StreamEvent { id: "1".to_string(), event: "created".to_string(), data: "{\"a\":1}".to_string() },
        StreamEvent { id: "2".to_string(), event: "deleted".to_string(), data: "x".to_string() },
    ]);
    assert_eq!(end.message(), "stream closed");
}

#[test]
fn events_without_data_are_passed_over() {
    let mut bytes = write_stream_start();
    bytes.extend(write_stream_event("1", "created", ""));
    assert!(read_stream_events(&bytes).0.is_empty());
}

#[test]
fn event_streams_end_where_they_are_cut() {
    assert_eq!(read_stream_events(b"").1.message(), "connection closed before status");
    assert_eq!(read_stream_events(b"HTTP/1.1 200 OK\r\nA: b\r\n").1.message(), "connection closed in headers");
    let (events, err) = read_stream_events(b"HTTP/1.1 403 Forbidden\r\n\r\n");
    assert!(events.is_empty());
    assert!(err.message().starts_with("stream open failed: "), "msg was {}", err.message());
    let mut reader = EventReader::new();
    assert!(reader.line("HTTP/1.1 200 OK\r\n").unwrap().is_none());
    assert_eq!(reader.closed().message(), "connection closed in headers");
}

#[test]
fn server_events_become_entry_events() {
    let entry = DirectoryEntry { kind: DirectoryEntryKind::File, name: "a/b.txt".to_string(), size: 3 };
    let event = StreamEvent { id: "1".to_string(), event: "modified".to_string(), data: String::new() };
    let found = to_entry_event_remote(&event, Ok(entry.clone())).unwrap().unwrap();
    assert_eq!(found.action, EntryAction::Modified);
    assert_eq!(found.kind, Some(DirectoryEntryKind::File));
    assert_eq!(found.path, "a/b.txt");
    let other = StreamEvent { id: "1".to_string(), event: "hello".to_string(), data: String::new() };
    assert!(to_entry_event_remote(&other, Ok(entry)).unwrap().is_none());
}

#[test]
fn local_changes_become_entry_events() {
    let made = to_entry_event_local(Change::CreatedFolder, "d").unwrap();
    assert_eq!(made.action, EntryAction::Created);
    assert_eq!(made.kind, Some(DirectoryEntryKind::Dir));
    assert!(to_entry_event_local(Change::ModifiedOther, "d").is_none());
    let gone = to_entry_event_local(Change::RemovedOther, "f").unwrap();
    assert_eq!(gone.action.as_str(), "deleted");
    assert_eq!(EntryAction::parse("deleted"), Some(EntryAction::Deleted));
}

// The watch of a directory that is made after the start, and of one that is
// replaced.
#[test]
fn watches_dir_created_after_start() {
    let first = rewatch(None, None);
    assert!(!first.watch && !first.unwatch);
    let then = rewatch(Some(7), None);
    assert!(then.watch && !then.unwatch);
    let again = rewatch(Some(7), Some(7));
    assert!(!again.watch && !again.unwatch);
}

#[test]
fn rewatches_dir_replaced_after_start() {
    let replaced = rewatch(Some(8), Some(7));
    assert!(replaced.watch && replaced.unwatch);
    let gone = rewatch(None, Some(7));
    assert!(!gone.watch && gone.unwatch);
}

#[test]
fn watch_requests_ask_for_a_stream() {
    let request = read_request(&watch_request(&context(), "/notes", 7).unwrap(), false).unwrap();
    assert_eq!(request.target, "/ark/alice/notes");
    assert!(request.headers.contains(&pair("Accept", "text/event-stream")));
}

// Places.

#[test]
fn paths_are_located() {
    let ctx = context();
    for path in ["notes.txt", "/notes.txt", "alice@example.com:8080/notes.txt"] {
        let found = resolve_client_url(&ctx, path).unwrap();
        assert_eq!(found.host.as_deref(), Some("example.com"));
        assert_eq!(found.port, Some(8080));
        assert_eq!(found.path, "/ark/alice/notes.txt");
    }
    let other = resolve_client_url(&ctx, "bob@h/x").unwrap();
    assert_eq!((other.host.as_deref(), other.path.as_str()), (Some("h"), "/ark/bob/x"));
    assert_eq!(write_url("alice@h", "/x").unwrap(), "https://h/ark/alice/x");
    assert_eq!(write_url("http://alice@h", "/x").unwrap(), "http://h/ark/alice/x");
    assert_eq!(write_url("alice@h", "http://bob@h:1/x").unwrap(), "http://h:1/ark/bob/x");
    assert_eq!(write_url("http://alice@h", "bob@h:1/x").unwrap(), "https://h:1/ark/bob/x");
    for (address, port) in [("a@h", None), ("a@h:80", Some(80)), ("a@h:443", Some(443)), ("a@h:8080", Some(8080))] {
        assert_eq!(resolve_client_url_raw(address, "/x").unwrap().port, port);
        assert_eq!(resolve_client_url_raw(&format!("http://{}", address), "/x").unwrap().port, port);
    }
    assert!(resolve_client_url_raw("nobody", "/x").is_err());
    assert_eq!(url_path_for(&ctx, "/home/alice/a/b").unwrap(), "/a/b");
    assert_eq!(url_path_for(&ctx, "/home/alice/./x").unwrap(), "/x");
    assert_eq!(url_path_for(&ctx, "/home/alice/x/").unwrap(), "/x");
    assert!(url_path_for(&ctx, "/etc/passwd").is_err());
}

#[test]
fn given_paths_are_taken_from_the_root() {
    let ctx = context();
    let given = |current: &str, path: &str| resolve_path(&ctx, current, path).unwrap();
    assert_eq!(given("/home/alice", "notes.txt"), "/notes.txt");
    assert_eq!(given("/home/alice/a/b", "notes.txt"), "/a/b/notes.txt");
    assert_eq!(given("/home/alice/a/b", "/notes.txt"), "/notes.txt");
    assert_eq!(given("/tmp", "bob@h/x"), "bob@h/x");
    let err = resolve_path(&ctx, "/tmp", "notes.txt").unwrap_err();
    assert_eq!(err.message(), "path is not within this account");
}

#[test]
fn copies_lie_below_the_root() {
    let ctx = context();
    for path in ["a/b.txt", "/a/b.txt", "/a//b.txt/", "bob@h/a/b.txt"] {
        assert_eq!(to_fs_path(&ctx, path).unwrap(), "/home/alice/a/b.txt");
    }
    let err = to_fs_path(&ctx, "/a/../b.txt").unwrap_err();
    assert_eq!(err.message(), "path is not within this account");
    assert!(to_fs_path(&ctx, "@/x").is_err());
}

#[test]
fn paths_are_split() {
    assert_eq!(path_segments("/ark//a/"), vec!["ark".to_string(), "a".to_string()]);
    assert_eq!(last_name("/ark/a.txt"), "a.txt");
    assert_eq!(strip_root("/home", "/home/x/y").as_deref(), Some("x/y"));
    assert_eq!(strip_root("/home", "/homes/x"), None);
    for root in ["/home", "/home/", "/home/.", "/", "", ".", "a", "./a", "../a"] {
        for path in [
            "/home", "/home/", "/home/./x", "//home//x/.", "/home/x/../y/", "/home/a/./b//c/./", "/homes/x", "home/x",
            "", ".", "./x", "./a/x", "a/x", "a", "../a/x/.", "/", "./", "./.",
        ] {
            let expected = std::path::Path::new(path).strip_prefix(root).ok().map(|p| p.to_str().unwrap().to_string());
            assert_eq!(strip_root(root, path), expected, "{} in {}", path, root);
        }
    }
}

#[test]
fn listings_are_sorted() {
    let entry = |kind, name: &str, size| DirectoryEntry { kind, name: name.to_string(), size };
    let entries = [entry(DirectoryEntryKind::File, "b\"", 2), entry(DirectoryEntryKind::Dir, "a", 0)];
    assert_eq!(
        list_dir(&entries, Layout::Account),
        "[{\"kind\":\"dir\",\"name\":\"a\",\"size\":0},{\"kind\":\"file\",\"name\":\"b\\\"\",\"size\":2}]"
    );
    assert_eq!(list_dir(&entries[1..], Layout::Plain), "[{\"name\":\"a\",\"type\":\"dir\",\"size\":0}]");
    assert_eq!(list_dir(&[], Layout::Account), "[]");
}

// The log.

#[test]
fn log_entries_are_read() {
    let text = "PUT /ark/a/f%20x?q HTTP/1.1\r\nHost: h\r\n\r\nHTTP/1.1 204 No Content\r\nContent-Length: 0\r\n\r\n";
    let entry = parse_request_entry(text.as_bytes()).unwrap();
    assert_eq!(entry.method, "PUT");
    assert_eq!(entry.target, "/ark/a/f x?q");
    assert_eq!(entry.request_headers, vec![pair("Host", "h")]);
    assert_eq!(entry.status, 204);
    assert_eq!(parse_request_entry(b"").unwrap_err().fault, Fault::EmptyMessage);
    assert!(parse_request_entry(b"PUT / HTTP/1.1\r\n\r\n").is_err());
}

// Members.

#[test]
fn members_change_in_the_order_of_their_roles() {
    assert_eq!(cli_address_to_wire("public"), "*");
    assert_eq!(cli_address_to_wire("a@x"), "a@x");
    let members = [Member { address: "a@x".to_string(), permission: Permission::Owner, key: None }];
    let changes = Permissions {
        owners: vec!["b@y".to_string()],
        writers: vec!["c@z".to_string()],
        readers: vec!["public".to_string()],
        drops: vec!["a@x".to_string()],
    };
    let after = change_members(&members, &changes, false).unwrap();
    let shown: Vec<(&str, Permission)> = after.iter().map(|m| (m.address.as_str(), m.permission)).collect();
    assert_eq!(shown, vec![("b@y", Permission::Owner), ("c@z", Permission::Writer), ("*", Permission::Reader)]);
    assert_eq!(change_members(&members, &changes, true).unwrap_err().fault, Fault::PublicMemberEncrypted);
    let gone = Permissions { drops: vec!["a@x".to_string()], ..Permissions::default() };
    assert_eq!(change_members(&members, &gone, false).unwrap_err().fault, Fault::LastOwner);
}
