use std::collections::BTreeMap;

use ark::accounts::{change_identity_members, create_account_with_key, create_client_identity};
use ark::auth::{authorize, find_permission, request_to_bytes, MAX_CLOCK_SKEW_SECS};
use ark::base64url::encode_base64url;
use ark::crypto::{sign_bytes, WRAP_ALGORITHM};
use ark::error::{fail_with, Fault};
use ark::fields::{read_metadata_attributes, write_metadata_attributes, write_metadata_headers};
use ark::http::{read_request, read_response, Request};
use ark::identity::{create_identity_with_key, parse_address};
use ark::listing::{content_type, DirectoryEntry, DirectoryEntryKind};
use ark::membership::{Directory, Found};
use ark::metadata::{create_metadata, resign_metadata, sign_metadata};
use ark::server::{
    directories_above, handle, members_differ, removed, route, stored, Account, Action, Content, Disk, Node,
};
use ark::types::{Context, Identity, Key, Member, Metadata, Permission};

const NOW: u64 = 1_800_000_000;
const TIME: &str = "2026-01-02T03:04:05.678Z";

struct Item {
    body: Vec<u8>,
    attributes: Vec<(String, Vec<u8>)>,
    symlink: bool,
}

// A server with its files in memory.
struct World {
    accounts: Vec<Identity>,
    others: Vec<Identity>,
    files: BTreeMap<String, Item>,
    dirs: BTreeMap<String, Vec<(String, Vec<u8>)>>,
}

type Answer = (u16, Vec<u8>, Vec<(String, String)>);

fn seed(value: u8) -> Key {
    Key { algorithm: "ed25519".to_string(), value: vec![value; 32] }
}

fn header<'a>(headers: &'a [(String, String)], name: &str) -> Option<&'a str> {
    headers.iter().find(|(n, _)| n.eq_ignore_ascii_case(name)).map(|(_, v)| v.as_str())
}

impl World {
    fn new() -> World {
        World { accounts: Vec::new(), others: Vec::new(), files: BTreeMap::new(), dirs: BTreeMap::new() }
    }

    fn account(&mut self, address: &str, key: &Key) -> Identity {
        let account = create_account_with_key("/srv", address, key, false, false).unwrap();
        self.accounts.push(account.identity.clone());
        account.identity
    }

    fn write(&mut self, file: &str, body: &[u8], metadata: &Metadata) {
        let attributes = write_metadata_attributes(metadata);
        self.files.insert(file.to_string(), Item { body: body.to_vec(), attributes, symlink: false });
    }

    fn write_bare(&mut self, file: &str, body: &[u8]) {
        self.files.insert(file.to_string(), Item { body: body.to_vec(), attributes: Vec::new(), symlink: false });
    }

    fn link(&mut self, file: &str) {
        self.files.insert(file.to_string(), Item { body: Vec::new(), attributes: Vec::new(), symlink: true });
    }

    fn dir(&mut self, path: &str) {
        self.dirs.insert(path.to_string(), Vec::new());
    }

    fn body(&self, file: &str) -> Vec<u8> {
        self.files.get(file).unwrap().body.clone()
    }

    fn node(&self, file: &str) -> Node {
        let path = file.trim_end_matches('/').to_string();
        if let Some(item) = self.files.get(&path) {
            return Node::File { size: item.body.len() as u64 };
        }
        let below = format!("{}/", path);
        let mut found = self.dirs.contains_key(&path);
        let mut entries: BTreeMap<String, DirectoryEntry> = BTreeMap::new();
        for dir in self.dirs.keys() {
            if let Some(rest) = dir.strip_prefix(&below) {
                let name = rest.split('/').next().unwrap().to_string();
                entries.insert(name.clone(), DirectoryEntry { kind: DirectoryEntryKind::Dir, name, size: 4096 });
                found = true;
            }
        }
        for (at, item) in &self.files {
            if let Some(rest) = at.strip_prefix(&below) {
                found = true;
                let name = rest.split('/').next().unwrap().to_string();
                let kind = if rest.contains('/') {
                    DirectoryEntryKind::Dir
                } else if item.symlink {
                    DirectoryEntryKind::Symlink
                } else {
                    DirectoryEntryKind::File
                };
                let size = if rest.contains('/') { 4096 } else { item.body.len() as u64 };
                entries.insert(name.clone(), DirectoryEntry { kind, name, size });
            }
        }
        for identity in &self.accounts {
            let name = parse_address(&identity.address).unwrap().0;
            if path == format!("ark/{}", name) {
                found = true;
            }
        }
        if found {
            Node::Dir { entries: Ok(entries.into_values().collect()) }
        } else {
            Node::Missing
        }
    }

    fn disk(&self, account: &str, file: &str) -> Disk {
        let mut owner = Account::Absent;
        for identity in &self.accounts {
            if parse_address(&identity.address).unwrap().0 == account {
                owner = Account::Present { identity: identity.clone() };
            }
        }
        let path = file.trim_end_matches('/');
        let item = self.files.get(path);
        let attributes = match (item, self.dirs.get(path)) {
            (Some(i), _) => i.attributes.clone(),
            (None, Some(list)) => list.clone(),
            (None, None) => Vec::new(),
        };
        Disk {
            account: owner,
            symlink: item.map(|i| i.symlink).unwrap_or(false),
            attributes: Ok(attributes),
            above: directories_above(path).iter().map(|d| Ok(self.dirs.get(d).cloned().unwrap_or_default())).collect(),
            node: self.node(file),
        }
    }

    fn find(&self, address: &str) -> Found {
        for identity in self.accounts.iter().chain(self.others.iter()) {
            if identity.address == address {
                return Found { address: address.to_string(), outcome: Ok(identity.clone()) };
            }
        }
        let error = fail_with(Fault::UnknownIdentity, address.to_string());
        Found { address: address.to_string(), outcome: Err(error) }
    }

    fn send(&mut self, bytes: &[u8]) -> Answer {
        let request = read_request(bytes, false).unwrap();
        let head = request.method == "HEAD";
        let out = self.answer(&request);
        let response = read_response(&out, head).unwrap();
        (response.status, response.body, response.headers)
    }

    fn answer(&mut self, request: &Request) -> Vec<u8> {
        let place = match route(&request.method, &request.target) {
            Ok(p) => p,
            Err(reply) => return reply.write(),
        };
        let disk = self.disk(&place.account, &place.file);
        let mut directory = Directory { entries: Vec::new() };
        loop {
            match handle(request, &place, &disk, &directory, NOW) {
                Action::Answer { bytes } => return bytes,
                Action::File { head, send } => {
                    let mut out = head;
                    if send {
                        out.extend_from_slice(&self.body(&place.file));
                    }
                    return out;
                }
                Action::Store { metadata, content, status } => {
                    let path = place.file.trim_end_matches('/').to_string();
                    match content {
                        Content::Body => self.write(&path, &request.body, &metadata),
                        Content::Dir => {
                            self.dirs.insert(path, write_metadata_attributes(&metadata));
                        }
                        Content::Kept => {
                            let attributes = write_metadata_attributes(&metadata);
                            match self.files.get_mut(&path) {
                                Some(item) => item.attributes = attributes,
                                None => {
                                    self.dirs.insert(path, attributes);
                                }
                            }
                        }
                    }
                    return stored(status);
                }
                Action::Remove { dir } => {
                    let below = format!("{}/", place.file);
                    self.files.retain(|at, _| at != &place.file && !(dir && at.starts_with(&below)));
                    self.dirs.retain(|at, _| at != &place.file && !(dir && at.starts_with(&below)));
                    return removed(true);
                }
                Action::Lookup { address } => directory.entries.push(self.find(&address)),
                Action::Fail { error } => panic!("{}", error.message()),
            }
        }
    }
}

const TEST_ADDRESS: &str = "test@example.com";

fn setup_account(world: &mut World, account: &str, key: &Key) {
    world.account(&format!("{}@example.com", account), key);
}

fn default_metadata(key: &Key, address: &str, body: &[u8]) -> Metadata {
    let mut m = create_metadata(address, Some("aes-256-gcm"), TIME);
    m.members[0].key = Some(Key { algorithm: WRAP_ALGORITHM.to_string(), value: vec![1u8; 32] });
    sign_metadata(key, &mut m, Some(body)).unwrap();
    m
}

fn write_default(world: &mut World, file: &str, key: &Key, address: &str, body: &[u8]) {
    let metadata = default_metadata(key, address, body);
    world.write(file, body, &metadata);
}

fn sign(key: &Key, method: &str, path: &str, ts: u64, body: &[u8]) -> String {
    let bytes = request_to_bytes(method, "localhost", path, ts, body);
    encode_base64url(&sign_bytes(key, &bytes).unwrap().value)
}

fn build_auth(address: &str, timestamp: u64, sig_b64: &str) -> String {
    format!("ArkAccount address=\"{}\", timestamp=\"{}\", signature=\"{}\"", address, timestamp, sig_b64)
}

fn request(world: &mut World, method: &str, path: &str, body: &[u8], extra: &[(&str, &str)]) -> Answer {
    let mut head = format!(
        "{} {} HTTP/1.1\r\nHost: localhost\r\nContent-Length: {}\r\nConnection: close\r\n",
        method,
        path,
        body.len()
    );
    for (k, v) in extra {
        head.push_str(&format!("{}: {}\r\n", k, v));
    }
    head.push_str("\r\n");
    let mut bytes = head.into_bytes();
    bytes.extend_from_slice(body);
    world.send(&bytes)
}

fn signed_request(world: &mut World, sender: &str, key: &Key, method: &str, path: &str, body: &[u8]) -> Answer {
    signed_request_with_headers(world, sender, key, method, path, body, &[])
}

fn signed_request_with_headers(
    world: &mut World,
    sender: &str,
    key: &Key,
    method: &str,
    path: &str,
    body: &[u8],
    extra: &[(&str, &str)],
) -> Answer {
    let sig_b64 = sign(key, method, path, NOW, body);
    let auth = build_auth(sender, NOW, &sig_b64);
    let mut headers: Vec<(&str, &str)> = vec![("Authorization", &auth)];
    headers.extend_from_slice(extra);
    request(world, method, path, body, &headers)
}

fn signed_put_metadata(
    world: &mut World,
    sender: &str,
    key: &Key,
    path: &str,
    body: &[u8],
    metadata: &Metadata,
) -> u16 {
    let headers = write_metadata_headers(metadata);
    let extra: Vec<(&str, &str)> = headers.iter().map(|(k, v)| (k.as_str(), v.as_str())).collect();
    signed_request_with_headers(world, sender, key, "PUT", path, body, &extra).0
}

fn signed_put_with_default_metadata(world: &mut World, sender: &str, key: &Key, path: &str, body: &[u8]) -> u16 {
    let metadata = default_metadata(key, TEST_ADDRESS, body);
    signed_put_metadata(world, sender, key, path, body, &metadata)
}

fn entries(body: &[u8]) -> Vec<(String, String, u64)> {
    let value: serde_json::Value = serde_json::from_slice(body).unwrap();
    let list = value.as_array().unwrap();
    list.iter()
        .map(|e| {
            (
                e.get("name").unwrap().as_str().unwrap().to_string(),
                e.get("kind").unwrap().as_str().unwrap().to_string(),
                e.get("size").unwrap().as_u64().unwrap(),
            )
        })
        .collect()
}

fn member(address: &str, permission: Permission) -> Member {
    Member { address: address.to_string(), permission, key: None }
}

fn seed_shared_file(
    world: &mut World,
    owner_key: &Key,
    owner_address: &str,
    file: &str,
    body: &[u8],
    extra_members: Vec<Member>,
) {
    let mut m = create_metadata(owner_address, None, TIME);
    for extra in extra_members {
        m.members.push(extra);
    }
    sign_metadata(owner_key, &mut m, Some(body)).unwrap();
    world.write(file, body, &m);
}

fn shared_metadata(key: &Key, address: &str, body: &[u8], members: Vec<Member>) -> Metadata {
    let mut m = create_metadata(address, None, TIME);
    m.members = members;
    sign_metadata(key, &mut m, Some(body)).unwrap();
    m
}

#[test]
fn server_get_file_returns_content() {
    let mut world = World::new();
    let key = seed(1);
    setup_account(&mut world, "test", &key);
    write_default(&mut world, "ark/test/hello.txt", &key, TEST_ADDRESS, b"hi there");
    let (code, body, headers) = signed_request(&mut world, "test@example.com", &key, "GET", "/ark/test/hello.txt", &[]);
    assert_eq!(code, 200);
    assert_eq!(body, b"hi there");
    assert_eq!(header(&headers, "content-length"), Some("8"));
}

#[test]
fn server_get_missing_file_404() {
    let mut world = World::new();
    let key = seed(2);
    setup_account(&mut world, "test", &key);
    let (code, _, _) = signed_request(&mut world, "test@example.com", &key, "GET", "/ark/test/nope.txt", &[]);
    assert_eq!(code, 404);
}

#[test]
fn server_get_dir_returns_json_listing() {
    let mut world = World::new();
    let key = seed(3);
    setup_account(&mut world, "test", &key);
    world.write_bare("ark/test/a.txt", b"hello");
    world.dir("ark/test/sub");
    let (code, body, headers) = signed_request(&mut world, "test@example.com", &key, "GET", "/ark/test/", &[]);
    assert_eq!(code, 200);
    assert_eq!(header(&headers, "content-type"), Some("application/json"));

    let entries = entries(&body);
    let file = entries.iter().find(|e| e.0 == "a.txt").unwrap();
    assert_eq!(file.1, "file");
    assert_eq!(file.2, 5);
    let dir = entries.iter().find(|e| e.0 == "sub").unwrap();
    assert_eq!(dir.1, "dir");
}

#[test]
fn get_dir_empty_returns_empty_array() {
    let mut world = World::new();
    let key = seed(40);
    setup_account(&mut world, "test", &key);
    world.dir("ark/test/empty");
    let (code, body, _) = signed_request(&mut world, "test@example.com", &key, "GET", "/ark/test/empty/", &[]);
    assert_eq!(code, 200);
    assert!(entries(&body).is_empty());
}

#[test]
fn get_dir_lists_symlink_as_symlink_kind() {
    let mut world = World::new();
    let key = seed(41);
    setup_account(&mut world, "test", &key);
    world.write_bare("ark/test/real.txt", b"hi");
    world.link("ark/test/link");
    let (code, body, _) = signed_request(&mut world, "test@example.com", &key, "GET", "/ark/test/", &[]);
    assert_eq!(code, 200);
    let entries = entries(&body);
    let link = entries.iter().find(|e| e.0 == "link").unwrap();
    assert_eq!(link.1, "symlink");
}

#[test]
fn server_head_file_no_body_with_length() {
    let mut world = World::new();
    let key = seed(4);
    setup_account(&mut world, "test", &key);
    write_default(&mut world, "ark/test/x", &key, TEST_ADDRESS, b"abcde");
    let (code, body, headers) = signed_request(&mut world, "test@example.com", &key, "HEAD", "/ark/test/x", &[]);
    assert_eq!(code, 200);
    assert!(body.is_empty());
    assert_eq!(header(&headers, "content-length"), Some("5"));
}

#[test]
fn server_head_dir_no_body_with_json_type() {
    let mut world = World::new();
    let key = seed(5);
    setup_account(&mut world, "test", &key);
    let (code, body, headers) = signed_request(&mut world, "test@example.com", &key, "HEAD", "/ark/test/", &[]);
    assert_eq!(code, 200);
    assert!(body.is_empty());
    assert_eq!(header(&headers, "content-type"), Some("application/json"));
}

#[test]
fn server_put_new_file_returns_201() {
    let mut world = World::new();
    let key = seed(6);
    setup_account(&mut world, "test", &key);
    let code =
        signed_put_with_default_metadata(&mut world, "test@example.com", &key, "/ark/test/new.txt", b"payload");
    assert_eq!(code, 201);
    assert_eq!(world.body("ark/test/new.txt"), b"payload");
}

#[test]
fn server_put_overwrite_returns_204() {
    let mut world = World::new();
    let key = seed(7);
    setup_account(&mut world, "test", &key);
    write_default(&mut world, "ark/test/x", &key, TEST_ADDRESS, b"old");
    let code = signed_put_with_default_metadata(&mut world, "test@example.com", &key, "/ark/test/x", b"new content");
    assert_eq!(code, 204);
    assert_eq!(world.body("ark/test/x"), b"new content");
}

#[test]
fn server_put_nested_path_creates_dirs() {
    let mut world = World::new();
    let key = seed(8);
    setup_account(&mut world, "test", &key);
    let code = signed_put_with_default_metadata(&mut world, "test@example.com", &key, "/ark/test/a/b/c.txt", b"deep");
    assert_eq!(code, 201);
    assert_eq!(world.body("ark/test/a/b/c.txt"), b"deep");
}

#[test]
fn server_delete_file_removes_and_returns_204() {
    let mut world = World::new();
    let key = seed(9);
    setup_account(&mut world, "test", &key);
    world.write_bare("ark/test/d.txt", b"bye");
    let (code, _, _) = signed_request(&mut world, "test@example.com", &key, "DELETE", "/ark/test/d.txt", &[]);
    assert_eq!(code, 204);
    assert!(!world.files.contains_key("ark/test/d.txt"));
}

#[test]
fn server_delete_dir_recursively_removes_and_returns_204() {
    let mut world = World::new();
    let key = seed(10);
    setup_account(&mut world, "test", &key);
    world.dir("ark/test/sub");
    world.write_bare("ark/test/sub/inner", b"x");
    let (code, _, _) = signed_request(&mut world, "test@example.com", &key, "DELETE", "/ark/test/sub", &[]);
    assert_eq!(code, 204);
    assert!(world.files.is_empty());
    assert!(world.dirs.is_empty());
}

#[test]
fn server_delete_missing_404() {
    let mut world = World::new();
    let key = seed(11);
    setup_account(&mut world, "test", &key);
    let (code, _, _) = signed_request(&mut world, "test@example.com", &key, "DELETE", "/ark/test/nope", &[]);
    assert_eq!(code, 404);
}

#[test]
fn server_unsupported_method_returns_405() {
    let mut world = World::new();
    let key = seed(12);
    setup_account(&mut world, "test", &key);
    let (code, _, _) = signed_request(&mut world, "test@example.com", &key, "POST", "/ark/test/x", b"hello");
    assert_eq!(code, 405);
}

#[test]
fn symlink_get_blocked_403() {
    let mut world = World::new();
    let key = seed(50);
    setup_account(&mut world, "test", &key);
    write_default(&mut world, "ark/test/real.txt", &key, TEST_ADDRESS, b"secret");
    world.link("ark/test/link");
    let (code, _, _) = signed_request(&mut world, "test@example.com", &key, "GET", "/ark/test/link", &[]);
    assert_eq!(code, 403);
}

#[test]
fn symlink_head_blocked_403() {
    let mut world = World::new();
    let key = seed(51);
    setup_account(&mut world, "test", &key);
    write_default(&mut world, "ark/test/real.txt", &key, TEST_ADDRESS, b"secret");
    world.link("ark/test/link");
    let (code, _, _) = signed_request(&mut world, "test@example.com", &key, "HEAD", "/ark/test/link", &[]);
    assert_eq!(code, 403);
}

#[test]
fn symlink_put_blocked_403() {
    let mut world = World::new();
    let key = seed(52);
    setup_account(&mut world, "test", &key);
    write_default(&mut world, "ark/test/real.txt", &key, TEST_ADDRESS, b"original");
    world.link("ark/test/link");
    let code = signed_put_with_default_metadata(&mut world, "test@example.com", &key, "/ark/test/link", b"clobber");
    assert_eq!(code, 403);
    assert_eq!(world.body("ark/test/real.txt"), b"original");
    assert!(world.files.get("ark/test/link").unwrap().symlink);
}

#[test]
fn symlink_delete_blocked_403() {
    let mut world = World::new();
    let key = seed(53);
    setup_account(&mut world, "test", &key);
    write_default(&mut world, "ark/test/real.txt", &key, TEST_ADDRESS, b"keep");
    world.link("ark/test/link");
    let (code, _, _) = signed_request(&mut world, "test@example.com", &key, "DELETE", "/ark/test/link", &[]);
    assert_eq!(code, 403);
    assert!(world.files.contains_key("ark/test/link"));
    assert!(world.files.contains_key("ark/test/real.txt"));
}

#[test]
fn server_path_traversal_blocked() {
    let mut world = World::new();
    let key = seed(13);
    setup_account(&mut world, "test", &key);
    let (code, _, _) =
        signed_request(&mut world, "test@example.com", &key, "GET", "/ark/test/../../../etc/passwd", &[]);
    assert_eq!(code, 403);
}

#[test]
fn server_root_blocked_403() {
    let mut world = World::new();
    let (code, _, _) = request(&mut world, "GET", "/", &[], &[]);
    assert_eq!(code, 403);
}

#[test]
fn server_non_ark_path_blocked_403() {
    let mut world = World::new();
    let (code, _, _) = request(&mut world, "GET", "/something/else", &[], &[]);
    assert_eq!(code, 403);
}

#[test]
fn server_ark_without_subdir_blocked_403() {
    let mut world = World::new();
    let (c1, _, _) = request(&mut world, "GET", "/ark", &[], &[]);
    let (c2, _, _) = request(&mut world, "GET", "/ark/", &[], &[]);
    assert_eq!(c1, 403);
    assert_eq!(c2, 403);
}

#[test]
fn server_put_at_ark_root_405() {
    let mut world = World::new();
    let key = seed(14);
    setup_account(&mut world, "test", &key);
    let (code, _, _) = signed_request(&mut world, "test@example.com", &key, "PUT", "/ark/test", b"x");
    assert_eq!(code, 405);
}

#[test]
fn server_delete_at_ark_root_405() {
    let mut world = World::new();
    let key = seed(15);
    setup_account(&mut world, "test", &key);
    world.write_bare("ark/test/keep", b"x");
    let (code, _, _) = signed_request(&mut world, "test@example.com", &key, "DELETE", "/ark/test", &[]);
    assert_eq!(code, 405);
    assert!(world.files.contains_key("ark/test/keep"));
}

#[test]
fn server_put_outside_ark_blocked_403() {
    let mut world = World::new();
    let (code, _, _) = request(&mut world, "PUT", "/oops.txt", b"x", &[]);
    assert_eq!(code, 403);
    assert!(world.files.is_empty());
}

#[test]
fn missing_auth_header_401() {
    let mut world = World::new();
    setup_account(&mut world, "test", &seed(16));
    let (code, _, _) = request(&mut world, "GET", "/ark/test/anything", &[], &[]);
    assert_eq!(code, 401);
}

#[test]
fn missing_timestamp_param_401() {
    let mut world = World::new();
    let key = seed(17);
    setup_account(&mut world, "test", &key);
    let sig = sign(&key, "GET", "/ark/test/x", NOW, &[]);
    let auth = format!("ArkAccount address=\"test@example.com\", signature=\"{}\"", sig);
    let (code, _, _) = request(&mut world, "GET", "/ark/test/x", &[], &[("Authorization", &auth)]);
    assert_eq!(code, 401);
}

#[test]
fn stale_timestamp_401() {
    let mut world = World::new();
    let key = seed(18);
    setup_account(&mut world, "test", &key);
    let old = NOW - (MAX_CLOCK_SKEW_SECS + 60);
    let sig = sign(&key, "GET", "/ark/test/x", old, &[]);
    let auth = build_auth("test@example.com", old, &sig);
    let (code, _, _) = request(&mut world, "GET", "/ark/test/x", &[], &[("Authorization", &auth)]);
    assert_eq!(code, 401);
}

#[test]
fn wrong_signature_401() {
    let mut world = World::new();
    let key = seed(19);
    setup_account(&mut world, "test", &key);
    let sig = sign(&key, "GET", "/ark/test/somethingelse", NOW, &[]);
    let auth = build_auth("test@example.com", NOW, &sig);
    let (code, _, _) = request(&mut world, "GET", "/ark/test/realtarget", &[], &[("Authorization", &auth)]);
    assert_eq!(code, 401);
}

#[test]
fn wrong_key_401() {
    let mut world = World::new();
    setup_account(&mut world, "test", &seed(20));
    let attacker = seed(99);
    let (code, _, _) = signed_request(&mut world, "test@example.com", &attacker, "GET", "/ark/test/x", &[]);
    assert_eq!(code, 401);
}

#[test]
fn no_identity_file_403() {
    let mut world = World::new();
    let attacker = seed(21);
    let (code, _, _) = signed_request(&mut world, "ghost@example.com", &attacker, "GET", "/ark/ghost/x", &[]);
    assert_eq!(code, 403);
}

#[test]
fn created_identity_authenticates_with_server() {
    let mut world = World::new();
    let key = seed(77);
    world.account("gyan@example.com", &key);
    write_default(&mut world, "ark/gyan/hello.txt", &key, "gyan@example.com", b"hi gyan");
    let (code, body, _) = signed_request(&mut world, "gyan@example.com", &key, "GET", "/ark/gyan/hello.txt", &[]);
    assert_eq!(code, 200);
    assert_eq!(body, b"hi gyan");
}

#[test]
fn put_signature_covers_body() {
    let mut world = World::new();
    let key = seed(22);
    setup_account(&mut world, "test", &key);
    let sig = sign(&key, "PUT", "/ark/test/file", NOW, b"original");
    let auth = build_auth("test@example.com", NOW, &sig);
    let (code, _, _) = request(&mut world, "PUT", "/ark/test/file", b"tampered", &[("Authorization", &auth)]);
    assert_eq!(code, 401);
    assert!(!world.files.contains_key("ark/test/file"));
}

#[test]
fn put_stores_metadata_headers_as_xattr() {
    let mut world = World::new();
    let key = seed(23);
    setup_account(&mut world, "test", &key);
    let alice_key = seed(99);
    world.others.push(create_identity_with_key(&alice_key, "alice@x", None).unwrap());
    let mut m = default_metadata(&alice_key, "alice@x", b"ciphertext");
    m.members[0].key = Some(Key { algorithm: WRAP_ALGORITHM.to_string(), value: vec![7u8; 32] });
    sign_metadata(&alice_key, &mut m, Some(b"ciphertext")).unwrap();
    let code = signed_put_metadata(&mut world, "test@example.com", &key, "/ark/test/secret", b"ciphertext", &m);
    assert_eq!(code, 201);
    let item = world.files.get("ark/test/secret").unwrap();
    let algorithm = item.attributes.iter().find(|(n, _)| n == "user.ark.encryption_algorithm").unwrap();
    assert_eq!(algorithm.1, b"aes-256-gcm");
    let loaded = read_metadata_attributes(&item.attributes).unwrap();
    assert_eq!(loaded.members.len(), 1);
    assert_eq!(loaded.members[0].address, "alice@x");
    assert_eq!(loaded.members[0].key.as_ref().unwrap().value, vec![7u8; 32]);
}

#[test]
fn put_ignores_unknown_meta_headers() {
    let mut world = World::new();
    let key = seed(26);
    setup_account(&mut world, "test", &key);
    let meta = write_metadata_headers(&default_metadata(&key, TEST_ADDRESS, b"x"));
    let mut extra: Vec<(&str, &str)> = meta.iter().map(|(k, v)| (k.as_str(), v.as_str())).collect();
    extra.push(("X-Ark-Meta-Foo", "bar"));
    let (code, _, _) =
        signed_request_with_headers(&mut world, "test@example.com", &key, "PUT", "/ark/test/file", b"x", &extra);
    assert_eq!(code, 201);
    let item = world.files.get("ark/test/file").unwrap();
    assert!(item.attributes.iter().all(|(n, _)| n != "user.ark.foo"));
}

#[test]
fn get_returns_metadata_headers_from_xattr() {
    let mut world = World::new();
    let key = seed(30);
    setup_account(&mut world, "test", &key);
    write_default(&mut world, "ark/test/secret", &key, TEST_ADDRESS, b"ciphertext");
    let (code, body, headers) = signed_request(&mut world, "test@example.com", &key, "GET", "/ark/test/secret", &[]);
    assert_eq!(code, 200);
    assert_eq!(body, b"ciphertext");
    assert_eq!(header(&headers, "x-ark-meta-encryption-algorithm"), Some("aes-256-gcm"));
    assert_eq!(header(&headers, "x-ark-meta-member-0-address"), Some(TEST_ADDRESS));
}

#[test]
fn get_ignores_unknown_user_ark_xattrs() {
    let mut world = World::new();
    let key = seed(32);
    setup_account(&mut world, "test", &key);
    write_default(&mut world, "ark/test/file", &key, TEST_ADDRESS, b"data");
    let item = world.files.get_mut("ark/test/file").unwrap();
    item.attributes.push(("user.ark.foo".to_string(), b"bar".to_vec()));
    let (code, _, headers) = signed_request(&mut world, "test@example.com", &key, "GET", "/ark/test/file", &[]);
    assert_eq!(code, 200);
    assert_eq!(header(&headers, "x-ark-meta-foo"), None);
}

#[test]
fn get_file_without_xattr_returns_500() {
    let mut world = World::new();
    let key = seed(31);
    setup_account(&mut world, "test", &key);
    world.write_bare("ark/test/plain", b"raw");
    let (code, _, _) = signed_request(&mut world, "test@example.com", &key, "GET", "/ark/test/plain", &[]);
    assert_eq!(code, 500);
}

#[test]
fn put_without_meta_headers_returns_400() {
    let mut world = World::new();
    let key = seed(24);
    setup_account(&mut world, "test", &key);
    let (code, _, _) = signed_request(&mut world, "test@example.com", &key, "PUT", "/ark/test/plain", b"data");
    assert_eq!(code, 400);
    assert!(!world.files.contains_key("ark/test/plain"));
}

#[test]
fn put_ignores_non_meta_custom_headers() {
    let mut world = World::new();
    let key = seed(25);
    setup_account(&mut world, "test", &key);
    let meta = write_metadata_headers(&default_metadata(&key, TEST_ADDRESS, b"x"));
    let mut extra: Vec<(&str, &str)> = meta.iter().map(|(k, v)| (k.as_str(), v.as_str())).collect();
    extra.push(("X-Custom-Foo", "bar"));
    let (code, _, _) =
        signed_request_with_headers(&mut world, "test@example.com", &key, "PUT", "/ark/test/file", b"x", &extra);
    assert_eq!(code, 201);
    let item = world.files.get("ark/test/file").unwrap();
    assert!(item.attributes.iter().all(|(n, _)| n != "user.ark.foo"));
}

#[test]
fn put_by_write_member_updates_body() {
    let mut world = World::new();
    let owner_key = seed(100);
    setup_account(&mut world, "owner", &owner_key);
    let writer_key = seed(101);
    setup_account(&mut world, "writer", &writer_key);
    seed_shared_file(&mut world, &owner_key, "owner@example.com", "ark/owner/file.txt", b"v1", vec![
        member("writer@example.com", Permission::Writer),
    ]);
    let new_meta = shared_metadata(&writer_key, "writer@example.com", b"v2", vec![
        member("owner@example.com", Permission::Owner),
        member("writer@example.com", Permission::Writer),
    ]);
    let code =
        signed_put_metadata(&mut world, "writer@example.com", &writer_key, "/ark/owner/file.txt", b"v2", &new_meta);
    assert_eq!(code, 204);
    assert_eq!(world.body("ark/owner/file.txt"), b"v2");
}

#[test]
fn put_by_read_only_member_forbidden() {
    let mut world = World::new();
    let owner_key = seed(102);
    setup_account(&mut world, "owner", &owner_key);
    let reader_key = seed(103);
    setup_account(&mut world, "reader", &reader_key);
    seed_shared_file(&mut world, &owner_key, "owner@example.com", "ark/owner/file.txt", b"v1", vec![
        member("reader@example.com", Permission::Reader),
    ]);
    let new_meta = shared_metadata(&reader_key, "reader@example.com", b"v2", vec![
        member("owner@example.com", Permission::Owner),
        member("reader@example.com", Permission::Reader),
    ]);
    let code =
        signed_put_metadata(&mut world, "reader@example.com", &reader_key, "/ark/owner/file.txt", b"v2", &new_meta);
    assert_eq!(code, 403);
    assert_eq!(world.body("ark/owner/file.txt"), b"v1");
}

#[test]
fn put_by_non_member_forbidden() {
    let mut world = World::new();
    let owner_key = seed(104);
    setup_account(&mut world, "owner", &owner_key);
    let stranger_key = seed(105);
    setup_account(&mut world, "stranger", &stranger_key);
    seed_shared_file(&mut world, &owner_key, "owner@example.com", "ark/owner/file.txt", b"v1", vec![]);
    let new_meta = shared_metadata(&stranger_key, "stranger@example.com", b"v2", vec![
        member("owner@example.com", Permission::Owner),
    ]);
    let code = signed_put_metadata(
        &mut world,
        "stranger@example.com",
        &stranger_key,
        "/ark/owner/file.txt",
        b"v2",
        &new_meta,
    );
    assert_eq!(code, 403);
    assert_eq!(world.body("ark/owner/file.txt"), b"v1");
}

#[test]
fn put_member_change_by_write_member_forbidden() {
    let mut world = World::new();
    let owner_key = seed(106);
    setup_account(&mut world, "owner", &owner_key);
    let writer_key = seed(107);
    setup_account(&mut world, "writer", &writer_key);
    let outsider_key = seed(108);
    setup_account(&mut world, "outsider", &outsider_key);
    seed_shared_file(&mut world, &owner_key, "owner@example.com", "ark/owner/file.txt", b"v1", vec![
        member("writer@example.com", Permission::Writer),
    ]);
    let new_meta = shared_metadata(&writer_key, "writer@example.com", b"v2", vec![
        member("owner@example.com", Permission::Owner),
        member("writer@example.com", Permission::Writer),
        member("outsider@example.com", Permission::Reader),
    ]);
    let code =
        signed_put_metadata(&mut world, "writer@example.com", &writer_key, "/ark/owner/file.txt", b"v2", &new_meta);
    assert_eq!(code, 403);
    assert_eq!(world.body("ark/owner/file.txt"), b"v1");
}

#[test]
fn put_member_change_by_owner_member_succeeds() {
    let mut world = World::new();
    let owner_key = seed(109);
    setup_account(&mut world, "owner", &owner_key);
    let co_owner_key = seed(110);
    setup_account(&mut world, "coowner", &co_owner_key);
    let newbie_key = seed(111);
    setup_account(&mut world, "newbie", &newbie_key);
    seed_shared_file(&mut world, &owner_key, "owner@example.com", "ark/owner/file.txt", b"v1", vec![
        member("coowner@example.com", Permission::Owner),
    ]);
    let new_meta = shared_metadata(&co_owner_key, "coowner@example.com", b"v2", vec![
        member("owner@example.com", Permission::Owner),
        member("coowner@example.com", Permission::Owner),
        member("newbie@example.com", Permission::Reader),
    ]);
    let code =
        signed_put_metadata(&mut world, "coowner@example.com", &co_owner_key, "/ark/owner/file.txt", b"v2", &new_meta);
    assert_eq!(code, 204);
    assert_eq!(world.body("ark/owner/file.txt"), b"v2");
}

#[test]
fn delete_by_write_member_succeeds() {
    let mut world = World::new();
    let owner_key = seed(112);
    setup_account(&mut world, "owner", &owner_key);
    let writer_key = seed(113);
    setup_account(&mut world, "writer", &writer_key);
    seed_shared_file(&mut world, &owner_key, "owner@example.com", "ark/owner/file.txt", b"v1", vec![
        member("writer@example.com", Permission::Writer),
    ]);
    let (code, _, _) =
        signed_request(&mut world, "writer@example.com", &writer_key, "DELETE", "/ark/owner/file.txt", &[]);
    assert_eq!(code, 204);
    assert!(!world.files.contains_key("ark/owner/file.txt"));
}

#[test]
fn delete_by_read_only_member_forbidden() {
    let mut world = World::new();
    let owner_key = seed(114);
    setup_account(&mut world, "owner", &owner_key);
    let reader_key = seed(115);
    setup_account(&mut world, "reader", &reader_key);
    seed_shared_file(&mut world, &owner_key, "owner@example.com", "ark/owner/file.txt", b"v1", vec![
        member("reader@example.com", Permission::Reader),
    ]);
    let (code, _, _) =
        signed_request(&mut world, "reader@example.com", &reader_key, "DELETE", "/ark/owner/file.txt", &[]);
    assert_eq!(code, 403);
    assert!(world.files.contains_key("ark/owner/file.txt"));
}

#[test]
fn get_by_read_only_member_succeeds() {
    let mut world = World::new();
    let owner_key = seed(116);
    setup_account(&mut world, "owner", &owner_key);
    let reader_key = seed(117);
    setup_account(&mut world, "reader", &reader_key);
    seed_shared_file(&mut world, &owner_key, "owner@example.com", "ark/owner/file.txt", b"secret", vec![
        member("reader@example.com", Permission::Reader),
    ]);
    let (code, body, _) =
        signed_request(&mut world, "reader@example.com", &reader_key, "GET", "/ark/owner/file.txt", &[]);
    assert_eq!(code, 200);
    assert_eq!(body, b"secret");
}

#[test]
fn get_by_non_member_forbidden() {
    let mut world = World::new();
    let owner_key = seed(118);
    setup_account(&mut world, "owner", &owner_key);
    let stranger_key = seed(119);
    setup_account(&mut world, "stranger", &stranger_key);
    seed_shared_file(&mut world, &owner_key, "owner@example.com", "ark/owner/file.txt", b"secret", vec![]);
    let (code, _, _) =
        signed_request(&mut world, "stranger@example.com", &stranger_key, "GET", "/ark/owner/file.txt", &[]);
    assert_eq!(code, 403);
}

#[test]
fn get_public_file_no_auth_succeeds() {
    let mut world = World::new();
    let owner_key = seed(120);
    setup_account(&mut world, "owner", &owner_key);
    seed_shared_file(&mut world, &owner_key, "owner@example.com", "ark/owner/public.txt", b"open", vec![
        member("*", Permission::Reader),
    ]);
    let (code, body, _) = request(&mut world, "GET", "/ark/owner/public.txt", &[], &[]);
    assert_eq!(code, 200);
    assert_eq!(body, b"open");
}

#[test]
fn head_public_file_no_auth_succeeds() {
    let mut world = World::new();
    let owner_key = seed(121);
    setup_account(&mut world, "owner", &owner_key);
    seed_shared_file(&mut world, &owner_key, "owner@example.com", "ark/owner/public.txt", b"open", vec![
        member("*", Permission::Reader),
    ]);
    let (code, body, headers) = request(&mut world, "HEAD", "/ark/owner/public.txt", &[], &[]);
    assert_eq!(code, 200);
    assert!(body.is_empty());
    assert_eq!(header(&headers, "content-length"), Some("4"));
}

#[test]
fn get_public_file_ignores_bad_auth() {
    let mut world = World::new();
    let owner_key = seed(122);
    setup_account(&mut world, "owner", &owner_key);
    seed_shared_file(&mut world, &owner_key, "owner@example.com", "ark/owner/public.txt", b"open", vec![
        member("*", Permission::Reader),
    ]);
    let (code, body, _) = request(&mut world, "GET", "/ark/owner/public.txt", &[], &[(
        "Authorization",
        "ArkAccount address=\"nobody@x\", timestamp=\"0\", signature=\"AAAA\"",
    )]);
    assert_eq!(code, 200);
    assert_eq!(body, b"open");
}

#[test]
fn put_public_file_no_auth_still_unauthorized() {
    let mut world = World::new();
    let owner_key = seed(123);
    setup_account(&mut world, "owner", &owner_key);
    seed_shared_file(&mut world, &owner_key, "owner@example.com", "ark/owner/public.txt", b"open", vec![
        member("*", Permission::Reader),
    ]);
    let (code, _, _) = request(&mut world, "PUT", "/ark/owner/public.txt", b"clobber", &[]);
    assert_eq!(code, 401);
    assert_eq!(world.body("ark/owner/public.txt"), b"open");
}

#[test]
fn delete_public_file_no_auth_still_unauthorized() {
    let mut world = World::new();
    let owner_key = seed(124);
    setup_account(&mut world, "owner", &owner_key);
    seed_shared_file(&mut world, &owner_key, "owner@example.com", "ark/owner/public.txt", b"open", vec![
        member("*", Permission::Reader),
    ]);
    let (code, _, _) = request(&mut world, "DELETE", "/ark/owner/public.txt", &[], &[]);
    assert_eq!(code, 401);
    assert!(world.files.contains_key("ark/owner/public.txt"));
}

// Each way in which authentication fails, with its message.
#[test]
fn refusals_say_why() {
    let mut world = World::new();
    let key = seed(60);
    setup_account(&mut world, "test", &key);
    let sig = sign(&key, "GET", "/ark/test/x", NOW, &[]);
    let skewed = sign(&key, "GET", "/ark/test/x", NOW + 301, &[]);
    let cases = [
        (None, "missing Authorization header"),
        (Some("Bearer abc".to_string()), "unsupported Authorization scheme"),
        (Some("ArkAccount timestamp=\"1\"".to_string()), "missing address in Authorization"),
        (Some("ArkAccount address=\"test@example.com\", timestamp=\"1\"".to_string()), "missing signature in Authorization"),
        (Some(format!("ArkAccount address=\"test@example.com\", signature=\"{}\"", sig)), "missing timestamp in Authorization"),
        (
            Some("ArkAccount address=\"test@example.com\", timestamp=\"1\", signature=\"!!\"".to_string()),
            "auth signature not base64url encoded",
        ),
        (
            Some(format!("ArkAccount address=\"test@example.com\", timestamp=\"soon\", signature=\"{}\"", sig)),
            "invalid timestamp in Authorization",
        ),
        (Some(build_auth("test@example.com", NOW + 301, &skewed)), "timestamp outside allowed window"),
        (Some(build_auth("test@example.com", NOW - 1, &sig)), "signature verification failed"),
        (Some(build_auth("nobody@example.com", NOW, &sig)), "no identity for nobody@example.com"),
    ];
    for (auth, message) in cases {
        let headers: Vec<(&str, &str)> = match &auth {
            Some(value) => vec![("Authorization", value.as_str())],
            None => vec![],
        };
        let (code, body, _) = request(&mut world, "GET", "/ark/test/x", &[], &headers);
        assert_eq!(code, 401);
        assert_eq!(String::from_utf8(body).unwrap(), message);
    }
}

#[test]
fn clock_skew_up_to_the_limit_is_accepted() {
    let mut world = World::new();
    let key = seed(61);
    setup_account(&mut world, "test", &key);
    for ts in [NOW - MAX_CLOCK_SKEW_SECS, NOW + MAX_CLOCK_SKEW_SECS] {
        let sig = sign(&key, "GET", "/ark/test/", ts, &[]);
        let auth = build_auth("test@example.com", ts, &sig);
        let (code, _, _) = request(&mut world, "GET", "/ark/test/", &[], &[("Authorization", &auth)]);
        assert_eq!(code, 200);
    }
}

#[test]
fn member_order_is_not_a_change() {
    let old = [member("a@x", Permission::Owner), member("b@y", Permission::Reader)];
    let turned = [member("b@y", Permission::Reader), member("a@x", Permission::Owner)];
    let raised = [member("b@y", Permission::Writer), member("a@x", Permission::Owner)];
    assert!(!members_differ(&old, &turned));
    assert!(members_differ(&old, &raised));
    assert!(members_differ(&old, &old[..1]));
}

fn person(address: &str) -> Identity {
    create_identity_with_key(&seed(1), address, None).unwrap()
}

#[test]
fn permission_is_the_higher_of_own_and_public() {
    let target = person("a@x");
    let members = [member("b@y", Permission::Reader), member("*", Permission::Writer)];
    assert_eq!(authorize(&target, &person("b@y"), Some(&members)).unwrap(), Permission::Writer);
    assert_eq!(authorize(&target, &person("c@z"), Some(&members)).unwrap(), Permission::Writer);
    assert_eq!(authorize(&target, &person("a@x"), None).unwrap(), Permission::Owner);
    assert_eq!(authorize(&target, &person("b@y"), Some(&members[..1])).unwrap(), Permission::Reader);
    assert_eq!(
        authorize(&target, &person("c@z"), Some(&members[..1])).unwrap_err().message(),
        "requestor not a member"
    );
}

// Alice shares a file with a group of theirs.
fn share_with_group(world: &mut World, alice_key: &Key, group: &Identity) {
    world.others.retain(|i| i.address != group.address);
    world.others.push(group.clone());
    seed_shared_file(world, alice_key, "alice@127.0.0.1:8000", "ark/alice/shared.txt", b"secret", vec![
        member(&group.address, Permission::Reader),
    ]);
}

fn group_of(address: &str, members: &[&str]) -> Identity {
    let list = members.iter().map(|m| m.to_string()).collect();
    create_identity_with_key(&seed(200), address, Some(list)).unwrap()
}

#[test]
fn group_member_can_get_shared_file_via_group() {
    let mut world = World::new();
    let alice_key = seed(1);
    world.account("alice@127.0.0.1:8000", &alice_key);
    let bob_key = seed(2);
    world.account("bob@127.0.0.1:8000", &bob_key);
    let group = group_of("alice@127.0.0.1:8000/team.json", &["bob@127.0.0.1:8000"]);
    share_with_group(&mut world, &alice_key, &group);
    let (code, body, _) = signed_request(&mut world, "bob@127.0.0.1:8000", &bob_key, "GET", "/ark/alice/shared.txt", &[]);
    assert_eq!(code, 200);
    assert_eq!(body, b"secret");
}

#[test]
fn non_group_member_gets_forbidden() {
    let mut world = World::new();
    let alice_key = seed(1);
    world.account("alice@127.0.0.1:8000", &alice_key);
    world.account("bob@127.0.0.1:8000", &seed(2));
    let charlie_key = seed(3);
    world.account("charlie@127.0.0.1:8000", &charlie_key);
    let group = group_of("alice@127.0.0.1:8000/team.json", &["bob@127.0.0.1:8000"]);
    share_with_group(&mut world, &alice_key, &group);
    let (code, _, _) =
        signed_request(&mut world, "charlie@127.0.0.1:8000", &charlie_key, "GET", "/ark/alice/shared.txt", &[]);
    assert_eq!(code, 403);
}

#[test]
fn nested_group_rejected() {
    let mut world = World::new();
    let alice_key = seed(1);
    world.account("alice@127.0.0.1:8000", &alice_key);
    let bob_key = seed(2);
    world.account("bob@127.0.0.1:8000", &bob_key);
    world.others.push(group_of("alice@127.0.0.1:8000/inner.json", &["bob@127.0.0.1:8000"]));
    let outer = group_of("alice@127.0.0.1:8000/outer.json", &["alice@127.0.0.1:8000/inner.json"]);
    share_with_group(&mut world, &alice_key, &outer);
    let (code, _, _) = signed_request(&mut world, "bob@127.0.0.1:8000", &bob_key, "GET", "/ark/alice/shared.txt", &[]);
    assert_eq!(code, 403);
}

#[test]
fn change_identity_members_drop_then_access_denied() {
    let mut world = World::new();
    let alice_key = seed(1);
    let identity = world.account("alice@127.0.0.1:8000", &alice_key);
    let bob_key = seed(2);
    world.account("bob@127.0.0.1:8000", &bob_key);
    let ctx = Context { root: "/home/alice".to_string(), identity, identity_key: Some(alice_key.clone()) };
    let bob = vec!["bob@127.0.0.1:8000".to_string()];
    let group = create_client_identity(&ctx, "team.json", &bob, false, false).unwrap();
    share_with_group(&mut world, &alice_key, &group.identity);
    let (code, body, _) = signed_request(&mut world, "bob@127.0.0.1:8000", &bob_key, "GET", "/ark/alice/shared.txt", &[]);
    assert_eq!(code, 200);
    assert_eq!(body, b"secret");

    let change =
        change_identity_members(&ctx, "team.json", &group.identity, &group.secret_key.value, &[], &bob).unwrap().unwrap();
    share_with_group(&mut world, &alice_key, &change.identity);
    let (code, _, _) = signed_request(&mut world, "bob@127.0.0.1:8000", &bob_key, "GET", "/ark/alice/shared.txt", &[]);
    assert_eq!(code, 403);
}

#[test]
fn change_identity_members_add_promotes_to_group() {
    let mut world = World::new();
    let alice_key = seed(1);
    let identity = world.account("alice@127.0.0.1:8000", &alice_key);
    let bob_key = seed(2);
    world.account("bob@127.0.0.1:8000", &bob_key);
    let ctx = Context { root: "/home/alice".to_string(), identity, identity_key: Some(alice_key.clone()) };
    let bob = vec!["bob@127.0.0.1:8000".to_string()];
    let alone = create_client_identity(&ctx, "team.json", &[], false, false).unwrap();
    assert!(alone.identity.members.is_none());
    share_with_group(&mut world, &alice_key, &alone.identity);
    let (code, _, _) = signed_request(&mut world, "bob@127.0.0.1:8000", &bob_key, "GET", "/ark/alice/shared.txt", &[]);
    assert_eq!(code, 403);

    let change =
        change_identity_members(&ctx, "team.json", &alone.identity, &alone.secret_key.value, &bob, &[]).unwrap().unwrap();
    assert_eq!(change.identity.members.as_ref().unwrap(), &bob);
    share_with_group(&mut world, &alice_key, &change.identity);
    let (code, body, _) = signed_request(&mut world, "bob@127.0.0.1:8000", &bob_key, "GET", "/ark/alice/shared.txt", &[]);
    assert_eq!(code, 200);
    assert_eq!(body, b"secret");
}

#[test]
fn group_writers_write_and_readers_do_not() {
    let target = create_identity_with_key(&seed(1), "a@x", None).unwrap();
    let group = create_identity_with_key(&seed(2), "a@x/team.json", Some(vec!["b@y".to_string()])).unwrap();
    let found = Found { address: "a@x/team.json".to_string(), outcome: Ok(group) };
    let directory = Directory { entries: vec![found] };
    let writers = [member("b@y", Permission::Reader), member("a@x/team.json", Permission::Writer)];
    assert_eq!(find_permission(&target, &directory, &person("b@y"), Some(&writers)).unwrap(), Permission::Writer);
    assert!(find_permission(&target, &directory, &person("c@z"), Some(&writers)).is_err());
}

#[test]
fn directories_are_stored_with_their_metadata() {
    let mut world = World::new();
    let key = seed(70);
    setup_account(&mut world, "test", &key);
    let mut m = create_metadata(TEST_ADDRESS, None, TIME);
    sign_metadata(&key, &mut m, None).unwrap();
    let code = signed_put_metadata(&mut world, TEST_ADDRESS, &key, "/ark/test/docs/", b"", &m);
    assert_eq!(code, 201);
    assert_eq!(read_metadata_attributes(world.dirs.get("ark/test/docs").unwrap()).unwrap(), m);
    let code = signed_put_metadata(&mut world, TEST_ADDRESS, &key, "/ark/test/docs/", b"", &m);
    assert_eq!(code, 204);

    let (code, body, headers) = signed_request(&mut world, TEST_ADDRESS, &key, "GET", "/ark/test/docs/", &[]);
    assert_eq!(code, 200);
    assert_eq!(body, b"[]");
    assert_eq!(header(&headers, "x-ark-meta-id"), Some(m.id.as_str()));

    let code = signed_put_metadata(&mut world, TEST_ADDRESS, &key, "/ark/test/other/", b"body", &m);
    assert_eq!(code, 403);
}

#[test]
fn metadata_alone_keeps_the_body() {
    let mut world = World::new();
    let key = seed(71);
    setup_account(&mut world, "test", &key);
    seed_shared_file(&mut world, &key, TEST_ADDRESS, "ark/test/f", b"content", vec![]);
    let mut m = read_metadata_attributes(&world.files.get("ark/test/f").unwrap().attributes).unwrap();
    m.members.push(member("b@y", Permission::Reader));
    resign_metadata(&key, &mut m).unwrap();
    let headers = write_metadata_headers(&m);
    let mut extra: Vec<(String, String)> = headers;
    extra.push(("Authorization".to_string(), build_auth(TEST_ADDRESS, NOW, &sign(&key, "PUT", "/ark/test/f", NOW, b""))));
    let shown: Vec<(&str, &str)> = extra.iter().map(|(k, v)| (k.as_str(), v.as_str())).collect();
    let (code, _, _) = request(&mut world, "PUT", "/ark/test/f?relay=full&metadata", b"", &shown);
    assert_eq!(code, 204);
    assert_eq!(world.body("ark/test/f"), b"content");
    assert_eq!(read_metadata_attributes(&world.files.get("ark/test/f").unwrap().attributes).unwrap(), m);

    // Metadata for another body is refused.
    let mut wrong = m.copy();
    sign_metadata(&key, &mut wrong, Some(b"other")).unwrap();
    let mut extra = write_metadata_headers(&wrong);
    extra.push(("Authorization".to_string(), build_auth(TEST_ADDRESS, NOW, &sign(&key, "PUT", "/ark/test/f", NOW, b""))));
    let shown: Vec<(&str, &str)> = extra.iter().map(|(k, v)| (k.as_str(), v.as_str())).collect();
    let (code, body, _) = request(&mut world, "PUT", "/ark/test/f?metadata", b"", &shown);
    assert_eq!(code, 403);
    assert_eq!(body, b"body hash mismatch");
}

#[test]
fn listings_are_filtered_by_prefix() {
    let mut world = World::new();
    let key = seed(72);
    setup_account(&mut world, "test", &key);
    for name in ["PUT_201_a.http", "PUT_403_b.http", "GET_200_c.http", "a b"] {
        world.write_bare(&format!("ark/test/logs/{}", name), b"x");
    }
    let auth = build_auth(TEST_ADDRESS, NOW, &sign(&key, "GET", "/ark/test/logs/", NOW, b""));
    let (code, body, _) =
        request(&mut world, "GET", "/ark/test/logs/?prefix=PUT_2", b"", &[("Authorization", &auth)]);
    assert_eq!(code, 200);
    let names: Vec<String> = entries(&body).into_iter().map(|e| e.0).collect();
    assert_eq!(names, vec!["PUT_201_a.http".to_string()]);
    let (_, body, _) = request(&mut world, "GET", "/ark/test/logs/?x&prefix=a+", b"", &[("Authorization", &auth)]);
    let names: Vec<String> = entries(&body).into_iter().map(|e| e.0).collect();
    assert_eq!(names, vec!["a b".to_string()]);
}

#[test]
fn content_types_go_by_the_extension() {
    assert_eq!(content_type("index.HTML"), "text/html; charset=utf-8");
    assert_eq!(content_type("a.b.json"), "application/json");
    assert_eq!(content_type("photo.jpeg"), "image/jpeg");
    assert_eq!(content_type("notes.md"), "text/plain; charset=utf-8");
    assert_eq!(content_type("README"), "application/octet-stream");
    assert_eq!(content_type(".json"), "application/octet-stream");
}

#[test]
fn request_is_signed_over_all_its_parts() {
    assert_eq!(
        request_to_bytes("PUT", "h:1", "/ark/a/f", 7, b"body"),
        b"PUT\nh:1\n/ark/a/f\n7\nbody".to_vec()
    );
}
