use std::collections::BTreeMap;

use ark::accounts::create_account_with_key;
use ark::crypto::{create_secret_key, encrypt_bytes};
use ark::download::{get, get_stream, head, path_request};
use ark::error::{fail_with, Fault};
use ark::fields::{
    read_local_metadata_attributes, read_metadata_attributes, write_local_metadata_attributes,
    write_metadata_attributes, write_metadata_headers,
};
use ark::http::{read_request, read_response, Request, Response};
use ark::identity::parse_address;
use ark::listing::{DirectoryEntry, DirectoryEntryKind};
use ark::log::{entry_name, record_request, write_request_entry};
use ark::membership::{Directory, Found};
use ark::metadata::{create_metadata, sign_metadata, verify_metadata};
use ark::permissions::{owner, reader, writer};
use ark::proposals::{
    accept_proposal, check_member_changes, entry_path_of, is_log_entry, list_proposals, needs_list, plan_acceptance,
    proposal_accepted, reject_proposal, resolve_id, verify_metadata_changes, Entry, Suspicion,
};
use ark::server::{directories_above, handle, removed, route, stored, Account, Action, Content, Disk, Node};
use ark::sync::{
    check, check_entry, fetch_log_map, join_path, last_sync_request, pending_entries, pull_watch, push_watch, report,
    sidecar_path_for, stamp_key, sync_entry, take_metadata, to_relative_path, under_prefix, Reaction, Remote,
    SyncEntry, SyncStep,
};
use ark::types::{Context, Identity, Key, LocalMetadata, Member, Metadata, Permission, Permissions};
use ark::upload::{put, put_content};
use ark::watch::{EntryAction, EntryEvent};
use sha2::Digest;

const NOW: u64 = 1_800_000_000;
const TIME: &str = "2026-01-02T03:04:05.678Z";

struct Item {
    body: Vec<u8>,
    attributes: Vec<(String, Vec<u8>)>,
    symlink: bool,
}

// A server with its files in memory.
struct World {
    accounts: Vec<Identity>,
    others: Vec<Identity>,
    files: BTreeMap<String, Item>,
    dirs: BTreeMap<String, Vec<(String, Vec<u8>)>>,
}

type Answer = (u16, Vec<u8>, Vec<(String, String)>);

fn seed(value: u8) -> Key {
    Key { algorithm: "ed25519".to_string(), value: vec![value; 32] }
}

impl World {
    fn new() -> World {
        World { accounts: Vec::new(), others: Vec::new(), files: BTreeMap::new(), dirs: BTreeMap::new() }
    }

    fn account(&mut self, address: &str, key: &Key) -> Identity {
        let account = create_account_with_key("/srv", address, key, false, false).unwrap();
        self.accounts.push(account.identity.clone());
        account.identity
    }

    fn write(&mut self, file: &str, body: &[u8], metadata: &Metadata) {
        let attributes = write_metadata_attributes(metadata);
        self.files.insert(file.to_string(), Item { body: body.to_vec(), attributes, symlink: false });
    }

    fn body(&self, file: &str) -> Vec<u8> {
        self.files.get(file).unwrap().body.clone()
    }

    fn node(&self, file: &str) -> Node {
        let path = file.trim_end_matches('/').to_string();
        if let Some(item) = self.files.get(&path) {
            return Node::File { size: item.body.len() as u64 };
        }
        let below = format!("{}/", path);
        let mut found = self.dirs.contains_key(&path);
        let mut entries: BTreeMap<String, DirectoryEntry> = BTreeMap::new();
        for dir in self.dirs.keys() {
            if let Some(rest) = dir.strip_prefix(&below) {
                let name = rest.split('/').next().unwrap().to_string();
                entries.insert(name.clone(), DirectoryEntry { kind: DirectoryEntryKind::Dir, name, size: 4096 });
                found = true;
            }
        }
        for (at, item) in &self.files {
            if let Some(rest) = at.strip_prefix(&below) {
                found = true;
                let name = rest.split('/').next().unwrap().to_string();
                let kind = if rest.contains('/') {
                    DirectoryEntryKind::Dir
                } else if item.symlink {
                    DirectoryEntryKind::Symlink
                } else {
                    DirectoryEntryKind::File
                };
                let size = if rest.contains('/') { 4096 } else { item.body.len() as u64 };
                entries.insert(name.clone(), DirectoryEntry { kind, name, size });
            }
        }
        for identity in &self.accounts {
            let name = parse_address(&identity.address).unwrap().0;
            if path == format!("ark/{}", name) {
                found = true;
            }
        }
        if found {
            Node::Dir { entries: Ok(entries.into_values().collect()) }
        } else {
            Node::Missing
        }
    }

    fn disk(&self, account: &str, file: &str) -> Disk {
        let mut owner = Account::Absent;
        for identity in &self.accounts {
            if parse_address(&identity.address).unwrap().0 == account {
                owner = Account::Present { identity: identity.clone() };
            }
        }
        let path = file.trim_end_matches('/');
        let item = self.files.get(path);
        let attributes = match (item, self.dirs.get(path)) {
            (Some(i), _) => i.attributes.clone(),
            (None, Some(list)) => list.clone(),
            (None, None) => Vec::new(),
        };
        Disk {
            account: owner,
            symlink: item.map(|i| i.symlink).unwrap_or(false),
            attributes: Ok(attributes),
            above: directories_above(path).iter().map(|d| Ok(self.dirs.get(d).cloned().unwrap_or_default())).collect(),
            node: self.node(file),
        }
    }

    fn find(&self, address: &str) -> Found {
        for identity in self.accounts.iter().chain(self.others.iter()) {
            if identity.address == address {
                return Found { address: address.to_string(), outcome: Ok(identity.clone()) };
            }
        }
        let error = fail_with(Fault::UnknownIdentity, address.to_string());
        Found { address: address.to_string(), outcome: Err(error) }
    }

    fn send(&mut self, bytes: &[u8]) -> Answer {
        let request = read_request(bytes, false).unwrap();
        let head = request.method == "HEAD";
        let out = self.answer(&request);
        let response = read_response(&out, head).unwrap();
        (response.status, response.body, response.headers)
    }

    fn answer(&mut self, request: &Request) -> Vec<u8> {
        let place = match route(&request.method, &request.target) {
            Ok(p) => p,
            Err(reply) => return reply.write(),
        };
        let disk = self.disk(&place.account, &place.file);
        let mut directory = Directory { entries: Vec::new() };
        loop {
            match handle(request, &place, &disk, &directory, NOW) {
                Action::Answer { bytes } => return bytes,
                Action::File { head, send } => {
                    let mut out = head;
                    if send {
                        out.extend_from_slice(&self.body(&place.file));
                    }
                    return out;
                }
                Action::Store { metadata, content, status } => {
                    let path = place.file.trim_end_matches('/').to_string();
                    match content {
                        Content::Body => self.write(&path, &request.body, &metadata),
                        Content::Dir => {
                            self.dirs.insert(path, write_metadata_attributes(&metadata));
                        }
                        Content::Kept => {
                            let attributes = write_metadata_attributes(&metadata);
                            match self.files.get_mut(&path) {
                                Some(item) => item.attributes = attributes,
                                None => {
                                    self.dirs.insert(path, attributes);
                                }
                            }
                        }
                    }
                    return stored(status);
                }
                Action::Remove { dir } => {
                    let below = format!("{}/", place.file);
                    self.files.retain(|at, _| at != &place.file && !(dir && at.starts_with(&below)));
                    self.dirs.retain(|at, _| at != &place.file && !(dir && at.starts_with(&below)));
                    return removed(true);
                }
                Action::Lookup { address } => directory.entries.push(self.find(&address)),
                Action::Fail { error } => panic!("{}", error.message()),
            }
        }
    }
}

const ALICE: &str = "alice@127.0.0.1:8000";
const BOB: &str = "bob@127.0.0.1:8000";
const FOO: &str = "alice@127.0.0.1:8000/shared/foo.txt";

// The log of an account: the requests to write, with how they were answered.
struct Log {
    entries: Vec<(String, Vec<u8>)>,
}

impl Log {
    fn new() -> Log {
        Log { entries: Vec::new() }
    }

    fn record(&mut self, request: &[u8], status: u16) {
        let bytes = write_request_entry(request, status).unwrap();
        let name = entry_name("PUT", status, &format!("2026-01-02T03-04-05.{:03}Z", self.entries.len()));
        self.entries.push((name, bytes));
    }

    fn listing(&self) -> Vec<DirectoryEntry> {
        self.entries
            .iter()
            .map(|(name, body)| DirectoryEntry {
                kind: DirectoryEntryKind::File,
                name: name.clone(),
                size: body.len() as u64,
            })
            .collect()
    }

    fn body(&self, name: &str) -> Option<Vec<u8>> {
        self.entries.iter().find(|(n, _)| n == name).map(|(_, b)| b.clone())
    }
}

struct Copy {
    body: Option<Vec<u8>>,
    attributes: Vec<(String, Vec<u8>)>,
}

// A client with its files in memory.
struct Client {
    ctx: Context,
    directory: Directory,
    files: BTreeMap<String, Copy>,
    last: Option<String>,
}

impl Client {
    fn new(world: &mut World, address: &str, key: &Key) -> Client {
        let identity = world.account(address, key);
        Client {
            ctx: Context { root: "/home".to_string(), identity, identity_key: Some(key.clone()) },
            directory: Directory { entries: Vec::new() },
            files: BTreeMap::new(),
            last: None,
        }
    }

    fn learn(&mut self, identity: &Identity) {
        self.directory.entries.push(Found { address: identity.address.clone(), outcome: Ok(identity.clone()) });
    }

    fn save(&mut self, path: &str, body: &[u8]) {
        let attributes = self.files.get(path).map(|c| c.attributes.clone()).unwrap_or_default();
        self.files.insert(path.to_string(), Copy { body: Some(body.to_vec()), attributes });
    }

    fn set(&mut self, path: &str, metadata: &Metadata, local: &LocalMetadata) {
        let mut attributes = write_metadata_attributes(metadata);
        attributes.extend(write_local_metadata_attributes(local));
        self.files.get_mut(path).unwrap().attributes = attributes;
    }

    fn metadata(&self, path: &str) -> Metadata {
        read_metadata_attributes(&self.files.get(path).unwrap().attributes).unwrap()
    }

    fn marks(&self, path: &str) -> LocalMetadata {
        read_local_metadata_attributes(&self.files.get(path).unwrap().attributes).unwrap()
    }

    fn body(&self, path: &str) -> Vec<u8> {
        self.files.get(path).unwrap().body.clone().unwrap()
    }

    fn put(&mut self, world: &mut World, log: &mut Log, path: &str, permissions: &Permissions, only: bool, now: &str) {
        let at = path.trim_end_matches('/');
        let copy = self.files.get(at).unwrap();
        let algorithm = if only || copy.body.is_none() { None } else { Some("none") };
        let upload = put(
            &self.ctx,
            &self.directory,
            path,
            &copy.attributes,
            copy.body.as_deref(),
            permissions,
            algorithm,
            only,
            now,
            NOW,
        )
        .unwrap();
        let status = world.send(&upload.request).0;
        log.record(&upload.request, status);
        assert!(status == 201 || status == 204, "status was {}", status);
        self.set(at, &upload.metadata, &upload.local);
    }

    fn ask(&self, world: &mut World, method: &str, path: &str) -> Response {
        let request = path_request(&self.ctx, method, path, NOW).unwrap();
        let (status, body, headers) = world.send(&request);
        Response { status, headers, body }
    }

    fn get(&mut self, world: &mut World, path: &str, at: &str) {
        let attributes = self.files.get(at).map(|c| c.attributes.clone()).unwrap_or_default();
        let response = self.ask(world, "GET", path);
        let found = get(&self.ctx, &self.directory, path, &response, false, &attributes).unwrap();
        self.files.insert(at.to_string(), Copy { body: Some(found.body), attributes: Vec::new() });
        self.set(at, &found.metadata, &found.local);
    }

    // One pass over all files.
    fn sync(&mut self, world: &mut World, log: &mut Log, now: &str) -> Vec<EntryEvent> {
        let pending = pending_entries(&log.listing(), self.last.as_deref());
        let bodies: Vec<Option<Vec<u8>>> = pending.iter().map(|name| log.body(name)).collect();
        let map = fetch_log_map(&self.ctx, "", &bodies).unwrap();
        assert!(map.errors.is_empty());

        let mut locals = Vec::new();
        for (path, copy) in &self.files {
            if let Some(entry) = check_entry(path, &copy.attributes, copy.body.as_deref()).unwrap() {
                locals.push(entry);
            }
        }
        let mut remotes = Vec::new();
        for (path, metadata) in map.files {
            let copy = self.files.get(&path);
            remotes.push(Remote {
                exists: copy.is_some(),
                attributes: copy.map(|c| c.attributes.clone()).unwrap_or_default(),
                relative_path: path,
                metadata,
            });
        }

        let mut events = Vec::new();
        for entry in check(&self.ctx.identity.address, locals, &remotes).unwrap() {
            let path = entry.relative_path.clone();
            let target = format!("/{}", path);
            let step = sync_entry(&entry);
            match step {
                SyncStep::Conflict => {
                    let sidecar = sidecar_path_for(&path, "20260102T030405Z");
                    self.get(world, &target, &sidecar);
                    let metadata = self.metadata(&sidecar);
                    self.files.get_mut(&sidecar).unwrap().attributes = write_metadata_attributes(&metadata);
                }
                SyncStep::Push => {
                    let copy = self.files.get(&path).unwrap();
                    let upload = put_content(
                        &self.ctx,
                        &self.directory,
                        &target,
                        &copy.attributes,
                        copy.body.as_deref(),
                        now,
                        NOW,
                    )
                    .unwrap();
                    let status = world.send(&upload.request).0;
                    log.record(&upload.request, status);
                    assert_eq!(status, 204);
                    self.set(&path, &upload.metadata, &upload.local);
                }
                SyncStep::Pull => self.get(world, &target, &path),
                SyncStep::Metadata => {
                    let response = self.ask(world, "HEAD", &target);
                    let (_, metadata) = head(&self.ctx, &self.directory, &response).unwrap();
                    let exists = self.files.contains_key(&path);
                    if metadata.body_hash.is_none() && !exists {
                        self.files.insert(path.clone(), Copy { body: None, attributes: Vec::new() });
                    }
                    let attributes = self.files.get(&path).map(|c| c.attributes.clone()).unwrap_or_default();
                    let local = take_metadata(&path, &metadata, exists, &attributes).unwrap();
                    self.set(&path, &metadata, &local);
                }
                SyncStep::Nothing => {}
            }
            let dir = self.files.get(&path).map(|c| c.body.is_none()).unwrap_or(false);
            if let Some(event) = report(step, &path, dir) {
                events.push(event);
            }
        }
        self.last = last_sync_request(&pending, self.last.as_deref());
        events
    }
}

fn setup() -> (World, Client, Log) {
    let mut world = World::new();
    let client = Client::new(&mut world, ALICE, &seed(1));
    (world, client, Log::new())
}

fn setup_two() -> (World, Client, Client, Log) {
    let mut world = World::new();
    let mut alice = Client::new(&mut world, ALICE, &seed(1));
    let mut bob = Client::new(&mut world, BOB, &seed(2));
    alice.learn(&bob.ctx.identity);
    bob.learn(&alice.ctx.identity);
    (world, alice, bob, Log::new())
}

fn time(n: u32) -> String {
    format!("2026-01-02T03:04:{:02}.000Z", n)
}

fn prime(client: &mut Client, world: &mut World, log: &mut Log, path: &str, body: &[u8]) {
    client.save(path, body);
    client.put(world, log, path, &Permissions::default(), false, &time(1));
}

fn sha(bytes: &[u8]) -> Vec<u8> {
    sha2::Sha256::digest(bytes).to_vec()
}

// Alice shares a directory with bob.
fn share_dir(world: &mut World, alice: &mut Client, log: &mut Log, permissions: &Permissions) {
    alice.files.insert("shared".to_string(), Copy { body: None, attributes: Vec::new() });
    alice.put(world, log, "shared/", permissions, false, &time(0));
}

// Alice puts a file in the directory, and lets bob write to it.
fn share_foo(world: &mut World, alice: &mut Client, log: &mut Log, body: &[u8]) {
    alice.save("shared/foo.txt", body);
    alice.put(world, log, "shared/foo.txt", &Permissions::default(), false, &time(1));
    alice.put(world, log, "shared/foo.txt", &writer(BOB), false, &time(1));
}

// Bob writes a new file to alice's directory.
fn bob_creates(world: &mut World, bob: &mut Client, log: &mut Log, body: &[u8], n: u32) {
    bob.save(FOO, body);
    bob.put(world, log, FOO, &Permissions::default(), false, &time(n));
}

// Bob takes the file and writes another body to it.
fn bob_writes(world: &mut World, bob: &mut Client, log: &mut Log, body: &[u8], n: u32) {
    bob.get(world, FOO, FOO);
    bob.save(FOO, body);
    bob.put(world, log, FOO, &Permissions::default(), false, &time(n));
}

#[test]
fn sync_skips_untracked_files() {
    let (mut world, mut client, mut log) = setup();
    client.save("bare.txt", b"hi");
    assert!(client.sync(&mut world, &mut log, &time(2)).is_empty());
    assert!(world.files.is_empty(), "untracked file should not upload");
}

#[test]
fn sync_walks_subdirs() {
    let (mut world, mut client, mut log) = setup();
    prime(&mut client, &mut world, &mut log, "a/b/c.txt", b"deep v1");
    client.save("a/b/c.txt", b"deep v2");
    client.sync(&mut world, &mut log, &time(2));
    assert_eq!(world.body("ark/alice/a/b/c.txt"), b"deep v2");
}

#[test]
fn sync_skips_when_content_unchanged() {
    let (mut world, mut client, mut log) = setup();
    prime(&mut client, &mut world, &mut log, "f.txt", b"v1");
    let puts = log.entries.len();
    assert!(client.sync(&mut world, &mut log, &time(2)).is_empty());
    assert_eq!(world.body("ark/alice/f.txt"), b"v1");
    assert_eq!(log.entries.len(), puts);
}

#[test]
fn sync_skips_when_rewritten_with_same_content() {
    let (mut world, mut client, mut log) = setup();
    prime(&mut client, &mut world, &mut log, "f.txt", b"same");
    client.save("f.txt", b"same");
    assert!(client.sync(&mut world, &mut log, &time(2)).is_empty());
}

#[test]
fn sync_after_get_does_not_reupload() {
    let (mut world, mut client, mut log) = setup();
    let mut m = create_metadata(ALICE, None, TIME);
    sign_metadata(&seed(1), &mut m, Some(b"remote body")).unwrap();
    world.write("ark/alice/pulled.txt", b"remote body", &m);
    client.get(&mut world, "pulled.txt", "pulled.txt");
    assert!(client.sync(&mut world, &mut log, &time(2)).is_empty());
    assert!(log.entries.is_empty(), "sync after get must not re-upload identical body");
}

#[test]
fn sync_uploads_when_content_changes() {
    let (mut world, mut client, mut log) = setup();
    prime(&mut client, &mut world, &mut log, "f.txt", b"v1");
    client.save("f.txt", b"v2");
    client.sync(&mut world, &mut log, &time(2));
    assert_eq!(world.body("ark/alice/f.txt"), b"v2");
}

#[test]
fn sync_refreshes_sync_body_hash_after_push() {
    let (mut world, mut client, mut log) = setup();
    prime(&mut client, &mut world, &mut log, "f.txt", b"v1");
    client.save("f.txt", b"v2");
    client.sync(&mut world, &mut log, &time(2));
    assert_eq!(client.marks("f.txt").sync_hash, Some(sha(b"v2")), "sync_hash must track uploaded body after push");
    assert!(client.sync(&mut world, &mut log, &time(3)).is_empty(), "second sync must no-op");
}

#[test]
fn sync_skips_encrypted_at_rest_files() {
    let (mut world, mut client, mut log) = setup();
    let file_key = create_secret_key("aes-256-gcm").unwrap();
    let ciphertext = encrypt_bytes(&file_key, b"plaintext").unwrap().1;
    let mut m = create_metadata(ALICE, Some("aes-256-gcm"), TIME);
    let (algorithm, value) = encrypt_bytes(&client.ctx.identity.public_key, &file_key.value).unwrap();
    m.members[0].key = Some(Key { algorithm, value });
    sign_metadata(&seed(1), &mut m, Some(&ciphertext)).unwrap();
    world.write("ark/alice/secret", &ciphertext, &m);

    client.get(&mut world, "secret", "secret");
    assert_eq!(client.marks("secret").encrypted, Some(true));
    assert!(client.marks("secret").sync_hash.is_none(), "encrypted-at-rest file should not carry sync_hash");
    assert!(client.sync(&mut world, &mut log, &time(2)).is_empty());
    assert_eq!(world.body("ark/alice/secret"), ciphertext, "encrypted-at-rest file should be skipped by sync");
}

#[test]
fn sync_leaves_files_encrypted_at_rest_alone() {
    let (mut world, mut alice, mut bob, mut log) = setup_two();
    share_dir(&mut world, &mut alice, &mut log, &writer(BOB));
    share_foo(&mut world, &mut alice, &mut log, b"v1");
    let m = alice.metadata("shared/foo.txt");
    for sync_hash in [None, Some(sha(b"v1"))] {
        let marks = LocalMetadata { encrypted: Some(true), sync_hash, sync_modified: Some(m.modified.clone()) };
        alice.files.insert("shared/foo.txt".to_string(), Copy { body: Some(b"sealed".to_vec()), attributes: Vec::new() });
        alice.set("shared/foo.txt", &m, &marks);
        bob_writes(&mut world, &mut bob, &mut log, b"v2", 2);
        assert!(alice.sync(&mut world, &mut log, &time(3)).is_empty());
        assert_eq!(alice.body("shared/foo.txt"), b"sealed");
    }
}

#[test]
fn sync_pulls_files_from_other_accounts_log_entries() {
    let (mut world, mut alice, mut bob, mut log) = setup_two();
    share_dir(&mut world, &mut alice, &mut log, &writer(BOB));
    bob_creates(&mut world, &mut bob, &mut log, b"hello alice", 1);
    alice.sync(&mut world, &mut log, &time(2));
    assert_eq!(alice.body("shared/foo.txt"), b"hello alice", "sync should pull remote file");
}

#[test]
fn only_members_of_a_directory_write_in_it() {
    let (mut world, mut alice, mut bob, mut log) = setup_two();
    let upload = |bob: &Client| {
        put(&bob.ctx, &bob.directory, FOO, &[], Some(b"x"), &Permissions::default(), Some("none"), false, TIME, NOW)
            .unwrap()
            .request
    };
    bob.save(FOO, b"x");
    assert_eq!(world.send(&upload(&bob)).0, 403);
    share_dir(&mut world, &mut alice, &mut log, &reader(BOB));
    assert_eq!(world.send(&upload(&bob)).0, 403);
    share_dir(&mut world, &mut alice, &mut log, &writer(BOB));
    assert_eq!(world.send(&upload(&bob)).0, 201);
    assert_eq!(world.body("ark/alice/shared/foo.txt"), b"x");
}

#[test]
fn sync_pulls_file_metadata_only_when_body_unchanged() {
    let (mut world, mut alice, mut bob, mut log) = setup_two();
    share_dir(&mut world, &mut alice, &mut log, &owner(BOB));
    bob_creates(&mut world, &mut bob, &mut log, b"v1", 1);
    alice.sync(&mut world, &mut log, &time(2));
    assert_eq!(alice.body("shared/foo.txt"), b"v1");
    let before = alice.metadata("shared/foo.txt");

    bob.put(&mut world, &mut log, FOO, &reader("public"), false, &time(3));
    alice.sync(&mut world, &mut log, &time(4));

    assert_eq!(alice.body("shared/foo.txt"), b"v1", "body should be unchanged");
    let m = alice.metadata("shared/foo.txt");
    assert!(m.members.iter().any(|mem| mem.address == "*"), "public member should be present after metadata sync");
    assert!(m.members.len() > before.members.len(), "members count should grow after metadata sync");
    assert_ne!(m.modified, before.modified, "modified stamp should refresh after metadata sync");
    assert!(alice.sync(&mut world, &mut log, &time(5)).is_empty());
}

#[test]
fn sync_pulls_dir_metadata_from_other_accounts_log_entries() {
    let (mut world, mut alice, mut bob, mut log) = setup_two();
    share_dir(&mut world, &mut alice, &mut log, &writer(BOB));
    let target = "alice@127.0.0.1:8000/shared/sub";
    bob.files.insert(target.to_string(), Copy { body: None, attributes: Vec::new() });
    bob.put(&mut world, &mut log, target, &Permissions::default(), false, &time(1));

    alice.sync(&mut world, &mut log, &time(2));

    assert!(alice.files.get("shared/sub").unwrap().body.is_none(), "sync should create dir locally");
    assert_eq!(alice.metadata("shared/sub").modified_by, BOB, "modifier should be bob");
}

#[test]
fn sync_writes_last_sync_request() {
    let (mut world, mut client, mut log) = setup();
    prime(&mut client, &mut world, &mut log, "notes.txt", b"body");
    client.sync(&mut world, &mut log, &time(2));
    let stamp = client.last.clone().expect("last_sync_request should be recorded after sync");
    assert!(stamp.ends_with(".http"), "last_sync_request should be a log entry filename, got {}", stamp);
}

#[test]
fn sync_skips_log_entries_older_than_last_sync() {
    let (mut world, mut alice, mut bob, mut log) = setup_two();
    share_dir(&mut world, &mut alice, &mut log, &writer(BOB));
    bob_creates(&mut world, &mut bob, &mut log, b"first", 1);
    alice.sync(&mut world, &mut log, &time(2));
    assert_eq!(alice.body("shared/foo.txt"), b"first");
    alice.files.remove("shared/foo.txt");
    alice.sync(&mut world, &mut log, &time(3));
    assert!(!alice.files.contains_key("shared/foo.txt"), "already-processed log entry must not re-pull");
}

#[test]
fn sync_ignores_own_puts_in_log() {
    let (mut world, mut client, mut log) = setup();
    prime(&mut client, &mut world, &mut log, "notes.txt", b"self body");
    client.files.clear();
    client.sync(&mut world, &mut log, &time(2));
    assert!(client.files.is_empty(), "own PUTs must not be pulled back");
}

#[test]
fn sync_writes_conflict_sidecar_when_both_sides_diverge() {
    let (mut world, mut alice, mut bob, mut log) = setup_two();
    share_dir(&mut world, &mut alice, &mut log, &writer(BOB));
    share_foo(&mut world, &mut alice, &mut log, b"alice-v1");
    alice.sync(&mut world, &mut log, &time(2));
    bob_writes(&mut world, &mut bob, &mut log, b"bob-v2", 3);
    alice.save("shared/foo.txt", b"alice-v2-unpushed");

    alice.sync(&mut world, &mut log, &time(4));

    assert_eq!(alice.body("shared/foo.txt"), b"alice-v2-unpushed", "local edit preserved at original path");
    let sidecar = alice.files.keys().find(|n| n.starts_with("shared/foo.txt.conflict-")).expect("sidecar file present").clone();
    assert_eq!(alice.body(&sidecar), b"bob-v2", "sidecar carries pulled remote body");
    assert_eq!(alice.metadata(&sidecar).modified_by, BOB, "sidecar carries remote metadata for comparison");
    assert!(alice.marks(&sidecar).sync_hash.is_none(), "sidecar must not be followed");
}

#[test]
fn sync_pushes_when_only_local_modified() {
    let (mut world, mut client, mut log) = setup();
    prime(&mut client, &mut world, &mut log, "f.txt", b"v1");
    client.save("f.txt", b"v2");
    client.sync(&mut world, &mut log, &time(2));
    assert_eq!(world.body("ark/alice/f.txt"), b"v2");
    assert!(!client.files.keys().any(|n| n.contains(".conflict-")), "no sidecar for pure local edit");
}

#[test]
fn sync_leaves_untracked_local_alone_when_remote_puts_same_path() {
    let (mut world, mut alice, mut bob, mut log) = setup_two();
    share_dir(&mut world, &mut alice, &mut log, &writer(BOB));
    alice.save("shared/foo.txt", b"untracked local");
    bob_creates(&mut world, &mut bob, &mut log, b"bob body", 1);
    alice.sync(&mut world, &mut log, &time(3));
    assert_eq!(alice.body("shared/foo.txt"), b"untracked local", "untracked local must not be clobbered");
}

#[test]
fn sync_emits_events_for_push_and_conflict() {
    let (mut world, mut alice, mut bob, mut log) = setup_two();
    share_dir(&mut world, &mut alice, &mut log, &writer(BOB));
    share_foo(&mut world, &mut alice, &mut log, b"v1");
    alice.save("shared/foo.txt", b"v2");
    let modified = alice.sync(&mut world, &mut log, &time(2));
    assert_eq!(modified.len(), 1, "one event for local body push");
    assert!(matches!(modified[0].action, EntryAction::Modified));
    assert!(!modified[0].conflict);

    bob_writes(&mut world, &mut bob, &mut log, b"bob-v3", 3);
    alice.save("shared/foo.txt", b"alice-v3-unpushed");
    let conflict = alice.sync(&mut world, &mut log, &time(4));
    assert_eq!(conflict.len(), 1, "one event for body divergence");
    assert!(matches!(conflict[0].action, EntryAction::Modified));
    assert!(conflict[0].conflict, "conflict flag set on sidecar write");
    assert_eq!(conflict[0].path, "shared/foo.txt");
}

#[test]
fn each_combination_of_changes_has_its_step() {
    let step = |local: bool, body: bool, metadata: bool| {
        sync_entry(&SyncEntry {
            relative_path: "f".to_string(),
            modified_local_body: local,
            modified_remote_body: body,
            modified_remote_metadata: metadata,
        })
    };
    assert_eq!(step(true, true, true), SyncStep::Conflict);
    assert_eq!(step(true, true, false), SyncStep::Conflict);
    assert_eq!(step(true, false, true), SyncStep::Push);
    assert_eq!(step(false, true, true), SyncStep::Pull);
    assert_eq!(step(false, false, true), SyncStep::Metadata);
    assert_eq!(step(false, false, false), SyncStep::Nothing);
}

#[test]
fn log_names_are_compared_by_their_time() {
    assert_eq!(stamp_key("PUT_201_20260102T03.http"), "20260102T03.http");
    assert_eq!(stamp_key("plain"), "plain");
    let listing: Vec<DirectoryEntry> = [
        ("PUT_201_3.http", DirectoryEntryKind::File),
        ("PUT_204_1.http", DirectoryEntryKind::File),
        ("PUT_201_2.http", DirectoryEntryKind::File),
        ("PUT_201_4.txt", DirectoryEntryKind::File),
        ("PUT_201_5.http", DirectoryEntryKind::Dir),
    ]
    .iter()
    .map(|(name, kind)| DirectoryEntry { kind: *kind, name: name.to_string(), size: 0 })
    .collect();
    assert_eq!(pending_entries(&listing, None), vec!["PUT_204_1.http", "PUT_201_2.http", "PUT_201_3.http"]);
    assert_eq!(pending_entries(&listing, Some("PUT_403_2.http")), vec!["PUT_201_3.http"]);
    assert_eq!(last_sync_request(&[], Some("PUT_403_2.http")).as_deref(), Some("PUT_403_2.http"));
}

#[test]
fn paths_and_prefixes() {
    assert!(under_prefix("a/b", ""));
    assert!(under_prefix("a/b", "a"));
    assert!(under_prefix("a", "a"));
    assert!(!under_prefix("ab", "a"));
    let (_, client, _) = setup();
    assert_eq!(to_relative_path(&client.ctx, "/home/a/b").unwrap(), "a/b");
    assert_eq!(to_relative_path(&client.ctx, "/etc").unwrap_err().message(), "path is not within this account");
    assert_eq!(to_relative_path(&client.ctx, "/home/./a//b/./").unwrap(), "a//b");
    assert_eq!(to_relative_path(&client.ctx, "/home/").unwrap(), "");
    assert_eq!(sidecar_path_for("/home/a.txt", "S"), "/home/a.txt.conflict-S");
    for (path, beside) in [
        ("a", "a.conflict-S"),
        ("./a", "./a.conflict-S"),
        ("/a/", "/a.conflict-S"),
        ("a/b/.", "a/b.conflict-S"),
        ("a/./b", "a/b.conflict-S"),
        ("a/..", "a/../conflict.conflict-S"),
        ("a/../", "a/../conflict.conflict-S"),
        ("/", "/conflict.conflict-S"),
        (".", "./conflict.conflict-S"),
        ("", "conflict.conflict-S"),
    ] {
        assert_eq!(sidecar_path_for(path, "S"), beside, "{}", path);
        let name = std::path::Path::new(path).file_name().map_or("conflict", |n| n.to_str().unwrap());
        let expected = std::path::Path::new(path).with_file_name(format!("{}.conflict-S", name));
        assert_eq!(beside, expected.to_str().unwrap());
    }
    assert_eq!(join_path("", "x"), "x");
    assert_eq!(join_path("d", ""), "d");
    assert_eq!(join_path("d", "x"), "d/x");
}

#[test]
fn unreadable_log_entries_are_reported() {
    let (_, client, _) = setup();
    let map = fetch_log_map(&client.ctx, "", &[Some(b"junk".to_vec()), None]).unwrap();
    assert!(map.files.is_empty());
    assert_eq!(map.errors.len(), 1);
    assert!(map.errors[0].message().starts_with("bad log entry: "), "msg was {}", map.errors[0].message());
}

#[test]
fn metadata_for_a_missing_file_is_an_error() {
    let mut m = create_metadata(ALICE, None, TIME);
    sign_metadata(&seed(1), &mut m, Some(b"x")).unwrap();
    let err = take_metadata("/home/f", &m, false, &[]).unwrap_err();
    assert_eq!(err.message(), "local path missing: /home/f");
}

#[test]
fn remote_events_are_taken_over() {
    let event = |action, kind| EntryEvent { action, kind, path: "f".to_string(), conflict: false };
    let file = Some(DirectoryEntryKind::File);
    match pull_watch("d/f", &event(EntryAction::Created, file), false) {
        Reaction::Sync { entry } => {
            assert_eq!(entry.relative_path, "d/f");
            assert!(entry.modified_remote_body && entry.modified_remote_metadata && !entry.modified_local_body);
        }
        _ => panic!("expected a sync"),
    }
    match pull_watch("d", &event(EntryAction::Modified, Some(DirectoryEntryKind::Dir)), true) {
        Reaction::Sync { entry } => assert!(!entry.modified_remote_body),
        _ => panic!("expected a sync"),
    }
    let gone = EntryEvent { conflict: true, ..event(EntryAction::Deleted, None) };
    match pull_watch("d/f", &gone, true) {
        Reaction::Remove { report } => {
            assert!(matches!(report.action, EntryAction::Deleted));
            assert!(matches!(report.kind, Some(DirectoryEntryKind::File)));
            assert_eq!(report.path, "d/f");
            assert!(!report.conflict);
        }
        _ => panic!("expected the file to be removed"),
    }
    assert!(matches!(pull_watch("d/f", &event(EntryAction::Deleted, file), false), Reaction::Ignore));
    assert!(push_watch(&event(EntryAction::Modified, file), true));
    assert!(!push_watch(&event(EntryAction::Modified, file), false));
    assert!(!push_watch(&event(EntryAction::Deleted, file), true));
}

// Share proposals.

// Bob wants to write a file to alice's account.
fn propose(world: &mut World, bob: &mut Client, log: &mut Log, permissions: &Permissions) -> Vec<u8> {
    bob.save("payload.bin", b"hello");
    let upload = put(
        &bob.ctx,
        &bob.directory,
        "alice@127.0.0.1:8000/apps/notes/foo.md",
        &[],
        Some(b"hello"),
        permissions,
        Some("none"),
        false,
        &time(2),
        NOW,
    )
    .unwrap();
    let status = world.send(&upload.request).0;
    assert_eq!(status, 403);
    log.record(&upload.request, status);
    log.entries.last().unwrap().1.clone()
}

fn log_entries(log: &Log) -> Vec<Entry> {
    log.entries.iter().map(|(name, body)| Entry { name: name.clone(), body: Some(body.clone()) }).collect()
}

#[test]
fn list_proposals_returns_403_puts() {
    let (mut world, _alice, mut bob, mut log) = setup_two();
    propose(&mut world, &mut bob, &mut log, &Permissions::default());
    let proposals = list_proposals(&log_entries(&log)).unwrap();
    assert_eq!(proposals.len(), 1);
    assert_eq!(proposals[0].metadata.modified_by, BOB);
    assert_eq!(proposals[0].target, "/ark/alice/apps/notes/foo.md");
}

#[test]
fn reject_proposal_deletes_log_entry() {
    let (mut world, _alice, mut bob, mut log) = setup_two();
    propose(&mut world, &mut bob, &mut log, &Permissions::default());
    let proposals = list_proposals(&log_entries(&log)).unwrap();
    assert_eq!(proposals.len(), 1);
    let path = reject_proposal(&proposals, &proposals[0].id).unwrap();
    assert_eq!(path, entry_path_of(&proposals[0].id));
    let name = path.rsplit('/').next().unwrap().to_string();
    log.entries.retain(|(n, _)| n != &name);
    assert_eq!(list_proposals(&log_entries(&log)).unwrap().len(), 0);
    assert_eq!(resolve_id(&proposals, "1").unwrap(), proposals[0].id);
    let err = resolve_id(&proposals, "2").unwrap_err();
    assert!(err.message().starts_with("no proposal at index "), "msg was {}", err.message());
    assert!(needs_list("2") && !needs_list(&proposals[0].id) && !needs_list("-1"));
    assert!(is_log_entry(&proposals[0].id) && !is_log_entry("PUT_403_1.txt"));
}

#[test]
fn accept_proposal_creates_dir_and_pulls_file() {
    let (mut world, alice, mut bob, mut log) = setup_two();
    bob.save("apps/notes/foo.md", b"hello alice");
    bob.put(&mut world, &mut Log::new(), "apps/notes/foo.md", &reader(ALICE), false, &time(1));
    let m = bob.metadata("apps/notes/foo.md");
    // The server of bob passes the file on to alice's, which refuses it.
    let headers = write_metadata_headers(&m);
    let mut head_text = "PUT /ark/alice/apps/notes/foo.md HTTP/1.1\r\n".to_string();
    for (name, value) in &headers {
        head_text.push_str(&format!("{}: {}\r\n", name, value));
    }
    head_text.push_str("\r\n");
    log.record(head_text.as_bytes(), 403);

    let proposals = list_proposals(&log_entries(&log)).unwrap();
    assert_eq!(proposals.len(), 1, "expected one proposal");
    let plan = plan_acceptance(&alice.ctx, &proposals[0].id, &log.entries[0].1).unwrap();
    assert!(!plan.dir);
    let response = alice.ask(&mut world, "GET", &plan.source);
    let found = get_stream(&alice.ctx, &alice.directory, &plan.source, &response, false, None).unwrap();
    let request = accept_proposal(&alice.ctx, &plan, &found.metadata, &found.body, false, NOW).unwrap();
    let (code, body, _) = world.send(&request);
    assert_eq!(code, 201);
    proposal_accepted(code, &body).unwrap();
    assert_eq!(world.body("ark/alice/apps/notes/foo.md"), b"hello alice");
}

#[test]
fn changed_proposals_need_force() {
    let (_, alice, _, _) = setup_two();
    let mut proposed = create_metadata(BOB, None, TIME);
    proposed.members.push(Member { address: ALICE.to_string(), permission: Permission::Writer, key: None });
    let mut now = proposed.copy();
    assert!(verify_metadata_changes(&proposed, &now, ALICE).is_ok());
    now.members[1].permission = Permission::Reader;
    assert_eq!(check_member_changes(&proposed, &now, ALICE), Some(Suspicion::Downgraded));
    let err = verify_metadata_changes(&proposed, &now, ALICE).unwrap_err();
    assert!(err.message().contains("Use --force"), "msg was {}", err.message());
    let mut more = proposed.copy();
    more.modified_by = ALICE.to_string();
    more.members.push(Member { address: "eve@x".to_string(), permission: Permission::Reader, key: None });
    assert_eq!(check_member_changes(&proposed, &more, ALICE), Some(Suspicion::Added));
    let mut raised = proposed.copy();
    raised.modified_by = ALICE.to_string();
    raised.members[1].permission = Permission::Owner;
    assert_eq!(check_member_changes(&raised, &proposed, BOB), None);
    assert_eq!(check_member_changes(&proposed, &raised, BOB), Some(Suspicion::Upgraded));
    assert_eq!(plan_acceptance(&alice.ctx, "x", b"junk").is_err(), true);
}

#[test]
fn requests_to_write_are_recorded() {
    let (mut world, mut alice, mut bob, _) = setup_two();
    bob.learn(&alice.ctx.identity);
    bob.save("gift.txt", b"for you");
    let target = format!("{}/gift.txt", ALICE);
    let upload =
        put(&bob.ctx, &bob.directory, &target, &[], Some(b"for you"), &reader(ALICE), None, false, TIME, NOW).unwrap();
    let status = world.send(&upload.request).0;
    assert_eq!(status, 403, "a stranger's write is refused");
    assert!(!world.files.contains_key("ark/alice/gift.txt"));

    let server = Client::new(&mut world, "ark@127.0.0.1:8000", &seed(9)).ctx;
    let record = record_request(&server, ALICE, &upload.request, status, TIME).unwrap().unwrap();
    assert_eq!(record.name, "PUT_403_2026-01-02T03-04-05.678Z.http");
    assert_eq!(record.metadata.modified_by, "ark@127.0.0.1:8000");
    verify_metadata(&server.identity.public_key, &record.metadata, Some(&record.body)).unwrap();

    let found = list_proposals(&[Entry { name: record.name.clone(), body: Some(record.body.clone()) }]).unwrap();
    assert_eq!(found.len(), 1);
    assert_eq!(found[0].id, record.name);
    assert_eq!(found[0].target, "/ark/alice/gift.txt");
    assert_eq!(found[0].metadata, upload.metadata);

    // The account reads the entry from its own server.
    world.write("ark/alice/.ark/requests/entry.http", &record.body, &record.metadata);
    alice.learn(&server.identity);
    let response = alice.ask(&mut world, "GET", "/.ark/requests/entry.http");
    let read = get_stream(&alice.ctx, &alice.directory, "entry", &response, false, None).unwrap();
    assert_eq!(read.body, record.body);
}

#[test]
fn only_requests_to_write_are_recorded() {
    let (mut world, alice, _, _) = setup_two();
    let server = Client::new(&mut world, "ark@127.0.0.1:8000", &seed(9)).ctx;
    let request = path_request(&alice.ctx, "GET", "x", NOW).unwrap();
    assert!(record_request(&server, ALICE, &request, 404, TIME).unwrap().is_none());
    let half = b"PUT /ark/alice/x HTTP/1.1\r\nHost: a\r\n";
    assert!(record_request(&server, ALICE, half, 400, TIME).unwrap().is_none());
    assert!(write_request_entry(half, 400).is_none());
}
