use std::collections::BTreeMap;

use ark::accounts::create_account_with_key;
use ark::auth::{ark_request, parse_auth_params, request_to_bytes};
use ark::base64url::{decode_base64url, encode_base64url};
use ark::bootstrap::find_root;
use ark::commands::{cmd_get, cmd_head, cmd_put, cmd_put_answer, head_io};
use ark::crypto::{create_secret_key, decrypt_bytes, encrypt_bytes, verify_bytes, DEFAULT_ENCRYPTION_ALGORITHM};
use ark::download::{cmd_delete, delete, get, get_content, get_stream, head, list, list_request, path_request};
use ark::error::{fail_with, Error, Fault, Kind};
use ark::fields::{
    read_local_metadata_attributes, read_metadata_attributes, write_local_metadata_attributes,
    write_metadata_attributes,
};
use ark::http::{check_response_code, read_request, read_response, Request, Response};
use ark::identity::{create_identity, parse_address};
use ark::listing::{DirectoryEntry, DirectoryEntryKind};
use ark::locate::{resolve_path, to_fs_path};
use ark::manage::{chmod, cmd_chmod, cmd_track};
use ark::membership::{apply_key_to_metadata, Directory, Found};
use ark::metadata::{create_metadata, sign_metadata, verify_metadata};
use ark::permissions::{drop, reader, writer};
use ark::primitives::UrlParts;
use ark::sealing::{cmd_decrypt, decrypt, encrypt, finish_encrypted, new_file_with_key, DecryptArgs, Rewritten};
use ark::server::{directories_above, handle, removed, route, stored, Account, Action, Content, Disk, Node};
use ark::types::{Context, Identity, Key, LocalMetadata, Member, Metadata, Permission, Permissions, Signature};
use ark::upload::{put, put_content, put_permissions, put_stream_with, seal_body_with};
use sha2::Digest;

const NOW: u64 = 1_800_000_000;
const TIME: &str = "2026-01-02T03:04:05.678Z";

struct Item {
    body: Vec<u8>,
    attributes: Vec<(String, Vec<u8>)>,
    symlink: bool,
}

// A server with its files in memory.
struct World {
    accounts: Vec<Identity>,
    others: Vec<Identity>,
    files: BTreeMap<String, Item>,
    dirs: BTreeMap<String, Vec<(String, Vec<u8>)>>,
}

type Answer = (u16, Vec<u8>, Vec<(String, String)>);

fn seed(value: u8) -> Key {
    Key { algorithm: "ed25519".to_string(), value: vec![value; 32] }
}

fn header<'a>(headers: &'a [(String, String)], name: &str) -> Option<&'a str> {
    headers.iter().find(|(n, _)| n.eq_ignore_ascii_case(name)).map(|(_, v)| v.as_str())
}

impl World {
    fn new() -> World {
        World { accounts: Vec::new(), others: Vec::new(), files: BTreeMap::new(), dirs: BTreeMap::new() }
    }

    fn account(&mut self, address: &str, key: &Key) -> Identity {
        let account = create_account_with_key("/srv", address, key, false, false).unwrap();
        self.accounts.push(account.identity.clone());
        account.identity
    }

    fn write(&mut self, file: &str, body: &[u8], metadata: &Metadata) {
        let attributes = write_metadata_attributes(metadata);
        self.files.insert(file.to_string(), Item { body: body.to_vec(), attributes, symlink: false });
    }

    fn write_bare(&mut self, file: &str, body: &[u8]) {
        self.files.insert(file.to_string(), Item { body: body.to_vec(), attributes: Vec::new(), symlink: false });
    }

    fn dir(&mut self, path: &str) {
        self.dirs.insert(path.to_string(), Vec::new());
    }

    fn body(&self, file: &str) -> Vec<u8> {
        self.files.get(file).unwrap().body.clone()
    }

    fn node(&self, file: &str) -> Node {
        let path = file.trim_end_matches('/').to_string();
        if let Some(item) = self.files.get(&path) {
            return Node::File { size: item.body.len() as u64 };
        }
        let below = format!("{}/", path);
        let mut found = self.dirs.contains_key(&path);
        let mut entries: BTreeMap<String, DirectoryEntry> = BTreeMap::new();
        for dir in self.dirs.keys() {
            if let Some(rest) = dir.strip_prefix(&below) {
                let name = rest.split('/').next().unwrap().to_string();
                entries.insert(name.clone(), DirectoryEntry { kind: DirectoryEntryKind::Dir, name, size: 4096 });
                found = true;
            }
        }
        for (at, item) in &self.files {
            if let Some(rest) = at.strip_prefix(&below) {
                found = true;
                let name = rest.split('/').next().unwrap().to_string();
                let kind = if rest.contains('/') {
                    DirectoryEntryKind::Dir
                } else if item.symlink {
                    DirectoryEntryKind::Symlink
                } else {
                    DirectoryEntryKind::File
                };
                let size = if rest.contains('/') { 4096 } else { item.body.len() as u64 };
                entries.insert(name.clone(), DirectoryEntry { kind, name, size });
            }
        }
        for identity in &self.accounts {
            let name = parse_address(&identity.address).unwrap().0;
            if path == format!("ark/{}", name) {
                found = true;
            }
        }
        if found {
            Node::Dir { entries: Ok(entries.into_values().collect()) }
        } else {
            Node::Missing
        }
    }

    fn disk(&self, account: &str, file: &str) -> Disk {
        let mut owner = Account::Absent;
        for identity in &self.accounts {
            if parse_address(&identity.address).unwrap().0 == account {
                owner = Account::Present { identity: identity.clone() };
            }
        }
        let path = file.trim_end_matches('/');
        let item = self.files.get(path);
        let attributes = match (item, self.dirs.get(path)) {
            (Some(i), _) => i.attributes.clone(),
            (None, Some(list)) => list.clone(),
            (None, None) => Vec::new(),
        };
        Disk {
            account: owner,
            symlink: item.map(|i| i.symlink).unwrap_or(false),
            attributes: Ok(attributes),
            above: directories_above(path).iter().map(|d| Ok(self.dirs.get(d).cloned().unwrap_or_default())).collect(),
            node: self.node(file),
        }
    }

    fn find(&self, address: &str) -> Found {
        for identity in self.accounts.iter().chain(self.others.iter()) {
            if identity.address == address {
                return Found { address: address.to_string(), outcome: Ok(identity.clone()) };
            }
        }
        let error = fail_with(Fault::UnknownIdentity, address.to_string());
        Found { address: address.to_string(), outcome: Err(error) }
    }

    fn send(&mut self, bytes: &[u8]) -> Answer {
        let request = read_request(bytes, false).unwrap();
        let head = request.method == "HEAD";
        let out = self.answer(&request);
        let response = read_response(&out, head).unwrap();
        (response.status, response.body, response.headers)
    }

    fn answer(&mut self, request: &Request) -> Vec<u8> {
        let place = match route(&request.method, &request.target) {
            Ok(p) => p,
            Err(reply) => return reply.write(),
        };
        let disk = self.disk(&place.account, &place.file);
        let mut directory = Directory { entries: Vec::new() };
        loop {
            match handle(request, &place, &disk, &directory, NOW) {
                Action::Answer { bytes } => return bytes,
                Action::File { head, send } => {
                    let mut out = head;
                    if send {
                        out.extend_from_slice(&self.body(&place.file));
                    }
                    return out;
                }
                Action::Store { metadata, content, status } => {
                    let path = place.file.trim_end_matches('/').to_string();
                    match content {
                        Content::Body => self.write(&path, &request.body, &metadata),
                        Content::Dir => {
                            self.dirs.insert(path, write_metadata_attributes(&metadata));
                        }
                        Content::Kept => {
                            let attributes = write_metadata_attributes(&metadata);
                            match self.files.get_mut(&path) {
                                Some(item) => item.attributes = attributes,
                                None => {
                                    self.dirs.insert(path, attributes);
                                }
                            }
                        }
                    }
                    return stored(status);
                }
                Action::Remove { dir } => {
                    let below = format!("{}/", place.file);
                    self.files.retain(|at, _| at != &place.file && !(dir && at.starts_with(&below)));
                    self.dirs.retain(|at, _| at != &place.file && !(dir && at.starts_with(&below)));
                    return removed(true);
                }
                Action::Lookup { address } => directory.entries.push(self.find(&address)),
                Action::Fail { error } => panic!("{}", error.message()),
            }
        }
    }
}

const ADDRESS: &str = "gyan@127.0.0.1:8000";

struct Copy {
    body: Option<Vec<u8>>,
    attributes: Vec<(String, Vec<u8>)>,
}

// A client with its files in memory.
struct Client {
    ctx: Context,
    directory: Directory,
    files: BTreeMap<String, Copy>,
    ticks: u32,
}

impl Client {
    fn new(world: &mut World, address: &str, key: &Key) -> Client {
        let identity = world.account(address, key);
        Client {
            ctx: Context { root: "/home".to_string(), identity, identity_key: Some(key.clone()) },
            directory: Directory { entries: Vec::new() },
            files: BTreeMap::new(),
            ticks: 0,
        }
    }

    fn learn(&mut self, identity: &Identity) {
        self.directory.entries.push(Found { address: identity.address.clone(), outcome: Ok(identity.clone()) });
    }

    fn now(&mut self) -> String {
        self.ticks += 1;
        format!("2026-01-02T03:04:05.{:03}Z", self.ticks)
    }

    fn local(&self, path: &str) -> String {
        let rest = path.strip_prefix(self.ctx.identity.address.as_str()).unwrap_or(path);
        rest.trim_matches('/').to_string()
    }

    fn save(&mut self, path: &str, body: &[u8]) {
        let at = self.local(path);
        let attributes = self.files.get(&at).map(|c| c.attributes.clone()).unwrap_or_default();
        self.files.insert(at, Copy { body: Some(body.to_vec()), attributes });
    }

    fn make_dir(&mut self, path: &str) {
        self.files.insert(path.to_string(), Copy { body: None, attributes: Vec::new() });
    }

    fn set(&mut self, path: &str, metadata: &Metadata, local: &LocalMetadata) {
        let mut attributes = write_metadata_attributes(metadata);
        attributes.extend(write_local_metadata_attributes(local));
        let at = self.local(path);
        self.files.get_mut(&at).unwrap().attributes = attributes;
    }

    fn metadata(&self, path: &str) -> Metadata {
        read_metadata_attributes(&self.files.get(&self.local(path)).unwrap().attributes).unwrap()
    }

    fn marks(&self, path: &str) -> LocalMetadata {
        read_local_metadata_attributes(&self.files.get(&self.local(path)).unwrap().attributes).unwrap()
    }

    fn body(&self, path: &str) -> Vec<u8> {
        self.files.get(&self.local(path)).unwrap().body.clone().unwrap()
    }

    fn put(
        &mut self,
        world: &mut World,
        path: &str,
        permissions: &Permissions,
        algorithm: Option<&str>,
        metadata_only: bool,
    ) -> Result<(), Error> {
        let now = self.now();
        let at = self.local(path);
        let copy = self.files.get(&at).unwrap();
        let upload = put(
            &self.ctx,
            &self.directory,
            path,
            &copy.attributes,
            copy.body.as_deref(),
            permissions,
            algorithm,
            metadata_only,
            &now,
            NOW,
        )?;
        let (code, _, body) = swap(world.send(&upload.request));
        check_response_code(code, &body)?;
        self.set(path, &upload.metadata, &upload.local);
        Ok(())
    }

    fn put_plain(&mut self, world: &mut World, path: &str, body: &[u8]) {
        self.save(path, body);
        self.put(world, path, &Permissions::default(), Some("none"), false).unwrap();
    }

    fn put_encrypted(&mut self, world: &mut World, path: &str, body: &[u8]) {
        self.save(path, body);
        self.put(world, path, &Permissions::default(), None, false).unwrap();
    }

    fn ask(&self, world: &mut World, method: &str, path: &str) -> Response {
        let request = path_request(&self.ctx, method, path, NOW).unwrap();
        let (status, body, headers) = world.send(&request);
        Response { status, headers, body }
    }

    fn get(&mut self, world: &mut World, path: &str, decrypt: bool) -> Result<(), Error> {
        let at = self.local(path);
        let attributes = self.files.get(&at).map(|c| c.attributes.clone()).unwrap_or_default();
        let response = self.ask(world, "GET", path);
        let found = get(&self.ctx, &self.directory, path, &response, decrypt, &attributes)?;
        let body = if found.metadata.body_hash.is_none() { None } else { Some(found.body) };
        self.files.insert(at, Copy { body, attributes: Vec::new() });
        self.set(path, &found.metadata, &found.local);
        Ok(())
    }
}

fn swap(answer: Answer) -> (u16, Vec<(String, String)>, Vec<u8>) {
    (answer.0, answer.2, answer.1)
}

fn setup() -> (World, Client) {
    let mut world = World::new();
    let client = Client::new(&mut world, ADDRESS, &seed(1));
    (world, client)
}

fn plain_file(client: &Client, body: &[u8]) -> Metadata {
    let mut m = create_metadata(&client.ctx.identity.address, None, TIME);
    sign_metadata(client.ctx.identity_key.as_ref().unwrap(), &mut m, Some(body)).unwrap();
    m
}

// A file encrypted for the account with this identity.
fn encrypted_file(identity: &Identity, key: &Key, plaintext: &[u8]) -> (Metadata, Vec<u8>) {
    let file_key = create_secret_key(DEFAULT_ENCRYPTION_ALGORITHM).unwrap();
    let ciphertext = encrypt_bytes(&file_key, plaintext).unwrap().1;
    let mut m = create_metadata(&identity.address, Some(DEFAULT_ENCRYPTION_ALGORITHM), TIME);
    let (algorithm, value) = encrypt_bytes(&identity.public_key, &file_key.value).unwrap();
    m.members[0].key = Some(Key { algorithm, value });
    sign_metadata(key, &mut m, Some(&ciphertext)).unwrap();
    (m, ciphertext)
}

fn aes_decrypt(key: &[u8], ciphertext: &[u8]) -> Result<Vec<u8>, Error> {
    decrypt_bytes(&Key { algorithm: DEFAULT_ENCRYPTION_ALGORITHM.to_string(), value: key.to_vec() }, ciphertext)
}

fn unwrap_member_key(m: &Metadata, index: usize, secret: &Key) -> Vec<u8> {
    let key = m.members[index].key.as_ref().expect("key set");
    decrypt_bytes(&Key { algorithm: key.algorithm.clone(), value: secret.value.clone() }, &key.value).expect("unwrap")
}

fn server_metadata(world: &World, file: &str) -> Metadata {
    read_metadata_attributes(&world.files.get(file).unwrap().attributes).unwrap()
}

// Uploads.

#[test]
fn put_encrypts_body_and_stores_meta_xattr() {
    let (mut world, mut client) = setup();
    client.put_encrypted(&mut world, "notes.txt", b"plaintext");
    let on_disk = world.body("ark/gyan/notes.txt");
    assert_ne!(on_disk, b"plaintext");
    let m = server_metadata(&world, "ark/gyan/notes.txt");
    assert_eq!(m.encryption_algorithm.as_deref(), Some(DEFAULT_ENCRYPTION_ALGORITHM));
    let file_key = unwrap_member_key(&m, 0, &seed(1));
    assert_eq!(aes_decrypt(&file_key, &on_disk).unwrap(), b"plaintext");
}

#[test]
fn put_writes_metadata_back_to_input_file() {
    let (mut world, mut client) = setup();
    client.put_encrypted(&mut world, "out.bin", b"hello");
    let m = client.metadata("out.bin");
    assert_eq!(m.encryption_algorithm.as_deref(), Some(DEFAULT_ENCRYPTION_ALGORITHM));
    let _file_key = unwrap_member_key(&m, 0, &seed(1));
}

#[test]
fn put_rotates_filekey_over_existing_metadata() {
    let (mut world, mut client) = setup();
    client.save("notes.txt", b"hello");
    let mut preset_meta = create_metadata(ADDRESS, Some(DEFAULT_ENCRYPTION_ALGORITHM), TIME);
    let preset_file_key = create_secret_key(DEFAULT_ENCRYPTION_ALGORITHM).unwrap();
    apply_key_to_metadata(&client.ctx, &client.directory, &mut preset_meta, &preset_file_key).unwrap();
    sign_metadata(&seed(1), &mut preset_meta, Some(b"hello")).unwrap();
    client.set("notes.txt", &preset_meta, &LocalMetadata { encrypted: None, sync_hash: None, sync_modified: None });

    client.put(&mut world, "notes.txt", &Permissions::default(), None, false).unwrap();

    let server_key = unwrap_member_key(&server_metadata(&world, "ark/gyan/notes.txt"), 0, &seed(1));
    assert_ne!(server_key, preset_file_key.value);
    assert_eq!(aes_decrypt(&server_key, &world.body("ark/gyan/notes.txt")).unwrap(), b"hello");
}

#[test]
fn put_rotates_filekey_on_every_put() {
    let (mut world, mut client) = setup();
    client.put_encrypted(&mut world, "notes.txt", b"v1");
    let key1 = unwrap_member_key(&client.metadata("notes.txt"), 0, &seed(1));
    client.put_encrypted(&mut world, "notes.txt", b"v2");
    let key2 = unwrap_member_key(&client.metadata("notes.txt"), 0, &seed(1));
    assert_ne!(key1, key2);
    assert_eq!(aes_decrypt(&key2, &world.body("ark/gyan/notes.txt")).unwrap(), b"v2");
}

#[test]
fn put_creates_at_relative_path() {
    let (mut world, mut client) = setup();
    client.put_encrypted(&mut world, "notes.txt", b"hello");
    assert!(world.files.contains_key("ark/gyan/notes.txt"));
}

#[test]
fn put_overwrites_existing_file() {
    let (mut world, mut client) = setup();
    client.put_encrypted(&mut world, "x.txt", b"old");
    client.put_encrypted(&mut world, "x.txt", b"new plaintext");
    let on_disk = world.body("ark/gyan/x.txt");
    assert_ne!(on_disk, b"old");
    assert_ne!(on_disk, b"new plaintext");
}

#[test]
fn put_absolute_url_path() {
    let (mut world, mut client) = setup();
    client.put_encrypted(&mut world, "/sub/file.txt", b"absolute");
    assert!(world.files.contains_key("ark/gyan/sub/file.txt"));
}

#[test]
fn put_from_subdir_uses_relative_path() {
    let (mut world, mut client) = setup();
    let path = resolve_path(&client.ctx, "/home/notes", "todo.txt").unwrap();
    client.put_encrypted(&mut world, &path, b"buy milk");
    assert!(world.files.contains_key("ark/gyan/notes/todo.txt"));
}

#[test]
fn get_marks_what_is_written() {
    let (mut world, mut client) = setup();
    let plain = plain_file(&client, b"open");
    world.write("ark/gyan/plain.txt", b"open", &plain);
    let (m, ciphertext) = encrypted_file(&client.ctx.identity, &seed(1), b"hidden");
    world.write("ark/gyan/secret", &ciphertext, &m);
    let open_hash = Some(sha2::Sha256::digest(b"open").to_vec());
    for decrypt in [false, true] {
        client.get(&mut world, "plain.txt", decrypt).unwrap();
        assert_eq!(client.marks("plain.txt").encrypted, Some(false));
        assert_eq!(client.marks("plain.txt").sync_hash, open_hash);
        client.get(&mut world, "secret", decrypt).unwrap();
        assert_eq!(client.marks("secret").encrypted, Some(!decrypt));
        assert_eq!(client.marks("secret").sync_hash.is_some(), decrypt);
    }
}

#[test]
fn get_from_subdir_uses_relative_path() {
    let (mut world, mut client) = setup();
    let m = plain_file(&client, b"buy milk");
    world.write("ark/gyan/notes/todo.txt", b"buy milk", &m);
    let path = resolve_path(&client.ctx, "/home/notes", "todo.txt").unwrap();
    client.get(&mut world, &path, false).unwrap();
    assert_eq!(to_fs_path(&client.ctx, &path).unwrap(), "/home/notes/todo.txt");
    assert_eq!(client.body("notes/todo.txt"), b"buy milk");
}

#[test]
fn get_get_from_subdir_uses_relative_path() {
    let (mut world, client) = setup();
    let m = plain_file(&client, b"buy milk");
    world.write("ark/gyan/notes/todo.txt", b"buy milk", &m);
    let path = resolve_path(&client.ctx, "/home/notes", "todo.txt").unwrap();
    let response = client.ask(&mut world, "GET", &path);
    assert_eq!(cmd_get(&client.ctx, &client.directory, &response, false).unwrap().body, b"buy milk");
}

#[test]
fn put_takes_the_drawn_key() {
    let (_, mut client) = setup();
    let (bob, bob_key) = create_identity("bob@example.com", None).unwrap();
    client.learn(&bob);
    let (m, _) = encrypted_file(&client.ctx.identity, &seed(1), b"old");
    let old_key = unwrap_member_key(&m, 0, &seed(1));
    let upload = put_stream_with(
        &client.ctx,
        &client.directory,
        "notes.txt",
        Some(b"new"),
        &reader("bob@example.com"),
        None,
        Some(m),
        None,
        false,
        Ok(vec![42u8; 32]),
        TIME,
        NOW,
    )
    .unwrap();
    assert_ne!(old_key, vec![42u8; 32]);
    assert_eq!(unwrap_member_key(&upload.metadata, 0, &seed(1)), vec![42u8; 32]);
    assert_eq!(unwrap_member_key(&upload.metadata, 1, &bob_key), vec![42u8; 32]);
    assert_eq!(aes_decrypt(&[42u8; 32], &upload.body).unwrap(), b"new");
    assert!(aes_decrypt(&old_key, &upload.body).is_err());

    let failed = put_stream_with(
        &client.ctx,
        &client.directory,
        "notes.txt",
        Some(b"new"),
        &Permissions::default(),
        None,
        None,
        None,
        false,
        Err(fail_with(Fault::Random, "no luck".to_string())),
        TIME,
        NOW,
    );
    assert!(failed.unwrap_err().message().contains("no luck"));
}

#[test]
fn uploads_fail_for_their_own_reasons() {
    let (_, mut client) = setup();
    let upload = |client: &Client, algorithm: Option<&str>, who: &Permissions| {
        let drawn = Ok(vec![42u8; 32]);
        put_stream_with(
            &client.ctx,
            &client.directory,
            "notes.txt",
            Some(b"new"),
            who,
            algorithm,
            None,
            None,
            false,
            drawn,
            TIME,
            NOW,
        )
    };
    let nobody = Permissions::default();
    assert!(upload(&client, Some("none"), &nobody).is_ok());
    assert!(upload(&client, None, &nobody).is_ok());

    let err = upload(&client, None, &reader("unheard@of.com")).unwrap_err();
    assert!(err.message().contains("unheard@of.com"), "msg was {}", err.message());
    assert!(upload(&client, Some("none"), &reader("unheard@of.com")).is_ok());

    client.ctx.identity_key = Some(seed(2));
    assert!(upload(&client, Some("none"), &nobody).is_ok());
    assert!(upload(&client, None, &nobody).is_err());

    client.ctx.identity_key = Some(Key { algorithm: "ed25519".to_string(), value: vec![1u8; 31] });
    let err = upload(&client, Some("none"), &nobody).unwrap_err();
    assert_eq!(err.message(), "ed25519 requires a 32 byte private key");
    let err = cmd_put(&client.ctx, &client.directory, "in.txt", None, b"piped", true, TIME, NOW).unwrap_err();
    assert_eq!(err.message(), "ed25519 requires a 32 byte private key");
}

#[test]
fn bodies_are_sealed_with_the_given_key() {
    let (_, client) = setup();
    let mut m = create_metadata(ADDRESS, Some(DEFAULT_ENCRYPTION_ALGORITHM), TIME);
    let body = seal_body_with(&client.ctx, &client.directory, &mut m, &aes_key(7), b"text").unwrap();
    assert_eq!(unwrap_member_key(&m, 0, &seed(1)), vec![7u8; 32]);
    assert_eq!(aes_decrypt(&[7u8; 32], &body).unwrap(), b"text");
    let short = Key { algorithm: DEFAULT_ENCRYPTION_ALGORITHM.to_string(), value: vec![7u8; 31] };
    assert!(seal_body_with(&client.ctx, &client.directory, &mut m, &short, b"text").is_err());
}

#[test]
fn put_via_explicit_address_form() {
    let (mut world, mut client) = setup();
    client.put_encrypted(&mut world, "gyan@127.0.0.1:8000/explicit.txt", b"via address");
    assert!(world.files.contains_key("ark/gyan/explicit.txt"));
}

#[test]
fn put_sends_already_encrypted_body_unchanged() {
    let (mut world, mut client) = setup();
    let file_key = create_secret_key(DEFAULT_ENCRYPTION_ALGORITHM).unwrap();
    let ciphertext = encrypt_bytes(&file_key, b"hidden").unwrap().1;
    client.save("file.bin", &ciphertext);
    let mut m = create_metadata(ADDRESS, Some(DEFAULT_ENCRYPTION_ALGORITHM), TIME);
    apply_key_to_metadata(&client.ctx, &client.directory, &mut m, &file_key).unwrap();
    sign_metadata(&seed(1), &mut m, Some(&ciphertext)).unwrap();
    client.set("file.bin", &m, &LocalMetadata { encrypted: Some(true), sync_hash: None, sync_modified: None });

    client.put(&mut world, "file.bin", &Permissions::default(), None, false).unwrap();

    let server_body = world.body("ark/gyan/file.bin");
    assert_eq!(server_body, ciphertext, "server received raw input bytes");
    assert_eq!(client.marks("file.bin").encrypted, Some(true));
    let unwrapped = unwrap_member_key(&client.metadata("file.bin"), 0, &seed(1));
    assert_eq!(aes_decrypt(&unwrapped, &server_body).unwrap(), b"hidden");
}

#[test]
fn put_marks_input_encrypted_false_after_fresh_encrypt() {
    let (mut world, mut client) = setup();
    client.put_encrypted(&mut world, "out.bin", b"plain");
    assert_eq!(client.marks("out.bin").encrypted, Some(false));
}

#[test]
fn put_encryption_none_sends_raw_body() {
    let (mut world, mut client) = setup();
    client.save("raw.bin", b"plain bytes");
    let m = plain_file(&client, b"plain bytes");
    client.set("raw.bin", &m, &LocalMetadata { encrypted: None, sync_hash: None, sync_modified: None });
    client.put(&mut world, "raw.bin", &Permissions::default(), None, false).unwrap();
    assert_eq!(world.body("ark/gyan/raw.bin"), b"plain bytes");
    assert_eq!(server_metadata(&world, "ark/gyan/raw.bin").encryption_algorithm, None);
    assert!(client.metadata("raw.bin").members[0].key.is_none());
}

#[test]
fn put_dir_input_creates_dir_with_metadata() {
    let (mut world, mut client) = setup();
    client.make_dir("shared");
    client.put(&mut world, "shared", &Permissions::default(), None, false).unwrap();
    let meta = read_metadata_attributes(world.dirs.get("ark/gyan/shared").unwrap()).unwrap();
    assert_eq!(meta.modified_by, ADDRESS);
    assert_eq!(meta.encryption_algorithm, None);
    assert!(meta.members[0].key.is_none());
}

#[test]
fn put_dir_input_rejects_encryption_algorithm_no_body() {
    let (mut world, mut client) = setup();
    client.make_dir("shared");
    let err = client
        .put(&mut world, "shared", &Permissions::default(), Some(DEFAULT_ENCRYPTION_ALGORITHM), false)
        .unwrap_err();
    assert_eq!(err.kind(), Kind::InvalidInput);
}

#[test]
fn put_encryption_none_arg_sends_raw_body() {
    let (mut world, mut client) = setup();
    client.put_plain(&mut world, "raw.bin", b"plain bytes");
    assert_eq!(world.body("ark/gyan/raw.bin"), b"plain bytes");
    assert_eq!(server_metadata(&world, "ark/gyan/raw.bin").encryption_algorithm, None);
}

#[test]
fn put_dir_input_rejects_encryption_algorithm() {
    let (mut world, mut client) = setup();
    client.make_dir("shared");
    let err = client
        .put(&mut world, "shared", &Permissions::default(), Some(DEFAULT_ENCRYPTION_ALGORITHM), false)
        .unwrap_err();
    assert_eq!(err.kind(), Kind::InvalidInput);
    assert!(world.dirs.is_empty());
}

#[test]
fn put_missing_identity_errors() {
    let dirs = [("/home/gyan".to_string(), false), ("/home".to_string(), false), ("/".to_string(), false)];
    let err = find_root(&dirs).err().expect("expected error");
    assert!(err.message().contains("no .ark"), "msg was {}", err.message());
}

#[test]
fn put_metadata_only_adds_reader() {
    let (mut world, mut client) = setup();
    client.put_plain(&mut world, "notes.txt", b"hello");
    client.put(&mut world, "notes.txt", &reader("john@example.com"), None, true).unwrap();
    let m = client.metadata("notes.txt");
    let john = m.members.iter().find(|m| m.address == "john@example.com").unwrap();
    assert_eq!(john.permission, Permission::Reader);
    assert!(m.members.iter().any(|m| m.address == ADDRESS && m.permission == Permission::Owner));
    assert_eq!(server_metadata(&world, "ark/gyan/notes.txt"), m);
    assert_eq!(world.body("ark/gyan/notes.txt"), b"hello");
}

#[test]
fn put_metadata_only_adds_public_reader_when_unencrypted() {
    let (mut world, mut client) = setup();
    client.put_plain(&mut world, "public.txt", b"open");
    client.put(&mut world, "public.txt", &reader("public"), None, true).unwrap();
    let m = client.metadata("public.txt");
    let pub_member = m.members.iter().find(|m| m.address == "*").unwrap();
    assert_eq!(pub_member.permission, Permission::Reader);
    assert!(pub_member.key.is_none());
}

#[test]
fn put_metadata_only_rejects_public_on_encrypted_file() {
    let (mut world, mut client) = setup();
    client.put_encrypted(&mut world, "enc.bin", b"plaintext");
    let err = client.put(&mut world, "enc.bin", &reader("public"), None, true).unwrap_err();
    assert!(err.message().contains("public member to encrypted"), "msg was {}", err.message());
}

#[test]
fn put_metadata_only_wraps_key_for_new_member_on_encrypted_file() {
    let (mut world, mut client) = setup();
    let (bob_identity, bob_secret_key) = create_identity("bob@example.com", None).unwrap();
    client.learn(&bob_identity);
    client.put_encrypted(&mut world, "enc.bin", b"plaintext");
    let file_key = unwrap_member_key(&client.metadata("enc.bin"), 0, &seed(1));

    client.put(&mut world, "enc.bin", &reader("bob@example.com"), None, true).unwrap();

    let m = client.metadata("enc.bin");
    let bob = m.members.iter().position(|m| m.address == "bob@example.com").unwrap();
    assert_eq!(m.members[bob].permission, Permission::Reader);
    let recovered = unwrap_member_key(&m, bob, &bob_secret_key);
    assert_eq!(recovered, file_key, "bob unwraps to same file key");
}

#[test]
fn put_metadata_only_upgrades_existing_member_permission() {
    let (mut world, mut client) = setup();
    client.save("doc.txt", b"body");
    client.put(&mut world, "doc.txt", &reader("sam@example.com"), Some("none"), false).unwrap();
    client.put(&mut world, "doc.txt", &writer("sam@example.com"), None, true).unwrap();
    let m = client.metadata("doc.txt");
    let sam = m.members.iter().find(|m| m.address == "sam@example.com").unwrap();
    assert_eq!(sam.permission, Permission::Writer);
}

#[test]
fn put_metadata_only_drops_member() {
    let (mut world, mut client) = setup();
    client.save("doc.txt", b"body");
    client.put(&mut world, "doc.txt", &reader("sam@example.com"), Some("none"), false).unwrap();
    client.put(&mut world, "doc.txt", &drop("sam@example.com"), None, true).unwrap();
    assert!(!client.metadata("doc.txt").members.iter().any(|m| m.address == "sam@example.com"));
}

#[test]
fn put_metadata_only_rejects_dropping_last_owner() {
    let (mut world, mut client) = setup();
    client.put_plain(&mut world, "doc.txt", b"body");
    let err = client.put(&mut world, "doc.txt", &drop(ADDRESS), None, true).unwrap_err();
    assert!(err.message().contains("at least one owner"), "msg was {}", err.message());
}

#[test]
fn put_permissions_ark_absolute_path_resolves_local_input() {
    let (mut world, mut client) = setup();
    client.put_plain(&mut world, "notes.txt", b"hello");
    let attributes = client.files.get("notes.txt").unwrap().attributes.clone();
    let upload = put_permissions(
        &client.ctx,
        &client.directory,
        "/notes.txt",
        &attributes,
        &reader("john@example.com"),
        "2026-01-03T00:00:00.000Z",
        NOW,
    )
    .unwrap();
    assert_eq!(world.send(&upload.request).0, 204);
    assert!(upload.metadata.members.iter().any(|m| m.address == "john@example.com"));
}

#[test]
fn put_metadata_only_preserves_body_hash_signature() {
    let (mut world, mut client) = setup();
    client.put_plain(&mut world, "doc.txt", b"body");
    client.put(&mut world, "doc.txt", &reader("john@example.com"), None, true).unwrap();
    let m = client.metadata("doc.txt");
    verify_metadata(&client.ctx.identity.public_key, &m, Some(&client.body("doc.txt"))).unwrap();
}

#[test]
fn put_metadata_only_needs_metadata_and_no_algorithm() {
    let (mut world, mut client) = setup();
    client.save("fresh.txt", b"x");
    let err = client.put(&mut world, "fresh.txt", &reader("a@x"), None, true).unwrap_err();
    assert_eq!(err.fault, Fault::MetadataOnly);
    let err = client.put(&mut world, "fresh.txt", &reader("a@x"), Some("aes-256-gcm"), true).unwrap_err();
    assert_eq!(err.fault, Fault::AlgorithmForMetadata);
}

#[test]
fn put_by_who_is_no_member_is_refused() {
    let (mut world, mut client) = setup();
    client.save("theirs.txt", b"x");
    let mut m = create_metadata("other@example.com", None, TIME);
    sign_metadata(&seed(9), &mut m, Some(b"x")).unwrap();
    client.set("theirs.txt", &m, &LocalMetadata { encrypted: None, sync_hash: None, sync_modified: None });
    let err = client.put(&mut world, "theirs.txt", &Permissions::default(), None, false).unwrap_err();
    assert_eq!(err.kind(), Kind::PermissionDenied);
}

#[test]
fn put_content_and_get_content_round_trip() {
    let (mut world, mut client) = setup();
    let upload =
        put_content(&client.ctx, &client.directory, "note.txt", &[], Some(b"hello"), TIME, NOW).unwrap();
    assert_eq!(world.send(&upload.request).0, 201);
    let response = client.ask(&mut world, "GET", "note.txt");
    let found = get_content(&client.ctx, &client.directory, "note.txt", &response, &[]).unwrap();
    assert_eq!(found.body, b"hello");
    assert_eq!(found.metadata, upload.metadata);
    client.save("note.txt", b"hello");
}

#[test]
fn members_read_what_was_uploaded() {
    let (mut world, mut client) = setup();
    let alice = Client::new(&mut world, "alice@127.0.0.1:8000", &seed(7));
    client.learn(&alice.ctx.identity);
    client.save("secret.txt", b"for two");
    client.put(&mut world, "secret.txt", &reader("alice@127.0.0.1:8000"), None, false).unwrap();
    assert_ne!(world.body("ark/gyan/secret.txt"), b"for two");

    let mut reading = alice;
    let owner = client.ctx.identity.clone();
    reading.learn(&owner);
    let address = format!("{}/secret.txt", ADDRESS);
    let response = reading.ask(&mut world, "GET", &address);
    let found = get_content(&reading.ctx, &reading.directory, &address, &response, &[]).unwrap();
    assert_eq!(found.body, b"for two");
    assert_eq!(found.metadata, client.metadata("secret.txt"));
}

// Downloads.

#[test]
fn get_writes_body_to_account_tree() {
    let (mut world, mut client) = setup();
    world.write("ark/gyan/hello.txt", b"hi from server", &plain_file(&client, b"hi from server"));
    client.get(&mut world, "hello.txt", false).unwrap();
    assert_eq!(client.body("hello.txt"), b"hi from server");
}

fn server_dir(world: &mut World, client: &Client) -> Metadata {
    let mut m = create_metadata(ADDRESS, None, TIME);
    sign_metadata(client.ctx.identity_key.as_ref().unwrap(), &mut m, None).unwrap();
    world.dirs.insert("ark/gyan/shared".to_string(), write_metadata_attributes(&m));
    m
}

#[test]
fn get_dir_returns_metadata_without_body_hash_error() {
    let (mut world, client) = setup();
    server_dir(&mut world, &client);
    let response = client.ask(&mut world, "GET", "shared");
    let found = get_stream(&client.ctx, &client.directory, "shared", &response, false, None).unwrap();
    assert!(found.metadata.body_hash.is_none(), "dir metadata should have no body_hash");
    assert!(!found.body.is_empty(), "dir listing body should be returned");
}

#[test]
fn get_dir_creates_local_dir_with_metadata() {
    let (mut world, mut client) = setup();
    let m = server_dir(&mut world, &client);
    client.get(&mut world, "shared", false).unwrap();
    assert!(client.files.get("shared").unwrap().body.is_none(), "get should create the dir locally");
    assert_eq!(client.metadata("shared").id, m.id);
    let local = client.marks("shared");
    assert_eq!(local.sync_modified, Some(m.modified));
    assert!(local.sync_hash.is_none(), "a dir holds no body to hash");
}

#[test]
fn get_get_absolute_url_path() {
    let (mut world, mut client) = setup();
    world.write("ark/gyan/sub/file.txt", b"absolute", &plain_file(&client, b"absolute"));
    client.get(&mut world, "/sub/file.txt", false).unwrap();
    assert_eq!(client.body("sub/file.txt"), b"absolute");
}

#[test]
fn get_get_via_explicit_address_form() {
    let (mut world, mut client) = setup();
    world.write("ark/gyan/explicit.txt", b"via address", &plain_file(&client, b"via address"));
    client.get(&mut world, "gyan@127.0.0.1:8000/explicit.txt", false).unwrap();
    assert_eq!(client.body("explicit.txt"), b"via address");
}

#[test]
fn get_get_writes_metadata_xattrs_from_response_headers() {
    let (mut world, mut client) = setup();
    let (m, ciphertext) = encrypted_file(&client.ctx.identity, &seed(1), b"plaintext");
    world.write("ark/gyan/secret", &ciphertext, &m);
    client.get(&mut world, "secret", false).unwrap();
    assert_eq!(client.body("secret"), ciphertext);
    let found = client.metadata("secret");
    assert_eq!(found.encryption_algorithm.as_deref(), Some(DEFAULT_ENCRYPTION_ALGORITHM));
    assert_eq!(found.members[0].key.as_ref().unwrap().value, m.members[0].key.as_ref().unwrap().value);
}

#[test]
fn get_get_with_decrypt_returns_plaintext() {
    let (mut world, mut client) = setup();
    let (m, ciphertext) = encrypted_file(&client.ctx.identity, &seed(1), b"clear text");
    world.write("ark/gyan/secret", &ciphertext, &m);
    client.get(&mut world, "secret", true).unwrap();
    assert_eq!(client.body("secret"), b"clear text");
    assert_eq!(client.marks("secret").encrypted, Some(false));
}

#[test]
fn get_get_with_decrypt_errors_when_no_key_in_response() {
    let (mut world, mut client) = setup();
    let (other_identity, other_key) = create_identity("other@example.com", None).unwrap();
    let (m, ciphertext) = encrypted_file(&other_identity, &other_key, b"raw");
    world.write("ark/gyan/secret", &ciphertext, &m);
    client.learn(&other_identity);
    let err = client.get(&mut world, "secret", true).unwrap_err();
    assert!(err.message().contains("no member entry"), "msg was {}", err.message());
}

#[test]
fn get_stream_writes_body_without_touching_account_tree() {
    let (mut world, client) = setup();
    world.write("ark/gyan/piped.txt", b"to stdout", &plain_file(&client, b"to stdout"));
    let response = client.ask(&mut world, "GET", "piped.txt");
    let found = get_stream(&client.ctx, &client.directory, "piped.txt", &response, false, None).unwrap();
    assert_eq!(found.body, b"to stdout");
    assert!(client.files.is_empty());
}

#[test]
fn get_rejects_a_rollback_of_the_account_copy() {
    let (mut world, mut client) = setup();
    client.put_plain(&mut world, "notes.txt", b"current");
    let mut rolled_back = server_metadata(&world, "ark/gyan/notes.txt");
    rolled_back.modified = "2026-01-02T02:04:05.001Z".to_string();
    sign_metadata(&seed(1), &mut rolled_back, Some(b"old")).unwrap();
    world.write("ark/gyan/notes.txt", b"old", &rolled_back);
    let err = client.get(&mut world, "notes.txt", false).unwrap_err();
    assert!(err.message().contains("modified is older than existing"), "msg was {}", err.message());
    assert_eq!(client.body("notes.txt"), b"current");
}

#[test]
fn get_rejects_an_unrelated_file_at_the_path_of_the_account_copy() {
    let (mut world, mut client) = setup();
    client.put_plain(&mut world, "notes.txt", b"current");
    world.write("ark/gyan/notes.txt", b"substitute", &plain_file(&client, b"substitute"));
    let err = client.get(&mut world, "notes.txt", false).unwrap_err();
    assert!(err.message().contains("id is wrong"), "msg was {}", err.message());
    assert_eq!(client.body("notes.txt"), b"current");
}

#[test]
fn get_get_missing_identity_errors() {
    let dirs = [("/tmp/x".to_string(), false), ("/tmp".to_string(), false)];
    let err = find_root(&dirs).err().expect("expected error");
    assert!(err.message().contains("no .ark"), "msg was {}", err.message());
    let dirs = [("/tmp/x".to_string(), false), ("/tmp".to_string(), true), ("/".to_string(), true)];
    assert_eq!(find_root(&dirs).unwrap(), "/tmp");
}

#[test]
fn get_of_what_others_signed_needs_their_identity() {
    let (mut world, mut client) = setup();
    let (other_identity, other_key) = create_identity("other@example.com", None).unwrap();
    let mut m = create_metadata(&other_identity.address, None, TIME);
    sign_metadata(&other_key, &mut m, Some(b"x")).unwrap();
    world.write("ark/gyan/theirs", b"x", &m);
    let err = client.get(&mut world, "theirs", false).unwrap_err();
    assert!(err.message().starts_with("modifier other@example.com: "), "msg was {}", err.message());
    assert_eq!(err.kind(), Kind::Other);
    client.learn(&other_identity);
    client.directory.entries.remove(0);
    client.learn(&other_identity);
    client.get(&mut world, "theirs", false).unwrap();
}

#[test]
fn get_without_metadata_headers_is_not_found() {
    let (_, client) = setup();
    let response = Response { status: 200, headers: Vec::new(), body: b"x".to_vec() };
    let err = get_stream(&client.ctx, &client.directory, "x", &response, false, None).unwrap_err();
    assert_eq!(err.message(), "no metadata: x");
    assert_eq!(err.kind(), Kind::NotFound);
}

// Headers only.

#[test]
fn head_head_returns_headers_without_body() {
    let (mut world, client) = setup();
    world.write("ark/gyan/file.bin", b"hello world", &plain_file(&client, b"hello world"));
    let response = client.ask(&mut world, "HEAD", "file.bin");
    assert_eq!(response.status, 200);
    assert!(response.body.is_empty());
    assert_eq!(header(&response.headers, "content-length"), Some("11"));
}

#[test]
fn head_head_returns_metadata_headers() {
    let (mut world, client) = setup();
    let (m, ciphertext) = encrypted_file(&client.ctx.identity, &seed(1), b"plaintext");
    world.write("ark/gyan/secret", &ciphertext, &m);
    let expected_key_b64 = encode_base64url(&m.members[0].key.as_ref().unwrap().value);
    let response = client.ask(&mut world, "HEAD", "secret");
    assert_eq!(response.status, 200);
    assert!(response.body.is_empty());
    assert_eq!(header(&response.headers, "x-ark-meta-encryption-algorithm"), Some(DEFAULT_ENCRYPTION_ALGORITHM));
    assert_eq!(header(&response.headers, "x-ark-meta-member-0-permission"), Some("owner"));
    assert_eq!(header(&response.headers, "x-ark-meta-member-0-key-value"), Some(expected_key_b64.as_str()));
}

#[test]
fn head_io_succeeds_against_real_server() {
    let (mut world, client) = setup();
    let m = plain_file(&client, b"abc");
    world.write("ark/gyan/x", b"abc", &m);
    let response = client.ask(&mut world, "HEAD", "x");
    let (_, found) = head(&client.ctx, &client.directory, &response).unwrap();
    assert_eq!(found, m);
    let printed = head_io(&client.ctx, &client.directory, &response).unwrap();
    assert!(printed.contains("Content-Length: 3\n"), "printed {}", printed);
    assert_eq!(printed.lines().count(), response.headers.len());
}

#[test]
fn head_io_missing_file_errors() {
    let (mut world, client) = setup();
    let response = client.ask(&mut world, "HEAD", "nope");
    let err = head_io(&client.ctx, &client.directory, &response).unwrap_err();
    assert!(err.message().contains("HTTP 404"), "msg was {}", err.message());
}

// Deletion and listings.

#[test]
fn delete_removes_file() {
    let (mut world, client) = setup();
    world.write("ark/gyan/x.txt", b"bye", &plain_file(&client, b"bye"));
    delete(&client.ask(&mut world, "DELETE", "x.txt")).unwrap();
    assert!(world.files.is_empty());
}

#[test]
fn delete_removes_directory_recursively() {
    let (mut world, client) = setup();
    world.dir("ark/gyan/sub");
    world.write_bare("ark/gyan/sub/inner", b"data");
    delete(&client.ask(&mut world, "DELETE", "sub")).unwrap();
    assert!(world.dirs.is_empty());
    assert!(world.files.is_empty());
}

#[test]
fn delete_missing_file_errors() {
    let (mut world, client) = setup();
    let err = delete(&client.ask(&mut world, "DELETE", "nope")).unwrap_err();
    assert!(err.message().contains("HTTP 404"), "msg was {}", err.message());
}

#[test]
fn delete_via_address_form() {
    let (mut world, client) = setup();
    world.write("ark/gyan/explicit.txt", b"gone", &plain_file(&client, b"gone"));
    delete(&client.ask(&mut world, "DELETE", "gyan@127.0.0.1:8000/explicit.txt")).unwrap();
    assert!(world.files.is_empty());
}

#[test]
fn cmd_delete_missing_file_errors() {
    let (mut world, client) = setup();
    let err = cmd_delete(&client.ask(&mut world, "DELETE", "nope")).unwrap_err();
    assert!(err.message().contains("404"), "msg was {}", err.message());
}

#[test]
fn cmd_delete_removes_file() {
    let (mut world, client) = setup();
    world.write("ark/gyan/x.txt", b"bye", &plain_file(&client, b"bye"));
    cmd_delete(&client.ask(&mut world, "DELETE", "x.txt")).unwrap();
    assert!(world.files.is_empty());
}

#[test]
fn cmd_delete_removes_directory_recursively() {
    let (mut world, client) = setup();
    world.write_bare("ark/gyan/sub/inner", b"data");
    cmd_delete(&client.ask(&mut world, "DELETE", "sub")).unwrap();
    assert!(world.files.is_empty());
}

#[test]
fn cmd_delete_via_address_form() {
    let (mut world, client) = setup();
    world.write("ark/gyan/explicit.txt", b"gone", &plain_file(&client, b"gone"));
    let arg = format!("{}/explicit.txt", ADDRESS);
    cmd_delete(&client.ask(&mut world, "DELETE", &arg)).unwrap();
    assert!(world.files.is_empty());
}

fn list_names(world: &mut World, client: &Client, path: &str, prefix: Option<&str>) -> Vec<(String, String)> {
    let request = list_request(&client.ctx, path, prefix, NOW).unwrap();
    let (status, body, headers) = world.send(&request);
    match list(&Response { status, headers, body }).unwrap() {
        None => Vec::new(),
        Some(bytes) => {
            let value: serde_json::Value = serde_json::from_slice(&bytes).unwrap();
            let entries = value.as_array().unwrap();
            entries
                .iter()
                .map(|e| {
                    (
                        e.get("name").unwrap().as_str().unwrap().to_string(),
                        e.get("kind").unwrap().as_str().unwrap().to_string(),
                    )
                })
                .collect()
        }
    }
}

#[test]
fn list_returns_dir_entries() {
    let (mut world, client) = setup();
    world.write("ark/gyan/notes/a.txt", b"a", &plain_file(&client, b"a"));
    world.write("ark/gyan/notes/b.txt", b"b", &plain_file(&client, b"b"));
    let names = list_names(&mut world, &client, "notes", None);
    assert_eq!(names.len(), 2);
    assert!(names.contains(&("a.txt".to_string(), "file".to_string())));
    assert!(names.contains(&("b.txt".to_string(), "file".to_string())));
}

#[test]
fn list_prefix_filters_server_side() {
    let (mut world, client) = setup();
    for name in ["PUT_403_a.http", "PUT_201_b.http", "PUT_403_c.http"] {
        world.write(&format!("ark/gyan/mixed/{}", name), b"a", &plain_file(&client, b"a"));
    }
    let names = list_names(&mut world, &client, "mixed", Some("PUT_403_"));
    assert_eq!(names.len(), 2);
    assert!(names.iter().any(|n| n.0 == "PUT_403_a.http"));
    assert!(names.iter().any(|n| n.0 == "PUT_403_c.http"));
}

#[test]
fn list_missing_dir_is_empty() {
    let (mut world, client) = setup();
    assert!(list_names(&mut world, &client, "nope", None).is_empty());
}

#[test]
fn list_reports_other_statuses() {
    let err = list(&Response { status: 403, headers: Vec::new(), body: b"no".to_vec() }).unwrap_err();
    assert_eq!(err.message(), "HTTP 403: no");
}

// Permissions of local files.

fn tracked_attributes(metadata: &Metadata) -> Vec<(String, Vec<u8>)> {
    write_metadata_attributes(metadata)
}

fn change(client: &Client, m: &Metadata, permissions: &Permissions) -> Result<Metadata, Error> {
    chmod(
        &client.ctx,
        &client.directory,
        true,
        &tracked_attributes(m),
        permissions,
        "2026-01-03T00:00:00.000Z",
    )
}

#[test]
fn chmod_adds_reader_to_local_file() {
    let (_, client) = setup();
    let m = change(&client, &plain_file(&client, b"hello"), &reader("john@example.com")).unwrap();
    let john = m.members.iter().find(|m| m.address == "john@example.com").unwrap();
    assert_eq!(john.permission, Permission::Reader);
    assert!(m.members.iter().any(|m| m.address == ADDRESS && m.permission == Permission::Owner));
}

#[test]
fn chmod_adds_public_reader_when_unencrypted() {
    let (_, client) = setup();
    let m = change(&client, &plain_file(&client, b"open"), &reader("public")).unwrap();
    let pub_member = m.members.iter().find(|m| m.address == "*").unwrap();
    assert_eq!(pub_member.permission, Permission::Reader);
    assert!(pub_member.key.is_none());
}

#[test]
fn chmod_rejects_public_on_encrypted_file() {
    let (_, client) = setup();
    let (m, _) = encrypted_file(&client.ctx.identity, &seed(1), b"plaintext");
    let err = change(&client, &m, &reader("public")).unwrap_err();
    assert!(err.message().contains("public member to encrypted"), "msg was {}", err.message());
}

#[test]
fn adds_reader_to_encrypted_file() {
    let (_, mut client) = setup();
    let (bob_identity, bob_secret_key) = create_identity("bob@example.com", None).unwrap();
    client.learn(&bob_identity);
    let (m, _) = encrypted_file(&client.ctx.identity, &seed(1), b"plaintext");
    let file_key = unwrap_member_key(&m, 0, &seed(1));
    let m = change(&client, &m, &reader("bob@example.com")).unwrap();
    let bob = m.members.iter().position(|m| m.address == "bob@example.com").unwrap();
    assert_eq!(m.members[bob].permission, Permission::Reader);
    assert_eq!(unwrap_member_key(&m, bob, &bob_secret_key), file_key, "bob unwraps to same file key");
}

#[test]
fn adds_member_to_encrypted_file_without_wrapped_key() {
    let (_, mut client) = setup();
    let (bob_identity, _) = create_identity("bob@example.com", None).unwrap();
    client.learn(&bob_identity);
    let mut m = create_metadata(ADDRESS, Some(DEFAULT_ENCRYPTION_ALGORITHM), TIME);
    sign_metadata(&seed(1), &mut m, Some(b"body")).unwrap();
    let m2 = change(&client, &m, &reader("bob@example.com")).unwrap();
    let bob = m2.members.iter().find(|m| m.address == "bob@example.com").unwrap();
    assert_eq!(bob.permission, Permission::Reader);
    assert!(bob.key.is_none(), "key wrapping deferred to first put");
    let owner = m2.members.iter().find(|m| m.address == ADDRESS).unwrap();
    assert!(owner.key.is_none(), "owner key still unwrapped");
}

fn with_member(address: &str, permission: Permission) -> Metadata {
    let mut m = create_metadata(ADDRESS, None, TIME);
    m.members.push(Member { address: address.to_string(), permission, key: None });
    sign_metadata(&seed(1), &mut m, Some(b"body")).unwrap();
    m
}

#[test]
fn chmod_upgrades_existing_member_permission() {
    let (_, client) = setup();
    let m = change(&client, &with_member("sam@example.com", Permission::Reader), &writer("sam@example.com")).unwrap();
    let sam = m.members.iter().find(|m| m.address == "sam@example.com").unwrap();
    assert_eq!(sam.permission, Permission::Writer);
}

#[test]
fn chmod_drops_member() {
    let (_, client) = setup();
    let m = change(&client, &with_member("sam@example.com", Permission::Reader), &drop("sam@example.com")).unwrap();
    assert!(!m.members.iter().any(|m| m.address == "sam@example.com"));
}

#[test]
fn chmod_rejects_dropping_last_owner() {
    let (_, client) = setup();
    let err = change(&client, &plain_file(&client, b"body"), &drop(ADDRESS)).unwrap_err();
    assert!(err.message().contains("at least one owner"), "msg was {}", err.message());
}

#[test]
fn chmod_rejects_non_owner_caller() {
    let (_, client) = setup();
    let mut m = create_metadata(ADDRESS, None, TIME);
    m.members[0].permission = Permission::Writer;
    m.members.push(Member { address: "boss@example.com".to_string(), permission: Permission::Owner, key: None });
    sign_metadata(&seed(1), &mut m, Some(b"body")).unwrap();
    let err = change(&client, &m, &reader("john@example.com")).unwrap_err();
    assert!(err.message().contains("only an owner"), "msg was {}", err.message());
}

#[test]
fn chmod_missing_input_errors() {
    let (_, client) = setup();
    let err = chmod(&client.ctx, &client.directory, false, &[], &reader("john@example.com"), TIME).unwrap_err();
    assert_eq!(err.kind(), Kind::InvalidInput);
    assert!(err.message().contains("input does not exist"));
}

#[test]
fn chmod_untracked_file_errors() {
    let (_, client) = setup();
    let err = chmod(&client.ctx, &client.directory, true, &[], &Permissions::default(), TIME).unwrap_err();
    assert_eq!(err.kind(), Kind::InvalidInput);
    assert!(err.message().contains("no ark metadata"), "msg was {}", err.message());
}

#[test]
fn chmod_re_signs_metadata_so_body_hash_matches() {
    let (_, client) = setup();
    let m = change(&client, &plain_file(&client, b"body"), &reader("john@example.com")).unwrap();
    verify_metadata(&client.ctx.identity.public_key, &m, Some(b"body")).unwrap();
}

// Tracking.

#[test]
fn tracks_file_with_default_encryption() {
    let (_, client) = setup();
    let (m, local) = cmd_track(&client.ctx, true, &[], Some(b"hello"), None, TIME).unwrap();
    assert_eq!(m.modified_by, ADDRESS);
    assert_eq!(m.encryption_algorithm.as_deref(), Some(DEFAULT_ENCRYPTION_ALGORITHM));
    assert!(m.members[0].key.is_none(), "key deferred to first put");
    assert!(m.body_hash.is_some(), "body hash signed");
    let local = local.unwrap();
    assert_eq!(local.encrypted, Some(false));
    let hash = sha2::Sha256::digest(b"hello").to_vec();
    assert_eq!(local.sync_hash, Some(hash));
}

#[test]
fn tracks_file_with_encryption_none() {
    let (_, client) = setup();
    let (m, _) = cmd_track(&client.ctx, true, &[], Some(b"raw"), Some("none"), TIME).unwrap();
    assert_eq!(m.encryption_algorithm, None);
    assert!(m.members[0].key.is_none());
}

#[test]
fn tracks_dir_without_encryption() {
    let (_, client) = setup();
    let (m, _) = cmd_track(&client.ctx, true, &[], None, None, TIME).unwrap();
    assert_eq!(m.modified_by, ADDRESS);
    assert_eq!(m.encryption_algorithm, None);
    assert!(m.members[0].key.is_none());
    assert!(m.body_hash.is_none());
    assert_eq!(m.members[0].permission, Permission::Owner);
}

#[test]
fn rejects_dir_with_encryption_algorithm() {
    let (_, client) = setup();
    let err = cmd_track(&client.ctx, true, &[], None, Some(DEFAULT_ENCRYPTION_ALGORITHM), TIME).unwrap_err();
    assert_eq!(err.kind(), Kind::InvalidInput);
}

#[test]
fn rejects_missing_path() {
    let (_, client) = setup();
    let err = cmd_track(&client.ctx, false, &[], None, None, TIME).unwrap_err();
    assert_eq!(err.kind(), Kind::InvalidInput);
}

#[test]
fn rejects_already_tracked() {
    let (_, client) = setup();
    let (m, _) = cmd_track(&client.ctx, true, &[], Some(b"hello"), None, TIME).unwrap();
    let err =
        cmd_track(&client.ctx, true, &write_metadata_attributes(&m), Some(b"hello"), None, TIME).unwrap_err();
    assert!(err.message().contains("already exists"), "msg was {}", err.message());
}

// Encrypting and decrypting local files.

fn rewritten(r: &Rewritten) -> Vec<(String, Vec<u8>)> {
    let mut attributes = write_metadata_attributes(&r.metadata);
    attributes.extend(write_local_metadata_attributes(&r.local));
    attributes
}

fn decrypted_file(client: &Client, plaintext: &[u8]) -> (Rewritten, Metadata) {
    let (m, ciphertext) = encrypted_file(&client.ctx.identity, &seed(1), plaintext);
    let opened = decrypt(&client.ctx, &write_metadata_attributes(&m), &ciphertext).unwrap();
    (opened, m)
}

#[test]
fn encrypt_replaces_body_and_marks_encrypted() {
    let (_, client) = setup();
    let (opened, _) = decrypted_file(&client, b"data");
    let sealed = encrypt(&client.ctx, &client.directory, &rewritten(&opened), &opened.body, None, TIME).unwrap();
    assert_ne!(sealed.body, b"data");
    assert_eq!(sealed.local.encrypted, Some(true));
    assert_eq!(sealed.metadata.encryption_algorithm.as_deref(), Some(DEFAULT_ENCRYPTION_ALGORITHM));
    let file_key = unwrap_member_key(&sealed.metadata, 0, &seed(1));
    assert_eq!(aes_decrypt(&file_key, &sealed.body).unwrap(), b"data");
}

// The account's own copy of a path.
fn copy_at<'a>(client: &'a Client, path: &str) -> &'a Copy {
    client.files.get(&to_fs_path(&client.ctx, path).unwrap()).unwrap()
}

// An account with an encrypted file in a directory.
fn with_encrypted_notes() -> (Client, String) {
    let (_, mut client) = setup();
    let (m, ciphertext) = encrypted_file(&client.ctx.identity, &seed(1), b"data");
    let at = "/home/notes/file.bin".to_string();
    client.files.insert(at.clone(), Copy { body: Some(ciphertext), attributes: write_metadata_attributes(&m) });
    (client, at)
}

#[test]
fn decrypt_ark_absolute_path_resolves_under_account_root() {
    let (client, _) = with_encrypted_notes();
    let copy = copy_at(&client, "/notes/file.bin");
    let opened = decrypt(&client.ctx, &copy.attributes, copy.body.as_ref().unwrap()).unwrap();
    assert_eq!(opened.body, b"data");
}

#[test]
fn encrypt_ark_absolute_path_resolves_under_account_root() {
    let (mut client, at) = with_encrypted_notes();
    let copy = copy_at(&client, "/notes/file.bin");
    let opened = decrypt(&client.ctx, &copy.attributes, copy.body.as_ref().unwrap()).unwrap();
    client.files.insert(at, Copy { attributes: rewritten(&opened), body: Some(opened.body) });
    let copy = copy_at(&client, "/notes/file.bin");
    let plaintext = copy.body.as_ref().unwrap();
    let sealed = encrypt(&client.ctx, &client.directory, &copy.attributes, plaintext, None, TIME).unwrap();
    assert_ne!(sealed.body, b"data");
}

#[test]
fn encrypt_generates_file_key_when_no_metadata() {
    let (_, client) = setup();
    let sealed = encrypt(&client.ctx, &client.directory, &[], b"plain", None, TIME).unwrap();
    assert_ne!(sealed.body, b"plain");
    assert_eq!(sealed.metadata.encryption_algorithm.as_deref(), Some(DEFAULT_ENCRYPTION_ALGORITHM));
    let file_key = unwrap_member_key(&sealed.metadata, 0, &seed(1));
    assert_eq!(aes_decrypt(&file_key, &sealed.body).unwrap(), b"plain");
}

#[test]
fn encrypt_signs_new_metadata() {
    let (_, client) = setup();
    let sealed = encrypt(&client.ctx, &client.directory, &[], b"plain", None, TIME).unwrap();
    verify_metadata(&client.ctx.identity.public_key, &sealed.metadata, Some(&sealed.body)).unwrap();
    assert_eq!(sealed.local.encrypted, Some(true));
    assert_eq!(sealed.local.sync_hash, Some(sha2::Sha256::digest(b"plain").to_vec()));
    let opened = decrypt(&client.ctx, &rewritten(&sealed), &sealed.body).unwrap();
    assert_eq!(opened.body, b"plain");
    assert_eq!(opened.metadata, sealed.metadata);
}

#[test]
fn encrypting_is_finished_with_a_given_body() {
    let (_, client) = setup();
    let m = new_file_with_key(&client.ctx, &client.directory, &aes_key(9), TIME).unwrap();
    assert_eq!(unwrap_member_key(&m, 0, &seed(1)), vec![9u8; 32]);
    let done = finish_encrypted(&client.ctx, m.clone(), true, b"plain", b"sealed".to_vec()).unwrap();
    assert_eq!(done.body, b"sealed");
    verify_metadata(&client.ctx.identity.public_key, &done.metadata, Some(b"sealed")).unwrap();
    assert_eq!(done.local.sync_hash, Some(sha2::Sha256::digest(b"plain").to_vec()));
    let kept = finish_encrypted(&client.ctx, m.clone(), false, b"plain", b"sealed".to_vec()).unwrap();
    assert_eq!(kept.metadata, m);
    let mut other = client.ctx.clone();
    other.identity_key = Some(Key { algorithm: "ed25519".to_string(), value: vec![1u8; 31] });
    let err = finish_encrypted(&other, m, true, b"plain", Vec::new()).unwrap_err();
    assert_eq!(err.message(), "ed25519 requires a 32 byte private key");
}

#[test]
fn altered_bodies_are_refused() {
    let (_, client) = setup();
    let sealed = encrypt(&client.ctx, &client.directory, &[], b"plain", None, TIME).unwrap();
    for i in 0..sealed.body.len() {
        let mut body = sealed.body.clone();
        body[i] ^= 1;
        let err = decrypt(&client.ctx, &rewritten(&sealed), &body).unwrap_err();
        assert_eq!(err.kind(), Kind::InvalidData, "byte {}", i);
    }
    assert!(decrypt(&client.ctx, &rewritten(&sealed), &sealed.body[..27]).is_err());
}

#[test]
fn encrypting_is_undone_by_decrypting() {
    let (_, client) = setup();
    let (plain, m) = decrypted_file(&client, b"data");
    let sealed = encrypt(&client.ctx, &client.directory, &rewritten(&plain), &plain.body, None, TIME).unwrap();
    assert_eq!(sealed.body.len(), 4 + 28);
    let opened = decrypt(&client.ctx, &rewritten(&sealed), &sealed.body).unwrap();
    assert_eq!(opened.body, b"data");
    assert_eq!(opened.metadata, m);
    assert_eq!(opened.local.encrypted, Some(false));
    assert_eq!(opened.local.sync_hash, Some(sha2::Sha256::digest(b"data").to_vec()));
    let err = decrypt(&client.ctx, &rewritten(&opened), &opened.body).unwrap_err();
    assert_eq!(err.kind(), Kind::InvalidInput);
}

#[test]
fn encrypt_algorithm_with_metadata_errors() {
    let (_, client) = setup();
    let (opened, _) = decrypted_file(&client, b"x");
    let err = encrypt(
        &client.ctx,
        &client.directory,
        &rewritten(&opened),
        b"x",
        Some(DEFAULT_ENCRYPTION_ALGORITHM),
        TIME,
    )
    .unwrap_err();
    assert!(err.message().contains("cannot override existing metadata"), "msg was {}", err.message());
}

#[test]
fn encrypt_unsupported_algorithm_errors() {
    let (_, client) = setup();
    let err = encrypt(&client.ctx, &client.directory, &[], b"x", Some("chacha20-poly1305"), TIME).unwrap_err();
    assert!(err.message().contains("unsupported algorithm"), "msg was {}", err.message());
}

#[test]
fn encrypt_refuses_when_encrypted_flag_true() {
    let (_, client) = setup();
    let mut attributes = write_metadata_attributes(&plain_file(&client, b"x"));
    attributes.push(("user.ark_local.encrypted".to_string(), b"true".to_vec()));
    let err = encrypt(&client.ctx, &client.directory, &attributes, b"x", None, TIME).unwrap_err();
    assert!(err.message().contains("already encrypted"), "msg was {}", err.message());
}

#[test]
fn encrypt_reuses_file_key_from_source_metadata() {
    let (_, client) = setup();
    let (opened, m) = decrypted_file(&client, b"hello");
    assert_eq!(opened.body, b"hello");
    let sealed = encrypt(&client.ctx, &client.directory, &rewritten(&opened), &opened.body, None, TIME).unwrap();
    let re_key = unwrap_member_key(&sealed.metadata, 0, &seed(1));
    assert_eq!(re_key, unwrap_member_key(&m, 0, &seed(1)));
    assert_eq!(aes_decrypt(&re_key, &sealed.body).unwrap(), b"hello");
}

#[test]
fn encrypt_sets_sync_body_hash_over_plaintext() {
    let (_, client) = setup();
    let (opened, _) = decrypted_file(&client, b"plain");
    let sealed = encrypt(&client.ctx, &client.directory, &rewritten(&opened), &opened.body, None, TIME).unwrap();
    assert_eq!(sealed.local.sync_hash, Some(sha2::Sha256::digest(b"plain").to_vec()));
    assert_eq!(sealed.local.encrypted, Some(true));
}

#[test]
fn decrypt_replaces_body_and_marks_unencrypted() {
    let (_, client) = setup();
    let (opened, m) = decrypted_file(&client, b"data");
    assert_eq!(opened.body, b"data");
    assert_eq!(opened.local.encrypted, Some(false));
    assert_eq!(opened.metadata.encryption_algorithm.as_deref(), Some(DEFAULT_ENCRYPTION_ALGORITHM));
    assert_eq!(opened.metadata.members[0].key, m.members[0].key);
}

#[test]
fn decrypt_without_metadata_errors() {
    let (_, client) = setup();
    let key = Key { algorithm: DEFAULT_ENCRYPTION_ALGORITHM.to_string(), value: vec![1u8; 32] };
    let ciphertext = encrypt_bytes(&key, b"x").unwrap().1;
    let err = decrypt(&client.ctx, &[], &ciphertext).unwrap_err();
    assert!(err.message().contains("no ark metadata"), "msg was {}", err.message());
}

#[test]
fn decrypt_decrypt_refuses_when_encrypted_flag_false() {
    let (_, client) = setup();
    let (m, ciphertext) = encrypted_file(&client.ctx.identity, &seed(1), b"x");
    let mut attributes = write_metadata_attributes(&m);
    attributes.push(("user.ark_local.encrypted".to_string(), b"false".to_vec()));
    let err = decrypt(&client.ctx, &attributes, &ciphertext).unwrap_err();
    assert!(err.message().contains("already plaintext"), "msg was {}", err.message());
    let (m, ciphertext) = stored_file(15, b"x");
    let mut attributes = write_metadata_attributes(&m);
    attributes.push(("user.ark_local.encrypted".to_string(), b"false".to_vec()));
    let err = cmd_decrypt(&client.ctx, &from_file(), &attributes, &ciphertext, TIME).unwrap_err();
    assert!(err.message().contains("already plaintext"), "msg was {}", err.message());
}

#[test]
fn decrypt_decrypt_proceeds_when_encrypted_flag_true() {
    let (_, client) = setup();
    let (m, ciphertext) = encrypted_file(&client.ctx.identity, &seed(1), b"hi");
    let mut attributes = write_metadata_attributes(&m);
    attributes.push(("user.ark_local.encrypted".to_string(), b"true".to_vec()));
    assert_eq!(decrypt(&client.ctx, &attributes, &ciphertext).unwrap().body, b"hi");
    let (m, ciphertext) = stored_file(16, b"hi");
    let mut attributes = write_metadata_attributes(&m);
    attributes.push(("user.ark_local.encrypted".to_string(), b"true".to_vec()));
    assert_eq!(cmd_decrypt(&client.ctx, &from_file(), &attributes, &ciphertext, TIME).unwrap().plaintext, b"hi");
}

#[test]
fn decrypt_decrypt_aead_failure_includes_hint() {
    let (_, client) = setup();
    let body = vec![0u8; 42];
    let mut m = create_metadata(ADDRESS, Some(DEFAULT_ENCRYPTION_ALGORITHM), TIME);
    let (algorithm, value) = encrypt_bytes(&client.ctx.identity.public_key, &[0u8; 32]).unwrap();
    m.members[0].key = Some(Key { algorithm, value });
    sign_metadata(&seed(1), &mut m, Some(&body)).unwrap();
    let attributes = write_metadata_attributes(&m);
    m.members[0].key = Some(aes_key(0));
    let stored = write_metadata_attributes(&m);
    for message in [
        decrypt(&client.ctx, &attributes, &body).unwrap_err().message(),
        cmd_decrypt(&client.ctx, &from_file(), &stored, &body, TIME).unwrap_err().message(),
    ] {
        assert!(message.contains("may already be plaintext"), "msg was {}", message);
        assert!(message.contains("key may be wrong"), "msg was {}", message);
    }
}

fn from_file() -> DecryptArgs {
    DecryptArgs { input: Some("in.bin".to_string()), ..args() }
}

fn args() -> DecryptArgs {
    DecryptArgs { input: None, output: None, in_place: None, key: None, algorithm: None }
}

// A file whose metadata holds the file key as it is.
fn stored_file(key: u8, plaintext: &[u8]) -> (Metadata, Vec<u8>) {
    let key = aes_key(key);
    let ciphertext = encrypt_bytes(&key, plaintext).unwrap().1;
    let mut m = create_metadata(ADDRESS, Some(DEFAULT_ENCRYPTION_ALGORITHM), TIME);
    m.members[0].key = Some(key);
    sign_metadata(&seed(1), &mut m, Some(&ciphertext)).unwrap();
    (m, ciphertext)
}

#[test]
fn decrypt_finds_wrapped_keys() {
    let (_, client) = setup();
    let (m, ciphertext) = encrypted_file(&client.ctx.identity, &seed(1), b"wrapped");
    let opened = cmd_decrypt(&client.ctx, &from_file(), &write_metadata_attributes(&m), &ciphertext, TIME).unwrap();
    assert_eq!(opened.plaintext, b"wrapped");
}

#[test]
fn decrypt_input_to_output() {
    let (_, client) = setup();
    let (m, ciphertext) = stored_file(11, b"hello world");
    let asked = DecryptArgs { input: Some("in.bin".to_string()), output: Some("out.bin".to_string()), ..args() };
    assert_eq!(asked.source().as_deref(), Some("in.bin"));
    assert_eq!(asked.destination().as_deref(), Some("out.bin"));
    let opened = cmd_decrypt(&client.ctx, &asked, &write_metadata_attributes(&m), &ciphertext, TIME).unwrap();
    assert_eq!(opened.plaintext, b"hello world");
}

#[test]
fn decrypt_in_place_replaces_body_and_marks_unencrypted() {
    let (_, client) = setup();
    let (m, ciphertext) = stored_file(12, b"data");
    let asked = DecryptArgs { in_place: Some("file.bin".to_string()), ..args() };
    assert_eq!(asked.source().as_deref(), Some("file.bin"));
    assert_eq!(asked.destination().as_deref(), Some("file.bin"));
    let opened = cmd_decrypt(&client.ctx, &asked, &write_metadata_attributes(&m), &ciphertext, TIME).unwrap();
    assert_eq!(opened.plaintext, b"data");
    assert_eq!(opened.local.encrypted, Some(false));
    assert_eq!(opened.metadata.encryption_algorithm.as_deref(), Some("aes-256-gcm"));
    assert!(opened.metadata.members[0].key.is_some());
}

#[test]
fn decrypt_in_place_conflicts_with_input() {
    let (_, client) = setup();
    let asked = DecryptArgs { input: Some("a".to_string()), in_place: Some("x".to_string()), ..args() };
    let err = cmd_decrypt(&client.ctx, &asked, &[], &[], TIME).unwrap_err();
    assert!(err.message().contains("mutually exclusive"));
    assert!(asked.check().unwrap_err().message().contains("mutually exclusive"));
    assert!(DecryptArgs { output: Some("a".to_string()), in_place: Some("x".to_string()), ..args() }.check().is_err());
    assert!(DecryptArgs { input: Some("a".to_string()), output: Some("x".to_string()), ..args() }.check().is_ok());
}

#[test]
fn decrypt_explicit_key_overrides_meta() {
    let (_, client) = setup();
    let real_key = aes_key(13);
    let ciphertext = encrypt_bytes(&real_key, b"x").unwrap().1;
    let (wrong, _) = stored_file(99, b"x");
    let asked = DecryptArgs { key: Some(encode_base64url(&real_key.value)), ..from_file() };
    let opened = cmd_decrypt(&client.ctx, &asked, &write_metadata_attributes(&wrong), &ciphertext, TIME).unwrap();
    assert_eq!(opened.plaintext, b"x");
}

#[test]
fn decrypt_missing_key_errors() {
    let (_, client) = setup();
    let key = Key { algorithm: DEFAULT_ENCRYPTION_ALGORITHM.to_string(), value: vec![1u8; 32] };
    let ciphertext = encrypt_bytes(&key, b"x").unwrap().1;
    let err = cmd_decrypt(&client.ctx, &from_file(), &[], &ciphertext, TIME).unwrap_err();
    assert!(err.message().contains("no file key"));
}

#[test]
fn decrypt_unsupported_algorithm_errors() {
    let (_, client) = setup();
    let key = Key { algorithm: DEFAULT_ENCRYPTION_ALGORITHM.to_string(), value: vec![14u8; 32] };
    let ciphertext = encrypt_bytes(&key, b"x").unwrap().1;
    let asked = DecryptArgs {
        key: Some(encode_base64url(&key.value)),
        algorithm: Some("chacha20-poly1305".to_string()),
        ..from_file()
    };
    let err = cmd_decrypt(&client.ctx, &asked, &[], &ciphertext, TIME).unwrap_err();
    assert!(err.message().contains("unsupported encryption algorithm"), "msg was {}", err.message());
}

#[test]
fn decrypt_to_stdout_succeeds() {
    let (_, client) = setup();
    let (m, ciphertext) = stored_file(19, b"plain");
    let asked = DecryptArgs { input: Some("in.bin".to_string()), ..args() };
    assert!(asked.destination().is_none());
    cmd_decrypt(&client.ctx, &asked, &write_metadata_attributes(&m), &ciphertext, TIME).unwrap();
}

// Requests.

fn example_url(path: &str) -> UrlParts {
    UrlParts {
        username: String::new(),
        host: Some("127.0.0.1".to_string()),
        port: Some(8000),
        path: path.to_string(),
        query: None,
    }
}

#[test]
fn ark_request_returns_status_and_body() {
    let bytes = b"HTTP/1.1 201 Created\r\nContent-Length: 5\r\nConnection: close\r\n\r\nhello";
    let response = read_response(bytes, false).unwrap();
    assert_eq!(response.status, 201);
    assert_eq!(response.body, b"hello");
    assert_eq!(header(&response.headers, "content-length"), Some("5"));
}

#[test]
fn ark_request_sends_method_path_and_body() {
    let (_, client) = setup();
    let req = ark_request(Some(&client.ctx), "PUT", &example_url("/ark/alice/x"), &[], b"payload", NOW).unwrap();
    let text = String::from_utf8_lossy(&req).into_owned();
    assert!(text.starts_with("PUT /ark/alice/x HTTP/1.1\r\n"), "request was: {}", text);
    let read = read_request(&req, false).unwrap();
    assert_eq!(header(&read.headers, "Host"), Some("127.0.0.1:8000"));
    assert_eq!(header(&read.headers, "Content-Length"), Some("7"));
    assert!(req.ends_with(b"payload"));
}

#[test]
fn ark_request_signs_method_path_timestamp_body() {
    let (_, client) = setup();
    let req = ark_request(Some(&client.ctx), "GET", &example_url("/x"), &[], &[], NOW).unwrap();
    let read = read_request(&req, false).unwrap();
    let params = parse_auth_params(header(&read.headers, "Authorization").unwrap()).unwrap();
    let param = |name: &str| params.iter().find(|(n, _)| n == name).map(|(_, v)| v.clone()).unwrap();
    assert_eq!(param("address"), ADDRESS);
    let ts: u64 = param("timestamp").parse().unwrap();
    assert_eq!(ts, NOW);
    let value = decode_base64url(&param("signature")).unwrap();
    let message = request_to_bytes("GET", "127.0.0.1:8000", "/x", ts, &[]);
    let signature = Signature { algorithm: client.ctx.identity.public_key.algorithm.clone(), value };
    assert!(verify_bytes(&client.ctx.identity.public_key, &signature, &message).is_ok());
}

#[test]
fn ark_request_propagates_non_2xx_status() {
    let bytes = b"HTTP/1.1 403 Forbidden\r\nContent-Length: 7\r\nConnection: close\r\n\r\ndenied!";
    let response = read_response(bytes, false).unwrap();
    assert_eq!(response.status, 403);
    assert_eq!(response.body, b"denied!");
    let err = check_response_code(response.status, &response.body).unwrap_err();
    assert_eq!(err.message(), "HTTP 403: denied!");
}

#[test]
fn ark_request_sends_extra_headers() {
    let (_, client) = setup();
    let extra = [
        ("X-Ark-Meta-Encryption-Algorithm".to_string(), "aes-256-gcm".to_string()),
        ("X-Custom".to_string(), "hi".to_string()),
    ];
    let req = ark_request(Some(&client.ctx), "PUT", &example_url("/x"), &extra, b"d", NOW).unwrap();
    let read = read_request(&req, false).unwrap();
    assert_eq!(header(&read.headers, "X-Ark-Meta-Encryption-Algorithm"), Some("aes-256-gcm"));
    assert_eq!(header(&read.headers, "X-Custom"), Some("hi"));
}

#[test]
fn requests_without_an_account_are_not_signed() {
    let req = ark_request(None, "GET", &example_url("/x"), &[], &[], NOW).unwrap();
    assert_eq!(header(&read_request(&req, false).unwrap().headers, "Authorization"), None);
    let mut nowhere = example_url("/x");
    nowhere.host = None;
    assert_eq!(ark_request(None, "GET", &nowhere, &[], &[], NOW).unwrap_err().fault, Fault::UrlMissingHost);
}

// Commands with a file that is named.

fn cmd_upload(
    world: &mut World,
    client: &mut Client,
    path: &str,
    input: &str,
    no_encrypt: bool,
) -> Result<(), Error> {
    let now = client.now();
    let copy = client.files.get(input).unwrap();
    let body = copy.body.clone().unwrap();
    let put = cmd_put(&client.ctx, &client.directory, path, Some(&copy.attributes), &body, no_encrypt, &now, NOW)?;
    let (status, headers, body) = swap(world.send(&put.request));
    cmd_put_answer(&Response { status, headers, body })?;
    if put.write_back {
        client.set(input, &put.metadata, &put.local);
    }
    Ok(())
}

fn put_via_cmd(path: &str, plaintext: &[u8]) -> (World, Client) {
    let (mut world, mut client) = setup();
    client.save("input.bin", plaintext);
    cmd_upload(&mut world, &mut client, path, "input.bin", false).unwrap();
    (world, client)
}

// A local file that carries a file key of the account's own.
fn keyed_input(client: &mut Client, body: &[u8], key: &Key, encrypted: Option<bool>) {
    client.save("input.bin", body);
    let mut m = create_metadata(ADDRESS, Some(DEFAULT_ENCRYPTION_ALGORITHM), TIME);
    apply_key_to_metadata(&client.ctx, &client.directory, &mut m, key).unwrap();
    sign_metadata(&seed(1), &mut m, Some(body)).unwrap();
    client.set("input.bin", &m, &LocalMetadata { encrypted, sync_hash: None, sync_modified: None });
}

fn aes_key(value: u8) -> Key {
    Key { algorithm: DEFAULT_ENCRYPTION_ALGORITHM.to_string(), value: vec![value; 32] }
}

#[test]
fn cmd_put_encrypts_body_and_stores_meta_xattr() {
    let (world, _) = put_via_cmd("notes.txt", b"plaintext");
    let on_disk = world.body("ark/gyan/notes.txt");
    assert_ne!(on_disk, b"plaintext");
    let m = server_metadata(&world, "ark/gyan/notes.txt");
    assert_eq!(m.encryption_algorithm.as_deref(), Some("aes-256-gcm"));
    let key = unwrap_member_key(&m, 0, &seed(1));
    assert_eq!(aes_decrypt(&key, &on_disk).unwrap(), b"plaintext");
}

#[test]
fn cmd_put_writes_metadata_back_to_input_file() {
    let (_, client) = put_via_cmd("out.bin", b"hello");
    let m = client.metadata("input.bin");
    assert_eq!(m.encryption_algorithm.as_deref(), Some("aes-256-gcm"));
    let _key = unwrap_member_key(&m, 0, &seed(1));
}

#[test]
fn cmd_put_reuses_existing_filekey_on_input() {
    let (mut world, mut client) = setup();
    let preset_key = aes_key(77);
    keyed_input(&mut client, b"hello", &preset_key, None);
    cmd_upload(&mut world, &mut client, "notes.txt", "input.bin", false).unwrap();
    let server_key = unwrap_member_key(&server_metadata(&world, "ark/gyan/notes.txt"), 0, &seed(1));
    assert_eq!(server_key, preset_key.value);
    let ciphertext = world.body("ark/gyan/notes.txt");
    assert_eq!(aes_decrypt(&preset_key.value, &ciphertext).unwrap(), b"hello");
}

#[test]
fn cmd_put_second_put_keeps_same_filekey() {
    let (mut world, mut client) = put_via_cmd("notes.txt", b"v1");
    let key1 = unwrap_member_key(&client.metadata("input.bin"), 0, &seed(1));
    client.save("input.bin", b"v2");
    cmd_upload(&mut world, &mut client, "notes.txt", "input.bin", false).unwrap();
    let key2 = unwrap_member_key(&client.metadata("input.bin"), 0, &seed(1));
    assert_eq!(key1, key2);
    assert_eq!(aes_decrypt(&key2, &world.body("ark/gyan/notes.txt")).unwrap(), b"v2");
}

#[test]
fn cmd_put_creates_at_relative_path() {
    let (world, _) = put_via_cmd("notes.txt", b"hello");
    assert!(world.files.contains_key("ark/gyan/notes.txt"));
}

#[test]
fn cmd_put_overwrites_existing_file() {
    let (mut world, mut client) = setup();
    world.write_bare("ark/gyan/x.txt", b"old");
    client.save("input.bin", b"new plaintext");
    cmd_upload(&mut world, &mut client, "x.txt", "input.bin", false).unwrap();
    let on_disk = world.body("ark/gyan/x.txt");
    assert_ne!(on_disk, b"old");
    assert_ne!(on_disk, b"new plaintext");
}

#[test]
fn cmd_put_from_subdir_uses_relative_path() {
    let (_, client) = setup();
    let path = resolve_path(&client.ctx, "/home/notes", "todo.txt").unwrap();
    let (world, _) = put_via_cmd(&path, b"buy milk");
    assert!(world.files.contains_key("ark/gyan/notes/todo.txt"));
}

#[test]
fn cmd_put_absolute_url_path() {
    let (world, _) = put_via_cmd("/sub/file.txt", b"absolute");
    assert!(world.files.contains_key("ark/gyan/sub/file.txt"));
}

#[test]
fn cmd_put_via_explicit_address_form() {
    let (world, _) = put_via_cmd("gyan@127.0.0.1:8000/explicit.txt", b"via address");
    assert!(world.files.contains_key("ark/gyan/explicit.txt"));
}

#[test]
fn cmd_put_sends_already_encrypted_body_unchanged() {
    let (mut world, mut client) = setup();
    let key = aes_key(88);
    let ciphertext = encrypt_bytes(&key, b"hidden").unwrap().1;
    keyed_input(&mut client, &ciphertext, &key, Some(true));
    cmd_upload(&mut world, &mut client, "file.bin", "input.bin", false).unwrap();
    let server_body = world.body("ark/gyan/file.bin");
    assert_eq!(server_body, ciphertext, "server received raw input bytes");
    assert_eq!(client.marks("input.bin").encrypted, Some(true));
    assert_eq!(aes_decrypt(&key.value, &server_body).unwrap(), b"hidden");
}

#[test]
fn cmd_put_marks_input_encrypted_false_after_fresh_encrypt() {
    let (_, client) = put_via_cmd("out.bin", b"plain");
    assert_eq!(client.marks("input.bin").encrypted, Some(false));
}

#[test]
fn cmd_put_no_encrypt_sends_raw_body() {
    let (mut world, mut client) = setup();
    client.save("input.bin", b"plain bytes");
    cmd_upload(&mut world, &mut client, "raw.bin", "input.bin", true).unwrap();
    assert_eq!(world.body("ark/gyan/raw.bin"), b"plain bytes");
    assert!(server_metadata(&world, "ark/gyan/raw.bin").encryption_algorithm.is_some());
    assert!(client.files.get("input.bin").unwrap().attributes.is_empty());
}

#[test]
fn cmd_put_no_encrypt_passes_through_existing_metadata() {
    let (mut world, mut client) = setup();
    let key = aes_key(55);
    let ciphertext = encrypt_bytes(&key, b"secret").unwrap().1;
    keyed_input(&mut client, &ciphertext, &key, None);
    cmd_upload(&mut world, &mut client, "file.bin", "input.bin", true).unwrap();
    assert_eq!(world.body("ark/gyan/file.bin"), ciphertext);
    let m = server_metadata(&world, "ark/gyan/file.bin");
    assert_eq!(unwrap_member_key(&m, 0, &seed(1)), key.value);
}

#[test]
fn cmd_put_missing_identity_errors() {
    let dirs = [("/tmp/nowhere".to_string(), false), ("/tmp".to_string(), false), ("/".to_string(), false)];
    let err = find_root(&dirs).unwrap_err();
    assert!(err.message().contains("no .ark"), "msg was {}", err.message());
}

#[test]
fn cmd_put_of_the_standard_input_writes_nothing_back() {
    let (mut world, client) = setup();
    let put = cmd_put(&client.ctx, &client.directory, "in.txt", None, b"piped", false, TIME, NOW).unwrap();
    assert!(!put.write_back);
    assert_eq!(world.send(&put.request).0, 201);
    let response = client.ask(&mut world, "GET", "in.txt");
    let found = cmd_get(&client.ctx, &client.directory, &response, true).unwrap();
    assert_eq!(found.body, b"piped");
    assert_eq!(found.metadata, put.metadata);
}

#[test]
fn cmd_put_by_who_is_no_member_is_refused() {
    let (mut world, mut client) = setup();
    let (other, key) = create_identity("other@example.com", None).unwrap();
    let (m, ciphertext) = encrypted_file(&other, &key, b"theirs");
    client.save("input.bin", &ciphertext);
    client.set("input.bin", &m, &LocalMetadata { encrypted: None, sync_hash: None, sync_modified: None });
    let err = cmd_upload(&mut world, &mut client, "x", "input.bin", false).unwrap_err();
    assert_eq!(err.message(), "no member entry for current account");
}

#[test]
fn cmd_put_reports_other_answers() {
    let answer = |status| cmd_put_answer(&Response { status, headers: Vec::new(), body: b"no".to_vec() });
    assert!(answer(201).is_ok());
    assert!(answer(204).is_ok());
    assert_eq!(answer(200).unwrap_err().message(), "HTTP 200: no");
    assert_eq!(answer(403).unwrap_err().message(), "HTTP 403: no");
}

#[test]
fn get_file_via_cmd_get_writes_to_output() {
    let (mut world, client) = setup();
    world.write("ark/gyan/hello.txt", b"hi from server", &plain_file(&client, b"hi from server"));
    let response = client.ask(&mut world, "GET", "hello.txt");
    let found = cmd_get(&client.ctx, &client.directory, &response, false).unwrap();
    assert_eq!(found.body, b"hi from server");
    assert_eq!(found.local.encrypted, Some(false));
}

#[test]
fn cmd_get_to_stdout_succeeds() {
    let (mut world, client) = setup();
    world.write("ark/gyan/stdout.txt", b"to stdout", &plain_file(&client, b"to stdout"));
    let response = client.ask(&mut world, "GET", "stdout.txt");
    assert_eq!(cmd_get(&client.ctx, &client.directory, &response, false).unwrap().body, b"to stdout");
}

#[test]
fn cmd_get_decrypts_for_members_alone() {
    let (mut world, mut client) = setup();
    let (m, ciphertext) = encrypted_file(&client.ctx.identity, &seed(1), b"clear text");
    world.write("ark/gyan/secret", &ciphertext, &m);
    let response = client.ask(&mut world, "GET", "secret");
    let raw = cmd_get(&client.ctx, &client.directory, &response, false).unwrap();
    assert_eq!(raw.body, ciphertext);
    assert_eq!(raw.local.encrypted, Some(true));
    let found = cmd_get(&client.ctx, &client.directory, &response, true).unwrap();
    assert_eq!(found.body, b"clear text");
    assert_eq!(found.local.encrypted, Some(false));

    let (other, key) = create_identity("other@example.com", None).unwrap();
    let mut theirs = create_metadata("other@example.com", None, TIME);
    sign_metadata(&key, &mut theirs, Some(b"raw")).unwrap();
    world.write("ark/gyan/plain", b"raw", &theirs);
    client.learn(&other);
    let response = client.ask(&mut world, "GET", "plain");
    let err = cmd_get(&client.ctx, &client.directory, &response, true).unwrap_err();
    assert_eq!(err.message(), "no member entry for current account");
}

#[test]
fn cmd_get_says_why_it_cannot_decrypt() {
    let (mut world, client) = setup();
    world.write("ark/gyan/plain", b"raw", &plain_file(&client, b"raw"));
    let response = client.ask(&mut world, "GET", "plain");
    let err = cmd_get(&client.ctx, &client.directory, &response, true).unwrap_err();
    assert_eq!(err.message(), "no file key for current account");

    let (mut m, _) = encrypted_file(&client.ctx.identity, &seed(1), b"clear text");
    let body = [7u8; 64];
    sign_metadata(&seed(1), &mut m, Some(&body)).unwrap();
    world.write("ark/gyan/broken", &body, &m);
    let response = client.ask(&mut world, "GET", "broken");
    let err = cmd_get(&client.ctx, &client.directory, &response, true).unwrap_err();
    assert!(err.message().ends_with("server data may not be encrypted or the key may be wrong"));

    let missing = client.ask(&mut world, "GET", "nope");
    let err = cmd_get(&client.ctx, &client.directory, &missing, false).unwrap_err();
    assert!(err.message().contains("HTTP 404"), "msg was {}", err.message());
}

#[test]
fn cmd_head_succeeds_against_real_server() {
    let (mut world, client) = setup();
    world.write("ark/gyan/x", b"abc", &plain_file(&client, b"abc"));
    let response = client.ask(&mut world, "HEAD", "x");
    let printed = cmd_head(&client.ctx, &client.directory, &response).unwrap();
    assert!(printed.contains("X-Ark-Meta-Modified-By: gyan@127.0.0.1:8000\n"), "printed {}", printed);
}

#[test]
fn cmd_head_missing_file_errors() {
    let (mut world, client) = setup();
    let response = client.ask(&mut world, "HEAD", "nope");
    let err = cmd_head(&client.ctx, &client.directory, &response).unwrap_err();
    assert!(err.message().contains("HTTP 404"), "msg was {}", err.message());
}

fn cmd_change(client: &Client, m: &Metadata, body: &[u8], readers: &[&str], drops: &[&str]) -> Result<Metadata, Error> {
    let list = |names: &[&str]| names.iter().map(|n| n.to_string()).collect::<Vec<String>>();
    let attributes = write_metadata_attributes(m);
    cmd_chmod(&client.ctx, &client.directory, &attributes, body, &[], &[], &list(readers), &list(drops), TIME)
}

#[test]
fn cmd_chmod_changes_members_and_signs_the_body() {
    let (_, client) = setup();
    let before = plain_file(&client, b"body");
    let m = cmd_change(&client, &before, b"body", &["john@example.com", "public"], &[]).unwrap();
    let john = m.members.iter().find(|m| m.address == "john@example.com").unwrap();
    assert_eq!(john.permission, Permission::Reader);
    assert!(m.members.iter().any(|m| m.address == "*"));
    verify_metadata(&client.ctx.identity.public_key, &m, Some(b"body")).unwrap();

    let edited = cmd_change(&client, &m, b"edited", &[], &["john@example.com"]).unwrap();
    assert!(!edited.members.iter().any(|m| m.address == "john@example.com"));
    verify_metadata(&client.ctx.identity.public_key, &edited, Some(b"edited")).unwrap();
}

#[test]
fn cmd_chmod_is_refused_where_an_owner_or_metadata_is_missing() {
    let (_, client) = setup();
    let before = plain_file(&client, b"body");
    let err = cmd_change(&client, &before, b"body", &[], &[ADDRESS]).unwrap_err();
    assert!(err.message().contains("at least one owner"), "msg was {}", err.message());

    let mut shared = create_metadata(ADDRESS, None, TIME);
    shared.members[0].permission = Permission::Writer;
    shared.members.push(Member { address: "boss@example.com".to_string(), permission: Permission::Owner, key: None });
    sign_metadata(&seed(1), &mut shared, Some(b"body")).unwrap();
    let err = cmd_change(&client, &shared, b"body", &["john@example.com"], &[]).unwrap_err();
    assert!(err.message().contains("only an owner"), "msg was {}", err.message());

    let err = cmd_chmod(&client.ctx, &client.directory, &[], b"body", &[], &[], &[], &[], TIME).unwrap_err();
    assert_eq!(err.message(), "missing id field");

    let (m, ciphertext) = encrypted_file(&client.ctx.identity, &seed(1), b"plaintext");
    let err = cmd_change(&client, &m, &ciphertext, &["public"], &[]).unwrap_err();
    assert!(err.message().contains("public member to encrypted"), "msg was {}", err.message());
}
