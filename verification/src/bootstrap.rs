//! Setting up accounts and the contexts that clients and servers work in.

use vstd::prelude::*;
use vstd::utf8::encode_utf8;

use crate::auth::{ark_request, ark_request_bytes};
use crate::base64url::{decode_base64url, decoded};
use crate::crypto::{
    create_secret_key_from_password, expanded, json_signed, keys_match, owned, password_key, public_key,
    restore_secret_key_from_password, restored, to_public_key, DEFAULT_ENCRYPTION_ALGORITHM,
    DEFAULT_PASSWORD_ALGORITHM, DEFAULT_SIGNING_ALGORITHM, PASSWORD_KEY_LEN, PASSWORD_SALT_LEN,
};
use crate::error::{bare, fail, fail_with, seen, with, Error, ErrorV, Fault};
use crate::delivery::lemma_upload_owner;
use crate::fields::{attribute_fields, metadata_of, read_metadata_headers};
use crate::http::{check_response_code, http_error, is_success, response_read, Response, ResponseV};
use crate::identity::{
    address_parts, create_identity, create_identity_with_key, identity_of, identity_valid, identity_verified, key_file,
    key_file_round_trip, key_in, parse_address, read_identity_key, validate_identity,
};
use crate::json::metadata_json;
use crate::locate::{client_url, resolve_client_url_raw};
use crate::membership::identity_at;
use crate::metadata::{create_metadata, hash_of, member_at, metadata_verified, new_metadata, sign_metadata, unsigned};
use crate::permissions::{changed, everyone, mentions, reader, role, role_after_changes, wire, writer};
use crate::primitives::utf8_text;
use crate::sealing::{decrypt_stream, own_keys, stream_decrypted};
use crate::server::{got, AccountV, ActionV, DiskV, NodeV};
use crate::server_laws::{stored_file_is_read_back, tidy};
use crate::text::{concat, concat3, opt_str, opt_text, same, trim, trimmed, Trim};
use crate::types::{
    no_local, no_permissions, pairs, Context, ContextV, Identity, IdentityV, Key, Member, MemberV, Metadata, MetadataV,
    Permission, Permissions, PermissionsV, Tagged,
};
use crate::upload::{body_uploaded, every_member_reads, uploaded, JobV, UploadV};

verus! {

// Starting an account.

/// The file of an account's own data.
pub open spec fn own_file(root: Seq<char>, file: Seq<char>) -> Seq<char> {
    root + "/.ark/"@ + file
}

/// How an account is started.
#[derive(Debug)]
pub enum Start {
    /// On this machine alone.
    Local,
    /// By asking the server for the identity, with these bytes.
    Ask { request: Vec<u8> },
}

/// The view of how an account is started.
pub enum StartV {
    Local,
    Ask { request: Seq<u8> },
}

impl View for Start {
    type V = StartV;

    open spec fn view(&self) -> StartV {
        match self {
            Start::Local => StartV::Local,
            Start::Ask { request } => StartV::Ask { request: request@ },
        }
    }
}

/// How an account is started: not over one that is there, and without a password
/// where no server is asked.
pub open spec fn started(
    root: Seq<char>,
    address: Seq<char>,
    has_password: bool,
    local_only: bool,
    has_identity: bool,
    has_key: bool,
    timestamp: nat,
) -> Result<StartV, ErrorV> {
    if has_identity {
        Err(with(Fault::FileExists, own_file(root, "identity.json"@)))
    } else if has_key {
        Err(with(Fault::FileExists, own_file(root, "identity.key"@)))
    } else if local_only {
        if has_password {
            Err(bare(Fault::PasswordLocal))
        } else {
            Ok(StartV::Local)
        }
    } else {
        match client_url(address, "/.ark/identity.json"@) {
            Err(e) => Err(e),
            Ok(url) => match ark_request_bytes(None, "GET"@, url, Seq::empty(), Seq::empty(), timestamp) {
                Err(e) => Err(e),
                Ok(request) => Ok(StartV::Ask { request }),
            },
        }
    }
}

/// Decides how an account is started.
pub fn init(
    root: &str,
    address: &str,
    has_password: bool,
    local_only: bool,
    has_identity: bool,
    has_key: bool,
    timestamp: u64,
) -> (r: Result<Start, Error>)
    ensures
        seen(r) == started(root@, address@, has_password, local_only, has_identity, has_key, timestamp as nat),
{
    if has_identity {
        return Err(fail_with(Fault::FileExists, concat3(root, "/.ark/", "identity.json")));
    }
    if has_key {
        return Err(fail_with(Fault::FileExists, concat3(root, "/.ark/", "identity.key")));
    }
    if local_only {
        if has_password {
            return Err(fail(Fault::PasswordLocal));
        }
        return Ok(Start::Local);
    }
    let url = match resolve_client_url_raw(address, "/.ark/identity.json") {
        Ok(u) => u,
        Err(e) => {
            return Err(e);
        },
    };
    let none: Vec<(String, String)> = Vec::new();
    let empty: Vec<u8> = Vec::new();
    assert(pairs(none@) =~= Seq::empty());
    assert(empty@ =~= Seq::empty());
    match ark_request(None, "GET", &url, &none, &empty, timestamp) {
        Ok(request) => Ok(Start::Ask { request }),
        Err(e) => Err(e),
    }
}

/// What the server's answer to a new account comes to.
#[derive(Debug)]
pub enum Origin {
    /// The server has the identity: it is kept here.
    Pin { identity: Identity },
    /// The server does not know the account: it is made and uploaded, and the
    /// server's own account may write to its request log.
    Create { server: String },
}

/// The view of what the server's answer comes to.
pub enum OriginV {
    Pin { identity: IdentityV },
    Create { server: Seq<char> },
}

impl View for Origin {
    type V = OriginV;

    open spec fn view(&self) -> OriginV {
        match self {
            Origin::Pin { identity } => OriginV::Pin { identity: identity@ },
            Origin::Create { server } => OriginV::Create { server: server@ },
        }
    }
}

/// What the server's answer comes to, given what its body was parsed to.
pub open spec fn answered(
    address: Seq<char>,
    status: u16,
    body: Seq<u8>,
    document: Result<IdentityV, ErrorV>,
) -> Result<OriginV, ErrorV> {
    if is_success(status) {
        match document {
            Err(e) => Err(e),
            Ok(identity) => match identity_valid(identity) {
                Err(e) => Err(e),
                Ok(_) => if identity.address != address {
                    Err(with(Fault::IdentityAddress, identity.address + " does not match "@ + address))
                } else {
                    Ok(OriginV::Pin { identity })
                },
            },
        }
    } else if status == 403 || status == 404 {
        match address_parts(address) {
            Err(e) => Err(e),
            Ok(parts) => Ok(OriginV::Create { server: "ark@"@ + parts.1 }),
        }
    } else {
        Err(http_error(status, body))
    }
}

/// Reads the server's answer to a new account, given what its body was parsed to.
pub fn init_answer(address: &str, status: u16, body: &[u8], document: Result<Identity, Error>) -> (r: Result<
    Origin,
    Error,
>)
    ensures
        seen(r) == answered(address@, status, body@, seen(document)),
{
    match check_response_code(status, body) {
        Ok(()) => {
            let identity = match document {
                Ok(i) => i,
                Err(e) => {
                    return Err(e);
                },
            };
            match validate_identity(&identity) {
                Ok(()) => {},
                Err(e) => {
                    return Err(e);
                },
            }
            if !same(&identity.address, address) {
                return Err(
                    fail_with(Fault::IdentityAddress, concat3(&identity.address, " does not match ", address)),
                );
            }
            Ok(Origin::Pin { identity })
        },
        Err(e) => if status == 403 || status == 404 {
            match parse_address(address) {
                Ok((_, host, _)) => Ok(Origin::Create { server: concat("ark@", &host) }),
                Err(x) => Err(x),
            }
        } else {
            Err(e)
        },
    }
}

/// Makes the identity of an account on this machine.
pub fn init_local(address: &str) -> (r: Result<(Identity, Key), Error>)
    ensures
        r matches Ok((i, k)) ==> k@.algorithm == DEFAULT_SIGNING_ALGORITHM@ && k@.value.len() == 32 && identity_of(
            k@,
            address@,
            None,
        ) == Ok::<IdentityV, ErrorV>(i@) && keys_match(k@, i@.public_key) && owned(i@.public_key)
            && identity_valid(i@) is Ok,
        r matches Err(e) ==> e.fault == Fault::Random || exists|k: Tagged|
            k.algorithm == DEFAULT_SIGNING_ALGORITHM@ && k.value.len() == 32 && match #[trigger] identity_of(
                k,
                address@,
                None,
            ) {
                Err(x) => e@ == x,
                Ok(i) => identity_valid(i) == Err::<(), ErrorV>(e@),
            },
{
    let (identity, key) = match create_identity(address, None) {
        Ok(p) => p,
        Err(e) => {
            return Err(e);
        },
    };
    match validate_identity(&identity) {
        Ok(()) => Ok((identity, key)),
        Err(e) => {
            assert(identity_of(key@, address@, None) == Ok::<IdentityV, ErrorV>(identity@));
            Err(e)
        },
    }
}

// Passwords.

/// The address of the identity that a password stands for.
pub open spec fn password_address(account: Seq<char>) -> Seq<char> {
    account + "/.ark/passwords/primary.json"@
}

/// The address of the identity that a password stands for.
pub fn password_address_of(account: &str) -> (r: String)
    ensures
        r@ == password_address(account@),
{
    concat(account, "/.ark/passwords/primary.json")
}

/// Makes the identity that a password stands for. The same password restores its
/// secret key.
pub fn push_secret_key_with_password(account: &str, password: &str) -> (r: Result<(Identity, Key), Error>)
    ensures
        r matches Ok((i, k)) ==> identity_of(k@, password_address(account@), None) == Ok::<IdentityV, ErrorV>(i@)
            && keys_match(k@, i@.public_key) && owned(i@.public_key) && identity_verified(i@) is Ok && restored(
            i@.public_key,
            password@,
        ) == Ok::<Tagged, ErrorV>(k@),
        r matches Ok((i, k)) ==> exists|salt: Seq<u8>|
            salt.len() == PASSWORD_SALT_LEN && k@ == #[trigger] password_key(salt, password@),
        r matches Err(e) ==> e.fault == Fault::Random || exists|salt: Seq<u8>|
            salt.len() == PASSWORD_SALT_LEN && identity_of(
                #[trigger] password_key(salt, password@),
                password_address(account@),
                None,
            ) == Err::<IdentityV, ErrorV>(e@),
{
    let key = match create_secret_key_from_password(DEFAULT_PASSWORD_ALGORITHM, password) {
        Ok(k) => k,
        Err(e) => {
            return Err(e);
        },
    };
    let ghost salt = choose|salt: Seq<u8>|
        salt.len() == PASSWORD_SALT_LEN && key@ == #[trigger] password_key(salt, password@);
    let _public = match to_public_key(&key) {
        Ok(p) => p,
        Err(e) => {
            assert(identity_of(password_key(salt, password@), password_address(account@), None) == Err::<
                IdentityV,
                ErrorV,
            >(e@));
            return Err(e);
        },
    };
    match create_identity_with_key(&key, &password_address_of(account), None) {
        Ok(identity) => Ok((identity, key)),
        Err(e) => {
            assert(identity_of(password_key(salt, password@), password_address(account@), None) == Err::<
                IdentityV,
                ErrorV,
            >(e@));
            Err(e)
        },
    }
}

/// The context that a password gives, given the identity that it stands for.
pub open spec fn password_context(
    root: Seq<char>,
    status: u16,
    body: Seq<u8>,
    document: Result<IdentityV, ErrorV>,
    password: Seq<char>,
) -> Result<ContextV, ErrorV> {
    if !is_success(status) {
        Err(http_error(status, body))
    } else {
        match document {
            Err(e) => Err(e),
            Ok(identity) => match identity_valid(identity) {
                Err(e) => Err(e),
                Ok(_) => match restored(identity.public_key, password) {
                    Err(e) => Err(e),
                    Ok(key) => Ok(ContextV { root, identity, identity_key: Some(key) }),
                },
            },
        }
    }
}

/// Opens the identity that a password stands for, given the server's answer and
/// what its body was parsed to.
pub fn open_password(root: &str, status: u16, body: &[u8], document: Result<Identity, Error>, password: &str) -> (r:
    Result<Context, Error>)
    ensures
        seen(r) == password_context(root@, status, body@, seen(document), password@),
{
    match check_response_code(status, body) {
        Ok(()) => {},
        Err(e) => {
            return Err(e);
        },
    }
    let identity = match document {
        Ok(i) => i,
        Err(e) => {
            return Err(e);
        },
    };
    match validate_identity(&identity) {
        Ok(()) => {},
        Err(e) => {
            return Err(e);
        },
    }
    match restore_secret_key_from_password(&identity, password) {
        Ok(key) => Ok(Context { root: root.to_owned(), identity, identity_key: Some(key) }),
        Err(e) => Err(e),
    }
}

/// The secret key in the decrypted content of a key file.
pub open spec fn key_text(plaintext: Seq<u8>) -> Result<Seq<u8>, ErrorV> {
    if !vstd::utf8::valid_utf8(plaintext) {
        Err(bare(Fault::KeyTextNotUtf8))
    } else {
        match decoded(trim(vstd::utf8::decode_utf8(plaintext), Trim::Space)) {
            Some(key) => Ok(key),
            None => Err(bare(Fault::KeyTextNotBase64)),
        }
    }
}

/// The secret key that was stored for a password, with the metadata of its file.
pub open spec fn pulled_key(ctx: ContextV, response: ResponseV) -> Result<(Seq<u8>, MetadataV), ErrorV> {
    if !is_success(response.status) {
        Err(http_error(response.status, response.body))
    } else {
        match metadata_of(response.headers) {
            Err(e) => Err(e),
            Ok(m) => match stream_decrypted(ctx, m, response.body) {
                Err(e) => Err(e),
                Ok(plaintext) => match key_text(plaintext) {
                    Err(e) => Err(e),
                    Ok(key) => Ok((key, m)),
                },
            },
        }
    }
}

/// Reads the secret key that was stored for a password, as the identity that the
/// password stands for.
pub fn pull_secret_key_with_password(ctx: &Context, response: &Response) -> (r: Result<(Vec<u8>, Metadata), Error>)
    requires
        ctx@.identity_key is Some,
    ensures
        (match r {
            Ok(p) => Ok((p.0@, p.1@)),
            Err(e) => Err(e@),
        }) == pulled_key(ctx@, response@),
{
    match check_response_code(response.status, &response.body) {
        Ok(()) => {},
        Err(e) => {
            return Err(e);
        },
    }
    let metadata = match read_metadata_headers(&response.headers) {
        Ok(m) => m,
        Err(e) => {
            return Err(e);
        },
    };
    let plaintext = match decrypt_stream(ctx, &metadata, &response.body) {
        Ok(p) => p,
        Err(e) => {
            return Err(e);
        },
    };
    let text = match utf8_text(&plaintext) {
        Some(t) => t,
        None => {
            return Err(fail(Fault::KeyTextNotUtf8));
        },
    };
    match decode_base64url(&trimmed(&text)) {
        Some(key) => Ok((key, metadata)),
        None => Err(fail(Fault::KeyTextNotBase64)),
    }
}

// What a new account uploads.

/// An upload of a new account: a path, who gains a role, and the algorithm that is
/// asked for.
#[derive(Debug)]
pub struct FirstUpload {
    pub path: String,
    pub permissions: Permissions,
    pub algorithm: Option<String>,
}

/// The view of an upload of a new account.
#[verifier::ext_equal]
pub struct FirstUploadV {
    pub path: Seq<char>,
    pub permissions: PermissionsV,
    pub algorithm: Option<Seq<char>>,
}

impl View for FirstUpload {
    type V = FirstUploadV;

    open spec fn view(&self) -> FirstUploadV {
        FirstUploadV { path: self.path@, permissions: self.permissions@, algorithm: opt_text(self.algorithm) }
    }
}

/// The views of uploads of a new account.
pub open spec fn first_view(list: Seq<FirstUpload>) -> Seq<FirstUploadV> {
    list.map_values(|u: FirstUpload| u@)
}

/// Who gains a role with one new reader.
pub open spec fn read_by(address: Seq<char>) -> PermissionsV {
    PermissionsV { readers: seq![address], ..no_permissions() }
}

/// The upload of the secret key, which the identity that a password stands for may
/// read, and which is encrypted.
pub open spec fn key_upload(password_address: Seq<char>) -> FirstUploadV {
    FirstUploadV { path: "/.ark/identity.key"@, permissions: read_by(password_address), algorithm: None }
}

/// What a new account uploads, in this order: its identity, open to everyone and
/// not encrypted; the directory of its request log, to which the server's own
/// account may write; and where there is a password the identity that it stands
/// for, open to everyone and not encrypted, and the secret key.
pub open spec fn first_uploads(server: Seq<char>, password_address: Option<Seq<char>>) -> Seq<FirstUploadV> {
    let always = seq![
        FirstUploadV { path: "/.ark/identity.json"@, permissions: read_by("public"@), algorithm: Some("none"@) },
        FirstUploadV {
            path: "/.ark/requests/"@,
            permissions: PermissionsV { writers: seq![server], ..no_permissions() },
            algorithm: None,
        },
    ];
    match password_address {
        None => always,
        Some(address) => always + seq![
            FirstUploadV {
                path: "/.ark/passwords/primary.json"@,
                permissions: read_by("public"@),
                algorithm: Some("none"@),
            },
            key_upload(address),
        ],
    }
}

/// Lists what a new account uploads, given the address of the server's own account
/// and that of the identity that a password stands for, where there is one.
pub fn init_uploads(server: &str, password_address: Option<&str>) -> (r: Vec<FirstUpload>)
    ensures
        first_view(r@) == first_uploads(server@, opt_str(password_address)),
{
    let mut list: Vec<FirstUpload> = Vec::new();
    list.push(
        FirstUpload {
            path: "/.ark/identity.json".to_owned(),
            permissions: reader("public"),
            algorithm: Some("none".to_owned()),
        },
    );
    list.push(FirstUpload { path: "/.ark/requests/".to_owned(), permissions: writer(server), algorithm: None });
    if let Some(address) = password_address {
        list.push(
            FirstUpload {
                path: "/.ark/passwords/primary.json".to_owned(),
                permissions: reader("public"),
                algorithm: Some("none".to_owned()),
            },
        );
        list.push(
            FirstUpload { path: "/.ark/identity.key".to_owned(), permissions: reader(address), algorithm: None },
        );
    }
    assert(first_view(list@) =~= first_uploads(server@, opt_str(password_address)));
    list
}

/// What is uploaded of a new account's key file.
pub open spec fn key_job(secret: Seq<u8>, password_address: Seq<char>) -> JobV {
    let upload = key_upload(password_address);
    JobV {
        path: upload.path,
        body: Some(encode_utf8(key_file(secret))),
        permissions: upload.permissions,
        algorithm: upload.algorithm,
        existing: None,
        local: no_local(),
        metadata_only: false,
    }
}

/// A second client with the same password recovers the account: where the first
/// one made the identity that the password stands for and uploaded its secret key,
/// the second one, given the documents and the file that the server has, keeps the
/// same identity and reads the same secret key.
pub proof fn password_recovers_the_account(
    ctx: ContextV,
    dir: Seq<(Seq<char>, Result<IdentityV, ErrorV>)>,
    password: Seq<char>,
    stood_for: IdentityV,
    key: Tagged,
    now: Seq<char>,
    timestamp: nat,
    u: UploadV,
    root: Seq<char>,
    document: Seq<u8>,
    password_document: Seq<u8>,
    response: ResponseV,
)
    requires
        ctx.identity_key is Some,
        identity_valid(ctx.identity) is Ok,
        identity_of(key, password_address(ctx.identity.address), None) == Ok::<IdentityV, ErrorV>(stood_for),
        keys_match(key, stood_for.public_key),
        restored(stood_for.public_key, password) == Ok::<Tagged, ErrorV>(key),
        identity_valid(stood_for) is Ok,
        identity_at(ctx.identity, dir, stood_for.address) == Ok::<IdentityV, ErrorV>(stood_for),
        uploaded(ctx, dir, key_job(ctx.identity_key->0.value, stood_for.address), now, timestamp, u),
        is_success(response.status),
        metadata_of(response.headers) == Ok::<MetadataV, ErrorV>(u.metadata),
        response.body == u.body,
    ensures
        answered(ctx.identity.address, 200, document, Ok(ctx.identity)) == Ok::<OriginV, ErrorV>(
            OriginV::Pin { identity: ctx.identity },
        ),
        ({
            let second = ContextV { root, identity: stood_for, identity_key: Some(key) };
            &&& password_context(root, 200, password_document, Ok(stood_for), password) == Ok::<ContextV, ErrorV>(second)
            &&& pulled_key(second, response) == Ok::<(Seq<u8>, MetadataV), ErrorV>(
                (ctx.identity_key->0.value, u.metadata),
            )
        }),
{
    let second = ContextV { root, identity: stood_for, identity_key: Some(key) };
    let secret = ctx.identity_key->0.value;
    lemma_password_address(ctx.identity.address);
    assert(stood_for.address == password_address(ctx.identity.address));
    assert(own_keys(second));
    lemma_key_read(ctx, dir, secret, now, timestamp, u, second);
    lemma_key_text(secret);
}

proof fn lemma_password_address(account: Seq<char>)
    ensures
        password_address(account) != everyone(),
        password_address(account) != "public"@,
{
    reveal_strlit("/.ark/passwords/primary.json");
    reveal_strlit("*");
    reveal_strlit("public");
    assert(password_address(account).len() >= 28);
}

proof fn lemma_key_text(secret: Seq<u8>)
    ensures
        key_text(encode_utf8(key_file(secret))) == Ok::<Seq<u8>, ErrorV>(secret),
{
    broadcast use vstd::utf8::encode_utf8_decode_utf8;
    broadcast use vstd::utf8::encode_utf8_valid_utf8;

    key_file_round_trip(secret);
}

proof fn lemma_key_read(
    ctx: ContextV,
    dir: Seq<(Seq<char>, Result<IdentityV, ErrorV>)>,
    secret: Seq<u8>,
    now: Seq<char>,
    timestamp: nat,
    u: UploadV,
    second: ContextV,
)
    requires
        own_keys(second),
        second.identity.address != "public"@,
        identity_at(ctx.identity, dir, second.identity.address) == Ok::<IdentityV, ErrorV>(second.identity),
        uploaded(ctx, dir, key_job(secret, second.identity.address), now, timestamp, u),
    ensures
        stream_decrypted(second, u.metadata, u.body) == Ok::<Seq<u8>, ErrorV>(encode_utf8(key_file(secret))),
{
    let address = second.identity.address;
    let job = key_job(secret, address);
    let base = job.base(ctx.identity.address, now, u.metadata.id);
    let list = changed(base.members, job.permissions, base.encryption_algorithm is Some)->Ok_0;
    role_after_changes(base.members, job.permissions, base.encryption_algorithm is Some, address);
    assert(wire(job.permissions.readers[0]) == address);
    assert(mentions(job.permissions.readers, address));
    assert(!mentions(job.permissions.drops, address));
    lemma_placed(list, address);
    assert(job.encryption() == Some(DEFAULT_ENCRYPTION_ALGORITHM@));
    assert(body_uploaded(ctx, dir, list, false, encode_utf8(key_file(secret)), u.metadata, u.body));
    every_member_reads(ctx, dir, list, encode_utf8(key_file(secret)), u.metadata, u.body, second);
}

proof fn lemma_placed(members: Seq<MemberV>, address: Seq<char>)
    requires
        role(members, address) is Some,
    ensures
        member_at(members, address) is Some,
    decreases members.len(),
{
    if members.len() > 0 && members[0].address != address {
        let rest = members.skip(1);
        assert(role(rest, address) is Some);
        lemma_placed(rest, address);
    }
}

/// Another password is refused where its verifier is not the one of the identity,
/// and nothing is read with it.
pub proof fn other_passwords_are_refused(
    root: Seq<char>,
    status: u16,
    document: Seq<u8>,
    stood_for: IdentityV,
    password: Seq<char>,
)
    requires
        is_success(status),
        identity_valid(stood_for) is Ok,
        stood_for.public_key.algorithm == DEFAULT_PASSWORD_ALGORITHM@,
        stood_for.public_key.value.len() == PASSWORD_KEY_LEN,
        expanded(encode_utf8(password), stood_for.public_key.value.subrange(32, 48)) matches Ok(e) && e.0
            != stood_for.public_key.value.take(32),
    ensures
        password_context(root, status, document, Ok(stood_for), password) == Err::<ContextV, ErrorV>(
            bare(Fault::PasswordMismatch),
        ),
{
}

/// What the first initialisation of an account with a password leaves behind, where
/// the server did not know the account: an identity of its own with its secret key,
/// the identity that the password stands for, and the upload of the secret key.
pub open spec fn first_run(
    first: ContextV,
    dir: Seq<(Seq<char>, Result<IdentityV, ErrorV>)>,
    password: Seq<char>,
    stood_for: IdentityV,
    key: Tagged,
    now: Seq<char>,
    timestamp: nat,
    u: UploadV,
) -> bool {
    let address = first.identity.address;
    &&& started(first.root, address, true, false, false, false, timestamp) is Ok
    &&& first.identity_key matches Some(secret)
    &&& secret.algorithm == DEFAULT_SIGNING_ALGORITHM@
    &&& identity_of(secret, address, None) == Ok::<IdentityV, ErrorV>(first.identity)
    &&& identity_valid(first.identity) is Ok
    &&& identity_of(key, password_address(address), None) == Ok::<IdentityV, ErrorV>(stood_for)
    &&& keys_match(key, stood_for.public_key)
    &&& restored(stood_for.public_key, password) == Ok::<Tagged, ErrorV>(key)
    &&& identity_valid(stood_for) is Ok
    &&& identity_at(first.identity, dir, stood_for.address) == Ok::<IdentityV, ErrorV>(stood_for)
    &&& uploaded(first, dir, key_job(secret.value, stood_for.address), now, timestamp, u)
}

/// What a later initialisation with a password comes to, where the server knows the
/// account, given what it answers: the context that the files written here make.
pub open spec fn later_run(
    root: Seq<char>,
    address: Seq<char>,
    password: Seq<char>,
    timestamp: nat,
    document: Result<IdentityV, ErrorV>,
    stood_for: Result<IdentityV, ErrorV>,
    response: ResponseV,
) -> Result<ContextV, ErrorV> {
    match started(root, address, true, false, false, false, timestamp) {
        Err(e) => Err(e),
        Ok(_) => match answered(address, 200, Seq::empty(), document) {
            Err(e) => Err(e),
            Ok(origin) => match password_context(root, 200, Seq::empty(), stood_for, password) {
                Err(e) => Err(e),
                Ok(second) => match pulled_key(second, response) {
                    Err(e) => Err(e),
                    Ok((value, _)) => context_of(root, origin->identity, key_file(value)),
                },
            },
        },
    }
}

/// A later initialisation with the same password gives the identity and the secret
/// key of the first one: it reads the two documents, and the file with the secret key
/// from where the server stored it.
#[verifier::spinoff_prover]
pub proof fn later_runs_recover_the_first(
    first: ContextV,
    dir: Seq<(Seq<char>, Result<IdentityV, ErrorV>)>,
    password: Seq<char>,
    stood_for: IdentityV,
    key: Tagged,
    now: Seq<char>,
    timestamp: nat,
    u: UploadV,
    root: Seq<char>,
    later: nat,
    attributes: Seq<(Seq<char>, Seq<u8>)>,
    above: Seq<Result<Seq<(Seq<char>, Seq<u8>)>, ErrorV>>,
    file: Seq<char>,
)
    requires
        first_run(first, dir, password, stood_for, key, now, timestamp, u),
        tidy(u.metadata),
        u.metadata.members.len() <= usize::MAX,
        u.body.len() <= usize::MAX,
        forall|j: int| 0 <= j < attributes.len() ==> !"user.ark."@.is_prefix_of((#[trigger] attributes[j]).0),
    ensures
        ({
            let disk = DiskV {
                account: AccountV::Present { identity: first.identity },
                symlink: false,
                attributes: Ok(attributes + attribute_fields(u.metadata)),
                above,
                node: NodeV::File { size: u.body.len() as u64 },
            };
            &&& got(disk, file, None, true) matches ActionV::File { head, send }
            &&& response_read(head + u.body, false) matches Ok(response)
            &&& later_run(root, first.identity.address, password, later, Ok(first.identity), Ok(stood_for), response)
                == Ok::<ContextV, ErrorV>(ContextV { root, ..first })
        }),
{
    let account = AccountV::Present { identity: first.identity };
    let secret = first.identity_key->0;
    lemma_upload_owner(first, dir, key_job(secret.value, stood_for.address), now, timestamp, u);
    stored_file_is_read_back(u.metadata, attributes, u.body, file, account, above, false);
    let disk = DiskV {
        account,
        symlink: false,
        attributes: Ok(attributes + attribute_fields(u.metadata)),
        above,
        node: NodeV::File { size: u.body.len() as u64 },
    };
    let response = response_read(got(disk, file, None, true)->File_head + u.body, false)->Ok_0;
    password_recovers_the_account(
        first,
        dir,
        password,
        stood_for,
        key,
        now,
        timestamp,
        u,
        root,
        Seq::empty(),
        Seq::empty(),
        response,
    );
    key_file_round_trip(secret.value);
    reveal_strlit("argon2id-ed25519");
    reveal_strlit("ed25519");
    assert(DEFAULT_PASSWORD_ALGORITHM@.len() != DEFAULT_SIGNING_ALGORITHM@.len());
    assert(context_of(root, first.identity, key_file(secret.value)) == Ok::<ContextV, ErrorV>(
        ContextV { root, ..first },
    ));
}

/// A later initialisation with a password whose verifier is another one than that of
/// the first is refused before any secret key is read, whatever the server answers.
pub proof fn later_runs_need_the_password(
    first: ContextV,
    dir: Seq<(Seq<char>, Result<IdentityV, ErrorV>)>,
    password: Seq<char>,
    stood_for: IdentityV,
    key: Tagged,
    now: Seq<char>,
    timestamp: nat,
    u: UploadV,
    root: Seq<char>,
    later: nat,
    other: Seq<char>,
    response: ResponseV,
)
    requires
        first_run(first, dir, password, stood_for, key, now, timestamp, u),
        expanded(encode_utf8(other), stood_for.public_key.value.subrange(32, 48)) matches Ok(e) && e.0
            != stood_for.public_key.value.take(32),
    ensures
        later_run(root, first.identity.address, other, later, Ok(first.identity), Ok(stood_for), response) == Err::<
            ContextV,
            ErrorV,
        >(bare(Fault::PasswordMismatch)),
{
    other_passwords_are_refused(root, 200, Seq::empty(), stood_for, other);
}

// Contexts.

/// The nearest directory that holds an account, from the innermost outwards.
pub open spec fn nearest(dirs: Seq<(Seq<char>, bool)>) -> Result<Seq<char>, ErrorV>
    decreases dirs.len(),
{
    if dirs.len() == 0 {
        Err(bare(Fault::NoArkDir))
    } else if dirs[0].1 {
        Ok(dirs[0].0)
    } else {
        nearest(dirs.skip(1))
    }
}

/// The views of directories and whether they hold an account.
pub open spec fn dirs_view(dirs: Seq<(String, bool)>) -> Seq<(Seq<char>, bool)> {
    dirs.map_values(|d: (String, bool)| (d.0@, d.1))
}

/// Finds the nearest directory that holds an account, from the innermost
/// outwards.
pub fn find_root(dirs: &[(String, bool)]) -> (r: Result<String, Error>)
    ensures
        seen(r) == nearest(dirs_view(dirs@)),
{
    let n: usize = dirs.len();
    let mut i: usize = 0;
    let ghost all = dirs_view(dirs@);
    assert(all.skip(0) =~= all);
    while i < n
        invariant
            i <= n == dirs@.len(),
            all == dirs_view(dirs@),
            nearest(all.skip(i as int)) == nearest(all),
        decreases n - i,
    {
        assert(all.skip(i as int)[0] == (dirs@[i as int].0@, dirs@[i as int].1));
        if dirs[i].1 {
            return Ok(dirs[i].0.clone());
        }
        assert(all.skip(i as int).skip(1) =~= all.skip(i + 1));
        i = i + 1;
    }
    Err(fail(Fault::NoArkDir))
}

/// The context of an account, given its identity and its key file.
pub open spec fn context_of(root: Seq<char>, identity: IdentityV, content: Seq<char>) -> Result<ContextV, ErrorV> {
    match key_in(content) {
        Err(e) => Err(e),
        Ok(value) => Ok(
            ContextV {
                root,
                identity,
                identity_key: Some(Tagged { algorithm: identity.public_key.algorithm, value }),
            },
        ),
    }
}

/// Makes the context of an account, given its identity and its key file.
pub fn read_context(root: &str, identity: Identity, content: &str) -> (r: Result<Context, Error>)
    ensures
        seen(r) == context_of(root@, identity@, content@),
{
    let value = match read_identity_key(content) {
        Ok(k) => k,
        Err(e) => {
            return Err(e);
        },
    };
    let key = Key { algorithm: identity.public_key.algorithm.clone(), value };
    Ok(Context { root: root.to_owned(), identity, identity_key: Some(key) })
}

/// Makes the context in which a server works for an account: without its secret
/// key.
pub fn create_target_context(server_root: &str, name: &str, identity: Identity) -> (r: Context)
    ensures
        r@ == (ContextV { root: server_root@ + "/ark/"@ + name@, identity: identity@, identity_key: None }),
{
    Context { root: concat3(server_root, "/ark/", name), identity, identity_key: None }
}

/// The root of the server's own account.
pub open spec fn server_account_root(server_root: Seq<char>) -> Seq<char> {
    server_root + "/ark/"@ + "ark"@
}

/// Makes the context of the server's own account where it has none yet.
pub fn create_server_context(server_root: &str, host: &str) -> (r: Result<Context, Error>)
    ensures
        r matches Ok(ctx) ==> {
            &&& ctx@.root == server_account_root(server_root@)
            &&& ctx@.identity_key matches Some(key)
            &&& key.algorithm == DEFAULT_SIGNING_ALGORITHM@
            &&& key.value.len() == 32
            &&& identity_of(key, "ark@"@ + host@, None) == Ok::<IdentityV, ErrorV>(ctx@.identity)
            &&& keys_match(key, ctx@.identity.public_key)
            &&& identity_verified(ctx@.identity) is Ok
        },
        r matches Err(e) ==> e.fault == Fault::Random || exists|k: Tagged|
            k.algorithm == DEFAULT_SIGNING_ALGORITHM@ && k.value.len() == 32 && #[trigger] identity_of(
                k,
                "ark@"@ + host@,
                None,
            ) == Err::<IdentityV, ErrorV>(e@),
{
    match create_identity(&concat("ark@", host), None) {
        Ok((identity, key)) => Ok(
            Context { root: concat3(server_root, "/ark/", "ark"), identity, identity_key: Some(key) },
        ),
        Err(e) => Err(e),
    }
}

/// The metadata of a document that everyone may read, before it is signed.
pub open spec fn public_document(id: Seq<char>, now: Seq<char>, owner: Seq<char>, body: Seq<u8>) -> MetadataV {
    let fresh = new_metadata(id, now, owner, None);
    MetadataV {
        members: fresh.members.push(MemberV { address: everyone(), permission: Permission::Reader, key: None }),
        body_hash: hash_of(Some(body)),
        ..fresh
    }
}

/// Signs the document of an account's own identity as one that everyone may read.
///
/// The secret key of the account must be there.
pub fn publish_identity(ctx: &Context, body: &[u8], now: &str) -> (r: Result<Metadata, Error>)
    requires
        ctx@.identity_key is Some,
    ensures
        match r {
            Ok(m) => {
                let fresh = public_document(m@.id, now@, ctx@.identity.address, body@);
                &&& m@ == MetadataV { signature: m@.signature, ..fresh }
                &&& m@.id.len() == 36
                &&& json_signed(ctx@.identity_key->0, metadata_json(unsigned(fresh))) == Ok::<Tagged, ErrorV>(
                    m@.signature,
                )
            },
            Err(e) => exists|id: Seq<char>|
                json_signed(
                    ctx@.identity_key->0,
                    metadata_json(unsigned(#[trigger] public_document(id, now@, ctx@.identity.address, body@))),
                ) == Err::<Tagged, ErrorV>(e@),
        },
        r matches Ok(m) ==> forall|public: Tagged|
            public.algorithm != DEFAULT_ENCRYPTION_ALGORITHM@ && #[trigger] keys_match(ctx@.identity_key->0, public)
                ==> metadata_verified(public, m@, Some(body@)) is Ok,
{
    let secret = match &ctx.identity_key {
        Some(k) => k,
        None => {
            return Err(fail(Fault::SecretKeySize));
        },
    };
    let mut metadata = create_metadata(&ctx.identity.address, None, now);
    let ghost id = metadata@.id;
    let ghost before = metadata@.members;
    metadata.members.push(Member { address: "*".to_owned(), permission: Permission::Reader, key: None });
    proof {
        let expected = public_document(id, now@, ctx@.identity.address, body@);
        assert(metadata@.members =~= expected.members);
        assert(MetadataV { body_hash: hash_of(Some(body@)), ..metadata@ } =~= expected);
    }
    match sign_metadata(secret, &mut metadata, Some(body)) {
        Ok(()) => Ok(metadata),
        Err(e) => Err(e),
    }
}

} // verus!
