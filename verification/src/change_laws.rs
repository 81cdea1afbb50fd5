//! What holds of files whose members or bodies change, and of the keys that go with them.

use vstd::prelude::*;

use crate::accounts::{identity_made, NewIdentity};
use crate::auth::ark_request_bytes;
use crate::commands::{put_done, PutV};
use crate::crypto::{
    aes_decrypted, decrypted, expanded, json_signed, keys_match, password_seed, public_key, restored, signed,
    unwrapped, verified,
};
use crate::error::ErrorV;
use crate::fields::{attributes_read, fields_read, header_fields, metadata_of, metadata_of_attributes};
use crate::identity::{identity_of, identity_valid};
use crate::json::metadata_json;
use crate::locate::client_url;
use crate::log::entry_in;
use crate::manage::{members_changed, shared_key};
use crate::membership::{holds_key, identity_at, joined};
use crate::metadata::{hash_of, member_at, unsigned};
use crate::paths::{is_name, joined_names, up_to_name};
use crate::permissions::{changed, mentions, place, role, role_after_changes};
use crate::primitives::{accepted, ed25519_public, ed25519_signature, sha256_of};
use crate::proposals::{acceptance_request, change_accepted, fetched_whole, member_lines, AcceptanceV};
use crate::sealing::{encrypted_file, sealed_for};
use crate::sync::{put_in, remote_change, sidecar, RemoteV};
use crate::text::{before, split, trim_back, Trim};
use crate::types::{permission_name, ContextV, IdentityV, LocalV, MemberV, MetadataV, Permission, PermissionsV, Tagged};
use crate::upload::{file_job, uploaded, JobV, UploadV};

verus! {

// Members.

/// Where members join, everyone stands where they are listed and may what is listed; who
/// was a member keeps what they hold, and who joins an encrypted file holds its key.
pub proof fn joiners_hold_the_key(
    own: IdentityV,
    dir: Seq<(Seq<char>, Result<IdentityV, ErrorV>)>,
    members: Seq<MemberV>,
    listed: Seq<MemberV>,
    after: Seq<MemberV>,
    key: Option<Seq<u8>>,
    i: int,
)
    requires
        joined(own, dir, members, listed, after, key),
        0 <= i < listed.len(),
    ensures
        after.len() == listed.len(),
        after[i].address == listed[i].address,
        after[i].permission == listed[i].permission,
        key is None ==> after[i].key == listed[i].key,
        (exists|j: int| 0 <= j < members.len() && (#[trigger] members[j]).address == listed[i].address) ==> after[i].key
            == listed[i].key,
        key is Some && (forall|j: int| 0 <= j < members.len() ==> (#[trigger] members[j]).address != listed[i].address)
            ==> holds_key(own, dir, listed[i].address, after[i].key, key->0),
{
    let address = listed[i].address;
    assert(after[i] == after[i]);
    if exists|j: int| 0 <= j < members.len() && (#[trigger] members[j]).address == address {
        let j = choose|j: int| 0 <= j < members.len() && (#[trigger] members[j]).address == address;
        lemma_placed(members, address, j);
    } else {
        crate::access_laws::strangers_are_not_found(members, address);
    }
}

proof fn lemma_placed(members: Seq<MemberV>, address: Seq<char>, j: int)
    requires
        0 <= j < members.len(),
        members[j].address == address,
    ensures
        place(members, address) < members.len(),
    decreases members.len(),
{
    if members[0].address != address {
        assert(members.skip(1)[j - 1] == members[j]);
        lemma_placed(members.skip(1), address, j - 1);
    }
}

/// Who holds a key holds what any matching secret key unwraps to it; everyone holds none.
#[verifier::rlimit(40)]
pub proof fn held_keys_are_unwrapped(
    own: IdentityV,
    dir: Seq<(Seq<char>, Result<IdentityV, ErrorV>)>,
    address: Seq<char>,
    held: Option<Tagged>,
    file_key: Seq<u8>,
    secret: Tagged,
)
    requires
        holds_key(own, dir, address, held, file_key),
    ensures
        address == "*"@ ==> held is None,
        address != "*"@ ==> {
            &&& identity_at(own, dir, address) matches Ok(identity)
            &&& held matches Some(key)
            &&& keys_match(secret, identity.public_key) ==> decrypted(secret, key.value) == Ok::<Seq<u8>, ErrorV>(file_key)
        },
{
}

/// Changing the members of a file changes nothing else of it but who changed it and when,
/// the hash that is given and the signature; and everyone may afterwards what the change
/// says.
pub proof fn only_members_are_changed(
    ctx: ContextV,
    dir: Seq<(Seq<char>, Result<IdentityV, ErrorV>)>,
    m: MetadataV,
    permissions: PermissionsV,
    now: Seq<char>,
    hash: Option<Tagged>,
    after: MetadataV,
    address: Seq<char>,
)
    requires
        members_changed(ctx, dir, m, permissions, now, hash, after),
    ensures
        after.id == m.id,
        after.created == m.created,
        after.modified == now,
        after.modified_by == ctx.identity.address,
        after.encryption_algorithm == m.encryption_algorithm,
        after.body_hash == hash,
        json_signed(ctx.identity_key->0, metadata_json(unsigned(after))) == Ok::<Tagged, ErrorV>(after.signature),
        role(after.members, address) == (if mentions(permissions.drops, address) {
            None
        } else if mentions(permissions.readers, address) {
            Some(Permission::Reader)
        } else if mentions(permissions.writers, address) {
            Some(Permission::Writer)
        } else if mentions(permissions.owners, address) {
            Some(Permission::Owner)
        } else {
            role(m.members, address)
        }),
{
    let key = shared_key(ctx, m)->Ok_0;
    let list = changed(m.members, permissions, m.encryption_algorithm is Some)->Ok_0;
    role_after_changes(m.members, permissions, m.encryption_algorithm is Some, address);
    assert forall|i: int| 0 <= i < list.len() implies (#[trigger] after.members[i]).address == list[i].address
        && after.members[i].permission == list[i].permission by {
        joiners_hold_the_key(ctx.identity, dir, m.members, list, after.members, key, i);
    }
    lemma_same_roles(list, after.members, address);
}

#[verifier::rlimit(40)]
proof fn lemma_same_roles(a: Seq<MemberV>, b: Seq<MemberV>, address: Seq<char>)
    requires
        a.len() == b.len(),
        forall|i: int|
            0 <= i < a.len() ==> (#[trigger] b[i]).address == a[i].address && b[i].permission == a[i].permission,
    ensures
        role(a, address) == role(b, address),
        place(a, address) == place(b, address),
    decreases a.len(),
{
    if a.len() > 0 {
        assert(b[0].address == a[0].address && b[0].permission == a[0].permission);
        if a[0].address != address {
            let x = a.skip(1);
            let y = b.skip(1);
            assert forall|i: int| 0 <= i < x.len() implies (#[trigger] y[i]).address == x[i].address && y[i].permission
                == x[i].permission by {
                assert(y[i] == b[i + 1] && x[i] == a[i + 1]);
            }
            lemma_same_roles(x, y, address);
            let at = place(x, address) as int;
            if at < x.len() {
                assert(x[at] == a[at + 1] && y[at] == b[at + 1]);
            }
        }
    }
}

/// An upload keeps the id and the time of making of what it continues, is of the account
/// and of now, is signed, and has the hash of the body that is sent with it.
#[verifier::rlimit(40)]
pub proof fn uploads_carry_what_they_send(
    ctx: ContextV,
    dir: Seq<(Seq<char>, Result<IdentityV, ErrorV>)>,
    job: JobV,
    now: Seq<char>,
    timestamp: nat,
    u: UploadV,
)
    requires
        uploaded(ctx, dir, job, now, timestamp, u),
    ensures
        job.existing matches Some(m) ==> u.metadata.id == m.id && u.metadata.created == m.created,
        job.existing is None ==> u.metadata.created == now,
        u.metadata.modified == now,
        u.metadata.modified_by == ctx.identity.address,
        json_signed(ctx.identity_key->0, metadata_json(unsigned(u.metadata))) == Ok::<Tagged, ErrorV>(
            u.metadata.signature,
        ),
        job.body is Some && !job.metadata_only ==> (u.metadata.body_hash matches Some(hash) && hash.value == sha256_of(
            u.body,
        )),
        job.body is None && !job.metadata_only ==> u.metadata.body_hash is None && u.body.len() == 0,
        job.metadata_only ==> u.body.len() == 0 && (job.existing matches Some(m) && u.metadata.body_hash == m.body_hash),
        job.body matches Some(content) ==> (!job.metadata_only && u.metadata.encryption_algorithm is None ==> u.body
            == content),
        client_url(ctx.identity.address, job.path) is Ok,
{
}

/// What is to be uploaded of a local file: its content, unless only metadata is, with the
/// metadata and the marks that it carries.
pub proof fn local_files_are_uploaded_as_they_are(
    path: Seq<char>,
    attributes: Seq<(Seq<char>, Seq<u8>)>,
    content: Option<Seq<u8>>,
    permissions: PermissionsV,
    algorithm: Option<Seq<char>>,
    metadata_only: bool,
)
    ensures
        file_job(path, attributes, content, permissions, algorithm, metadata_only) is Ok <==> crate::fields::local_of(
            attributes,
        ) is Ok && (crate::sealing::carries_id(attributes) ==> metadata_of_attributes(attributes) is Ok),
        file_job(path, attributes, content, permissions, algorithm, metadata_only) matches Ok(job) ==> {
            &&& job.path == path
            &&& job.body == (if metadata_only {
                None
            } else {
                content
            })
            &&& job.permissions == permissions
            &&& job.algorithm == algorithm
            &&& job.metadata_only == metadata_only
            &&& crate::fields::local_of(attributes) == Ok::<LocalV, ErrorV>(job.local)
            &&& crate::sealing::carries_id(attributes) ==> (job.existing matches Some(m) && metadata_of_attributes(
                attributes,
            ) == Ok::<MetadataV, ErrorV>(m))
            &&& !crate::sealing::carries_id(attributes) ==> job.existing is None
        },
{
}

/// What the command uploads continues the metadata of the file, or is new, of the account
/// and of now; it is signed for the body that is sent, which is the content or its
/// encryption.
#[verifier::rlimit(40)]
pub proof fn commanded_uploads_are_signed(
    ctx: ContextV,
    dir: Seq<(Seq<char>, Result<IdentityV, ErrorV>)>,
    job: PutV,
    now: Seq<char>,
    timestamp: nat,
    m: MetadataV,
    local: LocalV,
    body: Seq<u8>,
    request: Seq<u8>,
    write_back: bool,
)
    requires
        put_done(ctx, dir, job, now, timestamp, m, local, body, request, write_back),
    ensures
        m.modified == now,
        m.modified_by == ctx.identity.address,
        m.body_hash matches Some(hash) && hash.value == sha256_of(body),
        json_signed(ctx.identity_key->0, metadata_json(unsigned(m))) == Ok::<Tagged, ErrorV>(m.signature),
        job.existing() matches Ok(Some(old_metadata)) ==> m.id == old_metadata.id && m.created == old_metadata.created
            && m.members == old_metadata.members && m.encryption_algorithm == old_metadata.encryption_algorithm
            && member_at(old_metadata.members, ctx.identity.address) is Some,
        job.existing() == Ok::<Option<MetadataV>, ErrorV>(None) ==> m.created == now && m.members.len() == 1
            && m.members[0].address == ctx.identity.address && m.members[0].permission == Permission::Owner,
        !job.encrypting() ==> body == job.content,
        job.encrypting() ==> sealed_for(ctx, m, body, job.content),
        client_url(ctx.identity.address, job.path) matches Ok(url) && ark_request_bytes(
            Some(ctx),
            "PUT"@,
            url,
            header_fields(m),
            body,
            timestamp,
        ) == Ok::<Seq<u8>, ErrorV>(request),
        job.input is None ==> !write_back,
        job.input is Some && !job.no_encrypt ==> write_back,
{
}

/// A file that is encrypted anew is signed for its encrypted body, one that carried
/// metadata keeps it; either is marked as encrypted.
pub proof fn encrypted_files_are_marked(
    ctx: ContextV,
    m: MetadataV,
    fresh: bool,
    plaintext: Seq<u8>,
    body: Seq<u8>,
)
    ensures
        encrypted_file(ctx, m, fresh, plaintext, body) matches Ok(file) ==> {
            &&& file.body == body
            &&& file.local.encrypted == Some(true)
            &&& file.local.sync_hash == Some(sha256_of(plaintext))
            &&& !fresh ==> file.metadata == m
            &&& fresh ==> (file.metadata.body_hash matches Some(hash) && hash.value == sha256_of(body)) && json_signed(
                ctx.identity_key->0,
                metadata_json(unsigned(file.metadata)),
            ) == Ok::<Tagged, ErrorV>(file.metadata.signature) && file.metadata.id == m.id && file.metadata.members
                == m.members
        },
        !fresh ==> encrypted_file(ctx, m, fresh, plaintext, body) is Ok,
{
    if fresh {
        if let Ok(file) = encrypted_file(ctx, m, fresh, plaintext, body) {
            let hashed = MetadataV { body_hash: hash_of(Some(body)), ..m };
            assert(unsigned(file.metadata) == unsigned(hashed));
        }
    }
}

// Keys and signatures.

/// A signature is valid where the key and it are of the same kind, the key of a password
/// also taking those of its Ed25519 key, and the Ed25519 key in it accepts the bytes.
pub proof fn signatures_are_checked_under_the_key(public: Tagged, signature: Tagged, bytes: Seq<u8>)
    ensures
        public.algorithm == "ed25519"@ ==> (verified(public, signature, bytes) is Ok <==> signature.algorithm
            == "ed25519"@ && signature.value.len() == 64 && accepted(public.value, signature.value, bytes)),
        public.algorithm == "argon2id-ed25519"@ && public.value.len() >= 80 ==> (verified(public, signature, bytes) is Ok
            <==> (signature.algorithm == "ed25519"@ || signature.algorithm == "argon2id-ed25519"@)
            && signature.value.len() == 64 && accepted(public.value.subrange(48, 80), signature.value, bytes)),
        public.algorithm != "ed25519"@ && public.algorithm != "argon2id-ed25519"@ ==> verified(public, signature, bytes)
            is Err,
{
    lemma_algorithms();
}

proof fn lemma_algorithms()
    ensures
        "ed25519"@ != "argon2id-ed25519"@,
        "ed25519"@ != "aes-256-gcm"@,
        "argon2id-ed25519"@ != "aes-256-gcm"@,
        "ed25519"@ != "hpke-x25519-hkdf-sha256-aes256gcm"@,
        "argon2id-ed25519"@ != "hpke-x25519-hkdf-sha256-aes256gcm"@,
        "aes-256-gcm"@ != "hpke-x25519-hkdf-sha256-aes256gcm"@,
{
    reveal_strlit("ed25519");
    reveal_strlit("argon2id-ed25519");
    reveal_strlit("aes-256-gcm");
    reveal_strlit("hpke-x25519-hkdf-sha256-aes256gcm");
    assert("ed25519"@.len() == 7);
    assert("argon2id-ed25519"@.len() == 16);
    assert("aes-256-gcm"@.len() == 11);
    assert("hpke-x25519-hkdf-sha256-aes256gcm"@.len() == 33);
}

/// An Ed25519 key signs as itself, one of a password as the Ed25519 key that it expands
/// to; no other key signs.
pub proof fn keys_sign_as_ed25519(secret: Tagged, bytes: Seq<u8>)
    ensures
        secret.algorithm == "ed25519"@ ==> (signed(secret, bytes) is Ok <==> secret.value.len() == 32),
        secret.algorithm == "ed25519"@ ==> (signed(secret, bytes) matches Ok(s) ==> s.value == ed25519_signature(
            secret.value,
            bytes,
        )),
        secret.algorithm == "argon2id-ed25519"@ ==> (signed(secret, bytes) matches Ok(s) ==> (password_seed(secret.value)
            matches Ok(seed) && s.value == ed25519_signature(seed, bytes))),
        secret.algorithm != "ed25519"@ && secret.algorithm != "argon2id-ed25519"@ ==> signed(secret, bytes) is Err,
        signed(secret, bytes) matches Ok(s) ==> s.algorithm == "ed25519"@,
{
    lemma_algorithms();
}

/// The public key of an Ed25519 key is its own; that of a password holds the verifier, the
/// salt and the Ed25519 key that the password expands to.
pub proof fn public_keys_belong_to_their_secret(secret: Tagged)
    ensures
        secret.algorithm == "ed25519"@ ==> (public_key(secret) is Ok <==> secret.value.len() == 32),
        secret.algorithm == "ed25519"@ ==> (public_key(secret) matches Ok(p) ==> p.algorithm == "ed25519"@ && p.value
            == ed25519_public(secret.value)),
        secret.algorithm == "argon2id-ed25519"@ ==> (public_key(secret) matches Ok(p) ==> p.algorithm
            == "argon2id-ed25519"@ && secret.value.len() >= 16 && (expanded(secret.value.skip(16), secret.value.take(16))
            matches Ok(e) && p.value == e.0 + secret.value.take(16) + ed25519_public(e.1))),
        secret.algorithm != "ed25519"@ && secret.algorithm != "argon2id-ed25519"@ ==> public_key(secret) is Err,
{
    lemma_algorithms();
}

/// What was encrypted is opened by the kind of the secret key: under a file key, or
/// unwrapped with an Ed25519 key or the one of a password; no other key opens anything.
pub proof fn secrets_open_by_their_kind(secret: Tagged, ciphertext: Seq<u8>)
    ensures
        secret.algorithm == "aes-256-gcm"@ ==> decrypted(secret, ciphertext) == aes_decrypted(secret.value, ciphertext),
        secret.algorithm == "ed25519"@ ==> decrypted(secret, ciphertext) == unwrapped(secret.value, ciphertext),
        secret.algorithm == "argon2id-ed25519"@ ==> (match password_seed(secret.value) {
            Ok(seed) => decrypted(secret, ciphertext) == unwrapped(seed, ciphertext),
            Err(_) => decrypted(secret, ciphertext) is Err,
        }),
        secret.algorithm != "aes-256-gcm"@ && secret.algorithm != "ed25519"@ && secret.algorithm != "argon2id-ed25519"@
            && secret.algorithm != "hpke-x25519-hkdf-sha256-aes256gcm"@ ==> decrypted(secret, ciphertext) is Err,
        ciphertext.len() < 12 ==> aes_decrypted(secret.value, ciphertext) is Err,
        ciphertext.len() < 32 ==> unwrapped(secret.value, ciphertext) is Err,
        secret.value.len() != 32 ==> aes_decrypted(secret.value, ciphertext) is Err,
{
    lemma_algorithms();
}

/// A password restores a secret key where it expands, with the salt in the public key, to
/// the verifier there; the key is that salt with the password.
#[verifier::rlimit(40)]
pub proof fn passwords_are_confirmed(public: Tagged, password: Seq<char>)
    ensures
        restored(public, password) is Ok <==> public.algorithm == "argon2id-ed25519"@ && public.value.len() == 80 && (match expanded(
            vstd::utf8::encode_utf8(password),
            public.value.subrange(32, 48),
        ) {
            Ok(e) => e.0 == public.value.take(32),
            Err(_) => false,
        }),
        restored(public, password) matches Ok(key) ==> key.algorithm == "argon2id-ed25519"@ && key.value
            == public.value.subrange(32, 48) + vstd::utf8::encode_utf8(password),
{
}

// Proposals, conflicts and the log.

/// What accepts a proposal is a signed `PUT` of the file as it is now, to the destination:
/// whole, and unchanged since the proposal as far as that is asked for.
pub proof fn acceptance_puts_the_file(
    ctx: ContextV,
    plan: AcceptanceV,
    current: MetadataV,
    body: Seq<u8>,
    force: bool,
    timestamp: nat,
)
    ensures
        acceptance_request(ctx, plan, current, body, force, timestamp) matches Ok(request) ==> {
            &&& fetched_whole(plan.dir, current, body) is Ok
            &&& force || change_accepted(plan.proposal.metadata, current, ctx.identity.address) is Ok
            &&& client_url(ctx.identity.address, plan.destination) matches Ok(url)
            &&& ark_request_bytes(
                Some(ctx),
                "PUT"@,
                url,
                header_fields(current),
                if plan.dir {
                    Seq::empty()
                } else {
                    body
                },
                timestamp,
            ) == Ok::<Seq<u8>, ErrorV>(request)
        },
        fetched_whole(plan.dir, current, body) is Ok && (force || change_accepted(
            plan.proposal.metadata,
            current,
            ctx.identity.address,
        ) is Ok) ==> (client_url(ctx.identity.address, plan.destination) matches Ok(url) ==> acceptance_request(
            ctx,
            plan,
            current,
            body,
            force,
            timestamp,
        ) == ark_request_bytes(
            Some(ctx),
            "PUT"@,
            url,
            header_fields(current),
            if plan.dir {
                Seq::empty()
            } else {
                body
            },
            timestamp,
        )),
{
}

/// Members are listed one to a line, in their order.
#[verifier::rlimit(40)]
pub proof fn members_are_listed_in_turn(a: Seq<MemberV>, b: Seq<MemberV>, m: MemberV)
    ensures
        member_lines(a + b) == member_lines(a) + member_lines(b),
        member_lines(seq![m]) == "\n  "@ + m.address + " = "@ + permission_name(m.permission),
    decreases b.len(),
{
    if b.len() == 0 {
        assert(a + b =~= a);
        assert(member_lines(a) + member_lines(b) =~= member_lines(a));
    } else {
        let whole = a + b;
        assert(whole.drop_last() =~= a + b.drop_last());
        assert(whole.last() == b.last());
        members_are_listed_in_turn(a, b.drop_last(), m);
        assert(member_lines(whole) =~= member_lines(a) + member_lines(b));
    }
    let one = seq![m];
    assert(one.drop_last() =~= Seq::empty());
    assert(member_lines(one.drop_last()) =~= Seq::<char>::empty());
    assert(Seq::<char>::empty() + "\n  "@ =~= "\n  "@);
}

/// Where both sides have changed, the copy of the server is written beside the file, under
/// its name with a mark and the time behind it.
#[verifier::rlimit(40)]
pub proof fn conflicts_lie_beside_the_file(path: Seq<char>, stamp: Seq<char>)
    requires
        forall|i: int| 0 <= i < split(path, '/').len() ==> is_name(#[trigger] split(path, '/')[i]),
        split(path, '/').last() != ".."@,
    ensures
        sidecar(path, stamp) == path + ".conflict-"@ + stamp,
{
    let parts = split(path, '/');
    let behind = ".conflict-"@ + stamp;
    crate::text_laws::splitting_is_undone(path, '/');
    assert(is_name(parts[parts.len() - 1]));
    assert(up_to_name(parts) == parts);
    let front = parts.drop_last();
    if front.len() > 0 {
        assert(is_name(parts[front.len() - 1]));
        assert(front.last() == parts[front.len() - 1]);
    }
    assert(up_to_name(front) == front);
    crate::paths::lemma_join_split(path);
    let name = parts.last();
    reveal_strlit("/");
    if front.len() == 0 {
        assert(parts.len() == 1);
        assert(path == name);
        assert(crate::paths::anchor(path) == Seq::<char>::empty()) by {
            assert(is_name(parts[0]));
            assert(!name.contains('/'));
            if path.len() > 0 && path[0] == '/' {
                assert(name.contains(path[0]));
            }
        }
        assert(Seq::<char>::empty() + (name + behind) =~= path + ".conflict-"@ + stamp);
    } else {
        let dir = joined_names(front);
        crate::plain_laws::names_are_joined_by_slashes(front, seq![name]);
        assert(front + seq![name] =~= parts);
        assert(path == dir + "/"@ + name);
        lemma_ends_in_name(front);
        assert(dir + "/"@ + (name + behind) =~= path + ".conflict-"@ + stamp);
    }
}

proof fn lemma_ends_in_name(parts: Seq<Seq<char>>)
    requires
        parts.len() > 0,
        is_name(parts.last()),
        !parts.last().contains('/'),
    ensures
        joined_names(parts).len() > 0,
        joined_names(parts).last() != '/',
{
    let last = parts.last();
    assert(last.len() > 0);
    assert(last.contains(last[last.len() - 1]));
    let whole = joined_names(parts);
    if parts.len() > 1 {
        assert(whole == joined_names(parts.drop_last()) + "/"@ + last);
    }
    assert(whole[whole.len() - 1] == last[last.len() - 1]);
}

/// A log entry says something of a file just where it is a write that was stored, below
/// the directory of the account.
pub proof fn stored_writes_alone_are_followed(b: Seq<u8>, account_prefix: Seq<char>)
    ensures
        match entry_in(b) {
            Err(_) => put_in(b, account_prefix) is Err,
            Ok(entry) => {
                let path = before(entry.target, '?');
                let counts = entry.method == "PUT"@ && (entry.status == 201 || entry.status == 204)
                    && account_prefix.is_prefix_of(path);
                &&& !counts ==> put_in(b, account_prefix) == Ok::<Option<(Seq<char>, MetadataV)>, ErrorV>(None)
                &&& counts && metadata_of(entry.request_headers) is Err ==> put_in(b, account_prefix) is Err
                &&& counts && metadata_of(entry.request_headers) is Ok ==> put_in(b, account_prefix) == Ok::<
                    Option<(Seq<char>, MetadataV)>,
                    ErrorV,
                >(
                    Some(
                        (
                            trim_back(path.skip(account_prefix.len() as int), Trim::Slash),
                            metadata_of(entry.request_headers)->Ok_0,
                        ),
                    ),
                )
            },
        },
{
}

/// A directory of another account that is here without metadata is taken over.
pub proof fn directories_without_metadata_are_taken_over(own: Seq<char>, r: RemoteV)
    requires
        r.metadata.modified_by != own,
        r.metadata.body_hash is None,
        !crate::sealing::carries_id(r.attributes),
    ensures
        remote_change(own, r) == Ok::<Option<(bool, bool)>, ErrorV>(Some((false, true))),
{
}

// New identities.

/// A new identity is a valid one of a fresh key at the address of its path, which everyone
/// may read; its secret key lies beside it, and its members may read that.
pub proof fn new_identities_are_shared(ctx: ContextV, path: Seq<char>, members: Seq<Seq<char>>, n: NewIdentity, x: Seq<char>)
    requires
        identity_made(ctx, path, members, n),
    ensures
        identity_valid(n.identity@) is Ok,
        n.identity@.address == n.address@,
        n.address@ == crate::accounts::address_of(ctx.identity.address, path),
        n.key_path@ == crate::accounts::key_path(path),
        keys_match(n.secret_key@, n.identity@.public_key),
        identity_of(n.secret_key@, n.address@, n.identity@.members) == Ok::<IdentityV, ErrorV>(n.identity@),
        n.key_permissions@.readers.contains(x) <==> members.contains(x) && x != ctx.identity.address,
        n.document_permissions@.readers.contains("public"@),
        n.document_permissions@.owners.len() == 0,
        n.document_permissions@.writers.len() == 0,
        n.key_permissions@.owners.len() == 0,
        n.key_permissions@.writers.len() == 0,
{
    crate::client_laws::new_groups_list_everyone_once(members, x);
    let listed = crate::accounts::group_members(members);
    if let Some(list) = listed {
        crate::client_laws::group_changes_are_shared(list, list, ctx.identity.address, x);
    } else {
        assert(members =~= Seq::empty());
    }
    assert(n.document_permissions@.readers[0] == "public"@);
}

// Attributes.

/// File attributes are read as the fields that they hold: where all of them have the
/// prefix of metadata and hold text, they stand for what the same fields stand for
/// elsewhere.
pub proof fn attributes_are_read_as_fields(list: Seq<(Seq<char>, Seq<u8>)>)
    requires
        forall|i: int|
            0 <= i < list.len() ==> "user.ark."@.is_prefix_of((#[trigger] list[i]).0) && vstd::utf8::valid_utf8(
                list[i].1,
            ),
    ensures
        attributes_read(list) == fields_read(
            list.map_values(|p: (Seq<char>, Seq<u8>)| (p.0, vstd::utf8::decode_utf8(p.1))),
        ),
        metadata_of_attributes(list) == metadata_of(
            list.map_values(|p: (Seq<char>, Seq<u8>)| (p.0, vstd::utf8::decode_utf8(p.1))),
        ),
    decreases list.len(),
{
    let texts = list.map_values(|p: (Seq<char>, Seq<u8>)| (p.0, vstd::utf8::decode_utf8(p.1)));
    if list.len() > 0 {
        let front = list.drop_last();
        assert forall|i: int| 0 <= i < front.len() implies "user.ark."@.is_prefix_of((#[trigger] front[i]).0)
            && vstd::utf8::valid_utf8(front[i].1) by {
            assert(front[i] == list[i]);
        }
        attributes_are_read_as_fields(front);
        assert(texts.drop_last() =~= front.map_values(
            |p: (Seq<char>, Seq<u8>)| (p.0, vstd::utf8::decode_utf8(p.1)),
        ));
        assert(list[list.len() - 1] == list.last());
    }
}

} // verus!
