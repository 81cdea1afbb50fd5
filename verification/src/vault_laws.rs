//! What holds of what is uploaded, encrypted and started.

use vstd::prelude::*;

use crate::bootstrap::{
    answered, context_of, first_uploads, key_text, nearest, own_file, password_address, password_context,
    public_document, pulled_key, server_account_root, started, OriginV, StartV,
};
use crate::commands::{algorithm_name, body_recovered, got_by_command, PutV};
use crate::crypto::{decrypted, restored};
use crate::error::{ErrorV, Fault};
use crate::fields::{local_of, metadata_of, metadata_of_attributes};
use crate::http::ResponseV;
use crate::identity::{address_parts, identity_valid, key_in};
use crate::locate::client_url;
use crate::membership::{file_key, identity_at};
use crate::metadata::{member_at, signature_verified};
use crate::primitives::sha256_of;
use crate::sealing::{
    algorithm_or_default, carries_id, command_key, command_outcome, encrypt_refused, file_decrypted, local_after,
    source_metadata, stream_decrypted, DecryptArgsV,
};
use crate::types::{ContextV, IdentityV, MemberV, MetadataV, Permission, Tagged};
use crate::upload::{keyless, same_roles, upload_algorithm, upload_base, upload_hash, upload_key, upload_local, upload_query, upload_refused, JobV};

verus! {

// What is encrypted.

/// The file key of an account is what its own entry among the members holds, unwrapped
/// with its secret key. Without an entry there is none to be had.
#[verifier::rlimit(40)]
pub proof fn keys_are_found_in_the_own_entry(ctx: ContextV, members: Seq<MemberV>)
    ensures
        file_key(ctx, members) is Ok ==> member_at(members, ctx.identity.address) is Some,
        match member_at(members, ctx.identity.address) {
            Some(m) => match m.key {
                Some(key) => match decrypted(ctx.identity_key->0, key.value) {
                    Ok(value) => file_key(ctx, members) == Ok::<Option<Seq<u8>>, ErrorV>(Some(value)),
                    Err(e) => file_key(ctx, members) == Err::<Option<Seq<u8>>, ErrorV>(e),
                },
                None => file_key(ctx, members) == Ok::<Option<Seq<u8>>, ErrorV>(None),
            },
            None => file_key(ctx, members) matches Err(e) && e.fault == Fault::NoMemberDenied,
        },
{
}

/// A body is decrypted under the file key of the account, with the algorithm that the
/// metadata names, and only so.
pub proof fn bodies_are_decrypted_with_the_file_key(ctx: ContextV, m: MetadataV, ciphertext: Seq<u8>)
    ensures
        stream_decrypted(ctx, m, ciphertext) matches Ok(plaintext) ==> {
            &&& file_key(ctx, m.members) matches Ok(Some(value))
            &&& m.encryption_algorithm matches Some(algorithm)
            &&& decrypted(Tagged { algorithm, value }, ciphertext) == Ok::<Seq<u8>, ErrorV>(plaintext)
        },
        file_key(ctx, m.members) matches Ok(Some(value)) ==> (m.encryption_algorithm matches Some(algorithm) ==> (
        stream_decrypted(ctx, m, ciphertext) is Ok <==> decrypted(Tagged { algorithm, value }, ciphertext) is Ok)),
{
}

/// A file is encrypted in place where it is not encrypted yet: with the algorithm of its
/// metadata, or, where it has none, with the one asked for or the usual one.
#[verifier::rlimit(40)]
pub proof fn plain_files_are_encrypted(attributes: Seq<(Seq<char>, Seq<u8>)>, algorithm: Option<Seq<char>>)
    ensures
        encrypt_refused(attributes, algorithm) is None <==> {
            &&& local_of(attributes) matches Ok(local)
            &&& local.encrypted != Some(true)
            &&& carries_id(attributes) ==> algorithm is None && metadata_of_attributes(attributes) is Ok
            &&& !carries_id(attributes) ==> (algorithm is None || algorithm == Some("aes-256-gcm"@) || algorithm == Some(
                "ed25519"@,
            ))
        },
        algorithm_or_default(None) == "aes-256-gcm"@,
        algorithm matches Some(a) ==> algorithm_or_default(algorithm) == a,
{
}

/// A file is decrypted in place where it carries metadata and is not known to be
/// decrypted; it keeps the metadata, and what is remembered is the hash of its
/// plaintext.
pub proof fn encrypted_files_are_decrypted(
    ctx: ContextV,
    attributes: Seq<(Seq<char>, Seq<u8>)>,
    ciphertext: Seq<u8>,
)
    ensures
        file_decrypted(ctx, attributes, ciphertext) is Ok <==> {
            &&& carries_id(attributes)
            &&& local_of(attributes) matches Ok(local)
            &&& local.encrypted != Some(false)
            &&& metadata_of_attributes(attributes) matches Ok(m)
            &&& stream_decrypted(ctx, m, ciphertext) is Ok
        },
        file_decrypted(ctx, attributes, ciphertext) matches Ok(file) ==> {
            &&& metadata_of_attributes(attributes) == Ok::<MetadataV, ErrorV>(file.metadata)
            &&& stream_decrypted(ctx, file.metadata, ciphertext) == Ok::<Seq<u8>, ErrorV>(file.body)
            &&& file.local.encrypted == Some(false)
            &&& file.local.sync_hash == Some(sha256_of(file.body))
            &&& file.local.sync_modified == Some(file.metadata.modified)
        },
{
}

/// What is remembered of a file whose plaintext is known.
#[verifier::rlimit(40)]
pub proof fn plaintexts_are_remembered(encrypted: bool, plaintext: Seq<u8>, m: MetadataV)
    ensures
        local_after(encrypted, plaintext, m).encrypted == Some(encrypted),
        local_after(encrypted, plaintext, m).sync_hash == Some(sha256_of(plaintext)),
        local_after(encrypted, plaintext, m).sync_modified == Some(m.modified),
{
}

/// The command reads and writes the file that it works on in place, and otherwise the
/// input and the output; to name both is refused.
pub proof fn commands_work_on_the_named_file(
    ctx: ContextV,
    args: DecryptArgsV,
    attributes: Seq<(Seq<char>, Seq<u8>)>,
    ciphertext: Seq<u8>,
    now: Seq<char>,
    id: Seq<char>,
)
    ensures
        args.in_place is Some ==> args.source() == args.in_place && args.destination() == args.in_place,
        args.in_place is None ==> args.source() == args.input && args.destination() == args.output,
        args.in_place is Some && (args.input is Some || args.output is Some) ==> (command_outcome(
            ctx,
            args,
            attributes,
            ciphertext,
            now,
            id,
        ) matches Err(e) && e.fault == Fault::InPlace),
        command_outcome(ctx, args, attributes, ciphertext, now, id) matches Ok(d) ==> {
            &&& args.in_place is None || args.input is None && args.output is None
            &&& d.metadata.encryption_algorithm matches Some(algorithm)
            &&& command_key(ctx, args, d.metadata) matches Ok(value)
            &&& decrypted(Tagged { algorithm, value }, ciphertext) == Ok::<Seq<u8>, ErrorV>(d.plaintext)
            &&& d.local.encrypted == Some(false)
            &&& d.local.sync_hash == Some(sha256_of(d.plaintext))
            &&& source_metadata(ctx.identity.address, args, attributes, now, id) == Ok::<MetadataV, ErrorV>(d.metadata)
        },
{
}

/// What the command decrypts: whatever is not known to be decrypted, where there is metadata
/// with an algorithm, a key, and the body opens under it.
#[verifier::rlimit(40)]
pub proof fn commands_decrypt_what_they_can(
    ctx: ContextV,
    args: DecryptArgsV,
    attributes: Seq<(Seq<char>, Seq<u8>)>,
    ciphertext: Seq<u8>,
    now: Seq<char>,
    id: Seq<char>,
)
    ensures
        command_outcome(ctx, args, attributes, ciphertext, now, id) is Ok <==> {
            &&& args.in_place is None || args.input is None && args.output is None
            &&& source_metadata(ctx.identity.address, args, attributes, now, id) matches Ok(m)
            &&& args.source() is Some && carries_id(attributes) ==> (local_of(attributes) matches Ok(local)
                && local.encrypted != Some(false))
            &&& command_key(ctx, args, m) matches Ok(value)
            &&& m.encryption_algorithm matches Some(algorithm)
            &&& decrypted(Tagged { algorithm, value }, ciphertext) is Ok
        },
        args.source() is Some && carries_id(attributes) ==> source_metadata(
            ctx.identity.address,
            args,
            attributes,
            now,
            id,
        ) == metadata_of_attributes(attributes),
        !(args.source() is Some && carries_id(attributes)) ==> (match args.given_key() {
            Some(Ok(key)) => source_metadata(ctx.identity.address, args, attributes, now, id) matches Ok(m)
                && m.members.len() == 1 && m.members[0].address == ctx.identity.address && m.members[0].permission
                == Permission::Owner && m.encryption_algorithm == (match args.algorithm {
                Some(a) => Some(a),
                None => Some("aes-256-gcm"@),
            }) && (m.members[0].key matches Some(held) && held.value == key),
            _ => source_metadata(ctx.identity.address, args, attributes, now, id) is Err,
        }),
{
}

/// A key that is given is used before any other; otherwise the account's own entry
/// counts, with its file key as it stands or unwrapped.
pub proof fn given_keys_come_first(ctx: ContextV, args: DecryptArgsV, m: MetadataV)
    ensures
        args.given_key() matches Some(Ok(key)) ==> command_key(ctx, args, m) == Ok::<Seq<u8>, ErrorV>(key),
        args.given_key() matches Some(Err(e)) ==> command_key(ctx, args, m) == Err::<Seq<u8>, ErrorV>(e),
        args.key is None <==> args.given_key() is None,
        args.key is None ==> (match member_at(m.members, ctx.identity.address) {
            Some(own) => match own.key {
                Some(held) => command_key(ctx, args, m) == (if held.algorithm == "aes-256-gcm"@ {
                    Ok(held.value)
                } else {
                    decrypted(ctx.identity_key->0, held.value)
                }),
                None => command_key(ctx, args, m) is Err,
            },
            None => command_key(ctx, args, m) is Err,
        }),
{
}

// What is sent and fetched by command.

/// What is uploaded by command: the metadata that the file carries is taken up, and its
/// content is encrypted unless that is not wanted or it is encrypted already.
#[verifier::rlimit(40)]
pub proof fn commands_encrypt_plain_files(job: PutV)
    ensures
        job.input is None ==> job.existing() == Ok::<Option<MetadataV>, ErrorV>(None),
        job.input matches Some(attributes) ==> (!carries_id(attributes) ==> job.existing() == Ok::<
            Option<MetadataV>,
            ErrorV,
        >(None)),
        job.input matches Some(attributes) ==> (carries_id(attributes) ==> (match metadata_of_attributes(attributes) {
            Ok(m) => job.existing() == Ok::<Option<MetadataV>, ErrorV>(Some(m)),
            Err(e) => job.existing() == Err::<Option<MetadataV>, ErrorV>(e),
        })),
        job.existing() == Ok::<Option<MetadataV>, ErrorV>(None) ==> job.encrypting() == !job.no_encrypt,
        job.local() matches Ok(l) ==> (job.encrypting() <==> !job.no_encrypt && l.encrypted != Some(true)),
{
}

/// A download of the command is taken where it comes with `200` and is signed, for its
/// body, by the account that it names; decrypted where that is asked for.
pub proof fn commands_take_signed_files(
    ctx: ContextV,
    dir: Seq<(Seq<char>, Result<IdentityV, ErrorV>)>,
    response: ResponseV,
    decrypt: bool,
    m: MetadataV,
    modifier: IdentityV,
)
    requires
        response.status == 200,
        metadata_of(response.headers) == Ok::<MetadataV, ErrorV>(m),
        identity_at(ctx.identity, dir, m.modified_by) == Ok::<IdentityV, ErrorV>(modifier),
        signature_verified(modifier.public_key, m) is Ok,
        m.body_hash matches Some(hash) && hash.value == sha256_of(response.body),
    ensures
        ({
            let r = got_by_command(ctx, dir, response, decrypt);
            &&& !decrypt ==> (r matches Ok(g) && g.body == response.body)
            &&& decrypt ==> (r is Ok <==> body_recovered(ctx, m, response.body) is Ok)
            &&& decrypt ==> (r matches Ok(g) ==> body_recovered(ctx, m, response.body) == Ok::<Seq<u8>, ErrorV>(g.body))
            &&& r matches Ok(g) ==> g.metadata == m && g.local.encrypted == Some(
                m.encryption_algorithm is Some && !decrypt,
            ) && g.local.sync_hash is None && g.local.sync_modified is None
        }),
{
}

/// Nothing else is taken by the command.
#[verifier::rlimit(40)]
pub proof fn commands_take_nothing_else(
    ctx: ContextV,
    dir: Seq<(Seq<char>, Result<IdentityV, ErrorV>)>,
    response: ResponseV,
    decrypt: bool,
)
    ensures
        got_by_command(ctx, dir, response, decrypt) matches Ok(g) ==> {
            &&& response.status == 200
            &&& metadata_of(response.headers) == Ok::<MetadataV, ErrorV>(g.metadata)
            &&& identity_at(ctx.identity, dir, g.metadata.modified_by) matches Ok(modifier)
            &&& signature_verified(modifier.public_key, g.metadata) is Ok
            &&& g.metadata.body_hash matches Some(hash) && hash.value == sha256_of(response.body)
        },
        forall|m: MetadataV, body: Seq<u8>|
            (#[trigger] body_recovered(ctx, m, body)) is Ok ==> (member_at(m.members, ctx.identity.address) is Some
                && member_at(m.members, ctx.identity.address)->0.key is Some && (match decrypted(
                ctx.identity_key->0,
                member_at(m.members, ctx.identity.address)->0.key->0.value,
            ) {
                Ok(value) => decrypted(Tagged { algorithm: algorithm_name(m), value }, body) == body_recovered(
                    ctx,
                    m,
                    body,
                ),
                Err(_) => false,
            })),
{
}

// What is uploaded.

/// The algorithm of an upload: none for a directory or where that is asked for; what is
/// asked for; otherwise that of the file as it is, and the usual one for a new file.
pub proof fn uploads_keep_their_algorithm(algorithm: Option<Seq<char>>, existing: Option<MetadataV>)
    ensures
        upload_algorithm(true, algorithm, existing) is None,
        algorithm == Some("none"@) ==> upload_algorithm(false, algorithm, existing) is None,
        algorithm is Some && algorithm != Some("none"@) ==> upload_algorithm(false, algorithm, existing) == algorithm,
        algorithm is None && existing is None ==> upload_algorithm(false, algorithm, existing) == Some("aes-256-gcm"@),
        algorithm is None ==> (existing matches Some(m) ==> upload_algorithm(false, algorithm, existing)
            == m.encryption_algorithm),
{
}

/// An upload is refused where an algorithm is asked for that cannot be had, where only
/// metadata is to be sent of a file that has none, and where the account is no member.
#[verifier::rlimit(40)]
pub proof fn members_alone_upload(
    address: Seq<char>,
    is_dir: bool,
    algorithm: Option<Seq<char>>,
    existing: Option<MetadataV>,
    metadata_only: bool,
)
    ensures
        upload_refused(address, is_dir, algorithm, existing, metadata_only) is None <==> {
            &&& algorithm is Some ==> !is_dir && !metadata_only
            &&& metadata_only ==> existing is Some
            &&& existing matches Some(m) ==> member_at(m.members, address) is Some
        },
{
}

/// An upload starts from the metadata of the file as it is, or from new metadata of the
/// account; in either case with the algorithm of the upload.
pub proof fn uploads_continue_the_file(
    address: Seq<char>,
    is_dir: bool,
    algorithm: Option<Seq<char>>,
    existing: Option<MetadataV>,
    now: Seq<char>,
    id: Seq<char>,
)
    ensures
        ({
            let base = upload_base(address, is_dir, algorithm, existing, now, id);
            &&& base.encryption_algorithm == upload_algorithm(is_dir, algorithm, existing)
            &&& existing matches Some(m) ==> base.id == m.id && base.created == m.created && base.members == m.members
                && base.body_hash == m.body_hash
            &&& existing is None ==> base.id == id && base.created == now && base.modified_by == address
                && base.members.len() == 1 && base.members[0].address == address && base.members[0].permission
                == Permission::Owner && base.body_hash is None
        }),
{
}

/// What is remembered after an upload: the hash of what was uploaded, unless it was
/// encrypted already; and that it is not encrypted here where it was encrypted to be
/// sent.
#[verifier::rlimit(40)]
pub proof fn uploads_are_remembered(job: JobV, base: MetadataV, now: Seq<char>, body: Seq<u8>)
    ensures
        upload_local(job, now).sync_modified == Some(now),
        !job.metadata_only ==> (job.body matches Some(content) ==> upload_local(job, now).sync_hash == (if job.local.encrypted
            == Some(true) {
            None
        } else {
            Some(sha256_of(content))
        })),
        job.metadata_only || job.body is None ==> upload_local(job, now).sync_hash == job.local.sync_hash && upload_local(
            job,
            now,
        ).encrypted == job.local.encrypted,
        !job.metadata_only && job.body is Some && job.local.encrypted != Some(true) && upload_algorithm(
            false,
            job.algorithm,
            job.existing,
        ) is Some ==> upload_local(job, now).encrypted == Some(false),
        job.metadata_only ==> upload_hash(job, base, body) == base.body_hash,
        !job.metadata_only && job.body is None ==> upload_hash(job, base, body) is None,
        !job.metadata_only && job.body is Some ==> (upload_hash(job, base, body) matches Some(hash) && hash.value
            == sha256_of(body)),
        upload_query(true) == "relay=full&metadata"@,
        upload_query(false) == "relay=full"@,
{
}

/// Where only metadata is uploaded of an encrypted file, those who join are given its
/// key; otherwise there is none to give.
pub proof fn joiners_are_given_the_key(ctx: ContextV, base: MetadataV, metadata_only: bool)
    ensures
        metadata_only && base.encryption_algorithm is Some ==> upload_key(ctx, base, metadata_only) == file_key(
            ctx,
            base.members,
        ),
        !metadata_only || base.encryption_algorithm is None ==> upload_key(ctx, base, metadata_only) == Ok::<
            Option<Seq<u8>>,
            ErrorV,
        >(None),
{
}

/// Members without keys are the same members in the same order and roles.
#[verifier::rlimit(40)]
pub proof fn roles_stay_without_keys(members: Seq<MemberV>, others: Seq<MemberV>)
    ensures
        keyless(members).len() == members.len(),
        forall|i: int|
            0 <= i < members.len() ==> (#[trigger] keyless(members)[i]).address == members[i].address && keyless(
                members,
            )[i].permission == members[i].permission && keyless(members)[i].key is None,
        same_roles(members, others) <==> members.len() == others.len() && forall|i: int|
            0 <= i < members.len() ==> (#[trigger] members[i]).address == others[i].address && members[i].permission
                == others[i].permission,
{
    if same_roles(members, others) {
        assert(keyless(members).len() == keyless(others).len());
        assert forall|i: int| 0 <= i < members.len() implies (#[trigger] members[i]).address == others[i].address
            && members[i].permission == others[i].permission by {
            assert(keyless(members)[i] == keyless(others)[i]);
        }
    }
    if members.len() == others.len() && forall|i: int|
        0 <= i < members.len() ==> (#[trigger] members[i]).address == others[i].address && members[i].permission
            == others[i].permission {
        assert forall|i: int| 0 <= i < members.len() implies #[trigger] keyless(members)[i] == keyless(others)[i] by {
            assert(members[i].address == others[i].address);
        }
        assert(keyless(members) =~= keyless(others));
    }
}

// How an account is started.

/// An account is not started over one that is there. Without a server none is asked, and
/// there is no password; otherwise the server is asked for the identity.
pub proof fn accounts_are_started_once(
    root: Seq<char>,
    address: Seq<char>,
    has_password: bool,
    local_only: bool,
    has_identity: bool,
    has_key: bool,
    timestamp: nat,
)
    ensures
        ({
            let r = started(root, address, has_password, local_only, has_identity, has_key, timestamp);
            &&& has_identity || has_key ==> (r matches Err(e) && e.fault == Fault::FileExists)
            &&& !has_identity && !has_key && local_only ==> (r is Ok <==> !has_password)
            &&& r matches Ok(StartV::Local) ==> local_only
            &&& r is Ok && local_only ==> r->Ok_0 is Local
            &&& r is Ok && !local_only ==> r->Ok_0 is Ask
            &&& !has_identity && !has_key && !local_only && client_url(address, "/.ark/identity.json"@) is Err ==> r is Err
        }),
        own_file(root, address) == root + "/.ark/"@ + address,
        password_address(address) == address + "/.ark/passwords/primary.json"@,
        server_account_root(root) == root + "/ark/ark"@,
{
    reveal_strlit("/ark/ark");
    reveal_strlit("/ark/");
    reveal_strlit("ark");
    assert(server_account_root(root) =~= root + "/ark/ark"@);
}

/// A valid identity that the server has under the address is taken; where it has none the
/// account is made, with the server's own account on the same host; any other answer is
/// an error.
#[verifier::rlimit(40)]
pub proof fn known_accounts_are_taken_over(
    address: Seq<char>,
    status: u16,
    body: Seq<u8>,
    document: Result<IdentityV, ErrorV>,
)
    ensures
        ({
            let r = answered(address, status, body, document);
            &&& r matches Ok(OriginV::Pin { identity }) ==> 200 <= status < 300 && document == Ok::<IdentityV, ErrorV>(
                identity,
            ) && identity_valid(identity) is Ok && identity.address == address
            &&& 200 <= status < 300 && document is Ok && identity_valid(document->Ok_0) is Ok && document->Ok_0.address
                == address ==> r is Ok && r->Ok_0 is Pin
            &&& (status == 403 || status == 404) ==> (r is Ok <==> address_parts(address) is Ok)
            &&& r matches Ok(OriginV::Create { server }) ==> (status == 403 || status == 404) && (address_parts(address)
                matches Ok(parts) && server == "ark@"@ + parts.1)
            &&& !(200 <= status < 300) && status != 403 && status != 404 ==> (r matches Err(e) && e.fault == Fault::Http)
        }),
{
}

/// A password gives the context of the valid identity that it stands for, with the secret
/// key that it restores.
pub proof fn passwords_give_their_context(
    root: Seq<char>,
    status: u16,
    body: Seq<u8>,
    document: Result<IdentityV, ErrorV>,
    password: Seq<char>,
)
    ensures
        password_context(root, status, body, document, password) is Ok <==> 200 <= status < 300 && document is Ok
            && identity_valid(document->Ok_0) is Ok && restored(document->Ok_0.public_key, password) is Ok,
        password_context(root, status, body, document, password) matches Ok(c) ==> c.root == root && document == Ok::<
            IdentityV,
            ErrorV,
        >(c.identity) && (c.identity_key matches Some(key) && restored(c.identity.public_key, password) == Ok::<
            Tagged,
            ErrorV,
        >(key)),
{
}

/// The stored key is taken where the response means success, its metadata can be read and
/// its body decrypts to the text of a key.
#[verifier::rlimit(40)]
pub proof fn stored_keys_are_pulled(ctx: ContextV, response: ResponseV)
    ensures
        pulled_key(ctx, response) is Ok <==> 200 <= response.status < 300 && metadata_of(response.headers) is Ok
            && stream_decrypted(ctx, metadata_of(response.headers)->Ok_0, response.body) is Ok && key_text(
            stream_decrypted(ctx, metadata_of(response.headers)->Ok_0, response.body)->Ok_0,
        ) is Ok,
        pulled_key(ctx, response) matches Ok((key, m)) ==> metadata_of(response.headers) == Ok::<MetadataV, ErrorV>(m)
            && key_text(stream_decrypted(ctx, m, response.body)->Ok_0) == Ok::<Seq<u8>, ErrorV>(key),
{
}

/// The account that is worked in is the nearest one: the first directory that holds one.
pub proof fn nearest_accounts_are_found(dirs: Seq<(Seq<char>, bool)>, i: int)
    requires
        0 <= i <= dirs.len(),
        forall|j: int| 0 <= j < i ==> !(#[trigger] dirs[j]).1,
        i < dirs.len() ==> dirs[i].1,
    ensures
        i < dirs.len() ==> nearest(dirs) == Ok::<Seq<char>, ErrorV>(dirs[i].0),
        i == dirs.len() ==> (nearest(dirs) matches Err(e) && e.fault == Fault::NoArkDir),
    decreases dirs.len(),
{
    if i > 0 {
        let rest = dirs.skip(1);
        assert(!dirs[0].1);
        assert forall|j: int| 0 <= j < i - 1 implies !(#[trigger] rest[j]).1 by {
            assert(rest[j] == dirs[j + 1]);
        }
        if i < dirs.len() {
            assert(rest[i - 1] == dirs[i]);
        }
        nearest_accounts_are_found(rest, i - 1);
    }
}

/// The context of an account has its identity and the key in its key file, under the
/// algorithm of its public key.
#[verifier::rlimit(40)]
pub proof fn contexts_hold_the_stored_key(root: Seq<char>, identity: IdentityV, content: Seq<char>)
    ensures
        context_of(root, identity, content) is Ok <==> key_in(content) is Ok,
        context_of(root, identity, content) matches Ok(c) ==> c.root == root && c.identity == identity && (c.identity_key
            matches Some(key) && key.algorithm == identity.public_key.algorithm && key_in(content) == Ok::<Seq<u8>, ErrorV>(
            key.value,
        )),
{
}

/// A public document is owned by who writes it, and everyone may read it; it is not
/// encrypted and has the hash of its body.
pub proof fn documents_are_public(id: Seq<char>, now: Seq<char>, owner: Seq<char>, body: Seq<u8>)
    ensures
        ({
            let m = public_document(id, now, owner, body);
            &&& m.id == id
            &&& m.created == now
            &&& m.modified == now
            &&& m.modified_by == owner
            &&& m.encryption_algorithm is None
            &&& m.members.len() == 2
            &&& m.members[0].address == owner
            &&& m.members[0].permission == Permission::Owner
            &&& m.members[1].address == "*"@
            &&& m.members[1].permission == Permission::Reader
            &&& m.body_hash matches Some(hash) && hash.value == sha256_of(body)
        }),
{
}

/// A new account makes its identity and that of its password public, lets the server
/// write to its log, and its secret key is read by its password alone.
pub proof fn new_accounts_share_what_they_must(server: Seq<char>, password: Option<Seq<char>>)
    ensures
        ({
            let list = first_uploads(server, password);
            &&& list.len() == (if password is Some {
                4int
            } else {
                2
            })
            &&& list[0].path == "/.ark/identity.json"@
            &&& list[0].permissions.readers == seq!["public"@]
            &&& list[0].algorithm == Some("none"@)
            &&& list[1].path == "/.ark/requests/"@
            &&& list[1].permissions.writers == seq![server]
            &&& list[1].permissions.readers.len() == 0
            &&& password matches Some(address) ==> {
                &&& list[2].path == "/.ark/passwords/primary.json"@
                &&& list[2].permissions.readers == seq!["public"@]
                &&& list[2].algorithm == Some("none"@)
                &&& list[3].path == "/.ark/identity.key"@
                &&& list[3].permissions.readers == seq![address]
                &&& list[3].algorithm is None
            }
            &&& forall|i: int|
                0 <= i < list.len() ==> (#[trigger] list[i]).permissions.owners.len() == 0 && list[i].permissions.drops.len()
                    == 0 && (i != 1 ==> list[i].permissions.writers.len() == 0)
        }),
{
}

} // verus!
