//! The commands that upload a file, download it and print its headers, with a
//! file that is named on the command line.

use vstd::prelude::*;

use crate::auth::{ark_request, ark_request_bytes, signature_holds};
use crate::crypto::{decrypt_bytes, decrypted, json_signed, keys_match, owned, DEFAULT_ENCRYPTION_ALGORITHM};
use crate::download::{head, headed};
use crate::error::{bare, fail, fail_with, message_of, seen, with, Error, ErrorV, Fault};
use crate::fields::{
    byte_pairs, header_fields, local_of, metadata_of, metadata_of_attributes, read_local_metadata_attributes,
    read_metadata_attributes, read_metadata_headers, write_metadata_headers,
};
use crate::http::{http_error, refused, Response, ResponseV};
use crate::json::metadata_json;
use crate::locate::{client_url, resolve_client_url};
use crate::membership::{find_identity, identity_at, Directory};
use crate::metadata::{
    get_member, hash_of, member_at, metadata_verified, new_metadata, sign_metadata, unsigned, verify_metadata,
};
use crate::primitives::{fits_cipher, UrlPartsV};
use crate::sealing::{
    body_key, carries_id, encrypt_stream, equipped, freshly_keyed, has_id, lemma_equipped, new_file, new_file_fault,
    new_stream_fault, own_keys_suffice_for_new_files, sealed_for, stream_decrypted, stream_fault,
};
use crate::text::copy_bytes;
use crate::types::{
    no_local, pairs, Context, ContextV, IdentityV, Key, LocalMetadata, LocalV, Metadata, MetadataV, Tagged,
};
use crate::upload::{lemma_sends, send_fault, upload_call};

verus! {

// Uploading.

/// What is to be uploaded: the attributes of a file or, of the standard input,
/// none, and the content.
pub struct PutV {
    pub path: Seq<char>,
    pub input: Option<Seq<(Seq<char>, Seq<u8>)>>,
    pub content: Seq<u8>,
    pub no_encrypt: bool,
}

impl PutV {
    /// The metadata that the file carries, if any.
    pub open spec fn existing(self) -> Result<Option<MetadataV>, ErrorV> {
        match self.input {
            Some(attributes) if carries_id(attributes) => match metadata_of_attributes(attributes) {
                Ok(m) => Ok(Some(m)),
                Err(e) => Err(e),
            },
            _ => Ok(None),
        }
    }

    /// What is kept of the file on this host alone: of a file without metadata,
    /// that it is not encrypted.
    pub open spec fn local(self) -> Result<LocalV, ErrorV> {
        match self.input {
            Some(attributes) if carries_id(attributes) => local_of(attributes),
            _ => Ok(LocalV { encrypted: Some(false), ..no_local() }),
        }
    }

    /// Whether the content is encrypted before it is sent.
    pub open spec fn encrypting(self) -> bool {
        !self.no_encrypt && (match self.local() {
            Ok(l) => l.encrypted != Some(true),
            Err(_) => false,
        })
    }
}

/// An upload of the command: what is sent, and what is written to the input file
/// once it was accepted, if anything is.
#[derive(Debug)]
pub struct Put {
    pub metadata: Metadata,
    pub local: LocalMetadata,
    /// The body that is sent.
    pub body: Vec<u8>,
    /// The bytes of the request.
    pub request: Vec<u8>,
    /// Whether the metadata is written to the input file.
    pub write_back: bool,
}

/// Whether metadata continues what the file carries, or was made for a file of the
/// account's own with a new file key.
pub open spec fn put_metadata(
    ctx: ContextV,
    dir: Seq<(Seq<char>, Result<IdentityV, ErrorV>)>,
    existing: Option<MetadataV>,
    now: Seq<char>,
    m: MetadataV,
) -> bool {
    let address = ctx.identity.address;
    match existing {
        Some(before) => {
            &&& member_at(before.members, address) is Some
            &&& m == MetadataV {
                modified: now,
                modified_by: address,
                body_hash: m.body_hash,
                signature: m.signature,
                ..before
            }
        },
        None => {
            let fresh = new_metadata(m.id, now, address, Some(DEFAULT_ENCRYPTION_ALGORITHM@));
            freshly_keyed(
                ctx,
                dir,
                MetadataV { body_hash: fresh.body_hash, signature: fresh.signature, ..m },
                DEFAULT_ENCRYPTION_ALGORITHM@,
                now,
            )
        },
    }
}

/// Whether an upload is right for what is to be uploaded.
pub open spec fn put_done(
    ctx: ContextV,
    dir: Seq<(Seq<char>, Result<IdentityV, ErrorV>)>,
    job: PutV,
    now: Seq<char>,
    timestamp: nat,
    m: MetadataV,
    local: LocalV,
    body: Seq<u8>,
    request: Seq<u8>,
    write_back: bool,
) -> bool {
    &&& job.existing() matches Ok(existing)
    &&& job.local() == Ok::<LocalV, ErrorV>(local)
    &&& put_metadata(ctx, dir, existing, now, m)
    &&& m.body_hash == hash_of(Some(body))
    &&& json_signed(ctx.identity_key->0, metadata_json(unsigned(m))) == Ok::<Tagged, ErrorV>(m.signature)
    &&& if job.encrypting() {
        sealed_for(ctx, m, body, job.content)
    } else {
        body == job.content
    }
    &&& client_url(ctx.identity.address, job.path) matches Ok(url)
    &&& ark_request_bytes(Some(ctx), "PUT"@, url, header_fields(m), body, timestamp) == Ok::<Seq<u8>, ErrorV>(request)
    &&& write_back == (job.input is Some && (!job.no_encrypt || existing is Some))
}

/// Whether metadata and a body are those of an upload before it is signed, whatever
/// the signature.
pub open spec fn put_draft(
    ctx: ContextV,
    dir: Seq<(Seq<char>, Result<IdentityV, ErrorV>)>,
    job: PutV,
    existing: Option<MetadataV>,
    now: Seq<char>,
    m: MetadataV,
    body: Seq<u8>,
) -> bool {
    &&& put_metadata(ctx, dir, existing, now, m)
    &&& m.body_hash == hash_of(Some(body))
    &&& if job.encrypting() {
        sealed_for(ctx, m, body, job.content)
    } else {
        body == job.content
    }
}

/// Why a draft cannot be sent to a path, if so: its metadata cannot be signed, the
/// path leads nowhere, or the request cannot be made.
pub open spec fn put_send_fault(
    ctx: ContextV,
    path: Seq<char>,
    m: MetadataV,
    body: Seq<u8>,
    timestamp: nat,
) -> Option<ErrorV> {
    match client_url(ctx.identity.address, path) {
        Ok(url) => send_fault(ctx, url, unsigned(m), body, timestamp),
        Err(e) => match json_signed(ctx.identity_key->0, metadata_json(unsigned(m))) {
            Err(x) => Some(x),
            Ok(_) => Some(e),
        },
    }
}

/// Whether an upload fails, and why: always where the file is not one of the
/// account's, otherwise only where its metadata cannot be made, its body not be
/// encrypted, or this very upload not be sent.
pub open spec fn put_fault(
    ctx: ContextV,
    dir: Seq<(Seq<char>, Result<IdentityV, ErrorV>)>,
    job: PutV,
    now: Seq<char>,
    timestamp: nat,
    e: ErrorV,
) -> bool {
    match job.existing() {
        Err(x) => e == x,
        Ok(existing) => match job.local() {
            Err(x) => e == x,
            Ok(_) => if existing matches Some(m) && member_at(m.members, ctx.identity.address) is None {
                e == bare(Fault::NoMemberEntry)
            } else {
                ||| existing is None && new_file_fault(ctx, dir, e)
                ||| job.encrypting() && (match existing {
                    Some(m) => stream_fault(ctx, m, job.content, e),
                    None => new_stream_fault(ctx, dir, DEFAULT_ENCRYPTION_ALGORITHM@, now, job.content, e),
                })
                ||| exists|m: MetadataV, body: Seq<u8>| #[trigger]
                    put_draft(ctx, dir, job, existing, now, m, body) && put_send_fault(
                        ctx,
                        job.path,
                        m,
                        body,
                        timestamp,
                    ) == Some(e)
            },
        },
    }
}

/// The view of optional attributes.
pub open spec fn opt_attributes(input: Option<&[(String, Vec<u8>)]>) -> Option<Seq<(Seq<char>, Seq<u8>)>> {
    match input {
        Some(list) => Some(byte_pairs(list@)),
        None => None,
    }
}

/// Makes an upload of a file, given its attributes and its content, or of the
/// standard input, which has no attributes. A file that carries metadata keeps its
/// file key.
///
/// Whoever knows the account by a matching public key accepts the request and the
/// metadata. The secret key of the account must be there.
pub fn cmd_put(
    ctx: &Context,
    directory: &Directory,
    path: &str,
    input: Option<&[(String, Vec<u8>)]>,
    content: &[u8],
    no_encrypt: bool,
    now: &str,
    timestamp: u64,
) -> (r: Result<Put, Error>)
    requires
        ctx@.identity_key is Some,
    ensures
        ({
            let job = PutV { path: path@, input: opt_attributes(input), content: content@, no_encrypt };
            match r {
                Ok(u) => put_done(
                    ctx@,
                    directory@,
                    job,
                    now@,
                    timestamp as nat,
                    u.metadata@,
                    u.local@,
                    u.body@,
                    u.request@,
                    u.write_back,
                ) && (job.encrypting() && u.metadata@.encryption_algorithm == Some(DEFAULT_ENCRYPTION_ALGORITHM@)
                    ==> stream_decrypted(ctx@, u.metadata@, u.body@) == Ok::<Seq<u8>, ErrorV>(content@)),
                Err(e) => put_fault(ctx@, directory@, job, now@, timestamp as nat, e@),
            }
        }),
        r matches Ok(u) ==> forall|public: Tagged|
            public.algorithm != DEFAULT_ENCRYPTION_ALGORITHM@ && #[trigger] keys_match(ctx@.identity_key->0, public)
                ==> metadata_verified(public, u.metadata@, Some(u.body@)) is Ok && signature_holds(
                ctx@,
                upload_call(client_url(ctx@.identity.address, path@)->Ok_0, u.body@),
                timestamp as nat,
                public,
            ),
{
    let ghost job = PutV { path: path@, input: opt_attributes(input), content: content@, no_encrypt };
    let secret = match &ctx.identity_key {
        Some(k) => k,
        None => {
            return Err(fail(Fault::SecretKeySize));
        },
    };
    let none: [(String, Vec<u8>); 0] = [];
    let (carried, attributes): (bool, &[(String, Vec<u8>)]) = match input {
        Some(list) => (has_id(list), list),
        None => (false, &none),
    };
    let mut metadata;
    let local;
    if carried {
        metadata = match read_metadata_attributes(attributes) {
            Ok(m) => m,
            Err(e) => {
                return Err(e);
            },
        };
        local = match read_local_metadata_attributes(attributes) {
            Ok(l) => l,
            Err(e) => {
                return Err(e);
            },
        };
        if get_member(&metadata.members, &ctx.identity.address).is_none() {
            return Err(fail(Fault::NoMemberEntry));
        }
    } else {
        metadata = match new_file(ctx, directory, None, now) {
            Ok(m) => m,
            Err(e) => {
                return Err(e);
            },
        };
        local = LocalMetadata { encrypted: Some(false), sync_hash: None, sync_modified: None };
        assert(local@ =~= LocalV { encrypted: Some(false), ..no_local() });
    }
    let ghost before = metadata@;
    let encrypting = local.encrypted != Some(true) && !no_encrypt;
    let body = if encrypting {
        match encrypt_stream(ctx, &metadata, content) {
            Ok(b) => b,
            Err(e) => {
                return Err(e);
            },
        }
    } else {
        copy_bytes(content)
    };
    metadata.modified = now.to_owned();
    metadata.modified_by = ctx.identity.address.clone();
    let ghost draft = MetadataV { body_hash: hash_of(Some(body@)), ..unsigned(metadata@) };
    proof {
        let fresh = new_metadata(draft.id, now@, ctx@.identity.address, Some(DEFAULT_ENCRYPTION_ALGORITHM@));
        if !carried {
            assert(MetadataV { body_hash: fresh.body_hash, signature: fresh.signature, ..draft } =~= before);
        }
        assert(body_key(ctx@, draft) == body_key(ctx@, before));
        assert(put_draft(ctx@, directory@, job, job.existing()->Ok_0, now@, draft, body@));
        assert(unsigned(draft) =~= draft);
    }
    match sign_metadata(secret, &mut metadata, Some(&body)) {
        Ok(()) => {
            assert(metadata@ =~= MetadataV { signature: metadata@.signature, ..draft });
        },
        Err(e) => {
            assert(put_send_fault(ctx@, path@, draft, body@, timestamp as nat) == Some(e@));
            return Err(e);
        },
    }
    let url = match resolve_client_url(ctx, path) {
        Ok(u) => u,
        Err(e) => {
            assert(put_send_fault(ctx@, path@, draft, body@, timestamp as nat) == Some(e@));
            return Err(e);
        },
    };
    let headers = write_metadata_headers(&metadata);
    let request = match ark_request(Some(ctx), "PUT", &url, &headers, &body, timestamp) {
        Ok(b) => b,
        Err(e) => {
            assert(put_send_fault(ctx@, path@, draft, body@, timestamp as nat) == Some(e@));
            return Err(e);
        },
    };
    let write_back = input.is_some() && (!no_encrypt || carried);
    Ok(Put { metadata, local, body, request, write_back })
}

/// Reads the answer to an upload of the command.
pub fn cmd_put_answer(response: &Response) -> (r: Result<(), Error>)
    ensures
        r is Ok <==> response@.status == 201 || response@.status == 204,
        r matches Err(e) ==> e@ == http_error(response@.status, response@.body),
{
    if response.status == 201 || response.status == 204 {
        Ok(())
    } else {
        Err(refused(response.status, &response.body))
    }
}

// Downloading.

/// A file that the command downloads, as it is written.
#[derive(Debug)]
pub struct Got {
    pub metadata: Metadata,
    pub local: LocalMetadata,
    pub body: Vec<u8>,
}

/// The view of a file that the command downloads.
#[verifier::ext_equal]
pub struct GotV {
    pub metadata: MetadataV,
    pub local: LocalV,
    pub body: Seq<u8>,
}

impl View for Got {
    type V = GotV;

    open spec fn view(&self) -> GotV {
        GotV { metadata: self.metadata@, local: self.local@, body: self.body@ }
    }
}

/// The algorithm of a file, or `none`.
pub open spec fn algorithm_name(m: MetadataV) -> Seq<char> {
    match m.encryption_algorithm {
        Some(a) => a,
        None => "none"@,
    }
}

/// The plaintext of a download, as the account decrypts it.
pub open spec fn body_recovered(ctx: ContextV, m: MetadataV, body: Seq<u8>) -> Result<Seq<u8>, ErrorV> {
    match member_at(m.members, ctx.identity.address) {
        None => Err(bare(Fault::NoMemberEntry)),
        Some(member) => match member.key {
            None => Err(bare(Fault::NoFileKey)),
            Some(wrapped) => match decrypted(ctx.identity_key->0, wrapped.value) {
                Err(e) => Err(e),
                Ok(value) => match decrypted(Tagged { algorithm: algorithm_name(m), value }, body) {
                    Err(e) => Err(with(Fault::MaybeUnencrypted, message_of(e))),
                    Ok(plaintext) => Ok(plaintext),
                },
            },
        },
    }
}

/// The local metadata of a file that the command downloads: whether what is
/// written is encrypted.
pub open spec fn got_local(m: MetadataV, decrypt: bool) -> LocalV {
    LocalV { encrypted: Some(m.encryption_algorithm is Some && !decrypt), ..no_local() }
}

/// What the response to a download of the command comes to.
pub open spec fn got_by_command(
    ctx: ContextV,
    dir: Seq<(Seq<char>, Result<IdentityV, ErrorV>)>,
    response: ResponseV,
    decrypt: bool,
) -> Result<GotV, ErrorV> {
    if response.status != 200 {
        Err(http_error(response.status, response.body))
    } else {
        match metadata_of(response.headers) {
            Err(e) => Err(e),
            Ok(m) => match identity_at(ctx.identity, dir, m.modified_by) {
                Err(e) => Err(e),
                Ok(modifier) => match metadata_verified(modifier.public_key, m, Some(response.body)) {
                    Err(e) => Err(e),
                    Ok(_) => match if decrypt {
                        body_recovered(ctx, m, response.body)
                    } else {
                        Ok(response.body)
                    } {
                        Err(e) => Err(e),
                        Ok(body) => Ok(GotV { metadata: m, local: got_local(m, decrypt), body }),
                    },
                },
            },
        }
    }
}

fn recover_body(ctx: &Context, metadata: &Metadata, body: &[u8]) -> (r: Result<Vec<u8>, Error>)
    requires
        ctx@.identity_key is Some,
    ensures
        seen(r) == body_recovered(ctx@, metadata@, body@),
{
    let secret = match &ctx.identity_key {
        Some(k) => k,
        None => {
            return Err(fail(Fault::SecretKeySize));
        },
    };
    let member = match get_member(&metadata.members, &ctx.identity.address) {
        Some(m) => m,
        None => {
            return Err(fail(Fault::NoMemberEntry));
        },
    };
    let wrapped = match &member.key {
        Some(k) => k,
        None => {
            return Err(fail(Fault::NoFileKey));
        },
    };
    let value = match decrypt_bytes(secret, &wrapped.value) {
        Ok(v) => v,
        Err(e) => {
            return Err(e);
        },
    };
    let algorithm = match &metadata.encryption_algorithm {
        Some(a) => a.clone(),
        None => "none".to_owned(),
    };
    match decrypt_bytes(&Key { algorithm, value }, body) {
        Ok(plaintext) => Ok(plaintext),
        Err(e) => Err(fail_with(Fault::MaybeUnencrypted, e.message())),
    }
}

/// Reads the response to a download of the command, and decrypts it if asked to.
///
/// The secret key of the account must be there.
pub fn cmd_get(ctx: &Context, directory: &Directory, response: &Response, decrypt: bool) -> (r: Result<Got, Error>)
    requires
        ctx@.identity_key is Some,
    ensures
        seen(r) == got_by_command(ctx@, directory@, response@, decrypt),
{
    if response.status != 200 {
        return Err(refused(response.status, &response.body));
    }
    let metadata = match read_metadata_headers(&response.headers) {
        Ok(m) => m,
        Err(e) => {
            return Err(e);
        },
    };
    let modifier = match find_identity(&ctx.identity, directory, &metadata.modified_by) {
        Ok(i) => i,
        Err(e) => {
            return Err(e);
        },
    };
    match verify_metadata(&modifier.public_key, &metadata, Some(&response.body)) {
        Ok(()) => {},
        Err(e) => {
            return Err(e);
        },
    }
    let body = if decrypt {
        match recover_body(ctx, &metadata, &response.body) {
            Ok(b) => b,
            Err(e) => {
                return Err(e);
            },
        }
    } else {
        copy_bytes(&response.body)
    };
    let encrypted = Some(metadata.encryption_algorithm.is_some() && !decrypt);
    let local = LocalMetadata { encrypted, sync_hash: None, sync_modified: None };
    assert(local@ =~= got_local(metadata@, decrypt));
    Ok(Got { metadata, local, body })
}

/// An equipped account can upload whatever fits the cipher to a path that leads to a
/// host, as a new file or over one that it is a member of and whose file key is good:
/// only randomness can then be wanting, or the canonical form of the metadata.
pub proof fn commanded_uploads_are_made(
    ctx: ContextV,
    dir: Seq<(Seq<char>, Result<IdentityV, ErrorV>)>,
    job: PutV,
    existing: Option<MetadataV>,
    now: Seq<char>,
    timestamp: nat,
    url: UrlPartsV,
    e: ErrorV,
)
    requires
        equipped(ctx),
        job.existing() == Ok::<Option<MetadataV>, ErrorV>(existing),
        job.local() is Ok,
        existing matches Some(m) ==> member_at(m.members, ctx.identity.address) is Some && (body_key(
            ctx,
            m,
        ) matches Ok(key) && owned(key)),
        fits_cipher(job.content),
        client_url(ctx.identity.address, job.path) == Ok::<UrlPartsV, ErrorV>(url),
        url.host is Some,
        put_fault(ctx, dir, job, now, timestamp, e),
    ensures
        e.fault == Fault::Random || e == bare(Fault::Canonicalize),
{
    lemma_equipped(ctx, dir);
    if new_stream_fault(ctx, dir, DEFAULT_ENCRYPTION_ALGORITHM@, now, job.content, e) {
        own_keys_suffice_for_new_files(ctx, dir, now, job.content, e);
    }
    if exists|m: MetadataV, body: Seq<u8>| #[trigger]
        put_draft(ctx, dir, job, existing, now, m, body) && put_send_fault(ctx, job.path, m, body, timestamp) == Some(
            e,
        ) {
        let (m, body) = choose|m: MetadataV, body: Seq<u8>| #[trigger]
            put_draft(ctx, dir, job, existing, now, m, body) && put_send_fault(ctx, job.path, m, body, timestamp)
                == Some(e);
        lemma_sends(ctx, url, unsigned(m), body, timestamp, e);
    }
}

/// What the command uploaded encrypted is what it downloads again, decrypted, where
/// the response carries the uploaded metadata and body.
pub proof fn command_reads_what_it_wrote(
    ctx: ContextV,
    dir: Seq<(Seq<char>, Result<IdentityV, ErrorV>)>,
    response: ResponseV,
    m: MetadataV,
    modifier: IdentityV,
    plaintext: Seq<u8>,
)
    requires
        response.status == 200,
        metadata_of(response.headers) == Ok::<MetadataV, ErrorV>(m),
        identity_at(ctx.identity, dir, m.modified_by) == Ok::<IdentityV, ErrorV>(modifier),
        metadata_verified(modifier.public_key, m, Some(response.body)) is Ok,
        stream_decrypted(ctx, m, response.body) == Ok::<Seq<u8>, ErrorV>(plaintext),
    ensures
        got_by_command(ctx, dir, response, true) matches Ok(file) && file.body == plaintext && file.metadata == m,
{
}

// Headers.

/// Headers as they are printed, each on a line.
pub open spec fn header_lines(list: Seq<(Seq<char>, Seq<char>)>) -> Seq<char>
    decreases list.len(),
{
    if list.len() == 0 {
        Seq::empty()
    } else {
        header_lines(list.drop_last()) + list.last().0 + ": "@ + list.last().1 + "\n"@
    }
}

/// What is printed of a response to a request for headers.
pub open spec fn headers_printed(
    ctx: ContextV,
    dir: Seq<(Seq<char>, Result<IdentityV, ErrorV>)>,
    response: ResponseV,
) -> Result<Seq<char>, ErrorV> {
    match headed(ctx, dir, response) {
        Ok(h) => Ok(header_lines(h.0)),
        Err(e) => Err(e),
    }
}

/// Reads the response to a request for headers, and gives what is printed.
pub fn head_io(ctx: &Context, directory: &Directory, response: &Response) -> (r: Result<String, Error>)
    ensures
        seen(r) == headers_printed(ctx@, directory@, response@),
{
    let headers = match head(ctx, directory, response) {
        Ok((h, _)) => h,
        Err(e) => {
            return Err(e);
        },
    };
    let ghost all = pairs(headers@);
    let mut out = String::new();
    let n: usize = headers.len();
    let mut i: usize = 0;
    assert(out@ =~= header_lines(all.take(0)));
    while i < n
        invariant
            i <= n == headers@.len(),
            all == pairs(headers@),
            out@ == header_lines(all.take(i as int)),
        decreases n - i,
    {
        assert(all.take(i + 1).drop_last() =~= all.take(i as int));
        assert(all.take(i + 1).last() == (headers@[i as int].0@, headers@[i as int].1@));
        out.append(&headers[i].0);
        out.append(": ");
        out.append(&headers[i].1);
        out.append("\n");
        i = i + 1;
    }
    assert(all.take(n as int) =~= all);
    Ok(out)
}

/// Reads the response to the command that prints headers, and gives what is
/// printed.
pub fn cmd_head(ctx: &Context, directory: &Directory, response: &Response) -> (r: Result<String, Error>)
    ensures
        seen(r) == headers_printed(ctx@, directory@, response@),
{
    head_io(ctx, directory, response)
}

} // verus!
