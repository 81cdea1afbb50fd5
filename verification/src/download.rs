//! Downloading, listing and deleting files.

use vstd::prelude::*;

use crate::auth::{ark_request, ark_request_bytes};
use crate::error::{fail_with, message_of, seen, with, Error, ErrorV, Fault};
use crate::fields::{
    byte_pairs, carries_metadata, has_metadata_headers, metadata_of, metadata_of_attributes, read_metadata_attributes,
    read_metadata_headers,
};
use crate::http::{check_response_code, copy_headers, http_error, is_success, refused, Response, ResponseV};
use crate::locate::{client_url, resolve_client_url};
use crate::membership::{find_identity, identity_at, Directory};
use crate::metadata::{
    metadata_verified, opt_metadata, signature_verified, update_verified, validate_update,
    verify_metadata_signature,
};
use crate::primitives::{form_bytes, form_pair, sha256, sha256_of, UrlPartsV};
use crate::sealing::{decrypt_stream, stream_decrypted};
use crate::text::{concat3, copy_bytes, opt_str};
use crate::types::{
    pairs, Context, ContextV, IdentityV, LocalMetadata, LocalV, Metadata, MetadataV,
};

verus! {

// Requests.

/// The bytes of a request about a path, without a body.
pub open spec fn plain_request(
    ctx: ContextV,
    method: Seq<char>,
    path: Seq<char>,
    timestamp: nat,
) -> Result<Seq<u8>, ErrorV> {
    match client_url(ctx.identity.address, path) {
        Err(e) => Err(e),
        Ok(url) => ark_request_bytes(Some(ctx), method, url, Seq::empty(), Seq::empty(), timestamp),
    }
}

/// Makes a request about a path, without a body: to read it, to read its headers
/// or to remove it.
///
/// The secret key of the account must be there.
pub fn path_request(ctx: &Context, method: &str, path: &str, timestamp: u64) -> (r: Result<Vec<u8>, Error>)
    requires
        ctx@.identity_key is Some,
    ensures
        seen(r) == plain_request(ctx@, method@, path@, timestamp as nat),
{
    let url = match resolve_client_url(ctx, path) {
        Ok(u) => u,
        Err(e) => {
            return Err(e);
        },
    };
    let none: Vec<(String, String)> = Vec::new();
    let empty: Vec<u8> = Vec::new();
    assert(pairs(none@) =~= Seq::empty());
    assert(empty@ =~= Seq::empty());
    ark_request(Some(ctx), method, &url, &none, &empty, timestamp)
}

// Reading.

/// A file that was downloaded, as it is written to disk.
#[derive(Debug)]
pub struct Download {
    pub metadata: Metadata,
    pub local: LocalMetadata,
    pub body: Vec<u8>,
}

/// The view of a download.
#[verifier::ext_equal]
pub struct DownloadV {
    pub metadata: MetadataV,
    pub local: LocalV,
    pub body: Seq<u8>,
}

impl View for Download {
    type V = DownloadV;

    open spec fn view(&self) -> DownloadV {
        DownloadV { metadata: self.metadata@, local: self.local@, body: self.body@ }
    }
}

/// The body of a download: decrypted where that is asked for and it is
/// encrypted.
pub open spec fn final_body(ctx: ContextV, m: MetadataV, body: Seq<u8>, decrypt: bool) -> Result<Seq<u8>, ErrorV> {
    if decrypt && m.encryption_algorithm is Some {
        stream_decrypted(ctx, m, body)
    } else {
        Ok(body)
    }
}

/// The local metadata of a download: whether what is written is encrypted, and
/// where it is not its hash. A directory has no body of its own.
pub open spec fn download_local(m: MetadataV, body: Seq<u8>, decrypt: bool) -> LocalV {
    LocalV {
        encrypted: if m.body_hash is None {
            None
        } else {
            Some(m.encryption_algorithm is Some && !decrypt)
        },
        sync_hash: if m.body_hash is Some && (decrypt || m.encryption_algorithm is None) {
            Some(sha256_of(body))
        } else {
            None
        },
        sync_modified: Some(m.modified),
    }
}

/// What a response to a download comes to. The metadata must be signed by the
/// account that it names, belong to the body and, where there is a copy, continue
/// that.
pub open spec fn downloaded(
    ctx: ContextV,
    dir: Seq<(Seq<char>, Result<IdentityV, ErrorV>)>,
    path: Seq<char>,
    response: ResponseV,
    decrypt: bool,
    existing: Option<MetadataV>,
) -> Result<DownloadV, ErrorV> {
    if !is_success(response.status) {
        Err(http_error(response.status, response.body))
    } else if !carries_metadata(response.headers) {
        Err(with(Fault::NoMetadata, path))
    } else {
        match metadata_of(response.headers) {
            Err(e) => Err(e),
            Ok(m) => match identity_at(ctx.identity, dir, m.modified_by) {
                Err(e) => Err(with(Fault::Modifier, m.modified_by + ": "@ + message_of(e))),
                Ok(modifier) => match update_verified(
                    modifier.public_key,
                    m,
                    existing,
                    if m.body_hash is None {
                        None
                    } else {
                        Some(response.body)
                    },
                ) {
                    Err(e) => Err(e),
                    Ok(_) => match final_body(ctx, m, response.body, decrypt) {
                        Err(e) => Err(e),
                        Ok(body) => Ok(DownloadV { metadata: m, local: download_local(m, body, decrypt), body }),
                    },
                },
            },
        }
    }
}

/// Reads the response to a download.
///
/// The secret key of the account must be there.
pub fn get_stream(
    ctx: &Context,
    directory: &Directory,
    path: &str,
    response: &Response,
    decrypt: bool,
    existing_metadata: Option<&Metadata>,
) -> (r: Result<Download, Error>)
    requires
        ctx@.identity_key is Some,
    ensures
        seen(r) == downloaded(ctx@, directory@, path@, response@, decrypt, opt_metadata(existing_metadata)),
{
    match check_response_code(response.status, &response.body) {
        Ok(()) => {},
        Err(e) => {
            return Err(e);
        },
    }
    if !has_metadata_headers(&response.headers) {
        return Err(fail_with(Fault::NoMetadata, path.to_owned()));
    }
    let metadata = match read_metadata_headers(&response.headers) {
        Ok(m) => m,
        Err(e) => {
            return Err(e);
        },
    };
    let modifier = match find_identity(&ctx.identity, directory, &metadata.modified_by) {
        Ok(i) => i,
        Err(e) => {
            return Err(fail_with(Fault::Modifier, concat3(&metadata.modified_by, ": ", &e.message())));
        },
    };
    let is_dir = metadata.body_hash.is_none();
    let update_body: Option<&[u8]> = if is_dir {
        None
    } else {
        Some(&response.body)
    };
    match validate_update(&modifier.public_key, &metadata, existing_metadata, update_body) {
        Ok(()) => {},
        Err(e) => {
            return Err(e);
        },
    }
    let body = if decrypt && metadata.encryption_algorithm.is_some() {
        match decrypt_stream(ctx, &metadata, &response.body) {
            Ok(b) => b,
            Err(e) => {
                return Err(e);
            },
        }
    } else {
        copy_bytes(&response.body)
    };
    let local = LocalMetadata {
        encrypted: if is_dir {
            None
        } else {
            Some(metadata.encryption_algorithm.is_some() && !decrypt)
        },
        sync_hash: if !is_dir && (decrypt || metadata.encryption_algorithm.is_none()) {
            Some(sha256(&body))
        } else {
            None
        },
        sync_modified: Some(metadata.modified.clone()),
    };
    assert(local@ =~= download_local(metadata@, body@, decrypt));
    Ok(Download { metadata, local, body })
}

/// The metadata of a local copy, where it has any that can be read.
pub open spec fn copy_of(attributes: Seq<(Seq<char>, Seq<u8>)>) -> Option<MetadataV> {
    match metadata_of_attributes(attributes) {
        Ok(m) => Some(m),
        Err(_) => None,
    }
}

/// Reads the response to a download that is to take the place of a local copy
/// with the given attributes.
///
/// The secret key of the account must be there.
pub fn get(
    ctx: &Context,
    directory: &Directory,
    path: &str,
    response: &Response,
    decrypt: bool,
    attributes: &[(String, Vec<u8>)],
) -> (r: Result<Download, Error>)
    requires
        ctx@.identity_key is Some,
    ensures
        seen(r) == downloaded(ctx@, directory@, path@, response@, decrypt, copy_of(byte_pairs(attributes@))),
{
    match read_metadata_attributes(attributes) {
        Ok(existing) => get_stream(ctx, directory, path, response, decrypt, Some(&existing)),
        Err(_) => get_stream(ctx, directory, path, response, decrypt, None),
    }
}

/// Reads the response to a download that is to take the place of a local copy,
/// and decrypts it.
///
/// The secret key of the account must be there.
pub fn get_content(
    ctx: &Context,
    directory: &Directory,
    path: &str,
    response: &Response,
    attributes: &[(String, Vec<u8>)],
) -> (r: Result<Download, Error>)
    requires
        ctx@.identity_key is Some,
    ensures
        seen(r) == downloaded(ctx@, directory@, path@, response@, true, copy_of(byte_pairs(attributes@))),
{
    get(ctx, directory, path, response, true, attributes)
}

/// What a response to a request for headers comes to.
pub open spec fn headed(
    ctx: ContextV,
    dir: Seq<(Seq<char>, Result<IdentityV, ErrorV>)>,
    response: ResponseV,
) -> Result<(Seq<(Seq<char>, Seq<char>)>, MetadataV), ErrorV> {
    if response.status != 200 {
        Err(http_error(response.status, response.body))
    } else {
        match metadata_of(response.headers) {
            Err(e) => Err(e),
            Ok(m) => match identity_at(ctx.identity, dir, m.modified_by) {
                Err(e) => Err(e),
                Ok(modifier) => match signature_verified(modifier.public_key, m) {
                    Err(e) => Err(e),
                    Ok(_) => Ok((response.headers, m)),
                },
            },
        }
    }
}

/// Reads the response to a request for headers: the headers and the signed
/// metadata.
pub fn head(ctx: &Context, directory: &Directory, response: &Response) -> (r: Result<
    (Vec<(String, String)>, Metadata),
    Error,
>)
    ensures
        match r {
            Ok(h) => headed(ctx@, directory@, response@) == Ok::<(Seq<(Seq<char>, Seq<char>)>, MetadataV), ErrorV>(
                (pairs(h.0@), h.1@),
            ),
            Err(e) => headed(ctx@, directory@, response@) == Err::<(Seq<(Seq<char>, Seq<char>)>, MetadataV), ErrorV>(
                e@,
            ),
        },
{
    if response.status != 200 {
        return Err(refused(response.status, &response.body));
    }
    let metadata = match read_metadata_headers(&response.headers) {
        Ok(m) => m,
        Err(e) => {
            return Err(e);
        },
    };
    let modifier = match find_identity(&ctx.identity, directory, &metadata.modified_by) {
        Ok(i) => i,
        Err(e) => {
            return Err(e);
        },
    };
    match verify_metadata_signature(&modifier.public_key, &metadata) {
        Ok(()) => Ok((copy_headers(&response.headers), metadata)),
        Err(e) => Err(e),
    }
}

// Removing.

/// Reads the response to a request to remove a file.
pub fn delete(response: &Response) -> (r: Result<(), Error>)
    ensures
        r is Ok <==> response@.status == 204,
        r matches Err(e) ==> e@ == http_error(response@.status, response@.body),
{
    if response.status != 204 {
        Err(refused(response.status, &response.body))
    } else {
        Ok(())
    }
}

/// Reads the response to the command that removes a file.
pub fn cmd_delete(response: &Response) -> (r: Result<(), Error>)
    ensures
        r is Ok <==> response@.status == 204,
        r matches Err(e) ==> e@ == http_error(response@.status, response@.body),
{
    delete(response)
}

// Listing.

/// The URL of a listing, of names with a prefix if one is given.
pub open spec fn listing_url(url: UrlPartsV, prefix: Option<Seq<char>>) -> UrlPartsV {
    match prefix {
        None => url,
        Some(p) => UrlPartsV {
            query: Some(
                form_bytes(vstd::utf8::encode_utf8("prefix"@)) + "="@ + form_bytes(vstd::utf8::encode_utf8(p)),
            ),
            ..url
        },
    }
}

/// Makes a request for the entries of a directory, of those whose names start
/// with a prefix if one is given.
///
/// The secret key of the account must be there.
pub fn list_request(ctx: &Context, path: &str, prefix: Option<&str>, timestamp: u64) -> (r: Result<Vec<u8>, Error>)
    requires
        ctx@.identity_key is Some,
    ensures
        seen(r) == (match client_url(ctx@.identity.address, path@) {
            Err(e) => Err(e),
            Ok(url) => ark_request_bytes(
                Some(ctx@),
                "GET"@,
                listing_url(url, opt_str(prefix)),
                Seq::empty(),
                Seq::empty(),
                timestamp as nat,
            ),
        }),
{
    let mut url = match resolve_client_url(ctx, path) {
        Ok(u) => u,
        Err(e) => {
            return Err(e);
        },
    };
    let ghost found = url@;
    if let Some(p) = prefix {
        url.query = Some(form_pair("prefix", p));
    }
    assert(url@ =~= listing_url(found, opt_str(prefix)));
    let none: Vec<(String, String)> = Vec::new();
    let empty: Vec<u8> = Vec::new();
    assert(pairs(none@) =~= Seq::empty());
    assert(empty@ =~= Seq::empty());
    ark_request(Some(ctx), "GET", &url, &none, &empty, timestamp)
}

/// Reads the response to a request for the entries of a directory: the listing
/// as JSON, or nothing where there is no such directory.
pub fn list(response: &Response) -> (r: Result<Option<Vec<u8>>, Error>)
    ensures
        match r {
            Ok(None) => response@.status == 404,
            Ok(Some(body)) => response@.status == 200 && body@ == response@.body,
            Err(e) => response@.status != 404 && response@.status != 200 && e@ == http_error(
                response@.status,
                response@.body,
            ),
        },
{
    if response.status == 404 {
        return Ok(None);
    }
    if response.status != 200 {
        return Err(refused(response.status, &response.body));
    }
    Ok(Some(copy_bytes(&response.body)))
}

// Laws.

/// What was uploaded is what a download gives back, decrypted, where the
/// response carries the uploaded metadata and body.
pub proof fn download_returns_the_content(
    ctx: ContextV,
    dir: Seq<(Seq<char>, Result<IdentityV, ErrorV>)>,
    path: Seq<char>,
    response: ResponseV,
    m: MetadataV,
    modifier: IdentityV,
    plaintext: Seq<u8>,
)
    requires
        is_success(response.status),
        carries_metadata(response.headers),
        metadata_of(response.headers) == Ok::<MetadataV, ErrorV>(m),
        identity_at(ctx.identity, dir, m.modified_by) == Ok::<IdentityV, ErrorV>(modifier),
        metadata_verified(modifier.public_key, m, Some(response.body)) is Ok,
        m.encryption_algorithm is Some,
        stream_decrypted(ctx, m, response.body) == Ok::<Seq<u8>, ErrorV>(plaintext),
    ensures
        downloaded(ctx, dir, path, response, true, None) matches Ok(d) && d.body == plaintext && d.metadata == m,
{
}

/// A response whose body is not the one that its metadata was signed for is not
/// accepted.
pub proof fn changed_body_is_refused(
    ctx: ContextV,
    dir: Seq<(Seq<char>, Result<IdentityV, ErrorV>)>,
    path: Seq<char>,
    response: ResponseV,
    decrypt: bool,
    existing: Option<MetadataV>,
    m: MetadataV,
)
    requires
        metadata_of(response.headers) == Ok::<MetadataV, ErrorV>(m),
        m.body_hash matches Some(hash) && hash.value != sha256_of(response.body),
    ensures
        downloaded(ctx, dir, path, response, decrypt, existing) is Err,
{
}

/// A download that does not continue the local copy is not accepted: one with
/// another id, or an older one.
pub proof fn unrelated_download_is_refused(
    ctx: ContextV,
    dir: Seq<(Seq<char>, Result<IdentityV, ErrorV>)>,
    path: Seq<char>,
    response: ResponseV,
    decrypt: bool,
    existing: MetadataV,
    m: MetadataV,
)
    requires
        metadata_of(response.headers) == Ok::<MetadataV, ErrorV>(m),
        m.id != existing.id || crate::text::precedes(m.modified, existing.modified),
    ensures
        downloaded(ctx, dir, path, response, decrypt, Some(existing)) is Err,
{
}

} // verus!
