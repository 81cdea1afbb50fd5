//! Finding the identities of others.

use vstd::prelude::*;

use crate::error::{seen, Error, ErrorV};
use crate::http::{check_response_code, http_error, is_success};
use crate::identity::{address_parts, identity_valid, parse_address, validate_identity};
use crate::membership::copy_error;
use crate::text::{concat3, from_chars, same, to_chars};
use crate::types::{Identity, IdentityV};

verus! {

/// A text with every slash made an underscore.
pub open spec fn flattened(s: Seq<char>) -> Seq<char> {
    s.map_values(
        |c: char|
            if c == '/' {
                '_'
            } else {
                c
            },
    )
}

/// A text with every slash made an underscore.
pub fn flatten(s: &str) -> (r: String)
    ensures
        r@ == flattened(s@),
{
    let chars = to_chars(s);
    let n: usize = chars.len();
    let mut out: Vec<char> = Vec::new();
    let mut i: usize = 0;
    while i < n
        invariant
            i <= n == chars@.len(),
            chars@ == s@,
            out@.len() == i,
            forall|k: int| 0 <= k < i ==> out@[k] == flattened(s@)[k],
        decreases n - i,
    {
        out.push(
            if chars[i] == '/' {
                '_'
            } else {
                chars[i]
            },
        );
        i = i + 1;
    }
    assert(out@ =~= flattened(s@));
    from_chars(&out)
}

/// Where the identity of an address may be.
#[derive(Debug)]
pub struct Sources {
    /// The file of an account on the same server, from the directory of accounts.
    pub peer: String,
    /// The file in which the account keeps the identities of others.
    pub cache: String,
    /// The address of the document.
    pub document: String,
}

/// The view of where an identity may be.
#[verifier::ext_equal]
pub struct SourcesV {
    pub peer: Seq<char>,
    pub cache: Seq<char>,
    pub document: Seq<char>,
}

impl View for Sources {
    type V = SourcesV;

    open spec fn view(&self) -> SourcesV {
        SourcesV { peer: self.peer@, cache: self.cache@, document: self.document@ }
    }
}

/// The path of an identity's document: that of the address, or the usual one of
/// an account.
pub open spec fn document_path(path: Seq<char>) -> Seq<char> {
    if path.len() == 0 {
        "/.ark/identity.json"@
    } else {
        path
    }
}

/// Where the identity of an address may be.
pub open spec fn sources_of(address: Seq<char>) -> Result<SourcesV, ErrorV> {
    match address_parts(address) {
        Err(e) => Err(e),
        Ok((name, host, path)) => Ok(
            SourcesV {
                peer: "/"@ + name + document_path(path),
                cache: "/.ark/identities/"@ + flattened(address) + ".json"@,
                document: name + "@"@ + host + document_path(path),
            },
        ),
    }
}

/// Finds out where the identity of an address may be.
pub fn identity_sources(address: &str) -> (r: Result<Sources, Error>)
    ensures
        seen(r) == sources_of(address@),
{
    let (name, host, path) = match parse_address(address) {
        Ok(p) => p,
        Err(e) => {
            return Err(e);
        },
    };
    let tail = if path.as_str().is_empty() {
        "/.ark/identity.json".to_owned()
    } else {
        path
    };
    let peer = concat3("/", &name, &tail);
    let cache = concat3("/.ark/identities/", &flatten(address), ".json");
    let mut document = concat3(&name, "@", &host);
    document.append(&tail);
    Ok(Sources { peer, cache, document })
}

/// What reading a document came to.
#[derive(Debug)]
pub enum Stored {
    Missing,
    Present { identity: Identity },
    Broken { error: Error },
}

/// The view of what reading a document came to.
pub enum StoredV {
    Missing,
    Present { identity: IdentityV },
    Broken { error: ErrorV },
}

impl View for Stored {
    type V = StoredV;

    open spec fn view(&self) -> StoredV {
        match self {
            Stored::Missing => StoredV::Missing,
            Stored::Present { identity } => StoredV::Present { identity: identity@ },
            Stored::Broken { error } => StoredV::Broken { error: error@ },
        }
    }
}

/// What is known of the identity of an address.
#[derive(Debug)]
pub enum Resolution {
    /// It is this one.
    Known { identity: Identity },
    /// Its document has to be fetched.
    Fetch { sources: Sources },
    /// It cannot be found.
    Failed { error: Error },
}

/// The view of what is known of an identity.
pub enum ResolutionV {
    Known { identity: IdentityV },
    Fetch { sources: SourcesV },
    Failed { error: ErrorV },
}

impl View for Resolution {
    type V = ResolutionV;

    open spec fn view(&self) -> ResolutionV {
        match self {
            Resolution::Known { identity } => ResolutionV::Known { identity: identity@ },
            Resolution::Fetch { sources } => ResolutionV::Fetch { sources: sources@ },
            Resolution::Failed { error } => ResolutionV::Failed { error: error@ },
        }
    }
}

/// An identity that was read, if it can be used.
pub open spec fn usable(identity: IdentityV) -> ResolutionV {
    match identity_valid(identity) {
        Ok(_) => ResolutionV::Known { identity },
        Err(error) => ResolutionV::Failed { error },
    }
}

/// What the account's own copy of an identity says.
pub open spec fn from_cache(cached: StoredV, sources: SourcesV) -> ResolutionV {
    match cached {
        StoredV::Missing => ResolutionV::Fetch { sources },
        StoredV::Broken { error } => ResolutionV::Failed { error },
        StoredV::Present { identity } => usable(identity),
    }
}

/// What is known of the identity of an address: the account's own, that of an
/// account on the same server if it has the address, the one that the account
/// keeps, or nothing yet.
pub open spec fn resolved_identity(
    own: IdentityV,
    address: Seq<char>,
    peer: StoredV,
    cached: StoredV,
) -> ResolutionV {
    if address == own.address {
        ResolutionV::Known { identity: own }
    } else {
        match sources_of(address) {
            Err(error) => ResolutionV::Failed { error },
            Ok(sources) => match peer {
                StoredV::Missing => from_cache(cached, sources),
                StoredV::Broken { error } => ResolutionV::Failed { error },
                StoredV::Present { identity } => match identity_valid(identity) {
                    Err(error) => ResolutionV::Failed { error },
                    Ok(_) => if identity.address == address {
                        ResolutionV::Known { identity }
                    } else {
                        from_cache(cached, sources)
                    },
                },
            },
        }
    }
}

fn read_cache(cached: &Stored, sources: Sources) -> (r: Resolution)
    ensures
        r@ == from_cache(cached@, sources@),
{
    match cached {
        Stored::Missing => Resolution::Fetch { sources },
        Stored::Broken { error } => Resolution::Failed { error: copy_error(error) },
        Stored::Present { identity } => match validate_identity(identity) {
            Ok(()) => Resolution::Known { identity: identity.copy() },
            Err(error) => Resolution::Failed { error },
        },
    }
}

/// Finds out what is known of the identity of an address, given what is stored
/// for it.
pub fn resolve_identity(own: &Identity, address: &str, peer: &Stored, cached: &Stored) -> (r: Resolution)
    ensures
        r@ == resolved_identity(own@, address@, peer@, cached@),
{
    if same(address, &own.address) {
        return Resolution::Known { identity: own.copy() };
    }
    let sources = match identity_sources(address) {
        Ok(s) => s,
        Err(error) => {
            return Resolution::Failed { error };
        },
    };
    match peer {
        Stored::Missing => read_cache(cached, sources),
        Stored::Broken { error } => Resolution::Failed { error: copy_error(error) },
        Stored::Present { identity } => match validate_identity(identity) {
            Err(error) => Resolution::Failed { error },
            Ok(()) => if same(&identity.address, address) {
                Resolution::Known { identity: identity.copy() }
            } else {
                read_cache(cached, sources)
            },
        },
    }
}

/// What fetching a document came to.
pub open spec fn fetched_identity(
    status: u16,
    body: Seq<u8>,
    document: Result<IdentityV, ErrorV>,
) -> Result<IdentityV, ErrorV> {
    if !is_success(status) {
        Err(http_error(status, body))
    } else {
        match document {
            Err(e) => Err(e),
            Ok(identity) => match identity_valid(identity) {
                Err(e) => Err(e),
                Ok(_) => Ok(identity),
            },
        }
    }
}

/// Reads the response to a request for a document, given what its body was parsed
/// to. The document of an identity that is accepted is kept.
pub fn accept_identity(status: u16, body: &[u8], document: Result<Identity, Error>) -> (r: Result<Identity, Error>)
    ensures
        seen(r) == fetched_identity(status, body@, seen(document)),
{
    match check_response_code(status, body) {
        Ok(()) => {},
        Err(e) => {
            return Err(e);
        },
    }
    match document {
        Err(e) => Err(e),
        Ok(identity) => match validate_identity(&identity) {
            Ok(()) => Ok(identity),
            Err(e) => Err(e),
        },
    }
}

// Laws.

/// The account's own identity is never looked up.
pub proof fn own_identity_is_known(own: IdentityV, peer: StoredV, cached: StoredV)
    ensures
        resolved_identity(own, own.address, peer, cached) == (ResolutionV::Known { identity: own }),
{
}

/// An identity that is found for another account can be used.
pub proof fn found_identities_are_valid(own: IdentityV, address: Seq<char>, peer: StoredV, cached: StoredV)
    requires
        address != own.address,
    ensures
        resolved_identity(own, address, peer, cached) matches ResolutionV::Known { identity } ==> identity_valid(
            identity,
        ) is Ok,
{
}

} // verus!
