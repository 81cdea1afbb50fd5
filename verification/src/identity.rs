//! Identities: addresses, key pairs and the documents that publish them.

use vstd::prelude::*;

use crate::base64url::{decode_after_encode, decode_base64url, decoded, encode_base64url, encoded};
use crate::crypto::{
    create_secret_key, json_signed, json_verified, keys_match, owned, public_key, sign_json, to_public_key,
    verify_json, DEFAULT_ENCRYPTION_ALGORITHM, DEFAULT_SIGNING_ALGORITHM,
};
use crate::error::{bare, fail, fail_with, seen, with, Error, ErrorV, Fault};
use crate::json::{identity_json, write_identity_json};
use crate::number::{decimal, format_u64};
use crate::primitives::{parse_url, url_parts, UrlParts, UrlPartsV};
use crate::text::{concat, concat3, same, to_chars, trim, trimmed, Trim};
use crate::types::{no_signature, opt_texts, Identity, IdentityV, Key, Signature, Tagged};

verus! {

// Addresses.

/// The name, host and path that the parts of a URL give, with the port that is
/// given for the host, be it the usual one of the scheme or not.
pub open spec fn address_in(u: UrlPartsV, usual: Option<u16>) -> Result<(Seq<char>, Seq<char>, Seq<char>), ErrorV> {
    match u.host {
        Some(host) if u.username.len() > 0 => Ok(
            (
                u.username,
                match (u.port, usual) {
                    (Some(port), _) => host + ":"@ + decimal(port as nat),
                    (None, Some(port)) => host + ":"@ + decimal(port as nat),
                    (None, None) => host,
                },
                if u.path == "/"@ {
                    Seq::empty()
                } else {
                    u.path
                },
            ),
        ),
        _ => Err(bare(Fault::AddressForm)),
    }
}

/// The port of a URL, when the text is one and gives another port than the usual
/// one of its scheme.
pub open spec fn port_in(text: Seq<char>) -> Option<u16> {
    match url_parts(text) {
        Some(u) => u.port,
        None => None,
    }
}

/// The name, the host with its port when given, and the path of an address, which
/// is `<name>@<host>[:<port>][/<path>]`. The parts of a URL leave out the usual
/// port of its scheme, which is another one for `https` than for `http`, so that
/// one of the two tells any port that is given.
pub open spec fn address_parts(address: Seq<char>) -> Result<(Seq<char>, Seq<char>, Seq<char>), ErrorV> {
    match url_parts("https://"@ + address) {
        Some(u) => address_in(u, port_in("http://"@ + address)),
        None => Err(bare(Fault::InvalidAddress)),
    }
}

/// The name, host and path that the parts of a URL give, with the port that is
/// given for the host, which is in `usual` where the parts leave it out.
pub fn address_from_url(parts: &UrlParts, usual: Option<u16>) -> (r: Result<(String, String, String), Error>)
    ensures
        seen(r) == address_in(parts@, usual),
{
    let host = match &parts.host {
        Some(h) => h,
        None => {
            return Err(fail(Fault::AddressForm));
        },
    };
    if parts.username.as_str().is_empty() {
        return Err(fail(Fault::AddressForm));
    }
    let full = match (parts.port, usual) {
        (Some(port), _) => concat3(host, ":", &format_u64(port as u64)),
        (None, Some(port)) => concat3(host, ":", &format_u64(port as u64)),
        (None, None) => host.clone(),
    };
    let path = if same(&parts.path, "/") {
        String::new()
    } else {
        parts.path.clone()
    };
    Ok((parts.username.clone(), full, path))
}

/// Splits an address into name, host (with the port when given) and path. The
/// path is empty when the address omits one.
pub fn parse_address(address: &str) -> (r: Result<(String, String, String), Error>)
    ensures
        seen(r) == address_parts(address@),
{
    let usual = match parse_url(&concat("http://", address)) {
        Some(parts) => parts.port,
        None => None,
    };
    match parse_url(&concat("https://", address)) {
        Some(parts) => address_from_url(&parts, usual),
        None => Err(fail(Fault::InvalidAddress)),
    }
}

/// Whether a character may stand in an account name.
pub open spec fn name_char(c: char) -> bool {
    'a' <= c <= 'z' || '0' <= c <= '9' || c == '.' || c == '-' || c == '_'
}

/// Whether a name is an account name: 1 to 64 lower-case letters, digits, dots,
/// hyphens and underscores, and not dots alone.
pub open spec fn account_name(name: Seq<char>) -> bool {
    &&& 1 <= name.len() <= 64
    &&& forall|i: int| 0 <= i < name.len() ==> name_char(#[trigger] name[i])
    &&& exists|i: int| 0 <= i < name.len() && #[trigger] name[i] != '.'
}

/// Whether a name is an account name.
pub fn is_valid_account_name(name: &str) -> (r: bool)
    ensures
        r == account_name(name@),
{
    let chars = to_chars(name);
    let n: usize = chars.len();
    if n == 0 || n > 64 {
        return false;
    }
    let mut named = false;
    let mut i: usize = 0;
    while i < n
        invariant
            i <= n == chars@.len(),
            chars@ == name@,
            forall|k: int| 0 <= k < i ==> name_char(#[trigger] chars@[k]),
            named == exists|k: int| 0 <= k < i && #[trigger] chars@[k] != '.',
        decreases n - i,
    {
        let c: char = chars[i];
        if !(('a' <= c && c <= 'z') || ('0' <= c && c <= '9') || c == '.' || c == '-' || c == '_') {
            assert(!name_char(chars@[i as int]));
            return false;
        }
        if c != '.' {
            assert(chars@[i as int] != '.');
            named = true;
        }
        i = i + 1;
    }
    named
}

// Documents.

/// An identity without its signature, as it is signed.
pub open spec fn unsigned_identity(i: IdentityV) -> IdentityV {
    IdentityV { signature: no_signature(), ..i }
}

fn identity_for_signing(identity: &Identity) -> (r: Identity)
    ensures
        r@ == unsigned_identity(identity@),
{
    let mut r = identity.copy();
    r.signature = Signature::none();
    r
}

/// Whether an identity carries a valid signature of its own key.
pub open spec fn identity_verified(i: IdentityV) -> Result<(), ErrorV> {
    if json_verified(i.public_key, i.signature, identity_json(unsigned_identity(i))) is Ok {
        Ok(())
    } else {
        Err(bare(Fault::IdentitySignature))
    }
}

/// Checks the signature of an identity.
pub fn verify_identity(identity: &Identity) -> (r: Result<(), Error>)
    ensures
        seen(r) == identity_verified(identity@),
{
    let json = write_identity_json(&identity_for_signing(identity));
    match verify_json(&identity.public_key, &identity.signature, &json) {
        Ok(()) => Ok(()),
        Err(_) => Err(fail(Fault::IdentitySignature)),
    }
}

/// Signs an identity. With the secret key that matches the identity's own, the
/// result is a valid identity.
pub fn sign_identity(secret_key: &Key, identity: &mut Identity) -> (r: Result<(), Error>)
    ensures
        match r {
            Ok(_) => json_signed(secret_key@, identity_json(unsigned_identity(old(identity)@))) == Ok::<Tagged, ErrorV>(
                final(identity)@.signature,
            ) && final(identity)@ == (IdentityV { signature: final(identity)@.signature, ..old(identity)@ }),
            Err(e) => json_signed(secret_key@, identity_json(unsigned_identity(old(identity)@))) == Err::<
                Tagged,
                ErrorV,
            >(e@) && final(identity)@ == old(identity)@,
        },
        r is Ok && old(identity)@.public_key.algorithm != DEFAULT_ENCRYPTION_ALGORITHM@ && keys_match(
            secret_key@,
            old(identity)@.public_key,
        ) ==> identity_verified(final(identity)@) is Ok,
{
    let json = write_identity_json(&identity_for_signing(identity));
    match sign_json(secret_key, &json) {
        Ok(signature) => {
            identity.signature = signature;
            assert(identity@ =~= IdentityV { signature: identity@.signature, ..old(identity)@ });
            assert(unsigned_identity(identity@) =~= unsigned_identity(old(identity)@));
            Ok(())
        },
        Err(e) => Err(e),
    }
}

/// The signed identity of a secret key.
pub open spec fn identity_of(
    secret: Tagged,
    address: Seq<char>,
    members: Option<Seq<Seq<char>>>,
) -> Result<IdentityV, ErrorV> {
    match public_key(secret) {
        Ok(public) => {
            let blank = IdentityV { public_key: public, address, members, signature: no_signature() };
            match json_signed(secret, identity_json(blank)) {
                Ok(signature) => Ok(IdentityV { signature, ..blank }),
                Err(e) => Err(e),
            }
        },
        Err(e) => Err(e),
    }
}

/// The signed identity of a secret key. It is valid, and its key matches.
pub fn create_identity_with_key(secret_key: &Key, address: &str, members: Option<Vec<String>>) -> (r: Result<
    Identity,
    Error,
>)
    ensures
        seen(r) == identity_of(secret_key@, address@, opt_texts(members)),
        r matches Ok(i) ==> keys_match(secret_key@, i@.public_key) && owned(i@.public_key) && identity_verified(i@)
            is Ok,
{
    let public = match to_public_key(secret_key) {
        Ok(k) => k,
        Err(e) => {
            return Err(e);
        },
    };
    let mut identity = Identity { public_key: public, address: address.to_owned(), members, signature: Signature::none() };
    let ghost blank = identity@;
    proof {
        reveal_strlit("aes-256-gcm");
        reveal_strlit("ed25519");
        reveal_strlit("argon2id-ed25519");
        assert("aes-256-gcm"@.len() == 11 && "ed25519"@.len() == 7 && "argon2id-ed25519"@.len() == 16);
        assert(unsigned_identity(blank) =~= blank);
    }
    match sign_identity(secret_key, &mut identity) {
        Ok(()) => Ok(identity),
        Err(e) => Err(e),
    }
}

/// A fresh key pair and its signed identity. With members, the identity is a
/// group.
pub fn create_identity(address: &str, members: Option<Vec<String>>) -> (r: Result<(Identity, Key), Error>)
    ensures
        r matches Ok((i, k)) ==> k@.algorithm == DEFAULT_SIGNING_ALGORITHM@ && k@.value.len() == 32 && identity_of(
            k@,
            address@,
            opt_texts(members),
        ) == Ok::<IdentityV, ErrorV>(i@) && keys_match(k@, i@.public_key) && owned(i@.public_key)
            && identity_verified(i@) is Ok,
        r matches Err(e) ==> e.fault == Fault::Random || exists|k: Tagged|
            k.algorithm == DEFAULT_SIGNING_ALGORITHM@ && k.value.len() == 32 && #[trigger] identity_of(
                k,
                address@,
                opt_texts(members),
            ) == Err::<IdentityV, ErrorV>(e@),
{
    let secret = match create_secret_key(DEFAULT_SIGNING_ALGORITHM) {
        Ok(k) => k,
        Err(e) => {
            return Err(e);
        },
    };
    match create_identity_with_key(&secret, address, members) {
        Ok(identity) => Ok((identity, secret)),
        Err(e) => {
            assert(identity_of(secret@, address@, opt_texts(members)) == Err::<IdentityV, ErrorV>(e@));
            Err(e)
        },
    }
}

/// Whether an identity can be used: its address names an account, and its
/// signature is valid.
pub open spec fn identity_valid(i: IdentityV) -> Result<(), ErrorV> {
    match address_parts(i.address) {
        Err(e) => Err(e),
        Ok(parts) => if !account_name(parts.0) {
            Err(bare(Fault::InvalidAccountName))
        } else if identity_verified(i) is Err {
            Err(bare(Fault::SignatureInvalid))
        } else {
            Ok(())
        },
    }
}

/// Refuses an identity that cannot be used.
pub fn validate_identity(identity: &Identity) -> (r: Result<(), Error>)
    ensures
        seen(r) == identity_valid(identity@),
{
    let (name, _, _) = match parse_address(&identity.address) {
        Ok(parts) => parts,
        Err(e) => {
            return Err(e);
        },
    };
    if !is_valid_account_name(&name) {
        return Err(fail(Fault::InvalidAccountName));
    }
    match verify_identity(identity) {
        Ok(()) => Ok(()),
        Err(_) => Err(fail(Fault::SignatureInvalid)),
    }
}

/// Takes an identity that was read from a document, if it can be used.
pub fn read_identity(identity: Identity) -> (r: Result<Identity, Error>)
    ensures
        r matches Ok(i) ==> i == identity && identity_valid(identity@) is Ok,
        r matches Err(e) ==> identity_valid(identity@) == Err::<(), ErrorV>(e@),
{
    match validate_identity(&identity) {
        Ok(()) => Ok(identity),
        Err(e) => Err(e),
    }
}

// Key files.

/// The content of a key file: the key in base64url.
pub open spec fn key_file(key: Seq<u8>) -> Seq<char> {
    encoded(key)
}

/// The key in a key file.
pub open spec fn key_in(content: Seq<char>) -> Result<Seq<u8>, ErrorV> {
    match decoded(trim(content, Trim::Space)) {
        Some(b) => Ok(b),
        None => Err(bare(Fault::KeyFileNotBase64)),
    }
}

/// The key in a key file. White space around it does not matter.
pub fn read_identity_key(content: &str) -> (r: Result<Vec<u8>, Error>)
    ensures
        seen(r) == key_in(content@),
{
    match decode_base64url(&trimmed(content)) {
        Some(b) => Ok(b),
        None => Err(fail(Fault::KeyFileNotBase64)),
    }
}

/// The content of the key file at `path`, which must not be there yet.
pub fn write_identity_key_raw(path: &str, present: bool, key: &[u8]) -> (r: Result<String, Error>)
    ensures
        match r {
            Ok(content) => !present && content@ == key_file(key@),
            Err(e) => present && e@ == with(Fault::FileExists, path@),
        },
{
    if present {
        return Err(fail_with(Fault::FileExists, path.to_owned()));
    }
    Ok(encode_base64url(key))
}

/// The content of the key file at an account path, which must not be there
/// yet.
pub fn write_identity_key(path: &str, present: bool, key: &[u8]) -> (r: Result<String, Error>)
    ensures
        match r {
            Ok(content) => !present && content@ == key_file(key@),
            Err(e) => present && e@ == with(Fault::FileExists, path@),
        },
{
    write_identity_key_raw(path, present, key)
}

/// A key is read back unchanged from its key file.
pub proof fn key_file_round_trip(key: Seq<u8>)
    ensures
        key_in(key_file(key)) == Ok::<Seq<u8>, ErrorV>(key),
{
    decode_after_encode(key);
    lemma_encoded_not_trimmed(key);
}

/// An encoded key has no white space at either end.
proof fn lemma_encoded_not_trimmed(key: Seq<u8>)
    ensures
        trim(encoded(key), Trim::Space) == encoded(key),
{
    lemma_encoded_ends(key);
}

proof fn lemma_encoded_ends(b: Seq<u8>)
    ensures
        encoded(b).len() > 0 ==> !crate::text::is_space(encoded(b)[0]) && !crate::text::is_space(encoded(b).last()),
    decreases b.len(),
{
    if b.len() > 3 {
        lemma_encoded_ends(b.skip(3));
        let head = encoded(b).take(4);
        assert(encoded(b.skip(3)).len() > 0);
        assert(encoded(b).last() == encoded(b.skip(3)).last());
    } else if b.len() == 3 {
        assert(encoded(b.skip(3)).len() == 0);
    }
}

} // verus!
