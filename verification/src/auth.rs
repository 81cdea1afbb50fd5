//! Signed requests: what a client signs, and how a server checks it.

use vstd::prelude::*;
use vstd::utf8::encode_utf8;

use crate::base64url::{decode_after_encode, decode_base64url, decoded, encode_base64url, encoded, symbol};
use crate::crypto::{
    keys_match, sign_bytes, signed, verified, verify_bytes, DEFAULT_ENCRYPTION_ALGORITHM, DEFAULT_SIGNING_ALGORITHM,
};
use crate::error::{bare, fail, seen, Error, ErrorV, Fault};
use crate::http::{copy_headers, host_header, request_bytes, write_request};
use crate::membership::{find_identity, identity_at, Directory};
use crate::metadata::{get_member, member_at};
use crate::number::{decimal, decimal_round_trip, format_u64, is_digit, lemma_decimal, parse_up_to, parsed};
use crate::primitives::{UrlParts, UrlPartsV};
use crate::text::{
    after_prefix, append_bytes, concat3, copy_bytes, cut, find, first, from_chars, holds, is_space, lemma_first_is,
    lower, part, runs, same, same_ignoring_case, split, split_on, strip_prefix, to_chars, to_lower, trim, trim_back,
    trim_both, trim_front, Trim,
};
use crate::types::{
    members_view, pairs, rank_of, Context, ContextV, Identity, IdentityV, Member, MemberV, Permission, Signature,
    Tagged,
};

verus! {

/// How far apart, in seconds, the clocks of client and server may be.
pub const MAX_CLOCK_SKEW_SECS: u64 = 300;

/// What is signed of a request.
#[verifier::ext_equal]
pub struct CallV {
    pub method: Seq<char>,
    pub host: Seq<char>,
    pub path: Seq<char>,
    pub body: Seq<u8>,
}

/// The bytes that are signed for a request.
pub open spec fn signing_bytes(call: CallV, timestamp: nat) -> Seq<u8> {
    encode_utf8(call.method + "\n"@ + call.host + "\n"@ + call.path + "\n"@ + decimal(timestamp) + "\n"@) + call.body
}

/// The bytes that are signed for a request.
pub fn request_to_bytes(method: &str, host: &str, path: &str, timestamp: u64, body: &[u8]) -> (r: Vec<u8>)
    ensures
        r@ == signing_bytes(CallV { method: method@, host: host@, path: path@, body: body@ }, timestamp as nat),
{
    let mut text = concat3(method, "\n", host);
    text.append("\n");
    text.append(path);
    text.append("\n");
    text.append(&format_u64(timestamp));
    text.append("\n");
    let mut out = copy_bytes(text.as_str().as_bytes());
    append_bytes(&mut out, body);
    out
}

// What a client sends.

/// The `Authorization` header of a request.
pub open spec fn authorization(address: Seq<char>, timestamp: nat, signature: Seq<u8>) -> Seq<char> {
    "ArkAccount address=\""@ + address + "\", timestamp=\""@ + decimal(timestamp) + "\", signature=\""@ + encoded(
        signature,
    ) + "\""@
}

/// Whether an address can stand in an `Authorization` header.
pub open spec fn plain_address(address: Seq<char>) -> bool {
    &&& forall|i: int| 0 <= i < address.len() ==> #[trigger] address[i] != ','
    &&& address.len() > 0 ==> address[0] != '"' && address.last() != '"'
}

/// Whether two times are near enough to each other.
pub open spec fn in_window(now: nat, timestamp: nat) -> bool {
    -(MAX_CLOCK_SKEW_SECS as int) <= now - timestamp <= MAX_CLOCK_SKEW_SECS
}

/// Whether the signature that an account puts on a request is valid under a
/// public key.
pub open spec fn signature_holds(ctx: ContextV, call: CallV, timestamp: nat, public: Tagged) -> bool {
    signed(ctx.identity_key->0, signing_bytes(call, timestamp)) matches Ok(signature) && verified(
        public,
        header_signature(signature.value),
        signing_bytes(call, timestamp),
    ) is Ok
}

/// Signs a request in the name of an account. A server that knows the account by
/// a matching public key accepts it within the time window.
///
/// The secret key must be there.
pub fn sign_request(ctx: &Context, method: &str, host: &str, path: &str, timestamp: u64, body: &[u8]) -> (r: Result<
    String,
    Error,
>)
    requires
        ctx@.identity_key is Some,
    ensures
        seen(r) == signature_header(
            ctx@,
            CallV { method: method@, host: host@, path: path@, body: body@ },
            timestamp as nat,
        ),
        r matches Ok(value) ==> forall|own: IdentityV, dir: Seq<(Seq<char>, Result<IdentityV, ErrorV>)>, now: nat|
            {
                &&& plain_address(ctx@.identity.address)
                &&& identity_at(own, dir, ctx@.identity.address) matches Ok(identity)
                &&& identity.public_key.algorithm != DEFAULT_ENCRYPTION_ALGORITHM@
                &&& keys_match(ctx@.identity_key->0, identity.public_key)
                &&& in_window(now, timestamp as nat)
            } ==> #[trigger] authenticated(
                own,
                dir,
                value@,
                now,
                CallV { method: method@, host: host@, path: path@, body: body@ },
            ) == identity_at(own, dir, ctx@.identity.address),
        r is Ok ==> forall|public: Tagged|
            public.algorithm != DEFAULT_ENCRYPTION_ALGORITHM@ && #[trigger] keys_match(ctx@.identity_key->0, public)
                ==> signature_holds(
                ctx@,
                CallV { method: method@, host: host@, path: path@, body: body@ },
                timestamp as nat,
                public,
            ),
{
    let ghost call = CallV { method: method@, host: host@, path: path@, body: body@ };
    let bytes = request_to_bytes(method, host, path, timestamp, body);
    let key = match &ctx.identity_key {
        Some(k) => k,
        None => {
            return Err(fail(Fault::SecretKeySize));
        },
    };
    let signature = match sign_bytes(key, &bytes) {
        Ok(s) => s,
        Err(e) => {
            return Err(e);
        },
    };
    let mut out = concat3("ArkAccount address=\"", &ctx.identity.address, "\", timestamp=\"");
    out.append(&format_u64(timestamp));
    out.append("\", signature=\"");
    out.append(&encode_base64url(&signature.value));
    out.append("\"");
    proof {
        assert(out@ == authorization(ctx@.identity.address, timestamp as nat, signature@.value));
        assert forall|own: IdentityV, dir: Seq<(Seq<char>, Result<IdentityV, ErrorV>)>, now: nat|
            {
                &&& plain_address(ctx@.identity.address)
                &&& identity_at(own, dir, ctx@.identity.address) matches Ok(identity)
                &&& identity.public_key.algorithm != DEFAULT_ENCRYPTION_ALGORITHM@
                &&& keys_match(ctx@.identity_key->0, identity.public_key)
                &&& in_window(now, timestamp as nat)
            } implies #[trigger] authenticated(own, dir, out@, now, call) == identity_at(
            own,
            dir,
            ctx@.identity.address,
        ) by {
            let identity = identity_at(own, dir, ctx@.identity.address)->Ok_0;
            assert(keys_match(ctx@.identity_key->0, identity.public_key));
            signed_request_is_accepted(
                own,
                dir,
                ctx@.identity.address,
                timestamp as nat,
                signature@.value,
                now,
                call,
                identity,
            );
        }
    }
    Ok(out)
}

/// The `Authorization` header that an account signs a request with.
pub open spec fn signature_header(ctx: ContextV, call: CallV, timestamp: nat) -> Result<Seq<char>, ErrorV> {
    match signed(ctx.identity_key->0, signing_bytes(call, timestamp)) {
        Ok(signature) => Ok(authorization(ctx.identity.address, timestamp, signature.value)),
        Err(e) => Err(e),
    }
}

/// The view of an optional context.
pub open spec fn opt_context(ctx: Option<&Context>) -> Option<ContextV> {
    match ctx {
        Some(c) => Some(c@),
        None => None,
    }
}

/// The bytes of a request to a server, signed when it is made in the name of an
/// account.
pub open spec fn ark_request_bytes(
    ctx: Option<ContextV>,
    method: Seq<char>,
    url: UrlPartsV,
    headers: Seq<(Seq<char>, Seq<char>)>,
    body: Seq<u8>,
    timestamp: nat,
) -> Result<Seq<u8>, ErrorV> {
    match host_header(url) {
        None => Err(bare(Fault::UrlMissingHost)),
        Some(host) => match ctx {
            None => Ok(request_bytes(host, url.path, url.query, method, headers.push(("Connection"@, "close"@)), body)),
            Some(c) => match signature_header(c, CallV { method, host, path: url.path, body }, timestamp) {
                Err(e) => Err(e),
                Ok(value) => Ok(
                    request_bytes(
                        host,
                        url.path,
                        url.query,
                        method,
                        headers.push(("Authorization"@, value)).push(("Connection"@, "close"@)),
                        body,
                    ),
                ),
            },
        },
    }
}

/// Writes a request to a server, signed when it is made in the name of an
/// account.
pub fn ark_request(
    ctx: Option<&Context>,
    method: &str,
    url: &UrlParts,
    headers: &[(String, String)],
    body: &[u8],
    timestamp: u64,
) -> (r: Result<Vec<u8>, Error>)
    requires
        opt_context(ctx) matches Some(c) ==> c.identity_key is Some,
    ensures
        seen(r) == ark_request_bytes(opt_context(ctx), method@, url@, pairs(headers@), body@, timestamp as nat),
        r is Ok ==> (opt_context(ctx) matches Some(c) ==> forall|public: Tagged|
            public.algorithm != DEFAULT_ENCRYPTION_ALGORITHM@ && #[trigger] keys_match(c.identity_key->0, public)
                ==> signature_holds(
                c,
                CallV { method: method@, host: host_header(url@)->0, path: url@.path, body: body@ },
                timestamp as nat,
                public,
            )),
{
    let host = match &url.host {
        Some(h) => match url.port {
            Some(port) => concat3(h, ":", &format_u64(port as u64)),
            None => h.clone(),
        },
        None => {
            return Err(fail(Fault::UrlMissingHost));
        },
    };
    let mut list = copy_headers(headers);
    let ghost mut shown = pairs(headers@);
    match ctx {
        Some(c) => match sign_request(c, method, &host, &url.path, timestamp, body) {
            Ok(value) => {
                list.push(("Authorization".to_owned(), value));
                proof {
                    shown = shown.push(("Authorization"@, value@));
                    assert(pairs(list@) =~= shown);
                }
            },
            Err(e) => {
                return Err(e);
            },
        },
        None => {},
    }
    list.push(("Connection".to_owned(), "close".to_owned()));
    assert(pairs(list@) =~= shown.push(("Connection"@, "close"@)));
    write_request(url, method, &list, body)
}

// What a server checks.

/// The names and values of the parts of an `Authorization` header.
pub open spec fn params_in(parts: Seq<Seq<char>>) -> Option<Seq<(Seq<char>, Seq<char>)>>
    decreases parts.len(),
{
    if parts.len() == 0 {
        Some(Seq::empty())
    } else {
        match (params_in(parts.drop_last()), cut(trim(parts.last(), Trim::Space), '=')) {
            (Some(list), Some((k, v))) => Some(
                list.push((lower(trim(k, Trim::Space)), trim(trim(v, Trim::Space), Trim::Quote))),
            ),
            _ => None,
        }
    }
}

/// The parameters of an `Authorization` header, when it is of the account
/// scheme.
pub open spec fn auth_params(value: Seq<char>) -> Option<Seq<(Seq<char>, Seq<char>)>> {
    match after_prefix(value, "ArkAccount "@) {
        Some(rest) => params_in(split(trim(rest, Trim::Space), ',')),
        None => None,
    }
}

/// The last value with a name.
pub open spec fn last_value(list: Seq<(Seq<char>, Seq<char>)>, name: Seq<char>) -> Option<Seq<char>>
    decreases list.len(),
{
    if list.len() == 0 {
        None
    } else if list.last().0 == name {
        Some(list.last().1)
    } else {
        last_value(list.drop_last(), name)
    }
}

/// The first header with a name, whatever its case.
pub open spec fn header_value(headers: Seq<(Seq<char>, Seq<char>)>, name: Seq<char>) -> Option<Seq<char>>
    decreases headers.len(),
{
    if headers.len() == 0 {
        None
    } else if lower(headers[0].0) == lower(name) {
        Some(headers[0].1)
    } else {
        header_value(headers.skip(1), name)
    }
}

/// The first header with a name, whatever its case.
pub fn find_header(headers: &[(String, String)], name: &str) -> (r: Option<String>)
    ensures
        crate::text::opt_text(r) == header_value(pairs(headers@), name@),
{
    let n: usize = headers.len();
    let mut i: usize = 0;
    let ghost all = pairs(headers@);
    assert(all.skip(0) =~= all);
    while i < n
        invariant
            i <= n == headers@.len(),
            all == pairs(headers@),
            header_value(all.skip(i as int), name@) == header_value(all, name@),
        decreases n - i,
    {
        assert(all.skip(i as int)[0] == (headers@[i as int].0@, headers@[i as int].1@));
        if same_ignoring_case(&headers[i].0, name) {
            return Some(headers[i].1.clone());
        }
        assert(all.skip(i as int).skip(1) =~= all.skip(i + 1));
        i = i + 1;
    }
    None
}

/// Reads the parameters of an `Authorization` header.
pub fn parse_auth_params(value: &str) -> (r: Option<Vec<(String, String)>>)
    ensures
        (match r {
            Some(list) => Some(pairs(list@)),
            None => None,
        }) == auth_params(value@),
{
    let rest = match strip_prefix(value, "ArkAccount ") {
        Some(t) => t,
        None => {
            return None;
        },
    };
    let chars = to_chars(&rest);
    let parts = split_on(trim_both(&chars, Trim::Space), ',');
    let ghost all = runs(parts@);
    let mut out: Vec<(String, String)> = Vec::new();
    let n: usize = parts.len();
    let mut i: usize = 0;
    assert(pairs(out@) =~= Seq::empty());
    assert(all.take(0).len() == 0);
    while i < n
        invariant
            i <= n == parts@.len(),
            all == runs(parts@),
            params_in(all) == auth_params(value@),
            params_in(all.take(i as int)) == Some(pairs(out@)),
        decreases n - i,
    {
        let text = trim_both(&parts[i], Trim::Space);
        let at: usize = find(text, '=');
        proof {
            let more = all.take(i + 1);
            assert(more.drop_last() =~= all.take(i as int));
            assert(more.last() == parts@[i as int]@);
        }
        if at == text.len() {
            proof {
                lemma_params_stop(all, i + 1);
            }
            return None;
        }
        let end: usize = text.len();
        let k = part(text, 0, at);
        let v = part(text, at + 1, end);
        assert(k@ =~= text@.take(at as int));
        assert(v@ =~= text@.skip(at + 1));
        let ghost earlier = pairs(out@);
        let name = from_chars(&to_lower(trim_both(k, Trim::Space)));
        let held = from_chars(trim_both(trim_both(v, Trim::Space), Trim::Quote));
        let ghost added = (name@, held@);
        out.push((name, held));
        assert(pairs(out@) =~= earlier.push(added));
        i = i + 1;
    }
    assert(all.take(n as int) =~= all);
    Some(out)
}

proof fn lemma_params_stop(parts: Seq<Seq<char>>, i: int)
    requires
        0 <= i <= parts.len(),
        params_in(parts.take(i)) is None,
    ensures
        params_in(parts) is None,
    decreases parts.len() - i,
{
    if i == parts.len() {
        assert(parts.take(i) =~= parts);
    } else {
        assert(parts.take(i + 1).drop_last() =~= parts.take(i));
        lemma_params_stop(parts, i + 1);
    }
}

fn find_last(list: &[(String, String)], name: &str) -> (r: Option<String>)
    ensures
        crate::text::opt_text(r) == last_value(pairs(list@), name@),
{
    let n: usize = list.len();
    let mut i: usize = n;
    let ghost all = pairs(list@);
    assert(all.take(n as int) =~= all);
    while i > 0
        invariant
            i <= n == list@.len(),
            all == pairs(list@),
            last_value(all.take(i as int), name@) == last_value(all, name@),
        decreases i,
    {
        let ghost front = all.take(i as int);
        assert(front.last() == (list@[i - 1].0@, list@[i - 1].1@));
        if same(&list[i - 1].0, name) {
            return Some(list[i - 1].1.clone());
        }
        assert(front.drop_last() =~= all.take(i - 1));
        i = i - 1;
    }
    None
}

/// Who claims to have sent a request, and with what.
#[derive(Debug)]
pub struct Claim {
    pub address: String,
    pub signature: String,
    pub timestamp: String,
}

/// The view of a claim.
#[verifier::ext_equal]
pub struct ClaimV {
    pub address: Seq<char>,
    pub signature: Seq<char>,
    pub timestamp: Seq<char>,
}

impl View for Claim {
    type V = ClaimV;

    open spec fn view(&self) -> ClaimV {
        ClaimV { address: self.address@, signature: self.signature@, timestamp: self.timestamp@ }
    }
}

/// The claim in an `Authorization` header.
pub open spec fn claim_in(value: Seq<char>) -> Result<ClaimV, ErrorV> {
    match auth_params(value) {
        None => Err(bare(Fault::AuthorizationScheme)),
        Some(list) => match last_value(list, "address"@) {
            None => Err(bare(Fault::MissingAuthAddress)),
            Some(address) => match last_value(list, "signature"@) {
                None => Err(bare(Fault::MissingAuthSignature)),
                Some(signature) => match last_value(list, "timestamp"@) {
                    None => Err(bare(Fault::MissingAuthTimestamp)),
                    Some(timestamp) => Ok(ClaimV { address, signature, timestamp }),
                },
            },
        },
    }
}

/// Reads the claim in an `Authorization` header.
pub fn read_claim(value: &str) -> (r: Result<Claim, Error>)
    ensures
        seen(r) == claim_in(value@),
{
    let params = match parse_auth_params(value) {
        Some(p) => p,
        None => {
            return Err(fail(Fault::AuthorizationScheme));
        },
    };
    let address = match find_last(&params, "address") {
        Some(a) => a,
        None => {
            return Err(fail(Fault::MissingAuthAddress));
        },
    };
    let signature = match find_last(&params, "signature") {
        Some(s) => s,
        None => {
            return Err(fail(Fault::MissingAuthSignature));
        },
    };
    let timestamp = match find_last(&params, "timestamp") {
        Some(t) => t,
        None => {
            return Err(fail(Fault::MissingAuthTimestamp));
        },
    };
    Ok(Claim { address, signature, timestamp })
}

/// The signature that stands in an `Authorization` header.
pub open spec fn header_signature(value: Seq<u8>) -> Tagged {
    Tagged { algorithm: DEFAULT_SIGNING_ALGORITHM@, value }
}

/// Whether the claim of an account holds for a request.
pub open spec fn claim_holds(identity: IdentityV, claim: ClaimV, now: nat, call: CallV) -> Result<
    IdentityV,
    ErrorV,
> {
    match decoded(claim.signature) {
        None => Err(bare(Fault::AuthSignatureNotBase64)),
        Some(signature) => match parsed(claim.timestamp, u64::MAX as nat) {
            None => Err(bare(Fault::AuthTimestamp)),
            Some(timestamp) => if !in_window(now, timestamp) {
                Err(bare(Fault::AuthSkew))
            } else if verified(identity.public_key, header_signature(signature), signing_bytes(call, timestamp)) is Ok {
                Ok(identity)
            } else {
                Err(bare(Fault::AuthRejected))
            },
        },
    }
}

/// The account that a request comes from, according to its `Authorization`
/// header.
pub open spec fn authenticated(
    own: IdentityV,
    dir: Seq<(Seq<char>, Result<IdentityV, ErrorV>)>,
    value: Seq<char>,
    now: nat,
    call: CallV,
) -> Result<IdentityV, ErrorV> {
    match claim_in(value) {
        Err(e) => Err(e),
        Ok(claim) => match identity_at(own, dir, claim.address) {
            Err(e) => Err(e),
            Ok(identity) => claim_holds(identity, claim, now, call),
        },
    }
}

/// The account that a request comes from.
pub open spec fn requestor(
    own: IdentityV,
    dir: Seq<(Seq<char>, Result<IdentityV, ErrorV>)>,
    headers: Seq<(Seq<char>, Seq<char>)>,
    now: nat,
    call: CallV,
) -> Result<IdentityV, ErrorV> {
    match header_value(headers, "authorization"@) {
        None => Err(bare(Fault::MissingAuthorization)),
        Some(value) => authenticated(own, dir, value, now, call),
    }
}

/// Finds out which account a request comes from: the one that its
/// `Authorization` header names, when the signature there is that account's and
/// recent.
pub fn authenticate(
    target_identity: &Identity,
    directory: &Directory,
    method: &str,
    host: &str,
    path: &str,
    headers: &[(String, String)],
    body: &[u8],
    now: u64,
) -> (r: Result<Identity, Error>)
    ensures
        seen(r) == requestor(
            target_identity@,
            directory@,
            pairs(headers@),
            now as nat,
            CallV { method: method@, host: host@, path: path@, body: body@ },
        ),
{
    let value = match find_header(headers, "authorization") {
        Some(v) => v,
        None => {
            return Err(fail(Fault::MissingAuthorization));
        },
    };
    let claim = match read_claim(&value) {
        Ok(c) => c,
        Err(e) => {
            return Err(e);
        },
    };
    let identity = match find_identity(target_identity, directory, &claim.address) {
        Ok(i) => i,
        Err(e) => {
            return Err(e);
        },
    };
    let signature = match decode_base64url(&claim.signature) {
        Some(s) => s,
        None => {
            return Err(fail(Fault::AuthSignatureNotBase64));
        },
    };
    let timestamp: u64 = match parse_up_to(&to_chars(&claim.timestamp), u64::MAX) {
        Some(t) => t,
        None => {
            return Err(fail(Fault::AuthTimestamp));
        },
    };
    let apart: u64 = if now < timestamp {
        timestamp - now
    } else {
        now - timestamp
    };
    if apart > MAX_CLOCK_SKEW_SECS {
        return Err(fail(Fault::AuthSkew));
    }
    let bytes = request_to_bytes(method, host, path, timestamp, body);
    let signature = Signature { algorithm: DEFAULT_SIGNING_ALGORITHM.to_owned(), value: signature };
    assert(signature@ =~= header_signature(signature@.value));
    match verify_bytes(&identity.public_key, &signature, &bytes) {
        Ok(()) => Ok(identity),
        Err(_) => Err(fail(Fault::AuthRejected)),
    }
}

// Permission.

/// The higher of two permissions.
pub open spec fn higher(a: Permission, b: Permission) -> Permission {
    if rank_of(b) >= rank_of(a) {
        b
    } else {
        a
    }
}

/// The higher of two permissions that may not be there.
pub open spec fn highest(a: Option<Permission>, b: Option<Permission>) -> Option<Permission> {
    match (a, b) {
        (Some(p), Some(q)) => Some(higher(p, q)),
        (Some(p), None) => Some(p),
        (None, q) => q,
    }
}

/// Whether an address can be that of a group: groups stand at a path of an
/// account.
pub open spec fn names_group(address: Seq<char>) -> bool {
    first(address, '/') < address.len()
}

/// Whether an account is listed in the group at an address. Groups in groups do
/// not count.
pub open spec fn in_group(
    target: IdentityV,
    dir: Seq<(Seq<char>, Result<IdentityV, ErrorV>)>,
    group: Seq<char>,
    requestor: Seq<char>,
) -> bool {
    names_group(group) && match identity_at(target, dir, group) {
        Ok(identity) => match identity.members {
            Some(list) => list.contains(requestor),
            None => false,
        },
        Err(_) => false,
    }
}

/// The most that the groups among the members allow an account.
pub open spec fn group_permission(
    target: IdentityV,
    dir: Seq<(Seq<char>, Result<IdentityV, ErrorV>)>,
    requestor: Seq<char>,
    members: Seq<MemberV>,
) -> Option<Permission>
    decreases members.len(),
{
    if members.len() == 0 {
        None
    } else {
        highest(
            group_permission(target, dir, requestor, members.drop_last()),
            if in_group(target, dir, members.last().address, requestor) {
                Some(members.last().permission)
            } else {
                None
            },
        )
    }
}

/// The permission of a member.
pub open spec fn permission_of(member: Option<MemberV>) -> Option<Permission> {
    match member {
        Some(m) => Some(m.permission),
        None => None,
    }
}

/// What an account may do with a file: everything in its own account,
/// otherwise the most that its own membership and that of everyone allow.
pub open spec fn authorized(
    target: Seq<char>,
    requestor: Seq<char>,
    members: Option<Seq<MemberV>>,
) -> Result<Permission, ErrorV> {
    if requestor == target {
        Ok(Permission::Owner)
    } else {
        match members {
            None => Err(bare(Fault::NotMember)),
            Some(list) => match highest(
                permission_of(member_at(list, requestor)),
                permission_of(member_at(list, "*"@)),
            ) {
                Some(permission) => Ok(permission),
                None => Err(bare(Fault::NotMember)),
            },
        }
    }
}

/// What an account may do with a file once the groups among the members are taken
/// for those whom they list: the most of what it may do itself and of what such a
/// group may.
pub open spec fn permission_for(
    target: IdentityV,
    dir: Seq<(Seq<char>, Result<IdentityV, ErrorV>)>,
    requestor: Seq<char>,
    members: Option<Seq<MemberV>>,
) -> Result<Permission, ErrorV> {
    match members {
        Some(list) if requestor != target.address => {
            let own = match authorized(target.address, requestor, members) {
                Ok(permission) => Some(permission),
                Err(_) => None,
            };
            match highest(own, group_permission(target, dir, requestor, list)) {
                Some(permission) => Ok(permission),
                None => Err(bare(Fault::NotMember)),
            }
        },
        _ => authorized(target.address, requestor, members),
    }
}

/// The views of an optional list of members.
pub open spec fn opt_members(members: Option<&[Member]>) -> Option<Seq<MemberV>> {
    match members {
        Some(list) => Some(members_view(list@)),
        None => None,
    }
}

/// Whether an address can be that of a group.
pub fn is_group_address(address: &str) -> (r: bool)
    ensures
        r == names_group(address@),
{
    let chars = to_chars(address);
    let at: usize = find(&chars, '/');
    at < chars.len()
}

fn choose_highest(a: Option<Permission>, b: Option<Permission>) -> (r: Option<Permission>)
    ensures
        r == highest(a, b),
{
    match (a, b) {
        (Some(p), Some(q)) => if q.rank() >= p.rank() {
            Some(q)
        } else {
            Some(p)
        },
        (Some(p), None) => Some(p),
        (None, q) => q,
    }
}

fn is_in_group(target: &Identity, directory: &Directory, group: &str, requestor: &str) -> (r: bool)
    ensures
        r == in_group(target@, directory@, group@, requestor@),
{
    if !is_group_address(group) {
        return false;
    }
    match find_identity(target, directory, group) {
        Ok(identity) => match &identity.members {
            Some(list) => holds(list, requestor),
            None => false,
        },
        Err(_) => false,
    }
}

fn permission_by_group(target: &Identity, directory: &Directory, requestor: &str, members: &[Member]) -> (r: Option<
    Permission,
>)
    ensures
        r == group_permission(target@, directory@, requestor@, members_view(members@)),
{
    let mut best: Option<Permission> = None;
    let n: usize = members.len();
    let mut i: usize = 0;
    let ghost all = members_view(members@);
    assert(all.take(0).len() == 0);
    while i < n
        invariant
            i <= n == members@.len(),
            all == members_view(members@),
            best == group_permission(target@, directory@, requestor@, all.take(i as int)),
        decreases n - i,
    {
        assert(all.take(i + 1).drop_last() =~= all.take(i as int));
        assert(all.take(i + 1).last() == members@[i as int]@);
        let by_group = if is_in_group(target, directory, &members[i].address, requestor) {
            Some(members[i].permission)
        } else {
            None
        };
        best = choose_highest(best, by_group);
        i = i + 1;
    }
    assert(all.take(n as int) =~= all);
    best
}

/// The view of a permission or of why there is none.
pub open spec fn permission_seen(r: Result<Permission, Error>) -> Result<Permission, ErrorV> {
    match r {
        Ok(p) => Ok(p),
        Err(e) => Err(e@),
    }
}

/// Finds out what an account may do with a file.
pub fn authorize(
    target_identity: &Identity,
    requestor_identity: &Identity,
    existing_members: Option<&[Member]>,
) -> (r: Result<Permission, Error>)
    ensures
        permission_seen(r) == authorized(
            target_identity@.address,
            requestor_identity@.address,
            opt_members(existing_members),
        ),
{
    if same(&requestor_identity.address, &target_identity.address) {
        return Ok(Permission::Owner);
    }
    let members = match existing_members {
        Some(list) => list,
        None => {
            return Err(fail(Fault::NotMember));
        },
    };
    let own = match get_member(members, &requestor_identity.address) {
        Some(m) => Some(m.permission),
        None => None,
    };
    let everyone = match get_member(members, "*") {
        Some(m) => Some(m.permission),
        None => None,
    };
    match choose_highest(own, everyone) {
        Some(permission) => Ok(permission),
        None => Err(fail(Fault::NotMember)),
    }
}

/// Finds out what an account may do with a file once the groups among the members
/// are taken for those whom they list.
pub fn find_permission(
    target: &Identity,
    directory: &Directory,
    requestor: &Identity,
    existing_members: Option<&[Member]>,
) -> (r: Result<Permission, Error>)
    ensures
        permission_seen(r) == permission_for(target@, directory@, requestor@.address, opt_members(existing_members)),
{
    let itself = authorize(target, requestor, existing_members);
    match existing_members {
        Some(members) if !same(&requestor.address, &target.address) => {
            let own = match itself {
                Ok(permission) => Some(permission),
                Err(_) => None,
            };
            let by_group = permission_by_group(target, directory, &requestor.address, members);
            match choose_highest(own, by_group) {
                Some(permission) => Ok(permission),
                None => Err(fail(Fault::NotMember)),
            }
        },
        _ => itself,
    }
}

// Laws.

/// Nothing is asked of the owner of an account.
pub proof fn account_owner_may_do_everything(
    target: IdentityV,
    dir: Seq<(Seq<char>, Result<IdentityV, ErrorV>)>,
    members: Option<Seq<MemberV>>,
)
    ensures
        authorized(target.address, target.address, members) == Ok::<Permission, ErrorV>(Permission::Owner),
        permission_for(target, dir, target.address, members) == Ok::<Permission, ErrorV>(Permission::Owner),
{
}

proof fn lemma_no_group(
    target: IdentityV,
    dir: Seq<(Seq<char>, Result<IdentityV, ErrorV>)>,
    requestor: Seq<char>,
    members: Seq<MemberV>,
)
    requires
        forall|i: int| 0 <= i < members.len() ==> !in_group(target, dir, (#[trigger] members[i]).address, requestor),
    ensures
        group_permission(target, dir, requestor, members) is None,
    decreases members.len(),
{
    if members.len() > 0 {
        let rest = members.drop_last();
        assert forall|i: int| 0 <= i < rest.len() implies !in_group(target, dir, (#[trigger] rest[i]).address, requestor)
            by {
            assert(rest[i] == members[i]);
        }
        lemma_no_group(target, dir, requestor, rest);
        assert(!in_group(target, dir, members[members.len() - 1].address, requestor));
    }
}

/// Who is not a member may do nothing, unless everyone may, and gains nothing from
/// groups that do not list them.
pub proof fn stranger_is_refused(
    target: IdentityV,
    dir: Seq<(Seq<char>, Result<IdentityV, ErrorV>)>,
    requestor: Seq<char>,
    members: Option<Seq<MemberV>>,
)
    requires
        requestor != target.address,
        members matches Some(list) ==> member_at(list, requestor) is None && member_at(list, "*"@) is None && forall|
            i: int,
        |
            0 <= i < list.len() ==> !in_group(target, dir, (#[trigger] list[i]).address, requestor),
    ensures
        authorized(target.address, requestor, members) == Err::<Permission, ErrorV>(bare(Fault::NotMember)),
        permission_for(target, dir, requestor, members) == Err::<Permission, ErrorV>(bare(Fault::NotMember)),
{
    if let Some(list) = members {
        lemma_no_group(target, dir, requestor, list);
    }
}

proof fn lemma_group_counts(
    target: IdentityV,
    dir: Seq<(Seq<char>, Result<IdentityV, ErrorV>)>,
    requestor: Seq<char>,
    members: Seq<MemberV>,
    i: int,
)
    requires
        0 <= i < members.len(),
        in_group(target, dir, members[i].address, requestor),
    ensures
        group_permission(target, dir, requestor, members) matches Some(p) && rank_of(p) >= rank_of(
            members[i].permission,
        ),
    decreases members.len(),
{
    if i < members.len() - 1 {
        assert(members.drop_last()[i] == members[i]);
        lemma_group_counts(target, dir, requestor, members.drop_last(), i);
    }
}

/// Who is listed in a group may do with a file at least what the group may.
pub proof fn group_members_share_its_permission(
    target: IdentityV,
    dir: Seq<(Seq<char>, Result<IdentityV, ErrorV>)>,
    requestor: Seq<char>,
    members: Seq<MemberV>,
    i: int,
)
    requires
        0 <= i < members.len(),
        in_group(target, dir, members[i].address, requestor),
    ensures
        permission_for(target, dir, requestor, Some(members)) matches Ok(p) && rank_of(p) >= rank_of(
            members[i].permission,
        ),
{
    lemma_group_counts(target, dir, requestor, members, i);
}

/// A request whose time is too far from the server's is refused, whoever signed
/// it.
pub proof fn stale_request_is_refused(
    own: IdentityV,
    dir: Seq<(Seq<char>, Result<IdentityV, ErrorV>)>,
    value: Seq<char>,
    now: nat,
    call: CallV,
)
    requires
        claim_in(value) matches Ok(claim) && parsed(claim.timestamp, u64::MAX as nat) matches Some(t) && !in_window(
            now,
            t,
        ),
    ensures
        authenticated(own, dir, value, now, call) is Err,
{
}

proof fn lemma_encoded_chars(b: Seq<u8>)
    ensures
        forall|i: int|
            0 <= i < encoded(b).len() ==> (#[trigger] encoded(b)[i]) != ',' && encoded(b)[i] != '"',
    decreases b.len(),
{
    assert forall|v: int| 0 <= v < 64 implies #[trigger] symbol(v) != ',' && symbol(v) != '"' by {}
    if b.len() >= 3 {
        lemma_encoded_chars(b.skip(3));
        let s = encoded(b);
        assert forall|i: int| 0 <= i < s.len() implies (#[trigger] s[i]) != ',' && s[i] != '"' by {
            if i >= 4 {
                assert(s[i] == encoded(b.skip(3))[i - 4]);
            }
        }
    }
}

/// One part of the header is read back.
proof fn lemma_param(front: Seq<char>, name: Seq<char>, value: Seq<char>)
    requires
        front.len() == 0 || front == seq![' '],
        name.len() > 0,
        forall|i: int| 0 <= i < name.len() ==> 'a' <= #[trigger] name[i] <= 'z',
        value.len() > 0 ==> value[0] != '"' && value.last() != '"',
    ensures
        ({
            let part = front + name + seq!['=', '"'] + value + seq!['"'];
            cut(trim(part, Trim::Space), '=') == Some((name, seq!['"'] + value + seq!['"']))
        }),
        lower(trim(name, Trim::Space)) == name,
        trim(trim(seq!['"'] + value + seq!['"'], Trim::Space), Trim::Quote) == value,
{
    let bare_part = name + seq!['=', '"'] + value + seq!['"'];
    let whole = front + name + seq!['=', '"'] + value + seq!['"'];
    assert('a' <= name[0] <= 'z' && 'a' <= name.last() <= 'z');
    assert(trim_front(bare_part, Trim::Space) == bare_part) by {
        assert(bare_part[0] == name[0]);
    }
    if front.len() == 0 {
        assert(whole =~= bare_part);
    } else {
        assert(whole.skip(1) =~= bare_part);
        assert(is_space(' '));
    }
    assert(trim_front(whole, Trim::Space) == bare_part);
    assert(bare_part.last() == '"');
    assert(trim_back(bare_part, Trim::Space) == bare_part);
    assert forall|k: int| 0 <= k < name.len() implies bare_part[k] != '=' by {
        assert(bare_part[k] == name[k]);
    }
    lemma_first_is(bare_part, '=', name.len() as int);
    assert(bare_part.take(name.len() as int) =~= name);
    assert(bare_part.skip(name.len() as int + 1) =~= seq!['"'] + value + seq!['"']);
    assert(trim_front(name, Trim::Space) == name);
    assert(trim_back(name, Trim::Space) == name);
    assert(lower(name) =~= name) by {
        assert forall|i: int| 0 <= i < name.len() implies lower(name)[i] == name[i] by {
            assert('a' <= name[i] <= 'z');
        }
    }
    let quoted = seq!['"'] + value + seq!['"'];
    assert(quoted.last() == '"' && quoted[0] == '"');
    assert(trim(quoted, Trim::Space) == quoted);
    let open = value + seq!['"'];
    assert(quoted.skip(1) =~= open);
    if value.len() == 0 {
        assert(open.skip(1).len() == 0);
        assert(trim_front(open.skip(1), Trim::Quote) == open.skip(1));
        assert(open[0] == '"');
        assert(trim_front(open, Trim::Quote) =~= Seq::empty());
        assert(value =~= Seq::empty());
    } else {
        assert(open[0] == value[0]);
        assert(trim_front(open, Trim::Quote) == open);
        assert(open.drop_last() =~= value);
        assert(trim_back(value, Trim::Quote) == value);
    }
}

/// A text without the character is one part.
proof fn lemma_split_last(s: Seq<char>)
    requires
        forall|i: int| 0 <= i < s.len() ==> #[trigger] s[i] != ',',
    ensures
        split(s, ',') == seq![s],
{
    lemma_first_is(s, ',', s.len() as int);
}

/// A text up to the character is the first part.
proof fn lemma_split_first(head: Seq<char>, rest: Seq<char>)
    requires
        forall|i: int| 0 <= i < head.len() ==> #[trigger] head[i] != ',',
    ensures
        split(head + seq![','] + rest, ',') == seq![head] + split(rest, ','),
{
    let s = head + seq![','] + rest;
    assert forall|k: int| 0 <= k < head.len() implies s[k] != ',' by {
        assert(s[k] == head[k]);
    }
    lemma_first_is(s, ',', head.len() as int);
    assert(s.take(head.len() as int) =~= head);
    assert(s.skip(head.len() as int + 1) =~= rest);
}

/// One part of the header that a client writes.
spec fn header_part(front: Seq<char>, name: Seq<char>, value: Seq<char>) -> Seq<char> {
    front + name + seq!['=', '"'] + value + seq!['"']
}

/// The parts of the header that a client writes.
proof fn lemma_header_parts(address: Seq<char>, timestamp: nat, signature: Seq<u8>)
    requires
        plain_address(address),
    ensures
        after_prefix(authorization(address, timestamp, signature), "ArkAccount "@) matches Some(rest) && split(
            trim(rest, Trim::Space),
            ',',
        ) == seq![
            header_part(Seq::empty(), "address"@, address),
            header_part(seq![' '], "timestamp"@, decimal(timestamp)),
            header_part(seq![' '], "signature"@, encoded(signature)),
        ],
{
    reveal_strlit("ArkAccount ");
    reveal_strlit("ArkAccount address=\"");
    reveal_strlit("\", timestamp=\"");
    reveal_strlit("\", signature=\"");
    reveal_strlit("\"");
    reveal_strlit("address");
    reveal_strlit("timestamp");
    reveal_strlit("signature");
    let value = authorization(address, timestamp, signature);
    let time = decimal(timestamp);
    let sig = encoded(signature);
    let p0 = header_part(Seq::empty(), "address"@, address);
    let p1 = header_part(seq![' '], "timestamp"@, time);
    let p2 = header_part(seq![' '], "signature"@, sig);
    let last = p1 + seq![','] + p2;
    let rest = p0 + seq![','] + last;
    assert(value =~= "ArkAccount "@ + rest);
    assert(value.take(11) =~= "ArkAccount "@);
    assert(value.skip(11) =~= rest);
    assert(rest[0] == 'a' && rest.last() == '"');
    assert(trim(rest, Trim::Space) == rest);
    assert forall|i: int| 0 <= i < p0.len() implies #[trigger] p0[i] != ',' by {
        if 9 <= i < 9 + address.len() {
            assert(p0[i] == address[i - 9]);
        }
    }
    assert forall|i: int| 0 <= i < p1.len() implies #[trigger] p1[i] != ',' by {
        lemma_decimal(timestamp);
        if 12 <= i < 12 + time.len() {
            assert(p1[i] == time[i - 12]);
            assert(is_digit(time[i - 12]));
        }
    }
    assert forall|i: int| 0 <= i < p2.len() implies #[trigger] p2[i] != ',' by {
        lemma_encoded_chars(signature);
        if 12 <= i < 12 + sig.len() {
            assert(p2[i] == sig[i - 12]);
        }
    }
    lemma_split_last(p2);
    lemma_split_first(p1, p2);
    lemma_split_first(p0, last);
    assert(split(rest, ',') =~= seq![p0, p1, p2]);
}

/// What the parts of the header that a client writes say.
proof fn lemma_header_params(address: Seq<char>, timestamp: nat, signature: Seq<u8>)
    requires
        plain_address(address),
    ensures
        params_in(
            seq![
                header_part(Seq::empty(), "address"@, address),
                header_part(seq![' '], "timestamp"@, decimal(timestamp)),
                header_part(seq![' '], "signature"@, encoded(signature)),
            ],
        ) == Some(
            seq![("address"@, address), ("timestamp"@, decimal(timestamp)), ("signature"@, encoded(signature))],
        ),
{
    reveal_strlit("address");
    reveal_strlit("timestamp");
    reveal_strlit("signature");
    let time = decimal(timestamp);
    let sig = encoded(signature);
    lemma_decimal(timestamp);
    lemma_encoded_chars(signature);
    assert(is_digit(time[0]) && is_digit(time[time.len() - 1]));
    let p0 = header_part(Seq::empty(), "address"@, address);
    let p1 = header_part(seq![' '], "timestamp"@, time);
    let p2 = header_part(seq![' '], "signature"@, sig);
    lemma_param(Seq::empty(), "address"@, address);
    lemma_param(seq![' '], "timestamp"@, time);
    lemma_param(seq![' '], "signature"@, sig);
    let none = Seq::<Seq<char>>::empty();
    let one = none.push(p0);
    let two = one.push(p1);
    let three = two.push(p2);
    assert(one.drop_last() =~= none && two.drop_last() =~= one && three.drop_last() =~= two);
    let l0 = Seq::<(Seq<char>, Seq<char>)>::empty();
    assert(params_in(none) == Some(l0));
    assert(params_in(one) == Some(l0.push(("address"@, address))));
    assert(params_in(two) == Some(l0.push(("address"@, address)).push(("timestamp"@, time))));
    assert(params_in(three) == Some(
        l0.push(("address"@, address)).push(("timestamp"@, time)).push(("signature"@, sig)),
    ));
    assert(three =~= seq![p0, p1, p2]);
    assert(l0.push(("address"@, address)).push(("timestamp"@, time)).push(("signature"@, sig)) =~= seq![
        ("address"@, address),
        ("timestamp"@, time),
        ("signature"@, sig),
    ]);
}

/// What stands in the header that a client writes is what a server reads there.
pub proof fn claim_read_back(address: Seq<char>, timestamp: nat, signature: Seq<u8>)
    requires
        plain_address(address),
    ensures
        claim_in(authorization(address, timestamp, signature)) == Ok::<ClaimV, ErrorV>(
            ClaimV { address, signature: encoded(signature), timestamp: decimal(timestamp) },
        ),
{
    lemma_header_parts(address, timestamp, signature);
    lemma_header_params(address, timestamp, signature);
    let time = decimal(timestamp);
    let sig = encoded(signature);
    let l1 = seq![("address"@, address)];
    let l2 = seq![("address"@, address), ("timestamp"@, time)];
    let l3 = seq![("address"@, address), ("timestamp"@, time), ("signature"@, sig)];
    assert(l3.drop_last() =~= l2 && l2.drop_last() =~= l1);
    assert("address"@ != "timestamp"@ && "address"@ != "signature"@ && "timestamp"@ != "signature"@) by {
        reveal_strlit("address");
        reveal_strlit("timestamp");
        reveal_strlit("signature");
        assert("address"@.len() == 7 && "timestamp"@.len() == 9 && "signature"@.len() == 9);
        assert("timestamp"@[0] != "signature"@[0]);
    }
    assert(last_value(l1, "address"@) == Some(address));
    assert(last_value(l2, "address"@) == Some(address));
    assert(last_value(l2, "timestamp"@) == Some(time));
}

/// A server takes a request for that of an account when the header holds that
/// account's signature of it and the time is within the window.
pub proof fn signed_request_is_accepted(
    own: IdentityV,
    dir: Seq<(Seq<char>, Result<IdentityV, ErrorV>)>,
    address: Seq<char>,
    timestamp: nat,
    signature: Seq<u8>,
    now: nat,
    call: CallV,
    identity: IdentityV,
)
    requires
        plain_address(address),
        timestamp <= u64::MAX,
        identity_at(own, dir, address) == Ok::<IdentityV, ErrorV>(identity),
        verified(identity.public_key, header_signature(signature), signing_bytes(call, timestamp)) is Ok,
        in_window(now, timestamp),
    ensures
        authenticated(own, dir, authorization(address, timestamp, signature), now, call) == Ok::<IdentityV, ErrorV>(
            identity,
        ),
{
    claim_read_back(address, timestamp, signature);
    decode_after_encode(signature);
    decimal_round_trip(timestamp, u64::MAX as nat);
}

} // verus!
