//! What is done where nothing stands against it.

use vstd::prelude::*;
use vstd::utf8::encode_utf8;

use crate::auth::{authenticated, header_value, requestor, CallV};
use crate::bootstrap::{started, StartV};
use crate::commands::{put_done, PutV};
use crate::crypto::{
    cannot_encrypt, encryption_for, expanded, json_signed, json_verified, keys_match, owned, password_point,
    password_seed, signed, verified,
};
use crate::error::{ErrorV, Fault};
use crate::fields::metadata_of;
use crate::file_server::{empty_bytes, fetched, typed, SentV};
use crate::http::{
    content_length, headers_in, host_header, http_error, is_success, line_len, message_complete, request_bytes,
    response_bytes, response_read, status_line, RequestV,
};
use crate::json::metadata_json;
use crate::listing::{listing, type_of, Layout};
use crate::locate::client_url;
use crate::log::entry_bytes;
use crate::membership::{cannot_wrap, identity_at, joiners_reachable, reachable};
use crate::metadata::{member_at, signature_verified, unsigned};
use crate::number::{decimal, lemma_decimal};
use crate::paths::file_name;
use crate::permissions::place;
use crate::primitives::{canonical_json, ed25519_public, montgomery, UrlPartsV};
use crate::sealing::{equipped, own_keys};
use crate::server::{
    call_of, handled, known, permitted, unknown_claimant, unknown_group, AccountV, ActionV, DiskV, NodeV, PlaceV,
};
use crate::text::lower;
use crate::types::{ContextV, IdentityV, LocalV, MemberV, MetadataV, Permission, Tagged};
use crate::upload::{upload_query, upload_url};
use crate::wire::{all_clean, clean, lemma_message, lemma_status_line};

verus! {

// What is looked up.

/// Whether the identity of an address still has to be found.
pub open spec fn not_known(
    own: IdentityV,
    dir: Seq<(Seq<char>, Result<IdentityV, ErrorV>)>,
    address: Seq<char>,
) -> bool {
    address != own.address && forall|i: int| 0 <= i < dir.len() ==> (#[trigger] dir[i]).0 != address
}

/// An address is known where it is the account's own or was looked up, whatever came of
/// it.
#[verifier::rlimit(40)]
pub proof fn looked_up_addresses_are_known(
    own: IdentityV,
    dir: Seq<(Seq<char>, Result<IdentityV, ErrorV>)>,
    address: Seq<char>,
)
    ensures
        known(own, dir, address) <==> !not_known(own, dir, address),
{
}

/// Who claims to ask is looked up first, where they are not known; nothing is looked up
/// for a request without a claim.
pub proof fn claimants_are_looked_up(
    headers: Seq<(Seq<char>, Seq<char>)>,
    target: IdentityV,
    dir: Seq<(Seq<char>, Result<IdentityV, ErrorV>)>,
)
    ensures
        match header_value(headers, "authorization"@) {
            None => unknown_claimant(headers, target, dir) is None,
            Some(value) => match crate::auth::claim_in(value) {
                Err(_) => unknown_claimant(headers, target, dir) is None,
                Ok(claim) => if not_known(target, dir, claim.address) {
                    unknown_claimant(headers, target, dir) == Some(claim.address)
                } else {
                    unknown_claimant(headers, target, dir) is None
                },
            },
        },
{
    if let Some(value) = header_value(headers, "authorization"@) {
        if let Ok(claim) = crate::auth::claim_in(value) {
            looked_up_addresses_are_known(target, dir, claim.address);
        }
    }
}

/// A server that does not know who asks, a group among the members, or who signed what is
/// to be written, looks them up before it answers.
#[verifier::spinoff_prover]
#[verifier::rlimit(60)]
pub proof fn unknown_identities_are_looked_up(
    request: RequestV,
    place: PlaceV,
    disk: DiskV,
    dir: Seq<(Seq<char>, Result<IdentityV, ErrorV>)>,
    now: nat,
    target: IdentityV,
)
    requires
        disk.account == (AccountV::Present { identity: target }),
        !disk.symlink,
        request.method != "GET"@ && request.method != "HEAD"@ || (match disk.metadata() {
            Ok(m) => member_at(m.members, "*"@) is None,
            Err(_) => true,
        }),
    ensures
        ({
            let action = handled(request, place, disk, dir, now);
            let asking = requestor(target, dir, request.headers, now, call_of(request, place));
            &&& unknown_claimant(request.headers, target, dir) matches Some(address) ==> action == (ActionV::Lookup {
                address,
            })
            &&& unknown_claimant(request.headers, target, dir) is None && asking is Ok && asking->Ok_0.address
                != target.address ==> (disk.granted() matches Some(list) ==> (unknown_group(target, dir, list)
                matches Some(address) ==> action == (ActionV::Lookup { address })))
        }),
{
}

/// What an account that may write sends with metadata of someone who is not known makes
/// the server look them up.
#[verifier::spinoff_prover]
#[verifier::rlimit(60)]
pub proof fn modifiers_are_looked_up(
    request: RequestV,
    place: PlaceV,
    disk: DiskV,
    dir: Seq<(Seq<char>, Result<IdentityV, ErrorV>)>,
    target: IdentityV,
    permission: Permission,
    m: MetadataV,
)
    requires
        request.method == "PUT"@,
        permission != Permission::Reader,
        metadata_of(request.headers) == Ok::<MetadataV, ErrorV>(m),
        not_known(target, dir, m.modified_by),
    ensures
        permitted(request, place, target, disk, dir, permission) == (ActionV::Lookup { address: m.modified_by }),
{
    looked_up_addresses_are_known(target, dir, m.modified_by);
    reveal_strlit("GET");
    reveal_strlit("HEAD");
    reveal_strlit("PUT");
    assert("GET"@[0] != "PUT"@[0] && "HEAD"@[0] != "PUT"@[0]);
}

/// What is signed of a request is its method, the first host that it names, the path that
/// it is for and its body; and who asks is told by its first `Authorization` header.
#[verifier::rlimit(40)]
pub proof fn requests_are_signed_as_they_came(
    request: RequestV,
    place: PlaceV,
    own: IdentityV,
    dir: Seq<(Seq<char>, Result<IdentityV, ErrorV>)>,
    now: nat,
    call: CallV,
)
    ensures
        call_of(request, place).method == request.method,
        call_of(request, place).path == place.path,
        call_of(request, place).body == request.body,
        header_value(request.headers, "host"@) matches Some(host) ==> call_of(request, place).host == host,
        header_value(request.headers, "authorization"@) matches Some(value) ==> requestor(
            own,
            dir,
            request.headers,
            now,
            call,
        ) == authenticated(own, dir, value, now, call),
{
}

// What is signed.

/// Metadata is signed where its signature is one of its text, without the signature.
pub proof fn signatures_are_of_the_text(public: Tagged, secret: Tagged, m: MetadataV, signature: Tagged, text: Seq<char>)
    ensures
        signature_verified(public, m) is Ok <==> json_verified(public, m.signature, metadata_json(unsigned(m))) is Ok,
        match canonical_json(text) {
            Some(bytes) => json_verified(public, signature, text) == verified(public, signature, bytes) && json_signed(
                secret,
                text,
            ) == signed(secret, bytes),
            None => json_verified(public, signature, text) is Err && json_signed(secret, text) is Err,
        },
{
}

/// When a key belongs to a public key: a file key to itself, an Ed25519 key to its public
/// key, that of a password to the one that it expands to.
pub proof fn keys_belong_together(secret: Tagged, public: Tagged)
    ensures
        public.algorithm == "aes-256-gcm"@ ==> (keys_match(secret, public) <==> secret == public),
        public.algorithm == "ed25519"@ ==> (keys_match(secret, public) <==> secret.algorithm == "ed25519"@
            && secret.value.len() == 32 && public.value == ed25519_public(secret.value)),
        public.algorithm == "argon2id-ed25519"@ && public.value.len() >= 80 ==> (keys_match(secret, public) <==> secret.algorithm
            == "argon2id-ed25519"@ && (match crate::crypto::password_seed(secret.value) {
            Ok(seed) => seed.len() == 32 && public.value.subrange(48, 80) == ed25519_public(seed),
            Err(_) => false,
        })),
{
    reveal_strlit("ed25519");
    reveal_strlit("argon2id-ed25519");
    reveal_strlit("aes-256-gcm");
    assert("ed25519"@.len() == 7);
    assert("argon2id-ed25519"@.len() == 16);
    assert("aes-256-gcm"@.len() == 11);
}

/// Something can be encrypted for a file key of the right size, and for any other key
/// whose Ed25519 key is one; it can be opened again where a secret key belongs to it.
pub proof fn keys_can_be_encrypted_for(public: Tagged)
    ensures
        public.algorithm == "aes-256-gcm"@ ==> (cannot_encrypt(public) is None <==> public.value.len() == 32),
        public.algorithm == "ed25519"@ ==> (cannot_encrypt(public) is None <==> public.value.len() == 32 && montgomery(
            public.value,
        ) is Some),
        owned(public) <==> cannot_encrypt(public) is None && exists|secret: Tagged| #[trigger] keys_match(secret, public),
{
    reveal_strlit("ed25519");
    reveal_strlit("argon2id-ed25519");
    reveal_strlit("aes-256-gcm");
    assert("ed25519"@.len() == 7);
    assert("argon2id-ed25519"@.len() == 16);
    assert("aes-256-gcm"@.len() == 11);
}

/// A password's secret key is a salt of 16 bytes and the password, and expands to an
/// Ed25519 key where that is text; its public key holds that key behind the first 48
/// bytes.
#[verifier::rlimit(40)]
pub proof fn password_keys_hold_their_salt(value: Seq<u8>, public: Tagged)
    ensures
        password_seed(value) is Ok <==> value.len() >= 16 && vstd::utf8::valid_utf8(value.skip(16)) && expanded(
            value.skip(16),
            value.take(16),
        ) is Ok,
        password_seed(value) matches Ok(seed) ==> expanded(value.skip(16), value.take(16))->Ok_0.1 == seed,
        password_point(value) is Ok <==> value.len() >= 80,
        password_point(value) matches Ok(point) ==> point == value.subrange(48, 80),
        public.algorithm == "aes-256-gcm"@ ==> encryption_for(public) == "aes-256-gcm"@,
        public.algorithm != "aes-256-gcm"@ ==> encryption_for(public) == "hpke-x25519-hkdf-sha256-aes256gcm"@,
{
}

/// A key can be wrapped for everyone, for whom there is nothing to do, and for whoever has
/// an identity that can be encrypted for.
pub proof fn keys_are_wrapped_for_the_known(
    own: IdentityV,
    dir: Seq<(Seq<char>, Result<IdentityV, ErrorV>)>,
    address: Seq<char>,
)
    ensures
        cannot_wrap(own, dir, address) is None <==> address == "*"@ || (match identity_at(own, dir, address) {
            Ok(identity) => cannot_encrypt(identity.public_key) is None,
            Err(_) => false,
        }),
{
}

/// An address can be reached where it stands for everyone or has an identity with a key
/// that someone has and that is no file key; and those who join can be reached where each
/// of them can.
pub proof fn known_accounts_are_reachable(
    own: IdentityV,
    dir: Seq<(Seq<char>, Result<IdentityV, ErrorV>)>,
    address: Seq<char>,
    members: Seq<MemberV>,
    listed: Seq<MemberV>,
)
    ensures
        reachable(own, dir, address) <==> address == "*"@ || (match identity_at(own, dir, address) {
            Ok(identity) => owned(identity.public_key) && identity.public_key.algorithm != "aes-256-gcm"@,
            Err(_) => false,
        }),
        joiners_reachable(own, dir, members, listed) <==> forall|i: int|
            0 <= i < listed.len() && place(members, listed[i].address) == members.len() ==> reachable(
                own,
                dir,
                (#[trigger] listed[i]).address,
            ),
{
}

/// An account has keys of its own where its secret key belongs to its identity, and can be
/// written for where that is one that file keys are wrapped for.
pub proof fn accounts_have_their_keys(ctx: ContextV)
    ensures
        own_keys(ctx) <==> (match ctx.identity_key {
            Some(secret) => keys_match(secret, ctx.identity.public_key),
            None => false,
        }) && ctx.identity.address != "*"@,
        equipped(ctx) <==> own_keys(ctx) && owned(ctx.identity.public_key) && ctx.identity.public_key.algorithm
            != "aes-256-gcm"@,
{
}

// What is recorded and sent.

/// A request whose whole head has arrived and can be read is recorded, with that head as it
/// came in front.
pub proof fn whole_heads_are_recorded(b: Seq<u8>, status: u16)
    ensures
        ({
            let n = line_len(b) as int;
            &&& entry_bytes(b, status) is Some <==> message_complete(b, true) && headers_in(b.skip(n)) is Ok
            &&& entry_bytes(b, status) matches Some(entry) ==> (headers_in(b.skip(n)) matches Ok((list, used)) && entry
                == b.take(n + used) + response_bytes(status, Seq::empty(), Seq::empty()))
        }),
{
}

/// The URL of an upload is that of the file, with what is asked of the server.
pub proof fn uploads_go_to_the_file(url: UrlPartsV, metadata_only: bool)
    ensures
        upload_url(url, metadata_only).path == url.path,
        upload_url(url, metadata_only).host == url.host,
        upload_url(url, metadata_only).port == url.port,
        upload_url(url, metadata_only).query == Some(upload_query(metadata_only)),
{
}

/// The server is asked for the identity of the account, in nobody's name.
pub proof fn servers_are_asked_for_the_identity(
    root: Seq<char>,
    address: Seq<char>,
    has_password: bool,
    timestamp: nat,
    url: UrlPartsV,
    host: Seq<char>,
)
    requires
        client_url(address, "/.ark/identity.json"@) == Ok::<UrlPartsV, ErrorV>(url),
        host_header(url) == Some(host),
    ensures
        started(root, address, has_password, false, false, false, timestamp) == Ok::<StartV, ErrorV>(
            StartV::Ask {
                request: request_bytes(
                    host,
                    url.path,
                    url.query,
                    "GET"@,
                    seq![("Connection"@, "close"@)],
                    Seq::empty(),
                ),
            },
        ),
{
    assert(Seq::<(Seq<char>, Seq<char>)>::empty().push(("Connection"@, "close"@)) =~= seq![("Connection"@, "close"@)]);
}

/// A file is written back after an upload where it was read from disk and is encrypted or
/// carried metadata.
#[verifier::rlimit(40)]
pub proof fn read_files_are_written_back(
    ctx: ContextV,
    dir: Seq<(Seq<char>, Result<IdentityV, ErrorV>)>,
    job: PutV,
    now: Seq<char>,
    timestamp: nat,
    m: MetadataV,
    local: LocalV,
    body: Seq<u8>,
    request: Seq<u8>,
    write_back: bool,
)
    requires
        put_done(ctx, dir, job, now, timestamp, m, local, body, request, write_back),
    ensures
        write_back <==> job.input is Some && (!job.no_encrypt || job.existing()->Ok_0 is Some),
        job.local() == Ok::<LocalV, ErrorV>(local),
{
}

proof fn lemma_typed_clean(kind: Seq<char>, length: nat)
    requires
        clean(("Content-Type"@, kind)),
    ensures
        all_clean(typed(kind, length)),
        length <= usize::MAX ==> content_length(typed(kind, length)) == length,
{
    let headers = typed(kind, length);
    lemma_decimal(length);
    reveal_strlit("Content-Type");
    reveal_strlit("Connection");
    reveal_strlit("close");
    reveal_strlit("Content-Length");
    reveal_strlit("content-length");
    let d = decimal(length);
    assert forall|i: int| 0 <= i < d.len() implies #[trigger] d[i] != '\n' && !crate::text::is_space(d[i]) by {
        assert(crate::number::is_digit(d[i]));
    }
    assert(clean(headers[1])) by {
        assert(!crate::text::is_space(d[0]));
        assert(!crate::text::is_space(d[d.len() - 1]));
    }
    assert(all_clean(headers));
    assert(lower("Content-Type"@)[8] == 't');
    assert("content-length"@[8] == 'l');
    assert(lower("Content-Length"@) =~= "content-length"@);
    if length <= usize::MAX {
        crate::number::decimal_round_trip(length, usize::MAX as nat);
        crate::message_laws::first_length_counts(headers, 1);
    }
}

/// A file that the plain file server sends is read back with its bytes; a directory with
/// its listing.
pub proof fn plain_files_are_read_back(file: Seq<char>, body: Seq<u8>, list: Seq<crate::listing::EntryV>)
    requires
        body.len() <= u64::MAX,
        body.len() <= usize::MAX,
        encode_utf8(listing(list, Layout::Plain)).len() <= usize::MAX,
        clean(("Content-Type"@, type_of(file_name(file)))),
    ensures
        fetched(NodeV::File { size: body.len() as u64 }, file, true) matches SentV::File { head, send } && send && (
        response_read(head + body, false) matches Ok(r) && r.status == 200 && r.body == body),
        fetched(NodeV::Dir { entries: Ok(list) }, file, true) matches SentV::Answer { bytes } && (response_read(bytes, false)
            matches Ok(r) && r.status == 200 && r.body == encode_utf8(listing(list, Layout::Plain))),
{
    lemma_status_line(200);
    let line = status_line(200).drop_last();
    lemma_typed_clean(type_of(file_name(file)), body.len());
    lemma_message(line, typed(type_of(file_name(file)), body.len()), body, false);
    let text = encode_utf8(listing(list, Layout::Plain));
    reveal_strlit("Content-Type");
    reveal_strlit("application/json");
    assert(clean(("Content-Type"@, "application/json"@)));
    lemma_typed_clean("application/json"@, text.len());
    lemma_message(line, typed("application/json"@, text.len()), text, false);
}

/// An answer without a body is read back with its status and none.
#[verifier::rlimit(40)]
pub proof fn empty_answers_are_read_back(code: u16)
    ensures
        response_read(empty_bytes(code), false) matches Ok(r) && r.status == code && r.body.len() == 0,
{
    lemma_status_line(code);
    let line = status_line(code).drop_last();
    let headers = seq![("Content-Length"@, "0"@), ("Connection"@, "close"@)];
    reveal_strlit("Connection");
    reveal_strlit("close");
    reveal_strlit("Content-Length");
    reveal_strlit("content-length");
    reveal_strlit("0");
    assert(clean(headers[0]));
    assert(clean(headers[1]));
    assert(all_clean(headers));
    assert(lower("Content-Length"@) =~= "content-length"@);
    assert(decimal(0) =~= "0"@);
    crate::number::decimal_round_trip(0, usize::MAX as nat);
    crate::message_laws::first_length_counts(headers, 0);
    let none = Seq::<u8>::empty();
    lemma_message(line, headers, none, false);
    assert(empty_bytes(code) + none =~= empty_bytes(code));
}

/// A refused request comes back as an error that tells the status first.
pub proof fn refusals_tell_the_status(code: u16, body: Seq<u8>)
    ensures
        http_error(code, body).fault == Fault::Http,
        (decimal(code as nat) + ": "@).is_prefix_of(http_error(code, body).detail),
        is_success(code) <==> 200 <= code < 300,
{
    let front = decimal(code as nat) + ": "@;
    let detail = http_error(code, body).detail;
    assert(detail.subrange(0, front.len() as int) =~= front);
}

} // verus!
