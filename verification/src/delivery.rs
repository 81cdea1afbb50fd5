//! What holds from one client over the server to another.

use vstd::prelude::*;

use crate::auth::{
    authorization, claim_in, claim_read_back, header_signature, header_value, in_window, plain_address, requestor,
    signature_header, signed_request_is_accepted, signing_bytes, CallV,
};
use crate::base64url::{encoded, symbol};
use crate::crypto::{signed, verified, DEFAULT_ENCRYPTION_ALGORITHM};
use crate::download::{downloaded, download_returns_the_content};
use crate::error::ErrorV;
use crate::fields::{
    attribute_fields, fields_of, has_owner, header_fields, header_name, metadata_key, metadata_of, Field,
};
use crate::http::{final_headers, has_header, host_header, request_bytes, request_read, response_read, sorted, RequestV};
use crate::locate::client_url;
use crate::membership::{file_key, identity_at};
use crate::metadata::member_at;
use crate::number::{decimal, is_digit, lemma_decimal};
use crate::permissions::{changed, owner_remains};
use crate::primitives::{percent_decoded, UrlPartsV};
use crate::round_trip::{header_belongs, lemma_header_name};
use crate::sealing::{own_keys, stream_decrypted};
use crate::server::{
    call_of, content_checked, got, handled, only_metadata, pair_value, routed, AccountV, ActionV, Content, DiskV, NodeV,
    PlaceV, ReplyV,
};
use crate::server_laws::{
    header_text, lemma_header_token, lemma_sorted_read_back, lemma_token_clean, owner_write_is_stored,
    stored_file_is_read_back, tidy, token,
};
use crate::text::{before, lemma_first_is, lower, split};
use crate::types::{ContextV, IdentityV, MemberV, MetadataV, Permission};
use crate::upload::{
    body_uploaded, every_member_reads, keyless, lemma_same_addresses, upload_call, upload_hash, upload_holds,
    upload_query, upload_url, uploaded, JobV, UploadV,
};
use crate::wire::{all_clean, clean, request_round_trip, sorting_keeps_headers, with_query};

verus! {

/// Whether a server takes a request to a URL to a place, under the path that was
/// signed.
pub open spec fn arrives(method: Seq<char>, url: UrlPartsV, place: PlaceV) -> bool {
    &&& url.path.len() > 0
    &&& percent_decoded(with_query(url.path, url.query)) matches Some(target)
    &&& routed(method, target) == Ok::<PlaceV, ReplyV>(place)
    &&& place.path == url.path
    &&& place.query == url.query
}

/// Whether an upload can be written as a request that is read back: its texts can
/// be the values of headers, and its sizes fit the machine.
pub open spec fn can_travel(u: UploadV, url: UrlPartsV) -> bool {
    &&& tidy(u.metadata)
    &&& plain_address(u.metadata.modified_by)
    &&& host_header(url) matches Some(host)
    &&& header_text(host)
    &&& u.metadata.members.len() <= usize::MAX
    &&& u.body.len() <= usize::MAX
}

// Headers.

proof fn lemma_header_value(list: Seq<(Seq<char>, Seq<char>)>, name: Seq<char>, value: Seq<char>)
    requires
        exists|i: int| 0 <= i < list.len() && lower((#[trigger] list[i]).0) == lower(name),
        forall|i: int| 0 <= i < list.len() && lower((#[trigger] list[i]).0) == lower(name) ==> list[i].1 == value,
    ensures
        header_value(list, name) == Some(value),
    decreases list.len(),
{
    if lower(list[0].0) != lower(name) {
        let rest = list.skip(1);
        let i = choose|i: int| 0 <= i < list.len() && lower((#[trigger] list[i]).0) == lower(name);
        assert(rest[i - 1] == list[i]);
        assert forall|k: int| 0 <= k < rest.len() && lower((#[trigger] rest[k]).0) == lower(name) implies rest[k].1
            == value by {
            assert(rest[k] == list[k + 1]);
        }
        lemma_header_value(rest, name, value);
    }
}

proof fn lemma_sorted_value(list: Seq<(Seq<char>, Seq<char>)>, name: Seq<char>, value: Seq<char>)
    requires
        exists|i: int| 0 <= i < list.len() && lower((#[trigger] list[i]).0) == lower(name),
        forall|i: int| 0 <= i < list.len() && lower((#[trigger] list[i]).0) == lower(name) ==> list[i].1 == value,
    ensures
        header_value(sorted(list), name) == Some(value),
{
    broadcast use vstd::seq_lib::group_to_multiset_ensures;

    let s = sorted(list);
    sorting_keeps_headers(list);
    let i = choose|i: int| 0 <= i < list.len() && lower((#[trigger] list[i]).0) == lower(name);
    assert(list.contains(list[i]));
    assert(list.to_multiset().count(list[i]) > 0);
    assert(s.contains(list[i]));
    let j = choose|j: int| 0 <= j < s.len() && s[j] == list[i];
    assert(lower(s[j].0) == lower(name));
    assert forall|k: int| 0 <= k < s.len() && lower((#[trigger] s[k]).0) == lower(name) implies s[k].1 == value by {
        assert(s.contains(s[k]));
        assert(s.to_multiset().count(s[k]) > 0);
        assert(list.contains(s[k]));
        let n = choose|n: int| 0 <= n < list.len() && list[n] == s[k];
        assert(lower(list[n].0) == lower(name));
    }
    lemma_header_value(s, name, value);
}

/// The names of headers that carry metadata start with one of two letters.
proof fn lemma_metadata_letter(name: Seq<char>)
    requires
        metadata_key(name) is Some,
    ensures
        lower(name).len() > 0,
        lower(name)[0] == 'u' || lower(name)[0] == 'x',
{
    reveal_strlit("user.ark.");
    reveal_strlit("x-ark-meta-");
    assert(lower(name.take(9))[0] == lower(name)[0]);
    if name.len() > 11 {
        assert(lower(name.take(11))[0] == lower(name)[0]);
    }
}

proof fn lemma_other_names()
    ensures
        lower("Authorization"@) == lower("authorization"@),
        lower("Host"@) == lower("host"@),
        lower("Authorization"@)[0] == 'a',
        lower("Authorization"@).len() == 13,
        lower("Connection"@)[0] == 'c',
        lower("Connection"@).len() == 10,
        lower("Host"@)[0] == 'h',
        lower("Host"@).len() == 4,
        lower("Content-Length"@)[0] == 'c',
        lower("Content-Length"@).len() == 14,
        token("Authorization"@),
        token("Connection"@),
        token("Host"@),
        token("Content-Length"@),
        header_text("close"@),
{
    reveal_strlit("Authorization");
    reveal_strlit("authorization");
    reveal_strlit("Connection");
    reveal_strlit("Host");
    reveal_strlit("host");
    reveal_strlit("Content-Length");
    reveal_strlit("close");
    assert(lower("Authorization"@) =~= lower("authorization"@));
    assert(lower("Host"@) =~= lower("host"@));
}

proof fn lemma_symbols(b: Seq<u8>)
    ensures
        forall|i: int| 0 <= i < encoded(b).len() ==> (#[trigger] encoded(b)[i]) != '\n',
    decreases b.len(),
{
    assert forall|v: int| 0 <= v < 64 implies #[trigger] symbol(v) != '\n' by {}
    if b.len() >= 3 {
        lemma_symbols(b.skip(3));
        let s = encoded(b);
        assert forall|i: int| 0 <= i < s.len() implies (#[trigger] s[i]) != '\n' by {
            if i >= 4 {
                assert(s[i] == encoded(b.skip(3))[i - 4]);
            }
        }
    }
}

proof fn lemma_no_break(a: Seq<char>, b: Seq<char>)
    requires
        forall|i: int| 0 <= i < a.len() ==> #[trigger] a[i] != '\n',
        forall|i: int| 0 <= i < b.len() ==> #[trigger] b[i] != '\n',
    ensures
        forall|i: int| 0 <= i < (a + b).len() ==> #[trigger] (a + b)[i] != '\n',
{
}

/// The `Authorization` header can be the value of a header.
proof fn lemma_authorization_text(address: Seq<char>, timestamp: nat, signature: Seq<u8>)
    requires
        header_text(address),
    ensures
        header_text(authorization(address, timestamp, signature)),
{
    reveal_strlit("ArkAccount address=\"");
    reveal_strlit("\", timestamp=\"");
    reveal_strlit("\", signature=\"");
    reveal_strlit("\"");
    let d = decimal(timestamp);
    lemma_decimal(timestamp);
    assert forall|i: int| 0 <= i < d.len() implies #[trigger] d[i] != '\n' by {
        assert(is_digit(d[i]));
    }
    lemma_symbols(signature);
    let a = "ArkAccount address=\""@ + address;
    lemma_no_break("ArkAccount address=\""@, address);
    lemma_no_break(a, "\", timestamp=\""@);
    let b = a + "\", timestamp=\""@;
    lemma_no_break(b, d);
    let c = b + d;
    lemma_no_break(c, "\", signature=\""@);
    let e = c + "\", signature=\""@;
    lemma_no_break(e, encoded(signature));
    let f = e + encoded(signature);
    lemma_no_break(f, "\""@);
    let value = authorization(address, timestamp, signature);
    assert(value == f + "\""@);
    assert(value[0] == 'A');
    assert(value.last() == '"');
}

proof fn lemma_decimal_text(n: nat)
    ensures
        header_text(decimal(n)),
{
    let d = decimal(n);
    lemma_decimal(n);
    assert forall|i: int| 0 <= i < d.len() implies #[trigger] d[i] != '\n' by {
        assert(is_digit(d[i]));
    }
    assert(is_digit(d[0]) && is_digit(d[d.len() - 1]));
}

/// The headers of an upload before the length of its body is added.
spec fn sent_headers(m: MetadataV, value: Seq<char>, host: Seq<char>) -> Seq<(Seq<char>, Seq<char>)> {
    header_fields(m).push(("Authorization"@, value)).push(("Connection"@, "close"@)).push(("Host"@, host))
}

proof fn lemma_sent_headers(m: MetadataV, value: Seq<char>, host: Seq<char>, size: nat)
    requires
        tidy(m),
        header_text(value),
        header_text(host),
        has_owner(m.members),
        m.members.len() <= usize::MAX,
    ensures
        all_clean(sent_headers(m, value, host)),
        !has_header(sent_headers(m, value, host), "Content-Length"@),
        ({
            let headers = final_headers(sent_headers(m, value, host), size);
            &&& header_value(headers, "authorization"@) == Some(value)
            &&& header_value(headers, "host"@) == Some(host)
            &&& metadata_of(headers) == Ok::<MetadataV, ErrorV>(m)
        }),
{
    let own = header_fields(m);
    let n = own.len() as int;
    let list = sent_headers(m, value, host);
    let whole = list.push(("Content-Length"@, decimal(size)));
    lemma_other_names();
    lemma_decimal_text(size);
    lemma_token_clean("Authorization"@, value);
    lemma_token_clean("Connection"@, "close"@);
    lemma_token_clean("Host"@, host);
    lemma_token_clean("Content-Length"@, decimal(size));
    assert forall|i: int| 0 <= i < n implies clean(#[trigger] own[i]) && metadata_key(own[i].0) is Some && (lower(
        own[i].0,
    )[0] == 'u' || lower(own[i].0)[0] == 'x') by {
        let f = fields_of(m)[i].0;
        assert(own[i] == (header_name(f), fields_of(m)[i].1));
        lemma_header_token(f);
        lemma_header_name(f);
        lemma_metadata_letter(header_name(f));
        lemma_token_clean(header_name(f), fields_of(m)[i].1);
    }
    assert(whole[n] == ("Authorization"@, value));
    assert(whole[n + 1] == ("Connection"@, "close"@));
    assert(whole[n + 2] == ("Host"@, host));
    assert(whole[n + 3] == ("Content-Length"@, decimal(size)));
    assert forall|i: int| 0 <= i < n implies #[trigger] whole[i] == own[i] by {}
    assert forall|i: int| 0 <= i < list.len() implies clean(#[trigger] list[i]) && lower(list[i].0) != lower(
        "Content-Length"@,
    ) by {
        assert(list[i] == whole[i]);
        if i < n {
            assert(list[i] == own[i]);
        }
    }
    assert(lower(whole[n].0) == lower("authorization"@));
    assert forall|i: int| 0 <= i < whole.len() && lower((#[trigger] whole[i]).0) == lower("authorization"@) implies whole[i].1
        == value by {
        if i < n {
            assert(whole[i] == own[i]);
        }
    }
    lemma_sorted_value(whole, "authorization"@, value);
    assert(lower(whole[n + 2].0) == lower("host"@));
    assert forall|i: int| 0 <= i < whole.len() && lower((#[trigger] whole[i]).0) == lower("host"@) implies whole[i].1
        == host by {
        if i < n {
            assert(whole[i] == own[i]);
        }
    }
    lemma_sorted_value(whole, "host"@, host);
    assert forall|i: int| 0 <= i < whole.len() implies header_belongs(m, #[trigger] whole[i]) by {
        if i < n {
            assert(whole[i] == own[i]);
            assert(own.contains(own[i]));
        } else if metadata_key(whole[i].0) is Some {
            lemma_metadata_letter(whole[i].0);
        }
    }
    lemma_sorted_read_back(m, whole);
}

// Uploads.

proof fn lemma_upload_query(metadata_only: bool)
    ensures
        only_metadata(Some(upload_query(metadata_only))) == metadata_only,
{
    reveal_strlit("relay=full");
    reveal_strlit("relay=full&metadata");
    reveal_strlit("metadata");
    let front = "relay=full"@;
    let name = "metadata"@;
    lemma_first_is(front, '&', 10);
    lemma_first_is(front, '=', 5);
    lemma_first_is(name, '&', 8);
    lemma_first_is(name, '=', 8);
    assert(split(front, '&') =~= seq![front]);
    assert(split(name, '&') =~= seq![name]);
    assert(before(front, '=').len() == 5);
    assert(name.take(8) =~= name);
    if metadata_only {
        let q = "relay=full&metadata"@;
        lemma_first_is(q, '&', 10);
        assert(q.take(10) =~= front);
        assert(q.skip(11) =~= name);
        assert(split(q, '&') =~= seq![front, name]);
        assert(seq![front, name].skip(1) =~= seq![name]);
        assert(pair_value(seq![name], name) is Some);
    } else {
        assert(seq![front].skip(1) =~= Seq::<Seq<char>>::empty());
        assert(pair_value(seq![front].skip(1), name) is None);
    }
}

proof fn lemma_same_owners(a: Seq<MemberV>, b: Seq<MemberV>)
    requires
        has_owner(b),
        a.len() == b.len(),
        forall|i: int| 0 <= i < a.len() ==> (#[trigger] a[i]).permission == b[i].permission,
    ensures
        has_owner(a),
{
    let i = choose|i: int| 0 <= i < b.len() && (#[trigger] b[i]).permission == Permission::Owner;
    assert(a[i].permission == Permission::Owner);
}

/// Some owner is a member of every upload.
pub proof fn lemma_upload_owner(
    ctx: ContextV,
    dir: Seq<(Seq<char>, Result<IdentityV, ErrorV>)>,
    job: JobV,
    now: Seq<char>,
    timestamp: nat,
    u: UploadV,
)
    requires
        uploaded(ctx, dir, job, now, timestamp, u),
    ensures
        has_owner(u.metadata.members),
{
    let base = job.base(ctx.identity.address, now, u.metadata.id);
    let encrypted = base.encryption_algorithm is Some;
    let list = changed(base.members, job.permissions, encrypted)->Ok_0;
    let members = u.metadata.members;
    owner_remains(base.members, job.permissions, encrypted);
    if job.content() is Some {
        assert(keyless(list).len() == list.len() && keyless(members).len() == members.len());
        assert forall|i: int| 0 <= i < keyless(list).len() implies (#[trigger] keyless(list)[i]).permission
            == list[i].permission by {}
        if u.metadata.encryption_algorithm is Some && !job.already_encrypted() {
            assert(keyless(members) == keyless(list));
            assert forall|i: int| 0 <= i < members.len() implies (#[trigger] members[i]).permission
                == list[i].permission by {
                assert(keyless(members)[i].permission == keyless(list)[i].permission);
            }
        }
    }
    lemma_same_owners(members, list);
}

/// What the server makes of the headers of a request, once more in detail.
proof fn lemma_taken_for_owner(
    ctx: ContextV,
    m: MetadataV,
    value: Seq<char>,
    signature: Seq<u8>,
    host: Seq<char>,
    timestamp: nat,
    request: RequestV,
    place: PlaceV,
    others: Seq<(Seq<char>, Result<IdentityV, ErrorV>)>,
    clock: nat,
)
    requires
        plain_address(ctx.identity.address),
        value == authorization(ctx.identity.address, timestamp, signature),
        header_value(request.headers, "authorization"@) == Some(value),
        header_value(request.headers, "host"@) == Some(host),
        verified(
            ctx.identity.public_key,
            header_signature(signature),
            signing_bytes(CallV { method: request.method, host, path: place.path, body: request.body }, timestamp),
        ) is Ok,
        timestamp <= u64::MAX,
        in_window(clock, timestamp),
    ensures
        requestor(ctx.identity, others, request.headers, clock, call_of(request, place)) == Ok::<IdentityV, ErrorV>(
            ctx.identity,
        ),
        claim_in(value) matches Ok(claim) && claim.address == ctx.identity.address,
{
    let call = CallV { method: request.method, host, path: place.path, body: request.body };
    assert(call_of(request, place) == call);
    let own = ctx.identity;
    signed_request_is_accepted(own, others, own.address, timestamp, signature, clock, call, own);
    claim_read_back(own.address, timestamp, signature);
}

/// What the server reads of an upload, once more in detail.
#[verifier::spinoff_prover]
#[verifier::rlimit(60)]
proof fn lemma_upload_read(
    ctx: ContextV,
    dir: Seq<(Seq<char>, Result<IdentityV, ErrorV>)>,
    job: JobV,
    now: Seq<char>,
    timestamp: nat,
    u: UploadV,
    url: UrlPartsV,
    place: PlaceV,
    value: Seq<char>,
)
    requires
        uploaded(ctx, dir, job, now, timestamp, u),
        client_url(ctx.identity.address, job.path) == Ok::<UrlPartsV, ErrorV>(url),
        can_travel(u, url),
        arrives("PUT"@, upload_url(url, job.metadata_only), place),
        signature_header(ctx, upload_call(url, u.body), timestamp) == Ok::<Seq<char>, ErrorV>(value),
    ensures
        request_read(u.request, false) matches Ok(request) && request.method == "PUT"@ && request.body == u.body
            && request.headers == final_headers(sent_headers(u.metadata, value, host_header(url)->0), u.body.len()),
        header_value(
            final_headers(sent_headers(u.metadata, value, host_header(url)->0), u.body.len()),
            "authorization"@,
        ) == Some(value),
        header_value(
            final_headers(sent_headers(u.metadata, value, host_header(url)->0), u.body.len()),
            "host"@,
        ) == Some(host_header(url)->0),
        metadata_of(final_headers(sent_headers(u.metadata, value, host_header(url)->0), u.body.len())) == Ok::<
            MetadataV,
            ErrorV,
        >(u.metadata),
{
    let m = u.metadata;
    let asked = upload_url(url, job.metadata_only);
    let host = host_header(url)->0;
    let signature = signed(ctx.identity_key->0, signing_bytes(upload_call(url, u.body), timestamp))->Ok_0;
    assert(fields_of(m)[3] == (Field::ModifiedBy, m.modified_by));
    lemma_authorization_text(m.modified_by, timestamp, signature.value);
    lemma_upload_owner(ctx, dir, job, now, timestamp, u);
    lemma_sent_headers(m, value, host, u.body.len());
    let given = header_fields(m).push(("Authorization"@, value)).push(("Connection"@, "close"@));
    assert(given.push(("Host"@, host)) == sent_headers(m, value, host));
    assert(host_header(asked) == Some(host));
    assert(u.request == request_bytes(host, asked.path, asked.query, "PUT"@, given, u.body));
    reveal_strlit("PUT");
    request_round_trip(host, asked.path, asked.query, "PUT"@, given, u.body);
}

/// What an upload is accepted as.
proof fn lemma_upload_content(
    ctx: ContextV,
    dir: Seq<(Seq<char>, Result<IdentityV, ErrorV>)>,
    job: JobV,
    now: Seq<char>,
    timestamp: nat,
    u: UploadV,
    existing: Result<MetadataV, ErrorV>,
)
    requires
        uploaded(ctx, dir, job, now, timestamp, u),
        upload_holds(ctx, job, timestamp, u, ctx.identity.public_key),
        job.metadata_only ==> (existing matches Ok(stored) && stored.body_hash == u.metadata.body_hash),
    ensures
        u.metadata.modified_by == ctx.identity.address,
        content_checked(
            ctx.identity.public_key,
            u.metadata,
            existing,
            u.body,
            only_metadata(Some(upload_query(job.metadata_only))),
        ) == Ok::<Content, ErrorV>(
            if job.metadata_only {
                Content::Kept
            } else if job.is_dir() {
                Content::Dir
            } else {
                Content::Body
            },
        ),
{
    lemma_upload_query(job.metadata_only);
    if !job.metadata_only {
        assert(u.metadata.body_hash == upload_hash(
            job,
            job.base(ctx.identity.address, now, u.metadata.id),
            u.body,
        ));
        if job.is_dir() {
            assert(u.body.len() == 0);
        } else {
            assert(u.metadata.body_hash is Some);
        }
    }
}

/// An upload by the owner of an account is stored by the server of the account as
/// it was made: the server reads the request as it was written, takes it for that
/// of the owner, and accepts the metadata. Where only the metadata is uploaded, the
/// file must be there with the same body.
#[verifier::spinoff_prover]
#[verifier::rlimit(60)]
pub proof fn own_upload_is_stored(
    ctx: ContextV,
    dir: Seq<(Seq<char>, Result<IdentityV, ErrorV>)>,
    job: JobV,
    now: Seq<char>,
    timestamp: nat,
    u: UploadV,
    url: UrlPartsV,
    place: PlaceV,
    disk: DiskV,
    others: Seq<(Seq<char>, Result<IdentityV, ErrorV>)>,
    clock: nat,
)
    requires
        uploaded(ctx, dir, job, now, timestamp, u),
        upload_holds(ctx, job, timestamp, u, ctx.identity.public_key),
        client_url(ctx.identity.address, job.path) == Ok::<UrlPartsV, ErrorV>(url),
        can_travel(u, url),
        arrives("PUT"@, upload_url(url, job.metadata_only), place),
        timestamp <= u64::MAX,
        in_window(clock, timestamp),
        disk.account == (AccountV::Present { identity: ctx.identity }),
        !disk.symlink,
        job.metadata_only ==> (disk.metadata() matches Ok(stored) && stored.body_hash == u.metadata.body_hash),
    ensures
        ({
            &&& request_read(u.request, false) matches Ok(request)
            &&& request.body == u.body
            &&& handled(request, place, disk, others, clock) matches ActionV::Store { metadata, content, status }
            &&& metadata == u.metadata
            &&& content == (if job.metadata_only {
                Content::Kept
            } else if job.is_dir() {
                Content::Dir
            } else {
                Content::Body
            })
        }),
{
    let own = ctx.identity;
    let call = upload_call(url, u.body);
    let host = host_header(url)->0;
    let signature = signed(ctx.identity_key->0, signing_bytes(call, timestamp))->Ok_0.value;
    let value = authorization(own.address, timestamp, signature);
    lemma_upload_content(ctx, dir, job, now, timestamp, u, disk.metadata());
    lemma_upload_read(ctx, dir, job, now, timestamp, u, url, place, value);
    let request = request_read(u.request, false)->Ok_0;
    lemma_taken_for_owner(ctx, u.metadata, value, signature, host, timestamp, request, place, others, clock);
    owner_write_is_stored(request, place, disk, others, clock, own, u.metadata);
}

/// What was uploaded for a file is what a member downloads from where it was
/// stored: the content itself where it is not encrypted, and otherwise decrypted
/// with the file key that was wrapped for the member. The uploader knows the member
/// by their identity, and the member knows the uploader by their public key.
#[verifier::spinoff_prover]
#[verifier::rlimit(60)]
pub proof fn members_read_the_upload(
    ctx: ContextV,
    dir: Seq<(Seq<char>, Result<IdentityV, ErrorV>)>,
    job: JobV,
    now: Seq<char>,
    timestamp: nat,
    u: UploadV,
    plaintext: Seq<u8>,
    reader: ContextV,
    others: Seq<(Seq<char>, Result<IdentityV, ErrorV>)>,
    path: Seq<char>,
    attributes: Seq<(Seq<char>, Seq<u8>)>,
    above: Seq<Result<Seq<(Seq<char>, Seq<u8>)>, ErrorV>>,
    file: Seq<char>,
)
    requires
        uploaded(ctx, dir, job, now, timestamp, u),
        upload_holds(ctx, job, timestamp, u, ctx.identity.public_key),
        job.content() == Some(plaintext),
        !job.already_encrypted(),
        u.metadata.encryption_algorithm matches Some(a) ==> a == DEFAULT_ENCRYPTION_ALGORITHM@,
        own_keys(ctx),
        own_keys(reader),
        member_at(u.metadata.members, reader.identity.address) is Some,
        identity_at(ctx.identity, dir, reader.identity.address) == Ok::<IdentityV, ErrorV>(reader.identity),
        identity_at(reader.identity, others, ctx.identity.address) matches Ok(known) && known.public_key
            == ctx.identity.public_key,
        tidy(u.metadata),
        u.metadata.members.len() <= usize::MAX,
        u.body.len() <= usize::MAX,
        forall|j: int| 0 <= j < attributes.len() ==> !"user.ark."@.is_prefix_of((#[trigger] attributes[j]).0),
    ensures
        ({
            let disk = DiskV {
                account: AccountV::Present { identity: ctx.identity },
                symlink: false,
                attributes: Ok(attributes + attribute_fields(u.metadata)),
                above,
                node: NodeV::File { size: u.body.len() as u64 },
            };
            &&& got(disk, file, None, true) matches ActionV::File { head, send }
            &&& send
            &&& response_read(head + u.body, false) matches Ok(response)
            &&& downloaded(reader, others, path, response, true, None) matches Ok(download)
            &&& download.body == plaintext
            &&& download.metadata == u.metadata
        }),
{
    let m = u.metadata;
    let account = AccountV::Present { identity: ctx.identity };
    lemma_upload_owner(ctx, dir, job, now, timestamp, u);
    stored_file_is_read_back(m, attributes, u.body, file, account, above, false);
    let disk = DiskV {
        account,
        symlink: false,
        attributes: Ok(attributes + attribute_fields(m)),
        above,
        node: NodeV::File { size: u.body.len() as u64 },
    };
    let response = response_read(got(disk, file, None, true)->File_head + u.body, false)->Ok_0;
    let known = identity_at(reader.identity, others, m.modified_by)->Ok_0;
    if m.encryption_algorithm is Some {
        lemma_members_decrypt(ctx, dir, job, now, timestamp, u, plaintext, reader);
        download_returns_the_content(reader, others, path, response, m, known, plaintext);
    }
}

proof fn lemma_members_decrypt(
    ctx: ContextV,
    dir: Seq<(Seq<char>, Result<IdentityV, ErrorV>)>,
    job: JobV,
    now: Seq<char>,
    timestamp: nat,
    u: UploadV,
    plaintext: Seq<u8>,
    reader: ContextV,
)
    requires
        uploaded(ctx, dir, job, now, timestamp, u),
        job.content() == Some(plaintext),
        !job.already_encrypted(),
        u.metadata.encryption_algorithm == Some(DEFAULT_ENCRYPTION_ALGORITHM@),
        own_keys(ctx),
        own_keys(reader),
        member_at(u.metadata.members, reader.identity.address) is Some,
        identity_at(ctx.identity, dir, reader.identity.address) == Ok::<IdentityV, ErrorV>(reader.identity),
    ensures
        stream_decrypted(reader, u.metadata, u.body) == Ok::<Seq<u8>, ErrorV>(plaintext),
{
    let base = job.base(ctx.identity.address, now, u.metadata.id);
    let list = changed(base.members, job.permissions, base.encryption_algorithm is Some)->Ok_0;
    assert(body_uploaded(ctx, dir, list, false, plaintext, u.metadata, u.body));
    assert(file_key(ctx, u.metadata.members) is Ok);
    lemma_same_addresses(u.metadata.members, list, ctx.identity.address);
    lemma_same_addresses(u.metadata.members, list, reader.identity.address);
    every_member_reads(ctx, dir, list, plaintext, u.metadata, u.body, reader);
}

} // verus!
