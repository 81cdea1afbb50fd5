//! Accounts, groups and the identities of others.

use vstd::prelude::*;

use crate::crypto::{create_secret_key, keys_match, owned, DEFAULT_SIGNING_ALGORITHM};
use crate::error::{bare, fail, fail_with, seen, with, Error, ErrorV, Fault};
use crate::identity::{
    address_parts, create_identity_with_key, identity_of, identity_valid, key_file, parse_address, sign_identity,
    unsigned_identity, validate_identity,
};
use crate::json::{identity_json, write_identity_json};
use crate::locate::{bare_address, from_root, is_address, names_account, take_scheme};
use crate::primitives::{prettify, pretty_json};
use crate::text::{
    concat, concat3, copy_texts, ends_with, first, from_chars, holds, opt_text, part, same, texts, to_chars,
};
use crate::types::{
    no_permissions, opt_texts, Context, ContextV, Identity, IdentityV, Key, Permissions, PermissionsV, Tagged,
};

verus! {

// Documents.

/// The document of an identity, over several lines.
pub fn write_identity(identity: &Identity) -> (r: Option<String>)
    ensures
        opt_text(r) == pretty_json(identity_json(identity@)),
{
    prettify(&write_identity_json(identity))
}

/// The path of the file with the secret key of an identity: beside the document,
/// with another suffix.
pub open spec fn key_path(json_path: Seq<char>) -> Seq<char> {
    if ".json"@.len() <= json_path.len() && json_path.skip(json_path.len() - ".json"@.len()) == ".json"@ {
        json_path.take(json_path.len() - ".json"@.len()) + ".key"@
    } else {
        json_path + ".key"@
    }
}

/// Whether a path has the suffix of an identity.
pub open spec fn is_json(path: Seq<char>) -> bool {
    ".json"@.len() <= path.len() && path.skip(path.len() - ".json"@.len()) == ".json"@
}

/// The path of the file with the secret key of an identity.
pub fn key_path_for(json_path: &str) -> (r: String)
    ensures
        r@ == key_path(json_path@),
{
    if ends_with(json_path, ".json") {
        let chars = to_chars(json_path);
        let n: usize = chars.len();
        proof {
            reveal_strlit(".json");
        }
        let stem = from_chars(part(&chars, 0, n - 5));
        assert(stem@ =~= json_path@.take(json_path@.len() - ".json"@.len()));
        concat(&stem, ".key")
    } else {
        concat(json_path, ".key")
    }
}

/// The address of a path: its own where it is one, without a scheme, otherwise that
/// of the account with the path behind it.
pub open spec fn address_of(account: Seq<char>, path: Seq<char>) -> Seq<char> {
    if is_address(path) {
        bare_address(path)
    } else {
        account + from_root(path)
    }
}

/// The address of a path.
pub fn resolve_address(ctx: &Context, path: &str) -> (r: String)
    ensures
        r@ == address_of(ctx@.identity.address, path@),
{
    let chars = to_chars(path);
    if names_account(path) {
        take_scheme(path).1
    } else if chars.len() > 0 && chars[0] == '/' {
        concat(&ctx.identity.address, path)
    } else {
        let rooted = concat("/", path);
        concat(&ctx.identity.address, &rooted)
    }
}

// New accounts.

/// The directory of an account below the root of a server.
pub open spec fn account_file(root: Seq<char>, name: Seq<char>, file: Seq<char>) -> Seq<char> {
    root + "/ark/"@ + name + "/.ark/"@ + file
}

fn write_account_file(root: &str, name: &str, file: &str) -> (r: String)
    ensures
        r@ == account_file(root@, name@, file@),
{
    let mut out = concat3(root, "/ark/", name);
    out.append("/.ark/");
    out.append(file);
    out
}

/// A new account on a server.
#[derive(Debug)]
pub struct NewAccount {
    pub name: String,
    pub identity: Identity,
    /// The content of the key file.
    pub key: String,
}

/// The view of a new account.
#[verifier::ext_equal]
pub struct NewAccountV {
    pub name: Seq<char>,
    pub identity: IdentityV,
    pub key: Seq<char>,
}

impl View for NewAccount {
    type V = NewAccountV;

    open spec fn view(&self) -> NewAccountV {
        NewAccountV { name: self.name@, identity: self.identity@, key: self.key@ }
    }
}

/// The account that is made with a key: its files must not be there yet, and its
/// name must be one for an account.
pub open spec fn new_account(
    root: Seq<char>,
    address: Seq<char>,
    secret: Tagged,
    has_identity: bool,
    has_key: bool,
) -> Result<NewAccountV, ErrorV> {
    match address_parts(address) {
        Err(e) => Err(e),
        Ok(parts) => if has_identity {
            Err(with(Fault::FileExists, account_file(root, parts.0, "identity.json"@)))
        } else if has_key {
            Err(with(Fault::FileExists, account_file(root, parts.0, "identity.key"@)))
        } else {
            match identity_of(secret, address, None) {
                Err(e) => Err(e),
                Ok(identity) => match identity_valid(identity) {
                    Err(e) => Err(e),
                    Ok(_) => Ok(NewAccountV { name: parts.0, identity, key: key_file(secret.value) }),
                },
            }
        },
    }
}

/// Makes an account with a key.
pub fn create_account_with_key(root: &str, address: &str, key: &Key, has_identity: bool, has_key: bool) -> (r: Result<
    NewAccount,
    Error,
>)
    ensures
        seen(r) == new_account(root@, address@, key@, has_identity, has_key),
{
    let (name, _, _) = match parse_address(address) {
        Ok(p) => p,
        Err(e) => {
            return Err(e);
        },
    };
    if has_identity {
        return Err(fail_with(Fault::FileExists, write_account_file(root, &name, "identity.json")));
    }
    if has_key {
        return Err(fail_with(Fault::FileExists, write_account_file(root, &name, "identity.key")));
    }
    let identity = match create_identity_with_key(key, address, None) {
        Ok(i) => i,
        Err(e) => {
            return Err(e);
        },
    };
    match validate_identity(&identity) {
        Ok(()) => {},
        Err(e) => {
            return Err(e);
        },
    }
    Ok(NewAccount { name, identity, key: crate::base64url::encode_base64url(&key.value) })
}

/// Makes an account with a fresh key.
pub fn create_account(root: &str, address: &str, has_identity: bool, has_key: bool) -> (r: Result<
    (NewAccount, Key),
    Error,
>)
    ensures
        r matches Ok((account, key)) ==> key@.algorithm == DEFAULT_SIGNING_ALGORITHM@ && key@.value.len() == 32
            && new_account(root@, address@, key@, has_identity, has_key) == Ok::<NewAccountV, ErrorV>(account@),
        r matches Err(e) ==> e.fault == Fault::Random || exists|key: Tagged|
            key.algorithm == DEFAULT_SIGNING_ALGORITHM@ && key.value.len() == 32 && #[trigger] new_account(
                root@,
                address@,
                key,
                has_identity,
                has_key,
            ) == Err::<NewAccountV, ErrorV>(e@),
{
    let key = match create_secret_key(DEFAULT_SIGNING_ALGORITHM) {
        Ok(k) => k,
        Err(e) => {
            return Err(e);
        },
    };
    match create_account_with_key(root, address, &key, has_identity, has_key) {
        Ok(account) => Ok((account, key)),
        Err(e) => {
            assert(new_account(root@, address@, key@, has_identity, has_key) == Err::<NewAccountV, ErrorV>(e@));
            Err(e)
        },
    }
}

// Groups.

/// A list with a text added, unless it is there.
pub open spec fn added(list: Seq<Seq<char>>, text: Seq<char>) -> Seq<Seq<char>> {
    if list.contains(text) {
        list
    } else {
        list.push(text)
    }
}

/// A list with several texts added.
pub open spec fn all_added(list: Seq<Seq<char>>, more: Seq<Seq<char>>) -> Seq<Seq<char>>
    decreases more.len(),
{
    if more.len() == 0 {
        list
    } else {
        added(all_added(list, more.drop_last()), more.last())
    }
}

/// The texts of a list that are not in another, nor one given text.
pub open spec fn outside(list: Seq<Seq<char>>, others: Seq<Seq<char>>, except: Seq<char>) -> Seq<Seq<char>>
    decreases list.len(),
{
    if list.len() == 0 {
        list
    } else if !others.contains(list.last()) && list.last() != except {
        outside(list.drop_last(), others, except).push(list.last())
    } else {
        outside(list.drop_last(), others, except)
    }
}

/// The texts of a list that are not in another.
pub open spec fn without_all(list: Seq<Seq<char>>, others: Seq<Seq<char>>) -> Seq<Seq<char>>
    decreases list.len(),
{
    if list.len() == 0 {
        list
    } else if !others.contains(list.last()) {
        without_all(list.drop_last(), others).push(list.last())
    } else {
        without_all(list.drop_last(), others)
    }
}

fn add_all(list: &mut Vec<String>, more: &[String])
    ensures
        texts(final(list)@) == all_added(texts(old(list)@), texts(more@)),
{
    let n: usize = more.len();
    let mut i: usize = 0;
    let ghost wanted = texts(more@);
    assert(all_added(texts(list@), wanted.take(0)) == texts(list@));
    while i < n
        invariant
            i <= n == more@.len(),
            wanted == texts(more@),
            texts(list@) == all_added(texts(old(list)@), wanted.take(i as int)),
        decreases n - i,
    {
        let ghost earlier = texts(list@);
        assert(wanted.take(i + 1).drop_last() =~= wanted.take(i as int));
        assert(wanted.take(i + 1).last() == more@[i as int]@);
        if !holds(list, &more[i]) {
            list.push(more[i].clone());
            assert(texts(list@) =~= earlier.push(more@[i as int]@));
        }
        i = i + 1;
    }
    assert(wanted.take(n as int) =~= wanted);
}

fn select_outside(list: &[String], others: &[String], except: &str) -> (r: Vec<String>)
    ensures
        texts(r@) == outside(texts(list@), texts(others@), except@),
{
    let mut out: Vec<String> = Vec::new();
    let n: usize = list.len();
    let mut i: usize = 0;
    let ghost all = texts(list@);
    assert(texts(out@) =~= outside(all.take(0), texts(others@), except@));
    while i < n
        invariant
            i <= n == list@.len(),
            all == texts(list@),
            texts(out@) == outside(all.take(i as int), texts(others@), except@),
        decreases n - i,
    {
        let ghost earlier = texts(out@);
        assert(all.take(i + 1).drop_last() =~= all.take(i as int));
        assert(all.take(i + 1).last() == list@[i as int]@);
        if !holds(others, &list[i]) && !same(&list[i], except) {
            out.push(list[i].clone());
            assert(texts(out@) =~= earlier.push(list@[i as int]@));
        }
        i = i + 1;
    }
    assert(all.take(n as int) =~= all);
    out
}

fn remove_all(list: &[String], others: &[String]) -> (r: Vec<String>)
    ensures
        texts(r@) == without_all(texts(list@), texts(others@)),
{
    let mut out: Vec<String> = Vec::new();
    let n: usize = list.len();
    let mut i: usize = 0;
    let ghost all = texts(list@);
    assert(texts(out@) =~= without_all(all.take(0), texts(others@)));
    while i < n
        invariant
            i <= n == list@.len(),
            all == texts(list@),
            texts(out@) == without_all(all.take(i as int), texts(others@)),
        decreases n - i,
    {
        let ghost earlier = texts(out@);
        assert(all.take(i + 1).drop_last() =~= all.take(i as int));
        assert(all.take(i + 1).last() == list@[i as int]@);
        if !holds(others, &list[i]) {
            out.push(list[i].clone());
            assert(texts(out@) =~= earlier.push(list@[i as int]@));
        }
        i = i + 1;
    }
    assert(all.take(n as int) =~= all);
    out
}

/// The members that a new identity lists: none, or the given ones without
/// repetitions.
pub open spec fn group_members(members: Seq<Seq<char>>) -> Option<Seq<Seq<char>>> {
    if members.len() == 0 {
        None
    } else {
        Some(all_added(Seq::empty(), members))
    }
}

/// The members of a group apart from the account itself.
pub open spec fn other_members(members: Option<Seq<Seq<char>>>, own: Seq<char>) -> Seq<Seq<char>> {
    match members {
        Some(list) => outside(list, Seq::empty(), own),
        None => Seq::empty(),
    }
}

/// A new identity of an account, with what is uploaded for it.
#[derive(Debug)]
pub struct NewIdentity {
    /// The address of the identity, to which its document is uploaded.
    pub address: String,
    /// The path of the file with its secret key.
    pub key_path: String,
    pub identity: Identity,
    pub secret_key: Key,
    /// Who may read the document.
    pub document_permissions: Permissions,
    /// Who may read the secret key.
    pub key_permissions: Permissions,
}

/// The permissions of readers alone.
pub open spec fn reader_permissions(readers: Seq<Seq<char>>) -> PermissionsV {
    PermissionsV { readers, ..no_permissions() }
}

/// Why no identity is made, if so, before one is made.
pub open spec fn new_identity_refused(path: Seq<char>, has_document: bool, has_key: bool) -> Option<ErrorV> {
    if !is_json(path) {
        Some(bare(Fault::PathNotJson))
    } else if has_document {
        Some(with(Fault::FileExists, path))
    } else if has_key {
        Some(with(Fault::FileExists, key_path(path)))
    } else {
        None
    }
}

/// Whether a new identity is right: a fresh key pair for the address of the path,
/// whose document everyone may read and whose secret key its members may.
pub open spec fn identity_made(ctx: ContextV, path: Seq<char>, members: Seq<Seq<char>>, n: NewIdentity) -> bool {
    let own = ctx.identity.address;
    let listed = group_members(members);
    let others = other_members(listed, own);
    &&& n.address@ == address_of(own, path)
    &&& n.key_path@ == key_path(path)
    &&& n.secret_key@.algorithm == DEFAULT_SIGNING_ALGORITHM@
    &&& n.secret_key@.value.len() == 32
    &&& identity_of(n.secret_key@, n.address@, listed) == Ok::<IdentityV, ErrorV>(n.identity@)
    &&& keys_match(n.secret_key@, n.identity@.public_key)
    &&& owned(n.identity@.public_key)
    &&& identity_valid(n.identity@) is Ok
    &&& n.document_permissions@ == reader_permissions(seq!["public"@] + others)
    &&& n.key_permissions@ == reader_permissions(others)
}

/// What making an identity at a path with a given key comes to, but for what is
/// uploaded for it.
pub open spec fn identity_at_path(ctx: ContextV, path: Seq<char>, members: Seq<Seq<char>>, key: Tagged) -> Result<
    IdentityV,
    ErrorV,
> {
    match identity_of(key, address_of(ctx.identity.address, path), group_members(members)) {
        Err(e) => Err(e),
        Ok(i) => match identity_valid(i) {
            Err(e) => Err(e),
            Ok(_) => Ok(i),
        },
    }
}

fn allow_readers(first: Option<&str>, others: &[String]) -> (r: Permissions)
    ensures
        r@ == reader_permissions(
            (match first {
                Some(f) => seq![f@],
                None => Seq::empty(),
            }) + texts(others@),
        ),
{
    let mut readers: Vec<String> = Vec::new();
    let ghost mut start = Seq::<Seq<char>>::empty();
    if let Some(f) = first {
        readers.push(f.to_owned());
        proof {
            start = seq![f@];
        }
    }
    assert(texts(readers@) =~= start);
    let mut more = copy_texts(others);
    let ghost tail = texts(more@);
    let ghost front = readers@;
    let ghost back = more@;
    readers.append(&mut more);
    assert(texts(readers@) =~= start + tail) by {
        assert(readers@ =~= front + back);
        assert(texts(front + back) =~= texts(front) + texts(back));
    }
    let mut r = Permissions::default();
    r.readers = readers;
    assert(r@ =~= reader_permissions(start + tail));
    r
}

/// Makes an identity at a path with a given key: alone, or a group with the given
/// members.
pub fn create_client_identity_with_key(
    ctx: &Context,
    path: &str,
    members: &[String],
    has_document: bool,
    has_key: bool,
    key: Key,
) -> (r: Result<NewIdentity, Error>)
    requires
        key@.algorithm == DEFAULT_SIGNING_ALGORITHM@,
        key@.value.len() == 32,
    ensures
        match new_identity_refused(path@, has_document, has_key) {
            Some(e) => r matches Err(x) && x@ == e,
            None => match identity_at_path(ctx@, path@, texts(members@), key@) {
                Err(e) => r matches Err(x) && x@ == e,
                Ok(i) => r matches Ok(n) && identity_made(ctx@, path@, texts(members@), n) && n.identity@ == i
                    && n.secret_key@ == key@,
            },
        },
{
    if !ends_with(path, ".json") {
        return Err(fail(Fault::PathNotJson));
    }
    let address = resolve_address(ctx, path);
    let secret_path = key_path_for(path);
    if has_document {
        return Err(fail_with(Fault::FileExists, path.to_owned()));
    }
    if has_key {
        return Err(fail_with(Fault::FileExists, secret_path));
    }
    let ghost listed = group_members(texts(members@));
    let none: Vec<String> = Vec::new();
    assert(texts(none@) =~= Seq::empty());
    let mut others: Vec<String> = Vec::new();
    assert(texts(others@) =~= Seq::empty());
    let group: Option<Vec<String>> = if members.len() == 0 {
        None
    } else {
        let mut list: Vec<String> = Vec::new();
        assert(texts(list@) =~= Seq::empty());
        add_all(&mut list, members);
        others = select_outside(&list, &none, &ctx.identity.address);
        Some(list)
    };
    assert(opt_texts(group) == listed);
    assert(texts(others@) == other_members(listed, ctx@.identity.address));
    let identity = match create_identity_with_key(&key, &address, group) {
        Ok(i) => i,
        Err(e) => {
            return Err(e);
        },
    };
    match validate_identity(&identity) {
        Ok(()) => {},
        Err(e) => {
            return Err(e);
        },
    }
    let document_permissions = allow_readers(Some("public"), &others);
    let key_permissions = allow_readers(None, &others);
    proof {
        assert(Seq::<Seq<char>>::empty() + texts(others@) =~= texts(others@));
    }
    Ok(
        NewIdentity {
            address,
            key_path: secret_path,
            identity,
            secret_key: key,
            document_permissions,
            key_permissions,
        },
    )
}

/// Makes an identity at a path with a fresh key: alone, or a group with the given
/// members.
pub fn create_client_identity(
    ctx: &Context,
    path: &str,
    members: &[String],
    has_document: bool,
    has_key: bool,
) -> (r: Result<NewIdentity, Error>)
    ensures
        match new_identity_refused(path@, has_document, has_key) {
            Some(e) => r matches Err(x) && x@ == e,
            None => match r {
                Ok(n) => identity_made(ctx@, path@, texts(members@), n),
                Err(e) => e.fault == Fault::Random || exists|k: Tagged|
                    k.algorithm == DEFAULT_SIGNING_ALGORITHM@ && k.value.len() == 32 && #[trigger] identity_at_path(
                        ctx@,
                        path@,
                        texts(members@),
                        k,
                    ) == Err::<IdentityV, ErrorV>(e@),
            },
        },
{
    if !ends_with(path, ".json") {
        return Err(fail(Fault::PathNotJson));
    }
    if has_document {
        return Err(fail_with(Fault::FileExists, path.to_owned()));
    }
    if has_key {
        return Err(fail_with(Fault::FileExists, key_path_for(path)));
    }
    match create_secret_key(DEFAULT_SIGNING_ALGORITHM) {
        Ok(key) => {
            let ghost outcome = identity_at_path(ctx@, path@, texts(members@), key@);
            let r = create_client_identity_with_key(ctx, path, members, false, false, key);
            assert(r is Err ==> outcome == Err::<IdentityV, ErrorV>((r->Err_0)@));
            r
        },
        Err(e) => Err(e),
    }
}

/// The members of a group after some joined and some left. Who leaves leaves,
/// whether they joined or not.
pub open spec fn group_after(
    members: Seq<Seq<char>>,
    add: Seq<Seq<char>>,
    drops: Seq<Seq<char>>,
) -> Seq<Seq<char>> {
    without_all(all_added(members, add), drops)
}

/// The members of an identity.
pub open spec fn members_of(identity: IdentityV) -> Seq<Seq<char>> {
    match identity.members {
        Some(list) => list,
        None => Seq::empty(),
    }
}

/// The permission changes that go with a change of members.
pub open spec fn group_permissions(
    before: Seq<Seq<char>>,
    after: Seq<Seq<char>>,
    own: Seq<char>,
) -> PermissionsV {
    PermissionsV {
        readers: outside(after, before, own),
        drops: outside(before, after, own),
        ..no_permissions()
    }
}

/// A changed identity, with what is uploaded for it.
#[derive(Debug)]
pub struct GroupChange {
    pub identity: Identity,
    /// The changes for the document, and for the secret key where `key` is set.
    pub permissions: Permissions,
    /// Whether the secret key is uploaded too.
    pub key: bool,
}

/// Why a group is not changed, if so, before its document is read.
pub open spec fn group_change_refused(
    path: Seq<char>,
    add: Seq<Seq<char>>,
    drops: Seq<Seq<char>>,
) -> Option<ErrorV> {
    if !is_json(path) {
        Some(bare(Fault::PathNotJson))
    } else if add.len() == 0 && drops.len() == 0 {
        Some(bare(Fault::NothingToChange))
    } else {
        None
    }
}

/// The identity with other members, before it is signed.
pub open spec fn regrouped(identity: IdentityV, members: Seq<Seq<char>>) -> IdentityV {
    IdentityV { members: Some(members), ..identity }
}

/// What changing the members of a group comes to: nothing where they stay the
/// same, otherwise the identity signed anew with its own key.
pub open spec fn group_changed(
    own: Seq<char>,
    identity: IdentityV,
    secret: Seq<u8>,
    add: Seq<Seq<char>>,
    drops: Seq<Seq<char>>,
) -> Result<Option<(IdentityV, PermissionsV)>, ErrorV> {
    let before = members_of(identity);
    let after = group_after(before, add, drops);
    let key = Tagged { algorithm: identity.public_key.algorithm, value: secret };
    let next = regrouped(identity, after);
    if after == before {
        Ok(None)
    } else {
        match crate::crypto::json_signed(key, identity_json(unsigned_identity(next))) {
            Err(e) => Err(e),
            Ok(signature) => {
                let signed = IdentityV { signature, ..next };
                match identity_valid(signed) {
                    Err(e) => Err(e),
                    Ok(_) => Ok(Some((signed, group_permissions(before, after, own)))),
                }
            },
        }
    }
}

fn same_texts(a: &[String], b: &[String]) -> (r: bool)
    ensures
        r == (texts(a@) == texts(b@)),
{
    assert(texts(a@).len() == a@.len() && texts(b@).len() == b@.len());
    if a.len() != b.len() {
        return false;
    }
    let n: usize = a.len();
    let mut i: usize = 0;
    while i < n
        invariant
            i <= n == a@.len() == b@.len(),
            forall|k: int| 0 <= k < i ==> #[trigger] texts(a@)[k] == texts(b@)[k],
        decreases n - i,
    {
        if !same(&a[i], &b[i]) {
            assert(texts(a@)[i as int] != texts(b@)[i as int]);
            return false;
        }
        i = i + 1;
    }
    assert(texts(a@) =~= texts(b@));
    true
}

/// Adds members to a group and drops members from it, given its document and its
/// secret key. Where nothing changes, there is nothing to upload.
pub fn change_identity_members(
    ctx: &Context,
    path: &str,
    identity: &Identity,
    secret: &[u8],
    add: &[String],
    drops: &[String],
) -> (r: Result<Option<GroupChange>, Error>)
    ensures
        match group_change_refused(path@, texts(add@), texts(drops@)) {
            Some(e) => r matches Err(x) && x@ == e,
            None => (match r {
                Ok(None) => Ok(None),
                Ok(Some(c)) => Ok(Some((c.identity@, c.permissions@))),
                Err(e) => Err(e@),
            }) == group_changed(ctx@.identity.address, identity@, secret@, texts(add@), texts(drops@)),
        },
        r matches Ok(Some(c)) ==> c.key == (c.permissions@.readers.len() > 0 || c.permissions@.drops.len() > 0),
{
    if !ends_with(path, ".json") {
        return Err(fail(Fault::PathNotJson));
    }
    if add.len() == 0 && drops.len() == 0 {
        return Err(fail(Fault::NothingToChange));
    }
    let before: Vec<String> = match &identity.members {
        Some(list) => copy_texts(list),
        None => Vec::new(),
    };
    assert(texts(before@) =~= members_of(identity@));
    let mut list = copy_texts(&before);
    add_all(&mut list, add);
    let after = remove_all(&list, drops);
    if same_texts(&after, &before) {
        return Ok(None);
    }
    let readers = select_outside(&after, &before, &ctx.identity.address);
    let left = select_outside(&before, &after, &ctx.identity.address);
    let key = Key { algorithm: identity.public_key.algorithm.clone(), value: crate::text::copy_bytes(secret) };
    let mut next = identity.copy();
    let ghost members = texts(after@);
    next.members = Some(after);
    assert(next@ =~= regrouped(identity@, members));
    match sign_identity(&key, &mut next) {
        Ok(()) => {},
        Err(e) => {
            return Err(e);
        },
    }
    match validate_identity(&next) {
        Ok(()) => {},
        Err(e) => {
            return Err(e);
        },
    }
    let mut permissions = Permissions::default();
    permissions.readers = readers;
    permissions.drops = left;
    assert(permissions@ =~= group_permissions(texts(before@), members, ctx@.identity.address));
    let key_too = permissions.readers.len() > 0 || permissions.drops.len() > 0;
    Ok(Some(GroupChange { identity: next, permissions, key: key_too }))
}

// Laws on groups.

proof fn lemma_added(list: Seq<Seq<char>>, more: Seq<Seq<char>>, x: Seq<char>)
    ensures
        all_added(list, more).contains(x) <==> list.contains(x) || more.contains(x),
    decreases more.len(),
{
    if more.len() > 0 {
        let front = more.drop_last();
        let last = more.last();
        lemma_added(list, front, x);
        let mid = all_added(list, front);
        assert(more.contains(x) <==> front.contains(x) || last == x) by {
            if more.contains(x) {
                let i = choose|i: int| 0 <= i < more.len() && more[i] == x;
                if i < front.len() {
                    assert(front[i] == x);
                }
            }
            if front.contains(x) {
                let i = choose|i: int| 0 <= i < front.len() && front[i] == x;
                assert(more[i] == x);
            }
            assert(more[more.len() - 1] == last);
        }
        if !mid.contains(last) {
            let after = mid.push(last);
            if after.contains(x) {
                let i = choose|i: int| 0 <= i < after.len() && after[i] == x;
                if i < mid.len() {
                    assert(mid[i] == x);
                }
            }
            if mid.contains(x) {
                let i = choose|i: int| 0 <= i < mid.len() && mid[i] == x;
                assert(after[i] == x);
            }
            assert(after[mid.len() as int] == last);
        }
    }
}

proof fn lemma_without(list: Seq<Seq<char>>, others: Seq<Seq<char>>, x: Seq<char>)
    ensures
        without_all(list, others).contains(x) <==> list.contains(x) && !others.contains(x),
    decreases list.len(),
{
    if list.len() > 0 {
        let front = list.drop_last();
        let last = list.last();
        lemma_without(front, others, x);
        assert(list.contains(x) <==> front.contains(x) || last == x) by {
            if list.contains(x) {
                let i = choose|i: int| 0 <= i < list.len() && list[i] == x;
                if i < front.len() {
                    assert(front[i] == x);
                }
            }
            if front.contains(x) {
                let i = choose|i: int| 0 <= i < front.len() && front[i] == x;
                assert(list[i] == x);
            }
            assert(list[list.len() - 1] == last);
        }
        if !others.contains(last) {
            let kept = without_all(front, others);
            let after = kept.push(last);
            if after.contains(x) {
                let i = choose|i: int| 0 <= i < after.len() && after[i] == x;
                if i < kept.len() {
                    assert(kept[i] == x);
                }
            }
            if kept.contains(x) {
                let i = choose|i: int| 0 <= i < kept.len() && kept[i] == x;
                assert(after[i] == x);
            }
            assert(after[kept.len() as int] == last);
        }
    }
}

/// Who is in a group after a change: those who were in it or joined, without
/// those who left. To leave goes before to join.
pub proof fn group_membership(
    members: Seq<Seq<char>>,
    add: Seq<Seq<char>>,
    drops: Seq<Seq<char>>,
    x: Seq<char>,
)
    ensures
        group_after(members, add, drops).contains(x) <==> (members.contains(x) || add.contains(x)) && !drops.contains(
            x,
        ),
{
    lemma_added(members, add, x);
    lemma_without(all_added(members, add), drops, x);
}

/// Adding texts and then leaving out others is the same as leaving those out
/// first, where all that are left out anyway are added.
proof fn lemma_add_dropped(list: Seq<Seq<char>>, more: Seq<Seq<char>>, drops: Seq<Seq<char>>)
    requires
        forall|i: int| 0 <= i < more.len() ==> list.contains(#[trigger] more[i]) || drops.contains(more[i]),
    ensures
        without_all(all_added(list, more), drops) == without_all(list, drops),
    decreases more.len(),
{
    if more.len() > 0 {
        let front = more.drop_last();
        let last = more.last();
        assert forall|i: int| 0 <= i < front.len() implies list.contains(#[trigger] front[i]) || drops.contains(
            front[i],
        ) by {
            assert(front[i] == more[i]);
        }
        lemma_add_dropped(list, front, drops);
        let mid = all_added(list, front);
        assert(list.contains(more[more.len() - 1]) || drops.contains(more[more.len() - 1]));
        if !mid.contains(last) {
            lemma_added(list, front, last);
            assert(drops.contains(last));
            let after = mid.push(last);
            assert(after.drop_last() =~= mid);
            assert(after.last() == last);
        }
    }
}

proof fn lemma_without_twice(list: Seq<Seq<char>>, drops: Seq<Seq<char>>)
    requires
        forall|i: int| 0 <= i < list.len() ==> !drops.contains(#[trigger] list[i]),
    ensures
        without_all(list, drops) == list,
    decreases list.len(),
{
    if list.len() > 0 {
        let front = list.drop_last();
        assert forall|i: int| 0 <= i < front.len() implies !drops.contains(#[trigger] front[i]) by {
            assert(front[i] == list[i]);
        }
        lemma_without_twice(front, drops);
        assert(!drops.contains(list[list.len() - 1]));
        assert(front.push(list.last()) =~= list);
    }
}

/// Making the same change again changes nothing.
pub proof fn group_changes_are_idempotent(members: Seq<Seq<char>>, add: Seq<Seq<char>>, drops: Seq<Seq<char>>)
    ensures
        group_after(group_after(members, add, drops), add, drops) == group_after(members, add, drops),
{
    let once = group_after(members, add, drops);
    assert forall|i: int| 0 <= i < add.len() implies once.contains(#[trigger] add[i]) || drops.contains(add[i]) by {
        group_membership(members, add, drops, add[i]);
        assert(add.contains(add[i]));
    }
    lemma_add_dropped(once, add, drops);
    assert forall|i: int| 0 <= i < once.len() implies !drops.contains(#[trigger] once[i]) by {
        assert(once.contains(once[i]));
        group_membership(members, add, drops, once[i]);
    }
    lemma_without_twice(once, drops);
}

} // verus!
