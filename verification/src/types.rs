//! The values that the protocol moves around, with their views.

use vstd::prelude::*;

use crate::text::{copy_bytes, copy_opt, copy_texts, opt_text, same, texts};

verus! {

/// Bytes together with the name of the algorithm that made them: what keys,
/// signatures and hashes are viewed as.
#[verifier::ext_equal]
pub struct Tagged {
    pub algorithm: Seq<char>,
    pub value: Seq<u8>,
}

/// A public or secret key.
#[derive(Clone, Debug, PartialEq, Eq)]
pub struct Key {
    pub algorithm: String,
    pub value: Vec<u8>,
}

/// A signature.
#[derive(Clone, Debug, PartialEq, Eq)]
pub struct Signature {
    pub algorithm: String,
    pub value: Vec<u8>,
}

/// A hash of a body.
#[derive(Clone, Debug, PartialEq, Eq)]
pub struct Hash {
    pub algorithm: String,
    pub value: Vec<u8>,
}

impl View for Key {
    type V = Tagged;

    open spec fn view(&self) -> Tagged {
        Tagged { algorithm: self.algorithm@, value: self.value@ }
    }
}

impl View for Signature {
    type V = Tagged;

    open spec fn view(&self) -> Tagged {
        Tagged { algorithm: self.algorithm@, value: self.value@ }
    }
}

impl View for Hash {
    type V = Tagged;

    open spec fn view(&self) -> Tagged {
        Tagged { algorithm: self.algorithm@, value: self.value@ }
    }
}

impl Key {
    /// A copy of the key.
    pub fn copy(&self) -> (r: Key)
        ensures
            r@ == self@,
    {
        Key { algorithm: self.algorithm.clone(), value: copy_bytes(&self.value) }
    }
}

impl Signature {
    /// A copy of the signature.
    pub fn copy(&self) -> (r: Signature)
        ensures
            r@ == self@,
    {
        Signature { algorithm: self.algorithm.clone(), value: copy_bytes(&self.value) }
    }

    /// A signature that is not there yet.
    pub fn none() -> (r: Signature)
        ensures
            r@ == no_signature(),
    {
        let r = Signature { algorithm: String::new(), value: Vec::new() };
        assert(r@ =~= no_signature());
        r
    }
}

impl Hash {
    /// A copy of the hash.
    pub fn copy(&self) -> (r: Hash)
        ensures
            r@ == self@,
    {
        Hash { algorithm: self.algorithm.clone(), value: copy_bytes(&self.value) }
    }
}

/// The view of a signature that is not there yet.
pub open spec fn no_signature() -> Tagged {
    Tagged { algorithm: Seq::empty(), value: Seq::empty() }
}

/// The view of an optional key.
pub open spec fn opt_key(k: Option<Key>) -> Option<Tagged> {
    match k {
        Some(key) => Some(key@),
        None => None,
    }
}

/// The view of an optional hash.
pub open spec fn opt_hash(h: Option<Hash>) -> Option<Tagged> {
    match h {
        Some(hash) => Some(hash@),
        None => None,
    }
}

/// A copy of an optional key.
pub fn copy_opt_key(k: &Option<Key>) -> (r: Option<Key>)
    ensures
        opt_key(r) == opt_key(*k),
{
    match k {
        Some(key) => Some(key.copy()),
        None => None,
    }
}

/// A copy of an optional hash.
pub fn copy_opt_hash(h: &Option<Hash>) -> (r: Option<Hash>)
    ensures
        opt_hash(r) == opt_hash(*h),
{
    match h {
        Some(hash) => Some(hash.copy()),
        None => None,
    }
}

/// What a member of a file may do with it.
#[derive(Clone, Copy, Debug, PartialEq, Eq, Structural)]
pub enum Permission {
    Owner,
    Writer,
    Reader,
}

/// How much a permission allows: more for a higher rank.
pub open spec fn rank_of(p: Permission) -> int {
    match p {
        Permission::Reader => 0,
        Permission::Writer => 1,
        Permission::Owner => 2,
    }
}

/// The name of a permission.
pub open spec fn permission_name(p: Permission) -> Seq<char> {
    match p {
        Permission::Owner => "owner"@,
        Permission::Writer => "writer"@,
        Permission::Reader => "reader"@,
    }
}

/// The permission with a given name. The short names `write` and `read` are
/// understood too.
pub open spec fn permission_named(s: Seq<char>) -> Option<Permission> {
    if s == "owner"@ {
        Some(Permission::Owner)
    } else if s == "writer"@ || s == "write"@ {
        Some(Permission::Writer)
    } else if s == "reader"@ || s == "read"@ {
        Some(Permission::Reader)
    } else {
        None
    }
}

impl Permission {
    /// How much the permission allows.
    pub fn rank(self) -> (r: u8)
        ensures
            r == rank_of(self),
    {
        match self {
            Permission::Reader => 0,
            Permission::Writer => 1,
            Permission::Owner => 2,
        }
    }

    /// The name of the permission.
    pub fn as_str(self) -> (r: &'static str)
        ensures
            r@ == permission_name(self),
    {
        match self {
            Permission::Owner => "owner",
            Permission::Writer => "writer",
            Permission::Reader => "reader",
        }
    }

    /// The permission with the given name.
    pub fn parse(s: &str) -> (r: Option<Permission>)
        ensures
            r == permission_named(s@),
    {
        if same(s, "owner") {
            Some(Permission::Owner)
        } else if same(s, "writer") || same(s, "write") {
            Some(Permission::Writer)
        } else if same(s, "reader") || same(s, "read") {
            Some(Permission::Reader)
        } else {
            None
        }
    }
}

/// Reading the name of a permission gives the permission back.
pub proof fn permission_round_trip(p: Permission)
    ensures
        permission_named(permission_name(p)) == Some(p),
{
    reveal_strlit("owner");
    reveal_strlit("writer");
    reveal_strlit("write");
    reveal_strlit("reader");
    reveal_strlit("read");
    assert("owner"@.len() == 5 && "writer"@.len() == 6 && "write"@.len() == 5);
    assert("reader"@.len() == 6 && "read"@.len() == 4);
    assert("writer"@[0] != "reader"@[0]);
    assert("owner"@[0] != "write"@[0]);
}

/// Someone who may use a file, with the file key wrapped for them.
#[derive(Clone, Debug, PartialEq, Eq)]
pub struct Member {
    pub address: String,
    pub permission: Permission,
    pub key: Option<Key>,
}

/// The view of a member.
#[verifier::ext_equal]
pub struct MemberV {
    pub address: Seq<char>,
    pub permission: Permission,
    pub key: Option<Tagged>,
}

impl View for Member {
    type V = MemberV;

    open spec fn view(&self) -> MemberV {
        MemberV { address: self.address@, permission: self.permission, key: opt_key(self.key) }
    }
}

impl Member {
    /// A copy of the member.
    pub fn copy(&self) -> (r: Member)
        ensures
            r@ == self@,
    {
        Member { address: self.address.clone(), permission: self.permission, key: copy_opt_key(&self.key) }
    }
}

/// The views of a list of members.
pub open spec fn members_view(list: Seq<Member>) -> Seq<MemberV> {
    list.map_values(|m: Member| m@)
}

/// A copy of a list of members.
pub fn copy_members(list: &[Member]) -> (r: Vec<Member>)
    ensures
        members_view(r@) == members_view(list@),
{
    let mut out: Vec<Member> = Vec::new();
    let n: usize = list.len();
    let mut i: usize = 0;
    while i < n
        invariant
            i <= n == list@.len(),
            out@.len() == i,
            forall|k: int| 0 <= k < i ==> #[trigger] out@[k]@ == list@[k]@,
        decreases n - i,
    {
        out.push(list[i].copy());
        i = i + 1;
    }
    assert(members_view(out@) =~= members_view(list@));
    out
}

/// What is signed about a file or directory.
#[derive(Clone, Debug, PartialEq, Eq)]
pub struct Metadata {
    pub id: String,
    pub created: String,
    pub modified: String,
    pub modified_by: String,
    pub encryption_algorithm: Option<String>,
    pub members: Vec<Member>,
    pub body_hash: Option<Hash>,
    pub signature: Signature,
}

/// The view of metadata.
#[verifier::ext_equal]
pub struct MetadataV {
    pub id: Seq<char>,
    pub created: Seq<char>,
    pub modified: Seq<char>,
    pub modified_by: Seq<char>,
    pub encryption_algorithm: Option<Seq<char>>,
    pub members: Seq<MemberV>,
    pub body_hash: Option<Tagged>,
    pub signature: Tagged,
}

impl View for Metadata {
    type V = MetadataV;

    open spec fn view(&self) -> MetadataV {
        MetadataV {
            id: self.id@,
            created: self.created@,
            modified: self.modified@,
            modified_by: self.modified_by@,
            encryption_algorithm: opt_text(self.encryption_algorithm),
            members: members_view(self.members@),
            body_hash: opt_hash(self.body_hash),
            signature: self.signature@,
        }
    }
}

impl Metadata {
    /// A copy of the metadata.
    pub fn copy(&self) -> (r: Metadata)
        ensures
            r@ == self@,
    {
        Metadata {
            id: self.id.clone(),
            created: self.created.clone(),
            modified: self.modified.clone(),
            modified_by: self.modified_by.clone(),
            encryption_algorithm: copy_opt(&self.encryption_algorithm),
            members: copy_members(&self.members),
            body_hash: copy_opt_hash(&self.body_hash),
            signature: self.signature.copy(),
        }
    }
}

/// What a client remembers about its own copy of a file.
#[derive(Clone, Debug, PartialEq, Eq)]
pub struct LocalMetadata {
    /// Whether the copy holds ciphertext.
    pub encrypted: Option<bool>,
    /// The hash of the plaintext body at the last exchange with the server.
    pub sync_hash: Option<Vec<u8>>,
    /// The modification time at the last exchange with the server.
    pub sync_modified: Option<String>,
}

/// The view of local metadata.
#[verifier::ext_equal]
pub struct LocalV {
    pub encrypted: Option<bool>,
    pub sync_hash: Option<Seq<u8>>,
    pub sync_modified: Option<Seq<char>>,
}

impl View for LocalMetadata {
    type V = LocalV;

    open spec fn view(&self) -> LocalV {
        LocalV {
            encrypted: self.encrypted,
            sync_hash: crate::text::opt_bytes(self.sync_hash),
            sync_modified: opt_text(self.sync_modified),
        }
    }
}

/// Local metadata that remembers nothing.
pub open spec fn no_local() -> LocalV {
    LocalV { encrypted: None, sync_hash: None, sync_modified: None }
}

impl Default for LocalMetadata {
    fn default() -> (r: LocalMetadata)
        ensures
            r@ == no_local(),
    {
        LocalMetadata { encrypted: None, sync_hash: None, sync_modified: None }
    }
}

impl LocalMetadata {
    /// A copy of the local metadata.
    pub fn copy(&self) -> (r: LocalMetadata)
        ensures
            r@ == self@,
    {
        LocalMetadata {
            encrypted: self.encrypted,
            sync_hash: crate::text::copy_opt_bytes(&self.sync_hash),
            sync_modified: copy_opt(&self.sync_modified),
        }
    }
}

/// A public key document. With members, it is a group.
#[derive(Clone, Debug, PartialEq, Eq)]
pub struct Identity {
    pub public_key: Key,
    pub address: String,
    pub members: Option<Vec<String>>,
    pub signature: Signature,
}

/// The view of an identity.
#[verifier::ext_equal]
pub struct IdentityV {
    pub public_key: Tagged,
    pub address: Seq<char>,
    pub members: Option<Seq<Seq<char>>>,
    pub signature: Tagged,
}

/// The view of an optional list of strings.
pub open spec fn opt_texts(list: Option<Vec<String>>) -> Option<Seq<Seq<char>>> {
    match list {
        Some(v) => Some(texts(v@)),
        None => None,
    }
}

/// A copy of an optional list of strings.
pub fn copy_opt_texts(list: &Option<Vec<String>>) -> (r: Option<Vec<String>>)
    ensures
        opt_texts(r) == opt_texts(*list),
{
    match list {
        Some(v) => Some(copy_texts(v)),
        None => None,
    }
}

impl View for Identity {
    type V = IdentityV;

    open spec fn view(&self) -> IdentityV {
        IdentityV {
            public_key: self.public_key@,
            address: self.address@,
            members: opt_texts(self.members),
            signature: self.signature@,
        }
    }
}

impl Identity {
    /// A copy of the identity.
    pub fn copy(&self) -> (r: Identity)
        ensures
            r@ == self@,
    {
        Identity {
            public_key: self.public_key.copy(),
            address: self.address.clone(),
            members: copy_opt_texts(&self.members),
            signature: self.signature.copy(),
        }
    }
}

/// Changes to the members of a file.
#[derive(Clone, Debug, PartialEq, Eq)]
pub struct Permissions {
    pub owners: Vec<String>,
    pub writers: Vec<String>,
    pub readers: Vec<String>,
    pub drops: Vec<String>,
}

/// The view of permission changes.
#[verifier::ext_equal]
pub struct PermissionsV {
    pub owners: Seq<Seq<char>>,
    pub writers: Seq<Seq<char>>,
    pub readers: Seq<Seq<char>>,
    pub drops: Seq<Seq<char>>,
}

impl View for Permissions {
    type V = PermissionsV;

    open spec fn view(&self) -> PermissionsV {
        PermissionsV {
            owners: texts(self.owners@),
            writers: texts(self.writers@),
            readers: texts(self.readers@),
            drops: texts(self.drops@),
        }
    }
}

/// No permission changes.
pub open spec fn no_permissions() -> PermissionsV {
    PermissionsV {
        owners: Seq::empty(),
        writers: Seq::empty(),
        readers: Seq::empty(),
        drops: Seq::empty(),
    }
}

impl Default for Permissions {
    fn default() -> (r: Permissions)
        ensures
            r@ == no_permissions(),
            r.owners@.len() == 0,
            r.writers@.len() == 0,
            r.readers@.len() == 0,
            r.drops@.len() == 0,
    {
        let r = Permissions { owners: Vec::new(), writers: Vec::new(), readers: Vec::new(), drops: Vec::new() };
        assert(r@ =~~= no_permissions());
        r
    }
}

/// The account that a client works as.
#[derive(Clone, Debug, PartialEq, Eq)]
pub struct Context {
    /// The directory that holds the account's files.
    pub root: String,
    pub identity: Identity,
    pub identity_key: Option<Key>,
}

/// The view of a context.
#[verifier::ext_equal]
pub struct ContextV {
    pub root: Seq<char>,
    pub identity: IdentityV,
    pub identity_key: Option<Tagged>,
}

impl View for Context {
    type V = ContextV;

    open spec fn view(&self) -> ContextV {
        ContextV { root: self.root@, identity: self.identity@, identity_key: opt_key(self.identity_key) }
    }
}

/// Named values, such as message headers or file attributes.
pub open spec fn pairs(list: Seq<(String, String)>) -> Seq<(Seq<char>, Seq<char>)> {
    list.map_values(|p: (String, String)| (p.0@, p.1@))
}

} // verus!
