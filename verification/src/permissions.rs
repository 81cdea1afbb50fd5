//! Changes to the members of a file.

use vstd::prelude::*;

use crate::error::{bare, fail, Error, ErrorV, Fault};
use crate::fields::has_owner;
use crate::text::{same, texts};
use crate::types::{members_view, no_permissions, Member, MemberV, Permission, Permissions, PermissionsV};

verus! {

/// The address that stands for everyone.
pub open spec fn everyone() -> Seq<char> {
    "*"@
}

/// The address that a user's word stands for: `public` means everyone.
pub open spec fn wire(address: Seq<char>) -> Seq<char> {
    if address == "public"@ {
        everyone()
    } else {
        address
    }
}

/// The address that a user's word stands for.
pub fn cli_address_to_wire(addr: &str) -> (r: String)
    ensures
        r@ == wire(addr@),
{
    if same(addr, "public") {
        "*".to_owned()
    } else {
        addr.to_owned()
    }
}

// Building changes.

fn single(address: &str) -> (r: Vec<String>)
    ensures
        texts(r@) == seq![address@],
{
    let mut list: Vec<String> = Vec::new();
    list.push(address.to_owned());
    assert(texts(list@) =~= seq![address@]);
    list
}

/// One new owner.
pub fn owner(address: &str) -> (r: Permissions)
    ensures
        r@ == (PermissionsV { owners: seq![address@], ..no_permissions() }),
{
    owners(single(address))
}

/// One new writer.
pub fn writer(address: &str) -> (r: Permissions)
    ensures
        r@ == (PermissionsV { writers: seq![address@], ..no_permissions() }),
{
    writers(single(address))
}

/// One new reader.
pub fn reader(address: &str) -> (r: Permissions)
    ensures
        r@ == (PermissionsV { readers: seq![address@], ..no_permissions() }),
{
    readers(single(address))
}

/// One member who leaves.
pub fn drop(address: &str) -> (r: Permissions)
    ensures
        r@ == (PermissionsV { drops: seq![address@], ..no_permissions() }),
{
    drops(single(address))
}

/// New owners.
pub fn owners(addresses: Vec<String>) -> (r: Permissions)
    ensures
        r@ == (PermissionsV { owners: texts(addresses@), ..no_permissions() }),
{
    let mut r = Permissions::default();
    r.owners = addresses;
    r
}

/// New writers.
pub fn writers(addresses: Vec<String>) -> (r: Permissions)
    ensures
        r@ == (PermissionsV { writers: texts(addresses@), ..no_permissions() }),
{
    let mut r = Permissions::default();
    r.writers = addresses;
    r
}

/// New readers.
pub fn readers(addresses: Vec<String>) -> (r: Permissions)
    ensures
        r@ == (PermissionsV { readers: texts(addresses@), ..no_permissions() }),
{
    let mut r = Permissions::default();
    r.readers = addresses;
    r
}

/// Members who leave.
pub fn drops(addresses: Vec<String>) -> (r: Permissions)
    ensures
        r@ == (PermissionsV { drops: texts(addresses@), ..no_permissions() }),
{
    let mut r = Permissions::default();
    r.drops = addresses;
    r
}

/// The members other than those with an address.
pub open spec fn kept(members: Seq<MemberV>, address: Seq<char>) -> Seq<MemberV>
    decreases members.len(),
{
    if members.len() == 0 {
        Seq::empty()
    } else if members.last().address == address {
        kept(members.drop_last(), address)
    } else {
        kept(members.drop_last(), address).push(members.last())
    }
}

/// The members other than those with an address.
pub fn without(members: &[Member], address: &str) -> (r: Vec<Member>)
    ensures
        members_view(r@) == kept(members_view(members@), wire(address@)),
{
    let gone = cli_address_to_wire(address);
    let mut out: Vec<Member> = Vec::new();
    let n: usize = members.len();
    let mut i: usize = 0;
    let ghost all = members_view(members@);
    assert(members_view(out@) =~= kept(all.take(0), gone@));
    while i < n
        invariant
            i <= n == members@.len(),
            all == members_view(members@),
            gone@ == wire(address@),
            members_view(out@) == kept(all.take(i as int), gone@),
        decreases n - i,
    {
        assert(all.take(i + 1).drop_last() =~= all.take(i as int));
        assert(all.take(i + 1).last() == members@[i as int]@);
        let ghost earlier = out@;
        if !same(&members[i].address, &gone) {
            let member = members[i].copy();
            out.push(member);
            assert(members_view(out@) =~= members_view(earlier).push(member@));
        }
        i = i + 1;
    }
    assert(all.take(n as int) =~= all);
    out
}

/// The addresses of members.
pub open spec fn addresses(members: Seq<MemberV>) -> Seq<Seq<char>> {
    members.map_values(|m: MemberV| m.address)
}

fn addresses_of(members: &[Member]) -> (r: Vec<String>)
    ensures
        texts(r@) == addresses(members_view(members@)),
{
    let mut out: Vec<String> = Vec::new();
    let n: usize = members.len();
    let mut i: usize = 0;
    while i < n
        invariant
            i <= n == members@.len(),
            out@.len() == i,
            forall|k: int| 0 <= k < i ==> #[trigger] out@[k]@ == members@[k].address@,
        decreases n - i,
    {
        out.push(members[i].address.clone());
        i = i + 1;
    }
    assert(texts(out@) =~= addresses(members_view(members@)));
    out
}

/// All members with one and the same permission.
pub open spec fn all_as(list: Seq<Seq<char>>, permission: Permission) -> PermissionsV {
    match permission {
        Permission::Owner => PermissionsV { owners: list, ..no_permissions() },
        Permission::Writer => PermissionsV { writers: list, ..no_permissions() },
        Permission::Reader => PermissionsV { readers: list, ..no_permissions() },
    }
}

/// All members with one and the same permission.
pub fn assign(members: &[Member], permission: Permission) -> (r: Permissions)
    ensures
        r@ == all_as(addresses(members_view(members@)), permission),
{
    let list = addresses_of(members);
    match permission {
        Permission::Owner => owners(list),
        Permission::Writer => writers(list),
        Permission::Reader => readers(list),
    }
}

/// The addresses of the members that are given a permission.
pub open spec fn given(members: Seq<MemberV>, roles: Seq<Permission>, p: Permission) -> Seq<Seq<char>>
    decreases members.len(),
{
    if members.len() == 0 {
        Seq::empty()
    } else {
        let init = given(members.drop_last(), roles.drop_last(), p);
        if roles.last() == p {
            init.push(members.last().address)
        } else {
            init
        }
    }
}

/// Every member with the permission that `f` gives for its own.
pub fn map<F: Fn(Permission) -> Permission>(members: &[Member], f: F) -> (r: Permissions)
    requires
        forall|p: Permission| #[trigger] f.requires((p,)),
    ensures
        exists|roles: Seq<Permission>|
            #![trigger given(members_view(members@), roles, Permission::Owner)]
            roles.len() == members@.len() && (forall|i: int|
                0 <= i < members@.len() ==> f.ensures((members@[i].permission,), #[trigger] roles[i])) && r@ == (
            PermissionsV {
                owners: given(members_view(members@), roles, Permission::Owner),
                writers: given(members_view(members@), roles, Permission::Writer),
                readers: given(members_view(members@), roles, Permission::Reader),
                drops: Seq::empty(),
            }),
{
    let mut out = Permissions::default();
    let n: usize = members.len();
    let mut i: usize = 0;
    let ghost all = members_view(members@);
    let ghost mut roles: Seq<Permission> = Seq::empty();
    while i < n
        invariant
            i <= n == members@.len(),
            all == members_view(members@),
            roles.len() == i,
            forall|p: Permission| #[trigger] f.requires((p,)),
            forall|k: int| 0 <= k < i ==> f.ensures((members@[k].permission,), #[trigger] roles[k]),
            texts(out.owners@) == given(all.take(i as int), roles, Permission::Owner),
            texts(out.writers@) == given(all.take(i as int), roles, Permission::Writer),
            texts(out.readers@) == given(all.take(i as int), roles, Permission::Reader),
            out.drops@.len() == 0,
        decreases n - i,
    {
        let role = f(members[i].permission);
        let ghost before = roles;
        let ghost earlier = out;
        let address = members[i].address.clone();
        proof {
            roles = roles.push(role);
            assert(roles.drop_last() =~= before);
            assert(all.take(i + 1).drop_last() =~= all.take(i as int));
            assert(all.take(i + 1).last() == members@[i as int]@);
        }
        match role {
            Permission::Owner => {
                out.owners.push(address);
                assert(texts(out.owners@) =~= texts(earlier.owners@).push(address@));
            },
            Permission::Writer => {
                out.writers.push(address);
                assert(texts(out.writers@) =~= texts(earlier.writers@).push(address@));
            },
            Permission::Reader => {
                out.readers.push(address);
                assert(texts(out.readers@) =~= texts(earlier.readers@).push(address@));
            },
        }
        i = i + 1;
    }
    proof {
        assert(all.take(n as int) =~= all);
        assert(texts(out.drops@) =~= Seq::empty());
        assert(out@.owners == given(all, roles, Permission::Owner));
    }
    out
}

// Applying changes.

/// The position of the first member with an address, or the number of members.
pub open spec fn place(members: Seq<MemberV>, address: Seq<char>) -> nat
    decreases members.len(),
{
    if members.len() == 0 || members[0].address == address {
        0
    } else {
        1 + place(members.skip(1), address)
    }
}

proof fn lemma_place(members: Seq<MemberV>, address: Seq<char>)
    ensures
        place(members, address) <= members.len(),
        place(members, address) < members.len() ==> members[place(members, address) as int].address == address,
        forall|k: int| 0 <= k < place(members, address) ==> (#[trigger] members[k]).address != address,
    decreases members.len(),
{
    if members.len() != 0 && members[0].address != address {
        lemma_place(members.skip(1), address);
        assert forall|k: int| 0 <= k < place(members, address) implies (#[trigger] members[k]).address != address by {
            if k > 0 {
                assert(members[k] == members.skip(1)[k - 1]);
            }
        }
    }
}

/// The members after one address was given a permission: a member keeps its
/// place and its key, anyone else joins at the end without a key.
pub open spec fn assigned(members: Seq<MemberV>, address: Seq<char>, p: Permission) -> Seq<MemberV> {
    let at = place(members, address) as int;
    if at < members.len() {
        members.update(at, MemberV { permission: p, ..members[at] })
    } else {
        members.push(MemberV { address, permission: p, key: None })
    }
}

/// The members after a list of addresses was given a permission.
pub open spec fn granted(members: Seq<MemberV>, list: Seq<Seq<char>>, p: Permission) -> Seq<MemberV>
    decreases list.len(),
{
    if list.len() == 0 {
        members
    } else {
        assigned(granted(members, list.drop_last(), p), wire(list.last()), p)
    }
}

/// The members after a list of addresses has left.
pub open spec fn dropped(members: Seq<MemberV>, list: Seq<Seq<char>>) -> Seq<MemberV>
    decreases list.len(),
{
    if list.len() == 0 {
        members
    } else {
        kept(dropped(members, list.drop_last()), wire(list.last()))
    }
}

/// Whether a list of addresses mentions everyone.
pub open spec fn names_everyone(list: Seq<Seq<char>>) -> bool {
    exists|i: int| 0 <= i < list.len() && wire(#[trigger] list[i]) == everyone()
}

/// The members after the changes, before it is known whether an owner remains.
pub open spec fn rearranged(members: Seq<MemberV>, p: PermissionsV) -> Seq<MemberV> {
    let a = granted(members, p.owners, Permission::Owner);
    let b = granted(a, p.writers, Permission::Writer);
    let c = granted(b, p.readers, Permission::Reader);
    dropped(c, p.drops)
}

/// The members after the changes. Everyone cannot be added where the body is
/// encrypted, and an owner must remain.
pub open spec fn changed(members: Seq<MemberV>, p: PermissionsV, encrypted: bool) -> Result<Seq<MemberV>, ErrorV> {
    if encrypted && (names_everyone(p.owners) || names_everyone(p.writers) || names_everyone(p.readers)) {
        Err(bare(Fault::PublicMemberEncrypted))
    } else if !has_owner(rearranged(members, p)) {
        Err(bare(Fault::LastOwner))
    } else {
        Ok(rearranged(members, p))
    }
}

pub(crate) fn place_of(members: &[Member], address: &str) -> (r: usize)
    ensures
        r == place(members_view(members@), address@),
        r <= members@.len(),
{
    let n: usize = members.len();
    let mut i: usize = 0;
    let ghost all = members_view(members@);
    assert(all.skip(0) =~= all);
    while i < n
        invariant
            i <= n == members@.len(),
            all == members_view(members@),
            i + place(all.skip(i as int), address@) == place(all, address@),
        decreases n - i,
    {
        assert(all.skip(i as int)[0] == members@[i as int]@);
        if same(&members[i].address, address) {
            return i;
        }
        assert(all.skip(i as int).skip(1) =~= all.skip(i + 1));
        i = i + 1;
    }
    n
}

fn apply_changes(members: &mut Vec<Member>, list: &[String], permission: Permission, encrypted: bool) -> (r: Result<
    (),
    Error,
>)
    ensures
        r is Ok ==> !(encrypted && names_everyone(texts(list@))) && members_view(final(members)@) == granted(
            members_view(old(members)@),
            texts(list@),
            permission,
        ),
        r matches Err(e) ==> encrypted && names_everyone(texts(list@)) && e@ == bare(Fault::PublicMemberEncrypted),
{
    let n: usize = list.len();
    let mut i: usize = 0;
    let ghost all = texts(list@);
    assert(all.take(0).len() == 0);
    while i < n
        invariant
            i <= n == list@.len(),
            all == texts(list@),
            encrypted ==> forall|k: int| 0 <= k < i ==> wire(#[trigger] all[k]) != everyone(),
            members_view(members@) == granted(members_view(old(members)@), all.take(i as int), permission),
        decreases n - i,
    {
        let address = cli_address_to_wire(&list[i]);
        assert(all[i as int] == list@[i as int]@);
        if encrypted && same(&address, "*") {
            return Err(fail(Fault::PublicMemberEncrypted));
        }
        let ghost before = members_view(members@);
        let at: usize = place_of(members, &address);
        if at < members.len() {
            members[at].permission = permission;
        } else {
            members.push(Member { address, permission, key: None });
        }
        proof {
            assert(members_view(members@) =~= assigned(before, wire(all[i as int]), permission));
            assert(all.take(i + 1).drop_last() =~= all.take(i as int));
            assert(all.take(i + 1).last() == all[i as int]);
        }
        i = i + 1;
    }
    assert(all.take(n as int) =~= all);
    Ok(())
}

/// The members after the changes.
pub fn change_members(members: &[Member], permissions: &Permissions, encrypted: bool) -> (r: Result<Vec<Member>, Error>)
    ensures
        r matches Ok(list) ==> changed(members_view(members@), permissions@, encrypted) == Ok::<Seq<MemberV>, ErrorV>(
            members_view(list@),
        ),
        r matches Err(e) ==> changed(members_view(members@), permissions@, encrypted) == Err::<Seq<MemberV>, ErrorV>(
            e@,
        ),
{
    let mut list = crate::types::copy_members(members);
    match apply_changes(&mut list, &permissions.owners, Permission::Owner, encrypted) {
        Ok(()) => {},
        Err(e) => {
            return Err(e);
        },
    }
    match apply_changes(&mut list, &permissions.writers, Permission::Writer, encrypted) {
        Ok(()) => {},
        Err(e) => {
            return Err(e);
        },
    }
    match apply_changes(&mut list, &permissions.readers, Permission::Reader, encrypted) {
        Ok(()) => {},
        Err(e) => {
            return Err(e);
        },
    }
    let n: usize = permissions.drops.len();
    let mut i: usize = 0;
    let ghost granted_all = members_view(list@);
    let ghost gone = texts(permissions.drops@);
    assert(gone.take(0).len() == 0);
    while i < n
        invariant
            i <= n == permissions.drops@.len(),
            gone == texts(permissions.drops@),
            members_view(list@) == dropped(granted_all, gone.take(i as int)),
        decreases n - i,
    {
        list = without(&list, &permissions.drops[i]);
        assert(gone.take(i + 1).drop_last() =~= gone.take(i as int));
        assert(gone.take(i + 1).last() == permissions.drops@[i as int]@);
        i = i + 1;
    }
    assert(gone.take(n as int) =~= gone);
    let count: usize = list.len();
    let mut k: usize = 0;
    while k < count
        invariant
            k <= count == list@.len(),
            forall|j: int| 0 <= j < k ==> (#[trigger] members_view(list@)[j]).permission != Permission::Owner,
            members_view(list@) == rearranged(members_view(members@), permissions@),
            changed(members_view(members@), permissions@, encrypted) == (if has_owner(members_view(list@)) {
                Ok(members_view(list@))
            } else {
                Err(bare(Fault::LastOwner))
            }),
        decreases count - k,
    {
        if list[k].permission == Permission::Owner {
            assert(members_view(list@)[k as int].permission == Permission::Owner);
            return Ok(list);
        }
        k = k + 1;
    }
    Err(fail(Fault::LastOwner))
}

// What the changes amount to.

/// The permission of the first member with an address.
pub open spec fn role(members: Seq<MemberV>, address: Seq<char>) -> Option<Permission> {
    let at = place(members, address) as int;
    if at < members.len() {
        Some(members[at].permission)
    } else {
        None
    }
}

/// Whether a list of users' words mentions an address.
pub open spec fn mentions(list: Seq<Seq<char>>, address: Seq<char>) -> bool {
    exists|i: int| 0 <= i < list.len() && wire(#[trigger] list[i]) == address
}

proof fn lemma_place_is(members: Seq<MemberV>, address: Seq<char>, at: int)
    requires
        0 <= at <= members.len(),
        at < members.len() ==> members[at].address == address,
        forall|k: int| 0 <= k < at ==> (#[trigger] members[k]).address != address,
    ensures
        place(members, address) == at,
{
    lemma_place(members, address);
    let p = place(members, address) as int;
    if p < at {
        assert(members[p].address == address);
    }
    if at < p {
        assert(members[at].address == address);
    }
}

proof fn lemma_role_push(members: Seq<MemberV>, m: MemberV, address: Seq<char>)
    ensures
        role(members.push(m), address) == (match role(members, address) {
            Some(p) => Some(p),
            None => if m.address == address {
                Some(m.permission)
            } else {
                None
            },
        }),
{
    lemma_place(members, address);
    let at = place(members, address) as int;
    let more = members.push(m);
    assert forall|k: int| 0 <= k < at implies (#[trigger] more[k]).address != address by {
        assert(more[k] == members[k]);
    }
    if at < members.len() {
        assert(more[at] == members[at]);
        lemma_place_is(more, address, at);
    } else if m.address == address {
        lemma_place_is(more, address, at);
    } else {
        lemma_place_is(more, address, at + 1);
    }
}

proof fn lemma_role_assigned(members: Seq<MemberV>, x: Seq<char>, p: Permission, address: Seq<char>)
    ensures
        role(assigned(members, x, p), address) == (if address == x {
            Some(p)
        } else {
            role(members, address)
        }),
{
    lemma_place(members, x);
    let at = place(members, x) as int;
    if at < members.len() {
        let after = assigned(members, x, p);
        lemma_place(members, address);
        let here = place(members, address) as int;
        assert forall|k: int| 0 <= k < here implies (#[trigger] after[k]).address != address by {
            assert(after[k].address == members[k].address);
        }
        if here < members.len() {
            assert(after[here].address == members[here].address);
        }
        lemma_place_is(after, address, here);
    } else {
        lemma_role_push(members, MemberV { address: x, permission: p, key: None }, address);
        if address == x {
            lemma_place_is(members, address, members.len() as int);
        }
    }
}

proof fn lemma_mentions_last(list: Seq<Seq<char>>, address: Seq<char>)
    requires
        list.len() > 0,
    ensures
        mentions(list, address) == (wire(list.last()) == address || mentions(list.drop_last(), address)),
{
    if mentions(list, address) {
        let i = choose|i: int| 0 <= i < list.len() && wire(#[trigger] list[i]) == address;
        if i < list.len() - 1 {
            assert(list.drop_last()[i] == list[i]);
        }
    }
    if mentions(list.drop_last(), address) {
        let i = choose|i: int| 0 <= i < list.drop_last().len() && wire(#[trigger] list.drop_last()[i]) == address;
        assert(list[i] == list.drop_last()[i]);
    }
    if wire(list.last()) == address {
        assert(wire(list[list.len() - 1]) == address);
    }
}

proof fn lemma_role_granted(members: Seq<MemberV>, list: Seq<Seq<char>>, p: Permission, address: Seq<char>)
    ensures
        role(granted(members, list, p), address) == (if mentions(list, address) {
            Some(p)
        } else {
            role(members, address)
        }),
    decreases list.len(),
{
    if list.len() > 0 {
        lemma_role_granted(members, list.drop_last(), p, address);
        lemma_role_assigned(granted(members, list.drop_last(), p), wire(list.last()), p, address);
        lemma_mentions_last(list, address);
    }
}

proof fn lemma_role_kept(members: Seq<MemberV>, x: Seq<char>, address: Seq<char>)
    ensures
        role(kept(members, x), address) == (if address == x {
            None
        } else {
            role(members, address)
        }),
    decreases members.len(),
{
    if members.len() > 0 {
        let init = members.drop_last();
        lemma_role_kept(init, x, address);
        lemma_role_push(init, members.last(), address);
        lemma_role_push(kept(init, x), members.last(), address);
        assert(init.push(members.last()) =~= members);
    }
}

proof fn lemma_role_dropped(members: Seq<MemberV>, list: Seq<Seq<char>>, address: Seq<char>)
    ensures
        role(dropped(members, list), address) == (if mentions(list, address) {
            None
        } else {
            role(members, address)
        }),
    decreases list.len(),
{
    if list.len() > 0 {
        lemma_role_dropped(members, list.drop_last(), address);
        lemma_role_kept(dropped(members, list.drop_last()), wire(list.last()), address);
        lemma_mentions_last(list, address);
    }
}

/// What every address may do after the changes: whoever is dropped may do
/// nothing, even when they were added too; otherwise readers, then writers, then
/// owners get what they were given, and everyone else keeps what they had.
pub proof fn role_after_changes(members: Seq<MemberV>, p: PermissionsV, encrypted: bool, address: Seq<char>)
    ensures
        changed(members, p, encrypted) matches Ok(list) ==> role(list, address) == (if mentions(p.drops, address) {
            None
        } else if mentions(p.readers, address) {
            Some(Permission::Reader)
        } else if mentions(p.writers, address) {
            Some(Permission::Writer)
        } else if mentions(p.owners, address) {
            Some(Permission::Owner)
        } else {
            role(members, address)
        }),
{
    let a = granted(members, p.owners, Permission::Owner);
    let b = granted(a, p.writers, Permission::Writer);
    let c = granted(b, p.readers, Permission::Reader);
    lemma_role_granted(members, p.owners, Permission::Owner, address);
    lemma_role_granted(a, p.writers, Permission::Writer, address);
    lemma_role_granted(b, p.readers, Permission::Reader, address);
    lemma_role_dropped(c, p.drops, address);
}

/// An owner always remains.
pub proof fn owner_remains(members: Seq<MemberV>, p: PermissionsV, encrypted: bool)
    ensures
        changed(members, p, encrypted) matches Ok(list) ==> has_owner(list),
{
}

/// Changes never let everyone in where the body is encrypted.
pub proof fn encrypted_stays_private(members: Seq<MemberV>, p: PermissionsV)
    requires
        role(members, everyone()) is None,
    ensures
        changed(members, p, true) matches Ok(list) ==> role(list, everyone()) is None,
{
    role_after_changes(members, p, true, everyone());
}

/// Making the same changes again changes no one's permission.
pub proof fn changes_are_idempotent(members: Seq<MemberV>, p: PermissionsV, encrypted: bool, address: Seq<char>)
    ensures
        changed(members, p, encrypted) matches Ok(once) ==> (changed(once, p, encrypted) matches Ok(twice) ==> role(
            twice,
            address,
        ) == role(once, address)),
{
    role_after_changes(members, p, encrypted, address);
    if let Ok(once) = changed(members, p, encrypted) {
        role_after_changes(once, p, encrypted, address);
    }
}

/// Every member of a list is given exactly one permission: what the owners, the
/// writers and the readers are in number comes to the number of members.
pub proof fn every_member_is_given_one_role(members: Seq<MemberV>, roles: Seq<Permission>)
    requires
        roles.len() == members.len(),
    ensures
        given(members, roles, Permission::Owner).len() + given(members, roles, Permission::Writer).len() + given(
            members,
            roles,
            Permission::Reader,
        ).len() == members.len(),
    decreases members.len(),
{
    if members.len() > 0 {
        every_member_is_given_one_role(members.drop_last(), roles.drop_last());
    }
}

proof fn lemma_given_constant(members: Seq<MemberV>, roles: Seq<Permission>, permission: Permission, p: Permission)
    requires
        roles.len() == members.len(),
        forall|i: int| 0 <= i < roles.len() ==> roles[i] == permission,
    ensures
        given(members, roles, p) == (if p == permission {
            addresses(members)
        } else {
            Seq::empty()
        }),
    decreases members.len(),
{
    if members.len() > 0 {
        let init = members.drop_last();
        assert forall|i: int| 0 <= i < roles.drop_last().len() implies roles.drop_last()[i] == permission by {
            assert(roles.drop_last()[i] == roles[i]);
        }
        lemma_given_constant(init, roles.drop_last(), permission, p);
        assert(roles.last() == roles[roles.len() - 1]);
        assert(addresses(members) =~= addresses(init).push(members.last().address));
    } else {
        assert(addresses(members) =~= Seq::empty());
    }
}

/// Giving every member one and the same permission by a function is the same as
/// assigning it to all of them.
pub proof fn mapping_to_one_role_assigns_it(members: Seq<MemberV>, roles: Seq<Permission>, permission: Permission)
    requires
        roles.len() == members.len(),
        forall|i: int| 0 <= i < roles.len() ==> roles[i] == permission,
    ensures
        (PermissionsV {
            owners: given(members, roles, Permission::Owner),
            writers: given(members, roles, Permission::Writer),
            readers: given(members, roles, Permission::Reader),
            drops: Seq::empty(),
        }) == all_as(addresses(members), permission),
{
    lemma_given_constant(members, roles, permission, Permission::Owner);
    lemma_given_constant(members, roles, permission, Permission::Writer);
    lemma_given_constant(members, roles, permission, Permission::Reader);
}

/// Taking a member out removes exactly the members with that address.
pub proof fn without_removes_exactly(members: Seq<MemberV>, address: Seq<char>, m: MemberV)
    ensures
        kept(members, wire(address)).contains(m) <==> members.contains(m) && m.address != wire(address),
    decreases members.len(),
{
    let x = wire(address);
    if members.len() > 0 {
        let init = members.drop_last();
        without_removes_exactly(init, address, m);
        assert(members =~= init.push(members.last()));
        let rest = kept(init, x);
        if members.contains(m) && m != members.last() {
            let i = choose|i: int| 0 <= i < members.len() && members[i] == m;
            assert(init[i] == m);
        }
        if init.contains(m) {
            let i = choose|i: int| 0 <= i < init.len() && init[i] == m;
            assert(members[i] == m);
        }
        if m == members.last() {
            assert(members[members.len() - 1] == m);
        }
        if m.address != x && members.last().address != x {
            let after = rest.push(members.last());
            if rest.contains(m) {
                let i = choose|i: int| 0 <= i < rest.len() && rest[i] == m;
                assert(after[i] == m);
            }
            if m == members.last() {
                assert(after[rest.len() as int] == m);
            }
            if after.contains(m) && m != members.last() {
                let i = choose|i: int| 0 <= i < after.len() && after[i] == m;
                assert(rest[i] == m);
            }
        }
        if members.last().address != x && m.address == x {
            let after = rest.push(members.last());
            if after.contains(m) {
                let i = choose|i: int| 0 <= i < after.len() && after[i] == m;
                assert(rest[i] == m);
            }
        }
    }
}

} // verus!
