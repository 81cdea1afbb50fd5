use ark::permissions::{assign, drop, drops, owner, owners, reader, readers, without, writer, writers};
use ark::types::{Member, Permission};

fn member(address: &str, permission: Permission) -> Member {
    Member { address: address.to_string(), permission, key: None }
}

fn list(addresses: &[&str]) -> Vec<String> {
    addresses.iter().map(|a| a.to_string()).collect()
}

#[test]
fn without_removes_matching_address() {
    let members = [member("a@x", Permission::Owner), member("b@y", Permission::Writer)];
    let got = without(&members, "a@x");
    assert_eq!(got.len(), 1);
    assert_eq!(got[0].address, "b@y");
}

#[test]
fn without_translates_public_alias() {
    let members = [member("*", Permission::Reader), member("a@x", Permission::Owner)];
    let got = without(&members, "public");
    assert_eq!(got.len(), 1);
    assert_eq!(got[0].address, "a@x");
}

#[test]
fn assign_collects_all_into_one_role() {
    let members = [member("a@x", Permission::Owner), member("b@y", Permission::Writer)];
    let perms = assign(&members, Permission::Reader);
    assert_eq!(perms.readers, vec!["a@x".to_string(), "b@y".to_string()]);
    assert!(perms.owners.is_empty());
    assert!(perms.writers.is_empty());
    assert!(perms.drops.is_empty());
}

#[test]
fn map_remaps_per_member_permission() {
    let members =
        [member("a@x", Permission::Owner), member("b@y", Permission::Writer), member("c@z", Permission::Reader)];
    let perms = ark::permissions::map(&members, |p| match p {
        Permission::Owner => Permission::Owner,
        _ => Permission::Reader,
    });
    assert_eq!(perms.owners, vec!["a@x".to_string()]);
    assert_eq!(perms.readers, vec!["b@y".to_string(), "c@z".to_string()]);
    assert!(perms.writers.is_empty());
}

#[test]
fn map_gives_every_member_one_role() {
    let members = [
        member("a@x", Permission::Owner),
        member("b@y", Permission::Writer),
        member("c@z", Permission::Reader),
    ];
    let kept = ark::permissions::map(&members, |p| p);
    assert_eq!(kept.owners.len() + kept.writers.len() + kept.readers.len(), 3);
    let all = ark::permissions::map(&members, |_| Permission::Reader);
    let assigned = assign(&members, Permission::Reader);
    assert_eq!((all.owners, all.writers, all.readers), (assigned.owners, assigned.writers, assigned.readers));
}

#[test]
fn plural_helpers_collect_addresses() {
    let perms = readers(list(&["a@x", "b@y"]));
    assert_eq!(perms.readers, vec!["a@x".to_string(), "b@y".to_string()]);
    assert!(perms.owners.is_empty());

    let perms = writers(vec!["a@x".to_string(), "b@y".to_string()]);
    assert_eq!(perms.writers, vec!["a@x".to_string(), "b@y".to_string()]);

    let perms = owners(list(&["a@x"]));
    assert_eq!(perms.owners, vec!["a@x".to_string()]);

    let perms = drops(list(&["a@x", "b@y"]));
    assert_eq!(perms.drops, vec!["a@x".to_string(), "b@y".to_string()]);
}

#[test]
fn singular_helpers_match_one_element_plurals() {
    assert_eq!(reader("a@x").readers, readers(list(&["a@x"])).readers);
    assert_eq!(writer("a@x").writers, writers(list(&["a@x"])).writers);
    assert_eq!(owner("a@x").owners, owners(list(&["a@x"])).owners);
    assert_eq!(drop("a@x").drops, drops(list(&["a@x"])).drops);
}
