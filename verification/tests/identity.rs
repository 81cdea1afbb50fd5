use ark::accounts::{
    change_identity_members, create_account, create_account_with_key, create_client_identity,
    create_client_identity_with_key, key_path_for,
    resolve_address, write_identity,
};
use ark::base64url::decode_base64url;
use ark::crypto::DEFAULT_SIGNING_ALGORITHM;
use ark::error::{Fault, Kind};
use ark::identity::{
    address_from_url, create_identity, create_identity_with_key, is_valid_account_name, parse_address, read_identity, read_identity_key,
    validate_identity, verify_identity, write_identity_key, write_identity_key_raw,
};
use ark::primitives::UrlParts;
use ark::resolve::{accept_identity, flatten, identity_sources, resolve_identity, Resolution, Stored};
use ark::types::{Context, Identity, Key, Signature};
use serde_json::Value;

fn key(value: u8) -> Key {
    Key { algorithm: "ed25519".to_string(), value: vec![value; 32] }
}

fn text(value: &Value, name: &str) -> String {
    value.get(name).unwrap().as_str().unwrap().to_string()
}

fn bytes(value: &Value, name: &str) -> Vec<u8> {
    decode_base64url(&text(value, name)).unwrap()
}

fn parse_identity(document: &str) -> Identity {
    let value: Value = serde_json::from_str(document).unwrap();
    let public_key = value.get("public_key").unwrap();
    let signature = value.get("signature").unwrap();
    let members = match value.get("members") {
        Some(list) => Some(list.as_array().unwrap().iter().map(|m| m.as_str().unwrap().to_string()).collect()),
        None => None,
    };
    Identity {
        public_key: Key { algorithm: text(public_key, "algorithm"), value: bytes(public_key, "value") },
        address: text(&value, "address"),
        members,
        signature: Signature { algorithm: text(signature, "algorithm"), value: bytes(signature, "value") },
    }
}

fn context(address: &str, seed: u8) -> Context {
    let secret = key(seed);
    let identity = create_identity_with_key(&secret, address, None).unwrap();
    Context { root: "/home/alice".to_string(), identity, identity_key: Some(secret) }
}

fn list(addresses: &[&str]) -> Vec<String> {
    addresses.iter().map(|a| a.to_string()).collect()
}

#[test]
fn create_identity_has_valid_signature() {
    let (identity, _) = create_identity("alice@example.com", None).unwrap();
    assert_eq!(identity.address, "alice@example.com");
    assert_eq!(identity.public_key.algorithm, DEFAULT_SIGNING_ALGORITHM);
    assert_eq!(identity.signature.algorithm, DEFAULT_SIGNING_ALGORITHM);
    assert!(identity.members.is_none());

    assert!(verify_identity(&identity).is_ok());
}

#[test]
fn create_identity_with_members_is_group() {
    let members = vec!["alice@example.com".to_string(), "bob@example.com".to_string()];
    let (identity, _) =
        create_identity("alice@example.com/.ark/groups/team.json", Some(members.clone())).unwrap();

    assert_eq!(identity.members.as_ref().unwrap(), &members);
    assert!(verify_identity(&identity).is_ok());
    validate_identity(&identity).unwrap();
}

#[test]
fn create_identity_signature_detects_tampering() {
    let (identity, _) = create_identity("alice@example.com", None).unwrap();
    assert_eq!(identity.address, "alice@example.com");
    assert_eq!(identity.public_key.algorithm, DEFAULT_SIGNING_ALGORITHM);
    assert_eq!(identity.signature.algorithm, DEFAULT_SIGNING_ALGORITHM);

    let mut identity_tampered = identity.clone();
    identity_tampered.address = "mallory@example.com".to_string();

    assert!(verify_identity(&identity_tampered).is_err());
}

#[test]
fn identity_json_round_trip() {
    let (identity, _) = create_identity("alice@example.com", None).unwrap();
    let s = ark::json::write_identity_json(&identity);
    let parsed = parse_identity(&s);
    assert_eq!(parsed.address, identity.address);
    assert_eq!(parsed.public_key.algorithm, identity.public_key.algorithm);
    assert_eq!(parsed.public_key.value, identity.public_key.value);
    assert_eq!(parsed.signature.algorithm, identity.signature.algorithm);
    assert_eq!(parsed.signature.value, identity.signature.value);
}

#[test]
fn read_write_identity_round_trip() {
    let (identity, _) = create_identity("alice@example.com", None).unwrap();
    let document = write_identity(&identity).unwrap();
    assert!(document.starts_with("{\n  \""));
    let loaded = read_identity(parse_identity(&document)).unwrap();
    assert_eq!(loaded.address, identity.address);
    assert_eq!(loaded.public_key.algorithm, identity.public_key.algorithm);
    assert_eq!(loaded.public_key.value, identity.public_key.value);
    assert_eq!(loaded.signature.algorithm, identity.signature.algorithm);
    assert_eq!(loaded.signature.value, identity.signature.value);
}

#[test]
fn account_name_validation_matches_spec() {
    let long = "a".repeat(64);
    let valid = ["a", "gyan", "alice123", "user.name", "user-name", "user_name", "a.b-c_d.0", long.as_str()];
    for n in valid {
        assert!(is_valid_account_name(n), "{} should be valid", n);
    }
    let longer = "a".repeat(65);
    let invalid: &[&str] = &[
        "",
        ".",
        "..",
        "...",
        "Alice",
        "ALICE",
        "user@host",
        "user name",
        "user/slash",
        "user\\back",
        "user+plus",
        "user#hash",
        "caf\u{e9}",
        longer.as_str(),
    ];
    for n in invalid {
        assert!(!is_valid_account_name(n), "{} should be invalid", n);
    }
}

#[test]
fn parse_address_path_is_empty_when_omitted() {
    let (name, host, path) = parse_address("bob@example.com").unwrap();
    assert_eq!(name, "bob");
    assert_eq!(host, "example.com");
    assert_eq!(path, "");
}

#[test]
fn parse_address_keeps_port_and_path() {
    let (name, host, path) = parse_address("bob@example.com:9000/groups/team.json").unwrap();
    assert_eq!(name, "bob");
    assert_eq!(host, "example.com:9000");
    assert_eq!(path, "/groups/team.json");
}

#[test]
fn parse_address_keeps_usual_ports() {
    assert_eq!(parse_address("bob@example.com:443").unwrap().1, "example.com:443");
    assert_eq!(parse_address("bob@example.com:80/x").unwrap().1, "example.com:80");
    let parts = UrlParts {
        username: "bob".to_string(),
        host: Some("example.com".to_string()),
        port: None,
        path: "/".to_string(),
        query: None,
    };
    let expected = ("bob".to_string(), "example.com:443".to_string(), String::new());
    assert_eq!(address_from_url(&parts, Some(443)).unwrap(), expected);
    assert_eq!(address_from_url(&parts, None).unwrap().1, "example.com");
}

#[test]
fn validate_identity_accepts_well_formed() {
    let (identity, _) = create_identity("alice@example.com", None).unwrap();
    validate_identity(&identity).unwrap();
}

#[test]
fn validate_identity_rejects_invalid_account_name() {
    let (mut identity, _) = create_identity("alice@example.com", None).unwrap();
    identity.address = "BAD@example.com".to_string();
    let err = validate_identity(&identity).unwrap_err();
    assert!(err.message().contains("invalid account name"));
}

#[test]
fn validate_identity_rejects_tampered_address() {
    let (mut identity, _) = create_identity("alice@example.com", None).unwrap();
    identity.address = "bob@example.com".to_string();
    let err = validate_identity(&identity).unwrap_err();
    assert!(err.message().contains("signature verification failed"));
}

#[test]
fn read_write_identity_key_round_trip() {
    let key = [77u8; 32];
    let content = write_identity_key_raw("/group.key", false, &key).unwrap();
    let loaded = read_identity_key(&content).unwrap();
    assert_eq!(loaded, key);
}

#[test]
fn resolve_identity_returns_cached_when_present() {
    let ctx = context("alice@example.com", 1);
    let (identity, _) = create_identity("bob@example.com", None).unwrap();
    let cached = Stored::Present { identity: identity.clone() };
    match resolve_identity(&ctx.identity, "bob@example.com", &Stored::Missing, &cached) {
        Resolution::Known { identity: loaded } => {
            assert_eq!(loaded.address, identity.address);
            assert_eq!(loaded.public_key.value, identity.public_key.value);
            assert_eq!(loaded.signature.value, identity.signature.value);
        }
        _ => panic!("expected the cached identity"),
    }
}

#[test]
fn resolve_identity_returns_self_without_cache_lookup() {
    let ctx = context("alice@example.com", 1);
    match resolve_identity(&ctx.identity, &ctx.identity.address, &Stored::Missing, &Stored::Missing) {
        Resolution::Known { identity } => assert_eq!(identity.public_key.value, ctx.identity.public_key.value),
        _ => panic!("expected the own identity"),
    }
}

#[test]
fn resolve_identity_errors_on_invalid_cached_file() {
    let ctx = context("alice@example.com", 1);
    let broken = ark::error::fail_with(Fault::IdentityParse, "expected ident at line 1 column 2".to_string());
    let cached = Stored::Broken { error: broken };
    match resolve_identity(&ctx.identity, "bob@example.com", &Stored::Missing, &cached) {
        Resolution::Failed { error } => {
            assert!(error.message().contains("identity.json parse"), "msg was {}", error.message())
        }
        _ => panic!("expected error"),
    }
}

#[test]
fn resolve_identity_reads_local_peer_account() {
    let ctx = context("alice@127.0.0.1:8000", 1);
    let expected = create_identity("bob@127.0.0.1:8000", None).unwrap().0;
    let peer = Stored::Present { identity: expected.clone() };
    match resolve_identity(&ctx.identity, "bob@127.0.0.1:8000", &peer, &Stored::Missing) {
        Resolution::Known { identity: fetched } => {
            assert_eq!(fetched.address, expected.address);
            assert_eq!(fetched.public_key.value, expected.public_key.value);
            assert_eq!(fetched.signature.value, expected.signature.value);
        }
        _ => panic!("expected the identity of the peer"),
    }
}

#[test]
fn resolve_identity_fetches_and_caches_on_miss() {
    let ctx = context("alice@127.0.0.1:8000", 1);
    let expected = create_identity("bob@127.0.0.1:9000", None).unwrap().0;
    match resolve_identity(&ctx.identity, "bob@127.0.0.1:9000", &Stored::Missing, &Stored::Missing) {
        Resolution::Fetch { sources } => {
            assert!(sources.cache.ends_with("/identities/bob@127.0.0.1:9000.json"), "cache was {}", sources.cache);
            assert_eq!(sources.document, "bob@127.0.0.1:9000/.ark/identity.json");
        }
        _ => panic!("expected a fetch"),
    }
    let body = write_identity(&expected).unwrap();
    let fetched = accept_identity(200, body.as_bytes(), Ok(parse_identity(&body))).unwrap();
    assert_eq!(fetched.address, expected.address);
    assert_eq!(fetched.public_key.value, expected.public_key.value);
    assert_eq!(fetched.signature.value, expected.signature.value);
}

#[test]
fn fetched_identities_are_checked() {
    let (mut identity, _) = create_identity("bob@example.com", None).unwrap();
    let err = accept_identity(404, b"not found", Ok(identity.clone())).unwrap_err();
    assert!(err.message().starts_with("HTTP 404"), "msg was {}", err.message());
    identity.address = "eve@example.com".to_string();
    assert!(accept_identity(200, b"", Ok(identity)).is_err());
}

#[test]
fn cache_names_are_flat() {
    assert_eq!(flatten("alice@h/groups/team.json"), "alice@h_groups_team.json");
    let sources = identity_sources("alice@h/groups/team.json").unwrap();
    assert_eq!(sources.document, "alice@h/groups/team.json");
}

#[test]
fn create_account_writes_identity_file() {
    let secret = key(54);
    let account = create_account_with_key("/srv", "gyan@example.com:8080", &secret, false, false).unwrap();
    assert_eq!(account.name, "gyan");
    let content = write_identity(&account.identity).unwrap();
    let v: Value = serde_json::from_str(&content).unwrap();
    assert_eq!(text(v.get("public_key").unwrap(), "algorithm"), "ed25519");
    let public = ed25519_dalek::SigningKey::from_bytes(&[54u8; 32]).verifying_key().to_bytes();
    assert_eq!(bytes(v.get("public_key").unwrap(), "value"), public.to_vec());
    assert_eq!(text(&v, "address"), "gyan@example.com:8080");
    assert_eq!(text(v.get("signature").unwrap(), "algorithm"), "ed25519");
}

#[test]
fn create_account_writes_identity_key_file() {
    let secret = key(55);
    let account = create_account_with_key("/srv", "gyan@example.com", &secret, false, false).unwrap();
    let decoded = decode_base64url(account.key.trim()).unwrap();
    assert_eq!(decoded, [55u8; 32]);
}

#[test]
fn create_account_rejects_invalid_addresses() {
    let long = format!("{}@host", "a".repeat(65));
    let bad: &[&str] = &[
        "",
        "noatsign",
        "@host",
        "name@",
        "UPPER@host",
        "with/slash@host",
        "name@host:abc",
        &long,
    ];
    for b in bad {
        let err = create_account("/srv", b, false, false).unwrap_err();
        assert_eq!(err.kind(), Kind::InvalidInput, "{} should be InvalidInput", b);
    }
}

#[test]
fn create_account_rejects_duplicate() {
    create_account("/srv", "gyan@example.com", false, false).unwrap();
    let err = create_account("/srv", "gyan@example.com", true, true).unwrap_err();
    assert_eq!(err.kind(), Kind::AlreadyExists);
    let err = create_account("/srv", "gyan@example.com", false, true).unwrap_err();
    assert_eq!(err.kind(), Kind::AlreadyExists);
}

#[test]
fn account_with_a_key_has_its_public_key() {
    let secret = key(77);
    let account = create_account_with_key("/srv", "gyan@example.com", &secret, false, false).unwrap();
    assert_eq!(account.identity, create_identity_with_key(&secret, "gyan@example.com", None).unwrap());
    assert_eq!(read_identity_key(&account.key).unwrap(), secret.value);
}

#[test]
fn key_files_are_not_overwritten() {
    let err = write_identity_key("/group.key", true, &[1u8; 32]).unwrap_err();
    assert_eq!(err.kind(), Kind::AlreadyExists);
    assert!(err.message().ends_with(" already exists"));
    assert_eq!(read_identity_key("!!").unwrap_err().fault, Fault::KeyFileNotBase64);
}

#[test]
fn key_path_lies_beside_the_document() {
    assert_eq!(key_path_for("/.ark/groups/team.json"), "/.ark/groups/team.key");
    assert_eq!(key_path_for("/.ark/identity.password"), "/.ark/identity.password.key");
}

#[test]
fn addresses_are_resolved_from_the_account() {
    let ctx = context("alice@example.com", 1);
    assert_eq!(resolve_address(&ctx, "/groups/team.json"), "alice@example.com/groups/team.json");
    assert_eq!(resolve_address(&ctx, "groups/team.json"), "alice@example.com/groups/team.json");
    assert_eq!(resolve_address(&ctx, "bob@example.com/x"), "bob@example.com/x");
}

const ALICE: &str = "alice@127.0.0.1:8000";
const BOB: &str = "bob@127.0.0.1:8000";
const CHARLIE: &str = "charlie@127.0.0.1:8000";

fn group(ctx: &Context, members: &[&str]) -> ark::accounts::NewIdentity {
    create_client_identity(ctx, "team.json", &list(members), false, false).unwrap()
}

fn change(
    ctx: &Context,
    identity: &Identity,
    secret: &Key,
    add: &[&str],
    drops: &[&str],
) -> Option<ark::accounts::GroupChange> {
    change_identity_members(ctx, "team.json", identity, &secret.value, &list(add), &list(drops)).unwrap()
}

#[test]
fn create_client_identity_publishes_identity_and_key() {
    let ctx = context(ALICE, 1);
    let new = group(&ctx, &[BOB]);
    assert_eq!(new.identity.address, format!("{}/team.json", ALICE));
    assert_eq!(new.address, format!("{}/team.json", ALICE));
    assert_eq!(new.identity.members, Some(list(&[BOB])));
    assert_eq!(new.key_path, "team.key");
    assert_eq!(new.document_permissions.readers, list(&["public", BOB]));
    assert_eq!(new.key_permissions.readers, list(&[BOB]));
    assert!(new.key_permissions.owners.is_empty() && new.key_permissions.drops.is_empty());
}

#[test]
fn create_client_identity_takes_a_given_key() {
    let ctx = context("alice@example.com", 1);
    let members = list(&["bob@example.com", "alice@example.com", "bob@example.com"]);
    let made = create_client_identity_with_key(&ctx, "team.json", &members, false, false, key(5)).unwrap();
    assert_eq!(made.secret_key, key(5));
    assert_eq!(made.address, "alice@example.com/team.json");
    let listed = Some(list(&["bob@example.com", "alice@example.com"]));
    assert_eq!(made.identity, create_identity_with_key(&key(5), "alice@example.com/team.json", listed).unwrap());
    assert_eq!(made.document_permissions.readers, list(&["public", "bob@example.com"]));
    assert_eq!(made.key_permissions.readers, list(&["bob@example.com"]));
    let err = create_client_identity_with_key(&ctx, "team", &members, false, false, key(5)).unwrap_err();
    assert!(matches!(err.fault, Fault::PathNotJson));
}

#[test]
fn create_client_identity_rejects_duplicate_path() {
    let ctx = context(ALICE, 1);
    let none: Vec<String> = Vec::new();
    let err = create_client_identity(&ctx, "team.json", &none, true, true).unwrap_err();
    assert_eq!(err.kind(), Kind::AlreadyExists);
    assert_eq!(err.message(), "team.json already exists");
    let err = create_client_identity(&ctx, "team.json", &none, false, true).unwrap_err();
    assert_eq!(err.message(), "team.key already exists");
}

#[test]
fn create_client_identity_without_members_is_not_a_group() {
    let ctx = context(ALICE, 1);
    let new = group(&ctx, &[]);
    assert!(new.identity.members.is_none());
    assert_eq!(new.identity.address, format!("{}/team.json", ALICE));
    assert!(!new.secret_key.value.is_empty());
    let body = write_identity_key(&new.key_path, false, &new.secret_key.value).unwrap();
    assert!(!body.is_empty());
}

#[test]
fn create_client_identity_nested_relative_path() {
    let ctx = context(ALICE, 1);
    let new = create_client_identity(&ctx, "contacts/team.json", &[], false, false).unwrap();
    assert_eq!(new.identity.address, format!("{}/contacts/team.json", ALICE));
    assert_eq!(new.key_path, "contacts/team.key");
}

#[test]
fn create_client_identity_requires_json_suffix() {
    let ctx = context(ALICE, 1);
    let err = create_client_identity(&ctx, "team", &[], false, false).unwrap_err();
    assert_eq!(err.kind(), Kind::InvalidInput);
}

#[test]
fn create_client_identity_account_absolute_path() {
    let ctx = context(ALICE, 1);
    let new = create_client_identity(&ctx, "/groups/team.json", &[], false, false).unwrap();
    assert_eq!(new.identity.address, format!("{}/groups/team.json", ALICE));
    assert_eq!(new.key_path, "/groups/team.key");
}

#[test]
fn create_client_identity_address_form_path() {
    let ctx = context(ALICE, 1);
    let path = format!("{}/team.json", ALICE);
    let new = create_client_identity(&ctx, &path, &[], false, false).unwrap();
    assert_eq!(new.identity.address, format!("{}/team.json", ALICE));
    assert_eq!(new.key_path, format!("{}/team.key", ALICE));
}

#[test]
fn create_client_identity_rejects_bare_address_without_path() {
    let ctx = context(ALICE, 1);
    let err = create_client_identity(&ctx, ALICE, &[], false, false).unwrap_err();
    assert_eq!(err.kind(), Kind::InvalidInput);
}

#[test]
fn init_local_still_produces_non_group_identity() {
    let (identity, _) = ark::bootstrap::init_local("alice@example.com").unwrap();
    assert!(identity.members.is_none());
}

#[test]
fn create_client_identity_self_signature_verifies() {
    let ctx = context(ALICE, 1);
    validate_identity(&group(&ctx, &[]).identity).unwrap();
}

#[test]
fn change_identity_members_add_updates_identity_and_key() {
    let ctx = context(ALICE, 1);
    let new = group(&ctx, &[BOB]);
    let changed = change(&ctx, &new.identity, &new.secret_key, &[CHARLIE], &[]).unwrap();
    assert_eq!(changed.identity.members, Some(list(&[BOB, CHARLIE])));
    validate_identity(&changed.identity).unwrap();
    assert_eq!(changed.permissions.readers, list(&[CHARLIE]));
    assert!(changed.permissions.drops.is_empty());
    assert!(changed.key);
}

#[test]
fn change_identity_members_add_is_idempotent() {
    let ctx = context(ALICE, 1);
    let new = group(&ctx, &[BOB]);
    assert!(change(&ctx, &new.identity, &new.secret_key, &[BOB], &[]).is_none());
}

#[test]
fn change_identity_members_drop_updates_identity_and_key() {
    let ctx = context(ALICE, 1);
    let new = group(&ctx, &[BOB]);
    let changed = change(&ctx, &new.identity, &new.secret_key, &[], &[BOB]).unwrap();
    assert_eq!(changed.identity.members, Some(Vec::new()));
    validate_identity(&changed.identity).unwrap();
    assert_eq!(changed.permissions.drops, list(&[BOB]));
    assert!(changed.permissions.readers.is_empty());
    assert!(changed.key);
}

#[test]
fn change_identity_members_drop_is_idempotent() {
    let ctx = context(ALICE, 1);
    let new = group(&ctx, &[BOB]);
    let changed = change(&ctx, &new.identity, &new.secret_key, &[], &[BOB]).unwrap();
    assert!(change(&ctx, &changed.identity, &new.secret_key, &[], &[BOB]).is_none());
}

#[test]
fn change_identity_members_can_drop_account_owner() {
    let ctx = context(ALICE, 1);
    let new = group(&ctx, &[ALICE, BOB]);
    let changed = change(&ctx, &new.identity, &new.secret_key, &[], &[ALICE]).unwrap();
    assert_eq!(changed.identity.members, Some(list(&[BOB])));
    // The owner keeps the key.
    assert!(changed.permissions.drops.is_empty());
    assert!(!changed.key);
}

#[test]
fn change_identity_members_drop_supersedes_add() {
    let ctx = context(ALICE, 1);
    let new = group(&ctx, &[BOB]);
    let changed = change(&ctx, &new.identity, &new.secret_key, &[BOB], &[BOB]).unwrap();
    assert_eq!(changed.identity.members, Some(Vec::new()));
}

#[test]
fn change_identity_members_add_and_drop_in_one_call() {
    let ctx = context(ALICE, 1);
    let new = group(&ctx, &[BOB]);
    let changed = change(&ctx, &new.identity, &new.secret_key, &[CHARLIE], &[BOB]).unwrap();
    assert_eq!(changed.identity.members, Some(list(&[CHARLIE])));
    assert_eq!(changed.permissions.readers, list(&[CHARLIE]));
    assert_eq!(changed.permissions.drops, list(&[BOB]));
}

#[test]
fn group_changes_need_something_to_do() {
    let ctx = context("alice@example.com", 1);
    let group = create_client_identity(&ctx, "/t.json", &list(&["a@h"]), false, false).unwrap();
    let none: Vec<String> = Vec::new();
    let err = change_identity_members(&ctx, "/t.json", &group.identity, &group.secret_key.value, &none, &none)
        .err()
        .expect("expected error");
    assert_eq!(err.fault, Fault::NothingToChange);
    let err = change_identity_members(&ctx, "/t.txt", &group.identity, &group.secret_key.value, &list(&["b@h"]), &none)
        .err()
        .expect("expected error");
    assert_eq!(err.fault, Fault::PathNotJson);
}
