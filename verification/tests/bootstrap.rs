use ark::accounts::write_identity;
use ark::base64url::decode_base64url;
use ark::bootstrap::{
    create_server_context, create_target_context, init, init_answer, init_local, init_uploads, open_password,
    password_address_of, publish_identity, pull_secret_key_with_password, push_secret_key_with_password, read_context, Origin, Start,
};
use ark::crypto::{
    decrypt_bytes, to_public_key, DEFAULT_ENCRYPTION_ALGORITHM, DEFAULT_PASSWORD_ALGORITHM, DEFAULT_SIGNING_ALGORITHM,
    PASSWORD_SALT_LEN, PASSWORD_VERIFIER_LEN,
};
use ark::error::{fail_with, Fault, Kind};
use ark::fields::write_metadata_headers;
use ark::http::{read_request, Response};
use ark::identity::{validate_identity, write_identity_key};
use ark::membership::{Directory, Found};
use ark::metadata::verify_metadata;
use ark::permissions::{reader, writer};
use ark::server::{directories_above, handle, route, Account, Action, Content, Disk, Node};
use ark::types::{Context, Identity, Key, Permission};
use ark::upload::put;
use serde_json::Value;

const ADDRESS: &str = "gyan@127.0.0.1:8000";
const TIME: &str = "2026-01-02T03:04:05.678Z";
const NOW: u64 = 1_800_000_000;

fn context(identity: Identity, key: Key) -> Context {
    Context { root: "/home".to_string(), identity, identity_key: Some(key) }
}

#[test]
fn init_writes_identity_file() {
    let (identity, secret_key) = init_local("gyan@example.com:8080").unwrap();
    let content = write_identity(&identity).unwrap();
    let v: Value = serde_json::from_str(&content).unwrap();
    assert_eq!(v["public_key"]["algorithm"].as_str(), Some(DEFAULT_SIGNING_ALGORITHM));
    let pk_bytes = decode_base64url(v["public_key"]["value"].as_str().unwrap()).unwrap();
    let seed: [u8; 32] = secret_key.value.as_slice().try_into().unwrap();
    assert_eq!(pk_bytes, ed25519_dalek::SigningKey::from_bytes(&seed).verifying_key().to_bytes());
    assert_eq!(v["address"].as_str(), Some("gyan@example.com:8080"));
    assert!(v.get("modified").is_none());
    assert_eq!(v["signature"]["algorithm"].as_str(), Some(DEFAULT_SIGNING_ALGORITHM));
}

#[test]
fn init_writes_identity_key_file() {
    let (_, secret_key) = init_local("gyan@example.com").unwrap();
    let content = write_identity_key("/.ark/identity.key", false, &secret_key.value).unwrap();
    let decoded = decode_base64url(content.trim()).unwrap();
    assert_eq!(decoded, secret_key.value);
}

#[test]
fn init_asks_the_server_first() {
    match init("/home", ADDRESS, false, false, false, false, NOW).unwrap() {
        Start::Ask { request } => {
            let read = read_request(&request, false).unwrap();
            assert_eq!(read.method, "GET");
            assert_eq!(read.target, "/ark/gyan/.ark/identity.json");
        }
        Start::Local => panic!("expected a request"),
    }
    assert!(matches!(init("/home", ADDRESS, false, true, false, false, NOW).unwrap(), Start::Local));
    let err = init("/home", ADDRESS, true, true, false, false, NOW).unwrap_err();
    assert_eq!(err.message(), "--password not supported with --local-only");
}

#[test]
fn init_downloads_existing_server_identity() {
    let (server_identity, _) = init_local(ADDRESS).unwrap();
    let body = write_identity(&server_identity).unwrap();
    match init_answer(ADDRESS, 200, body.as_bytes(), Ok(server_identity.clone())).unwrap() {
        Origin::Pin { identity } => {
            assert_eq!(identity.address, server_identity.address);
            assert_eq!(identity.public_key.value, server_identity.public_key.value);
        }
        Origin::Create { .. } => panic!("expected the identity of the server"),
    }
}

#[test]
fn init_creates_and_uploads_when_server_empty() {
    for status in [403, 404] {
        let nothing = fail_with(Fault::IdentityParse, String::new());
        match init_answer(ADDRESS, status, b"forbidden", Err(nothing)).unwrap() {
            Origin::Create { server } => assert_eq!(server, "ark@127.0.0.1:8000"),
            Origin::Pin { .. } => panic!("expected a new account"),
        }
    }
    let (local, key) = init_local(ADDRESS).unwrap();
    assert_eq!(local.address, ADDRESS);

    let ctx = context(local.clone(), key);
    let none = Directory { entries: Vec::new() };
    let document = write_identity(&local).unwrap();
    let first = init_uploads("ark@127.0.0.1:8000", None).remove(0);
    let upload = put(
        &ctx,
        &none,
        &first.path,
        &[],
        Some(document.as_bytes()),
        &first.permissions,
        first.algorithm.as_deref(),
        false,
        TIME,
        NOW,
    )
    .unwrap();
    let request = read_request(&upload.request, false).unwrap();
    let place = match route(&request.method, &request.target) {
        Ok(p) => p,
        Err(_) => panic!("expected a place"),
    };
    assert_eq!(place.file, "ark/gyan/.ark/identity.json");
    let disk = Disk {
        account: Account::Present { identity: local.clone() },
        symlink: false,
        attributes: Ok(Vec::new()),
        above: directories_above(&place.file).iter().map(|_| Ok(Vec::new())).collect(),
        node: Node::Missing,
    };
    match handle(&request, &place, &disk, &none, NOW) {
        Action::Store { metadata, content, status } => {
            assert!(matches!(content, Content::Body));
            assert_eq!(status, 201);
            assert!(verify_metadata(&local.public_key, &metadata, Some(&request.body)).is_ok());
        }
        _ => panic!("server should have uploaded identity"),
    }
    let server: Value = serde_json::from_slice(&request.body).unwrap();
    assert_eq!(decode_base64url(server["public_key"]["value"].as_str().unwrap()).unwrap(), local.public_key.value);
}

#[test]
fn init_grants_ark_write_on_requests_dir() {
    let (identity, key) = init_local(ADDRESS).unwrap();
    let ctx = context(identity, key);
    let none = Directory { entries: Vec::new() };
    let ark_address = "ark@127.0.0.1:8000";
    let upload =
        put(&ctx, &none, "/.ark/requests/", &[], None, &writer(ark_address), None, false, TIME, NOW).unwrap();
    let ark_member = upload.metadata.members.iter().find(|m| m.address == ark_address).expect("ark must be a member");
    assert_eq!(ark_member.permission, Permission::Writer);
    let owner = upload.metadata.members.iter().find(|m| m.address == ADDRESS).expect("account must be owner");
    assert_eq!(owner.permission, Permission::Owner);
}

#[test]
fn new_accounts_upload_in_order() {
    let shown = |list: Vec<ark::bootstrap::FirstUpload>| -> Vec<(String, Vec<String>, Vec<String>, Option<String>)> {
        list.into_iter().map(|u| (u.path, u.permissions.writers, u.permissions.readers, u.algorithm)).collect()
    };
    let public = vec!["public".to_string()];
    let none = Some("none".to_string());
    let always = vec![
        ("/.ark/identity.json".to_string(), vec![], public.clone(), none.clone()),
        ("/.ark/requests/".to_string(), vec!["ark@h".to_string()], vec![], None),
    ];
    assert_eq!(shown(init_uploads("ark@h", None)), always);
    let mut all = always;
    all.push(("/.ark/passwords/primary.json".to_string(), vec![], public, none));
    all.push(("/.ark/identity.key".to_string(), vec![], vec!["a@h/p.json".to_string()], None));
    assert_eq!(shown(init_uploads("ark@h", Some("a@h/p.json"))), all);
}

#[test]
fn init_rejects_existing_local_identity() {
    let err = init("/home", "gyan@127.0.0.1:1", false, false, true, false, NOW).unwrap_err();
    assert_eq!(err.kind(), Kind::AlreadyExists);
    assert_eq!(err.message(), "/home/.ark/identity.json already exists");
    let err = init("/home", "gyan@127.0.0.1:1", false, false, false, true, NOW).unwrap_err();
    assert_eq!(err.kind(), Kind::AlreadyExists);
}

#[test]
fn init_reports_other_answers() {
    let nothing = fail_with(Fault::IdentityParse, String::new());
    let err = init_answer(ADDRESS, 500, b"broken", Err(nothing)).unwrap_err();
    assert_eq!(err.message(), "HTTP 500: broken");
    let (other, _) = init_local("other@127.0.0.1:8000").unwrap();
    let err = init_answer(ADDRESS, 200, b"", Ok(other)).unwrap_err();
    assert_eq!(
        err.message(),
        "server identity address other@127.0.0.1:8000 does not match gyan@127.0.0.1:8000"
    );
}

// What is uploaded for an account with a password: the credential, and the key
// encrypted for it.
fn uploaded(password: &str) -> (Identity, Key, Identity, Vec<u8>, ark::types::Metadata) {
    let (identity, key) = init_local(ADDRESS).unwrap();
    let (credential, _) = push_secret_key_with_password(ADDRESS, password).unwrap();
    let ctx = context(identity.clone(), key.clone());
    let found = Found { address: credential.address.clone(), outcome: Ok(credential.clone()) };
    let directory = Directory { entries: vec![found] };
    let content = write_identity_key("/.ark/identity.key", false, &key.value).unwrap();
    let upload = put(
        &ctx,
        &directory,
        "/.ark/identity.key",
        &[],
        Some(content.as_bytes()),
        &reader(&credential.address),
        None,
        false,
        TIME,
        NOW,
    )
    .unwrap();
    (identity, key, credential, upload.body, upload.metadata)
}

#[test]
fn init_password_uploads_credential_and_identity_key() {
    let (_, key, credential, ciphertext, metadata) = uploaded("hunter2");
    let expected_credential_address = "gyan@127.0.0.1:8000/.ark/passwords/primary.json";
    assert_eq!(password_address_of(ADDRESS), expected_credential_address);
    assert_eq!(credential.address, expected_credential_address);
    assert_eq!(credential.public_key.algorithm, DEFAULT_PASSWORD_ALGORITHM);
    assert_eq!(credential.public_key.value.len(), PASSWORD_VERIFIER_LEN + PASSWORD_SALT_LEN + 32);
    validate_identity(&credential).unwrap();

    let salt = &credential.public_key.value[PASSWORD_VERIFIER_LEN..PASSWORD_VERIFIER_LEN + PASSWORD_SALT_LEN];
    let mut seed_value = salt.to_vec();
    seed_value.extend_from_slice(b"hunter2");
    let seed_key = Key { algorithm: DEFAULT_PASSWORD_ALGORITHM.to_string(), value: seed_value };
    assert_eq!(credential.public_key.value, to_public_key(&seed_key).unwrap().value);

    assert_eq!(metadata.encryption_algorithm.as_deref(), Some(DEFAULT_ENCRYPTION_ALGORITHM));
    assert_eq!(metadata.members.len(), 2);
    assert_eq!(metadata.members[0].address, ADDRESS);
    assert_eq!(metadata.members[1].address, expected_credential_address);

    let owner_wrap = metadata.members[0].key.as_ref().unwrap();
    let owner_key = Key { algorithm: owner_wrap.algorithm.clone(), value: key.value.clone() };
    let file_key = decrypt_bytes(&owner_key, &owner_wrap.value).unwrap();
    let file_key = Key { algorithm: DEFAULT_ENCRYPTION_ALGORITHM.to_string(), value: file_key };
    let decrypted = decrypt_bytes(&file_key, &ciphertext).unwrap();
    let decoded = decode_base64url(std::str::from_utf8(&decrypted).unwrap().trim()).unwrap();
    assert_eq!(decoded, key.value, "encrypted body decrypts to identity seed");
}

#[test]
fn init_password_recovers_identity_key_on_second_client() {
    let (_, key, credential, ciphertext, metadata) = uploaded("hunter2");
    let ctx = open_password("/home", 200, b"", Ok(credential), "hunter2").unwrap();
    let response = Response { status: 200, headers: write_metadata_headers(&metadata), body: ciphertext };
    let (recovered, found) = pull_secret_key_with_password(&ctx, &response).unwrap();
    assert_eq!(recovered, key.value);
    assert_eq!(found, metadata);
}

#[test]
fn init_password_wrong_password_errors() {
    let (credential, _) = push_secret_key_with_password(ADDRESS, "hunter2").unwrap();
    let err = open_password("/home", 200, b"", Ok(credential), "wrongpw").unwrap_err();
    assert!(err.message().contains("verifier mismatch"), "err was {}", err.message());
}

#[test]
fn init_second_client_downloads_from_server() {
    let (first, _) = init_local(ADDRESS).unwrap();
    match init_answer(ADDRESS, 200, b"", Ok(first.clone())).unwrap() {
        Origin::Pin { identity } => assert_eq!(identity.public_key.value, first.public_key.value),
        Origin::Create { .. } => panic!("expected the identity of the server"),
    }
}

#[test]
fn contexts_are_read_from_their_files() {
    let (identity, key) = init_local(ADDRESS).unwrap();
    let content = write_identity_key("/.ark/identity.key", false, &key.value).unwrap();
    let ctx = read_context("/home", identity.clone(), &content).unwrap();
    assert_eq!(ctx.identity_key.as_ref().unwrap().value, key.value);
    assert!(read_context("/home", identity.clone(), "!!").is_err());
    let target = create_target_context("/srv", "gyan", identity);
    assert_eq!(target.root, "/srv/ark/gyan");
    assert!(target.identity_key.is_none());
    let server = create_server_context("/srv", "127.0.0.1:8000").unwrap();
    assert_eq!(server.identity.address, "ark@127.0.0.1:8000");
    assert_eq!(server.root, "/srv/ark/ark");
}

#[test]
fn published_identities_are_public() {
    let (identity, key) = init_local(ADDRESS).unwrap();
    let ctx = context(identity.clone(), key);
    let body = write_identity(&identity).unwrap();
    let m = publish_identity(&ctx, body.as_bytes(), TIME).unwrap();
    assert!(m.members.iter().any(|x| x.address == "*" && x.permission == Permission::Reader));
    verify_metadata(&identity.public_key, &m, Some(body.as_bytes())).unwrap();
}
