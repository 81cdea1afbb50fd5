use ark::base64url::encode_base64url;
use ark::crypto::DEFAULT_ENCRYPTION_ALGORITHM;
use ark::error::Fault;
use ark::fields::{
    get_metadata_key, has_metadata_attributes, has_metadata_headers, read_local_metadata_attributes,
    read_metadata_attributes, read_metadata_headers, stale_attributes, stale_local_attributes, validate_metadata,
    write_local_metadata_attributes, write_metadata_attributes, write_metadata_headers,
};
use ark::identity::create_identity;
use ark::json::{json_escape, write_metadata_json};
use ark::metadata::{
    create_metadata, get_member, resign_metadata, sign_metadata, validate_update, verify_metadata,
    verify_metadata_signature,
};
use ark::types::{Identity, Key, LocalMetadata, Member, Metadata, Permission};

const TEST_ADDRESS: &str = "test@example.com";
const NOW: &str = "2026-01-02T03:04:05.678Z";

fn plain_metadata(owner: &Identity, owner_key: &Key, body: &[u8]) -> Metadata {
    let mut m = create_metadata(&owner.address, None, NOW);
    sign_metadata(owner_key, &mut m, Some(body)).unwrap();
    m
}

fn names(attributes: &[(String, Vec<u8>)]) -> Vec<String> {
    attributes.iter().map(|(name, _)| name.clone()).collect()
}

fn attribute(attributes: &[(String, Vec<u8>)], name: &str) -> Option<Vec<u8>> {
    attributes.iter().find(|(n, _)| n == name).map(|(_, v)| v.clone())
}

// Attributes of a file once stale ones were removed and new ones set.
fn rewrite(
    old: &[(String, Vec<u8>)],
    stale: &[String],
    new: &[(String, Vec<u8>)],
) -> Vec<(String, Vec<u8>)> {
    let mut out: Vec<(String, Vec<u8>)> = old.iter().filter(|(n, _)| !stale.contains(n)).cloned().collect();
    for (name, value) in new {
        out.retain(|(n, _)| n != name);
        out.push((name.clone(), value.clone()));
    }
    out
}

#[test]
fn get_metadata_key_case_insensitive() {
    assert_eq!(get_metadata_key("X-Ark-Meta-Encryption-Algorithm"), Some("encryption_algorithm".to_string()));
    assert_eq!(get_metadata_key("x-ark-meta-foo"), Some("foo".to_string()));
    assert_eq!(get_metadata_key("X-Custom-Foo"), None);
    assert_eq!(get_metadata_key("X-Ark-Meta-"), None);
    assert_eq!(get_metadata_key(""), None);
}

#[test]
fn write_headers_emits_all_fields() {
    let (owner, owner_key) = create_identity(TEST_ADDRESS, None).unwrap();
    let mut m = create_metadata(&owner.address, Some(DEFAULT_ENCRYPTION_ALGORITHM), NOW);
    sign_metadata(&owner_key, &mut m, Some(b"body")).unwrap();
    let headers = write_metadata_headers(&m);
    assert!(headers.iter().any(|(k, _)| k == "X-Ark-Meta-Id"));
    assert!(headers.iter().any(|(k, _)| k == "X-Ark-Meta-Created"));
    assert!(headers.iter().any(|(k, _)| k == "X-Ark-Meta-Modified"));
    assert!(headers.iter().any(|(k, _)| k == "X-Ark-Meta-Modified-By"));
    assert!(headers.iter().any(|(k, _)| k == "X-Ark-Meta-Encryption-Algorithm"));
    assert!(headers.iter().any(|(k, _)| k == "X-Ark-Meta-Member-0-Address"));
    assert!(headers.iter().any(|(k, _)| k == "X-Ark-Meta-Body-Hash-Algorithm"));
    assert!(headers.iter().any(|(k, _)| k == "X-Ark-Meta-Body-Hash-Value"));
    assert!(headers.iter().any(|(k, _)| k == "X-Ark-Meta-Signature-Algorithm"));
    assert!(headers.iter().any(|(k, _)| k == "X-Ark-Meta-Signature-Value"));
}

#[test]
fn header_round_trip_preserves_all_fields() {
    let (owner, owner_key) = create_identity(TEST_ADDRESS, None).unwrap();
    let mut m = create_metadata(&owner.address, Some(DEFAULT_ENCRYPTION_ALGORITHM), NOW);
    m.members[0].key =
        Some(Key { algorithm: "hpke-x25519-hkdf-sha256-aes256gcm".to_string(), value: vec![0u8; 32] });
    sign_metadata(&owner_key, &mut m, Some(b"body")).unwrap();
    let headers = write_metadata_headers(&m);
    let back = read_metadata_headers(&headers).unwrap();
    assert_eq!(back.id, m.id);
    assert_eq!(back.created, m.created);
    assert_eq!(back.modified, m.modified);
    assert_eq!(back.modified_by, m.modified_by);
    assert_eq!(back.encryption_algorithm, m.encryption_algorithm);
    assert_eq!(back.members[0].address, m.members[0].address);
    let (back_hash, m_hash) = (back.body_hash.as_ref().unwrap(), m.body_hash.as_ref().unwrap());
    assert_eq!(back_hash.algorithm, m_hash.algorithm);
    assert_eq!(back_hash.value, m_hash.value);
    assert_eq!(back.signature.value, m.signature.value);
    assert_eq!(back, m);
}

#[test]
fn attribute_round_trip_preserves_all_fields() {
    let (owner, owner_key) = create_identity(TEST_ADDRESS, None).unwrap();
    let m = plain_metadata(&owner, &owner_key, b"x");
    let attributes = write_metadata_attributes(&m);
    let back = read_metadata_attributes(&attributes).unwrap();
    assert_eq!(back.id, m.id);
    assert_eq!(back.signature.value, m.signature.value);
    assert_eq!(back, m);
}

#[test]
fn local_attribute_round_trip_preserves_all_fields() {
    let local = LocalMetadata { encrypted: Some(true), sync_hash: Some(vec![0xAB, 0xCD]), sync_modified: None };
    let attributes = write_local_metadata_attributes(&local);
    let back = read_local_metadata_attributes(&attributes).unwrap();
    assert_eq!(back.encrypted, Some(true));
    assert_eq!(back.sync_hash.as_deref(), Some(&[0xAB, 0xCD][..]));
}

#[test]
fn write_local_metadata_attributes_clears_stale_fields() {
    let full = LocalMetadata { encrypted: Some(true), sync_hash: Some(vec![1, 2, 3]), sync_modified: None };
    let attributes = write_local_metadata_attributes(&full);
    assert!(attribute(&attributes, "user.ark_local.encrypted").is_some());
    let cleared = LocalMetadata { encrypted: None, sync_hash: None, sync_modified: None };
    let stale = stale_local_attributes(&names(&attributes));
    let attributes = rewrite(&attributes, &stale, &write_local_metadata_attributes(&cleared));
    assert_eq!(attribute(&attributes, "user.ark_local.encrypted"), None);
    assert_eq!(attribute(&attributes, "user.ark_local.sync_hash"), None);
}

#[test]
fn get_member_filters_by_address() {
    let members = [
        Member { address: "a@x".to_string(), permission: Permission::Owner, key: None },
        Member { address: "b@y".to_string(), permission: Permission::Owner, key: None },
    ];
    let got = get_member(&members, "b@y").unwrap();
    assert_eq!(got.address, "b@y");
    assert!(get_member(&members, "nope@z").is_none());
}

#[test]
fn sign_and_verify_metadata_round_trip() {
    let (owner, owner_key) = create_identity(TEST_ADDRESS, None).unwrap();
    let body = b"signed payload";
    let m = plain_metadata(&owner, &owner_key, body);
    verify_metadata(&owner.public_key, &m, Some(body)).unwrap();
}

#[test]
fn verify_metadata_detects_body_tampering() {
    let (owner, owner_key) = create_identity(TEST_ADDRESS, None).unwrap();
    let m = plain_metadata(&owner, &owner_key, b"original");
    let err = verify_metadata(&owner.public_key, &m, Some(b"tampered")).unwrap_err();
    assert!(err.message().contains("body hash mismatch"));
}

#[test]
fn verify_metadata_detects_metadata_tampering() {
    let (owner, owner_key) = create_identity(TEST_ADDRESS, None).unwrap();
    let body = b"body";
    let mut m = plain_metadata(&owner, &owner_key, body);
    m.modified_by = "attacker@evil".to_string();
    let err = verify_metadata(&owner.public_key, &m, Some(body)).unwrap_err();
    assert!(err.message().contains("signature verification failed"));
}

#[test]
fn headers_without_an_owner_are_refused() {
    let mut m = create_metadata(TEST_ADDRESS, None, NOW);
    m.members[0].permission = Permission::Writer;
    let err = read_metadata_headers(&write_metadata_headers(&m)).unwrap_err();
    assert!(err.message().contains("at least one owner"), "msg was {}", err.message());
}

#[test]
fn unknown_headers_change_nothing() {
    let (owner, owner_key) = create_identity(TEST_ADDRESS, None).unwrap();
    let m = plain_metadata(&owner, &owner_key, b"x");
    for name in ["X-Ark-Meta-Colour", "Accept", "X-Other"] {
        for at in [0, 3, write_metadata_headers(&m).len()] {
            let mut headers = write_metadata_headers(&m);
            headers.insert(at, (name.to_string(), "red".to_string()));
            assert_eq!(read_metadata_headers(&headers).unwrap(), m);
        }
    }
    let mut broken = vec![("X-Ark-Meta-Id".to_string(), "1".to_string())];
    let before = read_metadata_headers(&broken).unwrap_err().message();
    broken.push(("X-Ark-Meta-Colour".to_string(), "red".to_string()));
    assert_eq!(read_metadata_headers(&broken).unwrap_err().message(), before);
}

#[test]
fn validate_metadata_rejects_no_owner() {
    let mut m = create_metadata(TEST_ADDRESS, None, NOW);
    m.members[0].permission = Permission::Reader;
    let err = match validate_metadata(&m) {
        Err(e) => e,
        Ok(_) => panic!("expected owner-missing error"),
    };
    assert!(err.message().contains("at least one owner"), "msg was {}", err.message());
}

#[test]
fn validate_metadata_rejects_empty_members() {
    let mut m = create_metadata(TEST_ADDRESS, None, NOW);
    m.members = vec![];
    let err = match validate_metadata(&m) {
        Err(e) => e,
        Ok(_) => panic!("expected owner-missing error"),
    };
    assert!(err.message().contains("at least one owner"));
}

#[test]
fn read_headers_rejects_sparse_member_indexes() {
    let m = create_metadata(TEST_ADDRESS, None, NOW);
    let mut headers = write_metadata_headers(&m);
    headers.push(("X-Ark-Meta-Member-2-Address".to_string(), "c@z".to_string()));
    headers.push(("X-Ark-Meta-Member-2-Permission".to_string(), "read".to_string()));
    headers.push(("X-Ark-Meta-Member-2-Key-Algorithm".to_string(), "x25519".to_string()));
    headers.push(("X-Ark-Meta-Member-2-Key-Value".to_string(), encode_base64url(&[5u8; 32])));
    let err = match read_metadata_headers(&headers) {
        Err(e) => e,
        Ok(_) => panic!("expected sparse member error"),
    };
    assert!(err.message().contains("missing"), "msg was {}", err.message());
}

#[test]
fn read_headers_rejects_invalid_base64_in_member_field() {
    let mut m = create_metadata(TEST_ADDRESS, None, NOW);
    m.members[0].key =
        Some(Key { algorithm: "hpke-x25519-hkdf-sha256-aes256gcm".to_string(), value: vec![0u8; 32] });
    let mut headers = write_metadata_headers(&m);
    for entry in headers.iter_mut() {
        if entry.0 == "X-Ark-Meta-Member-0-Key-Value" {
            entry.1 = "!!not-base64!!".to_string();
        }
    }
    let err = match read_metadata_headers(&headers) {
        Err(e) => e,
        Ok(_) => panic!("expected base64 error"),
    };
    assert!(err.message().contains("key_value is not base64url"), "msg was {}", err.message());
}

#[test]
fn write_metadata_attributes_removes_stale_member_xattrs() {
    let (owner, owner_key) = create_identity(TEST_ADDRESS, None).unwrap();
    let mut two = plain_metadata(&owner, &owner_key, b"x");
    two.members.push(Member { address: "b@y".to_string(), permission: Permission::Owner, key: None });
    sign_metadata(&owner_key, &mut two, Some(b"x")).unwrap();
    let attributes = write_metadata_attributes(&two);
    assert!(attribute(&attributes, "user.ark.member_1_address").is_some());

    let one = plain_metadata(&owner, &owner_key, b"x");
    let stale = stale_attributes(&names(&attributes));
    let attributes = rewrite(&attributes, &stale, &write_metadata_attributes(&one));
    assert_eq!(attribute(&attributes, "user.ark.member_1_address"), None);

    let loaded = read_metadata_attributes(&attributes).unwrap();
    assert_eq!(loaded.members.len(), 1);
}

#[test]
fn stale_attributes_leave_others_alone() {
    let all = vec![
        "user.ark.id".to_string(),
        "user.ark_local.encrypted".to_string(),
        "user.other".to_string(),
    ];
    assert_eq!(stale_attributes(&all), vec!["user.ark.id".to_string()]);
    assert_eq!(stale_local_attributes(&all), vec!["user.ark_local.encrypted".to_string()]);
    assert!(has_metadata_attributes(&all));
    assert!(!has_metadata_attributes(&all[1..]));
}

#[test]
fn metadata_headers_are_noticed() {
    let headers = vec![("X-Ark-Meta-Id".to_string(), "1".to_string())];
    assert!(has_metadata_headers(&headers));
    assert!(!has_metadata_headers(&[("Content-Length".to_string(), "1".to_string())]));
}

#[test]
fn each_missing_field_is_named() {
    let (owner, owner_key) = create_identity(TEST_ADDRESS, None).unwrap();
    let m = plain_metadata(&owner, &owner_key, b"x");
    let headers = write_metadata_headers(&m);
    let cases = [
        ("X-Ark-Meta-Id", Fault::MissingId),
        ("X-Ark-Meta-Created", Fault::MissingCreated),
        ("X-Ark-Meta-Modified", Fault::MissingModified),
        ("X-Ark-Meta-Modified-By", Fault::MissingModifiedBy),
        ("X-Ark-Meta-Signature-Algorithm", Fault::MissingSignatureAlgorithm),
        ("X-Ark-Meta-Signature-Value", Fault::MissingSignature),
        ("X-Ark-Meta-Member-0-Address", Fault::MissingMemberAddress),
        ("X-Ark-Meta-Member-0-Permission", Fault::MissingMemberPermission),
    ];
    for (name, fault) in cases {
        let rest: Vec<(String, String)> = headers.iter().filter(|(n, _)| n != name).cloned().collect();
        assert_eq!(read_metadata_headers(&rest).unwrap_err().fault, fault, "without {}", name);
    }
}

#[test]
fn unreadable_fields_are_refused() {
    let (owner, owner_key) = create_identity(TEST_ADDRESS, None).unwrap();
    let m = plain_metadata(&owner, &owner_key, b"x");
    let cases = [
        ("X-Ark-Meta-Signature-Value", Fault::SignatureNotBase64),
        ("X-Ark-Meta-Body-Hash-Value", Fault::BodyHashNotBase64),
        ("X-Ark-Meta-Member-0-Permission", Fault::UnknownPermission),
    ];
    for (name, fault) in cases {
        let mut headers = write_metadata_headers(&m);
        for entry in headers.iter_mut() {
            if entry.0 == name {
                entry.1 = "!!".to_string();
            }
        }
        assert_eq!(read_metadata_headers(&headers).unwrap_err().fault, fault, "with {}", name);
    }
    let attributes = vec![("user.ark.id".to_string(), vec![0xffu8])];
    let err = read_metadata_attributes(&attributes).unwrap_err();
    assert_eq!(err.fault, Fault::AttributeNotUtf8);
    assert!(err.message().ends_with(" not utf8"), "msg was {}", err.message());
}

#[test]
fn local_attributes_are_checked() {
    let odd = vec![("user.ark_local.encrypted".to_string(), b"maybe".to_vec())];
    assert_eq!(read_local_metadata_attributes(&odd).unwrap_err().message(), "encrypted local attribute invalid: maybe");
    let odd = vec![("user.ark_local.sync_hash".to_string(), b"!!".to_vec())];
    assert_eq!(read_local_metadata_attributes(&odd).unwrap_err().fault, Fault::SyncHashNotBase64);
}

#[test]
fn resigning_keeps_the_body_hash() {
    let (owner, owner_key) = create_identity(TEST_ADDRESS, None).unwrap();
    let mut m = plain_metadata(&owner, &owner_key, b"content");
    let hash = m.body_hash.clone();
    m.members.push(Member { address: "b@y".to_string(), permission: Permission::Reader, key: None });
    assert!(verify_metadata_signature(&owner.public_key, &m).is_err());
    resign_metadata(&owner_key, &mut m).unwrap();
    assert_eq!(m.body_hash, hash);
    verify_metadata(&owner.public_key, &m, Some(b"content")).unwrap();
}

#[test]
fn updates_keep_the_id_and_go_forward() {
    let (owner, owner_key) = create_identity(TEST_ADDRESS, None).unwrap();
    let m = plain_metadata(&owner, &owner_key, b"v1");
    validate_update(&owner.public_key, &m, None, Some(b"v1")).unwrap();
    validate_update(&owner.public_key, &m, Some(&m), Some(b"v1")).unwrap();

    let other = plain_metadata(&owner, &owner_key, b"v2");
    assert_eq!(
        validate_update(&owner.public_key, &other, Some(&m), Some(b"v2")).unwrap_err().fault,
        Fault::IdWrong
    );

    let mut older = m.copy();
    older.modified = "2026-01-01T00:00:00.000Z".to_string();
    sign_metadata(&owner_key, &mut older, Some(b"v1")).unwrap();
    assert_eq!(
        validate_update(&owner.public_key, &older, Some(&m), Some(b"v1")).unwrap_err().fault,
        Fault::ModifiedOlder
    );
}

#[test]
fn body_and_hash_go_together() {
    let (owner, owner_key) = create_identity(TEST_ADDRESS, None).unwrap();
    let file = plain_metadata(&owner, &owner_key, b"x");
    assert_eq!(verify_metadata(&owner.public_key, &file, None).unwrap_err().fault, Fault::BodyHashUnexpected);
    let mut dir = create_metadata(&owner.address, None, NOW);
    sign_metadata(&owner_key, &mut dir, None).unwrap();
    verify_metadata(&owner.public_key, &dir, None).unwrap();
    assert_eq!(verify_metadata(&owner.public_key, &dir, Some(b"x")).unwrap_err().fault, Fault::BodyHashMissing);
}

#[test]
fn new_metadata_has_one_owner() {
    let m = create_metadata(TEST_ADDRESS, Some("aes-256-gcm"), NOW);
    assert_eq!(m.created, NOW);
    assert_eq!(m.modified, NOW);
    assert_eq!(m.modified_by, TEST_ADDRESS);
    assert_eq!(m.encryption_algorithm.as_deref(), Some("aes-256-gcm"));
    assert_eq!(m.members.len(), 1);
    assert_eq!(m.members[0].permission, Permission::Owner);
    assert_eq!(m.id.len(), 36);
    assert_ne!(m.id, create_metadata(TEST_ADDRESS, None, NOW).id);
}

#[test]
fn json_text_is_escaped() {
    assert_eq!(json_escape("a\"b\\c\n\u{1}"), "a\\\"b\\\\c\\n\\u0001");
    let m = create_metadata("\"@h", None, NOW);
    let value: serde_json::Value = serde_json::from_str(&write_metadata_json(&m)).unwrap();
    assert_eq!(value.get("modified_by").unwrap().as_str().unwrap(), "\"@h");
}
