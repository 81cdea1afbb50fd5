use ark::proposals::parse_proposal;

fn lines(list: &[&str]) -> Vec<u8> {
    let mut out = String::new();
    for line in list {
        out.push_str(line);
        out.push_str("\r\n");
    }
    out.into_bytes()
}

#[test]
fn parse_proposal_extracts_fields() {
    let entry = lines(&[
        "PUT /ark/alice/foo HTTP/1.1",
        "Host: h",
        "Authorization: ArkIdentity address=\"ark@h\", timestamp=\"123\", signature=\"sig\"",
        "X-Ark-Meta-Id: id1",
        "X-Ark-Meta-Created: 2026-01-01T00:00:00.000Z",
        "X-Ark-Meta-Modified: 2026-01-02T00:00:00.000Z",
        "X-Ark-Meta-Modified-By: bob@h",
        "X-Ark-Meta-Member-0-Address: bob@h",
        "X-Ark-Meta-Member-0-Permission: owner",
        "X-Ark-Meta-Signature-Algorithm: ed25519",
        "X-Ark-Meta-Signature-Value: dGVzdA",
        "",
        "HTTP/1.1 403 Forbidden",
        "Content-Length: 0",
        "",
    ]);
    let p = parse_proposal("entry.http", &entry).unwrap().expect("proposal");
    assert_eq!(p.metadata.modified_by, "bob@h");
    assert_eq!(p.target, "/ark/alice/foo");
    assert_eq!(p.id, "entry.http");
    assert_eq!(p.metadata.signature.value, b"test");
}

#[test]
fn parse_proposal_rejects_non_403() {
    let entry = lines(&["PUT /ark/alice/foo HTTP/1.1", "", "HTTP/1.1 201 Created", ""]);
    assert!(parse_proposal("entry.http", &entry).unwrap().is_none());
}

#[test]
fn parse_proposal_rejects_non_put() {
    let entry = lines(&["GET /ark/alice/foo HTTP/1.1", "", "HTTP/1.1 403 Forbidden", ""]);
    assert!(parse_proposal("entry.http", &entry).unwrap().is_none());
}
