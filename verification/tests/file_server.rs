use std::collections::BTreeMap;

use ark::file_server::{
    deleted, handle, is_allowed, percent_decode, resolve, serve_delete, serve_get, serve_put, Plan, Sent,
};
use ark::http::read_response;
use ark::listing::{DirectoryEntry, DirectoryEntryKind};
use ark::server::Node;

type Answer = (u16, Vec<u8>, Vec<(String, String)>);

// A directory tree in memory: directories hold no content.
struct Tree {
    nodes: BTreeMap<String, Option<Vec<u8>>>,
}

impl Tree {
    fn new() -> Tree {
        Tree { nodes: BTreeMap::new() }
    }

    fn ark() -> Tree {
        let mut tree = Tree::new();
        tree.nodes.insert("ark".to_string(), None);
        tree.nodes.insert("ark/test".to_string(), None);
        tree
    }

    fn node(&self, file: &str) -> Node {
        match self.nodes.get(file) {
            None => Node::Missing,
            Some(Some(body)) => Node::File { size: body.len() as u64 },
            Some(None) => {
                let below = format!("{}/", file);
                let mut entries = Vec::new();
                for (path, content) in &self.nodes {
                    if let Some(name) = path.strip_prefix(&below) {
                        if !name.contains('/') {
                            let kind = match content {
                                Some(_) => DirectoryEntryKind::File,
                                None => DirectoryEntryKind::Dir,
                            };
                            let size = content.as_ref().map(|c| c.len() as u64).unwrap_or(4096);
                            entries.push(DirectoryEntry { kind, name: name.to_string(), size });
                        }
                    }
                }
                Node::Dir { entries: Ok(entries) }
            }
        }
    }

    fn answer(&mut self, bytes: &[u8]) -> Vec<u8> {
        match handle(bytes).unwrap() {
            Plan::Nothing => Vec::new(),
            Plan::Answer { bytes } => bytes,
            Plan::Get { file, send } => {
                let file = file.trim_end_matches('/').to_string();
                match serve_get(&self.node(&file), &file, send) {
                    Sent::Answer { bytes } => bytes,
                    Sent::File { head, send } => {
                        let mut out = head;
                        if send {
                            out.extend_from_slice(self.nodes.get(&file).unwrap().as_ref().unwrap());
                        }
                        out
                    }
                    Sent::Fail { error } => panic!("{}", error.message()),
                }
            }
            Plan::Put { file, body } => {
                let existed = self.nodes.insert(file, Some(body)).is_some();
                serve_put(existed)
            }
            Plan::Delete { file } => match serve_delete(&self.node(&file)) {
                Err(bytes) => bytes,
                Ok(dir) => {
                    let below = format!("{}/", file);
                    self.nodes.retain(|path, _| path != &file && !(dir && path.starts_with(&below)));
                    deleted(true)
                }
            },
        }
    }

    fn request(&mut self, method: &str, path: &str, body: &[u8]) -> Answer {
        let head = format!(
            "{} {} HTTP/1.1\r\nHost: localhost\r\nContent-Length: {}\r\nConnection: close\r\n\r\n",
            method,
            path,
            body.len()
        );
        let mut bytes = head.into_bytes();
        bytes.extend_from_slice(body);
        let response = read_response(&self.answer(&bytes), method == "HEAD").unwrap();
        (response.status, response.body, response.headers)
    }

    fn body(&self, file: &str) -> Vec<u8> {
        self.nodes.get(file).unwrap().clone().unwrap()
    }
}

fn header<'a>(headers: &'a [(String, String)], name: &str) -> Option<&'a str> {
    headers.iter().find(|(n, _)| n.eq_ignore_ascii_case(name)).map(|(_, v)| v.as_str())
}

#[test]
fn file_server_get_file_returns_content() {
    let mut tree = Tree::ark();
    tree.nodes.insert("ark/test/hello.txt".to_string(), Some(b"hi there".to_vec()));
    let (code, body, headers) = tree.request("GET", "/ark/test/hello.txt", &[]);
    assert_eq!(code, 200);
    assert_eq!(body, b"hi there");
    assert_eq!(header(&headers, "content-length"), Some("8"));
}

#[test]
fn file_server_get_missing_file_404() {
    let (code, _, _) = Tree::ark().request("GET", "/ark/test/nope.txt", &[]);
    assert_eq!(code, 404);
}

#[test]
fn file_server_get_dir_returns_json_listing() {
    let mut tree = Tree::ark();
    tree.nodes.insert("ark/test/a.txt".to_string(), Some(b"a".to_vec()));
    tree.nodes.insert("ark/test/sub".to_string(), None);
    let (code, body, headers) = tree.request("GET", "/ark/test/", &[]);
    assert_eq!(code, 200);
    assert_eq!(header(&headers, "content-type"), Some("application/json"));
    let s = std::str::from_utf8(&body).unwrap();
    assert!(s.contains("\"name\":\"a.txt\""), "body was {}", s);
    assert!(s.contains("\"type\":\"file\""), "body was {}", s);
    assert!(s.contains("\"name\":\"sub\""), "body was {}", s);
    assert!(s.contains("\"type\":\"dir\""), "body was {}", s);
}

#[test]
fn file_server_head_file_no_body_with_length() {
    let mut tree = Tree::ark();
    tree.nodes.insert("ark/test/x".to_string(), Some(b"abcde".to_vec()));
    let (code, body, headers) = tree.request("HEAD", "/ark/test/x", &[]);
    assert_eq!(code, 200);
    assert!(body.is_empty());
    assert_eq!(header(&headers, "content-length"), Some("5"));
}

#[test]
fn file_server_head_dir_no_body_with_json_type() {
    let (code, body, headers) = Tree::ark().request("HEAD", "/ark/test/", &[]);
    assert_eq!(code, 200);
    assert!(body.is_empty());
    assert_eq!(header(&headers, "content-type"), Some("application/json"));
}

#[test]
fn file_server_put_new_file_returns_201() {
    let mut tree = Tree::ark();
    let (code, _, _) = tree.request("PUT", "/ark/test/new.txt", b"payload");
    assert_eq!(code, 201);
    assert_eq!(tree.body("ark/test/new.txt"), b"payload");
}

#[test]
fn file_server_put_overwrite_returns_204() {
    let mut tree = Tree::ark();
    tree.nodes.insert("ark/test/x".to_string(), Some(b"old".to_vec()));
    let (code, _, _) = tree.request("PUT", "/ark/test/x", b"new content");
    assert_eq!(code, 204);
    assert_eq!(tree.body("ark/test/x"), b"new content");
}

#[test]
fn file_server_put_nested_path_creates_dirs() {
    let mut tree = Tree::new();
    let (code, _, _) = tree.request("PUT", "/ark/test/a/b/c.txt", b"deep");
    assert_eq!(code, 201);
    assert_eq!(tree.body("ark/test/a/b/c.txt"), b"deep");
}

#[test]
fn file_server_delete_file_removes_and_returns_204() {
    let mut tree = Tree::ark();
    tree.nodes.insert("ark/test/d.txt".to_string(), Some(b"bye".to_vec()));
    let (code, _, _) = tree.request("DELETE", "/ark/test/d.txt", &[]);
    assert_eq!(code, 204);
    assert!(!tree.nodes.contains_key("ark/test/d.txt"));
}

#[test]
fn file_server_delete_dir_recursively_removes_and_returns_204() {
    let mut tree = Tree::ark();
    tree.nodes.insert("ark/test/sub".to_string(), None);
    tree.nodes.insert("ark/test/sub/inner".to_string(), Some(b"x".to_vec()));
    let (code, _, _) = tree.request("DELETE", "/ark/test/sub", &[]);
    assert_eq!(code, 204);
    assert!(!tree.nodes.contains_key("ark/test/sub"));
    assert!(!tree.nodes.contains_key("ark/test/sub/inner"));
}

#[test]
fn file_server_delete_missing_404() {
    let (code, _, _) = Tree::ark().request("DELETE", "/ark/test/nope", &[]);
    assert_eq!(code, 404);
}

#[test]
fn file_server_unsupported_method_returns_405() {
    let (code, _, _) = Tree::ark().request("POST", "/ark/test/x", b"hello");
    assert_eq!(code, 405);
}

#[test]
fn file_server_path_traversal_blocked() {
    let (code, _, _) = Tree::ark().request("GET", "/ark/test/../../../etc/passwd", &[]);
    assert_eq!(code, 400);
}

#[test]
fn file_server_root_blocked_403() {
    let (code, _, _) = Tree::new().request("GET", "/", &[]);
    assert_eq!(code, 403);
}

#[test]
fn file_server_non_ark_path_blocked_403() {
    let (code, _, _) = Tree::new().request("GET", "/something/else", &[]);
    assert_eq!(code, 403);
}

#[test]
fn file_server_ark_without_subdir_blocked_403() {
    let (code1, _, _) = Tree::new().request("GET", "/ark", &[]);
    let (code2, _, _) = Tree::new().request("GET", "/ark/", &[]);
    assert_eq!(code1, 403);
    assert_eq!(code2, 403);
}

#[test]
fn file_server_put_at_ark_root_405() {
    let (code, _, _) = Tree::ark().request("PUT", "/ark/test", b"x");
    assert_eq!(code, 405);
}

#[test]
fn file_server_delete_at_ark_root_405() {
    let mut tree = Tree::ark();
    let (code, _, _) = tree.request("DELETE", "/ark/test", &[]);
    assert_eq!(code, 405);
    assert!(tree.nodes.contains_key("ark/test"));
}

#[test]
fn file_server_put_outside_ark_blocked_403() {
    let mut tree = Tree::new();
    let (code, _, _) = tree.request("PUT", "/oops.txt", b"x");
    assert_eq!(code, 403);
    assert!(tree.nodes.is_empty());
}

#[test]
fn targets_are_decoded_and_kept_inside() {
    assert_eq!(percent_decode("/a%20b").as_deref(), Some("/a b"));
    assert_eq!(resolve("/ark/test/a%20b").as_deref(), Some("ark/test/a b"));
    assert!(resolve("/ark/test/%2e%2e/x").is_none());
    assert!(is_allowed("/ark/test"));
    assert!(!is_allowed("/ark"));
}

#[test]
fn delete_that_fails_is_reported() {
    let response = read_response(&deleted(false), false).unwrap();
    assert_eq!(response.status, 500);
}
