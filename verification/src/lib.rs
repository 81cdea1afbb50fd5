//! Ark: a federated, end-to-end encrypted file protocol built on cryptographic
//! identities. Every file is a body plus signed metadata; membership drives
//! access.

pub mod access_laws;
pub mod accounts;
pub mod auth;
pub mod base64url;
pub mod bootstrap;
pub mod change_laws;
pub mod client_laws;
pub mod commands;
pub mod crypto;
pub mod delivery;
pub mod download;
pub mod error;
pub mod events;
pub mod fields;
pub mod file_server;
pub mod http;
pub mod identity;
pub mod json;
pub mod json_laws;
pub mod listing;
pub mod locate;
pub mod log;
pub mod manage;
pub mod membership;
pub mod message_laws;
pub mod metadata;
pub mod number;
pub mod paths;
pub mod permissions;
pub mod plain_laws;
pub mod primitives;
pub mod proposals;
pub mod request_laws;
pub mod resolve;
pub mod round_trip;
pub mod sealing;
pub mod server;
pub mod server_laws;
pub mod serving_laws;
pub mod share_laws;
pub mod success_laws;
pub mod sync;
pub mod sync_laws;
pub mod text;
pub mod text_laws;
pub mod timestamp;
pub mod types;
pub mod upload;
pub mod vault_laws;
pub mod watch;
pub mod wire;
