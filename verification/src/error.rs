//! What can go wrong.

use vstd::prelude::*;

use crate::text::concat3;

verus! {

/// What went wrong.
#[derive(Clone, Copy, Debug, PartialEq, Eq, Structural)]
pub enum Fault {
    UnsupportedAlgorithm,
    UnsupportedSigningAlgorithm,
    UnsupportedEncryptionAlgorithm,
    Random,
    PublicKeyLength,
    PublicKeyTooShort,
    SecretKeyTooShort,
    PasswordMismatch,
    PasswordNotUtf8,
    SecretKeySize,
    PublicKeySize,
    SignatureSize,
    PublicKeyInvalid,
    SignatureRejected,
    PointInvalid,
    Canonicalize,
    CipherKeySize,
    CipherSecretKeySize,
    CiphertextTooShort,
    Encrypt,
    Decrypt,
    WrapSeal,
    WrapOpen,
    Argon2,
    MissingId,
    MissingCreated,
    MissingModified,
    MissingModifiedBy,
    MissingSignatureAlgorithm,
    MissingSignature,
    MissingMemberAddress,
    MissingMemberPermission,
    UnknownPermission,
    BodyHashNotBase64,
    SignatureNotBase64,
    KeyNotBase64,
    NoOwner,
    AttributeNotUtf8,
    EncryptedAttribute,
    SyncHashNotBase64,
    MetadataSignature,
    BodyHashMismatch,
    BodyHashMissing,
    BodyHashUnexpected,
    UnknownIdentity,
    PublicMemberEncrypted,
    LastOwner,
    IdWrong,
    ModifiedOlder,
    InvalidAddress,
    AddressForm,
    InvalidAccountName,
    IdentitySignature,
    SignatureInvalid,
    KeyFileNotBase64,
    FileExists,
    Http,
    EmptyMessage,
    LineNotUtf8,
    BodyTruncated,
    BadRequestLine,
    InvalidPath,
    NoStatusCode,
    BadStatusCode,
    UrlMissingHost,
    ClosedBeforeStatus,
    StreamOpen,
    ClosedInHeaders,
    StreamClosed,
    MissingAuthorization,
    AuthorizationScheme,
    MissingAuthAddress,
    MissingAuthSignature,
    MissingAuthTimestamp,
    AuthSignatureNotBase64,
    AuthTimestamp,
    AuthSkew,
    AuthRejected,
    NotMember,
    Io,
    NotFound,
    NoKey,
    NoAlgorithm,
    MaybePlain,
    AlgorithmFixed,
    AlreadyEncrypted,
    NoArkMetadata,
    AlreadyPlain,
    InPlace,
    KeyOption,
    NoKeyAvailable,
    RefuseDecrypt,
    NoWrappedKey,
    NoMemberEntry,
    NoMetadata,
    Modifier,
    AlgorithmForDirectory,
    AlgorithmForMetadata,
    MetadataOnly,
    NoMemberDenied,
    InputMissing,
    NeedsPut,
    OnlyOwner,
    PathMissing,
    MetadataExists,
    NotWithin,
    PathNotJson,
    NothingToChange,
    PasswordLocal,
    IdentityAddress,
    KeyTextNotUtf8,
    KeyTextNotBase64,
    NoArkDir,
    IdentityParse,
    NotProposal,
    NoProposal,
    TargetNotWithin,
    FetchedNoHash,
    FetchedHash,
    MembersChanged,
    BadLogEntry,
    LocalMissing,
    NoFileKey,
    MaybeUnencrypted,
}

/// The class that a fault belongs to.
#[derive(Clone, Copy, Debug, PartialEq, Eq, Structural)]
pub enum Kind {
    AlreadyExists,
    InvalidData,
    InvalidInput,
    NotFound,
    PermissionDenied,
    UnexpectedEof,
    Other,
}

/// A fault with the text that its message carries, if any.
#[derive(Clone, Debug, PartialEq, Eq)]
pub struct Error {
    pub fault: Fault,
    pub detail: String,
}

/// The view of an error.
#[verifier::ext_equal]
pub struct ErrorV {
    pub fault: Fault,
    pub detail: Seq<char>,
}

impl View for Error {
    type V = ErrorV;

    open spec fn view(&self) -> ErrorV {
        ErrorV { fault: self.fault, detail: self.detail@ }
    }
}

/// The view of an error without a text of its own.
pub open spec fn bare(fault: Fault) -> ErrorV {
    ErrorV { fault, detail: Seq::empty() }
}

/// The view of an error with a text.
pub open spec fn with(fault: Fault, detail: Seq<char>) -> ErrorV {
    ErrorV { fault, detail }
}

/// The view of a result.
pub open spec fn seen<T: View>(r: Result<T, Error>) -> Result<T::V, ErrorV> {
    match r {
        Ok(t) => Ok(t@),
        Err(e) => Err(e@),
    }
}

/// An error without a text of its own.
pub fn fail(fault: Fault) -> (r: Error)
    ensures
        r@ == bare(fault),
{
    let r = Error { fault, detail: String::new() };
    assert(r@ =~= bare(fault));
    r
}

/// An error with a text.
pub fn fail_with(fault: Fault, detail: String) -> (r: Error)
    ensures
        r@ == with(fault, detail@),
{
    Error { fault, detail }
}

/// The words in front of the text that an error carries.
pub open spec fn lead(fault: Fault) -> Seq<char> {
    match fault {
        Fault::UnsupportedAlgorithm => "unsupported algorithm"@,
        Fault::UnsupportedSigningAlgorithm => "unsupported signing algorithm"@,
        Fault::UnsupportedEncryptionAlgorithm => "unsupported encryption algorithm"@,
        Fault::Random => ""@,
        Fault::PublicKeyLength => "public key is wrong length"@,
        Fault::PublicKeyTooShort => "public key is too short"@,
        Fault::SecretKeyTooShort => "secret key is too short"@,
        Fault::PasswordMismatch => "password verifier mismatch"@,
        Fault::PasswordNotUtf8 => "password not valid utf-8"@,
        Fault::SecretKeySize => "ed25519 requires a 32 byte private key"@,
        Fault::PublicKeySize => "ed25519 requires a 32 byte public key"@,
        Fault::SignatureSize => "ed25519 requires a 64 byte signature"@,
        Fault::PublicKeyInvalid => ""@,
        Fault::SignatureRejected => ""@,
        Fault::PointInvalid => "ed25519 public key is not a valid point"@,
        Fault::Canonicalize => "failed to canonicalize json"@,
        Fault::CipherKeySize => "aes-256-gcm requires a 32 byte key"@,
        Fault::CipherSecretKeySize => "aes-256-gcm requires a 32 byte secret key"@,
        Fault::CiphertextTooShort => "ciphertext is too short"@,
        Fault::Encrypt => "encrypt: "@,
        Fault::Decrypt => "decrypt: "@,
        Fault::WrapSeal => "hpke seal: "@,
        Fault::WrapOpen => "hpke open: "@,
        Fault::Argon2 => "argon2: "@,
        Fault::MissingId => "missing id field"@,
        Fault::MissingCreated => "missing created field"@,
        Fault::MissingModified => "missing modified field"@,
        Fault::MissingModifiedBy => "missing modified_by field"@,
        Fault::MissingSignatureAlgorithm => "missing signature_algorithm field"@,
        Fault::MissingSignature => "missing signature field"@,
        Fault::MissingMemberAddress => "missing member address field"@,
        Fault::MissingMemberPermission => "missing member permission field"@,
        Fault::UnknownPermission => "unknown permission: "@,
        Fault::BodyHashNotBase64 => "body_hash_value is not base64url encoded"@,
        Fault::SignatureNotBase64 => "signature is not base64url encoded"@,
        Fault::KeyNotBase64 => "key_value is not base64url encoded"@,
        Fault::NoOwner => "metadata must contain at least one owner"@,
        Fault::AttributeNotUtf8 => "xattr "@,
        Fault::EncryptedAttribute => "encrypted local attribute invalid: "@,
        Fault::SyncHashNotBase64 => "sync_hash is not base64url encoded"@,
        Fault::MetadataSignature => "metadata signature verification failed"@,
        Fault::BodyHashMismatch => "body hash mismatch"@,
        Fault::BodyHashMissing => "file metadata must contain body_hash"@,
        Fault::BodyHashUnexpected => "dir metadata must not contain body_hash"@,
        Fault::UnknownIdentity => "no identity for "@,
        Fault::PublicMemberEncrypted => "cannot add public member to encrypted file"@,
        Fault::LastOwner => "at least one owner must remain"@,
        Fault::IdWrong => "id is wrong"@,
        Fault::ModifiedOlder => "modified is older than existing"@,
        Fault::InvalidAddress => "invalid address"@,
        Fault::AddressForm => "address must be <name>@<host>[/<path>]"@,
        Fault::InvalidAccountName => "invalid account name (must be lowercase alphanumeric, dots, hyphens, underscores; 1-64 chars; not pure dots)"@,
        Fault::IdentitySignature => "identity signature verification failed"@,
        Fault::SignatureInvalid => "signature verification failed"@,
        Fault::KeyFileNotBase64 => "key is not base64url encoded"@,
        Fault::FileExists => ""@,
        Fault::Http => "HTTP "@,
        Fault::EmptyMessage => "empty message"@,
        Fault::LineNotUtf8 => "stream did not contain valid UTF-8"@,
        Fault::BodyTruncated => "failed to fill whole buffer"@,
        Fault::BadRequestLine => "bad request line"@,
        Fault::InvalidPath => "invalid percent-encoded path"@,
        Fault::NoStatusCode => "no status code"@,
        Fault::BadStatusCode => "bad status code"@,
        Fault::UrlMissingHost => "URL missing host"@,
        Fault::ClosedBeforeStatus => "connection closed before status"@,
        Fault::StreamOpen => "stream open failed: "@,
        Fault::ClosedInHeaders => "connection closed in headers"@,
        Fault::StreamClosed => "stream closed"@,
        Fault::MissingAuthorization => "missing Authorization header"@,
        Fault::AuthorizationScheme => "unsupported Authorization scheme"@,
        Fault::MissingAuthAddress => "missing address in Authorization"@,
        Fault::MissingAuthSignature => "missing signature in Authorization"@,
        Fault::MissingAuthTimestamp => "missing timestamp in Authorization"@,
        Fault::AuthSignatureNotBase64 => "auth signature not base64url encoded"@,
        Fault::AuthTimestamp => "invalid timestamp in Authorization"@,
        Fault::AuthSkew => "timestamp outside allowed window"@,
        Fault::AuthRejected => "signature verification failed"@,
        Fault::NotMember => "requestor not a member"@,
        Fault::Io => ""@,
        Fault::NotFound => ""@,
        Fault::NoKey => "no key for "@,
        Fault::NoAlgorithm => "metadata missing encryption_algorithm"@,
        Fault::MaybePlain => ""@,
        Fault::AlgorithmFixed => "encryption-algortihm cannot override existing metadata"@,
        Fault::AlreadyEncrypted => "file is already encrypted"@,
        Fault::NoArkMetadata => "file has no ark metadata"@,
        Fault::AlreadyPlain => "file is already plaintext"@,
        Fault::InPlace => "--in-place is mutually exclusive with -i/--input and -o/--output"@,
        Fault::KeyOption => "--key decode: not base64url encoded"@,
        Fault::NoKeyAvailable => "no file key available: pass --key or use -i/--in-place on a file with metadata"@,
        Fault::RefuseDecrypt => "file is already plaintext (user.ark.encrypted=false); refusing to decrypt"@,
        Fault::NoWrappedKey => "no wrapped key for current account"@,
        Fault::NoMemberEntry => "no member entry for current account"@,
        Fault::NoMetadata => "no metadata: "@,
        Fault::Modifier => "modifier "@,
        Fault::AlgorithmForDirectory => "--encryption-algorithm not supported for directories"@,
        Fault::AlgorithmForMetadata => "--encryption-algorithm not supported for metadata-only puts"@,
        Fault::MetadataOnly => "metadata-only put requires existing metadata"@,
        Fault::NoMemberDenied => "no member entry for current account"@,
        Fault::InputMissing => "input does not exist"@,
        Fault::NeedsPut => "no ark metadata: use put instead"@,
        Fault::OnlyOwner => "only an owner can change permissions"@,
        Fault::PathMissing => "path does not exist"@,
        Fault::MetadataExists => "metadata already exists"@,
        Fault::NotWithin => "path is not within this account"@,
        Fault::PathNotJson => "path must end with .json"@,
        Fault::NothingToChange => "at least one add or drop address is required"@,
        Fault::PasswordLocal => "--password not supported with --local-only"@,
        Fault::IdentityAddress => "server identity address "@,
        Fault::KeyTextNotUtf8 => "identity.key plaintext not utf8"@,
        Fault::KeyTextNotBase64 => "identity.key plaintext not base64url"@,
        Fault::NoArkDir => "no .ark dir found"@,
        Fault::IdentityParse => "identity.json parse: "@,
        Fault::NotProposal => "entry is not a valid proposal"@,
        Fault::NoProposal => "no proposal at index "@,
        Fault::TargetNotWithin => "target path is not within this account"@,
        Fault::FetchedNoHash => "file metadata missing body_hash"@,
        Fault::FetchedHash => "fetched body hash does not match metadata"@,
        Fault::MembersChanged => ""@,
        Fault::BadLogEntry => "bad log entry: "@,
        Fault::LocalMissing => "local path missing: "@,
        Fault::NoFileKey => "no file key for current account"@,
        Fault::MaybeUnencrypted => ""@,
    }
}

/// The words behind the text that an error carries.
pub open spec fn tail(fault: Fault) -> Seq<char> {
    match fault {
        Fault::AttributeNotUtf8 => " not utf8"@,
        Fault::FileExists => " already exists"@,
        Fault::MaybePlain => " — input may already be plaintext or the key may be wrong"@,
        Fault::MembersChanged => "\nUse --force to accept anyway."@,
        Fault::MaybeUnencrypted => " — server data may not be encrypted or the key may be wrong"@,
        _ => ""@,
    }
}

/// What an error says.
pub open spec fn message_of(e: ErrorV) -> Seq<char> {
    lead(e.fault) + e.detail + tail(e.fault)
}

/// The class of a fault.
pub open spec fn kind_of(fault: Fault) -> Kind {
    match fault {
        Fault::UnknownIdentity | Fault::NotFound | Fault::NoMetadata | Fault::NoArkDir => Kind::NotFound,
        Fault::PublicMemberEncrypted | Fault::LastOwner | Fault::InvalidAddress | Fault::AddressForm | Fault::InvalidAccountName | Fault::AlgorithmFixed | Fault::AlreadyEncrypted | Fault::NoArkMetadata | Fault::AlreadyPlain | Fault::AlgorithmForDirectory | Fault::AlgorithmForMetadata | Fault::MetadataOnly | Fault::InputMissing | Fault::NeedsPut | Fault::PathMissing | Fault::PathNotJson | Fault::NothingToChange | Fault::PasswordLocal | Fault::NotProposal | Fault::NoProposal | Fault::TargetNotWithin => Kind::InvalidInput,
        Fault::IdentitySignature | Fault::SignatureInvalid | Fault::KeyFileNotBase64 | Fault::LineNotUtf8 | Fault::NoAlgorithm | Fault::MaybePlain | Fault::IdentityAddress | Fault::KeyTextNotUtf8 | Fault::KeyTextNotBase64 | Fault::IdentityParse => Kind::InvalidData,
        Fault::FileExists => Kind::AlreadyExists,
        Fault::BodyTruncated => Kind::UnexpectedEof,
        Fault::NoKey | Fault::NoMemberDenied => Kind::PermissionDenied,
        _ => Kind::Other,
    }
}

impl Error {
    /// What the error says.
    pub fn message(&self) -> (r: String)
        ensures
            r@ == message_of(self@),
    {
        concat3(lead_text(self.fault), &self.detail, tail_text(self.fault))
    }

    /// The class of the error.
    pub fn kind(&self) -> (r: Kind)
        ensures
            r == kind_of(self@.fault),
    {
        match self.fault {
            Fault::UnknownIdentity | Fault::NotFound | Fault::NoMetadata | Fault::NoArkDir => Kind::NotFound,
            Fault::PublicMemberEncrypted | Fault::LastOwner | Fault::InvalidAddress | Fault::AddressForm | Fault::InvalidAccountName | Fault::AlgorithmFixed | Fault::AlreadyEncrypted | Fault::NoArkMetadata | Fault::AlreadyPlain | Fault::AlgorithmForDirectory | Fault::AlgorithmForMetadata | Fault::MetadataOnly | Fault::InputMissing | Fault::NeedsPut | Fault::PathMissing | Fault::PathNotJson | Fault::NothingToChange | Fault::PasswordLocal | Fault::NotProposal | Fault::NoProposal | Fault::TargetNotWithin => Kind::InvalidInput,
            Fault::IdentitySignature | Fault::SignatureInvalid | Fault::KeyFileNotBase64 | Fault::LineNotUtf8 | Fault::NoAlgorithm | Fault::MaybePlain | Fault::IdentityAddress | Fault::KeyTextNotUtf8 | Fault::KeyTextNotBase64 | Fault::IdentityParse => Kind::InvalidData,
            Fault::FileExists => Kind::AlreadyExists,
            Fault::BodyTruncated => Kind::UnexpectedEof,
            Fault::NoKey | Fault::NoMemberDenied => Kind::PermissionDenied,
            _ => Kind::Other,
        }
    }
}

fn lead_text(fault: Fault) -> (r: &'static str)
    ensures
        r@ == lead(fault),
{
    match fault {
        Fault::UnsupportedAlgorithm => "unsupported algorithm",
        Fault::UnsupportedSigningAlgorithm => "unsupported signing algorithm",
        Fault::UnsupportedEncryptionAlgorithm => "unsupported encryption algorithm",
        Fault::Random => "",
        Fault::PublicKeyLength => "public key is wrong length",
        Fault::PublicKeyTooShort => "public key is too short",
        Fault::SecretKeyTooShort => "secret key is too short",
        Fault::PasswordMismatch => "password verifier mismatch",
        Fault::PasswordNotUtf8 => "password not valid utf-8",
        Fault::SecretKeySize => "ed25519 requires a 32 byte private key",
        Fault::PublicKeySize => "ed25519 requires a 32 byte public key",
        Fault::SignatureSize => "ed25519 requires a 64 byte signature",
        Fault::PublicKeyInvalid => "",
        Fault::SignatureRejected => "",
        Fault::PointInvalid => "ed25519 public key is not a valid point",
        Fault::Canonicalize => "failed to canonicalize json",
        Fault::CipherKeySize => "aes-256-gcm requires a 32 byte key",
        Fault::CipherSecretKeySize => "aes-256-gcm requires a 32 byte secret key",
        Fault::CiphertextTooShort => "ciphertext is too short",
        Fault::Encrypt => "encrypt: ",
        Fault::Decrypt => "decrypt: ",
        Fault::WrapSeal => "hpke seal: ",
        Fault::WrapOpen => "hpke open: ",
        Fault::Argon2 => "argon2: ",
        Fault::MissingId => "missing id field",
        Fault::MissingCreated => "missing created field",
        Fault::MissingModified => "missing modified field",
        Fault::MissingModifiedBy => "missing modified_by field",
        Fault::MissingSignatureAlgorithm => "missing signature_algorithm field",
        Fault::MissingSignature => "missing signature field",
        Fault::MissingMemberAddress => "missing member address field",
        Fault::MissingMemberPermission => "missing member permission field",
        Fault::UnknownPermission => "unknown permission: ",
        Fault::BodyHashNotBase64 => "body_hash_value is not base64url encoded",
        Fault::SignatureNotBase64 => "signature is not base64url encoded",
        Fault::KeyNotBase64 => "key_value is not base64url encoded",
        Fault::NoOwner => "metadata must contain at least one owner",
        Fault::AttributeNotUtf8 => "xattr ",
        Fault::EncryptedAttribute => "encrypted local attribute invalid: ",
        Fault::SyncHashNotBase64 => "sync_hash is not base64url encoded",
        Fault::MetadataSignature => "metadata signature verification failed",
        Fault::BodyHashMismatch => "body hash mismatch",
        Fault::BodyHashMissing => "file metadata must contain body_hash",
        Fault::BodyHashUnexpected => "dir metadata must not contain body_hash",
        Fault::UnknownIdentity => "no identity for ",
        Fault::PublicMemberEncrypted => "cannot add public member to encrypted file",
        Fault::LastOwner => "at least one owner must remain",
        Fault::IdWrong => "id is wrong",
        Fault::ModifiedOlder => "modified is older than existing",
        Fault::InvalidAddress => "invalid address",
        Fault::AddressForm => "address must be <name>@<host>[/<path>]",
        Fault::InvalidAccountName => "invalid account name (must be lowercase alphanumeric, dots, hyphens, underscores; 1-64 chars; not pure dots)",
        Fault::IdentitySignature => "identity signature verification failed",
        Fault::SignatureInvalid => "signature verification failed",
        Fault::KeyFileNotBase64 => "key is not base64url encoded",
        Fault::FileExists => "",
        Fault::Http => "HTTP ",
        Fault::EmptyMessage => "empty message",
        Fault::LineNotUtf8 => "stream did not contain valid UTF-8",
        Fault::BodyTruncated => "failed to fill whole buffer",
        Fault::BadRequestLine => "bad request line",
        Fault::InvalidPath => "invalid percent-encoded path",
        Fault::NoStatusCode => "no status code",
        Fault::BadStatusCode => "bad status code",
        Fault::UrlMissingHost => "URL missing host",
        Fault::ClosedBeforeStatus => "connection closed before status",
        Fault::StreamOpen => "stream open failed: ",
        Fault::ClosedInHeaders => "connection closed in headers",
        Fault::StreamClosed => "stream closed",
        Fault::MissingAuthorization => "missing Authorization header",
        Fault::AuthorizationScheme => "unsupported Authorization scheme",
        Fault::MissingAuthAddress => "missing address in Authorization",
        Fault::MissingAuthSignature => "missing signature in Authorization",
        Fault::MissingAuthTimestamp => "missing timestamp in Authorization",
        Fault::AuthSignatureNotBase64 => "auth signature not base64url encoded",
        Fault::AuthTimestamp => "invalid timestamp in Authorization",
        Fault::AuthSkew => "timestamp outside allowed window",
        Fault::AuthRejected => "signature verification failed",
        Fault::NotMember => "requestor not a member",
        Fault::Io => "",
        Fault::NotFound => "",
        Fault::NoKey => "no key for ",
        Fault::NoAlgorithm => "metadata missing encryption_algorithm",
        Fault::MaybePlain => "",
        Fault::AlgorithmFixed => "encryption-algortihm cannot override existing metadata",
        Fault::AlreadyEncrypted => "file is already encrypted",
        Fault::NoArkMetadata => "file has no ark metadata",
        Fault::AlreadyPlain => "file is already plaintext",
        Fault::InPlace => "--in-place is mutually exclusive with -i/--input and -o/--output",
        Fault::KeyOption => "--key decode: not base64url encoded",
        Fault::NoKeyAvailable => "no file key available: pass --key or use -i/--in-place on a file with metadata",
        Fault::RefuseDecrypt => "file is already plaintext (user.ark.encrypted=false); refusing to decrypt",
        Fault::NoWrappedKey => "no wrapped key for current account",
        Fault::NoMemberEntry => "no member entry for current account",
        Fault::NoMetadata => "no metadata: ",
        Fault::Modifier => "modifier ",
        Fault::AlgorithmForDirectory => "--encryption-algorithm not supported for directories",
        Fault::AlgorithmForMetadata => "--encryption-algorithm not supported for metadata-only puts",
        Fault::MetadataOnly => "metadata-only put requires existing metadata",
        Fault::NoMemberDenied => "no member entry for current account",
        Fault::InputMissing => "input does not exist",
        Fault::NeedsPut => "no ark metadata: use put instead",
        Fault::OnlyOwner => "only an owner can change permissions",
        Fault::PathMissing => "path does not exist",
        Fault::MetadataExists => "metadata already exists",
        Fault::NotWithin => "path is not within this account",
        Fault::PathNotJson => "path must end with .json",
        Fault::NothingToChange => "at least one add or drop address is required",
        Fault::PasswordLocal => "--password not supported with --local-only",
        Fault::IdentityAddress => "server identity address ",
        Fault::KeyTextNotUtf8 => "identity.key plaintext not utf8",
        Fault::KeyTextNotBase64 => "identity.key plaintext not base64url",
        Fault::NoArkDir => "no .ark dir found",
        Fault::IdentityParse => "identity.json parse: ",
        Fault::NotProposal => "entry is not a valid proposal",
        Fault::NoProposal => "no proposal at index ",
        Fault::TargetNotWithin => "target path is not within this account",
        Fault::FetchedNoHash => "file metadata missing body_hash",
        Fault::FetchedHash => "fetched body hash does not match metadata",
        Fault::MembersChanged => "",
        Fault::BadLogEntry => "bad log entry: ",
        Fault::LocalMissing => "local path missing: ",
        Fault::NoFileKey => "no file key for current account",
        Fault::MaybeUnencrypted => "",
    }
}

fn tail_text(fault: Fault) -> (r: &'static str)
    ensures
        r@ == tail(fault),
{
    match fault {
        Fault::AttributeNotUtf8 => " not utf8",
        Fault::FileExists => " already exists",
        Fault::MaybePlain => " — input may already be plaintext or the key may be wrong",
        Fault::MembersChanged => "\nUse --force to accept anyway.",
        Fault::MaybeUnencrypted => " — server data may not be encrypted or the key may be wrong",
        _ => "",
    }
}

} // verus!
