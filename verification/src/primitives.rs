//! The functions of outside crates, with what the library relies on about each
//! of them.

use aes_gcm::aead::Aead;
use aes_gcm::KeyInit;
use ed25519_dalek::Signer;
use ed25519_dalek::Verifier;
use hpke::Deserializable;
use hpke::Serializable;
use sha2::Digest;
use vstd::prelude::*;
use vstd::utf8::{decode_utf8, encode_utf8, valid_utf8};

verus! {

/// The SHA-256 digest of a byte string.
pub uninterp spec fn sha256_of(bytes: Seq<u8>) -> Seq<u8>;

/// `sha2::Sha256::digest`: the SHA-256 digest, 32 bytes long.
#[verifier::external_body]
pub(crate) fn sha256(bytes: &[u8]) -> (r: Vec<u8>)
    ensures
        r@ == sha256_of(bytes@),
        r@.len() == 32,
{
    sha2::Sha256::digest(bytes).to_vec()
}

/// The SHA-512 digest of a byte string.
pub uninterp spec fn sha512_of(bytes: Seq<u8>) -> Seq<u8>;

/// `sha2::Sha512::digest`: the SHA-512 digest, 64 bytes long.
#[verifier::external_body]
pub(crate) fn sha512(bytes: &[u8]) -> (r: Vec<u8>)
    ensures
        r@ == sha512_of(bytes@),
        r@.len() == 64,
{
    sha2::Sha512::digest(bytes).to_vec()
}

/// `getrandom::getrandom`: as many random bytes as asked for, or the text of
/// the system's failure. Nothing is claimed of which bytes they are.
#[verifier::external_body]
pub(crate) fn random_bytes(count: usize) -> (r: Result<Vec<u8>, String>)
    ensures
        r matches Ok(bytes) ==> bytes@.len() == count,
{
    let mut bytes = vec![0u8; count];
    match getrandom::getrandom(&mut bytes) {
        Ok(()) => Ok(bytes),
        Err(e) => Err(e.to_string()),
    }
}

/// The Ed25519 public key of a secret key.
pub uninterp spec fn ed25519_public(secret: Seq<u8>) -> Seq<u8>;

/// Whether 32 bytes are an Ed25519 public key, or the text of the refusal.
pub uninterp spec fn ed25519_key(public: Seq<u8>) -> Result<(), Seq<char>>;

/// The Ed25519 signature of a message.
pub uninterp spec fn ed25519_signature(secret: Seq<u8>, message: Seq<u8>) -> Seq<u8>;

/// Whether an Ed25519 signature of a message is valid under a public key, or
/// the text of the refusal.
pub uninterp spec fn ed25519_verdict(
    public: Seq<u8>,
    signature: Seq<u8>,
    message: Seq<u8>,
) -> Result<(), Seq<char>>;

/// `ed25519_dalek::SigningKey::verifying_key`: the public key of a secret
/// key, which is 32 bytes long and the compressed form of a point.
#[verifier::external_body]
pub(crate) fn ed25519_to_public(secret: &[u8]) -> (r: Vec<u8>)
    requires
        secret@.len() == 32,
    ensures
        r@ == ed25519_public(secret@),
        r@.len() == 32,
        montgomery(r@) is Some,
{
    let seed: [u8; 32] = secret.try_into().unwrap();
    ed25519_dalek::SigningKey::from_bytes(&seed).verifying_key().to_bytes().to_vec()
}

/// Whether a public key is valid and accepts a signature of a message.
pub open spec fn accepted(public: Seq<u8>, signature: Seq<u8>, message: Seq<u8>) -> bool {
    &&& public.len() == 32
    &&& ed25519_key(public) is Ok
    &&& ed25519_verdict(public, signature, message) is Ok
}

/// `ed25519_dalek::SigningKey::sign`: the signature of a message, 64 bytes
/// long. The public key of the same secret key is a valid key of 32 bytes,
/// and accepts the signature.
#[verifier::external_body]
pub(crate) fn ed25519_sign(secret: &[u8], message: &[u8]) -> (r: Vec<u8>)
    requires
        secret@.len() == 32,
    ensures
        r@ == ed25519_signature(secret@, message@),
        r@.len() == 64,
        accepted(ed25519_public(secret@), r@, message@),
{
    let seed: [u8; 32] = secret.try_into().unwrap();
    ed25519_dalek::SigningKey::from_bytes(&seed).sign(message).to_bytes().to_vec()
}

/// `ed25519_dalek::VerifyingKey::from_bytes`: whether the bytes are a public
/// key.
#[verifier::external_body]
pub(crate) fn ed25519_check_key(public: &[u8]) -> (r: Result<(), String>)
    requires
        public@.len() == 32,
    ensures
        refusal_text(r) == ed25519_key(public@),
{
    let bytes: [u8; 32] = public.try_into().unwrap();
    match ed25519_dalek::VerifyingKey::from_bytes(&bytes) {
        Ok(_) => Ok(()),
        Err(e) => Err(e.to_string()),
    }
}

/// `ed25519_dalek::VerifyingKey::verify`: whether the signature of a message
/// is valid under a public key.
#[verifier::external_body]
pub(crate) fn ed25519_verify(public: &[u8], signature: &[u8], message: &[u8]) -> (r: Result<(), String>)
    requires
        public@.len() == 32,
        signature@.len() == 64,
        ed25519_key(public@) is Ok,
    ensures
        refusal_text(r) == ed25519_verdict(public@, signature@, message@),
{
    let key: [u8; 32] = public.try_into().unwrap();
    let sig: [u8; 64] = signature.try_into().unwrap();
    let key = ed25519_dalek::VerifyingKey::from_bytes(&key).unwrap();
    match key.verify(message, &ed25519_dalek::Signature::from_bytes(&sig)) {
        Ok(()) => Ok(()),
        Err(e) => Err(e.to_string()),
    }
}

/// The view of a verdict.
pub open spec fn refusal_text(r: Result<(), String>) -> Result<(), Seq<char>> {
    match r {
        Ok(u) => Ok(u),
        Err(t) => Err(t@),
    }
}

/// The view of bytes or of the text of a failure.
pub open spec fn bytes_or_text(r: Result<Vec<u8>, String>) -> Result<Seq<u8>, Seq<char>> {
    match r {
        Ok(b) => Ok(b@),
        Err(t) => Err(t@),
    }
}

/// Whether opening succeeded with the given bytes.
pub open spec fn gives(opened: Result<Seq<u8>, Seq<char>>, plaintext: Seq<u8>) -> bool {
    opened == Ok::<Seq<u8>, Seq<char>>(plaintext)
}

/// Whether AES-GCM takes a plaintext, of which it takes no more than 2^36 bytes.
pub open spec fn fits_cipher(plaintext: Seq<u8>) -> bool {
    plaintext.len() <= 68_719_476_736
}

/// Whether a ciphertext has the same bytes as another up to its tag, which is the
/// last 16 bytes, and another tag.
pub open spec fn other_tag(ciphertext: Seq<u8>, other: Seq<u8>) -> bool {
    &&& other.len() == ciphertext.len() >= 16
    &&& other.take(other.len() - 16) == ciphertext.take(ciphertext.len() - 16)
    &&& other != ciphertext
}

/// The AES-256-GCM encryption of a text under a key and a nonce: the
/// ciphertext followed by the tag, or the text of the failure.
pub uninterp spec fn aes_sealed(
    key: Seq<u8>,
    nonce: Seq<u8>,
    plaintext: Seq<u8>,
) -> Result<Seq<u8>, Seq<char>>;

/// The AES-256-GCM decryption of a ciphertext under a key and a nonce, or the
/// text of the failure.
pub uninterp spec fn aes_opened(
    key: Seq<u8>,
    nonce: Seq<u8>,
    ciphertext: Seq<u8>,
) -> Result<Seq<u8>, Seq<char>>;

/// `aes_gcm::Aes256Gcm::encrypt`: it fails just where the plaintext is too long. The
/// ciphertext is 16 bytes longer than the plaintext, and opens to it under the same
/// key and nonce. The tag is a function of the key, the nonce and the bytes before
/// it, and all of it is compared, so that another tag is refused. It is masked with
/// the encryption of a block that holds the nonce, and a block cipher is one to one,
/// so that another nonce alone is refused too.
#[verifier::external_body]
pub(crate) fn aes_seal(key: &[u8], nonce: &[u8], plaintext: &[u8]) -> (r: Result<Vec<u8>, String>)
    requires
        key@.len() == 32,
        nonce@.len() == 12,
    ensures
        bytes_or_text(r) == aes_sealed(key@, nonce@, plaintext@),
        r is Ok <==> fits_cipher(plaintext@),
        r matches Ok(c) ==> c@.len() == plaintext@.len() + 16 && gives(aes_opened(key@, nonce@, c@), plaintext@),
        r matches Ok(c) ==> forall|other: Seq<u8>| #[trigger]
            other_tag(c@, other) ==> aes_opened(key@, nonce@, other) is Err,
        r matches Ok(c) ==> forall|other: Seq<u8>|
            other.len() == 12 && other != nonce@ ==> (#[trigger] aes_opened(key@, other, c@)) is Err,
{
    let cipher = aes_gcm::Aes256Gcm::new(key.into());
    match cipher.encrypt(aes_gcm::Nonce::from_slice(nonce), plaintext) {
        Ok(c) => Ok(c),
        Err(e) => Err(e.to_string()),
    }
}

/// `aes_gcm::Aes256Gcm::decrypt`: the plaintext, or the text of the failure. What is
/// shorter than a tag is refused, and what opens is 16 bytes longer than its
/// plaintext and, as far as that can be encrypted, is its encryption.
#[verifier::external_body]
pub(crate) fn aes_open(key: &[u8], nonce: &[u8], ciphertext: &[u8]) -> (r: Result<Vec<u8>, String>)
    requires
        key@.len() == 32,
        nonce@.len() == 12,
    ensures
        bytes_or_text(r) == aes_opened(key@, nonce@, ciphertext@),
        ciphertext@.len() < 16 ==> r is Err,
        r matches Ok(p) ==> ciphertext@.len() == p@.len() + 16 && (fits_cipher(p@) ==> gives(
            aes_sealed(key@, nonce@, p@),
            ciphertext@,
        )),
{
    let cipher = aes_gcm::Aes256Gcm::new(key.into());
    match cipher.decrypt(aes_gcm::Nonce::from_slice(nonce), ciphertext) {
        Ok(p) => Ok(p),
        Err(e) => Err(e.to_string()),
    }
}

/// The Montgomery form of an Edwards point, when the bytes are one.
pub uninterp spec fn montgomery(public: Seq<u8>) -> Option<Seq<u8>>;

/// The secret X25519 key that goes with an Ed25519 secret key: the first half
/// of its SHA-512 digest, clamped.
pub open spec fn clamped(secret: Seq<u8>) -> Seq<u8> {
    let half = sha512_of(secret).take(32);
    half.update(0, half[0] & 248).update(31, (half[31] & 127) | 64)
}

/// `curve25519_dalek::edwards::CompressedEdwardsY::decompress` and
/// `EdwardsPoint::to_montgomery`: the Montgomery form, 32 bytes long, of bytes
/// that are a point.
#[verifier::external_body]
pub(crate) fn to_montgomery(public: &[u8]) -> (r: Option<Vec<u8>>)
    requires
        public@.len() == 32,
    ensures
        crate::text::opt_bytes(r) == montgomery(public@),
        r matches Some(p) ==> p@.len() == 32,
{
    let bytes: [u8; 32] = public.try_into().unwrap();
    match curve25519_dalek::edwards::CompressedEdwardsY(bytes).decompress() {
        Some(point) => Some(point.to_montgomery().to_bytes().to_vec()),
        None => None,
    }
}

/// What a receiver opens with HPKE in base mode (DHKEM X25519, HKDF-SHA256,
/// AES-256-GCM, no associated data), or the text of the failure.
pub uninterp spec fn hpke_opened(
    secret: Seq<u8>,
    encapped: Seq<u8>,
    info: Seq<u8>,
    ciphertext: Seq<u8>,
) -> Result<Seq<u8>, Seq<char>>;

/// `hpke::single_shot_seal`, with a fresh key of the system's random
/// generator: an encapsulated key of 32 bytes and a ciphertext 16 bytes longer
/// than the plaintext. Where the key is the Montgomery form of an Ed25519 public
/// key, it opens to the plaintext under the clamped first half of the SHA-512
/// digest of that key's secret, which is the scalar that both public keys are
/// made from. Sealing fails only where the shared value is zero or the cipher does
/// not take the plaintext. The shared value is never zero where the key is such a
/// Montgomery form: it is then a point of prime order, and neither it nor the scalar
/// of the fresh key, which is clamped, is zero. Of a failure only the text is given.
#[verifier::external_body]
pub(crate) fn hpke_seal(public: &[u8], info: &[u8], plaintext: &[u8]) -> (r: Result<
    (Vec<u8>, Vec<u8>),
    String,
>)
    requires
        public@.len() == 32,
    ensures
        r matches Ok(s) ==> s.0@.len() == 32 && s.1@.len() == plaintext@.len() + 16,
        r matches Ok(s) ==> forall|secret: Seq<u8>|
            secret.len() == 32 && #[trigger] montgomery(ed25519_public(secret)) == Some(public@) ==> gives(
                hpke_opened(clamped(secret), s.0@, info@, s.1@),
                plaintext@,
            ),
        fits_cipher(plaintext@) && (exists|secret: Seq<u8>|
            secret.len() == 32 && #[trigger] montgomery(ed25519_public(secret)) == Some(public@)) ==> r is Ok,
{
    let key = <hpke::kem::X25519HkdfSha256 as hpke::Kem>::PublicKey::from_bytes(public).unwrap();
    let mode = hpke::OpModeS::<hpke::kem::X25519HkdfSha256>::Base;
    match hpke::single_shot_seal::<hpke::aead::AesGcm256, hpke::kdf::HkdfSha256, hpke::kem::X25519HkdfSha256, _>(
        &mode, &key, info, plaintext, b"", &mut rand::rngs::OsRng,
    ) {
        Ok((encapped, ciphertext)) => Ok((encapped.to_bytes().to_vec(), ciphertext)),
        Err(e) => Err(e.to_string()),
    }
}

/// `hpke::single_shot_open`: the plaintext, or the text of the failure.
#[verifier::external_body]
pub(crate) fn hpke_open(secret: &[u8], encapped: &[u8], info: &[u8], ciphertext: &[u8]) -> (r: Result<
    Vec<u8>,
    String,
>)
    requires
        secret@.len() == 32,
        encapped@.len() == 32,
    ensures
        bytes_or_text(r) == hpke_opened(secret@, encapped@, info@, ciphertext@),
{
    let key = <hpke::kem::X25519HkdfSha256 as hpke::Kem>::PrivateKey::from_bytes(secret).unwrap();
    let sender = <hpke::kem::X25519HkdfSha256 as hpke::Kem>::EncappedKey::from_bytes(encapped).unwrap();
    let mode = hpke::OpModeR::<hpke::kem::X25519HkdfSha256>::Base;
    match hpke::single_shot_open::<hpke::aead::AesGcm256, hpke::kdf::HkdfSha256, hpke::kem::X25519HkdfSha256>(
        &mode, &key, &sender, info, ciphertext, b"",
    ) {
        Ok(p) => Ok(p),
        Err(e) => Err(e.to_string()),
    }
}

/// The Argon2id (version 0x13, default parameters) hash of a password with a
/// salt, 32 bytes long, or the text of the failure.
pub uninterp spec fn argon2_hashed(password: Seq<u8>, salt: Seq<u8>) -> Result<Seq<u8>, Seq<char>>;

/// `argon2::Argon2::hash_password_into` with an output of 32 bytes.
#[verifier::external_body]
pub(crate) fn argon2_hash(password: &[u8], salt: &[u8]) -> (r: Result<Vec<u8>, String>)
    ensures
        bytes_or_text(r) == argon2_hashed(password@, salt@),
        r matches Ok(h) ==> h@.len() == 32,
{
    let params = argon2::Params::default();
    let argon = argon2::Argon2::new(argon2::Algorithm::Argon2id, argon2::Version::V0x13, params);
    let mut out = vec![0u8; 32];
    match argon.hash_password_into(password, salt, &mut out) {
        Ok(()) => Ok(out),
        Err(e) => Err(e.to_string()),
    }
}

/// The first 32 bytes of HKDF-SHA256 without a salt.
pub uninterp spec fn hkdf_expanded(material: Seq<u8>, info: Seq<u8>) -> Seq<u8>;

/// `hkdf::Hkdf::expand` with an output of 32 bytes, which is short enough for
/// it never to fail.
#[verifier::external_body]
pub(crate) fn hkdf_expand(material: &[u8], info: &[u8]) -> (r: Vec<u8>)
    ensures
        r@ == hkdf_expanded(material@, info@),
        r@.len() == 32,
{
    let mut out = vec![0u8; 32];
    hkdf::Hkdf::<sha2::Sha256>::new(None, material).expand(info, &mut out).unwrap();
    out
}

/// `core::str::from_utf8`: the text of bytes that are valid UTF-8.
#[verifier::external_body]
pub(crate) fn utf8_text(bytes: &[u8]) -> (r: Option<String>)
    ensures
        r is Some <==> valid_utf8(bytes@),
        r matches Some(s) ==> s@ == decode_utf8(bytes@),
{
    match core::str::from_utf8(bytes) {
        Ok(s) => Some(s.to_owned()),
        Err(_) => None,
    }
}

/// The canonical form (RFC 8785) of a JSON text, when it is one.
pub uninterp spec fn canonical_json(text: Seq<char>) -> Option<Seq<u8>>;

/// `serde_jcs::to_vec` of what `serde_json::from_str` reads: the canonical form
/// of a JSON text, or nothing when the text is not JSON.
#[verifier::external_body]
pub(crate) fn canonicalize(text: &str) -> (r: Option<Vec<u8>>)
    ensures
        crate::text::opt_bytes(r) == canonical_json(text@),
{
    match serde_json::from_str::<serde_json::Value>(text) {
        Ok(value) => serde_jcs::to_vec(&value).ok(),
        Err(_) => None,
    }
}

/// A JSON text laid out over several lines, when it is one.
pub uninterp spec fn pretty_json(text: Seq<char>) -> Option<Seq<char>>;

/// `serde_json::to_string_pretty` of what `serde_json::from_str` reads: the same
/// JSON value over several lines, or nothing when the text is not JSON.
#[verifier::external_body]
pub(crate) fn prettify(text: &str) -> (r: Option<String>)
    ensures
        crate::text::opt_text(r) == pretty_json(text@),
{
    match serde_json::from_str::<serde_json::Value>(text) {
        Ok(value) => serde_json::to_string_pretty(&value).ok(),
        Err(_) => None,
    }
}

/// `uuid::Uuid::new_v4` in its hyphenated form, which has 36 characters.
/// Nothing else is claimed of which id it is.
#[verifier::external_body]
pub(crate) fn fresh_id() -> (r: String)
    ensures
        r@.len() == 36,
{
    uuid::Uuid::new_v4().to_string()
}

/// The parts of a URL that the library reads.
#[derive(Debug)]
pub struct UrlParts {
    pub username: String,
    pub host: Option<String>,
    pub port: Option<u16>,
    pub path: String,
    pub query: Option<String>,
}

/// The view of the parts of a URL.
#[verifier::ext_equal]
pub struct UrlPartsV {
    pub username: Seq<char>,
    pub host: Option<Seq<char>>,
    pub port: Option<u16>,
    pub path: Seq<char>,
    pub query: Option<Seq<char>>,
}

impl View for UrlParts {
    type V = UrlPartsV;

    open spec fn view(&self) -> UrlPartsV {
        UrlPartsV {
            username: self.username@,
            host: crate::text::opt_text(self.host),
            port: self.port,
            path: self.path@,
            query: crate::text::opt_text(self.query),
        }
    }
}

/// The parts of a URL, when the text is one.
pub uninterp spec fn url_parts(text: Seq<char>) -> Option<UrlPartsV>;

/// The view of optional parts of a URL.
pub open spec fn opt_url(u: Option<UrlParts>) -> Option<UrlPartsV> {
    match u {
        Some(parts) => Some(parts@),
        None => None,
    }
}

/// `url::Url::parse`, and the parts that `username`, `host_str`, `port`, `path`
/// and `query` give of the result.
#[verifier::external_body]
pub(crate) fn parse_url(text: &str) -> (r: Option<UrlParts>)
    ensures
        opt_url(r) == url_parts(text@),
{
    match url::Url::parse(text) {
        Ok(u) => Some(UrlParts {
            username: u.username().to_owned(),
            host: u.host_str().map(|h| h.to_owned()),
            port: u.port(),
            path: u.path().to_owned(),
            query: u.query().map(|q| q.to_owned()),
        }),
        Err(_) => None,
    }
}

/// The text of bytes, with a replacement character for what is not UTF-8.
pub uninterp spec fn lossy_text(bytes: Seq<u8>) -> Seq<char>;

/// `String::from_utf8_lossy`: valid UTF-8 comes out as it is.
#[verifier::external_body]
pub(crate) fn lossy(bytes: &[u8]) -> (r: String)
    ensures
        r@ == lossy_text(bytes@),
        valid_utf8(bytes@) ==> r@ == decode_utf8(bytes@),
{
    String::from_utf8_lossy(bytes).into_owned()
}

/// Whether a byte is an ASCII hexadecimal digit.
pub open spec fn is_hex(b: u8) -> bool {
    48 <= b <= 57 || 65 <= b <= 70 || 97 <= b <= 102
}

/// The number that a hexadecimal digit stands for.
pub open spec fn hex_value(b: u8) -> int {
    if 48 <= b <= 57 {
        b - 48
    } else if 65 <= b <= 70 {
        b - 55
    } else {
        b - 87
    }
}

/// Bytes with every `%` and two hexadecimal digits made the byte that they
/// stand for.
pub open spec fn percent_unescaped(b: Seq<u8>) -> Seq<u8>
    decreases b.len(),
{
    if b.len() == 0 {
        Seq::empty()
    } else if b[0] == 37 && b.len() >= 3 && is_hex(b[1]) && is_hex(b[2]) {
        seq![(hex_value(b[1]) * 16 + hex_value(b[2])) as u8] + percent_unescaped(b.skip(3))
    } else {
        seq![b[0]] + percent_unescaped(b.skip(1))
    }
}

/// A percent-encoded text decoded, when the result is UTF-8.
pub open spec fn percent_decoded(s: Seq<char>) -> Option<Seq<char>> {
    let b = percent_unescaped(encode_utf8(s));
    if valid_utf8(b) {
        Some(decode_utf8(b))
    } else {
        None
    }
}

/// `percent_encoding::percent_decode_str` and `decode_utf8`: every `%` and two
/// hexadecimal digits is decoded, anything else stays, and the result must be
/// UTF-8.
#[verifier::external_body]
pub(crate) fn percent_decode_text(s: &str) -> (r: Option<String>)
    ensures
        crate::text::opt_text(r) == percent_decoded(s@),
{
    match percent_encoding::percent_decode_str(s).decode_utf8() {
        Ok(t) => Some(t.into_owned()),
        Err(_) => None,
    }
}

/// An upper-case hexadecimal digit.
pub open spec fn upper_hex(d: int) -> char {
    if d < 10 {
        (48 + d) as char
    } else {
        (55 + d) as char
    }
}

/// `percent_encoding::percent_encode_byte`: a `%` and two upper-case hexadecimal
/// digits.
#[verifier::external_body]
pub(crate) fn percent_encode_byte(b: u8) -> (r: &'static str)
    ensures
        r@ == seq!['%', upper_hex(b as int / 16), upper_hex(b as int % 16)],
{
    percent_encoding::percent_encode_byte(b)
}

/// Whether a byte of a form stays as it is.
pub open spec fn form_byte_kept(b: u8) -> bool {
    48 <= b <= 57 || 65 <= b <= 90 || 97 <= b <= 122 || b == 42 || b == 45 || b == 46 || b == 95
}

/// The text of a byte of a form: the byte itself, a plus sign for a space, or a
/// `%` and two upper-case hexadecimal digits.
pub open spec fn form_byte(b: u8) -> Seq<char> {
    if form_byte_kept(b) {
        seq![b as char]
    } else if b == 32 {
        seq!['+']
    } else {
        seq!['%', upper_hex(b as int / 16), upper_hex(b as int % 16)]
    }
}

/// The text of bytes of a form.
pub open spec fn form_bytes(b: Seq<u8>) -> Seq<char>
    decreases b.len(),
{
    if b.len() == 0 {
        Seq::empty()
    } else {
        form_bytes(b.drop_last()) + form_byte(b.last())
    }
}

/// `url::form_urlencoded::Serializer::append_pair` on an empty string: the name,
/// an equals sign and the value, both form-encoded.
#[verifier::external_body]
pub(crate) fn form_pair(name: &str, value: &str) -> (r: String)
    ensures
        r@ == form_bytes(encode_utf8(name@)) + "="@ + form_bytes(encode_utf8(value@)),
{
    url::form_urlencoded::Serializer::new(String::new()).append_pair(name, value).finish()
}

} // verus!
