use ark::base64url::{decode_base64url, encode_base64url};
use ark::crypto::{
    create_secret_key, create_secret_key_from_password, decrypt_bytes, derive_public_x25519_from_ed25519, encrypt_bytes,
    encrypt_with_nonce, join_wrapped, restore_secret_key_from_password, sign_bytes, sign_json, to_public_key,
    verify_bytes, verify_json, DEFAULT_ENCRYPTION_ALGORITHM, DEFAULT_PASSWORD_ALGORITHM, DEFAULT_SIGNING_ALGORITHM,
    PASSWORD_KEY_LEN, PASSWORD_SALT_LEN, WRAP_ALGORITHM,
};
use ark::error::Fault;
use ark::identity::create_identity_with_key;
use ark::types::{Key, Signature};

fn key(algorithm: &str, value: &[u8]) -> Key {
    Key { algorithm: algorithm.to_string(), value: value.to_vec() }
}

fn hex(bytes: &[u8]) -> String {
    let mut out = String::new();
    for b in bytes {
        out.push_str(&format!("{:02x}", b));
    }
    out
}

fn unhex(text: &str) -> Vec<u8> {
    let digits = text.as_bytes();
    let mut out = Vec::new();
    let mut i = 0;
    while i + 1 < digits.len() {
        out.push(u8::from_str_radix(&text[i..i + 2], 16).unwrap());
        i += 2;
    }
    out
}

#[test]
fn encrypt_decrypt_aes_256_gcm_round_trip() {
    let key = key(DEFAULT_ENCRYPTION_ALGORITHM, &[9u8; 32]);
    let plaintext = b"secret payload";

    let (_, ciphertext) = encrypt_bytes(&key, plaintext).unwrap();
    assert_ne!(&ciphertext[12..], plaintext);

    let decrypted_plaintext = decrypt_bytes(&key, &ciphertext).unwrap();
    assert_eq!(decrypted_plaintext, plaintext);
}

#[test]
fn decrypt_aes_256_gcm_short_ciphertext_errors() {
    let key = key(DEFAULT_ENCRYPTION_ALGORITHM, &[0u8; 32]);
    let err = decrypt_bytes(&key, b"short").unwrap_err();
    assert!(err.message().contains("is too short"));
}

#[test]
fn decrypt_aes_256_gcm_wrong_key_errors() {
    let mut key = key(DEFAULT_ENCRYPTION_ALGORITHM, &[1u8; 32]);
    let (_, ciphertext) = encrypt_bytes(&key, b"x").unwrap();
    key.value = [9u8; 32].to_vec();
    assert!(decrypt_bytes(&key, &ciphertext).is_err());
}

#[test]
fn encrypt_decrypt_ed25519_round_trip() {
    let secret_seed = [7u8; 32].to_vec();
    let ed_secret = key(DEFAULT_SIGNING_ALGORITHM, &secret_seed);
    let public_key = to_public_key(&ed_secret).unwrap();
    let plaintext = b"secret payload";

    let (wrap_alg, ciphertext) = encrypt_bytes(&public_key, plaintext).unwrap();
    assert_ne!(&ciphertext[32..], plaintext);

    let decrypt_key = Key { algorithm: wrap_alg, value: secret_seed };
    let decrypted_plaintext = decrypt_bytes(&decrypt_key, &ciphertext).unwrap();
    assert_eq!(decrypted_plaintext, plaintext);
}

#[test]
fn decrypt_ed25519_short_ciphertext_errors() {
    let key = key("hpke-x25519-hkdf-sha256-aes256gcm", &[0u8; 32]);
    let err = decrypt_bytes(&key, b"short").unwrap_err();
    assert!(err.message().contains("is too short"));
}

#[test]
fn decrypt_ed25519_wrong_key_errors() {
    let ed_secret = key(DEFAULT_SIGNING_ALGORITHM, &[8u8; 32]);
    let public_key = to_public_key(&ed_secret).unwrap();

    let (wrap_alg, ciphertext) = encrypt_bytes(&public_key, b"x").unwrap();
    let wrong = key(&wrap_alg, &[9u8; 32]);
    assert!(decrypt_bytes(&wrong, &ciphertext).is_err());
}

#[test]
fn encrypt_ed25519_distinct() {
    let secret_key = key(DEFAULT_SIGNING_ALGORITHM, &[7u8; 32]);
    let public_key = to_public_key(&secret_key).unwrap();
    let plaintext = b"secret payload";

    let (_, a) = encrypt_bytes(&public_key, plaintext).unwrap();
    let (_, b) = encrypt_bytes(&public_key, plaintext).unwrap();
    assert_ne!(a, b);
}

// The first test vector of RFC 8032 for Ed25519.
#[test]
fn ed25519_signs_a_known_message() {
    let secret = key(
        DEFAULT_SIGNING_ALGORITHM,
        &unhex("9d61b19deffd5a60ba844af492ec2cc44449c5697b326919703bac031cae7f60"),
    );
    let public = to_public_key(&secret).unwrap();
    assert_eq!(public.algorithm, "ed25519");
    assert_eq!(hex(&public.value), "d75a980182b10ab7d54bfed3c964073a0ee172f3daa62325af021a68f707511a");

    let signature = sign_bytes(&secret, b"").unwrap();
    assert_eq!(signature.algorithm, "ed25519");
    assert_eq!(
        hex(&signature.value),
        "e5564300c360ac729086e2cc806e828a84877f1eb8e5d974d873e065224901555fb8821590a33bacc61e39701cf9b46bd25bf5f0595bbe24655141438e7a100b"
    );
    verify_bytes(&public, &signature, b"").unwrap();
    assert!(verify_bytes(&public, &signature, b"x").is_err());
}

// A vector of the GCM specification for a key of zeros.
#[test]
fn aes_gcm_seals_a_known_block() {
    let secret = key(DEFAULT_ENCRYPTION_ALGORITHM, &[0u8; 32]);
    let sealed = encrypt_with_nonce(&secret, &[0u8; 12], &[0u8; 16]).unwrap();
    assert_eq!(
        hex(&sealed),
        "000000000000000000000000cea7403d4d606b6e074ec5d3baf39d18d0d1c8a799996bf0265b98b5d48ab919"
    );
    assert_eq!(decrypt_bytes(&secret, &sealed).unwrap(), vec![0u8; 16]);
}

#[test]
fn x25519_key_of_the_ed25519_base_point() {
    // The base point of Ed25519 has the u-coordinate 9.
    let mut base = [0x66u8; 32];
    base[0] = 0x58;
    let point = derive_public_x25519_from_ed25519(&key("ed25519", &base)).unwrap();
    let mut nine = [0u8; 32];
    nine[0] = 9;
    assert_eq!(point.value, nine.to_vec());
}

#[test]
fn keys_of_the_wrong_size_are_refused() {
    let short = key(DEFAULT_SIGNING_ALGORITHM, &[1u8; 31]);
    assert_eq!(to_public_key(&short).unwrap_err().message(), "ed25519 requires a 32 byte private key");
    assert_eq!(sign_bytes(&short, b"m").unwrap_err().fault, Fault::SecretKeySize);
    let signature = Signature { algorithm: "ed25519".to_string(), value: vec![0u8; 64] };
    assert_eq!(verify_bytes(&short, &signature, b"m").unwrap_err().fault, Fault::PublicKeySize);

    let secret = key(DEFAULT_SIGNING_ALGORITHM, &[1u8; 32]);
    let public = to_public_key(&secret).unwrap();
    let cut = Signature { algorithm: "ed25519".to_string(), value: vec![0u8; 63] };
    assert_eq!(verify_bytes(&public, &cut, b"m").unwrap_err().fault, Fault::SignatureSize);

    let cipher = key(DEFAULT_ENCRYPTION_ALGORITHM, &[1u8; 16]);
    assert_eq!(encrypt_bytes(&cipher, b"m").unwrap_err().fault, Fault::CipherKeySize);
    assert_eq!(decrypt_bytes(&cipher, &[0u8; 40]).unwrap_err().fault, Fault::CipherSecretKeySize);
}

#[test]
fn unknown_algorithms_are_refused() {
    let odd = key("rot13", &[1u8; 32]);
    assert_eq!(create_secret_key("rot13").unwrap_err().fault, Fault::UnsupportedAlgorithm);
    assert!(to_public_key(&odd).is_err());
    assert!(sign_bytes(&odd, b"m").is_err());
    assert!(encrypt_bytes(&odd, b"m").is_err());
    assert!(decrypt_bytes(&odd, &[0u8; 64]).is_err());
}

#[test]
fn created_keys_have_their_size_and_differ() {
    let a = create_secret_key(DEFAULT_SIGNING_ALGORITHM).unwrap();
    let b = create_secret_key(DEFAULT_SIGNING_ALGORITHM).unwrap();
    assert_eq!(a.algorithm, "ed25519");
    assert_eq!(a.value.len(), 32);
    assert_ne!(a.value, b.value);
    let c = create_secret_key(DEFAULT_ENCRYPTION_ALGORITHM).unwrap();
    assert_eq!(c.algorithm, "aes-256-gcm");
    assert_eq!(c.value.len(), 32);
}

#[test]
fn wrapping_names_its_algorithm() {
    let public = to_public_key(&key(DEFAULT_SIGNING_ALGORITHM, &[7u8; 32])).unwrap();
    let (name, sealed) = encrypt_bytes(&public, b"key").unwrap();
    assert_eq!(name, WRAP_ALGORITHM);
    assert_eq!(sealed.len(), 32 + 3 + 16);
}

#[test]
fn json_is_signed_in_its_canonical_form() {
    let secret = key(DEFAULT_SIGNING_ALGORITHM, &[3u8; 32]);
    let public = to_public_key(&secret).unwrap();
    let signature = sign_json(&secret, "{\"b\": 1, \"a\": \"x\"}").unwrap();
    assert_eq!(signature, sign_bytes(&secret, b"{\"a\":\"x\",\"b\":1}").unwrap());
    verify_json(&public, &signature, "{ \"a\":\"x\",\"b\":1 }").unwrap();
    assert!(verify_json(&public, &signature, "{\"a\":\"y\",\"b\":1}").is_err());
    assert_eq!(sign_json(&secret, "not json").unwrap_err().fault, Fault::Canonicalize);
}

#[test]
fn password_restores_the_key_it_made() {
    let secret = create_secret_key_from_password(DEFAULT_PASSWORD_ALGORITHM, "correct horse").unwrap();
    assert_eq!(secret.algorithm, "argon2id-ed25519");
    assert_eq!(secret.value.len(), PASSWORD_SALT_LEN + 13);
    assert_eq!(to_public_key(&secret).unwrap().value.len(), PASSWORD_KEY_LEN);
    let identity = create_identity_with_key(&secret, "alice@example.com/.ark/identity.password", None).unwrap();
    let restored = restore_secret_key_from_password(&identity, "correct horse").unwrap();
    assert_eq!(restored, secret);

    let err = restore_secret_key_from_password(&identity, "battery staple").unwrap_err();
    assert_eq!(err.message(), "password verifier mismatch");
}

#[test]
fn password_keys_are_salted() {
    let a = create_secret_key_from_password(DEFAULT_PASSWORD_ALGORITHM, "pw").unwrap();
    let b = create_secret_key_from_password(DEFAULT_PASSWORD_ALGORITHM, "pw").unwrap();
    assert_ne!(a.value, b.value);
}

#[test]
fn password_keys_sign_and_unwrap() {
    let secret = create_secret_key_from_password(DEFAULT_PASSWORD_ALGORITHM, "pw").unwrap();
    let public = to_public_key(&secret).unwrap();
    let signature = sign_bytes(&secret, b"message").unwrap();
    verify_bytes(&public, &signature, b"message").unwrap();
    let (_, sealed) = encrypt_bytes(&public, b"file key").unwrap();
    assert_eq!(decrypt_bytes(&secret, &sealed).unwrap(), b"file key");
}

// The vectors of RFC 4648, without padding.
#[test]
fn base64url_of_known_texts() {
    let cases: [(&[u8], &str); 8] = [
        (b"", ""),
        (b"f", "Zg"),
        (b"fo", "Zm8"),
        (b"foo", "Zm9v"),
        (b"foob", "Zm9vYg"),
        (b"fooba", "Zm9vYmE"),
        (b"foobar", "Zm9vYmFy"),
        (&[0xfb, 0xff], "-_8"),
    ];
    for (bytes, text) in cases {
        assert_eq!(encode_base64url(bytes), text);
        assert_eq!(decode_base64url(text).unwrap(), bytes);
    }
}

#[test]
fn base64url_refuses_other_texts() {
    assert!(decode_base64url("!!not-base64!!").is_none());
    assert!(decode_base64url("Zg==").is_none());
    assert!(decode_base64url("Z").is_none());
    assert!(decode_base64url("+/8").is_none());
    assert!(decode_base64url("Zh").is_none());
}

#[test]
fn wrapped_texts_are_joined() {
    assert_eq!(join_wrapped(Ok((vec![1, 2], vec![3]))).unwrap(), vec![1, 2, 3]);
    let err = join_wrapped(Err("no luck".to_string())).unwrap_err();
    assert!(matches!(err.fault, Fault::WrapSeal));
    assert!(err.message().contains("no luck"));
}

#[test]
fn every_owner_can_be_encrypted_for() {
    for seed in 0..8u8 {
        let secret = key(DEFAULT_SIGNING_ALGORITHM, &[seed; 32]);
        let public = to_public_key(&secret).unwrap();
        let (_, wrapped) = encrypt_bytes(&public, b"text").unwrap();
        assert_eq!(decrypt_bytes(&secret, &wrapped).unwrap(), b"text");
    }
    // The identity of the curve: nobody owns it.
    let mut neutral = [0u8; 32];
    neutral[0] = 1;
    let err = encrypt_bytes(&key(DEFAULT_SIGNING_ALGORITHM, &neutral), b"text").unwrap_err();
    assert!(matches!(err.fault, Fault::WrapSeal));
}

#[test]
fn another_nonce_or_tag_is_refused() {
    let secret = key(DEFAULT_ENCRYPTION_ALGORITHM, &[7u8; 32]);
    let sealed = encrypt_with_nonce(&secret, &[3u8; 12], b"text").unwrap();
    assert_eq!(decrypt_bytes(&secret, &sealed).unwrap(), b"text");
    for i in (0..12).chain(sealed.len() - 16..sealed.len()) {
        let mut other = sealed.clone();
        other[i] ^= 128;
        assert!(matches!(decrypt_bytes(&secret, &other).unwrap_err().fault, Fault::Decrypt));
    }
    assert!(decrypt_bytes(&secret, &sealed[..27]).is_err());
}
