use mona::crypto::{decrypt, encrypt, generate_rand_bits, pbkdf2, Encrypted, Plaintext, Session};
use mona::encoding::{decode, decode_bytes, encode};
use mona::error::{Error, ErrorKind};
use mona::secret_meta::{AeadAlgorithm, BinaryEncoding, KdfAlgorithm, Meta, Paranoid, Plaintext as PlaintextRules, AEAD, PBKDF2};

fn meta_with(salt: &[u8], nonce: &[u8]) -> Meta {
    Meta {
        version: String::from("0.0.1"),
        binary_encoding: BinaryEncoding::UrlSafeBase64,
        plaintext: PlaintextRules { min_bits: 1024 },
        pbkdf2: PBKDF2 { algo: KdfAlgorithm::Sha256, iters: 10_000, salt: encode(salt) },
        aead: AEAD { algo: AeadAlgorithm::ChaCha20Poly1305, nonce: encode(nonce), keylen: 256 },
        paranoid: Paranoid {
            simple_multiple_encryption: String::from("none"),
            cascading_encryption: String::from("none"),
        },
    }
}

#[test]
fn encode_gives_padded_base64() {
    assert_eq!(encode(b"hello"), "aGVsbG8=");
    assert_eq!(encode(b""), "");
    assert_eq!(encode(b"ab"), "YWI=");
    assert_eq!(encode(b"abc"), "YWJj");
}

#[test]
fn encode_uses_the_url_safe_alphabet() {
    assert_eq!(encode(&[0xfb, 0xff]), "-_8=");
    assert_eq!(encode(&[0xff, 0xff, 0xff]), "____");
}

#[test]
fn decode_inverts_encode() {
    let bytes: Vec<u8> = (0u8..=255).collect();
    let text = encode(&bytes);
    assert_eq!(decode(&text), Ok(bytes.clone()));
    assert_eq!(decode_bytes(text.as_bytes()), Ok(bytes));
}

#[test]
fn decode_rejects_what_is_no_text_form() {
    assert_eq!(decode("not base64!"), Err(Error::BadEncoding));
    assert_eq!(decode("+/8="), Err(Error::BadEncoding));
    assert_eq!(decode("aGVsbG8"), Err(Error::BadEncoding));
}

#[test]
fn random_bits_have_the_length_asked_for() {
    assert_eq!(generate_rand_bits(96).unwrap().len(), 12);
    assert_eq!(generate_rand_bits(0).unwrap().len(), 0);
    assert_eq!(generate_rand_bits(256).unwrap().len(), 32);
}

#[test]
fn random_bits_must_be_whole_bytes() {
    assert_eq!(generate_rand_bits(7), Err(Error::BitsNotByteAligned));
    assert_eq!(generate_rand_bits(97), Err(Error::BitsNotByteAligned));
}

#[test]
fn random_bits_differ_between_calls() {
    let a = generate_rand_bits(256).unwrap();
    let b = generate_rand_bits(256).unwrap();
    assert_ne!(a, b);
}

#[test]
fn derived_key_is_what_pbkdf2_gives() {
    let meta = meta_with(b"salt-of-12-b", &[0u8; 12]);
    let key = pbkdf2(b"password", 256, &meta).unwrap();
    let mut expected = vec![0u8; 32];
    ring::pbkdf2::derive(
        ring::pbkdf2::PBKDF2_HMAC_SHA256,
        std::num::NonZeroU32::new(10_000).unwrap(),
        b"salt-of-12-b",
        b"password",
        &mut expected,
    );
    assert_eq!(key, expected);
    assert_ne!(key, b"password".to_vec());
}

#[test]
fn derived_key_has_the_length_asked_for() {
    let meta = meta_with(b"salt-of-12-b", &[0u8; 12]);
    assert_eq!(pbkdf2(b"password", 128, &meta).unwrap().len(), 16);
    assert_eq!(pbkdf2(b"password", 512, &meta).unwrap().len(), 64);
}

#[test]
fn short_key_is_refused() {
    let meta = meta_with(b"salt-of-12-b", &[0u8; 12]);
    assert_eq!(pbkdf2(b"password", 120, &meta), Err(Error::KeyTooShort));
    assert_eq!(pbkdf2(b"password", 0, &meta), Err(Error::KeyTooShort));
}

#[test]
fn key_length_must_be_whole_bytes() {
    let meta = meta_with(b"salt-of-12-b", &[0u8; 12]);
    assert_eq!(pbkdf2(b"password", 129, &meta), Err(Error::KeyLengthNotByteAligned));
}

#[test]
fn few_iterations_are_refused() {
    let mut meta = meta_with(b"salt-of-12-b", &[0u8; 12]);
    meta.pbkdf2.iters = 9_999;
    assert_eq!(pbkdf2(b"password", 256, &meta), Err(Error::TooFewIterations));
    meta.pbkdf2.iters = 10_000;
    assert!(pbkdf2(b"password", 256, &meta).is_ok());
}

#[test]
fn salt_must_be_in_its_text_form() {
    let mut meta = meta_with(b"salt-of-12-b", &[0u8; 12]);
    meta.pbkdf2.salt = String::from("***");
    assert_eq!(pbkdf2(b"password", 256, &meta), Err(Error::BadEncoding));
}

#[test]
fn round_trip_gives_the_plaintext_back() {
    let meta = meta_with(b"salt-of-12-b", b"nonce-of-12b");
    for data in [&b""[..], &b"1234"[..], &[0u8; 1000][..]] {
        let sealed = encrypt(b"correct horse", data, &meta).unwrap();
        assert_eq!(sealed.len(), data.len() + 16);
        assert_eq!(decrypt(b"correct horse", &sealed, &meta), Ok(data.to_vec()));
    }
}

#[test]
fn ciphertext_is_not_the_plaintext() {
    let meta = meta_with(b"salt-of-12-b", b"nonce-of-12b");
    let data = b"attack at dawn, attack at dawn";
    let sealed = encrypt(b"correct horse", data, &meta).unwrap();
    assert_ne!(&sealed[..data.len()], &data[..]);
}

#[test]
fn wrong_passphrase_fails_authentication() {
    let meta = meta_with(b"salt-of-12-b", b"nonce-of-12b");
    let sealed = encrypt(b"correct horse", b"1234", &meta).unwrap();
    assert_eq!(decrypt(b"wrong horse", &sealed, &meta), Err(Error::Authentication));
    assert_eq!(Error::Authentication.kind(), ErrorKind::Authentication);
}

#[test]
fn changed_metadata_fails_authentication() {
    let meta = meta_with(b"salt-of-12-b", b"nonce-of-12b");
    let sealed = encrypt(b"correct horse", b"1234", &meta).unwrap();

    let mut version = meta.clone();
    version.version = String::from("0.0.2");
    assert_eq!(decrypt(b"correct horse", &sealed, &version), Err(Error::Authentication));

    let mut iters = meta.clone();
    iters.pbkdf2.iters = 10_001;
    assert_eq!(decrypt(b"correct horse", &sealed, &iters), Err(Error::Authentication));

    let mut salt = meta.clone();
    salt.pbkdf2.salt = encode(b"salt-of-12-c");
    assert_eq!(decrypt(b"correct horse", &sealed, &salt), Err(Error::Authentication));

    let mut nonce = meta.clone();
    nonce.aead.nonce = encode(b"nonce-of-12c");
    assert_eq!(decrypt(b"correct horse", &sealed, &nonce), Err(Error::Authentication));

    let mut min_bits = meta.clone();
    min_bits.plaintext.min_bits = 1025;
    assert_eq!(decrypt(b"correct horse", &sealed, &min_bits), Err(Error::Authentication));

    let mut paranoid = meta.clone();
    paranoid.paranoid.cascading_encryption = String::from("nonf");
    assert_eq!(decrypt(b"correct horse", &sealed, &paranoid), Err(Error::Authentication));
}

#[test]
fn changed_ciphertext_fails_authentication() {
    let meta = meta_with(b"salt-of-12-b", b"nonce-of-12b");
    let sealed = encrypt(b"correct horse", b"1234", &meta).unwrap();
    for i in 0..sealed.len() {
        let mut changed = sealed.clone();
        changed[i] ^= 1;
        assert_eq!(decrypt(b"correct horse", &changed, &meta), Err(Error::Authentication));
    }
    assert_eq!(decrypt(b"correct horse", &sealed[..10], &meta), Err(Error::Authentication));
    assert_eq!(decrypt(b"correct horse", &[], &meta), Err(Error::Authentication));
}

#[test]
fn cipher_takes_a_key_of_256_bits() {
    let mut meta = meta_with(b"salt-of-12-b", b"nonce-of-12b");
    meta.aead.keylen = 128;
    assert_eq!(encrypt(b"correct horse", b"1234", &meta), Err(Error::KeyLengthMismatch));
    assert_eq!(decrypt(b"correct horse", &[0u8; 20], &meta), Err(Error::KeyLengthMismatch));
    meta.aead.keylen = 64;
    assert_eq!(encrypt(b"correct horse", b"1234", &meta), Err(Error::KeyTooShort));
}

#[test]
fn cipher_takes_a_nonce_of_96_bits() {
    let meta = meta_with(b"salt-of-12-b", b"short");
    assert_eq!(encrypt(b"correct horse", b"1234", &meta), Err(Error::NonceLengthMismatch));
    let mut bad = meta_with(b"salt-of-12-b", b"nonce-of-12b");
    bad.aead.nonce = String::from("?");
    assert_eq!(encrypt(b"correct horse", b"1234", &bad), Err(Error::BadEncoding));
}

#[test]
fn sealing_is_chacha20_poly1305_over_key_nonce_and_metadata() {
    let meta = meta_with(b"salt-of-12-b", b"nonce-of-12b");
    let sealed = encrypt(b"correct horse", b"1234", &meta).unwrap();

    let key = pbkdf2(b"correct horse", 256, &meta).unwrap();
    let aad = meta.to_toml_bytes().unwrap();
    let unbound = ring::aead::UnboundKey::new(&ring::aead::CHACHA20_POLY1305, &key).unwrap();
    let nonce = ring::aead::Nonce::try_assume_unique_for_key(b"nonce-of-12b").unwrap();
    let mut expected = b"1234".to_vec();
    ring::aead::LessSafeKey::new(unbound)
        .seal_in_place_append_tag(nonce, ring::aead::Aad::from(&aad[..]), &mut expected)
        .unwrap();
    assert_eq!(sealed, expected);
}

#[test]
fn session_key_comes_from_passphrase_and_entropy() {
    let sess = Session::unlock(1, b"correct horse", b"entropy bytes").unwrap();
    assert_eq!(sess.site_id, 1);
    assert_eq!(sess.master_key.len(), 32);
    let mut expected = vec![0u8; 32];
    ring::pbkdf2::derive(
        ring::pbkdf2::PBKDF2_HMAC_SHA256,
        std::num::NonZeroU32::new(100_000).unwrap(),
        b"entropy bytes",
        b"correct horse",
        &mut expected,
    );
    assert_eq!(sess.master_key, expected);
    let other = Session::unlock(1, b"correct horse", b"other entropy").unwrap();
    assert_ne!(sess.master_key, other.master_key);
}

#[test]
fn plaintext_and_encrypted_round_trip_in_a_session() {
    let sess = Session { site_id: 1, master_key: vec![7u8; 32] };
    let plain = Plaintext { data: b"1234".to_vec(), meta: meta_with(b"salt-of-12-b", b"nonce-of-12b") };
    let sealed = plain.encrypt(&sess).unwrap();
    assert_eq!(sealed.data.len(), 20);
    assert_eq!(sealed.meta.aead.nonce, plain.meta.aead.nonce);
    let opened = sealed.decrypt(&sess).unwrap();
    assert_eq!(opened.data, b"1234".to_vec());
    assert_eq!(opened.meta.pbkdf2.salt, plain.meta.pbkdf2.salt);

    let other = Session { site_id: 1, master_key: vec![8u8; 32] };
    assert!(matches!(sealed.decrypt(&other), Err(Error::Authentication)));
    let forged = Encrypted { data: vec![0u8; 20], meta: meta_with(b"salt-of-12-b", b"nonce-of-12b") };
    assert!(matches!(forged.decrypt(&sess), Err(Error::Authentication)));
}

#[test]
fn failures_have_their_class() {
    assert_eq!(Error::UnsupportedKdf.kind(), ErrorKind::Configuration);
    assert_eq!(Error::KeyTooShort.kind(), ErrorKind::Configuration);
    assert_eq!(Error::TooFewIterations.kind(), ErrorKind::Configuration);
    assert_eq!(Error::NotFound.kind(), ErrorKind::NotFound);
    assert_eq!(Error::NonceAlreadyBurnt.kind(), ErrorKind::Integrity);
    assert_eq!(Error::NonceExhausted.kind(), ErrorKind::Integrity);
    assert_eq!(Error::DuplicateEntry.kind(), ErrorKind::Integrity);
    assert_eq!(Error::MergeConflict.kind(), ErrorKind::Integrity);
    assert_eq!(Error::Malformed.kind(), ErrorKind::Format);
    assert_eq!(Error::RandomSource.kind(), ErrorKind::Io);
    assert!(Error::NotFound.is_not_found());
    assert!(!Error::Authentication.is_not_found());
}
