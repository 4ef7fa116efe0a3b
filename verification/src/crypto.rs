//! Key derivation and authenticated encryption, built from the metadata.
//!
//! The key of an encryption is derived from the passphrase with the salt and
//! the iteration count of the metadata. The text of the whole metadata is the
//! associated data of the cipher, so a ciphertext opens only beside the
//! metadata it was sealed with.

use vstd::prelude::*;
use crate::encoding::{decode, decoded};
use crate::error::Error;
use crate::secret_meta::{Meta, MetaView, meta_text};

verus! {

/// What PBKDF2 with HMAC-SHA-256 derives, as `ring` computes it: `len` bytes
/// from the secret, the salt and the iteration count.
pub uninterp spec fn pbkdf2_hmac_sha256(iterations: u32, salt: Seq<u8>, secret: Seq<u8>, len: nat) -> Seq<u8>;

/// What `ring` seals with ChaCha20-Poly1305: the ciphertext followed by the tag.
pub uninterp spec fn chacha20_poly1305_sealed(
    key: Seq<u8>,
    nonce: Seq<u8>,
    aad: Seq<u8>,
    plaintext: Seq<u8>,
) -> Seq<u8>;

/// What `ring` opens with ChaCha20-Poly1305, or `None` where it rejects the
/// key, the nonce or the sealed bytes.
pub uninterp spec fn chacha20_poly1305_opened(
    key: Seq<u8>,
    nonce: Seq<u8>,
    aad: Seq<u8>,
    sealed: Seq<u8>,
) -> Option<Seq<u8>>;

/// The shortest key that is accepted, in bits.
pub const MIN_KEY_BITS: u32 = 128;

/// The fewest iterations of the key derivation that are accepted.
pub const MIN_ITERATIONS: u32 = 10_000;

/// The key length of the cipher, in bits.
pub const CIPHER_KEY_BITS: u32 = 256;

/// The nonce length of the cipher, in bytes.
pub const NONCE_LEN: usize = 12;

/// The nonce length of the cipher, in bits.
pub const NONCE_BITS: u32 = 96;

/// The length of the authentication tag, in bytes.
pub const TAG_LEN: usize = 16;

/// The longest passphrase and the longest salt that are handed to the key
/// derivation, in bytes.
pub const MAX_KDF_INPUT: usize = 0x7fff_ffff;

/// The longest plaintext that the cipher seals under one nonce, in bytes.
pub open spec fn max_seal_len() -> int {
    274_877_906_880
}

/// `pbkdf2::derive` of `ring`, with `PBKDF2_HMAC_SHA256`, into a fresh buffer
/// of `len` bytes. Trusted: the buffer then holds the named derivation. The
/// inputs on which `ring` panics (no iteration, an output or an input beyond
/// what the hash takes) are left out.
#[verifier::external_body]
fn pbkdf2_derive(iterations: u32, salt: &[u8], secret: &[u8], len: usize) -> (key: Vec<u8>)
    requires
        iterations >= 1,
        salt@.len() <= MAX_KDF_INPUT,
        secret@.len() <= MAX_KDF_INPUT,
        len <= MAX_KDF_INPUT,
    ensures
        key@ == pbkdf2_hmac_sha256(iterations, salt@, secret@, len as nat),
        key@.len() == len,
{
    let mut key = vec![0u8; len];
    if let Some(n) = core::num::NonZeroU32::new(iterations) {
        ring::pbkdf2::derive(ring::pbkdf2::PBKDF2_HMAC_SHA256, n, salt, secret, &mut key);
    }
    key
}

/// `LessSafeKey::seal_in_place_append_tag` of `ring`, with a key and a nonce
/// made from the bytes for `CHACHA20_POLY1305`. Trusted: it succeeds exactly
/// for a key of 32 bytes, a nonce of 12 bytes and a plaintext within the
/// cipher's limit; the result is the named sealing, longer than the plaintext
/// by the tag; and `ring` opens it, under the same key, nonce and associated
/// data, to the plaintext.
#[verifier::external_body]
fn chacha20_poly1305_seal(key: &[u8], nonce: &[u8], aad: &[u8], plaintext: &[u8]) -> (r: Option<Vec<u8>>)
    ensures
        r is Some ==> key@.len() == 32 && nonce@.len() == 12 && plaintext@.len() <= max_seal_len(),
        r is None ==> !(key@.len() == 32 && nonce@.len() == 12 && plaintext@.len() <= max_seal_len()),
        r matches Some(sealed) ==> sealed@ == chacha20_poly1305_sealed(key@, nonce@, aad@, plaintext@),
        r matches Some(sealed) ==> sealed@.len() == plaintext@.len() + 16,
        r matches Some(sealed) ==> chacha20_poly1305_opened(key@, nonce@, aad@, sealed@) == Some(plaintext@),
{
    let unbound = ring::aead::UnboundKey::new(&ring::aead::CHACHA20_POLY1305, key).ok()?;
    let nonce = ring::aead::Nonce::try_assume_unique_for_key(nonce).ok()?;
    let mut in_out = plaintext.to_vec();
    ring::aead::LessSafeKey::new(unbound)
        .seal_in_place_append_tag(nonce, ring::aead::Aad::from(aad), &mut in_out).ok()?;
    Some(in_out)
}

/// `LessSafeKey::open_in_place` of `ring`, with a key and a nonce made from
/// the bytes for `CHACHA20_POLY1305`. Trusted: the result is the named
/// opening, and there is none where `ring` rejects the key, the nonce or the
/// sealed bytes; what is opened is shorter than the sealed bytes by the tag.
#[verifier::external_body]
fn chacha20_poly1305_open(key: &[u8], nonce: &[u8], aad: &[u8], sealed: &[u8]) -> (r: Option<Vec<u8>>)
    ensures
        r matches Some(plaintext) ==> chacha20_poly1305_opened(key@, nonce@, aad@, sealed@) == Some(
            plaintext@,
        ),
        r matches Some(plaintext) ==> plaintext@.len() + 16 == sealed@.len(),
        r is None ==> chacha20_poly1305_opened(key@, nonce@, aad@, sealed@) is None,
{
    let unbound = ring::aead::UnboundKey::new(&ring::aead::CHACHA20_POLY1305, key).ok()?;
    let nonce = ring::aead::Nonce::try_assume_unique_for_key(nonce).ok()?;
    let mut in_out = sealed.to_vec();
    let plaintext = ring::aead::LessSafeKey::new(unbound)
        .open_in_place(nonce, ring::aead::Aad::from(aad), &mut in_out).ok()?;
    Some(plaintext.to_vec())
}

/// `SecureRandom::fill` of `ring`, on a fresh `SystemRandom`, into a buffer
/// of `len` bytes. Trusted: where it succeeds the buffer has that length.
/// Nothing is claimed of the bytes.
#[verifier::external_body]
fn system_random(len: usize) -> (r: Option<Vec<u8>>)
    ensures
        r matches Some(bytes) ==> bytes@.len() == len,
{
    let mut bytes = vec![0u8; len];
    ring::rand::SecureRandom::fill(&ring::rand::SystemRandom::new(), &mut bytes).ok()?;
    Some(bytes)
}

/// The key that a passphrase gives under the parameters of the metadata.
///
/// A length under 128 bits, a length that is no whole number of bytes and an
/// iteration count under the floor are refused, in that order; then a salt
/// that is not in its text form; then a passphrase or a salt beyond the
/// length that is handed to the derivation.
pub open spec fn derived_key(pass: Seq<u8>, keylen: u32, m: MetaView) -> Result<Seq<u8>, Error> {
    if keylen < MIN_KEY_BITS {
        Err(Error::KeyTooShort)
    } else if keylen % 8 != 0 {
        Err(Error::KeyLengthNotByteAligned)
    } else if m.iters < MIN_ITERATIONS {
        Err(Error::TooFewIterations)
    } else {
        match decoded(m.salt) {
            None => Err(Error::BadEncoding),
            Some(salt) => if pass.len() > MAX_KDF_INPUT || salt.len() > MAX_KDF_INPUT {
                Err(Error::InputTooLong)
            } else {
                Ok(pbkdf2_hmac_sha256(m.iters, salt, pass, (keylen / 8) as nat))
            },
        }
    }
}

/// What goes into the cipher for a passphrase and a metadata record: the key,
/// the nonce and the associated data.
pub struct CipherInput {
    pub key: Seq<u8>,
    pub nonce: Seq<u8>,
    pub aad: Seq<u8>,
}

/// The input of the cipher. The key is derived first; then a key length other
/// than the cipher's is refused, a metadata record without a text, a nonce
/// that is not in its text form, and a nonce of another length than the
/// cipher's, in that order. The associated data is the text of the whole
/// metadata record.
pub open spec fn cipher_input(pass: Seq<u8>, m: MetaView) -> Result<CipherInput, Error> {
    match derived_key(pass, m.keylen, m) {
        Err(e) => Err(e),
        Ok(key) => if m.keylen != CIPHER_KEY_BITS {
            Err(Error::KeyLengthMismatch)
        } else {
            match meta_text(m) {
                None => Err(Error::Malformed),
                Some(aad) => match decoded(m.nonce) {
                    None => Err(Error::BadEncoding),
                    Some(nonce) => if nonce.len() != NONCE_LEN {
                        Err(Error::NonceLengthMismatch)
                    } else {
                        Ok(CipherInput { key, nonce, aad })
                    },
                },
            }
        },
    }
}

/// The ciphertext of `data` under a passphrase and a metadata record.
pub open spec fn encrypted(pass: Seq<u8>, data: Seq<u8>, m: MetaView) -> Result<Seq<u8>, Error> {
    match cipher_input(pass, m) {
        Err(e) => Err(e),
        Ok(input) => if data.len() > max_seal_len() {
            Err(Error::InputTooLong)
        } else {
            Ok(chacha20_poly1305_sealed(input.key, input.nonce, input.aad, data))
        },
    }
}

/// The plaintext of `sealed` under a passphrase and a metadata record. Where
/// the cipher does not open the bytes, the failure is `Authentication`.
pub open spec fn decrypted(pass: Seq<u8>, sealed: Seq<u8>, m: MetaView) -> Result<Seq<u8>, Error> {
    match cipher_input(pass, m) {
        Err(e) => Err(e),
        Ok(input) => match chacha20_poly1305_opened(input.key, input.nonce, input.aad, sealed) {
            Some(plaintext) => Ok(plaintext),
            None => Err(Error::Authentication),
        },
    }
}

/// Whether an executable result is the one that a specification gives.
pub open spec fn bytes_result_is(r: Result<Vec<u8>, Error>, expected: Result<Seq<u8>, Error>) -> bool {
    match expected {
        Ok(bytes) => r matches Ok(v) && v@ == bytes,
        Err(e) => r matches Err(x) && x == e,
    }
}

/// Derives a key of `keylen` bits from the passphrase, with the salt and the
/// iteration count of the metadata.
pub fn pbkdf2(pass: &[u8], keylen: u32, meta: &Meta) -> (r: Result<Vec<u8>, Error>)
    ensures
        bytes_result_is(r, derived_key(pass@, keylen, meta@)),
        r matches Ok(key) ==> key@.len() == keylen / 8,
{
    if keylen < MIN_KEY_BITS {
        return Err(Error::KeyTooShort);
    }
    if keylen % 8 != 0 {
        return Err(Error::KeyLengthNotByteAligned);
    }
    if meta.pbkdf2.iters < MIN_ITERATIONS {
        return Err(Error::TooFewIterations);
    }
    let salt = match decode(meta.pbkdf2.salt.as_str()) {
        Ok(salt) => salt,
        Err(_) => {
            return Err(Error::BadEncoding);
        },
    };
    if pass.len() > MAX_KDF_INPUT || salt.len() > MAX_KDF_INPUT {
        return Err(Error::InputTooLong);
    }
    Ok(pbkdf2_derive(meta.pbkdf2.iters, salt.as_slice(), pass, (keylen / 8) as usize))
}

/// The key, the nonce and the associated data for a passphrase and a
/// metadata record.
fn prepare(pass: &[u8], meta: &Meta) -> (r: Result<(Vec<u8>, Vec<u8>, Vec<u8>), Error>)
    ensures
        match cipher_input(pass@, meta@) {
            Ok(input) => r matches Ok(t) && t.0@ == input.key && t.1@ == input.nonce && t.2@ == input.aad
                && input.key.len() == 32 && input.nonce.len() == 12,
            Err(e) => r matches Err(x) && x == e,
        },
{
    let key = match pbkdf2(pass, meta.aead.keylen, meta) {
        Ok(key) => key,
        Err(e) => {
            return Err(e);
        },
    };
    if meta.aead.keylen != CIPHER_KEY_BITS {
        return Err(Error::KeyLengthMismatch);
    }
    let aad = match meta.to_toml_bytes() {
        Ok(aad) => aad,
        Err(_) => {
            return Err(Error::Malformed);
        },
    };
    let nonce = match decode(meta.aead.nonce.as_str()) {
        Ok(nonce) => nonce,
        Err(_) => {
            return Err(Error::BadEncoding);
        },
    };
    if nonce.len() != NONCE_LEN {
        return Err(Error::NonceLengthMismatch);
    }
    Ok((key, nonce, aad))
}

/// Seals `data` under the passphrase, with the parameters of the metadata and
/// the text of the metadata as associated data.
///
/// The ciphertext is longer than the data by the tag, and `decrypt` with the
/// same passphrase and metadata gives the data back.
pub fn encrypt(pass: &[u8], data: &[u8], meta: &Meta) -> (r: Result<Vec<u8>, Error>)
    ensures
        bytes_result_is(r, encrypted(pass@, data@, meta@)),
        r matches Ok(sealed) ==> sealed@.len() == data@.len() + TAG_LEN,
        r matches Ok(sealed) ==> decrypted(pass@, sealed@, meta@) == Ok::<Seq<u8>, Error>(data@),
{
    let (key, nonce, aad) = match prepare(pass, meta) {
        Ok(t) => t,
        Err(e) => {
            return Err(e);
        },
    };
    match chacha20_poly1305_seal(key.as_slice(), nonce.as_slice(), aad.as_slice(), data) {
        Some(sealed) => Ok(sealed),
        None => Err(Error::InputTooLong),
    }
}

/// Opens `encrypted_data` under the passphrase, with the parameters of the
/// metadata and the text of the metadata as associated data. Where the bytes
/// do not open, the failure is `Authentication` and no byte is returned.
pub fn decrypt(pass: &[u8], encrypted_data: &[u8], meta: &Meta) -> (r: Result<Vec<u8>, Error>)
    ensures
        bytes_result_is(r, decrypted(pass@, encrypted_data@, meta@)),
        r matches Ok(plaintext) ==> plaintext@.len() + TAG_LEN == encrypted_data@.len(),
{
    let (key, nonce, aad) = match prepare(pass, meta) {
        Ok(t) => t,
        Err(e) => {
            return Err(e);
        },
    };
    match chacha20_poly1305_open(key.as_slice(), nonce.as_slice(), aad.as_slice(), encrypted_data) {
        Some(plaintext) => Ok(plaintext),
        None => Err(Error::Authentication),
    }
}

/// Random bytes for `n` bits. A bit count that is no whole number of bytes is
/// refused with `BitsNotByteAligned`; otherwise the only failure is that of
/// the system's random source.
pub fn generate_rand_bits(n: u32) -> (r: Result<Vec<u8>, Error>)
    ensures
        n % 8 != 0 ==> (r matches Err(e) && e == Error::BitsNotByteAligned),
        n % 8 == 0 ==> (r matches Err(e) ==> e == Error::RandomSource),
        r matches Ok(bytes) ==> bytes@.len() == n / 8,
{
    if n % 8 != 0 {
        return Err(Error::BitsNotByteAligned);
    }
    match system_random((n / 8) as usize) {
        Some(bytes) => Ok(bytes),
        None => Err(Error::RandomSource),
    }
}

/// The number of iterations with which a session's master key is derived.
pub const MASTER_KEY_ITERATIONS: u32 = 100_000;

/// The length of a session's master key, in bytes.
pub const MASTER_KEY_LEN: usize = 32;

/// An unlocked store: the master key, from which the key of each encryption
/// is derived, and the identifier of this site. It lives in memory only.
#[derive(Debug)]
pub struct Session {
    pub site_id: u32,
    pub master_key: Vec<u8>,
}

/// The master key for a passphrase and the bytes of the entropy file: the
/// passphrase is the secret and the entropy the salt of the derivation.
pub open spec fn master_key(pass: Seq<u8>, entropy: Seq<u8>) -> Seq<u8> {
    pbkdf2_hmac_sha256(MASTER_KEY_ITERATIONS, entropy, pass, MASTER_KEY_LEN as nat)
}

impl Session {
    /// Unlocks a session for a site from the master passphrase and the
    /// entropy that is kept beside the store. Fails with `InputTooLong`
    /// exactly where one of the two is beyond the length that is handed to
    /// the derivation.
    pub fn unlock(site_id: u32, pass: &[u8], entropy: &[u8]) -> (r: Result<Session, Error>)
        ensures
            match r {
                Ok(sess) => sess.site_id == site_id && sess.master_key@ == master_key(pass@, entropy@)
                    && pass@.len() <= MAX_KDF_INPUT && entropy@.len() <= MAX_KDF_INPUT,
                Err(e) => e == Error::InputTooLong && (pass@.len() > MAX_KDF_INPUT || entropy@.len()
                    > MAX_KDF_INPUT),
            },
    {
        if pass.len() > MAX_KDF_INPUT || entropy.len() > MAX_KDF_INPUT {
            return Err(Error::InputTooLong);
        }
        let key = pbkdf2_derive(MASTER_KEY_ITERATIONS, entropy, pass, MASTER_KEY_LEN);
        Ok(Session { site_id, master_key: key })
    }
}

/// Bytes in the clear, with the metadata they are to be sealed with or were
/// opened with.
#[derive(Debug)]
pub struct Plaintext {
    pub data: Vec<u8>,
    pub meta: Meta,
}

/// Sealed bytes with the metadata that opens them: the pair that is kept as a
/// blob and its sidecar.
#[derive(Debug)]
pub struct Encrypted {
    pub data: Vec<u8>,
    pub meta: Meta,
}

impl Plaintext {
    /// Seals the data under the session's master key. The result carries the
    /// same metadata and is longer than the data by the tag, and `decrypt` in
    /// the same session gives the data back.
    pub fn encrypt(&self, sess: &Session) -> (r: Result<Encrypted, Error>)
        ensures
            match encrypted(sess.master_key@, self.data@, self.meta@) {
                Ok(sealed) => r matches Ok(e) && e.data@ == sealed && e.meta@ == self.meta@ && e.data@.len()
                    == self.data@.len() + TAG_LEN && decrypted(sess.master_key@, sealed, self.meta@) == Ok::<
                    Seq<u8>,
                    Error,
                >(self.data@),
                Err(e) => r matches Err(x) && x == e,
            },
    {
        match encrypt(sess.master_key.as_slice(), self.data.as_slice(), &self.meta) {
            Ok(sealed) => Ok(Encrypted { data: sealed, meta: self.meta.clone() }),
            Err(e) => Err(e),
        }
    }
}

impl Encrypted {
    /// Opens the data under the session's master key. The result carries the
    /// same metadata.
    pub fn decrypt(&self, sess: &Session) -> (r: Result<Plaintext, Error>)
        ensures
            match decrypted(sess.master_key@, self.data@, self.meta@) {
                Ok(opened) => r matches Ok(p) && p.data@ == opened && p.meta@ == self.meta@,
                Err(e) => r matches Err(x) && x == e,
            },
    {
        match decrypt(sess.master_key.as_slice(), self.data.as_slice(), &self.meta) {
            Ok(opened) => Ok(Plaintext { data: opened, meta: self.meta.clone() }),
            Err(e) => Err(e),
        }
    }
}

} // verus!
