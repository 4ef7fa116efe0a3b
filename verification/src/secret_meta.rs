//! The record of every parameter that a decryption needs.
//!
//! It is stored in plain text beside each ciphertext, and its text is bound
//! into the ciphertext as associated data.

use vstd::prelude::*;
use vstd::string::*;
use crate::document::{
    TomlValue, TomlTree, tree_field, tree_str, tree_int, is_plain_key, is_plain_document, is_record,
    is_leaf, document_text, document_of, push_field, lemma_table_tree, lemma_table_map_empty, value_fits, pairs_fit, lemma_fits_deeper, lemma_fits_one_more, MAX_NESTING,
};
use crate::error::Error;

verus! {

/// The key-derivation algorithms that are supported.
#[derive(Clone, Copy, PartialEq, Eq, Debug, Structural)]
pub enum KdfAlgorithm {
    /// PBKDF2 with HMAC-SHA-256, written `Sha256`.
    Sha256,
}

/// The ciphers that are supported.
#[derive(Clone, Copy, PartialEq, Eq, Debug, Structural)]
pub enum AeadAlgorithm {
    /// ChaCha20 with Poly1305, written `ChaCha20-Poly1305`.
    ChaCha20Poly1305,
}

/// The text forms of binary fields that are supported.
#[derive(Clone, Copy, PartialEq, Eq, Debug, Structural)]
pub enum BinaryEncoding {
    /// URL-safe base64 with padding, written `base64url`.
    UrlSafeBase64,
}

/// What is asked of the plaintext.
#[derive(Clone, Debug)]
pub struct Plaintext {
    pub min_bits: i32,
}

/// The parameters of the key derivation. The salt stands in its text form.
#[derive(Clone, Debug)]
pub struct PBKDF2 {
    pub algo: KdfAlgorithm,
    pub iters: u32,
    pub salt: String,
}

/// The parameters of the cipher. The nonce stands in its text form; the key
/// length is in bits.
#[derive(Clone, Debug)]
pub struct AEAD {
    pub algo: AeadAlgorithm,
    pub nonce: String,
    pub keylen: u32,
}

/// Settings for layered encryption; carried and bound, not acted on.
#[derive(Clone, Debug)]
pub struct Paranoid {
    pub simple_multiple_encryption: String,
    pub cascading_encryption: String,
}

/// The metadata of one encryption.
#[derive(Debug)]
pub struct Meta {
    pub version: String,
    pub binary_encoding: BinaryEncoding,
    pub plaintext: Plaintext,
    pub pbkdf2: PBKDF2,
    pub aead: AEAD,
    pub paranoid: Paranoid,
}

/// The metadata with its texts as sequences of characters.
pub struct MetaView {
    pub version: Seq<char>,
    pub binary_encoding: BinaryEncoding,
    pub min_bits: i32,
    pub kdf: KdfAlgorithm,
    pub iters: u32,
    pub salt: Seq<char>,
    pub aead: AeadAlgorithm,
    pub nonce: Seq<char>,
    pub keylen: u32,
    pub simple_multiple_encryption: Seq<char>,
    pub cascading_encryption: Seq<char>,
}

impl View for Meta {
    type V = MetaView;

    open spec fn view(&self) -> MetaView {
        MetaView {
            version: self.version@,
            binary_encoding: self.binary_encoding,
            min_bits: self.plaintext.min_bits,
            kdf: self.pbkdf2.algo,
            iters: self.pbkdf2.iters,
            salt: self.pbkdf2.salt@,
            aead: self.aead.algo,
            nonce: self.aead.nonce@,
            keylen: self.aead.keylen,
            simple_multiple_encryption: self.paranoid.simple_multiple_encryption@,
            cascading_encryption: self.paranoid.cascading_encryption@,
        }
    }
}

/// The schema version that new metadata carries.
pub open spec fn schema_version() -> Seq<char> {
    "0.0.1"@
}

/// The name of a key-derivation algorithm in the text.
pub open spec fn kdf_name(a: KdfAlgorithm) -> Seq<char> {
    "Sha256"@
}

/// The name of a cipher in the text.
pub open spec fn aead_name(a: AeadAlgorithm) -> Seq<char> {
    "ChaCha20-Poly1305"@
}

/// The name of a binary encoding in the text.
pub open spec fn encoding_name(e: BinaryEncoding) -> Seq<char> {
    "base64url"@
}

/// The document that holds the metadata.
pub open spec fn meta_tree(m: MetaView) -> TomlTree {
    TomlTree::Table(
        Map::<Seq<char>, TomlTree>::empty().insert("version"@, TomlTree::Str(m.version)).insert(
            "binary_encoding"@,
            TomlTree::Str(encoding_name(m.binary_encoding)),
        ).insert(
            "plaintext"@,
            TomlTree::Table(
                Map::<Seq<char>, TomlTree>::empty().insert("min_bits"@, TomlTree::Int(m.min_bits as i64)),
            ),
        ).insert(
            "pbkdf2"@,
            TomlTree::Table(
                Map::<Seq<char>, TomlTree>::empty().insert("algo"@, TomlTree::Str(kdf_name(m.kdf))).insert(
                    "iters"@,
                    TomlTree::Int(m.iters as i64),
                ).insert("salt"@, TomlTree::Str(m.salt)),
            ),
        ).insert(
            "aead"@,
            TomlTree::Table(
                Map::<Seq<char>, TomlTree>::empty().insert("algo"@, TomlTree::Str(aead_name(m.aead))).insert(
                    "nonce"@,
                    TomlTree::Str(m.nonce),
                ).insert("keylen"@, TomlTree::Int(m.keylen as i64)),
            ),
        ).insert(
            "paranoid"@,
            TomlTree::Table(
                Map::<Seq<char>, TomlTree>::empty().insert(
                    "simple_multiple_encryption"@,
                    TomlTree::Str(m.simple_multiple_encryption),
                ).insert("cascading_encryption"@, TomlTree::Str(m.cascading_encryption)),
            ),
        ),
    )
}

/// The value under `key` of the table under `table`.
pub open spec fn nested(t: TomlTree, table: Seq<char>, key: Seq<char>) -> Option<TomlTree> {
    match tree_field(t, table) {
        Some(inner) => tree_field(inner, key),
        None => None,
    }
}

/// The text under `key` of the table under `table`.
pub open spec fn nested_str(t: TomlTree, table: Seq<char>, key: Seq<char>) -> Option<Seq<char>> {
    match tree_field(t, table) {
        Some(inner) => tree_str(inner, key),
        None => None,
    }
}

/// The number under `key` of the table under `table`.
pub open spec fn nested_int(t: TomlTree, table: Seq<char>, key: Seq<char>) -> Option<i64> {
    match tree_field(t, table) {
        Some(inner) => tree_int(inner, key),
        None => None,
    }
}

/// Whether every field of the metadata stands in the document with its type.
pub open spec fn has_meta_fields(t: TomlTree) -> bool {
    &&& tree_str(t, "version"@) is Some
    &&& tree_str(t, "binary_encoding"@) is Some
    &&& nested_int(t, "plaintext"@, "min_bits"@) is Some
    &&& nested_str(t, "pbkdf2"@, "algo"@) is Some
    &&& nested_int(t, "pbkdf2"@, "iters"@) is Some
    &&& nested_str(t, "pbkdf2"@, "salt"@) is Some
    &&& nested_str(t, "aead"@, "algo"@) is Some
    &&& nested_str(t, "aead"@, "nonce"@) is Some
    &&& nested_int(t, "aead"@, "keylen"@) is Some
    &&& nested_str(t, "paranoid"@, "simple_multiple_encryption"@) is Some
    &&& nested_str(t, "paranoid"@, "cascading_encryption"@) is Some
}

/// The metadata that a document holds.
///
/// A document that lacks a field, or holds one with another type or a number
/// out of the field's range, is malformed. A name of an encoding, of a
/// key-derivation algorithm or of a cipher that is not supported is refused
/// as such, in that order. Keys that are not fields are passed over.
pub open spec fn tree_meta(t: TomlTree) -> Result<MetaView, Error> {
    if !has_meta_fields(t) {
        Err(Error::Malformed)
    } else if !(i32::MIN <= nested_int(t, "plaintext"@, "min_bits"@)->Some_0 <= i32::MAX) || !(0
        <= nested_int(t, "pbkdf2"@, "iters"@)->Some_0 <= u32::MAX) || !(0 <= nested_int(
        t,
        "aead"@,
        "keylen"@,
    )->Some_0 <= u32::MAX) {
        Err(Error::Malformed)
    } else if tree_str(t, "binary_encoding"@)->Some_0 != "base64url"@ {
        Err(Error::UnsupportedEncoding)
    } else if nested_str(t, "pbkdf2"@, "algo"@)->Some_0 != "Sha256"@ {
        Err(Error::UnsupportedKdf)
    } else if nested_str(t, "aead"@, "algo"@)->Some_0 != "ChaCha20-Poly1305"@ {
        Err(Error::UnsupportedAead)
    } else {
        Ok(
            MetaView {
                version: tree_str(t, "version"@)->Some_0,
                binary_encoding: BinaryEncoding::UrlSafeBase64,
                min_bits: nested_int(t, "plaintext"@, "min_bits"@)->Some_0 as i32,
                kdf: KdfAlgorithm::Sha256,
                iters: nested_int(t, "pbkdf2"@, "iters"@)->Some_0 as u32,
                salt: nested_str(t, "pbkdf2"@, "salt"@)->Some_0,
                aead: AeadAlgorithm::ChaCha20Poly1305,
                nonce: nested_str(t, "aead"@, "nonce"@)->Some_0,
                keylen: nested_int(t, "aead"@, "keylen"@)->Some_0 as u32,
                simple_multiple_encryption: nested_str(t, "paranoid"@, "simple_multiple_encryption"@)->Some_0,
                cascading_encryption: nested_str(t, "paranoid"@, "cascading_encryption"@)->Some_0,
            },
        )
    }
}

/// The text of the metadata: what is written beside the ciphertext and bound
/// into it.
pub open spec fn meta_text(m: MetaView) -> Option<Seq<u8>> {
    document_text(meta_tree(m))
}

/// The metadata that the bytes of a sidecar hold.
pub open spec fn text_meta(bytes: Seq<u8>) -> Result<MetaView, Error> {
    match document_of(bytes) {
        Some(t) => tree_meta(t),
        None => Err(Error::Malformed),
    }
}

proof fn reveal_meta_keys()
    ensures
        "version"@.len() == 7,
        "binary_encoding"@.len() == 15,
        "plaintext"@.len() == 9,
        "pbkdf2"@.len() == 6,
        "aead"@.len() == 4,
        "paranoid"@.len() == 8,
        "min_bits"@.len() == 8,
        "algo"@.len() == 4,
        "iters"@.len() == 5,
        "salt"@.len() == 4,
        "nonce"@.len() == 5,
        "keylen"@.len() == 6,
        "simple_multiple_encryption"@.len() == 26,
        "cascading_encryption"@.len() == 20,
        "pbkdf2"@[0] == 'p',
        "keylen"@[0] == 'k',
        "algo"@[0] == 'a',
        "salt"@[0] == 's',
        "aead"@[0] == 'a',
        "aead"@[1] == 'e',
        "algo"@[1] == 'l',
        "iters"@[0] == 'i',
        "nonce"@[0] == 'n',
        "paranoid"@[0] == 'p',
        "min_bits"@[0] == 'm',
        is_plain_key("version"@),
        is_plain_key("binary_encoding"@),
        is_plain_key("plaintext"@),
        is_plain_key("pbkdf2"@),
        is_plain_key("aead"@),
        is_plain_key("paranoid"@),
        is_plain_key("min_bits"@),
        is_plain_key("algo"@),
        is_plain_key("iters"@),
        is_plain_key("salt"@),
        is_plain_key("nonce"@),
        is_plain_key("keylen"@),
        is_plain_key("simple_multiple_encryption"@),
        is_plain_key("cascading_encryption"@),
{
    reveal_strlit("version");
    reveal_strlit("binary_encoding");
    reveal_strlit("plaintext");
    reveal_strlit("pbkdf2");
    reveal_strlit("aead");
    reveal_strlit("paranoid");
    reveal_strlit("min_bits");
    reveal_strlit("algo");
    reveal_strlit("iters");
    reveal_strlit("salt");
    reveal_strlit("nonce");
    reveal_strlit("keylen");
    reveal_strlit("simple_multiple_encryption");
    reveal_strlit("cascading_encryption");
}

/// The document of a metadata record is one of the plain documents.
pub proof fn lemma_meta_tree_is_plain(m: MetaView)
    ensures
        is_plain_document(meta_tree(m)),
{
    reveal_meta_keys();
    let t = meta_tree(m);
    let fields = t->Table_0;
    assert(is_record(fields["plaintext"@]));
    assert(is_record(fields["pbkdf2"@]));
    assert(is_record(fields["aead"@]));
    assert(is_record(fields["paranoid"@]));
    assert(is_leaf(fields["version"@]));
    assert(is_leaf(fields["binary_encoding"@]));
}

/// Reading the document of a metadata record gives the record back.
pub proof fn lemma_meta_tree_round_trip(m: MetaView)
    ensures
        tree_meta(meta_tree(m)) == Ok::<MetaView, Error>(m),
{
    reveal_meta_keys();
    let t = meta_tree(m);
    assert(tree_str(t, "version"@) == Some(m.version));
    assert(tree_str(t, "binary_encoding"@) == Some(encoding_name(m.binary_encoding)));
    assert(nested_int(t, "plaintext"@, "min_bits"@) == Some(m.min_bits as i64));
    assert(nested_str(t, "pbkdf2"@, "algo"@) == Some(kdf_name(m.kdf)));
    assert(nested_int(t, "pbkdf2"@, "iters"@) == Some(m.iters as i64));
    assert(nested_str(t, "pbkdf2"@, "salt"@) == Some(m.salt));
    assert(nested_str(t, "aead"@, "algo"@) == Some(aead_name(m.aead)));
    assert(nested_str(t, "aead"@, "nonce"@) == Some(m.nonce));
    assert(nested_int(t, "aead"@, "keylen"@) == Some(m.keylen as i64));
    assert(nested_str(t, "paranoid"@, "simple_multiple_encryption"@) == Some(m.simple_multiple_encryption));
    assert(nested_str(t, "paranoid"@, "cascading_encryption"@) == Some(m.cascading_encryption));
}

/// Whether a text is the given one.
pub fn text_is(text: &String, wanted: &str) -> (b: bool)
    ensures
        b == (text@ == wanted@),
{
    let other = wanted.to_owned();
    *text == other
}

fn nested_get_str(v: &TomlValue, table: &str, key: &str) -> (r: Option<String>)
    ensures
        match r {
            Some(s) => nested_str(v@, table@, key@) == Some(s@),
            None => nested_str(v@, table@, key@) is None,
        },
{
    match v.get(table) {
        Some(inner) => inner.get_str(key),
        None => None,
    }
}

fn nested_get_int(v: &TomlValue, table: &str, key: &str) -> (r: Option<i64>)
    ensures
        r == nested_int(v@, table@, key@),
{
    match v.get(table) {
        Some(inner) => inner.get_int(key),
        None => None,
    }
}

impl KdfAlgorithm {
    /// The name of the algorithm in the text.
    pub fn name(&self) -> (s: String)
        ensures
            s@ == kdf_name(*self),
    {
        "Sha256".to_owned()
    }
}

impl AeadAlgorithm {
    /// The name of the cipher in the text.
    pub fn name(&self) -> (s: String)
        ensures
            s@ == aead_name(*self),
    {
        "ChaCha20-Poly1305".to_owned()
    }
}

impl BinaryEncoding {
    /// The name of the encoding in the text.
    pub fn name(&self) -> (s: String)
        ensures
            s@ == encoding_name(*self),
    {
        "base64url".to_owned()
    }
}

impl Clone for Meta {
    fn clone(&self) -> (r: Self)
        ensures
            r@ == self@,
    {
        Meta {
            version: self.version.clone(),
            binary_encoding: self.binary_encoding,
            plaintext: Plaintext { min_bits: self.plaintext.min_bits },
            pbkdf2: PBKDF2 {
                algo: self.pbkdf2.algo,
                iters: self.pbkdf2.iters,
                salt: self.pbkdf2.salt.clone(),
            },
            aead: AEAD { algo: self.aead.algo, nonce: self.aead.nonce.clone(), keylen: self.aead.keylen },
            paranoid: Paranoid {
                simple_multiple_encryption: self.paranoid.simple_multiple_encryption.clone(),
                cascading_encryption: self.paranoid.cascading_encryption.clone(),
            },
        }
    }
}

impl Meta {
    /// The document that holds this metadata.
    pub fn to_toml_value(&self) -> (v: TomlValue)
        ensures
            v@ == meta_tree(self@),
            value_fits(v, 2),
    {
        proof {
            lemma_table_map_empty();
            lemma_fits_one_more(0);
            lemma_fits_one_more(1);
        }
        let mut plaintext: Vec<(String, TomlValue)> = Vec::new();
        push_field(&mut plaintext, "min_bits", TomlValue::Int(self.plaintext.min_bits as i64));
        let mut pbkdf2: Vec<(String, TomlValue)> = Vec::new();
        push_field(&mut pbkdf2, "algo", TomlValue::Str(self.pbkdf2.algo.name()));
        push_field(&mut pbkdf2, "iters", TomlValue::Int(self.pbkdf2.iters as i64));
        push_field(&mut pbkdf2, "salt", TomlValue::Str(self.pbkdf2.salt.clone()));
        let mut aead: Vec<(String, TomlValue)> = Vec::new();
        push_field(&mut aead, "algo", TomlValue::Str(self.aead.algo.name()));
        push_field(&mut aead, "nonce", TomlValue::Str(self.aead.nonce.clone()));
        push_field(&mut aead, "keylen", TomlValue::Int(self.aead.keylen as i64));
        let mut paranoid: Vec<(String, TomlValue)> = Vec::new();
        push_field(
            &mut paranoid,
            "simple_multiple_encryption",
            TomlValue::Str(self.paranoid.simple_multiple_encryption.clone()),
        );
        push_field(
            &mut paranoid,
            "cascading_encryption",
            TomlValue::Str(self.paranoid.cascading_encryption.clone()),
        );
        proof {
            lemma_table_tree(plaintext);
            lemma_table_tree(pbkdf2);
            lemma_table_tree(aead);
            lemma_table_tree(paranoid);
            assert(pairs_fit(plaintext@, 0) && pairs_fit(pbkdf2@, 0) && pairs_fit(aead@, 0) && pairs_fit(
                paranoid@,
                0,
            ));
        }
        let mut root: Vec<(String, TomlValue)> = Vec::new();
        push_field(&mut root, "version", TomlValue::Str(self.version.clone()));
        push_field(&mut root, "binary_encoding", TomlValue::Str(self.binary_encoding.name()));
        push_field(&mut root, "plaintext", TomlValue::Table(plaintext));
        push_field(&mut root, "pbkdf2", TomlValue::Table(pbkdf2));
        push_field(&mut root, "aead", TomlValue::Table(aead));
        push_field(&mut root, "paranoid", TomlValue::Table(paranoid));
        proof {
            lemma_table_tree(root);
            assert(pairs_fit(root@, 1));
        }
        TomlValue::Table(root)
    }

    /// The metadata that a document holds.
    pub fn from_toml_value(v: &TomlValue) -> (r: Result<Meta, Error>)
        ensures
            match tree_meta(v@) {
                Ok(m) => r matches Ok(x) && x@ == m,
                Err(e) => r matches Err(x) && x == e,
            },
    {
        let version = v.get_str("version");
        let encoding = v.get_str("binary_encoding");
        let min_bits = nested_get_int(v, "plaintext", "min_bits");
        let kdf = nested_get_str(v, "pbkdf2", "algo");
        let iters = nested_get_int(v, "pbkdf2", "iters");
        let salt = nested_get_str(v, "pbkdf2", "salt");
        let aead = nested_get_str(v, "aead", "algo");
        let nonce = nested_get_str(v, "aead", "nonce");
        let keylen = nested_get_int(v, "aead", "keylen");
        let simple = nested_get_str(v, "paranoid", "simple_multiple_encryption");
        let cascading = nested_get_str(v, "paranoid", "cascading_encryption");
        match (version, encoding, min_bits, kdf, iters, salt, aead, nonce, keylen, simple, cascading) {
            (
                Some(version),
                Some(encoding),
                Some(min_bits),
                Some(kdf),
                Some(iters),
                Some(salt),
                Some(aead),
                Some(nonce),
                Some(keylen),
                Some(simple),
                Some(cascading),
            ) => {
                if min_bits < -2147483648i64 || min_bits > 2147483647i64 || iters < 0 || iters
                    > 4294967295i64 || keylen < 0 || keylen > 4294967295i64 {
                    Err(Error::Malformed)
                } else if !text_is(&encoding, "base64url") {
                    Err(Error::UnsupportedEncoding)
                } else if !text_is(&kdf, "Sha256") {
                    Err(Error::UnsupportedKdf)
                } else if !text_is(&aead, "ChaCha20-Poly1305") {
                    Err(Error::UnsupportedAead)
                } else {
                    Ok(
                        Meta {
                            version,
                            binary_encoding: BinaryEncoding::UrlSafeBase64,
                            plaintext: Plaintext { min_bits: min_bits as i32 },
                            pbkdf2: PBKDF2 { algo: KdfAlgorithm::Sha256, iters: iters as u32, salt },
                            aead: AEAD { algo: AeadAlgorithm::ChaCha20Poly1305, nonce, keylen: keylen as u32 },
                            paranoid: Paranoid {
                                simple_multiple_encryption: simple,
                                cascading_encryption: cascading,
                            },
                        },
                    )
                }
            },
            _ => Err(Error::Malformed),
        }
    }

    /// The text of this metadata. Fails with `Malformed` exactly where the
    /// document has no text. The text that is returned reads back as this
    /// metadata.
    pub fn to_toml_bytes(&self) -> (r: Result<Vec<u8>, Error>)
        ensures
            match meta_text(self@) {
                Some(bytes) => r matches Ok(v) && v@ == bytes && text_meta(bytes) == Ok::<MetaView, Error>(
                    self@,
                ),
                None => r matches Err(e) && e == Error::Malformed,
            },
    {
        let v = self.to_toml_value();
        proof {
            lemma_meta_tree_is_plain(self@);
            lemma_meta_tree_round_trip(self@);
            lemma_fits_deeper(v, 2, MAX_NESTING as nat);
        }
        v.to_bytes()
    }

    /// The metadata that the bytes of a sidecar hold.
    pub fn from_toml_bytes(bytes: &[u8]) -> (r: Result<Meta, Error>)
        ensures
            match text_meta(bytes@) {
                Ok(m) => r matches Ok(x) && x@ == m,
                Err(e) => r matches Err(x) && x == e,
            },
    {
        match TomlValue::from_bytes(bytes) {
            Ok(v) => Meta::from_toml_value(&v),
            Err(_) => Err(Error::Malformed),
        }
    }
}

} // verus!
