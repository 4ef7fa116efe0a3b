//! The entry store: sealed entries, their manifest, the remotes and the
//! ledger of nonces, kept as files of a working tree.
//!
//! Nothing is kept in the clear but the ledger and the metadata sidecars.
//! Every entry, the manifest and the list of remotes are sealed with
//! metadata of their own, under a nonce that is burnt in the ledger first.
//! An operation that fails leaves the tree as it was.

use vstd::prelude::*;
use vstd::string::*;
use crate::crypto::{
    Session, Plaintext, Encrypted, decrypted, encrypted, encrypt, generate_rand_bits, NONCE_BITS,
    NONCE_LEN,
};
use crate::encoding::{encode, decoded, url_safe_base64, is_url_safe_text, MAX_ENCODE_LEN};
use crate::error::Error;
use crate::document::text_views;
use crate::git_creds::{Remote, Remotes, RemoteView, text_remotes, remotes_text, without_name};
use crate::manifest::{
    Entry, EntryRequest, EntryView, Manifest, text_manifest, manifest_text, first_with_path,
    count_with_path,
    without_path, valid_path, entry_views, copy_texts, lemma_first_with_path, lemma_without_path,
    lemma_replaced,
};
use crate::nonce::{burnt, byte_views, parse_ledger, contains_nonce, append_nonce, ledger_with};
use crate::secret_meta::{
    Meta, MetaView, PBKDF2, AEAD, Paranoid, KdfAlgorithm, AeadAlgorithm, BinaryEncoding, text_meta,
    meta_text,
};
use crate::sync::Synchronizer;
use crate::tree::WorkTree;

verus! {

/// The store over the files of its working tree.
#[derive(Debug)]
pub struct DB {
    pub tree: WorkTree,
}

/// The name of the ledger of burnt nonces.
pub open spec fn ledger_name() -> Seq<char> {
    "burnt_nonces"@
}

/// The name under which the manifest is sealed.
pub open spec fn manifest_name() -> Seq<char> {
    "manifest"@
}

/// The name under which the remotes are sealed.
pub open spec fn remotes_name() -> Seq<char> {
    "remotes"@
}

/// The name of the metadata sidecar of a file.
pub open spec fn sidecar(name: Seq<char>) -> Seq<char> {
    name + ".toml"@
}

/// The names that the layout of the store fixes.
pub open spec fn is_reserved_name(name: Seq<char>) -> bool {
    ||| name == ledger_name()
    ||| name == manifest_name()
    ||| name == sidecar(manifest_name())
    ||| name == remotes_name()
    ||| name == sidecar(remotes_name())
}

/// A name under which a sealed file can be kept: neither it nor its sidecar
/// is the ledger.
pub open spec fn is_sealable_name(name: Seq<char>) -> bool {
    name != ledger_name() && sidecar(name) != ledger_name()
}

/// The metadata of the sealed file under `name`.
pub open spec fn meta_at(files: Map<Seq<char>, Seq<u8>>, name: Seq<char>) -> Result<MetaView, Error> {
    if !files.contains_key(name) || !files.contains_key(sidecar(name)) {
        Err(Error::MissingFile)
    } else {
        text_meta(files[sidecar(name)])
    }
}

/// What the sealed file under `name` opens to with the key: `MissingFile`
/// where the file or its sidecar is absent; else the failure of reading the
/// sidecar; else what decryption gives.
pub open spec fn sealed_at(files: Map<Seq<char>, Seq<u8>>, key: Seq<u8>, name: Seq<char>) -> Result<
    Seq<u8>,
    Error,
> {
    match meta_at(files, name) {
        Err(e) => Err(e),
        Ok(m) => decrypted(key, files[name], m),
    }
}

/// The nonces of the ledger, or `MissingFile` where there is no ledger.
pub open spec fn ledger_of(files: Map<Seq<char>, Seq<u8>>) -> Result<Seq<Seq<u8>>, Error> {
    if !files.contains_key(ledger_name()) {
        Err(Error::MissingFile)
    } else {
        burnt(files[ledger_name()])
    }
}

/// The nonce under which the sealed file under `name` was sealed.
pub open spec fn nonce_at(files: Map<Seq<char>, Seq<u8>>, name: Seq<char>) -> Option<Seq<u8>> {
    match meta_at(files, name) {
        Ok(m) => decoded(m.nonce),
        Err(_) => None,
    }
}

/// The rows of the manifest, as the key opens them.
pub open spec fn manifest_of(files: Map<Seq<char>, Seq<u8>>, key: Seq<u8>) -> Result<Seq<EntryView>, Error> {
    match sealed_at(files, key, manifest_name()) {
        Err(e) => Err(e),
        Ok(bytes) => text_manifest(bytes),
    }
}

/// What is stored under a logical path: the failure of reading the manifest;
/// else `NotFound` where no row has the path; else what the file of the first
/// row with the path opens to.
pub open spec fn content_of(files: Map<Seq<char>, Seq<u8>>, key: Seq<u8>, path: Seq<char>) -> Result<
    Seq<u8>,
    Error,
> {
    match manifest_of(files, key) {
        Err(e) => Err(e),
        Ok(rows) => match first_with_path(rows, path) {
            None => Err(Error::NotFound),
            Some(i) => sealed_at(files, key, rows[i].garbled_path),
        },
    }
}

/// The remotes, as the key opens them.
pub open spec fn remotes_of(files: Map<Seq<char>, Seq<u8>>, key: Seq<u8>) -> Result<Seq<RemoteView>, Error> {
    match sealed_at(files, key, remotes_name()) {
        Err(e) => Err(e),
        Ok(bytes) => text_remotes(bytes),
    }
}

/// The names that every change of the remotes writes.
pub open spec fn remotes_files() -> Set<Seq<char>> {
    set![ledger_name(), remotes_name(), sidecar(remotes_name())]
}

/// What holds when the remotes were replaced by `remotes`: they are what the
/// key now opens; one encryption happened, under a new nonce; and no file has
/// changed but the ledger and the two files of the remotes.
pub open spec fn remotes_written(
    before: Map<Seq<char>, Seq<u8>>,
    after: Map<Seq<char>, Seq<u8>>,
    key: Seq<u8>,
    remotes: Seq<RemoteView>,
) -> bool {
    &&& remotes_of(after, key) == Ok::<Seq<RemoteView>, Error>(remotes)
    &&& one_new_nonce(before, after, remotes_name())
    &&& ledger_grew(before, after)
    &&& same_except(after, before, remotes_files())
}

/// Which failure a change of the remotes that fails ends in: that of reading
/// the remotes, else one of sealing.
pub open spec fn remotes_failure(before: Map<Seq<char>, Seq<u8>>, key: Seq<u8>, e: Error) -> bool {
    match remotes_of(before, key) {
        Err(x) => e == x,
        Ok(_) => is_sealing_failure(e),
    }
}

/// The paths that are to be staged after the required files were seen to:
/// the ledger where it was absent; the manifest, its sidecar and the ledger
/// where the manifest was absent; the remotes, their sidecar and the ledger
/// where the remotes were absent.
pub open spec fn staged_for(has_ledger: bool, has_manifest: bool, has_remotes: bool) -> Seq<Seq<char>> {
    (if has_ledger {
        Seq::<Seq<char>>::empty()
    } else {
        seq![ledger_name()]
    }) + (if has_manifest {
        Seq::<Seq<char>>::empty()
    } else {
        seq![manifest_name(), sidecar(manifest_name()), ledger_name()]
    }) + (if has_remotes {
        Seq::<Seq<char>>::empty()
    } else {
        seq![remotes_name(), sidecar(remotes_name()), ledger_name()]
    })
}

/// What holds when the required files were seen to.
///
/// The ledger, the manifest and the remotes are there. A manifest that was
/// absent is now the empty manifest, and remotes that were absent are now no
/// remotes; what was there is untouched, and so is every other file but the
/// ledger. A ledger that was absent starts empty; the ledger has only grown,
/// and it is unchanged where nothing had to be sealed. Each of the two that
/// was absent was sealed under a new nonce, and the ledger is what it was,
/// then the nonce of the manifest where that was sealed, then the nonce of
/// the remotes where they were sealed.
pub open spec fn required_files_ensured(
    before: Map<Seq<char>, Seq<u8>>,
    after: Map<Seq<char>, Seq<u8>>,
    key: Seq<u8>,
) -> bool {
    &&& after.contains_key(ledger_name())
    &&& after.contains_key(manifest_name())
    &&& after.contains_key(remotes_name())
    &&& !before.contains_key(manifest_name()) ==> manifest_of(after, key) == Ok::<Seq<EntryView>, Error>(
        Seq::empty(),
    )
    &&& !before.contains_key(remotes_name()) ==> remotes_of(after, key) == Ok::<Seq<RemoteView>, Error>(
        Seq::empty(),
    )
    &&& same_except(
        after,
        before,
        set![ledger_name()] + (if before.contains_key(manifest_name()) {
            Set::<Seq<char>>::empty()
        } else {
            set![manifest_name(), sidecar(manifest_name())]
        }) + (if before.contains_key(remotes_name()) {
            Set::<Seq<char>>::empty()
        } else {
            set![remotes_name(), sidecar(remotes_name())]
        }),
    )
    &&& before.contains_key(ledger_name()) && before.contains_key(manifest_name()) && before.contains_key(
        remotes_name(),
    ) ==> after == before
    &&& !before.contains_key(manifest_name()) || !before.contains_key(remotes_name()) ==> ledger_grew(
        with_ledger(before),
        after,
    )
    &&& before.contains_key(manifest_name()) && before.contains_key(remotes_name()) ==> after
        == with_ledger(before)
    &&& !before.contains_key(manifest_name()) && !before.contains_key(remotes_name()) ==> two_new_nonces(
        with_ledger(before),
        after,
        manifest_name(),
        remotes_name(),
    )
    &&& !before.contains_key(manifest_name()) && before.contains_key(remotes_name()) ==> one_new_nonce(
        with_ledger(before),
        after,
        manifest_name(),
    )
    &&& before.contains_key(manifest_name()) && !before.contains_key(remotes_name()) ==> one_new_nonce(
        with_ledger(before),
        after,
        remotes_name(),
    )
}

/// The metadata of what is stored under a logical path: that of the file of
/// the first row with the path.
pub open spec fn entry_meta_of(files: Map<Seq<char>, Seq<u8>>, key: Seq<u8>, path: Seq<char>) -> Result<
    MetaView,
    Error,
> {
    match manifest_of(files, key) {
        Err(e) => Err(e),
        Ok(rows) => match first_with_path(rows, path) {
            None => Err(Error::NotFound),
            Some(i) => meta_at(files, rows[i].garbled_path),
        },
    }
}

/// The files with a ledger: as they are where they have one, with an empty
/// one where they have none.
pub open spec fn with_ledger(files: Map<Seq<char>, Seq<u8>>) -> Map<Seq<char>, Seq<u8>> {
    if files.contains_key(ledger_name()) {
        files
    } else {
        files.insert(ledger_name(), Seq::<u8>::empty())
    }
}

/// Whether `a` is the beginning of `b`.
pub open spec fn is_prefix(a: Seq<Seq<u8>>, b: Seq<Seq<u8>>) -> bool {
    a.len() <= b.len() && b.take(a.len() as int) == a
}

/// The ledger of `after` begins with the ledger of `before`.
pub open spec fn ledger_grew(before: Map<Seq<char>, Seq<u8>>, after: Map<Seq<char>, Seq<u8>>) -> bool {
    &&& ledger_of(before) matches Ok(l0)
    &&& ledger_of(after) matches Ok(l1)
    &&& is_prefix(l0, l1)
}

/// How often a nonce or a name is drawn before the search is given up.
pub const MAX_ATTEMPTS: u32 = 10;

/// The files after `data` was sealed under `name` with the metadata: the
/// ciphertext under the name and the text of the metadata under the name of
/// its sidecar; or the failure of the encryption.
pub open spec fn sealed_into(
    files: Map<Seq<char>, Seq<u8>>,
    key: Seq<u8>,
    name: Seq<char>,
    data: Seq<u8>,
    m: MetaView,
) -> Result<Map<Seq<char>, Seq<u8>>, Error> {
    match encrypted(key, data, m) {
        Err(e) => Err(e),
        Ok(sealed) => match meta_text(m) {
            None => Err(Error::Malformed),
            Some(text) => Ok(files.insert(name, sealed).insert(sidecar(name), text)),
        },
    }
}

/// What holds of metadata that was drawn for one new encryption: its salt and
/// its nonce are the text forms of twelve bytes each, the rest is the default;
/// the nonce was not in the ledger, and the files are what they were with that
/// nonce burnt.
pub open spec fn is_drawn_meta(
    before: Map<Seq<char>, Seq<u8>>,
    after: Map<Seq<char>, Seq<u8>>,
    m: MetaView,
) -> bool {
    &&& decoded(m.salt) matches Some(salt)
    &&& decoded(m.nonce) matches Some(nonce)
    &&& salt.len() == 12
    &&& nonce.len() == NONCE_LEN
    &&& m == secure_meta_view(salt, nonce)
    &&& ledger_of(before) matches Ok(l0)
    &&& !l0.contains(nonce)
    &&& ledger_of(after) == Ok::<Seq<Seq<u8>>, Error>(l0.push(nonce))
    &&& after == with_burnt(before, nonce)
}

/// The files after the rows were sealed as the manifest with the metadata,
/// or the failure: `Malformed` where the rows have no text, else that of the
/// encryption.
pub open spec fn manifest_into(
    files: Map<Seq<char>, Seq<u8>>,
    key: Seq<u8>,
    rows: Seq<EntryView>,
    m: MetaView,
) -> Result<Map<Seq<char>, Seq<u8>>, Error> {
    match manifest_text(rows) {
        None => Err(Error::Malformed),
        Some(bytes) => sealed_into(files, key, manifest_name(), bytes, m),
    }
}

/// The files after the remotes were sealed with the metadata, or the
/// failure: `Malformed` where the remotes have no text, else that of the
/// encryption.
pub open spec fn remotes_into(
    files: Map<Seq<char>, Seq<u8>>,
    key: Seq<u8>,
    remotes: Seq<RemoteView>,
    m: MetaView,
) -> Result<Map<Seq<char>, Seq<u8>>, Error> {
    match remotes_text(remotes) {
        None => Err(Error::Malformed),
        Some(bytes) => sealed_into(files, key, remotes_name(), bytes, m),
    }
}

/// Whether a nonce of the cipher's length is among the nonces: only then can
/// a candidate collide.
pub open spec fn holds_a_nonce(nonces: Seq<Seq<u8>>) -> bool {
    exists|i: int| 0 <= i < nonces.len() && (#[trigger] nonces[i]).len() == NONCE_LEN
}

/// Whether some twelve bytes give a name that cannot be used: only then can
/// a candidate be thrown away.
pub open spec fn has_unusable_name(files: Map<Seq<char>, Seq<u8>>) -> bool {
    exists|bits: Seq<u8>| bits.len() == 12 && !is_usable_name(files, #[trigger] url_safe_base64(bits))
}

/// A name under which a new sealed file can be written: neither it nor the
/// name of its sidecar is reserved or taken.
pub open spec fn is_usable_name(files: Map<Seq<char>, Seq<u8>>, name: Seq<char>) -> bool {
    &&& !is_reserved_name(name)
    &&& !is_reserved_name(sidecar(name))
    &&& !files.contains_key(name)
    &&& !files.contains_key(sidecar(name))
}

/// One encryption happened: the file under `name` is sealed under a nonce of
/// twelve bytes that was not in the ledger, and the ledger is what it was,
/// then that nonce.
pub open spec fn one_new_nonce(
    before: Map<Seq<char>, Seq<u8>>,
    after: Map<Seq<char>, Seq<u8>>,
    name: Seq<char>,
) -> bool {
    &&& ledger_of(before) matches Ok(l0)
    &&& nonce_at(after, name) matches Some(nonce)
    &&& nonce.len() == NONCE_LEN
    &&& !l0.contains(nonce)
    &&& ledger_of(after) == Ok::<Seq<Seq<u8>>, Error>(l0.push(nonce))
}

/// Two encryptions happened: the files under `first` and `second` are sealed
/// under two different nonces of twelve bytes that were not in the ledger,
/// and the ledger is what it was, then the one nonce, then the other.
pub open spec fn two_new_nonces(
    before: Map<Seq<char>, Seq<u8>>,
    after: Map<Seq<char>, Seq<u8>>,
    first: Seq<char>,
    second: Seq<char>,
) -> bool {
    &&& ledger_of(before) matches Ok(l0)
    &&& nonce_at(after, first) matches Some(n1)
    &&& nonce_at(after, second) matches Some(n2)
    &&& n1.len() == NONCE_LEN
    &&& n2.len() == NONCE_LEN
    &&& n1 != n2
    &&& !l0.contains(n1)
    &&& !l0.contains(n2)
    &&& ledger_of(after) == Ok::<Seq<Seq<u8>>, Error>(l0.push(n1).push(n2))
}

/// The names of the files of a row: the sealed file and its sidecar.
pub open spec fn row_files(garbled_path: Seq<char>) -> Set<Seq<char>> {
    set![garbled_path, sidecar(garbled_path)]
}

/// The names that every change of the manifest writes.
pub open spec fn manifest_files() -> Set<Seq<char>> {
    set![ledger_name(), manifest_name(), sidecar(manifest_name())]
}

/// The files of the row with the path, where the rows have one.
pub open spec fn replaced_files(rows: Seq<EntryView>, path: Seq<char>) -> Set<Seq<char>> {
    match first_with_path(rows, path) {
        Some(i) => row_files(rows[i].garbled_path),
        None => Set::empty(),
    }
}

/// A name of the kind under which entries are kept: the text form of
/// twelve bytes.
pub open spec fn is_obfuscated_name(name: Seq<char>) -> bool {
    exists|bits: Seq<u8>| bits.len() == 12 && name == #[trigger] url_safe_base64(bits)
}

/// The files of a row were there under names that are not reserved, and are
/// there no longer.
pub open spec fn row_is_deleted(
    before: Map<Seq<char>, Seq<u8>>,
    after: Map<Seq<char>, Seq<u8>>,
    garbled_path: Seq<char>,
) -> bool {
    &&& !is_reserved_name(garbled_path)
    &&& !is_reserved_name(sidecar(garbled_path))
    &&& before.contains_key(garbled_path)
    &&& before.contains_key(sidecar(garbled_path))
    &&& !after.contains_key(garbled_path)
    &&& !after.contains_key(sidecar(garbled_path))
}

/// What holds when `data` was put under `path`.
///
/// The manifest held at most one row with the path; the files of that row
/// were there under names that are not reserved, and are deleted. The
/// manifest now holds its other rows in their order, then one new row with
/// the path and the tags. The file of the new row has a name that is the text
/// form of twelve bytes, that is not reserved and that no file had, nor its
/// sidecar; it opens to the data, and so does the path. Two encryptions
/// happened, that of the data and that of the manifest, under two new
/// nonces. No file has changed but the ledger, the manifest, the files of the
/// new row and those of the row that was replaced.
pub open spec fn put_done(
    before: Map<Seq<char>, Seq<u8>>,
    after: Map<Seq<char>, Seq<u8>>,
    key: Seq<u8>,
    path: Seq<char>,
    tags: Seq<Seq<char>>,
    data: Seq<u8>,
) -> bool {
    &&& valid_path(path)
    &&& manifest_of(before, key) matches Ok(old_rows)
    &&& count_with_path(old_rows, path) <= 1
    &&& first_with_path(old_rows, path) matches Some(i) ==> row_is_deleted(
        before,
        after,
        old_rows[i].garbled_path,
    )
    &&& manifest_of(after, key) matches Ok(new_rows)
    &&& new_rows.len() > 0
    &&& new_rows.drop_last() == without_path(old_rows, path)
    &&& new_rows.last().path == path
    &&& new_rows.last().tags == tags
    &&& count_with_path(new_rows, path) == 1
    &&& !is_reserved_name(new_rows.last().garbled_path)
    &&& !is_reserved_name(sidecar(new_rows.last().garbled_path))
    &&& after.contains_key(new_rows.last().garbled_path)
    &&& after.contains_key(sidecar(new_rows.last().garbled_path))
    &&& is_obfuscated_name(new_rows.last().garbled_path)
    &&& !before.contains_key(new_rows.last().garbled_path)
    &&& !before.contains_key(sidecar(new_rows.last().garbled_path))
    &&& sealed_at(after, key, new_rows.last().garbled_path) == Ok::<Seq<u8>, Error>(data)
    &&& content_of(after, key, path) == Ok::<Seq<u8>, Error>(data)
    &&& two_new_nonces(before, after, new_rows.last().garbled_path, manifest_name())
    &&& ledger_grew(before, after)
    &&& same_except(
        after,
        before,
        manifest_files() + row_files(new_rows.last().garbled_path) + replaced_files(old_rows, path),
    )
}

/// What holds when the entry under `path` was removed.
///
/// The manifest held exactly one row with the path, and the files of that row
/// were there under names that are not reserved. The manifest now holds its
/// other rows in their order, the two files are gone, and the path is not
/// found. One encryption happened, that
/// of the manifest, under a new nonce. No file has changed but the ledger,
/// the manifest and the two files.
pub open spec fn rm_done(
    before: Map<Seq<char>, Seq<u8>>,
    after: Map<Seq<char>, Seq<u8>>,
    key: Seq<u8>,
    path: Seq<char>,
) -> bool {
    &&& manifest_of(before, key) matches Ok(old_rows)
    &&& count_with_path(old_rows, path) == 1
    &&& first_with_path(old_rows, path) matches Some(i)
    &&& row_is_deleted(before, after, old_rows[i].garbled_path)
    &&& manifest_of(after, key) == Ok::<Seq<EntryView>, Error>(without_path(old_rows, path))
    &&& content_of(after, key, path) == Err::<Seq<u8>, Error>(Error::NotFound)
    &&& one_new_nonce(before, after, manifest_name())
    &&& ledger_grew(before, after)
    &&& same_except(after, before, manifest_files() + row_files(old_rows[i].garbled_path))
}

/// The failures that sealing a file in the store can end in, whatever is
/// sealed: those of the ledger and of the random source, and that of an input
/// beyond the cipher's or the key derivation's limits.
pub open spec fn is_sealing_failure(e: Error) -> bool {
    ||| e == Error::MissingFile
    ||| e == Error::BadEncoding
    ||| e == Error::RandomSource
    ||| e == Error::NonceExhausted
    ||| e == Error::NameExhausted
    ||| e == Error::InputTooLong
    ||| e == Error::Malformed
}

/// What stands against a `put` before anything is drawn.
///
/// An invalid path fails as such. Else a manifest that cannot be read fails
/// with its failure. Else more than one row with the path is a
/// `DuplicateEntry`; a row with the path whose file has a reserved name is
/// `Malformed`, and one whose file or sidecar is absent is a `MissingFile`.
pub open spec fn put_check(files: Map<Seq<char>, Seq<u8>>, key: Seq<u8>, path: Seq<char>) -> Result<(), Error> {
    if !valid_path(path) {
        Err(Error::InvalidPath)
    } else {
        match manifest_of(files, key) {
            Err(x) => Err(x),
            Ok(rows) => if count_with_path(rows, path) > 1 {
                Err(Error::DuplicateEntry)
            } else {
                match first_with_path(rows, path) {
                    None => Ok(()),
                    Some(i) => if is_reserved_name(rows[i].garbled_path) || is_reserved_name(
                        sidecar(rows[i].garbled_path),
                    ) {
                        Err(Error::Malformed)
                    } else if !files.contains_key(rows[i].garbled_path) || !files.contains_key(
                        sidecar(rows[i].garbled_path),
                    ) {
                        Err(Error::MissingFile)
                    } else {
                        Ok(())
                    },
                }
            },
        }
    }
}

/// The files without those of the row with the path, where the rows have
/// one.
pub open spec fn without_row_files(
    files: Map<Seq<char>, Seq<u8>>,
    rows: Seq<EntryView>,
    path: Seq<char>,
) -> Map<Seq<char>, Seq<u8>> {
    match first_with_path(rows, path) {
        Some(i) => files.remove(rows[i].garbled_path).remove(sidecar(rows[i].garbled_path)),
        None => files,
    }
}

/// What a `put` leaves behind for a given name and given metadata: the
/// failure of the check; else the files without those of the replaced row,
/// with the data sealed under the name with the one metadata, and with the
/// manifest, its other rows and then the new row, sealed with the other; or
/// the failure of the first of these steps that fails.
pub open spec fn put_result(
    files: Map<Seq<char>, Seq<u8>>,
    key: Seq<u8>,
    path: Seq<char>,
    tags: Seq<Seq<char>>,
    data: Seq<u8>,
    name: Seq<char>,
    data_meta: MetaView,
    manifest_meta: MetaView,
) -> Result<Map<Seq<char>, Seq<u8>>, Error> {
    match put_check(files, key, path) {
        Err(e) => Err(e),
        Ok(_) => {
            let rows = manifest_of(files, key)->Ok_0;
            match sealed_into(without_row_files(files, rows, path), key, name, data, data_meta) {
                Err(e) => Err(e),
                Ok(written) => manifest_into(
                    written,
                    key,
                    without_path(rows, path).push(EntryView { path, tags, garbled_path: name }),
                    manifest_meta,
                ),
            }
        },
    }
}

/// What stands against an `rm` before anything is drawn.
///
/// A manifest that cannot be read fails with its failure. Else no row with
/// the path is `NotFound` and more than one is a `DuplicateEntry`. Else a row
/// whose file has a reserved name is `Malformed` and one whose file or sidecar
/// is absent is a `MissingFile`.
pub open spec fn rm_check(files: Map<Seq<char>, Seq<u8>>, key: Seq<u8>, path: Seq<char>) -> Result<(), Error> {
    match manifest_of(files, key) {
        Err(x) => Err(x),
        Ok(rows) => if count_with_path(rows, path) == 0 {
            Err(Error::NotFound)
        } else if count_with_path(rows, path) > 1 {
            Err(Error::DuplicateEntry)
        } else {
            let g = rows[first_with_path(rows, path)->Some_0].garbled_path;
            if is_reserved_name(g) || is_reserved_name(sidecar(g)) {
                Err(Error::Malformed)
            } else if !files.contains_key(g) || !files.contains_key(sidecar(g)) {
                Err(Error::MissingFile)
            } else {
                Ok(())
            }
        },
    }
}

/// What an `rm` leaves behind for given metadata: the failure of the check;
/// else the files without those of the row, with the manifest without the
/// row sealed with the metadata; or the failure of sealing it.
pub open spec fn rm_result(
    files: Map<Seq<char>, Seq<u8>>,
    key: Seq<u8>,
    path: Seq<char>,
    manifest_meta: MetaView,
) -> Result<Map<Seq<char>, Seq<u8>>, Error> {
    match rm_check(files, key, path) {
        Err(e) => Err(e),
        Ok(_) => {
            let rows = manifest_of(files, key)->Ok_0;
            manifest_into(without_row_files(files, rows, path), key, without_path(rows, path), manifest_meta)
        },
    }
}

/// Which failure a `put` that fails ends in: what stands against it before
/// anything is drawn, else a failure of sealing.
pub open spec fn put_failure(before: Map<Seq<char>, Seq<u8>>, key: Seq<u8>, path: Seq<char>, e: Error) -> bool {
    match put_check(before, key, path) {
        Err(x) => e == x,
        Ok(_) => is_sealing_failure(e),
    }
}

/// Which failure an `rm` that fails ends in: what stands against it before
/// anything is drawn, else a failure of sealing.
pub open spec fn rm_failure(before: Map<Seq<char>, Seq<u8>>, key: Seq<u8>, path: Seq<char>, e: Error) -> bool {
    match rm_check(before, key, path) {
        Err(x) => e == x,
        Ok(_) => is_sealing_failure(e),
    }
}

/// The two maps agree on every name outside `names`.
pub open spec fn same_except(
    a: Map<Seq<char>, Seq<u8>>,
    b: Map<Seq<char>, Seq<u8>>,
    names: Set<Seq<char>>,
) -> bool {
    forall|n: Seq<char>|
        !names.contains(n) ==> (#[trigger] a.contains_key(n) == b.contains_key(n)) && (a.contains_key(n)
            ==> a[n] == b[n])
}

/// The files after a nonce was burnt: the ledger has one more line.
pub open spec fn with_burnt(files: Map<Seq<char>, Seq<u8>>, nonce: Seq<u8>) -> Map<Seq<char>, Seq<u8>> {
    files.insert(ledger_name(), ledger_with(files[ledger_name()], nonce))
}

/// The metadata that every new encryption starts from: the schema version,
/// 100000 iterations of the key derivation, a key of 256 bits, and no salt
/// and no nonce yet.
pub open spec fn default_meta_view() -> MetaView {
    MetaView {
        version: "0.0.1"@,
        binary_encoding: BinaryEncoding::UrlSafeBase64,
        min_bits: 1024,
        kdf: KdfAlgorithm::Sha256,
        iters: 100_000,
        salt: Seq::<char>::empty(),
        aead: AeadAlgorithm::ChaCha20Poly1305,
        nonce: Seq::<char>::empty(),
        keylen: 256,
        simple_multiple_encryption: "none"@,
        cascading_encryption: "none"@,
    }
}

/// The metadata of a new encryption with the given salt and nonce.
pub open spec fn secure_meta_view(salt: Seq<u8>, nonce: Seq<u8>) -> MetaView {
    MetaView { salt: url_safe_base64(salt), nonce: url_safe_base64(nonce), ..default_meta_view() }
}

/// The name of the sidecar of a file.
pub fn sidecar_name(name: &str) -> (s: String)
    ensures
        s@ == sidecar(name@),
{
    let mut s = name.to_owned();
    s.append(".toml");
    s
}

/// Adds a text behind the others.
fn push_text(texts: &mut Vec<String>, text: &str)
    ensures
        text_views(final(texts)@) == text_views(old(texts)@).push(text@),
{
    let owned = text.to_owned();
    proof {
        assert(text_views(texts@.push(owned)) =~= text_views(texts@).push(text@));
    }
    texts.push(owned);
}

proof fn reveal_names()
    ensures
        "burnt_nonces"@.len() == 12,
        "manifest"@.len() == 8,
        "remotes"@.len() == 7,
        ".toml"@.len() == 5,
        "burnt_nonces"@[11] == 's',
        "burnt_nonces"@[10] == 'e',
        "burnt_nonces"@[0] == 'b',
        "burnt_nonces"@[7] == 'o',
        "burnt_nonces"@[6] == 'n',
        ".toml"@[4] == 'l',
        ".toml"@[0] == '.',
        ".toml"@[3] == 'm',
        "manifest"@[0] == 'm',
        "manifest"@[7] == 't',
        "remotes"@[0] == 'r',
        "remotes"@[6] == 's',
{
    reveal_strlit("burnt_nonces");
    reveal_strlit("manifest");
    reveal_strlit("remotes");
    reveal_strlit(".toml");
}

/// The fixed names differ from one another, and no sidecar is the ledger's
/// name unless it is a sidecar of a name of seven characters.
pub proof fn lemma_fixed_names()
    ensures
        is_sealable_name(manifest_name()),
        is_sealable_name(remotes_name()),
        manifest_name() != remotes_name(),
        manifest_name() != sidecar(remotes_name()),
        remotes_name() != sidecar(manifest_name()),
        sidecar(manifest_name()) != sidecar(remotes_name()),
        forall|name: Seq<char>| #[trigger] sidecar(name) != name,
        forall|name: Seq<char>| name.len() != 7 ==> #[trigger] sidecar(name) != ledger_name(),
{
    reveal_names();
    assert(sidecar(manifest_name()).len() == 13);
    assert(sidecar(remotes_name()).len() == 12);
    assert(sidecar(remotes_name())[11] == 'l');
    assert(sidecar(remotes_name())[0] == 'r');
    assert forall|name: Seq<char>| #[trigger] sidecar(name) != name by {
        assert(sidecar(name).len() == name.len() + 5);
    }
    assert forall|name: Seq<char>| name.len() != 7 implies #[trigger] sidecar(name) != ledger_name() by {
        assert(sidecar(name).len() == name.len() + 5);
    }
}

impl Meta {
    /// The metadata that every new encryption starts from.
    pub fn default_meta() -> (m: Meta)
        ensures
            m@ == default_meta_view(),
    {
        Meta {
            version: "0.0.1".to_owned(),
            binary_encoding: BinaryEncoding::UrlSafeBase64,
            plaintext: crate::secret_meta::Plaintext { min_bits: 1024 },
            pbkdf2: PBKDF2 { algo: KdfAlgorithm::Sha256, iters: 100_000, salt: String::new() },
            aead: AEAD { algo: AeadAlgorithm::ChaCha20Poly1305, nonce: String::new(), keylen: 256 },
            paranoid: Paranoid {
                simple_multiple_encryption: "none".to_owned(),
                cascading_encryption: "none".to_owned(),
            },
        }
    }

    /// The metadata of a new encryption with the given salt and nonce: the
    /// defaults, with the text forms of the two.
    pub fn secure_meta(salt: &[u8], nonce: &[u8]) -> (m: Meta)
        requires
            salt@.len() <= MAX_ENCODE_LEN,
            nonce@.len() <= MAX_ENCODE_LEN,
        ensures
            m@ == secure_meta_view(salt@, nonce@),
            decoded(m@.salt) == Some(salt@),
            decoded(m@.nonce) == Some(nonce@),
    {
        let defaults = Meta::default_meta();
        Meta {
            version: defaults.version,
            binary_encoding: defaults.binary_encoding,
            plaintext: defaults.plaintext,
            pbkdf2: PBKDF2 { algo: defaults.pbkdf2.algo, iters: defaults.pbkdf2.iters, salt: encode(salt) },
            aead: AEAD { algo: defaults.aead.algo, nonce: encode(nonce), keylen: defaults.aead.keylen },
            paranoid: defaults.paranoid,
        }
    }

    /// Metadata for one new encryption in the store: a random salt, and a
    /// random nonce that was not in the ledger and now is.
    ///
    /// A salt of 96 bits is drawn, then a nonce as `generate_nonce` draws it;
    /// the metadata is `secure_meta` of the two. On success the ledger has
    /// grown by that nonce and nothing else has changed. On failure nothing
    /// has changed. The failures are those of `generate_nonce` and that of
    /// the random source.
    pub fn generate_secure_meta(db: &mut DB) -> (r: Result<Meta, Error>)
        requires
            old(db).wf(),
        ensures
            final(db).wf(),
            match r {
                Ok(m) => is_drawn_meta(old(db).tree@, final(db).tree@, m@),
                Err(e) => final(db).tree@ == old(db).tree@ && (e == Error::MissingFile || e
                    == Error::BadEncoding || e == Error::RandomSource || e == Error::NonceExhausted),
            },
    {
        let salt = match generate_rand_bits(96) {
            Ok(salt) => salt,
            Err(_) => {
                return Err(Error::RandomSource);
            },
        };
        let nonce = match db.generate_nonce() {
            Ok(nonce) => nonce,
            Err(e) => {
                return Err(e);
            },
        };
        Ok(Meta::secure_meta(salt.as_slice(), nonce.as_slice()))
    }
}

impl DB {
    /// No file name occurs twice in the tree.
    pub open spec fn wf(&self) -> bool {
        self.tree.wf()
    }

    /// The nonces that are burnt, in the order in which they were burnt.
    /// Fails with `MissingFile` where there is no ledger and with
    /// `BadEncoding` where a line of it is not the text form of bytes.
    pub fn burnt_nonces(&self) -> (r: Result<Vec<Vec<u8>>, Error>)
        requires
            self.wf(),
        ensures
            match ledger_of(self.tree@) {
                Ok(nonces) => r matches Ok(v) && byte_views(v@) == nonces,
                Err(e) => r matches Err(x) && x == e,
            },
    {
        match self.tree.get("burnt_nonces") {
            Some(ledger) => parse_ledger(ledger.as_slice()),
            None => Err(Error::MissingFile),
        }
    }

    /// Burns a nonce: appends it to the ledger unless it is there already.
    ///
    /// Fails, and changes nothing, where the ledger cannot be read, where the
    /// nonce is longer than a text form can be made for (`InputTooLong`), and
    /// where the nonce is in the ledger already (`NonceAlreadyBurnt`).
    pub fn burn_nonce(&mut self, nonce: &[u8]) -> (r: Result<(), Error>)
        requires
            old(self).wf(),
        ensures
            final(self).wf(),
            match ledger_of(old(self).tree@) {
                Err(e) => r == Err::<(), Error>(e) && final(self).tree@ == old(self).tree@,
                Ok(before) => if nonce@.len() > MAX_ENCODE_LEN {
                    r == Err::<(), Error>(Error::InputTooLong) && final(self).tree@ == old(self).tree@
                } else if before.contains(nonce@) {
                    r == Err::<(), Error>(Error::NonceAlreadyBurnt) && final(self).tree@ == old(self).tree@
                } else {
                    &&& r is Ok
                    &&& final(self).tree@ == with_burnt(old(self).tree@, nonce@)
                    &&& ledger_of(final(self).tree@) == Ok::<Seq<Seq<u8>>, Error>(before.push(nonce@))
                },
            },
    {
        let before = match self.burnt_nonces() {
            Ok(before) => before,
            Err(e) => {
                return Err(e);
            },
        };
        if nonce.len() > MAX_ENCODE_LEN {
            return Err(Error::InputTooLong);
        }
        if contains_nonce(&before, nonce) {
            return Err(Error::NonceAlreadyBurnt);
        }
        let updated = match self.tree.get("burnt_nonces") {
            Some(ledger) => append_nonce(ledger.as_slice(), nonce),
            None => {
                return Err(Error::MissingFile);
            },
        };
        self.tree.put("burnt_nonces", updated);
        Ok(())
    }

    /// The sealed file under `name` with its metadata, as they are stored.
    /// Fails with `MissingFile` where the file or its sidecar is absent, else
    /// with the failure of reading the sidecar.
    pub fn read(&self, name: &str) -> (r: Result<Encrypted, Error>)
        requires
            self.wf(),
        ensures
            match meta_at(self.tree@, name@) {
                Ok(m) => r matches Ok(e) && e.meta@ == m && e.data@ == self.tree@[name@],
                Err(e) => r matches Err(x) && x == e,
            },
    {
        let data = match self.tree.get(name) {
            Some(data) => data,
            None => {
                return Err(Error::MissingFile);
            },
        };
        let side = sidecar_name(name);
        let meta_bytes = match self.tree.get(side.as_str()) {
            Some(bytes) => bytes,
            None => {
                return Err(Error::MissingFile);
            },
        };
        match Meta::from_toml_bytes(meta_bytes.as_slice()) {
            Ok(meta) => Ok(Encrypted { data: crate::tree::copy_bytes(data.as_slice()), meta }),
            Err(e) => Err(e),
        }
    }

    /// What the sealed file under `name` opens to in the session.
    pub fn open(&self, name: &str, sess: &Session) -> (r: Result<Plaintext, Error>)
        requires
            self.wf(),
        ensures
            match sealed_at(self.tree@, sess.master_key@, name@) {
                Ok(data) => r matches Ok(p) && p.data@ == data && meta_at(self.tree@, name@) == Ok::<
                    MetaView,
                    Error,
                >(p.meta@),
                Err(e) => r matches Err(x) && x == e,
            },
    {
        match self.read(name) {
            Ok(sealed) => sealed.decrypt(sess),
            Err(e) => Err(e),
        }
    }

    /// The ciphertext of `data` under the session's key and the metadata, and
    /// the text of the metadata: the two files of a sealed entry.
    pub fn seal_with(data: &[u8], sess: &Session, meta: &Meta) -> (r: Result<(Vec<u8>, Vec<u8>), Error>)
        ensures
            match encrypted(sess.master_key@, data@, meta@) {
                Ok(sealed) => {
                    &&& r matches Ok(pair)
                    &&& pair.0@ == sealed
                    &&& meta_text(meta@) == Some(pair.1@)
                    &&& text_meta(pair.1@) == Ok::<MetaView, Error>(meta@)
                    &&& decrypted(sess.master_key@, sealed, meta@) == Ok::<Seq<u8>, Error>(data@)
                },
                Err(e) => r matches Err(x) && x == e,
            },
    {
        let sealed = match encrypt(sess.master_key.as_slice(), data, meta) {
            Ok(sealed) => sealed,
            Err(e) => {
                return Err(e);
            },
        };
        match meta.to_toml_bytes() {
            Ok(text) => Ok((sealed, text)),
            Err(e) => Err(e),
        }
    }

    /// Seals `data` in the session with the given metadata and writes the
    /// ciphertext under `name` and the text of the metadata under the name of
    /// its sidecar. Where the encryption fails, the failure is returned and
    /// nothing is written.
    pub fn write_sealed_with(&mut self, name: &str, data: &[u8], sess: &Session, meta: &Meta) -> (r: Result<
        (),
        Error,
    >)
        requires
            old(self).wf(),
        ensures
            final(self).wf(),
            match sealed_into(old(self).tree@, sess.master_key@, name@, data@, meta@) {
                Ok(after) => {
                    &&& r is Ok
                    &&& final(self).tree@ == after
                    &&& meta_at(final(self).tree@, name@) == Ok::<MetaView, Error>(meta@)
                    &&& sealed_at(final(self).tree@, sess.master_key@, name@) == Ok::<Seq<u8>, Error>(data@)
                },
                Err(e) => r == Err::<(), Error>(e) && final(self).tree@ == old(self).tree@,
            },
    {
        let (sealed, text) = match DB::seal_with(data, sess, meta) {
            Ok(pair) => pair,
            Err(e) => {
                return Err(e);
            },
        };
        let side = sidecar_name(name);
        proof {
            lemma_fixed_names();
        }
        self.tree.put(name, sealed);
        self.tree.put(side.as_str(), text);
        Ok(())
    }

    /// The manifest, as the session opens it.
    pub fn manifest(&self, sess: &Session) -> (r: Result<Manifest, Error>)
        requires
            self.wf(),
        ensures
            match manifest_of(self.tree@, sess.master_key@) {
                Ok(rows) => r matches Ok(m) && m@ == rows,
                Err(e) => r matches Err(x) && x == e,
            },
    {
        match self.open("manifest", sess) {
            Ok(plain) => Manifest::from_toml_bytes(plain.data.as_slice()),
            Err(e) => Err(e),
        }
    }

    /// The rows of the manifest in the order in which they are stored: the
    /// order in which they were added.
    pub fn list(&self, sess: &Session) -> (r: Result<Vec<Entry>, Error>)
        requires
            self.wf(),
        ensures
            match manifest_of(self.tree@, sess.master_key@) {
                Ok(rows) => r matches Ok(v) && entry_views(v@) == rows,
                Err(e) => r matches Err(x) && x == e,
            },
    {
        match self.manifest(sess) {
            Ok(m) => Ok(m.entries),
            Err(e) => Err(e),
        }
    }

    /// What is stored under a logical path, opened in the session.
    ///
    /// Where no row of the manifest has the path the failure is `NotFound`,
    /// which nothing else ends in: a manifest or a file that does not open
    /// fails with `Authentication`, a file that is absent with `MissingFile`.
    pub fn get(&self, path: &str, sess: &Session) -> (r: Result<Plaintext, Error>)
        requires
            self.wf(),
        ensures
            match content_of(self.tree@, sess.master_key@, path@) {
                Ok(data) => r matches Ok(p) && p.data@ == data && entry_meta_of(
                    self.tree@,
                    sess.master_key@,
                    path@,
                ) == Ok::<MetaView, Error>(p.meta@),
                Err(e) => r matches Err(x) && x == e,
            },
    {
        let manifest = match self.manifest(sess) {
            Ok(m) => m,
            Err(e) => {
                return Err(e);
            },
        };
        match manifest.find(path) {
            Some(i) => self.open(manifest.entries[i].garbled_path.as_str(), sess),
            None => Err(Error::NotFound),
        }
    }

    /// Whether the name is one that the layout of the store fixes.
    pub fn is_reserved(name: &str) -> (b: bool)
        ensures
            b == is_reserved_name(name@),
    {
        let owned = name.to_owned();
        let manifest_side = sidecar_name("manifest");
        let remotes_side = sidecar_name("remotes");
        crate::secret_meta::text_is(&owned, "burnt_nonces") || crate::secret_meta::text_is(&owned, "manifest")
            || owned == manifest_side || crate::secret_meta::text_is(&owned, "remotes") || owned
            == remotes_side
    }

    /// One step of the search for a name: the name that the candidate bytes
    /// give is the text form of the bytes.
    ///
    /// Where the name is usable it is returned. Where it is not, the search
    /// goes on with `None` unless this was the last attempt, which fails with
    /// `NameExhausted`. Bytes too long for a text form fail with
    /// `InputTooLong`.
    pub fn try_name(&self, attempt: u32, candidate: &[u8]) -> (r: Result<Option<String>, Error>)
        requires
            self.wf(),
        ensures
            if candidate@.len() > MAX_ENCODE_LEN {
                r matches Err(e) && e == Error::InputTooLong
            } else if is_usable_name(self.tree@, url_safe_base64(candidate@)) {
                r matches Ok(Some(name)) && name@ == url_safe_base64(candidate@) && is_url_safe_text(name@)
            } else if attempt + 1 < MAX_ATTEMPTS {
                r matches Ok(None)
            } else {
                r matches Err(e) && e == Error::NameExhausted
            },
    {
        if candidate.len() > MAX_ENCODE_LEN {
            return Err(Error::InputTooLong);
        }
        let name = encode(candidate);
        let side = sidecar_name(name.as_str());
        if !DB::is_reserved(name.as_str()) && !DB::is_reserved(side.as_str()) && !self.tree.contains(
            name.as_str(),
        ) && !self.tree.contains(side.as_str()) {
            Ok(Some(name))
        } else if attempt < MAX_ATTEMPTS - 1 {
            Ok(None)
        } else {
            Err(Error::NameExhausted)
        }
    }

    /// A random name under which a new sealed file can be written: the text
    /// form of 96 random bits, which has nothing of the logical path in it.
    /// Neither the name nor the name of its sidecar is in the tree or
    /// reserved.
    ///
    /// Candidates of 96 bits are drawn and handed to `try_name`, which
    /// decides: the first that gives a usable name is taken, and after ten
    /// that do not the failure is `NameExhausted`, which nothing else ends
    /// in. The only other failure is that of the random source.
    pub fn fresh_name(&self) -> (r: Result<String, Error>)
        requires
            self.wf(),
        ensures
            match r {
                Ok(name) => {
                    &&& !self.tree@.contains_key(name@)
                    &&& !self.tree@.contains_key(sidecar(name@))
                    &&& !is_reserved_name(name@)
                    &&& !is_reserved_name(sidecar(name@))
                    &&& is_url_safe_text(name@)
                    &&& is_obfuscated_name(name@)
                },
                Err(e) => e == Error::RandomSource || (e == Error::NameExhausted && has_unusable_name(
                    self.tree@,
                )),
            },
    {
        let mut attempt: u32 = 0;
        while attempt < MAX_ATTEMPTS
            invariant
                0 <= attempt <= MAX_ATTEMPTS,
                self.wf(),
                attempt > 0 ==> has_unusable_name(self.tree@),
            decreases MAX_ATTEMPTS - attempt,
        {
            let bits = match generate_rand_bits(96) {
                Ok(bits) => bits,
                Err(_) => {
                    return Err(Error::RandomSource);
                },
            };
            match self.try_name(attempt, bits.as_slice()) {
                Ok(Some(name)) => {
                    assert(is_obfuscated_name(name@)) by {
                        assert(bits@.len() == 12 && name@ == url_safe_base64(bits@));
                    }
                    return Ok(name);
                },
                Ok(None) => {
                    assert(!is_usable_name(self.tree@, url_safe_base64(bits@)));
                },
                Err(e) => {
                    assert(!is_usable_name(self.tree@, url_safe_base64(bits@)));
                    return Err(Error::NameExhausted);
                },
            }
            attempt += 1;
        }
        Err(Error::NameExhausted)
    }

    /// Writes the manifest, sealed in the session with the given metadata.
    /// Where the manifest has no text the failure is `Malformed`, else that of
    /// the encryption; on failure nothing is written.
    pub fn write_manifest_with(&mut self, manifest: &Manifest, sess: &Session, meta: &Meta) -> (r: Result<
        (),
        Error,
    >)
        requires
            old(self).wf(),
        ensures
            final(self).wf(),
            match manifest_into(old(self).tree@, sess.master_key@, manifest@, meta@) {
                Ok(after) => {
                    &&& r is Ok
                    &&& final(self).tree@ == after
                    &&& meta_at(final(self).tree@, manifest_name()) == Ok::<MetaView, Error>(meta@)
                    &&& manifest_of(final(self).tree@, sess.master_key@) == Ok::<Seq<EntryView>, Error>(
                        manifest@,
                    )
                },
                Err(e) => r == Err::<(), Error>(e) && final(self).tree@ == old(self).tree@,
            },
    {
        let bytes = match manifest.to_toml_bytes() {
            Ok(bytes) => bytes,
            Err(_) => {
                return Err(Error::Malformed);
            },
        };
        self.write_sealed_with("manifest", bytes.as_slice(), sess, meta)
    }

    /// Writes the manifest, sealed in the session with fresh metadata: draws
    /// the metadata, then writes with it.
    fn write_manifest(&mut self, manifest: &Manifest, sess: &Session) -> (r: Result<(), Error>)
        requires
            old(self).wf(),
        ensures
            final(self).wf(),
            r is Ok ==> manifest_of(final(self).tree@, sess.master_key@) == Ok::<Seq<EntryView>, Error>(
                manifest@,
            ),
            r is Ok ==> one_new_nonce(old(self).tree@, final(self).tree@, manifest_name()),
            r is Ok ==> ledger_grew(old(self).tree@, final(self).tree@),
            r is Ok ==> same_except(final(self).tree@, old(self).tree@, manifest_files()),
            r is Ok ==> final(self).tree@.contains_key(manifest_name()),
            r matches Err(e) ==> is_sealing_failure(e),
    {
        let meta = match Meta::generate_secure_meta(self) {
            Ok(meta) => meta,
            Err(e) => {
                return Err(e);
            },
        };
        let ghost burnt_tree = self.tree@;
        proof {
            lemma_fixed_names();
        }
        match self.write_manifest_with(manifest, sess, &meta) {
            Ok(()) => {
                proof {
                    let after = self.tree@;
                    assert(after[ledger_name()] == burnt_tree[ledger_name()]);
                    let l0 = ledger_of(old(self).tree@)->Ok_0;
                    let l1 = ledger_of(after)->Ok_0;
                    assert(l1.take(l0.len() as int) =~= l0);
                }
                Ok(())
            },
            Err(e) => {
                proof {
                    assert(e == Error::InputTooLong || e == Error::Malformed);
                }
                Err(e)
            },
        }
    }

    /// Reads the manifest and tells what stands against a `put` under the
    /// path; where nothing does, returns the manifest and the place of the row
    /// with the path.
    fn check_put(&self, path: &str, sess: &Session) -> (r: Result<(Manifest, Option<usize>), Error>)
        requires
            self.wf(),
        ensures
            match put_check(self.tree@, sess.master_key@, path@) {
                Err(e) => r matches Err(x) && x == e,
                Ok(_) => {
                    &&& r matches Ok(found)
                    &&& manifest_of(self.tree@, sess.master_key@) == Ok::<Seq<EntryView>, Error>(found.0@)
                    &&& count_with_path(found.0@, path@) <= 1
                    &&& match found.1 {
                        Some(i) => first_with_path(found.0@, path@) == Some(i as int) && i < found.0.entries@.len(),
                        None => first_with_path(found.0@, path@) is None,
                    }
                },
            },
    {
        let request = EntryRequest { path: path.to_owned(), tags: Vec::new() };
        match request.validate() {
            Ok(()) => {},
            Err(_) => {
                return Err(Error::InvalidPath);
            },
        }
        let manifest = match self.manifest(sess) {
            Ok(m) => m,
            Err(e) => {
                return Err(e);
            },
        };
        if manifest.count(path) > 1 {
            return Err(Error::DuplicateEntry);
        }
        let found = manifest.find(path);
        match found {
            Some(i) => {
                let old_name = manifest.entries[i].garbled_path.as_str();
                let old_side = sidecar_name(old_name);
                if DB::is_reserved(old_name) || DB::is_reserved(old_side.as_str()) {
                    return Err(Error::Malformed);
                }
                if !self.tree.contains(old_name) || !self.tree.contains(old_side.as_str()) {
                    return Err(Error::MissingFile);
                }
            },
            None => {},
        }
        Ok((manifest, found))
    }

    /// Stores `data` under the logical path of the request, under the given
    /// name and with the given metadata for the data and for the manifest.
    ///
    /// Nothing is drawn here: the result and the files that are left are
    /// fixed by the arguments. Where the call fails nothing is written.
    #[verifier::rlimit(40)]
    pub fn put_with(
        &mut self,
        entry_req: &EntryRequest,
        data: &[u8],
        sess: &Session,
        name: &str,
        data_meta: &Meta,
        manifest_meta: &Meta,
    ) -> (r: Result<(), Error>)
        requires
            old(self).wf(),
        ensures
            final(self).wf(),
            match put_result(
                old(self).tree@,
                sess.master_key@,
                entry_req.path@,
                text_views(entry_req.tags@),
                data@,
                name@,
                data_meta@,
                manifest_meta@,
            ) {
                Ok(after) => {
                    &&& r is Ok
                    &&& final(self).tree@ == after
                    &&& manifest_of(old(self).tree@, sess.master_key@) matches Ok(rows)
                    &&& manifest_of(final(self).tree@, sess.master_key@) == Ok::<Seq<EntryView>, Error>(
                        without_path(rows, entry_req.path@).push(
                            EntryView {
                                path: entry_req.path@,
                                tags: text_views(entry_req.tags@),
                                garbled_path: name@,
                            },
                        ),
                    )
                    &&& meta_at(final(self).tree@, manifest_name()) == Ok::<MetaView, Error>(manifest_meta@)
                    &&& !is_reserved_name(name@) && !is_reserved_name(sidecar(name@)) ==> meta_at(
                        final(self).tree@,
                        name@,
                    ) == Ok::<MetaView, Error>(data_meta@) && sealed_at(
                        final(self).tree@,
                        sess.master_key@,
                        name@,
                    ) == Ok::<Seq<u8>, Error>(data@)
                },
                Err(e) => r == Err::<(), Error>(e) && final(self).tree@ == old(self).tree@,
            },
    {
        let path = entry_req.path.as_str();
        let (manifest, found) = match self.check_put(path, sess) {
            Ok(found) => found,
            Err(e) => {
                return Err(e);
            },
        };
        let (sealed, text) = match DB::seal_with(data, sess, data_meta) {
            Ok(pair) => pair,
            Err(e) => {
                return Err(e);
            },
        };
        let mut rows = manifest.without(path);
        rows.push(Entry { path: entry_req.path.clone(), tags: copy_texts(&entry_req.tags), garbled_path: name.to_owned() });
        let bytes = match rows.to_toml_bytes() {
            Ok(bytes) => bytes,
            Err(_) => {
                return Err(Error::Malformed);
            },
        };
        let (sealed_manifest, manifest_text) = match DB::seal_with(bytes.as_slice(), sess, manifest_meta) {
            Ok(pair) => pair,
            Err(e) => {
                return Err(e);
            },
        };
        proof {
            lemma_fixed_names();
        }
        match found {
            Some(i) => {
                let old_name = manifest.entries[i].garbled_path.as_str();
                let old_side = sidecar_name(old_name);
                self.tree.remove(old_name);
                self.tree.remove(old_side.as_str());
            },
            None => {},
        }
        let side = sidecar_name(name);
        let manifest_side = sidecar_name("manifest");
        self.tree.put(name, sealed);
        self.tree.put(side.as_str(), text);
        self.tree.put("manifest", sealed_manifest);
        self.tree.put(manifest_side.as_str(), manifest_text);
        proof {
            let after = self.tree@;
            assert(meta_at(after, manifest_name()) == Ok::<MetaView, Error>(manifest_meta@));
            if !is_reserved_name(name@) && !is_reserved_name(sidecar(name@)) {
                assert(after[name@] == sealed@);
                assert(after[sidecar(name@)] == text@);
                assert(meta_at(after, name@) == Ok::<MetaView, Error>(data_meta@));
            }
        }
        Ok(())
    }

    /// Puts `data` under the path of the request, in this tree: checks what
    /// stands against it, draws a name and the metadata for the data and for
    /// the manifest, and stores with them.
    #[verifier::rlimit(60)]
    fn put_entry(&mut self, entry_req: &EntryRequest, data: &[u8], sess: &Session) -> (r: Result<(), Error>)
        requires
            old(self).wf(),
        ensures
            final(self).wf(),
            r is Ok ==> put_done(
                old(self).tree@,
                final(self).tree@,
                sess.master_key@,
                entry_req.path@,
                text_views(entry_req.tags@),
                data@,
            ),
            r matches Err(e) ==> put_failure(old(self).tree@, sess.master_key@, entry_req.path@, e),
    {
        let ghost before = self.tree@;
        let ghost key = sess.master_key@;
        let ghost path = entry_req.path@;
        match self.check_put(entry_req.path.as_str(), sess) {
            Ok(_) => {},
            Err(e) => {
                return Err(e);
            },
        }
        let ghost old_rows = manifest_of(before, key)->Ok_0;
        let name = match self.fresh_name() {
            Ok(name) => name,
            Err(e) => {
                return Err(e);
            },
        };
        let data_meta = match Meta::generate_secure_meta(self) {
            Ok(meta) => meta,
            Err(e) => {
                return Err(e);
            },
        };
        let ghost burnt_once = self.tree@;
        let manifest_meta = match Meta::generate_secure_meta(self) {
            Ok(meta) => meta,
            Err(e) => {
                return Err(e);
            },
        };
        let ghost drawn = self.tree@;
        let ghost g = name@;
        let ghost gone = replaced_files(old_rows, path);
        proof {
            lemma_fixed_names();
            lemma_first_with_path(old_rows, path);
            lemma_without_path(old_rows, path);
            assert(meta_at(drawn, manifest_name()) == meta_at(before, manifest_name()));
            assert(manifest_of(drawn, key) == manifest_of(before, key));
            if first_with_path(old_rows, path) is Some {
                let at = first_with_path(old_rows, path)->Some_0;
                assert(drawn.contains_key(old_rows[at].garbled_path));
                assert(drawn.contains_key(sidecar(old_rows[at].garbled_path)));
            }
            assert(put_check(drawn, key, path) == put_check(before, key, path));
        }
        match self.put_with(entry_req, data, sess, name.as_str(), &data_meta, &manifest_meta) {
            Ok(()) => {},
            Err(e) => {
                proof {
                    assert(e == Error::InputTooLong || e == Error::Malformed);
                }
                return Err(e);
            },
        }
        proof {
            let after = self.tree@;
            let new_row = EntryView { path, tags: text_views(entry_req.tags@), garbled_path: g };
            let new_rows = without_path(old_rows, path).push(new_row);
            let cleared = without_row_files(drawn, old_rows, path);
            assert(new_rows.drop_last() =~= without_path(old_rows, path));
            lemma_replaced(old_rows, new_row);
            let l0 = ledger_of(before)->Ok_0;
            let n1 = decoded(data_meta@.nonce)->Some_0;
            let n2 = decoded(manifest_meta@.nonce)->Some_0;
            let l1 = l0.push(n1);
            let l2 = l1.push(n2);
            assert(ledger_of(burnt_once) == Ok::<Seq<Seq<u8>>, Error>(l1));
            assert(ledger_of(drawn) == Ok::<Seq<Seq<u8>>, Error>(l2));
            assert(after.contains_key(ledger_name()));
            assert(after[ledger_name()] == drawn[ledger_name()]);
            assert(ledger_of(after) == ledger_of(drawn));
            assert(l1[l0.len() as int] == n1);
            assert(!l0.contains(n2)) by {
                if l0.contains(n2) {
                    let at = choose|at: int| 0 <= at < l0.len() && l0[at] == n2;
                    assert(l1[at] == n2);
                }
            }
            assert(l2.take(l0.len() as int) =~= l0);
            assert(nonce_at(after, g) == Some(n1));
            assert(nonce_at(after, manifest_name()) == Some(n2));
            assert(after.contains_key(g));
            assert(after.contains_key(sidecar(g)));
            if first_with_path(old_rows, path) is Some {
                let at = first_with_path(old_rows, path)->Some_0;
                let old_g = old_rows[at].garbled_path;
                assert(!cleared.contains_key(old_g) && !cleared.contains_key(sidecar(old_g)));
                assert(old_g != g && old_g != sidecar(g));
                assert(sidecar(old_g) != g && sidecar(old_g) != sidecar(g));
                assert(row_is_deleted(before, after, old_g));
            }
            let touched = manifest_files() + row_files(g) + gone;
            assert forall|n: Seq<char>| !touched.contains(n) implies (#[trigger] after.contains_key(n)
                == before.contains_key(n)) && (after.contains_key(n) ==> after[n] == before[n]) by {
                assert(!manifest_files().contains(n));
                assert(!row_files(g).contains(n));
                assert(!gone.contains(n));
                assert(after.contains_key(n) == cleared.contains_key(n));
                assert(cleared.contains_key(n) == drawn.contains_key(n));
                assert(drawn.contains_key(n) == before.contains_key(n));
            }
        }
        Ok(())
    }

    /// Stores `data` under the logical path of the request, with its tags.
    ///
    /// The data is sealed with metadata of its own and written under a random
    /// name. A row that has the path already is replaced: its files are
    /// deleted and the new row takes its place at the end. The manifest is
    /// sealed anew. Where the call fails the tree is as it was.
    pub fn put(&mut self, entry_req: &EntryRequest, data: &[u8], sess: &Session) -> (r: Result<(), Error>)
        requires
            old(self).wf(),
        ensures
            final(self).wf(),
            r is Ok ==> put_done(
                old(self).tree@,
                final(self).tree@,
                sess.master_key@,
                entry_req.path@,
                text_views(entry_req.tags@),
                data@,
            ),
            r matches Err(e) ==> final(self).tree@ == old(self).tree@ && put_failure(
                old(self).tree@,
                sess.master_key@,
                entry_req.path@,
                e,
            ),
    {
        let mut work = DB { tree: self.tree.duplicate() };
        match work.put_entry(entry_req, data, sess) {
            Ok(()) => {
                self.tree = work.tree;
                Ok(())
            },
            Err(e) => Err(e),
        }
    }

    /// Reads the manifest and tells what stands against an `rm` of the path;
    /// where nothing does, returns the manifest and the place of the row with
    /// the path.
    fn check_rm(&self, path: &str, sess: &Session) -> (r: Result<(Manifest, usize), Error>)
        requires
            self.wf(),
        ensures
            match rm_check(self.tree@, sess.master_key@, path@) {
                Err(e) => r matches Err(x) && x == e,
                Ok(_) => {
                    &&& r matches Ok(found)
                    &&& manifest_of(self.tree@, sess.master_key@) == Ok::<Seq<EntryView>, Error>(found.0@)
                    &&& count_with_path(found.0@, path@) == 1
                    &&& first_with_path(found.0@, path@) == Some(found.1 as int)
                    &&& found.1 < found.0.entries@.len()
                },
            },
    {
        let manifest = match self.manifest(sess) {
            Ok(m) => m,
            Err(e) => {
                return Err(e);
            },
        };
        let n = manifest.count(path);
        if n == 0 {
            return Err(Error::NotFound);
        }
        if n > 1 {
            return Err(Error::DuplicateEntry);
        }
        proof {
            lemma_first_with_path(manifest@, path@);
        }
        let i = match manifest.find(path) {
            Some(i) => i,
            None => {
                return Err(Error::NotFound);
            },
        };
        let name = manifest.entries[i].garbled_path.as_str();
        let side = sidecar_name(name);
        if DB::is_reserved(name) || DB::is_reserved(side.as_str()) {
            return Err(Error::Malformed);
        }
        if !self.tree.contains(name) || !self.tree.contains(side.as_str()) {
            return Err(Error::MissingFile);
        }
        Ok((manifest, i))
    }

    /// Removes the entry under the logical path and seals the manifest
    /// without its row with the given metadata.
    ///
    /// Nothing is drawn here: the result and the files that are left are
    /// fixed by the arguments. Where the call fails nothing is written.
    pub fn rm_with(&mut self, path: &str, sess: &Session, manifest_meta: &Meta) -> (r: Result<(), Error>)
        requires
            old(self).wf(),
        ensures
            final(self).wf(),
            match rm_result(old(self).tree@, sess.master_key@, path@, manifest_meta@) {
                Ok(after) => {
                    &&& r is Ok
                    &&& final(self).tree@ == after
                    &&& manifest_of(old(self).tree@, sess.master_key@) matches Ok(rows)
                    &&& manifest_of(final(self).tree@, sess.master_key@) == Ok::<Seq<EntryView>, Error>(
                        without_path(rows, path@),
                    )
                    &&& meta_at(final(self).tree@, manifest_name()) == Ok::<MetaView, Error>(manifest_meta@)
                },
                Err(e) => r == Err::<(), Error>(e) && final(self).tree@ == old(self).tree@,
            },
    {
        let (manifest, i) = match self.check_rm(path, sess) {
            Ok(found) => found,
            Err(e) => {
                return Err(e);
            },
        };
        let rows = manifest.without(path);
        let bytes = match rows.to_toml_bytes() {
            Ok(bytes) => bytes,
            Err(_) => {
                return Err(Error::Malformed);
            },
        };
        let (sealed_manifest, manifest_text) = match DB::seal_with(bytes.as_slice(), sess, manifest_meta) {
            Ok(pair) => pair,
            Err(e) => {
                return Err(e);
            },
        };
        proof {
            lemma_fixed_names();
        }
        let name = manifest.entries[i].garbled_path.as_str();
        let side = sidecar_name(name);
        let manifest_side = sidecar_name("manifest");
        self.tree.remove(name);
        self.tree.remove(side.as_str());
        self.tree.put("manifest", sealed_manifest);
        self.tree.put(manifest_side.as_str(), manifest_text);
        proof {
            let after = self.tree@;
            assert(meta_at(after, manifest_name()) == Ok::<MetaView, Error>(manifest_meta@));
        }
        Ok(())
    }

    /// Removes the entry under the path, in this tree: checks what stands
    /// against it, draws the metadata for the manifest, and removes with it.
    #[verifier::rlimit(40)]
    fn remove_entry(&mut self, path: &str, sess: &Session) -> (r: Result<(), Error>)
        requires
            old(self).wf(),
        ensures
            final(self).wf(),
            r is Ok ==> rm_done(old(self).tree@, final(self).tree@, sess.master_key@, path@),
            r matches Err(e) ==> rm_failure(old(self).tree@, sess.master_key@, path@, e),
    {
        let ghost before = self.tree@;
        let ghost key = sess.master_key@;
        match self.check_rm(path, sess) {
            Ok(_) => {},
            Err(e) => {
                return Err(e);
            },
        }
        let ghost old_rows = manifest_of(before, key)->Ok_0;
        let manifest_meta = match Meta::generate_secure_meta(self) {
            Ok(meta) => meta,
            Err(e) => {
                return Err(e);
            },
        };
        let ghost drawn = self.tree@;
        proof {
            lemma_fixed_names();
            lemma_first_with_path(old_rows, path@);
            lemma_without_path(old_rows, path@);
            assert(meta_at(drawn, manifest_name()) == meta_at(before, manifest_name()));
            assert(manifest_of(drawn, key) == manifest_of(before, key));
            let at = first_with_path(old_rows, path@)->Some_0;
            assert(drawn.contains_key(old_rows[at].garbled_path));
            assert(drawn.contains_key(sidecar(old_rows[at].garbled_path)));
            assert(rm_check(drawn, key, path@) == rm_check(before, key, path@));
        }
        match self.rm_with(path, sess, &manifest_meta) {
            Ok(()) => {},
            Err(e) => {
                proof {
                    assert(e == Error::InputTooLong || e == Error::Malformed);
                }
                return Err(e);
            },
        }
        proof {
            let after = self.tree@;
            let at = first_with_path(old_rows, path@)->Some_0;
            let g = old_rows[at].garbled_path;
            let cleared = without_row_files(drawn, old_rows, path@);
            let l0 = ledger_of(before)->Ok_0;
            let n = decoded(manifest_meta@.nonce)->Some_0;
            assert(after.contains_key(ledger_name()));
            assert(after[ledger_name()] == drawn[ledger_name()]);
            assert(ledger_of(after) == ledger_of(drawn));
            assert(l0.push(n).take(l0.len() as int) =~= l0);
            assert(nonce_at(after, manifest_name()) == Some(n));
            assert(!cleared.contains_key(g) && !cleared.contains_key(sidecar(g)));
            assert(row_is_deleted(before, after, g));
            let touched = manifest_files() + row_files(g);
            assert forall|n: Seq<char>| !touched.contains(n) implies (#[trigger] after.contains_key(n)
                == before.contains_key(n)) && (after.contains_key(n) ==> after[n] == before[n]) by {
                assert(!manifest_files().contains(n));
                assert(!row_files(g).contains(n));
                assert(after.contains_key(n) == cleared.contains_key(n));
                assert(cleared.contains_key(n) == drawn.contains_key(n));
                assert(drawn.contains_key(n) == before.contains_key(n));
            }
        }
        Ok(())
    }

    /// Removes the entry under the logical path: deletes its two files and
    /// seals the manifest anew without its row.
    ///
    /// Fails with `NotFound` where no row has the path and with
    /// `DuplicateEntry` where more than one has it. Where the call fails the
    /// tree is as it was.
    pub fn rm(&mut self, path: &str, sess: &Session) -> (r: Result<(), Error>)
        requires
            old(self).wf(),
        ensures
            final(self).wf(),
            r is Ok ==> rm_done(old(self).tree@, final(self).tree@, sess.master_key@, path@),
            r matches Err(e) ==> final(self).tree@ == old(self).tree@ && rm_failure(
                old(self).tree@,
                sess.master_key@,
                path@,
                e,
            ),
    {
        let mut work = DB { tree: self.tree.duplicate() };
        match work.remove_entry(path, sess) {
            Ok(()) => {
                self.tree = work.tree;
                Ok(())
            },
            Err(e) => Err(e),
        }
    }

    /// The remotes, as the session opens them.
    pub fn remotes(&self, sess: &Session) -> (r: Result<Remotes, Error>)
        requires
            self.wf(),
        ensures
            match remotes_of(self.tree@, sess.master_key@) {
                Ok(remotes) => r matches Ok(x) && x@ == remotes,
                Err(e) => r matches Err(x) && x == e,
            },
    {
        match self.open("remotes", sess) {
            Ok(plain) => Remotes::from_toml_bytes(plain.data.as_slice()),
            Err(e) => Err(e),
        }
    }

    /// Writes the remotes, sealed in the session with the given metadata.
    /// Where the remotes have no text the failure is `Malformed`, else that of
    /// the encryption; on failure nothing is written.
    pub fn write_remotes_with(&mut self, remotes: &Remotes, sess: &Session, meta: &Meta) -> (r: Result<
        (),
        Error,
    >)
        requires
            old(self).wf(),
        ensures
            final(self).wf(),
            match remotes_into(old(self).tree@, sess.master_key@, remotes@, meta@) {
                Ok(after) => {
                    &&& r is Ok
                    &&& final(self).tree@ == after
                    &&& meta_at(final(self).tree@, remotes_name()) == Ok::<MetaView, Error>(meta@)
                    &&& remotes_of(final(self).tree@, sess.master_key@) == Ok::<Seq<RemoteView>, Error>(
                        remotes@,
                    )
                },
                Err(e) => r == Err::<(), Error>(e) && final(self).tree@ == old(self).tree@,
            },
    {
        let bytes = match remotes.to_toml_bytes() {
            Ok(bytes) => bytes,
            Err(_) => {
                return Err(Error::Malformed);
            },
        };
        self.write_sealed_with("remotes", bytes.as_slice(), sess, meta)
    }

    /// Writes the remotes, sealed in the session with fresh metadata: draws
    /// the metadata, then writes with it.
    fn write_remotes(&mut self, remotes: &Remotes, sess: &Session) -> (r: Result<(), Error>)
        requires
            old(self).wf(),
        ensures
            final(self).wf(),
            r is Ok ==> remotes_written(old(self).tree@, final(self).tree@, sess.master_key@, remotes@),
            r is Ok ==> final(self).tree@.contains_key(remotes_name()),
            r matches Err(e) ==> is_sealing_failure(e),
    {
        let meta = match Meta::generate_secure_meta(self) {
            Ok(meta) => meta,
            Err(e) => {
                return Err(e);
            },
        };
        let ghost burnt_tree = self.tree@;
        proof {
            lemma_fixed_names();
        }
        match self.write_remotes_with(remotes, sess, &meta) {
            Ok(()) => {
                proof {
                    let after = self.tree@;
                    assert(after[ledger_name()] == burnt_tree[ledger_name()]);
                    let l0 = ledger_of(old(self).tree@)->Ok_0;
                    let l1 = ledger_of(after)->Ok_0;
                    assert(l1.take(l0.len() as int) =~= l0);
                }
                Ok(())
            },
            Err(e) => {
                proof {
                    assert(e == Error::InputTooLong || e == Error::Malformed);
                }
                Err(e)
            },
        }
    }

    /// Adds a remote behind those that are configured. The caller registers
    /// it with the version-control engine afterwards. Where the call fails
    /// the tree is as it was.
    pub fn add_remote(&mut self, remote: &Remote, sess: &Session) -> (r: Result<(), Error>)
        requires
            old(self).wf(),
        ensures
            final(self).wf(),
            r is Ok ==> (remotes_of(old(self).tree@, sess.master_key@) matches Ok(before) && remotes_written(
                old(self).tree@,
                final(self).tree@,
                sess.master_key@,
                before.push(remote@),
            )),
            r matches Err(e) ==> final(self).tree@ == old(self).tree@ && remotes_failure(
                old(self).tree@,
                sess.master_key@,
                e,
            ),
    {
        let mut remotes = match self.remotes(sess) {
            Ok(remotes) => remotes,
            Err(e) => {
                return Err(e);
            },
        };
        remotes.push(remote.clone());
        let mut work = DB { tree: self.tree.duplicate() };
        match work.write_remotes(&remotes, sess) {
            Ok(()) => {
                self.tree = work.tree;
                Ok(())
            },
            Err(e) => Err(e),
        }
    }

    /// Removes the remotes of that name from those that are configured. The
    /// caller unregisters the name with the version-control engine
    /// afterwards. Where the call fails the tree is as it was.
    pub fn remove_remote(&mut self, name: &str, sess: &Session) -> (r: Result<(), Error>)
        requires
            old(self).wf(),
        ensures
            final(self).wf(),
            r is Ok ==> (remotes_of(old(self).tree@, sess.master_key@) matches Ok(before) && remotes_written(
                old(self).tree@,
                final(self).tree@,
                sess.master_key@,
                without_name(before, name@),
            )),
            r matches Err(e) ==> final(self).tree@ == old(self).tree@ && remotes_failure(
                old(self).tree@,
                sess.master_key@,
                e,
            ),
    {
        let remotes = match self.remotes(sess) {
            Ok(remotes) => remotes,
            Err(e) => {
                return Err(e);
            },
        };
        let updated = remotes.without(name);
        let mut work = DB { tree: self.tree.duplicate() };
        match work.write_remotes(&updated, sess) {
            Ok(()) => {
                self.tree = work.tree;
                Ok(())
            },
            Err(e) => Err(e),
        }
    }

    /// Begins a synchronisation with the remotes that are configured: returns
    /// them, in their order, with the state whose first action is to be
    /// performed. The actions name a remote by its place in the list.
    pub fn sync(&self, sess: &Session) -> (r: Result<(Remotes, Synchronizer), Error>)
        requires
            self.wf(),
        ensures
            match remotes_of(self.tree@, sess.master_key@) {
                Ok(remotes) => r matches Ok(begun) && begun.0@ == remotes && begun.1 == Synchronizer::spec_start(
                    remotes.len() as usize,
                ) && begun.1.wf() && begun.0.remotes@.len() == remotes.len(),
                Err(e) => r matches Err(x) && x == e,
            },
    {
        match self.remotes(sess) {
            Ok(remotes) => {
                let state = Synchronizer::start(remotes.remotes.len());
                Ok((remotes, state))
            },
            Err(e) => Err(e),
        }
    }

    /// Sees to the required files in this tree, step by step, in the order
    /// that the encryptions need: the ledger before the manifest before the
    /// remotes.
    #[verifier::rlimit(40)]
    fn create_required_files(&mut self, sess: &Session) -> (r: Result<Vec<String>, Error>)
        requires
            old(self).wf(),
        ensures
            final(self).wf(),
            r matches Ok(staged) ==> required_files_ensured(old(self).tree@, final(self).tree@, sess.master_key@)
                && text_views(staged@) == staged_for(
                old(self).tree@.contains_key(ledger_name()),
                old(self).tree@.contains_key(manifest_name()),
                old(self).tree@.contains_key(remotes_name()),
            ),
            r matches Err(e) ==> is_sealing_failure(e),
            old(self).tree@.contains_key(manifest_name()) && old(self).tree@.contains_key(remotes_name())
                ==> r is Ok,
    {
        let ghost before = self.tree@;
        let ghost key = sess.master_key@;
        let mut staged: Vec<String> = Vec::new();
        proof {
            lemma_fixed_names();
            reveal_names();
            assert(text_views(staged@) =~= Seq::<Seq<char>>::empty());
        }
        let had_ledger = self.tree.contains("burnt_nonces");
        let had_manifest = self.tree.contains("manifest");
        let had_remotes = self.tree.contains("remotes");
        if !had_ledger {
            self.tree.put("burnt_nonces", Vec::new());
            push_text(&mut staged, "burnt_nonces");
        }
        let ghost ledger_there = self.tree@;
        let ghost staged_one = text_views(staged@);
        if !had_manifest {
            match self.write_manifest(&Manifest::empty(), sess) {
                Ok(()) => {},
                Err(e) => {
                    return Err(e);
                },
            }
            push_text(&mut staged, "manifest");
            push_text(&mut staged, sidecar_name("manifest").as_str());
            push_text(&mut staged, "burnt_nonces");
        }
        let ghost manifest_there = self.tree@;
        let ghost staged_two = text_views(staged@);
        if !had_remotes {
            match self.write_remotes(&Remotes::empty(), sess) {
                Ok(()) => {},
                Err(e) => {
                    return Err(e);
                },
            }
            push_text(&mut staged, "remotes");
            push_text(&mut staged, sidecar_name("remotes").as_str());
            push_text(&mut staged, "burnt_nonces");
        }
        proof {
            let after = self.tree@;
            assert(text_views(staged@) =~= staged_for(had_ledger, had_manifest, had_remotes));
            if !had_manifest {
                assert(manifest_there.contains_key(manifest_name()));
                assert(manifest_there.contains_key(sidecar(manifest_name())));
                if !had_remotes {
                    assert(!remotes_files().contains(manifest_name()));
                    assert(!remotes_files().contains(sidecar(manifest_name())));
                    assert(after.contains_key(manifest_name()) == manifest_there.contains_key(manifest_name()));
                    assert(after.contains_key(sidecar(manifest_name())) == manifest_there.contains_key(
                        sidecar(manifest_name()),
                    ));
                    assert(meta_at(after, manifest_name()) == meta_at(manifest_there, manifest_name()));
                }
                assert(manifest_of(after, key) == manifest_of(manifest_there, key));
            }
            let touched = set![ledger_name()] + (if before.contains_key(manifest_name()) {
                Set::<Seq<char>>::empty()
            } else {
                set![manifest_name(), sidecar(manifest_name())]
            }) + (if before.contains_key(remotes_name()) {
                Set::<Seq<char>>::empty()
            } else {
                set![remotes_name(), sidecar(remotes_name())]
            });
            assert forall|n: Seq<char>| !touched.contains(n) implies (#[trigger] after.contains_key(n)
                == before.contains_key(n)) && (after.contains_key(n) ==> after[n] == before[n]) by {
                assert(n != ledger_name());
                assert(ledger_there.contains_key(n) == before.contains_key(n));
                if !had_manifest {
                    assert(!manifest_files().contains(n));
                    assert(manifest_there.contains_key(n) == ledger_there.contains_key(n));
                }
                if !had_remotes {
                    assert(!remotes_files().contains(n));
                    assert(after.contains_key(n) == manifest_there.contains_key(n));
                }
            }
            if had_manifest {
                assert(!remotes_files().contains(manifest_name()));
                assert(after.contains_key(manifest_name()) == manifest_there.contains_key(manifest_name()));
            }
            if had_ledger && had_manifest && had_remotes {
                assert(after =~= before);
            }
            assert(ledger_there =~= with_ledger(before));
            if had_manifest && had_remotes {
                assert(after =~= with_ledger(before));
            }
            if !had_manifest && !had_remotes {
                let l0 = ledger_of(ledger_there)->Ok_0;
                let l1 = ledger_of(manifest_there)->Ok_0;
                let l2 = ledger_of(after)->Ok_0;
                assert(l2.take(l0.len() as int) =~= l2.take(l1.len() as int).take(l0.len() as int));
                let n1 = nonce_at(manifest_there, manifest_name())->Some_0;
                let n2 = nonce_at(after, remotes_name())->Some_0;
                assert(nonce_at(after, manifest_name()) == Some(n1));
                assert(l1 == l0.push(n1));
                assert(l1[l0.len() as int] == n1);
                assert(!l0.contains(n2)) by {
                    if l0.contains(n2) {
                        let at = choose|at: int| 0 <= at < l0.len() && l0[at] == n2;
                        assert(l1[at] == n2);
                    }
                }
                assert(two_new_nonces(with_ledger(before), after, manifest_name(), remotes_name()));
            }
            if !had_manifest && had_remotes {
                assert(after == manifest_there);
                assert(one_new_nonce(with_ledger(before), after, manifest_name()));
            }
            if had_manifest && !had_remotes {
                assert(manifest_there == ledger_there);
                assert(one_new_nonce(with_ledger(before), after, remotes_name()));
            }
        }
        Ok(staged)
    }

    /// Sees to it that the files that the store needs are there: the ledger
    /// of nonces, created empty; the manifest, created without rows; the
    /// remotes, created without remotes. The ledger comes first, since
    /// sealing the other two burns nonces.
    ///
    /// Returns the paths to stage, in order; where the list is not empty the
    /// caller commits them. Where the manifest and the remotes are there
    /// nothing is sealed and the call succeeds. Where the call fails the tree
    /// is as it was.
    pub fn ensure_required_files_exist(&mut self, sess: &Session) -> (r: Result<Vec<String>, Error>)
        requires
            old(self).wf(),
        ensures
            final(self).wf(),
            r matches Ok(staged) ==> required_files_ensured(old(self).tree@, final(self).tree@, sess.master_key@)
                && text_views(staged@) == staged_for(
                old(self).tree@.contains_key(ledger_name()),
                old(self).tree@.contains_key(manifest_name()),
                old(self).tree@.contains_key(remotes_name()),
            ),
            r matches Err(e) ==> final(self).tree@ == old(self).tree@ && is_sealing_failure(e),
            old(self).tree@.contains_key(manifest_name()) && old(self).tree@.contains_key(remotes_name())
                ==> r is Ok,
    {
        let mut work = DB { tree: self.tree.duplicate() };
        match work.create_required_files(sess) {
            Ok(staged) => {
                self.tree = work.tree;
                Ok(staged)
            },
            Err(e) => Err(e),
        }
    }

    /// Opens the store over the files of a working tree and sees to the
    /// required files. Returns the store and the paths to stage.
    pub fn init(tree: WorkTree, sess: &Session) -> (r: Result<(DB, Vec<String>), Error>)
        requires
            tree.wf(),
        ensures
            r matches Ok(opened) ==> opened.0.wf() && required_files_ensured(
                tree@,
                opened.0.tree@,
                sess.master_key@,
            ) && text_views(opened.1@) == staged_for(
                tree@.contains_key(ledger_name()),
                tree@.contains_key(manifest_name()),
                tree@.contains_key(remotes_name()),
            ),
            r matches Err(e) ==> is_sealing_failure(e),
            tree@.contains_key(manifest_name()) && tree@.contains_key(remotes_name()) ==> r is Ok,
    {
        let mut db = DB { tree };
        match db.ensure_required_files_exist(sess) {
            Ok(staged) => Ok((db, staged)),
            Err(e) => Err(e),
        }
    }

    /// One step of the search for a nonce: the candidate is burnt if it can
    /// be.
    ///
    /// Where the ledger cannot be read its failure is returned, and a
    /// candidate too long for a text form fails with `InputTooLong`. Where the
    /// candidate is not in the ledger it is appended and returned. Where it
    /// is, nothing changes and the search goes on with `None`, unless this was
    /// the last attempt, which fails with `NonceExhausted`.
    pub fn try_nonce(&mut self, attempt: u32, candidate: &[u8]) -> (r: Result<Option<Vec<u8>>, Error>)
        requires
            old(self).wf(),
        ensures
            final(self).wf(),
            match ledger_of(old(self).tree@) {
                Err(e) => r matches Err(x) && x == e && final(self).tree@ == old(self).tree@,
                Ok(before) => if candidate@.len() > MAX_ENCODE_LEN {
                    r matches Err(x) && x == Error::InputTooLong && final(self).tree@ == old(self).tree@
                } else if !before.contains(candidate@) {
                    &&& r matches Ok(Some(nonce))
                    &&& nonce@ == candidate@
                    &&& final(self).tree@ == with_burnt(old(self).tree@, candidate@)
                    &&& ledger_of(final(self).tree@) == Ok::<Seq<Seq<u8>>, Error>(before.push(candidate@))
                } else if attempt + 1 < MAX_ATTEMPTS {
                    r matches Ok(None) && final(self).tree@ == old(self).tree@
                } else {
                    r matches Err(x) && x == Error::NonceExhausted && final(self).tree@ == old(self).tree@
                },
            },
    {
        match self.burn_nonce(candidate) {
            Ok(()) => Ok(Some(crate::tree::copy_bytes(candidate))),
            Err(Error::NonceAlreadyBurnt) => if attempt < MAX_ATTEMPTS - 1 {
                Ok(None)
            } else {
                Err(Error::NonceExhausted)
            },
            Err(e) => Err(e),
        }
    }

    /// A random nonce of 96 bits that was not in the ledger, burnt.
    ///
    /// Candidates of 96 bits are drawn and handed to `try_nonce`, which
    /// decides: the first that is not in the ledger is burnt and returned,
    /// and after ten that are in it the failure is `NonceExhausted`, which
    /// nothing else ends in. On
    /// success the ledger has grown by the nonce and nothing else has
    /// changed. On failure nothing has changed.
    pub fn generate_nonce(&mut self) -> (r: Result<Vec<u8>, Error>)
        requires
            old(self).wf(),
        ensures
            final(self).wf(),
            match r {
                Ok(nonce) => {
                    &&& nonce@.len() == NONCE_LEN
                    &&& ledger_of(old(self).tree@) matches Ok(before)
                    &&& !before.contains(nonce@)
                    &&& ledger_of(final(self).tree@) == Ok::<Seq<Seq<u8>>, Error>(before.push(nonce@))
                    &&& final(self).tree@ == with_burnt(old(self).tree@, nonce@)
                },
                Err(e) => {
                    &&& final(self).tree@ == old(self).tree@
                    &&& ledger_of(old(self).tree@) matches Err(x) ==> e == x
                    &&& ledger_of(old(self).tree@) is Ok ==> e == Error::RandomSource || e
                        == Error::NonceExhausted
                    &&& ledger_of(old(self).tree@) matches Ok(before) ==> (e == Error::NonceExhausted
                        ==> holds_a_nonce(before))
                },
            },
    {
        let mut attempt: u32 = 0;
        while attempt < MAX_ATTEMPTS
            invariant
                0 <= attempt <= MAX_ATTEMPTS,
                self.wf(),
                self.tree@ == old(self).tree@,
                attempt > 0 ==> (ledger_of(old(self).tree@) matches Ok(before) && holds_a_nonce(before)),
            decreases MAX_ATTEMPTS - attempt,
        {
            let candidate = match generate_rand_bits(NONCE_BITS) {
                Ok(candidate) => candidate,
                Err(_) => {
                    return match self.burnt_nonces() {
                        Ok(_) => Err(Error::RandomSource),
                        Err(e) => Err(e),
                    };
                },
            };
            proof {
                if ledger_of(self.tree@) is Ok {
                    let before = ledger_of(self.tree@)->Ok_0;
                    if before.contains(candidate@) {
                        let at = choose|at: int| 0 <= at < before.len() && before[at] == candidate@;
                        assert(before[at].len() == NONCE_LEN);
                    }
                }
            }
            match self.try_nonce(attempt, candidate.as_slice()) {
                Ok(Some(nonce)) => {
                    return Ok(nonce);
                },
                Ok(None) => {},
                Err(e) => {
                    return Err(e);
                },
            }
            attempt += 1;
        }
        match self.burnt_nonces() {
            Ok(_) => Err(Error::NonceExhausted),
            Err(e) => Err(e),
        }
    }
}

} // verus!
