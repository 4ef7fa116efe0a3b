//! What holds of the store across several operations.

use vstd::prelude::*;
use crate::error::{Error, ErrorKind};
use crate::git_db::{
    content_of, manifest_of, is_prefix, put_done, rm_done, sealed_at, meta_at, sidecar, ledger_of,
    ledger_name, remotes_name, nonce_at, with_ledger,
    is_reserved_name, row_files, manifest_files, replaced_files, same_except, required_files_ensured,
    manifest_name,
};
use crate::manifest::{
    EntryView, count_with_path, first_with_path, without_path, lemma_first_with_path,
    lemma_without_path, lemma_without_member, lemma_without_keeps_first, lemma_replaced,
};

verus! {

/// Nonces are never used twice.
///
/// `ledgers` are the nonces of the ledger before each of a run of
/// encryptions, and after the last; `nonces` are the nonces that the
/// encryptions used. Each nonce was not in the ledger before its encryption
/// and is in every later ledger: this is what `generate_nonce` ensures, and
/// the ledger only grows. Then no two of the nonces are equal.
pub proof fn lemma_nonces_pairwise_distinct(ledgers: Seq<Seq<Seq<u8>>>, nonces: Seq<Seq<u8>>, i: int, j: int)
    requires
        ledgers.len() == nonces.len() + 1,
        forall|k: int| 0 <= k < nonces.len() ==> !(#[trigger] ledgers[k]).contains(nonces[k]),
        forall|k: int|
            0 <= k < nonces.len() ==> is_prefix((#[trigger] ledgers[k]).push(nonces[k]), ledgers[k + 1]),
        0 <= i < j < nonces.len(),
    ensures
        nonces[i] != nonces[j],
{
    lemma_stays_burnt(ledgers, nonces, i, j);
    assert(!ledgers[j].contains(nonces[j]));
}

/// A nonce that was burnt is in every later ledger.
proof fn lemma_stays_burnt(ledgers: Seq<Seq<Seq<u8>>>, nonces: Seq<Seq<u8>>, i: int, j: int)
    requires
        ledgers.len() == nonces.len() + 1,
        forall|k: int|
            0 <= k < nonces.len() ==> is_prefix((#[trigger] ledgers[k]).push(nonces[k]), ledgers[k + 1]),
        0 <= i < j <= nonces.len(),
    ensures
        ledgers[j].contains(nonces[i]),
    decreases j - i,
{
    let grown = ledgers[j - 1].push(nonces[j - 1]);
    assert(is_prefix(grown, ledgers[j]));
    if j == i + 1 {
        let at = ledgers[i].len() as int;
        assert(grown[at] == nonces[i]);
        assert(ledgers[j].take(grown.len() as int)[at] == ledgers[j][at]);
        assert(ledgers[j][at] == nonces[i]);
    } else {
        lemma_stays_burnt(ledgers, nonces, i, j - 1);
        let earlier = ledgers[j - 1];
        let at = choose|at: int| 0 <= at < earlier.len() && #[trigger] earlier[at] == nonces[i];
        assert(grown[at] == nonces[i]);
        assert(ledgers[j].take(grown.len() as int)[at] == ledgers[j][at]);
        assert(ledgers[j][at] == nonces[i]);
    }
}

/// A path is stored once, with what was put last.
///
/// After `data1` was put under a path and then `data2` under the same path,
/// the manifest holds exactly one row with the path, that row carries the
/// tags of the second call, and the path opens to `data2`.
pub proof fn lemma_put_twice(
    start: Map<Seq<char>, Seq<u8>>,
    between: Map<Seq<char>, Seq<u8>>,
    end: Map<Seq<char>, Seq<u8>>,
    key: Seq<u8>,
    path: Seq<char>,
    tags1: Seq<Seq<char>>,
    data1: Seq<u8>,
    tags2: Seq<Seq<char>>,
    data2: Seq<u8>,
)
    requires
        put_done(start, between, key, path, tags1, data1),
        put_done(between, end, key, path, tags2, data2),
    ensures
        ({
            &&& manifest_of(end, key) matches Ok(rows)
            &&& count_with_path(rows, path) == 1
            &&& first_with_path(rows, path) matches Some(i)
            &&& rows[i].tags == tags2
        }),
        content_of(end, key, path) == Ok::<Seq<u8>, Error>(data2),
{
    let rows = manifest_of(end, key)->Ok_0;
    let old_rows = manifest_of(between, key)->Ok_0;
    lemma_first_with_path(rows, path);
    lemma_without_path(old_rows, path);
    let i = first_with_path(rows, path)->Some_0;
    if i < rows.len() - 1 {
        assert(rows.drop_last()[i] == rows[i]);
        lemma_first_with_path(without_path(old_rows, path), path);
    }
}

/// What was put can be got.
///
/// After `data` was put under a path, the path opens to `data`, whatever was
/// stored before.
pub proof fn lemma_put_then_get(
    before: Map<Seq<char>, Seq<u8>>,
    after: Map<Seq<char>, Seq<u8>>,
    key: Seq<u8>,
    path: Seq<char>,
    tags: Seq<Seq<char>>,
    data: Seq<u8>,
)
    requires
        put_done(before, after, key, path, tags, data),
    ensures
        content_of(after, key, path) == Ok::<Seq<u8>, Error>(data),
{
}

/// A path that was never put is not found, and that is no failure of
/// decryption.
///
/// Where the manifest opens and none of its rows has the path, the path is
/// `NotFound`; the class of that failure is `NotFound`, not `Authentication`.
pub proof fn lemma_absent_is_not_found(files: Map<Seq<char>, Seq<u8>>, key: Seq<u8>, path: Seq<char>)
    requires
        manifest_of(files, key) matches Ok(rows) && count_with_path(rows, path) == 0,
    ensures
        content_of(files, key, path) == Err::<Seq<u8>, Error>(Error::NotFound),
        Error::NotFound.spec_kind() == ErrorKind::NotFound,
        Error::Authentication.spec_kind() != Error::NotFound.spec_kind(),
{
    lemma_first_with_path(manifest_of(files, key)->Ok_0, path);
}

/// The number of rows with a path stays the same when rows with another path
/// are taken out.
pub proof fn lemma_without_other_path(rows: Seq<EntryView>, path: Seq<char>, other: Seq<char>)
    requires
        other != path,
    ensures
        count_with_path(without_path(rows, other), path) == count_with_path(rows, path),
    decreases rows.len(),
{
    if rows.len() > 0 {
        lemma_without_other_path(rows.drop_last(), path, other);
        if rows.last().path != other {
            let rest = without_path(rows.drop_last(), other);
            assert(rest.push(rows.last()).drop_last() =~= rest);
        }
    }
}

/// A path stays absent while other paths are put and removed.
///
/// Where no row of the manifest has a path, and an entry is put under
/// another path or the entry of another path is removed, still no row has
/// the path, and it is `NotFound`.
pub proof fn lemma_absent_stays_absent(
    before: Map<Seq<char>, Seq<u8>>,
    after: Map<Seq<char>, Seq<u8>>,
    key: Seq<u8>,
    path: Seq<char>,
    other: Seq<char>,
    tags: Seq<Seq<char>>,
    data: Seq<u8>,
)
    requires
        other != path,
        manifest_of(before, key) matches Ok(rows) && count_with_path(rows, path) == 0,
        put_done(before, after, key, other, tags, data) || rm_done(before, after, key, other),
    ensures
        manifest_of(after, key) matches Ok(rows) && count_with_path(rows, path) == 0,
        content_of(after, key, path) == Err::<Seq<u8>, Error>(Error::NotFound),
{
    let old_rows = manifest_of(before, key)->Ok_0;
    let new_rows = manifest_of(after, key)->Ok_0;
    lemma_without_other_path(old_rows, path, other);
    if put_done(before, after, key, other, tags, data) {
        assert(new_rows.drop_last() == without_path(old_rows, other));
    }
    lemma_first_with_path(new_rows, path);
}

/// What was removed is gone.
///
/// After the entry of a path was removed, the path is `NotFound`, and the
/// sealed file of its row and the sidecar of that file are no longer in the
/// tree.
pub proof fn lemma_removed_is_gone(
    before: Map<Seq<char>, Seq<u8>>,
    after: Map<Seq<char>, Seq<u8>>,
    key: Seq<u8>,
    path: Seq<char>,
)
    requires
        rm_done(before, after, key, path),
    ensures
        content_of(after, key, path) == Err::<Seq<u8>, Error>(Error::NotFound),
        ({
            &&& manifest_of(before, key) matches Ok(rows)
            &&& first_with_path(rows, path) matches Some(i)
            &&& !after.contains_key(rows[i].garbled_path)
            &&& !after.contains_key(crate::git_db::sidecar(rows[i].garbled_path))
        }),
{
}

/// The two trees have the same file, or both none, under the name.
pub open spec fn same_file(a: Map<Seq<char>, Seq<u8>>, b: Map<Seq<char>, Seq<u8>>, name: Seq<char>) -> bool {
    a.contains_key(name) == b.contains_key(name) && (a.contains_key(name) ==> a[name] == b[name])
}

/// A store that holds the same files gives the same content.
///
/// Where two trees hold the same manifest with its sidecar, and the same
/// file with its sidecar for the row of a path, the path opens to the same
/// in both under the same key: what one store put, another store that was
/// brought to the same files gets.
pub proof fn lemma_same_files_same_content(
    a: Map<Seq<char>, Seq<u8>>,
    b: Map<Seq<char>, Seq<u8>>,
    key: Seq<u8>,
    path: Seq<char>,
)
    requires
        same_file(a, b, manifest_name()),
        same_file(a, b, sidecar(manifest_name())),
        manifest_of(a, key) matches Ok(rows) ==> (first_with_path(rows, path) matches Some(i) ==> same_file(
            a,
            b,
            rows[i].garbled_path,
        ) && same_file(a, b, sidecar(rows[i].garbled_path))),
    ensures
        manifest_of(b, key) == manifest_of(a, key),
        content_of(b, key, path) == content_of(a, key, path),
{
    assert(meta_at(b, manifest_name()) == meta_at(a, manifest_name()));
    assert(sealed_at(b, key, manifest_name()) == sealed_at(a, key, manifest_name()));
    if manifest_of(a, key) is Ok {
        let rows = manifest_of(a, key)->Ok_0;
        if first_with_path(rows, path) is Some {
            let g = rows[first_with_path(rows, path)->Some_0].garbled_path;
            assert(meta_at(b, g) == meta_at(a, g));
        }
    }
}

/// The sealed file of a row and its sidecar are there, under names that are
/// not reserved.
pub open spec fn row_is_kept(files: Map<Seq<char>, Seq<u8>>, row: EntryView) -> bool {
    &&& !is_reserved_name(row.garbled_path)
    &&& !is_reserved_name(sidecar(row.garbled_path))
    &&& files.contains_key(row.garbled_path)
    &&& files.contains_key(sidecar(row.garbled_path))
}

/// Two rows share no file.
pub open spec fn rows_apart(a: EntryView, b: EntryView) -> bool {
    &&& a.garbled_path != b.garbled_path
    &&& a.garbled_path != sidecar(b.garbled_path)
    &&& sidecar(a.garbled_path) != b.garbled_path
    &&& sidecar(a.garbled_path) != sidecar(b.garbled_path)
}

/// A store is consistent where its manifest opens, no two rows have the same
/// path, the files of every row are there under names that are not reserved,
/// and rows with different paths share no file.
pub open spec fn consistent(files: Map<Seq<char>, Seq<u8>>, key: Seq<u8>) -> bool {
    &&& manifest_of(files, key) matches Ok(rows)
    &&& forall|path: Seq<char>| #[trigger] count_with_path(rows, path) <= 1
    &&& forall|i: int| 0 <= i < rows.len() ==> row_is_kept(files, #[trigger] rows[i])
    &&& forall|i: int, j: int|
        0 <= i < rows.len() && 0 <= j < rows.len() && (#[trigger] rows[i]).path != (#[trigger] rows[j]).path
            ==> rows_apart(rows[i], rows[j])
}

/// A store whose manifest has no rows is consistent: so is every new store.
pub proof fn lemma_new_store_is_consistent(
    before: Map<Seq<char>, Seq<u8>>,
    after: Map<Seq<char>, Seq<u8>>,
    key: Seq<u8>,
)
    requires
        required_files_ensured(before, after, key),
        !before.contains_key(manifest_name()),
    ensures
        consistent(after, key),
{
    let rows = manifest_of(after, key)->Ok_0;
    assert(rows.len() == 0);
    assert forall|path: Seq<char>| #[trigger] count_with_path(rows, path) <= 1 by {}
}

/// The ledger of a new store holds exactly two nonces: first that of the
/// manifest, then that of the remotes.
///
/// Where a tree had neither ledger nor manifest nor remotes and the required
/// files were seen to, the ledger is the nonce under which the manifest is
/// sealed, then the nonce under which the remotes are sealed, and the two
/// differ.
pub proof fn lemma_new_store_ledger(
    before: Map<Seq<char>, Seq<u8>>,
    after: Map<Seq<char>, Seq<u8>>,
    key: Seq<u8>,
)
    requires
        required_files_ensured(before, after, key),
        !before.contains_key(ledger_name()),
        !before.contains_key(manifest_name()),
        !before.contains_key(remotes_name()),
    ensures
        ({
            &&& nonce_at(after, manifest_name()) matches Some(first)
            &&& nonce_at(after, remotes_name()) matches Some(second)
            &&& first != second
            &&& ledger_of(after) == Ok::<Seq<Seq<u8>>, Error>(seq![first, second])
        }),
{
    let start = with_ledger(before);
    assert(start[ledger_name()] == Seq::<u8>::empty());
    let l0 = ledger_of(start)->Ok_0;
    assert(crate::nonce::lines(Seq::<u8>::empty()) =~= Seq::<Seq<u8>>::empty());
    assert(l0 =~= Seq::<Seq<u8>>::empty());
    let first = nonce_at(after, manifest_name())->Some_0;
    let second = nonce_at(after, remotes_name())->Some_0;
    assert(l0.push(first).push(second) =~= seq![first, second]);
}

/// A file of a row of a consistent store that is none of the files that a
/// change touched opens as before.
proof fn lemma_untouched_row(
    before: Map<Seq<char>, Seq<u8>>,
    after: Map<Seq<char>, Seq<u8>>,
    key: Seq<u8>,
    touched: Set<Seq<char>>,
    row: EntryView,
)
    requires
        same_except(after, before, touched),
        !touched.contains(row.garbled_path),
        !touched.contains(sidecar(row.garbled_path)),
    ensures
        sealed_at(after, key, row.garbled_path) == sealed_at(before, key, row.garbled_path),
        after.contains_key(row.garbled_path) == before.contains_key(row.garbled_path),
        after.contains_key(sidecar(row.garbled_path)) == before.contains_key(sidecar(row.garbled_path)),
{
    let g = row.garbled_path;
    assert(after.contains_key(g) == before.contains_key(g));
    assert(after.contains_key(sidecar(g)) == before.contains_key(sidecar(g)));
    assert(meta_at(after, g) == meta_at(before, g));
}

/// A row of a consistent store with another path than the one that is put
/// has none of its files touched by the put.
proof fn lemma_put_spares(
    before: Map<Seq<char>, Seq<u8>>,
    after: Map<Seq<char>, Seq<u8>>,
    key: Seq<u8>,
    path: Seq<char>,
    tags: Seq<Seq<char>>,
    data: Seq<u8>,
    i: int,
)
    requires
        consistent(before, key),
        put_done(before, after, key, path, tags, data),
        0 <= i < manifest_of(before, key)->Ok_0.len(),
        manifest_of(before, key)->Ok_0[i].path != path,
    ensures
        ({
            let row = manifest_of(before, key)->Ok_0[i];
            let new_row = manifest_of(after, key)->Ok_0.last();
            &&& rows_apart(row, new_row)
            &&& rows_apart(new_row, row)
            &&& row_is_kept(after, row)
            &&& sealed_at(after, key, row.garbled_path) == sealed_at(before, key, row.garbled_path)
        }),
{
    let rows = manifest_of(before, key)->Ok_0;
    let new_rows = manifest_of(after, key)->Ok_0;
    let row = rows[i];
    let new_row = new_rows.last();
    let g = row.garbled_path;
    let gone = replaced_files(rows, path);
    lemma_first_with_path(rows, path);
    assert(row_is_kept(before, row));
    assert(before.contains_key(g) && before.contains_key(sidecar(g)));
    assert(!gone.contains(g) && !gone.contains(sidecar(g))) by {
        if first_with_path(rows, path) is Some {
            let j = first_with_path(rows, path)->Some_0;
            assert(rows_apart(rows[i], rows[j]));
        }
    }
    let touched = manifest_files() + row_files(new_row.garbled_path) + gone;
    assert(!manifest_files().contains(g));
    assert(!manifest_files().contains(sidecar(g)));
    lemma_untouched_row(before, after, key, touched, row);
}

/// A consistent store stays consistent under `put`, and a put under one
/// path leaves what is stored under every other path as it was.
pub proof fn lemma_put_keeps_the_rest(
    before: Map<Seq<char>, Seq<u8>>,
    after: Map<Seq<char>, Seq<u8>>,
    key: Seq<u8>,
    path: Seq<char>,
    tags: Seq<Seq<char>>,
    data: Seq<u8>,
)
    requires
        consistent(before, key),
        put_done(before, after, key, path, tags, data),
    ensures
        consistent(after, key),
        forall|other: Seq<char>|
            other != path ==> #[trigger] content_of(after, key, other) == content_of(before, key, other),
{
    let rows = manifest_of(before, key)->Ok_0;
    let new_rows = manifest_of(after, key)->Ok_0;
    let rest = without_path(rows, path);
    let new_row = new_rows.last();
    assert(new_rows =~= rest.push(new_row));
    lemma_without_path(rows, path);
    lemma_replaced(rows, new_row);
    assert forall|q: Seq<char>| #[trigger] count_with_path(new_rows, q) <= 1 by {
        if q != path {
            lemma_without_other_path(rows, q, path);
            assert(new_rows.drop_last() == rest);
            assert(count_with_path(rows, q) <= 1);
        }
    }
    assert forall|k: int| 0 <= k < new_rows.len() implies row_is_kept(after, #[trigger] new_rows[k]) by {
        if k < rest.len() {
            let i = lemma_without_member(rows, path, k);
            lemma_put_spares(before, after, key, path, tags, data, i);
        }
    }
    assert forall|k: int, l: int|
        0 <= k < new_rows.len() && 0 <= l < new_rows.len() && (#[trigger] new_rows[k]).path != (
        #[trigger] new_rows[l]).path implies rows_apart(new_rows[k], new_rows[l]) by {
        if k < rest.len() && l < rest.len() {
            let i = lemma_without_member(rows, path, k);
            let j = lemma_without_member(rows, path, l);
            assert(rows_apart(rows[i], rows[j]));
        } else if k < rest.len() {
            let i = lemma_without_member(rows, path, k);
            lemma_put_spares(before, after, key, path, tags, data, i);
        } else if l < rest.len() {
            let j = lemma_without_member(rows, path, l);
            lemma_put_spares(before, after, key, path, tags, data, j);
        }
    }
    assert forall|other: Seq<char>| other != path implies #[trigger] content_of(after, key, other)
        == content_of(before, key, other) by {
        lemma_without_keeps_first(rows, path, other);
        lemma_first_with_path(rows, other);
        lemma_first_with_path(rest, other);
        assert(new_rows.drop_last() == rest);
        match first_with_path(rows, other) {
            Some(i) => {
                let k = first_with_path(rest, other)->Some_0;
                assert(first_with_path(new_rows, other) == Some(k));
                assert(new_rows[k] == rows[i]);
                lemma_put_spares(before, after, key, path, tags, data, i);
            },
            None => {
                assert(first_with_path(new_rows, other) is None);
            },
        }
    }
}

/// A consistent store stays consistent under `rm`, and removing the entry of
/// one path leaves what is stored under every other path as it was.
pub proof fn lemma_rm_keeps_the_rest(
    before: Map<Seq<char>, Seq<u8>>,
    after: Map<Seq<char>, Seq<u8>>,
    key: Seq<u8>,
    path: Seq<char>,
)
    requires
        consistent(before, key),
        rm_done(before, after, key, path),
    ensures
        consistent(after, key),
        forall|other: Seq<char>|
            other != path ==> #[trigger] content_of(after, key, other) == content_of(before, key, other),
{
    let rows = manifest_of(before, key)->Ok_0;
    let rest = manifest_of(after, key)->Ok_0;
    let gone_at = first_with_path(rows, path)->Some_0;
    let touched = manifest_files() + row_files(rows[gone_at].garbled_path);
    lemma_first_with_path(rows, path);
    lemma_without_path(rows, path);
    assert forall|i: int| 0 <= i < rows.len() && rows[i].path != path implies row_is_kept(
        after,
        #[trigger] rows[i],
    ) && sealed_at(after, key, rows[i].garbled_path) == sealed_at(before, key, rows[i].garbled_path) by {
        let g = rows[i].garbled_path;
        assert(row_is_kept(before, rows[i]));
        assert(rows_apart(rows[i], rows[gone_at]));
        assert(!manifest_files().contains(g));
        assert(!manifest_files().contains(sidecar(g)));
        lemma_untouched_row(before, after, key, touched, rows[i]);
    }
    assert forall|q: Seq<char>| #[trigger] count_with_path(rest, q) <= 1 by {
        if q != path {
            lemma_without_other_path(rows, q, path);
            assert(count_with_path(rows, q) <= 1);
        }
    }
    assert forall|k: int| 0 <= k < rest.len() implies row_is_kept(after, #[trigger] rest[k]) by {
        let i = lemma_without_member(rows, path, k);
        assert(row_is_kept(after, rows[i]));
    }
    assert forall|k: int, l: int|
        0 <= k < rest.len() && 0 <= l < rest.len() && (#[trigger] rest[k]).path != (#[trigger] rest[l]).path
        implies rows_apart(rest[k], rest[l]) by {
        let i = lemma_without_member(rows, path, k);
        let j = lemma_without_member(rows, path, l);
        assert(rows_apart(rows[i], rows[j]));
    }
    assert forall|other: Seq<char>| other != path implies #[trigger] content_of(after, key, other)
        == content_of(before, key, other) by {
        lemma_without_keeps_first(rows, path, other);
        lemma_first_with_path(rows, other);
        match first_with_path(rows, other) {
            Some(i) => {
                let k = first_with_path(rest, other)->Some_0;
                assert(rest[k] == rows[i]);
                assert(row_is_kept(after, rows[i]));
            },
            None => {},
        }
    }
}

} // verus!
