//! The index of the store: which logical path is kept under which file name.

use vstd::prelude::*;
use vstd::string::*;
use crate::document::{
    TomlValue, TomlTree, tree_field, tree_str, tree_strings, strings_tree, text_views, array_trees,
    is_plain_key, is_plain_document, is_record, is_record_list, is_leaf, document_text, document_of,
    push_field, strings_value, lemma_table_tree, lemma_table_map_empty, lemma_array_tree, value_fits, pairs_fit, items_fit, lemma_fits_deeper, lemma_fits_one_more, MAX_NESTING,
};
use crate::error::Error;

verus! {

/// One row of the manifest: the logical path, its tags, and the name of the
/// file that holds the sealed content.
#[derive(Debug)]
pub struct Entry {
    pub path: String,
    pub tags: Vec<String>,
    pub garbled_path: String,
}

/// What a caller asks to store: a logical path and its tags.
#[derive(Debug)]
pub struct EntryRequest {
    pub path: String,
    pub tags: Vec<String>,
}

/// The rows of the store, in the order in which they were added.
#[derive(Debug)]
pub struct Manifest {
    pub entries: Vec<Entry>,
}

/// A row with its texts as sequences of characters.
pub struct EntryView {
    pub path: Seq<char>,
    pub tags: Seq<Seq<char>>,
    pub garbled_path: Seq<char>,
}

impl View for Entry {
    type V = EntryView;

    open spec fn view(&self) -> EntryView {
        EntryView { path: self.path@, tags: text_views(self.tags@), garbled_path: self.garbled_path@ }
    }
}

/// The views of a list of rows.
pub open spec fn entry_views(entries: Seq<Entry>) -> Seq<EntryView> {
    Seq::new(entries.len(), |i: int| entries[i]@)
}

impl View for Manifest {
    type V = Seq<EntryView>;

    open spec fn view(&self) -> Seq<EntryView> {
        entry_views(self.entries@)
    }
}

/// A character that no logical path may hold: a control character.
pub open spec fn is_reserved_char(c: char) -> bool {
    c < ' ' || c == '\u{7f}'
}

/// A logical path is valid where it is not empty and holds no reserved
/// character.
pub open spec fn valid_path(path: Seq<char>) -> bool {
    &&& path.len() > 0
    &&& forall|i: int| 0 <= i < path.len() ==> !is_reserved_char(#[trigger] path[i])
}

/// The place of the first row with the path.
pub open spec fn first_with_path(entries: Seq<EntryView>, path: Seq<char>) -> Option<int>
    decreases entries.len(),
{
    if entries.len() == 0 {
        None
    } else {
        match first_with_path(entries.drop_last(), path) {
            Some(i) => Some(i),
            None => if entries.last().path == path {
                Some(entries.len() - 1)
            } else {
                None
            },
        }
    }
}

/// The number of rows with the path.
pub open spec fn count_with_path(entries: Seq<EntryView>, path: Seq<char>) -> nat
    decreases entries.len(),
{
    if entries.len() == 0 {
        0
    } else {
        count_with_path(entries.drop_last(), path) + if entries.last().path == path {
            1nat
        } else {
            0nat
        }
    }
}

/// The rows without those that have the path, in their order.
pub open spec fn without_path(entries: Seq<EntryView>, path: Seq<char>) -> Seq<EntryView>
    decreases entries.len(),
{
    if entries.len() == 0 {
        Seq::empty()
    } else if entries.last().path == path {
        without_path(entries.drop_last(), path)
    } else {
        without_path(entries.drop_last(), path).push(entries.last())
    }
}

/// The document of a row.
pub open spec fn entry_tree(e: EntryView) -> TomlTree {
    TomlTree::Table(
        Map::<Seq<char>, TomlTree>::empty().insert("path"@, TomlTree::Str(e.path)).insert(
            "tags"@,
            strings_tree(e.tags),
        ).insert("garbled_path"@, TomlTree::Str(e.garbled_path)),
    )
}

/// The documents of a list of rows.
pub open spec fn entry_trees(entries: Seq<EntryView>) -> Seq<TomlTree> {
    Seq::new(entries.len(), |i: int| entry_tree(entries[i]))
}

/// The document of a manifest: the list of its rows under `entries`.
pub open spec fn manifest_tree(entries: Seq<EntryView>) -> TomlTree {
    TomlTree::Table(
        Map::<Seq<char>, TomlTree>::empty().insert("entries"@, TomlTree::Array(entry_trees(entries))),
    )
}

/// The row that a document holds: its path, its tags and its file name, each
/// with its type. Keys that are not fields are passed over.
pub open spec fn tree_entry(t: TomlTree) -> Option<EntryView> {
    match (tree_str(t, "path"@), tree_field(t, "tags"@), tree_str(t, "garbled_path"@)) {
        (Some(path), Some(tags), Some(garbled_path)) => match tree_strings(tags) {
            Some(tags) => Some(EntryView { path, tags, garbled_path }),
            None => None,
        },
        _ => None,
    }
}

/// The rows that a document holds, or `Malformed` where it has no list under
/// `entries` or an item of the list is no row.
pub open spec fn tree_manifest(t: TomlTree) -> Result<Seq<EntryView>, Error> {
    match tree_field(t, "entries"@) {
        Some(TomlTree::Array(items)) => if forall|i: int|
            0 <= i < items.len() ==> tree_entry(#[trigger] items[i]) is Some {
            Ok(Seq::new(items.len(), |i: int| tree_entry(items[i])->Some_0))
        } else {
            Err(Error::Malformed)
        },
        _ => Err(Error::Malformed),
    }
}

/// The text of a manifest.
pub open spec fn manifest_text(entries: Seq<EntryView>) -> Option<Seq<u8>> {
    document_text(manifest_tree(entries))
}

/// The rows that the bytes of a manifest hold.
pub open spec fn text_manifest(bytes: Seq<u8>) -> Result<Seq<EntryView>, Error> {
    match document_of(bytes) {
        Some(t) => tree_manifest(t),
        None => Err(Error::Malformed),
    }
}

proof fn reveal_entry_keys()
    ensures
        "path"@.len() == 4,
        "tags"@.len() == 4,
        "garbled_path"@.len() == 12,
        "entries"@.len() == 7,
        "path"@[0] == 'p',
        "tags"@[0] == 't',
        is_plain_key("path"@),
        is_plain_key("tags"@),
        is_plain_key("garbled_path"@),
        is_plain_key("entries"@),
{
    reveal_strlit("path");
    reveal_strlit("tags");
    reveal_strlit("garbled_path");
    reveal_strlit("entries");
}

/// Reading the document of a row gives the row back.
pub proof fn lemma_entry_tree_round_trip(e: EntryView)
    ensures
        tree_entry(entry_tree(e)) == Some(e),
        is_record(entry_tree(e)),
{
    reveal_entry_keys();
    let t = entry_tree(e);
    assert(tree_str(t, "path"@) == Some(e.path));
    assert(tree_field(t, "tags"@) == Some(strings_tree(e.tags)));
    assert(tree_strings(strings_tree(e.tags))->Some_0 =~= e.tags);
    assert(tree_str(t, "garbled_path"@) == Some(e.garbled_path));
    assert(is_leaf(strings_tree(e.tags)));
}

/// Reading the document of a manifest gives its rows back, and the document
/// is one of the plain documents.
pub proof fn lemma_manifest_tree_round_trip(entries: Seq<EntryView>)
    ensures
        tree_manifest(manifest_tree(entries)) == Ok::<Seq<EntryView>, Error>(entries),
        is_plain_document(manifest_tree(entries)),
{
    reveal_entry_keys();
    let t = manifest_tree(entries);
    let items = entry_trees(entries);
    assert(tree_field(t, "entries"@) == Some(TomlTree::Array(items)));
    assert forall|i: int| 0 <= i < items.len() implies tree_entry(#[trigger] items[i]) == Some(entries[i])
        && is_record(items[i]) by {
        lemma_entry_tree_round_trip(entries[i]);
    }
    assert(Seq::new(items.len(), |i: int| tree_entry(items[i])->Some_0) =~= entries);
    let fields = t->Table_0;
    if entries.len() == 0 {
        assert(is_leaf(fields["entries"@]));
    } else {
        assert(is_record_list(fields["entries"@]));
    }
}

impl Clone for Entry {
    fn clone(&self) -> (r: Self)
        ensures
            r@ == self@,
    {
        let r = Entry {
            path: self.path.clone(),
            tags: copy_texts(&self.tags),
            garbled_path: self.garbled_path.clone(),
        };
        r
    }
}

/// A copy of a list of texts.
pub fn copy_texts(texts: &Vec<String>) -> (r: Vec<String>)
    ensures
        text_views(r@) == text_views(texts@),
        r@.len() == texts@.len(),
{
    let mut r: Vec<String> = Vec::new();
    let mut i: usize = 0;
    while i < texts.len()
        invariant
            0 <= i <= texts.len(),
            r@.len() == i,
            forall|j: int| 0 <= j < i ==> (#[trigger] r@[j])@ == texts@[j]@,
        decreases texts.len() - i,
    {
        r.push(texts[i].clone());
        i += 1;
    }
    assert(text_views(r@) =~= text_views(texts@));
    r
}

impl EntryRequest {
    /// Whether the logical path is valid: fails with `InvalidPath` exactly
    /// where it is empty or holds a reserved character.
    pub fn validate(&self) -> (r: Result<(), Error>)
        ensures
            valid_path(self.path@) ==> r is Ok,
            !valid_path(self.path@) ==> r == Err::<(), Error>(Error::InvalidPath),
    {
        let path = self.path.as_str();
        let n = path.unicode_len();
        if n == 0 {
            return Err(Error::InvalidPath);
        }
        let mut i: usize = 0;
        while i < n
            invariant
                0 <= i <= n,
                n == path@.len(),
                path@ == self.path@,
                forall|j: int| 0 <= j < i ==> !is_reserved_char(#[trigger] path@[j]),
            decreases n - i,
        {
            let c = path.get_char(i);
            if c < ' ' || c == '\u{7f}' {
                return Err(Error::InvalidPath);
            }
            i += 1;
        }
        Ok(())
    }
}

impl Entry {
    /// The document of this row.
    pub fn to_toml_value(&self) -> (v: TomlValue)
        ensures
            v@ == entry_tree(self@),
            value_fits(v, 2),
    {
        proof {
            lemma_table_map_empty();
            lemma_fits_one_more(1);
        }
        let mut fields: Vec<(String, TomlValue)> = Vec::new();
        push_field(&mut fields, "path", TomlValue::Str(self.path.clone()));
        push_field(&mut fields, "tags", strings_value(&self.tags));
        push_field(&mut fields, "garbled_path", TomlValue::Str(self.garbled_path.clone()));
        proof {
            lemma_table_tree(fields);
            assert(pairs_fit(fields@, 1));
        }
        TomlValue::Table(fields)
    }

    /// The row that a document holds.
    pub fn from_toml_value(v: &TomlValue) -> (r: Option<Entry>)
        ensures
            match r {
                Some(e) => tree_entry(v@) == Some(e@),
                None => tree_entry(v@) is None,
            },
    {
        let path = v.get_str("path");
        let garbled_path = v.get_str("garbled_path");
        let tags = match v.get("tags") {
            Some(tags) => tags.as_strings(),
            None => None,
        };
        match (path, tags, garbled_path) {
            (Some(path), Some(tags), Some(garbled_path)) => Some(Entry { path, tags, garbled_path }),
            _ => None,
        }
    }
}

impl Manifest {
    /// The manifest without rows.
    pub fn empty() -> (m: Manifest)
        ensures
            m@ == Seq::<EntryView>::empty(),
    {
        let m = Manifest { entries: Vec::new() };
        assert(m@ =~= Seq::<EntryView>::empty());
        m
    }

    /// The document of this manifest.
    pub fn to_toml_value(&self) -> (v: TomlValue)
        ensures
            v@ == manifest_tree(self@),
            value_fits(v, 4),
    {
        let mut items: Vec<TomlValue> = Vec::new();
        let mut i: usize = 0;
        while i < self.entries.len()
            invariant
                0 <= i <= self.entries.len(),
                items@.len() == i,
                forall|j: int| 0 <= j < i ==> (#[trigger] items@[j]).tree() == entry_tree(self.entries@[j]@),
                forall|j: int| 0 <= j < i ==> value_fits(#[trigger] items@[j], 2),
            decreases self.entries.len() - i,
        {
            items.push(self.entries[i].to_toml_value());
            i += 1;
        }
        proof {
            lemma_array_tree(items);
            assert(array_trees(items@) =~= entry_trees(self@));
            lemma_table_map_empty();
            lemma_fits_one_more(2);
            lemma_fits_one_more(3);
            assert(items_fit(items@, 2));
        }
        let mut fields: Vec<(String, TomlValue)> = Vec::new();
        push_field(&mut fields, "entries", TomlValue::Array(items));
        proof {
            lemma_table_tree(fields);
            assert(pairs_fit(fields@, 3));
        }
        TomlValue::Table(fields)
    }

    /// The manifest that a document holds.
    pub fn from_toml_value(v: &TomlValue) -> (r: Result<Manifest, Error>)
        ensures
            match tree_manifest(v@) {
                Ok(entries) => r matches Ok(m) && m@ == entries,
                Err(e) => r matches Err(x) && x == e,
            },
    {
        let items = match v.get("entries") {
            Some(list) => match list.as_array() {
                Some(items) => items,
                None => {
                    return Err(Error::Malformed);
                },
            },
            None => {
                return Err(Error::Malformed);
            },
        };
        let ghost trees = array_trees(items@);
        let mut entries: Vec<Entry> = Vec::new();
        let mut i: usize = 0;
        while i < items.len()
            invariant
                0 <= i <= items.len(),
                entries@.len() == i,
                trees == array_trees(items@),
                tree_field(v@, "entries"@) == Some(TomlTree::Array(trees)),
                forall|j: int| 0 <= j < i ==> tree_entry(#[trigger] trees[j]) == Some(entries@[j]@),
            decreases items.len() - i,
        {
            match Entry::from_toml_value(&items[i]) {
                Some(e) => {
                    entries.push(e);
                },
                None => {
                    proof {
                        assert(tree_entry(trees[i as int]) is None);
                    }
                    return Err(Error::Malformed);
                },
            }
            i += 1;
        }
        let m = Manifest { entries };
        proof {
            assert(m@ =~= Seq::new(trees.len(), |i: int| tree_entry(trees[i])->Some_0));
        }
        Ok(m)
    }

    /// The text of this manifest. Fails with `Malformed` exactly where the
    /// document has no text. The text that is returned reads back as this
    /// manifest.
    pub fn to_toml_bytes(&self) -> (r: Result<Vec<u8>, Error>)
        ensures
            match manifest_text(self@) {
                Some(bytes) => r matches Ok(v) && v@ == bytes && text_manifest(bytes) == Ok::<
                    Seq<EntryView>,
                    Error,
                >(self@),
                None => r matches Err(e) && e == Error::Malformed,
            },
    {
        let v = self.to_toml_value();
        proof {
            lemma_manifest_tree_round_trip(self@);
            lemma_fits_deeper(v, 4, MAX_NESTING as nat);
        }
        v.to_bytes()
    }

    /// The manifest that the bytes hold.
    pub fn from_toml_bytes(bytes: &[u8]) -> (r: Result<Manifest, Error>)
        ensures
            match text_manifest(bytes@) {
                Ok(entries) => r matches Ok(m) && m@ == entries,
                Err(e) => r matches Err(x) && x == e,
            },
    {
        match TomlValue::from_bytes(bytes) {
            Ok(v) => Manifest::from_toml_value(&v),
            Err(_) => Err(Error::Malformed),
        }
    }
}

/// The first row with a path is a row with that path, and no row before it
/// has the path.
pub proof fn lemma_first_with_path(entries: Seq<EntryView>, path: Seq<char>)
    ensures
        match first_with_path(entries, path) {
            Some(i) => 0 <= i < entries.len() && entries[i].path == path && count_with_path(entries, path)
                >= 1 && forall|j: int| 0 <= j < i ==> (#[trigger] entries[j]).path != path,
            None => count_with_path(entries, path) == 0 && forall|j: int|
                0 <= j < entries.len() ==> (#[trigger] entries[j]).path != path,
        },
    decreases entries.len(),
{
    if entries.len() > 0 {
        lemma_first_with_path(entries.drop_last(), path);
        let front = entries.drop_last();
        match first_with_path(front, path) {
            Some(i) => {
                assert forall|j: int| 0 <= j < i implies (#[trigger] entries[j]).path != path by {
                    assert(front[j].path != path);
                }
                assert(entries[i] == front[i]);
            },
            None => {
                assert forall|j: int| 0 <= j < entries.len() - 1 implies (#[trigger] entries[j]).path
                    != path by {
                    assert(front[j].path != path);
                }
            },
        }
    }
}

/// No row of what is left has the path that was taken out, and as many rows
/// are gone as had it.
pub proof fn lemma_without_path(entries: Seq<EntryView>, path: Seq<char>)
    ensures
        first_with_path(without_path(entries, path), path) is None,
        count_with_path(without_path(entries, path), path) == 0,
        without_path(entries, path).len() + count_with_path(entries, path) == entries.len(),
    decreases entries.len(),
{
    if entries.len() > 0 {
        lemma_without_path(entries.drop_last(), path);
        if entries.last().path != path {
            let rest = without_path(entries.drop_last(), path);
            assert(without_path(entries, path).drop_last() =~= rest);
        }
    }
}

/// Every row that is left was a row, and has another path than the one that
/// was taken out.
pub proof fn lemma_without_member(entries: Seq<EntryView>, path: Seq<char>, k: int) -> (i: int)
    requires
        0 <= k < without_path(entries, path).len(),
    ensures
        0 <= i < entries.len(),
        entries[i] == without_path(entries, path)[k],
        entries[i].path != path,
    decreases entries.len(),
{
    let front = entries.drop_last();
    if entries.last().path == path {
        lemma_without_member(front, path, k)
    } else if k < without_path(front, path).len() {
        lemma_without_member(front, path, k)
    } else {
        entries.len() - 1
    }
}

/// The first row with another path is still the first with that path when
/// the rows with `path` are taken out.
pub proof fn lemma_without_keeps_first(entries: Seq<EntryView>, path: Seq<char>, other: Seq<char>)
    requires
        other != path,
    ensures
        match first_with_path(entries, other) {
            Some(i) => first_with_path(without_path(entries, path), other) matches Some(k) && 0 <= k
                < without_path(entries, path).len() && 0 <= i < entries.len() && without_path(
                entries,
                path,
            )[k] == entries[i],
            None => first_with_path(without_path(entries, path), other) is None,
        },
    decreases entries.len(),
{
    if entries.len() > 0 {
        let front = entries.drop_last();
        lemma_without_keeps_first(front, path, other);
        lemma_first_with_path(front, other);
        lemma_first_with_path(without_path(front, path), other);
        if entries.last().path != path {
            let rest = without_path(front, path);
            assert(rest.push(entries.last()).drop_last() =~= rest);
        }
    }
}

/// A row added behind rows without its path is the one row with that path.
pub proof fn lemma_replaced(entries: Seq<EntryView>, row: EntryView)
    ensures
        first_with_path(without_path(entries, row.path).push(row), row.path) == Some(
            without_path(entries, row.path).len() as int,
        ),
        count_with_path(without_path(entries, row.path).push(row), row.path) == 1,
{
    lemma_without_path(entries, row.path);
    let rest = without_path(entries, row.path);
    assert(rest.push(row).drop_last() =~= rest);
}

/// A row with the path, behind rows without it, is the first with the path.
proof fn lemma_first_found(entries: Seq<EntryView>, i: int, path: Seq<char>)
    requires
        0 <= i < entries.len(),
        first_with_path(entries.take(i), path) is None,
        entries[i].path == path,
    ensures
        first_with_path(entries, path) == Some(i),
    decreases entries.len(),
{
    let front = entries.drop_last();
    if entries.len() == i + 1 {
        assert(front =~= entries.take(i));
    } else {
        assert(front.take(i) =~= entries.take(i));
        lemma_first_found(front, i, path);
    }
}

/// The rows of a list, as far as place `n`.
proof fn lemma_views_take(entries: Seq<Entry>, n: int)
    requires
        0 <= n < entries.len(),
    ensures
        entry_views(entries).take(n + 1).drop_last() == entry_views(entries).take(n),
        entry_views(entries).take(n + 1).last() == entries[n]@,
{
    assert(entry_views(entries).take(n + 1).drop_last() =~= entry_views(entries).take(n));
}

impl Manifest {
    /// The place of the first row with the path.
    pub fn find(&self, path: &str) -> (r: Option<usize>)
        ensures
            match r {
                Some(i) => first_with_path(self@, path@) == Some(i as int) && i < self.entries@.len(),
                None => first_with_path(self@, path@) is None,
            },
    {
        let wanted = path.to_owned();
        let mut i: usize = 0;
        while i < self.entries.len()
            invariant
                0 <= i <= self.entries.len(),
                wanted@ == path@,
                first_with_path(self@.take(i as int), path@) is None,
            decreases self.entries.len() - i,
        {
            proof {
                lemma_views_take(self.entries@, i as int);
            }
            if self.entries[i].path == wanted {
                proof {
                    lemma_first_found(self@, i as int, path@);
                }
                return Some(i);
            }
            i += 1;
        }
        proof {
            assert(self@.take(self.entries@.len() as int) =~= self@);
        }
        None
    }

    /// The number of rows with the path.
    pub fn count(&self, path: &str) -> (n: usize)
        ensures
            n == count_with_path(self@, path@),
    {
        let wanted = path.to_owned();
        let mut n: usize = 0;
        let mut i: usize = 0;
        while i < self.entries.len()
            invariant
                0 <= i <= self.entries.len(),
                wanted@ == path@,
                n <= i,
                n == count_with_path(self@.take(i as int), path@),
            decreases self.entries.len() - i,
        {
            proof {
                lemma_views_take(self.entries@, i as int);
            }
            if self.entries[i].path == wanted {
                n += 1;
            }
            i += 1;
        }
        proof {
            assert(self@.take(self.entries@.len() as int) =~= self@);
        }
        n
    }

    /// The manifest without the rows that have the path.
    pub fn without(&self, path: &str) -> (m: Manifest)
        ensures
            m@ == without_path(self@, path@),
    {
        let wanted = path.to_owned();
        let mut entries: Vec<Entry> = Vec::new();
        let mut i: usize = 0;
        while i < self.entries.len()
            invariant
                0 <= i <= self.entries.len(),
                wanted@ == path@,
                entry_views(entries@) == without_path(self@.take(i as int), path@),
            decreases self.entries.len() - i,
        {
            proof {
                lemma_views_take(self.entries@, i as int);
            }
            if !(self.entries[i].path == wanted) {
                let row = self.entries[i].clone();
                proof {
                    assert(entry_views(entries@.push(row)) =~= entry_views(entries@).push(row@));
                }
                entries.push(row);
            }
            i += 1;
        }
        proof {
            assert(self@.take(self.entries@.len() as int) =~= self@);
        }
        Manifest { entries }
    }

    /// Adds a row behind the others.
    pub fn push(&mut self, row: Entry)
        ensures
            final(self)@ == old(self)@.push(row@),
    {
        proof {
            assert(entry_views(self.entries@.push(row)) =~= entry_views(self.entries@).push(row@));
        }
        self.entries.push(row);
    }
}

} // verus!
