//! The files of the working tree, held in memory.
//!
//! The store reads and changes this image; whoever owns the directory loads
//! it from there and writes it back.

use vstd::prelude::*;
use vstd::string::*;

verus! {

/// One file: its name, relative to the root of the working tree, and its
/// bytes.
#[derive(Debug)]
pub struct StoredFile {
    pub name: String,
    pub data: Vec<u8>,
}

/// The files of a working tree. No name occurs twice.
#[derive(Debug)]
pub struct WorkTree {
    pub files: Vec<StoredFile>,
}

/// Whether some file of the list has the name.
pub open spec fn has_file(files: Seq<StoredFile>, name: Seq<char>) -> bool {
    exists|i: int| 0 <= i < files.len() && (#[trigger] files[i]).name@ == name
}

/// The place of a file with the name.
pub open spec fn file_index(files: Seq<StoredFile>, name: Seq<char>) -> int {
    choose|i: int| 0 <= i < files.len() && (#[trigger] files[i]).name@ == name
}

/// No name occurs twice in the list.
pub open spec fn distinct_names(files: Seq<StoredFile>) -> bool {
    forall|i: int, j: int|
        0 <= i < j < files.len() ==> (#[trigger] files[i]).name@ != (#[trigger] files[j]).name@
}

/// The list of files as a map from names to contents.
pub open spec fn files_map(files: Seq<StoredFile>) -> Map<Seq<char>, Seq<u8>> {
    Map::new(|name: Seq<char>| has_file(files, name), |name: Seq<char>| files[file_index(files, name)].data@)
}

pub proof fn lemma_file_at(files: Seq<StoredFile>, i: int)
    requires
        distinct_names(files),
        0 <= i < files.len(),
    ensures
        has_file(files, files[i].name@),
        file_index(files, files[i].name@) == i,
        files_map(files)[files[i].name@] == files[i].data@,
{
    let name = files[i].name@;
    let j = file_index(files, name);
    assert(0 <= j < files.len() && files[j].name@ == name);
}

impl View for WorkTree {
    type V = Map<Seq<char>, Seq<u8>>;

    open spec fn view(&self) -> Map<Seq<char>, Seq<u8>> {
        files_map(self.files@)
    }
}

/// A copy of the bytes.
pub fn copy_bytes(bytes: &[u8]) -> (r: Vec<u8>)
    ensures
        r@ == bytes@,
{
    let mut r: Vec<u8> = Vec::new();
    let mut i: usize = 0;
    while i < bytes.len()
        invariant
            0 <= i <= bytes.len(),
            r@ == bytes@.take(i as int),
        decreases bytes.len() - i,
    {
        r.push(bytes[i]);
        assert(bytes@.take(i + 1) == bytes@.take(i as int).push(bytes@[i as int]));
        i += 1;
    }
    assert(bytes@.take(bytes.len() as int) == bytes@);
    r
}

impl WorkTree {
    /// No name occurs twice.
    pub open spec fn wf(&self) -> bool {
        distinct_names(self.files@)
    }

    /// A tree without files.
    pub fn new() -> (t: WorkTree)
        ensures
            t.wf(),
            t@ == Map::<Seq<char>, Seq<u8>>::empty(),
    {
        let t = WorkTree { files: Vec::new() };
        assert(t@ =~= Map::<Seq<char>, Seq<u8>>::empty());
        t
    }

    /// The number of files.
    pub fn len(&self) -> (n: usize)
        ensures
            n == self.files@.len(),
    {
        self.files.len()
    }

    /// The file at place `i`.
    pub fn file(&self, i: usize) -> (f: &StoredFile)
        requires
            i < self.files@.len(),
        ensures
            *f == self.files@[i as int],
    {
        &self.files[i]
    }

    /// The place of the file with the name.
    fn position(&self, name: &str) -> (r: Option<usize>)
        requires
            self.wf(),
        ensures
            match r {
                Some(i) => i < self.files@.len() && self.files@[i as int].name@ == name@ && self@.contains_key(
                    name@,
                ) && self@[name@] == self.files@[i as int].data@,
                None => !self@.contains_key(name@),
            },
    {
        let wanted = name.to_owned();
        let mut i: usize = 0;
        while i < self.files.len()
            invariant
                0 <= i <= self.files.len(),
                self.wf(),
                wanted@ == name@,
                forall|j: int| 0 <= j < i ==> (#[trigger] self.files@[j]).name@ != name@,
            decreases self.files.len() - i,
        {
            if self.files[i].name == wanted {
                proof {
                    lemma_file_at(self.files@, i as int);
                }
                return Some(i);
            }
            i += 1;
        }
        None
    }

    /// Whether a file has the name.
    pub fn contains(&self, name: &str) -> (b: bool)
        requires
            self.wf(),
        ensures
            b == self@.contains_key(name@),
    {
        self.position(name).is_some()
    }

    /// The bytes of the file with the name.
    pub fn get(&self, name: &str) -> (r: Option<&Vec<u8>>)
        requires
            self.wf(),
        ensures
            match r {
                Some(data) => self@.contains_key(name@) && self@[name@] == data@,
                None => !self@.contains_key(name@),
            },
    {
        match self.position(name) {
            Some(i) => Some(&self.files[i].data),
            None => None,
        }
    }

    /// Writes a file: a file of that name is replaced, another name is added.
    pub fn put(&mut self, name: &str, data: Vec<u8>)
        requires
            old(self).wf(),
        ensures
            final(self).wf(),
            final(self)@ == old(self)@.insert(name@, data@),
    {
        let ghost before = self.files@;
        match self.position(name) {
            Some(i) => {
                let owned = name.to_owned();
                self.files.set(i, StoredFile { name: owned, data });
                proof {
                    let after = self.files@;
                    assert forall|k: int, l: int| 0 <= k < l < after.len() implies (#[trigger] after[k]).name@ != (
                    #[trigger] after[l]).name@ by {
                        assert(after[k].name@ == before[k].name@);
                        assert(after[l].name@ == before[l].name@);
                    }
                    assert forall|n: Seq<char>| has_file(after, n) == has_file(before, n) by {
                        if has_file(after, n) {
                            let k = file_index(after, n);
                            assert(before[k].name@ == n);
                        }
                        if has_file(before, n) {
                            let k = file_index(before, n);
                            assert(after[k].name@ == n);
                        }
                    }
                    assert forall|n: Seq<char>| has_file(after, n) implies files_map(after)[n] == files_map(
                        before,
                    ).insert(name@, data@)[n] by {
                        let k = file_index(after, n);
                        lemma_file_at(after, k);
                        if n != name@ {
                            assert(before[k].name@ == n);
                            lemma_file_at(before, k);
                        } else {
                            lemma_file_at(after, i as int);
                        }
                    }
                    assert(files_map(after) =~= files_map(before).insert(name@, data@));
                }
            },
            None => {
                let owned = name.to_owned();
                self.files.push(StoredFile { name: owned, data });
                proof {
                    let after = self.files@;
                    let last = before.len() as int;
                    assert forall|k: int, l: int| 0 <= k < l < after.len() implies (#[trigger] after[k]).name@ != (
                    #[trigger] after[l]).name@ by {
                        if l == last {
                            assert(before[k].name@ == after[k].name@);
                            assert(has_file(before, before[k].name@));
                        } else {
                            assert(after[k] == before[k]);
                            assert(after[l] == before[l]);
                        }
                    }
                    assert forall|n: Seq<char>| has_file(after, n) == (has_file(before, n) || n == name@) by {
                        if has_file(after, n) {
                            let k = file_index(after, n);
                            if k < last {
                                assert(before[k].name@ == n);
                            }
                        }
                        if has_file(before, n) {
                            let k = file_index(before, n);
                            assert(after[k].name@ == n);
                        }
                        if n == name@ {
                            assert(after[last].name@ == n);
                        }
                    }
                    assert forall|n: Seq<char>| has_file(after, n) implies files_map(after)[n] == files_map(
                        before,
                    ).insert(name@, data@)[n] by {
                        let k = file_index(after, n);
                        lemma_file_at(after, k);
                        if n != name@ {
                            assert(k < last);
                            assert(before[k] == after[k]);
                            lemma_file_at(before, k);
                        } else {
                            lemma_file_at(after, last);
                        }
                    }
                    assert(files_map(after) =~= files_map(before).insert(name@, data@));
                }
            },
        }
    }

    /// Removes the file with the name, and tells whether there was one.
    pub fn remove(&mut self, name: &str) -> (existed: bool)
        requires
            old(self).wf(),
        ensures
            final(self).wf(),
            final(self)@ == old(self)@.remove(name@),
            existed == old(self)@.contains_key(name@),
    {
        let ghost before = self.files@;
        match self.position(name) {
            Some(i) => {
                self.files.remove(i);
                proof {
                    let after = self.files@;
                    assert(after =~= before.remove(i as int));
                    assert forall|k: int, l: int| 0 <= k < l < after.len() implies (#[trigger] after[k]).name@ != (
                    #[trigger] after[l]).name@ by {
                        let bk = if k < i { k } else { k + 1 };
                        let bl = if l < i { l } else { l + 1 };
                        assert(after[k] == before[bk]);
                        assert(after[l] == before[bl]);
                    }
                    assert forall|n: Seq<char>| has_file(after, n) == (has_file(before, n) && n != name@) by {
                        if has_file(after, n) {
                            let k = file_index(after, n);
                            let bk = if k < i { k } else { k + 1 };
                            assert(after[k] == before[bk]);
                            assert(before[bk].name@ == n);
                            if n == name@ {
                                lemma_file_at(before, bk);
                                lemma_file_at(before, i as int);
                            }
                        }
                        if has_file(before, n) && n != name@ {
                            let k = file_index(before, n);
                            let ak = if k < i { k } else { k - 1 };
                            assert(after[ak] == before[k]);
                        }
                    }
                    assert forall|n: Seq<char>| has_file(after, n) implies files_map(after)[n] == files_map(
                        before,
                    )[n] by {
                        let k = file_index(after, n);
                        let bk = if k < i { k } else { k + 1 };
                        assert(after[k] == before[bk]);
                        lemma_file_at(after, k);
                        lemma_file_at(before, bk);
                    }
                    assert(files_map(after) =~= files_map(before).remove(name@));
                }
                true
            },
            None => {
                proof {
                    assert(files_map(before) =~= files_map(before).remove(name@));
                }
                false
            },
        }
    }

    /// A copy of the tree.
    pub fn duplicate(&self) -> (t: WorkTree)
        requires
            self.wf(),
        ensures
            t.wf(),
            t@ == self@,
    {
        let mut files: Vec<StoredFile> = Vec::new();
        let mut i: usize = 0;
        while i < self.files.len()
            invariant
                0 <= i <= self.files.len(),
                files@.len() == i,
                forall|j: int|
                    0 <= j < i ==> (#[trigger] files@[j]).name@ == self.files@[j].name@ && files@[j].data@
                        == self.files@[j].data@,
            decreases self.files.len() - i,
        {
            let f = &self.files[i];
            files.push(StoredFile { name: f.name.clone(), data: copy_bytes(f.data.as_slice()) });
            i += 1;
        }
        let t = WorkTree { files };
        proof {
            let a = t.files@;
            let b = self.files@;
            assert forall|n: Seq<char>| has_file(a, n) == has_file(b, n) by {
                if has_file(a, n) {
                    let k = file_index(a, n);
                    assert(b[k].name@ == n);
                }
                if has_file(b, n) {
                    let k = file_index(b, n);
                    assert(a[k].name@ == n);
                }
            }
            assert forall|k: int, l: int| 0 <= k < l < a.len() implies (#[trigger] a[k]).name@ != (
            #[trigger] a[l]).name@ by {
                assert(a[k].name@ == b[k].name@);
                assert(a[l].name@ == b[l].name@);
            }
            assert forall|n: Seq<char>| has_file(a, n) implies files_map(a)[n] == files_map(b)[n] by {
                let k = file_index(a, n);
                lemma_file_at(a, k);
                assert(b[k].name@ == n);
                lemma_file_at(b, k);
            }
            assert(files_map(a) =~= files_map(b));
        }
        t
    }
}

} // verus!
