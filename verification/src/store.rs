//! The registrar's record of the artifact files it governs.
//!
//! Every write and deletion the registrar decides on is performed on this
//! in-memory record; the embedding program mirrors each mutation onto the
//! real filesystem.  The record is the authority for collision checks: a
//! path can be created only while no file is recorded under it.

use vstd::prelude::*;

use crate::assoc::{assoc_map, keys_distinct, lemma_assoc_contains, lemma_assoc_get,
    lemma_assoc_push, lemma_assoc_remove};

verus! {

/// The payload of one artifact file.
#[derive(Clone, Debug)]
pub enum FileData {
    /// Text written verbatim, such as a launcher descriptor.
    Text(String),
    /// Raw bytes, such as an encoded image.
    Binary(Vec<u8>),
}

/// What a file holds, mathematically.
pub enum FileContent {
    Text(Seq<char>),
    Binary(Seq<u8>),
}

impl View for FileData {
    type V = FileContent;

    open spec fn view(&self) -> FileContent {
        match self {
            FileData::Text(s) => FileContent::Text(s@),
            FileData::Binary(v) => FileContent::Binary(v@),
        }
    }
}

/// One recorded file.
#[derive(Clone, Debug)]
pub struct FileRecord {
    pub path: String,
    pub data: FileData,
}

impl View for FileRecord {
    type V = (Seq<char>, FileContent);

    open spec fn view(&self) -> (Seq<char>, FileContent) {
        (self.path@, self.data@)
    }
}

/// The set of files the registrar currently accounts for, keyed by path.
#[derive(Clone, Debug)]
pub struct FileStore {
    files: Vec<FileRecord>,
}

impl View for FileStore {
    type V = Map<Seq<char>, FileContent>;

    closed spec fn view(&self) -> Map<Seq<char>, FileContent> {
        assoc_map(self.records())
    }
}

impl FileStore {
    /// The underlying association sequence.
    spec fn records(&self) -> Seq<(Seq<char>, FileContent)> {
        self.files@.map_values(|r: FileRecord| r@)
    }

    /// Each path is recorded at most once.
    pub closed spec fn wf(&self) -> bool {
        keys_distinct(self.records())
    }

    /// An empty record.
    pub fn new() -> (r: Self)
        ensures
            r.wf(),
            r@ == Map::<Seq<char>, FileContent>::empty(),
    {
        FileStore { files: Vec::new() }
    }

    fn find(&self, path: &String) -> (r: Option<usize>)
        ensures
            match r {
                Some(i) => i < self.files@.len() && self.files@[i as int].path@ == path@,
                None => forall|i: int|
                    0 <= i < self.files@.len() ==> (#[trigger] self.files@[i]).path@ != path@,
            },
    {
        let n = self.files.len();
        let mut i: usize = 0;
        while i < n
            invariant
                0 <= i <= n,
                n == self.files@.len(),
                forall|j: int| 0 <= j < i ==> (#[trigger] self.files@[j]).path@ != path@,
            decreases n - i,
        {
            if crate::textutil::str_eq(self.files[i].path.as_str(), path.as_str()) {
                return Some(i);
            }
            i += 1;
        }
        None
    }

    /// Whether a file is recorded under the path.
    pub fn contains_path(&self, path: &String) -> (b: bool)
        ensures
            b == self@.contains_key(path@),
    {
        proof {
            lemma_assoc_contains(self.records(), path@);
        }
        match self.find(path) {
            Some(i) => {
                proof {
                    assert(self.records()[i as int].0 == path@);
                }
                true
            },
            None => {
                proof {
                    assert(forall|i: int| 0 <= i < self.records().len()
                        ==> (#[trigger] self.records()[i]).0 != path@);
                }
                false
            },
        }
    }

    /// The recorded payload under the path, if any.
    pub fn read(&self, path: &String) -> (r: Option<&FileData>)
        requires
            self.wf(),
        ensures
            match r {
                Some(d) => self@.contains_key(path@) && d@ == self@[path@],
                None => !self@.contains_key(path@),
            },
    {
        proof {
            lemma_assoc_contains(self.records(), path@);
        }
        match self.find(path) {
            Some(i) => {
                proof {
                    lemma_assoc_get(self.records(), i as int);
                }
                Some(&self.files[i].data)
            },
            None => {
                proof {
                    assert(forall|i: int| 0 <= i < self.records().len()
                        ==> (#[trigger] self.records()[i]).0 != path@);
                }
                None
            },
        }
    }

    /// Records a new file.  The path must be free: an existing artifact is
    /// never overwritten.
    pub fn create(&mut self, path: String, data: FileData)
        requires
            old(self).wf(),
            !old(self)@.contains_key(path@),
        ensures
            final(self).wf(),
            final(self)@ == old(self)@.insert(path@, data@),
    {
        let ghost p: Seq<char> = path@;
        let ghost d: FileContent = data@;
        proof {
            lemma_assoc_contains(old(self).records(), p);
        }
        self.files.push(FileRecord { path, data });
        proof {
            assert(self.records() =~= old(self).records().push((p, d)));
            lemma_assoc_push(old(self).records(), (p, d));
            assert forall|i: int, j: int| 0 <= i < j < self.records().len()
                implies (#[trigger] self.records()[i]).0 != (#[trigger] self.records()[j]).0 by {
                if j == self.records().len() - 1 {
                    assert(old(self).records()[i].0 != p);
                } else {
                    assert(old(self).records()[i] == self.records()[i]);
                    assert(old(self).records()[j] == self.records()[j]);
                }
            }
        }
    }

    /// Drops the record under the path, if any.  Deleting an unrecorded
    /// path is a no-op.
    pub fn delete(&mut self, path: &String)
        requires
            old(self).wf(),
        ensures
            final(self).wf(),
            final(self)@ == old(self)@.remove(path@),
    {
        proof {
            lemma_assoc_contains(self.records(), path@);
        }
        match self.find(path) {
            Some(i) => {
                self.files.remove(i);
                proof {
                    assert(self.records() =~= old(self).records().remove(i as int));
                    lemma_assoc_remove(old(self).records(), i as int);
                    assert(old(self).records()[i as int].0 == path@);
                    assert forall|a: int, b: int| 0 <= a < b < self.records().len()
                        implies (#[trigger] self.records()[a]).0 != (#[trigger] self.records()[b]).0 by {
                        let a0: int = if a < i { a } else { a + 1 };
                        let b0: int = if b < i { b } else { b + 1 };
                        assert(self.records()[a] == old(self).records()[a0]);
                        assert(self.records()[b] == old(self).records()[b0]);
                    }
                    assert(self@ =~= old(self)@.remove(path@));
                }
            },
            None => {
                proof {
                    assert(forall|i: int| 0 <= i < self.records().len()
                        ==> (#[trigger] self.records()[i]).0 != path@);
                    assert(!old(self)@.contains_key(path@));
                    assert(self@ =~= old(self)@.remove(path@));
                }
            },
        }
    }
}

} // verus!
