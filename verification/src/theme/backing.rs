//! The configuration files behind a theme model: the text of each, and what it held when it
//! was last read or written.

use crate::apply;
use crate::apply::FileWrite;
use crate::disk;
use crate::disk::{decode, encode, Files};
use crate::freshness;
use crate::freshness::FreshnessTracker;
use crate::table;
use crate::text;
use vstd::prelude::*;

verus! {

/// A configuration file and its text.
#[derive(Debug)]
pub struct BackingText {
    path: String,
    text: String,
}

impl View for BackingText {
    type V = (Seq<char>, Seq<char>);

    closed spec fn view(&self) -> (Seq<char>, Seq<char>) {
        (self.path@, self.text@)
    }
}

impl Clone for BackingText {
    fn clone(&self) -> (r: Self)
        ensures
            r@ == self@,
    {
        BackingText { path: self.path.clone(), text: self.text.clone() }
    }
}

impl BackingText {
    /// Where the file is.
    pub fn path(&self) -> (r: &str)
        ensures
            r@ == self@.0,
    {
        self.path.as_str()
    }

    /// The file's text.
    pub fn text(&self) -> (r: &str)
        ensures
            r@ == self@.1,
    {
        self.text.as_str()
    }

    /// Takes another text for what the file holds.
    pub fn set_text(&mut self, text: String)
        ensures
            final(self)@ == (old(self)@.0, text@),
    {
        self.text = text;
    }
}

/// Reads the file at a path, if it can be read and is UTF-8.
pub fn read_backing(path: &str, disk: &Files) -> (r: Option<BackingText>)
    ensures
        match r {
            Some(backing) => backing@.0 == path@ && disk::text_of(disk@, path@) == Some(backing@.1),
            None => disk::text_of(disk@, path@) is None,
        },
{
    match disk.text(path) {
        Some(text) => Some(BackingText { path: path.to_owned(), text }),
        None => None,
    }
}

/// The configuration files that a model edits.
#[derive(Debug)]
pub struct BackingSet {
    files: Vec<BackingText>,
    freshness: FreshnessTracker,
}

/// The mathematical counterpart of [`BackingSet`].
pub struct Backing {
    /// The texts of the files that could be read, by path.
    pub files: Seq<(Seq<char>, Seq<char>)>,
    /// What each of them held when it was last read or written.
    pub baselines: Seq<(Seq<char>, Seq<u8>)>,
}

spec fn file_models(files: Seq<BackingText>) -> Seq<(Seq<char>, Seq<char>)> {
    files.map_values(|file: BackingText| file@)
}

impl View for BackingSet {
    type V = Backing;

    closed spec fn view(&self) -> Backing {
        Backing { files: file_models(self.files@), baselines: self.freshness@ }
    }
}

/// The files among the first `n` paths that can be read.
pub open spec fn loaded_upto(
    paths: Seq<Seq<char>>,
    disk: Seq<(Seq<char>, Seq<u8>)>,
    n: int,
) -> Backing
    decreases n,
{
    if n <= 0 {
        Backing { files: Seq::empty(), baselines: Seq::empty() }
    } else {
        let before = loaded_upto(paths, disk, n - 1);
        match disk::text_of(disk, paths[n - 1]) {
            Some(text) => Backing {
                files: before.files.push((paths[n - 1], text)),
                baselines: table::put(
                    before.baselines,
                    paths[n - 1],
                    vstd::utf8::encode_utf8(text),
                ),
            },
            None => before,
        }
    }
}

/// The files among the given paths that can be read.
pub open spec fn loaded(paths: Seq<Seq<char>>, disk: Seq<(Seq<char>, Seq<u8>)>) -> Backing {
    loaded_upto(paths, disk, paths.len() as int)
}

/// The files after one of them was written.
pub open spec fn absorbed(set: Backing, write: apply::Write) -> Backing {
    Backing {
        files: if vstd::utf8::valid_utf8(write.contents) && table::lookup(
            set.files,
            write.path,
        ) is Some {
            table::put(set.files, write.path, vstd::utf8::decode_utf8(write.contents))
        } else {
            set.files
        },
        baselines: table::put(set.baselines, write.path, write.contents),
    }
}

/// The files after the first `n` of the given writes.
pub open spec fn absorbed_upto(set: Backing, writes: Seq<apply::Write>, n: int) -> Backing
    decreases n,
{
    if n <= 0 {
        set
    } else {
        absorbed(absorbed_upto(set, writes, n - 1), writes[n - 1])
    }
}

/// The files after the given writes.
pub open spec fn absorbed_all(set: Backing, writes: Seq<apply::Write>) -> Backing {
    absorbed_upto(set, writes, writes.len() as int)
}

/// The characters of each of the given texts.
pub open spec fn str_views(texts: Seq<&str>) -> Seq<Seq<char>> {
    texts.map_values(|s: &str| s@)
}

impl BackingSet {
    /// Reads the files at the given paths, leaving out those that cannot be read or are not
    /// UTF-8.
    pub fn load(paths: &[&str], disk: &Files) -> (r: Self)
        ensures
            r@ == loaded(str_views(paths@), disk@),
    {
        let ghost all = str_views(paths@);
        let mut files: Vec<BackingText> = Vec::new();
        let mut tracker = FreshnessTracker::new();
        let mut i: usize = 0;
        assert(file_models(files@) =~= Seq::<(Seq<char>, Seq<char>)>::empty());
        while i < paths.len()
            invariant
                i <= paths.len(),
                all == str_views(paths@),
                file_models(files@) == loaded_upto(all, disk@, i as int).files,
                tracker@ == loaded_upto(all, disk@, i as int).baselines,
            decreases paths.len() - i,
        {
            assert(all[i as int] == paths@[i as int]@);
            if let Some(file) = read_backing(paths[i], disk) {
                let ghost before = file_models(files@);
                tracker.record_bytes(file.path.as_str(), &encode(file.text.as_str()));
                files.push(file);
                assert(file_models(files@) =~= before.push(file@));
            }
            i += 1;
        }
        BackingSet { files, freshness: tracker }
    }

    fn position(&self, path: &str) -> (r: Option<usize>)
        ensures
            match r {
                Some(i) => i < self@.files.len() && table::index_of(self@.files, path@) == Some(
                    i as int,
                ),
                None => table::index_of(self@.files, path@) is None,
            },
    {
        let ghost all = self@.files;
        let ghost wanted = table::keyed(all, path@);
        let mut i: usize = 0;
        while i < self.files.len()
            invariant
                i <= self.files.len(),
                all == file_models(self.files@),
                wanted == table::keyed(all, path@),
                forall|j: int| 0 <= j < i ==> !#[trigger] wanted(j),
            decreases self.files.len() - i,
        {
            assert(all[i as int] == self.files@[i as int]@);
            if text::same_text(self.files[i].path.as_str(), path) {
                proof {
                    crate::search::lemma_first_where_is(all.len() as int, wanted, i as int);
                }
                return Some(i);
            }
            i += 1;
        }
        proof {
            crate::search::lemma_first_where(all.len() as int, wanted);
        }
        None
    }

    /// The file at a path, if it could be read.
    pub fn get(&self, path: &str) -> (r: Option<&BackingText>)
        ensures
            match r {
                Some(file) => file@.0 == path@ && table::lookup(self@.files, path@) == Some(file@.1),
                None => table::lookup(self@.files, path@) is None,
            },
    {
        match self.position(path) {
            Some(i) => {
                proof {
                    crate::search::lemma_first_where(
                        self@.files.len() as int,
                        table::keyed(self@.files, path@),
                    );
                    assert(self@.files[i as int] == self.files@[i as int]@);
                }
                Some(&self.files[i])
            },
            None => None,
        }
    }

    /// Whether any of the files changed on disk.
    pub fn check_conflict(&self, disk: &Files) -> (r: bool)
        ensures
            r == !freshness::unchanged(self@.baselines, disk@),
    {
        let found = self.freshness.check_conflicts(disk);
        proof {
            freshness::lemma_no_conflicts(self@.baselines, disk@);
            assert(freshness::conflict_models(found@).len() == found@.len());
        }
        found.len() > 0
    }

    /// Takes the given writes for done.
    pub fn absorb_writes(&mut self, writes: &Vec<FileWrite>)
        ensures
            final(self)@ == absorbed_all(old(self)@, apply::write_models(writes@)),
    {
        let ghost before = self@;
        let ghost all = apply::write_models(writes@);
        let mut i: usize = 0;
        while i < writes.len()
            invariant
                i <= writes.len(),
                all == apply::write_models(writes@),
                self@ == absorbed_upto(before, all, i as int),
            decreases writes.len() - i,
        {
            assert(all[i as int] == writes@[i as int]@);
            self.absorb(&writes[i]);
            i += 1;
        }
    }

    fn absorb(&mut self, write: &FileWrite)
        ensures
            final(self)@ == absorbed(old(self)@, write@),
    {
        let ghost before = self@;
        self.freshness.record_bytes(write.path.as_str(), &write.contents);
        if let Some(text) = decode(&write.contents) {
            if let Some(i) = self.position(write.path.as_str()) {
                let file = BackingText { path: write.path.clone(), text };
                let ghost model = file@;
                self.files.set(i, file);
                assert(self@.files =~= before.files.update(i as int, model));
            }
        }
    }
}

} // verus!
