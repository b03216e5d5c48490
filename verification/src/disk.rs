//! Files by their paths: what a program sees of the disk when it looks.

use crate::search;
use crate::table;
use crate::text;
use vstd::prelude::*;

verus! {

/// One file: where it is and what it holds.
#[derive(Debug)]
struct FileBytes {
    path: String,
    bytes: Vec<u8>,
}

/// Files by their paths, as they are at one moment. A path that is not among them cannot be
/// read. Paths are told apart by their characters, so each file goes by one spelling of its path.
#[derive(Debug)]
pub struct Files {
    entries: Vec<FileBytes>,
}

spec fn entry_models(entries: Seq<FileBytes>) -> Seq<(Seq<char>, Seq<u8>)> {
    entries.map_values(|entry: FileBytes| (entry.path@, entry.bytes@))
}

impl View for Files {
    type V = Seq<(Seq<char>, Seq<u8>)>;

    closed spec fn view(&self) -> Seq<(Seq<char>, Seq<u8>)> {
        entry_models(self.entries@)
    }
}

/// The text of a file, if it can be read and is UTF-8.
pub open spec fn text_of(files: Seq<(Seq<char>, Seq<u8>)>, path: Seq<char>) -> Option<Seq<char>> {
    match table::lookup(files, path) {
        Some(bytes) => if vstd::utf8::valid_utf8(bytes) {
            Some(vstd::utf8::decode_utf8(bytes))
        } else {
            None
        },
        None => None,
    }
}

/// Decodes UTF-8 (`String::from_utf8`): the text that the bytes encode, or nothing where they
/// are not UTF-8.
#[verifier::external_body]
pub(crate) fn decode(bytes: &Vec<u8>) -> (r: Option<String>)
    ensures
        match r {
            Some(s) => vstd::utf8::valid_utf8(bytes@) && s@ == vstd::utf8::decode_utf8(bytes@),
            None => !vstd::utf8::valid_utf8(bytes@),
        },
{
    String::from_utf8(bytes.clone()).ok()
}

/// Encodes a text in UTF-8.
pub(crate) fn encode(s: &str) -> (r: Vec<u8>)
    ensures
        r@ == vstd::utf8::encode_utf8(s@),
{
    s.as_bytes_vec()
}

/// Copies bytes.
pub(crate) fn copy_bytes(bytes: &Vec<u8>) -> (r: Vec<u8>)
    ensures
        r@ == bytes@,
{
    let mut r: Vec<u8> = Vec::new();
    let mut i: usize = 0;
    while i < bytes.len()
        invariant
            i <= bytes.len(),
            r@ == bytes@.take(i as int),
        decreases bytes.len() - i,
    {
        assert(bytes@.take(i + 1) =~= bytes@.take(i as int).push(bytes@[i as int]));
        r.push(bytes[i]);
        i += 1;
    }
    assert(bytes@.take(bytes@.len() as int) =~= bytes@);
    r
}

/// Decides whether two byte strings are the same.
pub(crate) fn same_bytes(a: &Vec<u8>, b: &Vec<u8>) -> (r: bool)
    ensures
        r == (a@ == b@),
{
    if a.len() != b.len() {
        return false;
    }
    let mut i: usize = 0;
    while i < a.len()
        invariant
            i <= a.len(),
            a.len() == b.len(),
            forall|j: int| 0 <= j < i ==> #[trigger] a@[j] == b@[j],
        decreases a.len() - i,
    {
        if a[i] != b[i] {
            return false;
        }
        i += 1;
    }
    assert(a@ =~= b@);
    true
}

impl Files {
    /// No file.
    pub fn new() -> (r: Self)
        ensures
            r@ == Seq::<(Seq<char>, Seq<u8>)>::empty(),
    {
        let r = Files { entries: Vec::new() };
        assert(r@ =~= Seq::<(Seq<char>, Seq<u8>)>::empty());
        r
    }

    /// How many files there are.
    pub fn len(&self) -> (r: usize)
        ensures
            r == self@.len(),
    {
        self.entries.len()
    }

    /// The path of a file.
    pub fn path_at(&self, i: usize) -> (r: &str)
        requires
            i < self@.len(),
        ensures
            r@ == self@[i as int].0,
    {
        self.entries[i].path.as_str()
    }

    /// What a file holds.
    pub fn bytes_at(&self, i: usize) -> (r: &Vec<u8>)
        requires
            i < self@.len(),
        ensures
            r@ == self@[i as int].1,
    {
        &self.entries[i].bytes
    }

    fn position(&self, path: &str) -> (r: Option<usize>)
        ensures
            match r {
                Some(i) => i < self@.len() && table::index_of(self@, path@) == Some(i as int),
                None => table::index_of(self@, path@) is None,
            },
    {
        let ghost all = self@;
        let ghost wanted = table::keyed(all, path@);
        let mut i: usize = 0;
        while i < self.entries.len()
            invariant
                i <= self.entries.len(),
                all == entry_models(self.entries@),
                wanted == table::keyed(all, path@),
                forall|j: int| 0 <= j < i ==> !#[trigger] wanted(j),
            decreases self.entries.len() - i,
        {
            assert(all[i as int].0 == self.entries@[i as int].path@);
            if text::same_text(self.entries[i].path.as_str(), path) {
                proof {
                    search::lemma_first_where_is(all.len() as int, wanted, i as int);
                }
                return Some(i);
            }
            i += 1;
        }
        proof {
            search::lemma_first_where(all.len() as int, wanted);
        }
        None
    }

    /// What the file at a path holds, if it can be read.
    pub fn get(&self, path: &str) -> (r: Option<&Vec<u8>>)
        ensures
            match r {
                Some(bytes) => table::lookup(self@, path@) == Some(bytes@),
                None => table::lookup(self@, path@) is None,
            },
    {
        match self.position(path) {
            Some(i) => Some(&self.entries[i].bytes),
            None => None,
        }
    }

    /// Makes the file at a path hold the given bytes.
    pub fn put(&mut self, path: &str, bytes: Vec<u8>)
        ensures
            final(self)@ == table::put(old(self)@, path@, bytes@),
    {
        let ghost before = self@;
        let entry = FileBytes { path: path.to_owned(), bytes };
        let ghost model = (entry.path@, entry.bytes@);
        match self.position(path) {
            Some(i) => {
                self.entries.set(i, entry);
                assert(self@ =~= before.update(i as int, model));
            },
            None => {
                self.entries.push(entry);
                assert(self@ =~= before.push(model));
            },
        }
    }

    /// The text of the file at a path, if it can be read and is UTF-8.
    pub fn text(&self, path: &str) -> (r: Option<String>)
        ensures
            match r {
                Some(s) => text_of(self@, path@) == Some(s@),
                None => text_of(self@, path@) is None,
            },
    {
        match self.get(path) {
            Some(bytes) => decode(bytes),
            None => None,
        }
    }
}

} // verus!
