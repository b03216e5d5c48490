//! The laws of configuration files that are read, changed and written.

use crate::apply::Write;
use crate::disk;
use crate::freshness;
use crate::search;
use crate::table;
use crate::theme::backing;
use crate::theme::backing::Backing;
use vstd::prelude::*;

verus! {

/// The files on disk after the first `n` of the given writes.
pub open spec fn performed_upto(
    disk: Seq<(Seq<char>, Seq<u8>)>,
    writes: Seq<Write>,
    n: int,
) -> Seq<(Seq<char>, Seq<u8>)>
    decreases n,
{
    if n <= 0 {
        disk
    } else {
        table::put(performed_upto(disk, writes, n - 1), writes[n - 1].path, writes[n - 1].contents)
    }
}

/// The files on disk after the given writes.
pub open spec fn performed(
    disk: Seq<(Seq<char>, Seq<u8>)>,
    writes: Seq<Write>,
) -> Seq<(Seq<char>, Seq<u8>)> {
    performed_upto(disk, writes, writes.len() as int)
}

/// Whether no path has two baselines.
pub open spec fn distinct(entries: Seq<(Seq<char>, Seq<u8>)>) -> bool {
    forall|i: int, j: int|
        0 <= i < j < entries.len() ==> (#[trigger] entries[i]).0 != (#[trigger] entries[j]).0
}

/// Whether the files are as they are on disk, and the baselines too.
pub open spec fn agrees(set: Backing, disk: Seq<(Seq<char>, Seq<u8>)>) -> bool {
    &&& distinct(set.baselines)
    &&& freshness::unchanged(set.baselines, disk)
    &&& forall|path: Seq<char>| #[trigger]
        table::lookup(set.files, path) is Some ==> table::lookup(set.files, path) == disk::text_of(
            disk,
            path,
        )
}

/// Writing a file leaves every path with one baseline.
pub proof fn baselines_stay_distinct(
    entries: Seq<(Seq<char>, Seq<u8>)>,
    path: Seq<char>,
    contents: Seq<u8>,
)
    requires
        distinct(entries),
    ensures
        distinct(table::put(entries, path, contents)),
{
    let after = table::put(entries, path, contents);
    search::lemma_first_where(entries.len() as int, table::keyed(entries, path));
    assert forall|i: int, j: int| 0 <= i < j < after.len() implies (#[trigger] after[i]).0
        != (#[trigger] after[j]).0 by {
        if j < entries.len() {
            assert(entries[i].0 != entries[j].0);
        } else {
            assert(!table::keyed(entries, path)(i));
        }
    }
}

/// A file that this program writes is no conflict for it.
pub proof fn own_write_is_no_conflict(
    baselines: Seq<(Seq<char>, Seq<u8>)>,
    disk: Seq<(Seq<char>, Seq<u8>)>,
    path: Seq<char>,
    contents: Seq<u8>,
)
    requires
        distinct(baselines),
        freshness::unchanged(baselines, disk),
    ensures
        freshness::unchanged(
            table::put(baselines, path, contents),
            table::put(disk, path, contents),
        ),
{
    let after = table::put(baselines, path, contents);
    let later = table::put(disk, path, contents);
    search::lemma_first_where(baselines.len() as int, table::keyed(baselines, path));
    assert forall|i: int| 0 <= i < after.len() implies freshness::change_of(
        #[trigger] after[i],
        later,
    ) is None by {
        table::lemma_lookup_put(disk, path, contents, after[i].0);
        if after[i].0 != path {
            assert(after[i] == baselines[i]);
            assert(freshness::change_of(baselines[i], disk) is None);
        } else if i < baselines.len() {
            assert(table::keyed(baselines, path)(i));
            let k = table::index_of(baselines, path)->0;
            if i != k {
                assert(baselines[k].0 != baselines[i].0);
            }
        }
    }
}

/// A change by another program is a conflict: where a file with a baseline no longer holds that, or
/// is gone, there is one.
pub proof fn foreign_write_is_a_conflict(
    baselines: Seq<(Seq<char>, Seq<u8>)>,
    disk: Seq<(Seq<char>, Seq<u8>)>,
    i: int,
)
    requires
        0 <= i < baselines.len(),
        table::lookup(disk, baselines[i].0) != Some(baselines[i].1),
    ensures
        !freshness::unchanged(baselines, disk),
{
    assert(freshness::change_of(baselines[i], disk) is Some);
}

/// Files that were just read are as they are on disk, and no conflict.
pub proof fn loaded_agrees(paths: Seq<Seq<char>>, disk: Seq<(Seq<char>, Seq<u8>)>)
    ensures
        agrees(backing::loaded(paths, disk), disk),
{
    lemma_loaded_agrees(paths, disk, paths.len() as int);
}

proof fn lemma_loaded_agrees(paths: Seq<Seq<char>>, disk: Seq<(Seq<char>, Seq<u8>)>, n: int)
    requires
        0 <= n <= paths.len(),
    ensures
        agrees(backing::loaded_upto(paths, disk, n), disk),
    decreases n,
{
    let set = backing::loaded_upto(paths, disk, n);
    if n > 0 {
        lemma_loaded_agrees(paths, disk, n - 1);
        let before = backing::loaded_upto(paths, disk, n - 1);
        let path = paths[n - 1];
        if let Some(text) = disk::text_of(disk, path) {
            let bytes = table::lookup(disk, path)->0;
            vstd::utf8::decode_utf8_encode_utf8(bytes);
            baselines_stay_distinct(before.baselines, path, bytes);
            own_write_is_no_conflict(before.baselines, disk, path, bytes);
            lemma_put_same(disk, path);
            assert forall|other: Seq<char>| #[trigger]
                table::lookup(set.files, other) is Some implies table::lookup(set.files, other)
                == disk::text_of(disk, other) by {
                lemma_lookup_push(before.files, path, text, other);
            }
        }
    } else {
        assert forall|other: Seq<char>| #[trigger]
            table::lookup(set.files, other) is Some implies false by {
            search::lemma_first_where(0, table::keyed(set.files, other));
        }
    }
}

proof fn lemma_put_same(disk: Seq<(Seq<char>, Seq<u8>)>, path: Seq<char>)
    requires
        table::lookup(disk, path) is Some,
    ensures
        table::put(disk, path, table::lookup(disk, path)->0) == disk,
{
    search::lemma_first_where(disk.len() as int, table::keyed(disk, path));
    assert(table::put(disk, path, table::lookup(disk, path)->0) =~= disk);
}

proof fn lemma_lookup_push(
    files: Seq<(Seq<char>, Seq<char>)>,
    path: Seq<char>,
    text: Seq<char>,
    other: Seq<char>,
)
    ensures
        table::lookup(files.push((path, text)), other) == match table::lookup(files, other) {
            Some(found) => Some(found),
            None => if other == path {
                Some(text)
            } else {
                None
            },
        },
{
    let after = files.push((path, text));
    let n = files.len() as int;
    let p = table::keyed(files, other);
    let q = table::keyed(after, other);
    assert forall|i: int| 0 <= i < n implies #[trigger] p(i) == q(i) by {}
    search::lemma_first_where_agrees(n, p, q);
    search::lemma_first_where(n, p);
    search::lemma_first_where(n + 1, q);
}

/// Files stay as they are on disk when this program writes texts: an Apply is no conflict for the
/// next one, which builds on what it wrote.
pub proof fn own_writes_keep_agreement(
    set: Backing,
    disk: Seq<(Seq<char>, Seq<u8>)>,
    writes: Seq<Write>,
)
    requires
        agrees(set, disk),
        forall|i: int|
            0 <= i < writes.len() ==> vstd::utf8::valid_utf8((#[trigger] writes[i]).contents),
    ensures
        agrees(backing::absorbed_all(set, writes), performed(disk, writes)),
{
    lemma_own_writes(set, disk, writes, writes.len() as int);
}

proof fn lemma_own_writes(
    set: Backing,
    disk: Seq<(Seq<char>, Seq<u8>)>,
    writes: Seq<Write>,
    n: int,
)
    requires
        0 <= n <= writes.len(),
        agrees(set, disk),
        forall|i: int|
            0 <= i < writes.len() ==> vstd::utf8::valid_utf8((#[trigger] writes[i]).contents),
    ensures
        agrees(backing::absorbed_upto(set, writes, n), performed_upto(disk, writes, n)),
    decreases n,
{
    if n > 0 {
        lemma_own_writes(set, disk, writes, n - 1);
        let before = backing::absorbed_upto(set, writes, n - 1);
        let held = performed_upto(disk, writes, n - 1);
        let write = writes[n - 1];
        let after = backing::absorbed(before, write);
        let later = performed_upto(disk, writes, n);
        baselines_stay_distinct(before.baselines, write.path, write.contents);
        own_write_is_no_conflict(before.baselines, held, write.path, write.contents);
        assert forall|path: Seq<char>| #[trigger]
            table::lookup(after.files, path) is Some implies table::lookup(after.files, path)
            == disk::text_of(later, path) by {
            let text = vstd::utf8::decode_utf8(write.contents);
            table::lemma_lookup_put(held, write.path, write.contents, path);
            table::lemma_lookup_put(before.files, write.path, text, path);
        }
    }
}

/// A file that was read and is written holds what was written, for the next change to build on.
pub proof fn written_file_is_held(set: Backing, write: Write, text: Seq<char>)
    requires
        write.contents == vstd::utf8::encode_utf8(text),
        table::lookup(set.files, write.path) is Some,
    ensures
        table::lookup(backing::absorbed(set, write).files, write.path) == Some(text),
{
    vstd::utf8::encode_utf8_valid_utf8(text);
    vstd::utf8::encode_utf8_decode_utf8(text);
    table::lemma_lookup_put(set.files, write.path, text, write.path);
}

/// Whether the files at the given paths are known as they are on disk, those that cannot be read
/// included.
pub open spec fn holds(
    set: Backing,
    paths: Seq<Seq<char>>,
    disk: Seq<(Seq<char>, Seq<u8>)>,
) -> bool {
    forall|i: int|
        0 <= i < paths.len() ==> table::lookup(set.files, #[trigger] paths[i]) == disk::text_of(
            disk,
            paths[i],
        )
}

/// Loading the files at some paths gives each as it is on disk.
pub proof fn loaded_holds(paths: Seq<Seq<char>>, disk: Seq<(Seq<char>, Seq<u8>)>)
    ensures
        holds(backing::loaded(paths, disk), paths, disk),
{
    lemma_loaded_holds(paths, disk, paths.len() as int);
}

proof fn lemma_loaded_holds(paths: Seq<Seq<char>>, disk: Seq<(Seq<char>, Seq<u8>)>, n: int)
    requires
        0 <= n <= paths.len(),
    ensures
        forall|i: int|
            0 <= i < n ==> table::lookup(
                backing::loaded_upto(paths, disk, n).files,
                #[trigger] paths[i],
            ) == disk::text_of(disk, paths[i]),
    decreases n,
{
    let set = backing::loaded_upto(paths, disk, n);
    lemma_loaded_agrees(paths, disk, n);
    if n > 0 {
        lemma_loaded_holds(paths, disk, n - 1);
        let before = backing::loaded_upto(paths, disk, n - 1);
        let path = paths[n - 1];
        assert forall|i: int| 0 <= i < n implies table::lookup(set.files, #[trigger] paths[i])
            == disk::text_of(disk, paths[i]) by {
            if let Some(text) = disk::text_of(disk, path) {
                lemma_lookup_push(before.files, path, text, paths[i]);
            } else if i == n - 1 {
                assert(table::lookup(set.files, path) is None);
            }
        }
    }
}

/// Files that were read and are written by this program stay known as they are on disk.
pub proof fn own_writes_keep_what_is_held(
    set: Backing,
    paths: Seq<Seq<char>>,
    disk: Seq<(Seq<char>, Seq<u8>)>,
    writes: Seq<Write>,
)
    requires
        holds(set, paths, disk),
        forall|i: int|
            0 <= i < writes.len() ==> vstd::utf8::valid_utf8((#[trigger] writes[i]).contents)
                && table::lookup(set.files, writes[i].path) is Some,
    ensures
        holds(backing::absorbed_all(set, writes), paths, performed(disk, writes)),
{
    lemma_writes_keep_holding(set, paths, disk, writes, writes.len() as int);
}

proof fn lemma_writes_keep_holding(
    set: Backing,
    paths: Seq<Seq<char>>,
    disk: Seq<(Seq<char>, Seq<u8>)>,
    writes: Seq<Write>,
    n: int,
)
    requires
        0 <= n <= writes.len(),
        holds(set, paths, disk),
        forall|i: int|
            0 <= i < writes.len() ==> vstd::utf8::valid_utf8((#[trigger] writes[i]).contents)
                && table::lookup(set.files, writes[i].path) is Some,
    ensures
        holds(backing::absorbed_upto(set, writes, n), paths, performed_upto(disk, writes, n)),
    decreases n,
{
    if n > 0 {
        lemma_writes_keep_holding(set, paths, disk, writes, n - 1);
        let before = backing::absorbed_upto(set, writes, n - 1);
        let held = performed_upto(disk, writes, n - 1);
        let write = writes[n - 1];
        let after = backing::absorbed(before, write);
        let later = performed_upto(disk, writes, n);
        lemma_known_stays_known(set, writes, n - 1, write.path);
        assert forall|i: int| 0 <= i < paths.len() implies table::lookup(
            after.files,
            #[trigger] paths[i],
        ) == disk::text_of(later, paths[i]) by {
            let text = vstd::utf8::decode_utf8(write.contents);
            table::lemma_lookup_put(held, write.path, write.contents, paths[i]);
            table::lemma_lookup_put(before.files, write.path, text, paths[i]);
        }
    }
}

/// No write makes a file known that was not, or unknown that was.
pub proof fn lemma_known_stays_known(
    set: Backing,
    writes: Seq<Write>,
    n: int,
    path: Seq<char>,
)
    ensures
        table::lookup(backing::absorbed_upto(set, writes, n).files, path) is Some
            <==> table::lookup(set.files, path) is Some,
    decreases n,
{
    if n > 0 {
        lemma_known_stays_known(set, writes, n - 1, path);
        let before = backing::absorbed_upto(set, writes, n - 1);
        let write = writes[n - 1];
        table::lemma_lookup_put(
            before.files,
            write.path,
            vstd::utf8::decode_utf8(write.contents),
            path,
        );
    }
}

/// What is written after other files is taken in after them.
pub proof fn lemma_absorbed_add(set: Backing, first: Seq<Write>, write: Write)
    ensures
        backing::absorbed_all(set, first.push(write)) == backing::absorbed(
            backing::absorbed_all(set, first),
            write,
        ),
{
    lemma_absorbed_prefix(set, first, first.push(write), first.len() as int);
}

proof fn lemma_absorbed_prefix(set: Backing, a: Seq<Write>, b: Seq<Write>, n: int)
    requires
        n <= a.len(),
        n <= b.len(),
        forall|i: int| 0 <= i < n ==> #[trigger] a[i] == b[i],
    ensures
        backing::absorbed_upto(set, a, n) == backing::absorbed_upto(set, b, n),
    decreases n,
{
    if n > 0 {
        lemma_absorbed_prefix(set, a, b, n - 1);
        assert(a[n - 1] == b[n - 1]);
    }
}

} // verus!
