//! The laws of tables, of files on disk and of the changes that are found there.

use crate::disk;
use crate::freshness;
use crate::freshness::ConflictReason;
use crate::lines;
use crate::lines::LineModel;
use crate::search;
use crate::table;
use vstd::prelude::*;

verus! {

/// The value of a key is that of the first entry with it, and there is none where no entry has the
/// key.
pub proof fn first_entry_of_a_key_counts<V>(entries: Seq<(Seq<char>, V)>, key: Seq<char>)
    ensures
        table::lookup(entries, key) is None <==> forall|i: int|
            0 <= i < entries.len() ==> (#[trigger] entries[i]).0 != key,
        forall|i: int|
            0 <= i < entries.len() && (#[trigger] entries[i]).0 == key && (forall|j: int|
                0 <= j < i ==> (#[trigger] entries[j]).0 != key) ==> table::lookup(entries, key)
                == Some(entries[i].1),
{
    let n = entries.len() as int;
    let p = table::keyed(entries, key);
    search::lemma_first_where(n, p);
    if let Some(i) = table::index_of(entries, key) {
        assert(p(i));
        assert(entries[i].0 == key);
    } else {
        assert forall|i: int| 0 <= i < n implies (#[trigger] entries[i]).0 != key by {
            assert(!p(i));
        }
    }
    assert forall|i: int|
        0 <= i < entries.len() && (#[trigger] entries[i]).0 == key && (forall|j: int|
            0 <= j < i ==> (#[trigger] entries[j]).0 != key) implies table::lookup(entries, key)
        == Some(entries[i].1) by {
        assert forall|j: int| 0 <= j < i implies !#[trigger] p(j) by {
            assert(entries[j].0 != key);
        }
        assert(p(i));
        search::lemma_first_where_is(n, p, i);
    }
}

/// Putting a value under a key changes what stands under it, in its place or at the end, and leaves
/// everything else where it is.
pub proof fn put_changes_one_entry<V>(entries: Seq<(Seq<char>, V)>, key: Seq<char>, value: V)
    ensures
        ({
            let after = table::put(entries, key, value);
            &&& after.contains((key, value))
            &&& forall|i: int|
                0 <= i < entries.len() && (#[trigger] entries[i]).0 != key ==> after[i]
                    == entries[i]
            &&& table::lookup(entries, key) is None ==> after == entries.push((key, value))
            &&& table::lookup(entries, key) is Some ==> after.len() == entries.len()
        }),
{
    let after = table::put(entries, key, value);
    search::lemma_first_where(entries.len() as int, table::keyed(entries, key));
    match table::index_of(entries, key) {
        Some(i) => {
            assert(table::keyed(entries, key)(i));
            assert(after[i] == (key, value));
        },
        None => {
            assert(after[entries.len() as int] == (key, value));
        },
    }
}

/// A text that is written to a file is what the file then holds.
pub proof fn written_text_is_read(
    files: Seq<(Seq<char>, Seq<u8>)>,
    path: Seq<char>,
    text: Seq<char>,
    other: Seq<char>,
)
    ensures
        ({
            let after = table::put(files, path, vstd::utf8::encode_utf8(text));
            &&& disk::text_of(after, path) == Some(text)
            &&& other != path ==> disk::text_of(after, other) == disk::text_of(files, other)
        }),
{
    vstd::utf8::encode_utf8_valid_utf8(text);
    vstd::utf8::encode_utf8_decode_utf8(text);
    table::lemma_lookup_put(files, path, vstd::utf8::encode_utf8(text), other);
}

/// Nothing is read of a file that is not there, nor of one that is not UTF-8.
pub proof fn other_bytes_are_no_text(
    files: Seq<(Seq<char>, Seq<u8>)>,
    path: Seq<char>,
    bytes: Seq<u8>,
)
    requires
        !vstd::utf8::valid_utf8(bytes),
    ensures
        disk::text_of(table::put(files, path, bytes), path) is None,
        (forall|i: int| 0 <= i < files.len() ==> (#[trigger] files[i]).0 != path)
            ==> disk::text_of(files, path) is None,
{
    table::lemma_lookup_put(files, path, bytes, path);
    first_entry_of_a_key_counts(files, path);
}

/// Whether a file differs from what it was, and how.
pub open spec fn differs(
    baseline: (Seq<char>, Seq<u8>),
    disk: Seq<(Seq<char>, Seq<u8>)>,
    reason: ConflictReason,
) -> bool {
    match reason {
        ConflictReason::ContentChanged => table::lookup(disk, baseline.0) is Some && table::lookup(
            disk,
            baseline.0,
        ) != Some(baseline.1),
        ConflictReason::Unreadable => table::lookup(disk, baseline.0) is None,
    }
}

/// A file that holds something else than it did is a conflict, and so is one that can no longer be
/// read; a file that holds what it did is none.
pub proof fn changed_files_are_conflicts(
    baselines: Seq<(Seq<char>, Seq<u8>)>,
    disk: Seq<(Seq<char>, Seq<u8>)>,
)
    ensures
        forall|i: int, reason: ConflictReason|
            0 <= i < baselines.len() && #[trigger] differs(baselines[i], disk, reason)
                ==> freshness::conflicts(baselines, disk).contains((baselines[i].0, reason)),
        forall|k: int|
            0 <= k < freshness::conflicts(baselines, disk).len() ==> exists|i: int|
                0 <= i < baselines.len() && (#[trigger] baselines[i]).0
                    == freshness::conflicts(baselines, disk)[k].0 && differs(
                    baselines[i],
                    disk,
                    (#[trigger] freshness::conflicts(baselines, disk)[k]).1,
                ),
{
    lemma_conflicts_upto(baselines, disk, baselines.len() as int);
}

proof fn lemma_conflicts_upto(
    baselines: Seq<(Seq<char>, Seq<u8>)>,
    disk: Seq<(Seq<char>, Seq<u8>)>,
    n: int,
)
    requires
        0 <= n <= baselines.len(),
    ensures
        forall|i: int, reason: ConflictReason|
            0 <= i < n && #[trigger] differs(baselines[i], disk, reason)
                ==> freshness::conflicts_upto(baselines, disk, n).contains((baselines[i].0, reason)),
        forall|k: int|
            0 <= k < freshness::conflicts_upto(baselines, disk, n).len() ==> exists|i: int|
                0 <= i < n && (#[trigger] baselines[i]).0 == freshness::conflicts_upto(
                    baselines,
                    disk,
                    n,
                )[k].0 && differs(
                    baselines[i],
                    disk,
                    (#[trigger] freshness::conflicts_upto(baselines, disk, n)[k]).1,
                ),
    decreases n,
{
    if n > 0 {
        lemma_conflicts_upto(baselines, disk, n - 1);
        let before = freshness::conflicts_upto(baselines, disk, n - 1);
        let all = freshness::conflicts_upto(baselines, disk, n);
        assert forall|i: int, reason: ConflictReason|
            0 <= i < n && #[trigger] differs(baselines[i], disk, reason) implies all.contains(
            (baselines[i].0, reason),
        ) by {
            let found = (baselines[i].0, reason);
            if i < n - 1 {
                let k = choose|k: int| 0 <= k < before.len() && before[k] == found;
                assert(all[k] == found);
            } else {
                assert(all[all.len() - 1] == found);
            }
        }
        assert forall|k: int| 0 <= k < all.len() implies exists|i: int|
            0 <= i < n && (#[trigger] baselines[i]).0 == all[k].0 && differs(
                baselines[i],
                disk,
                (#[trigger] all[k]).1,
            ) by {
            if k < before.len() {
                assert(all[k] == before[k]);
                let i = choose|i: int|
                    0 <= i < n - 1 && (#[trigger] baselines[i]).0 == before[k].0 && differs(
                        baselines[i],
                        disk,
                        before[k].1,
                    );
                assert(baselines[i].0 == all[k].0 && differs(baselines[i], disk, all[k].1));
            } else {
                assert(baselines[n - 1].0 == all[k].0 && differs(
                    baselines[n - 1],
                    disk,
                    all[k].1,
                ));
            }
        }
    }
}

/// A line that is added to a file is ended as the file's lines are: by a carriage return and a line
/// feed where any of them is, else by a line feed.
pub proof fn added_line_is_ended_like_the_others<M>(file: Seq<LineModel<M>>)
    ensures
        (exists|i: int|
            0 <= i < file.len() && (#[trigger] file[i]).raw.len() >= 2
                && file[i].raw[file[i].raw.len() - 2] == '\r' && file[i].raw[file[i].raw.len() - 1]
                == '\n') ==> lines::terminator(file) == seq!['\r', '\n'],
        (forall|i: int|
            0 <= i < file.len() ==> !((#[trigger] file[i]).raw.len() >= 2
                && file[i].raw[file[i].raw.len() - 2] == '\r' && file[i].raw[file[i].raw.len() - 1]
                == '\n')) ==> lines::terminator(file) == seq!['\n'],
{
    if exists|i: int|
        0 <= i < file.len() && (#[trigger] file[i]).raw.len() >= 2 && file[i].raw[file[i].raw.len()
            - 2] == '\r' && file[i].raw[file[i].raw.len() - 1] == '\n' {
        let i = choose|i: int|
            0 <= i < file.len() && (#[trigger] file[i]).raw.len() >= 2
                && file[i].raw[file[i].raw.len() - 2] == '\r' && file[i].raw[file[i].raw.len() - 1]
                == '\n';
        assert(crate::text::ends_crlf(file[i].raw));
    }
}

/// A last line without a line feed gets one before a line is added behind it, and no other line
/// changes.
pub proof fn last_line_is_ended<M>(file: Seq<LineModel<M>>, end: Seq<char>)
    ensures
        ({
            let after = lines::terminated(file, end);
            &&& after.len() == file.len()
            &&& forall|i: int| 0 <= i < file.len() - 1 ==> #[trigger] after[i] == file[i]
            &&& file.len() > 0 && file.last().raw.len() > 0 && file.last().raw.last() == '\n'
                ==> after == file
            &&& file.len() > 0 && !(file.last().raw.len() > 0 && file.last().raw.last() == '\n')
                ==> after.last().raw == file.last().raw + end && after.last().kind
                == file.last().kind
        }),
{
}

/// Files are unchanged exactly where each still holds the bytes that it held.
pub proof fn unchanged_files_hold_what_they_held(
    baselines: Seq<(Seq<char>, Seq<u8>)>,
    disk: Seq<(Seq<char>, Seq<u8>)>,
)
    ensures
        freshness::unchanged(baselines, disk) <==> forall|i: int|
            0 <= i < baselines.len() ==> table::lookup(disk, (#[trigger] baselines[i]).0) == Some(
                baselines[i].1,
            ),
{
    if freshness::unchanged(baselines, disk) {
        assert forall|i: int| 0 <= i < baselines.len() implies table::lookup(
            disk,
            (#[trigger] baselines[i]).0,
        ) == Some(baselines[i].1) by {
            assert(freshness::change_of(baselines[i], disk) is None);
        }
    }
}

} // verus!
