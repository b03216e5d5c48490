//! Telling whether a file changed on disk since it was read.

use crate::disk::{copy_bytes, same_bytes, Files};
use crate::table;
use vstd::prelude::*;

verus! {

/// How a file differs from what it was.
#[derive(Clone, Copy, Debug, PartialEq, Eq, Structural)]
pub enum ConflictReason {
    /// It holds something else.
    ContentChanged,
    /// It can no longer be read.
    Unreadable,
}

/// A file that changed.
#[derive(Clone, Debug, PartialEq, Eq)]
pub struct Conflict {
    path: String,
    reason: ConflictReason,
}

impl View for Conflict {
    type V = (Seq<char>, ConflictReason);

    closed spec fn view(&self) -> (Seq<char>, ConflictReason) {
        (self.path@, self.reason)
    }
}

impl Conflict {
    /// Where the file is.
    pub fn path(&self) -> (r: &str)
        ensures
            r@ == self@.0,
    {
        self.path.as_str()
    }

    /// How it changed.
    pub fn reason(&self) -> (r: ConflictReason)
        ensures
            r == self@.1,
    {
        self.reason
    }
}

/// How a file differs from what it was, if it does.
pub open spec fn change_of(baseline: (Seq<char>, Seq<u8>), disk: Seq<(Seq<char>, Seq<u8>)>) -> Option<
    ConflictReason,
> {
    match table::lookup(disk, baseline.0) {
        Some(bytes) => if bytes == baseline.1 {
            None
        } else {
            Some(ConflictReason::ContentChanged)
        },
        None => Some(ConflictReason::Unreadable),
    }
}

/// Which of the first `n` files changed, in order.
pub open spec fn conflicts_upto(
    baselines: Seq<(Seq<char>, Seq<u8>)>,
    disk: Seq<(Seq<char>, Seq<u8>)>,
    n: int,
) -> Seq<(Seq<char>, ConflictReason)>
    decreases n,
{
    if n <= 0 {
        Seq::empty()
    } else {
        match change_of(baselines[n - 1], disk) {
            Some(reason) => conflicts_upto(baselines, disk, n - 1).push(
                (baselines[n - 1].0, reason),
            ),
            None => conflicts_upto(baselines, disk, n - 1),
        }
    }
}

/// Which files changed, in order.
pub open spec fn conflicts(
    baselines: Seq<(Seq<char>, Seq<u8>)>,
    disk: Seq<(Seq<char>, Seq<u8>)>,
) -> Seq<(Seq<char>, ConflictReason)> {
    conflicts_upto(baselines, disk, baselines.len() as int)
}

/// Whether every file still holds what it held.
pub open spec fn unchanged(
    baselines: Seq<(Seq<char>, Seq<u8>)>,
    disk: Seq<(Seq<char>, Seq<u8>)>,
) -> bool {
    forall|i: int| 0 <= i < baselines.len() ==> change_of(#[trigger] baselines[i], disk) is None
}

/// There is no conflict exactly where every file still holds what it held.
pub proof fn lemma_no_conflicts(
    baselines: Seq<(Seq<char>, Seq<u8>)>,
    disk: Seq<(Seq<char>, Seq<u8>)>,
)
    ensures
        conflicts(baselines, disk).len() == 0 <==> unchanged(baselines, disk),
{
    lemma_no_conflicts_upto(baselines, disk, baselines.len() as int);
}

proof fn lemma_no_conflicts_upto(
    baselines: Seq<(Seq<char>, Seq<u8>)>,
    disk: Seq<(Seq<char>, Seq<u8>)>,
    n: int,
)
    requires
        0 <= n <= baselines.len(),
    ensures
        conflicts_upto(baselines, disk, n).len() == 0 <==> forall|i: int|
            0 <= i < n ==> change_of(#[trigger] baselines[i], disk) is None,
    decreases n,
{
    if n > 0 {
        lemma_no_conflicts_upto(baselines, disk, n - 1);
        assert(change_of(baselines[n - 1], disk) is None || change_of(
            baselines[n - 1],
            disk,
        ) is Some);
    }
}

/// The models of the given conflicts.
pub open spec fn conflict_models(conflicts: Seq<Conflict>) -> Seq<(Seq<char>, ConflictReason)> {
    conflicts.map_values(|conflict: Conflict| conflict@)
}

/// What each tracked file held when it was last read or written.
#[derive(Debug)]
pub struct FreshnessTracker {
    baselines: Files,
}

impl View for FreshnessTracker {
    type V = Seq<(Seq<char>, Seq<u8>)>;

    closed spec fn view(&self) -> Seq<(Seq<char>, Seq<u8>)> {
        self.baselines@
    }
}

impl FreshnessTracker {
    /// Tracks no file.
    pub fn new() -> (r: Self)
        ensures
            r@ == Seq::<(Seq<char>, Seq<u8>)>::empty(),
    {
        FreshnessTracker { baselines: Files::new() }
    }

    /// Tracks a file from now on by what it holds.
    pub fn record_bytes(&mut self, path: &str, bytes: &Vec<u8>)
        ensures
            final(self)@ == table::put(old(self)@, path@, bytes@),
    {
        self.baselines.put(path, copy_bytes(bytes));
    }

    /// Which tracked files changed, in the order in which they came to be tracked.
    pub fn check_conflicts(&self, disk: &Files) -> (r: Vec<Conflict>)
        ensures
            conflict_models(r@) == conflicts(self@, disk@),
    {
        let ghost all = self@;
        let mut r: Vec<Conflict> = Vec::new();
        let mut i: usize = 0;
        while i < self.baselines.len()
            invariant
                i <= all.len(),
                all == self.baselines@,
                conflict_models(r@) == conflicts_upto(all, disk@, i as int),
            decreases all.len() - i,
        {
            let path = self.baselines.path_at(i);
            let change = match disk.get(path) {
                Some(bytes) => if same_bytes(bytes, self.baselines.bytes_at(i)) {
                    None
                } else {
                    Some(ConflictReason::ContentChanged)
                },
                None => Some(ConflictReason::Unreadable),
            };
            assert(change == change_of(all[i as int], disk@));
            if let Some(reason) = change {
                let ghost before = conflict_models(r@);
                let conflict = Conflict { path: path.to_owned(), reason };
                r.push(conflict);
                assert(conflict_models(r@) =~= before.push(conflict@));
            }
            i += 1;
        }
        r
    }
}

} // verus!
