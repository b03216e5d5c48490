//! The first and the last index at which a condition holds.

use vstd::prelude::*;

verus! {

/// The smallest `i` below `n` with `p(i)`, if there is one.
pub open spec fn first_where(n: int, p: spec_fn(int) -> bool) -> Option<int>
    decreases n,
{
    if n <= 0 {
        None
    } else {
        match first_where(n - 1, p) {
            Some(i) => Some(i),
            None => if p(n - 1) {
                Some(n - 1)
            } else {
                None
            },
        }
    }
}

/// The largest `i` below `n` with `p(i)`, if there is one.
pub open spec fn last_where(n: int, p: spec_fn(int) -> bool) -> Option<int>
    decreases n,
{
    if n <= 0 {
        None
    } else if p(n - 1) {
        Some(n - 1)
    } else {
        last_where(n - 1, p)
    }
}

pub proof fn lemma_first_where(n: int, p: spec_fn(int) -> bool)
    ensures
        match first_where(n, p) {
            Some(i) => 0 <= i < n && p(i) && (forall|j: int| 0 <= j < i ==> !#[trigger] p(j)),
            None => forall|j: int| 0 <= j < n ==> !#[trigger] p(j),
        },
    decreases n,
{
    if n > 0 {
        lemma_first_where(n - 1, p);
    }
}

pub proof fn lemma_first_where_is(n: int, p: spec_fn(int) -> bool, i: int)
    requires
        0 <= i < n,
        p(i),
        forall|j: int| 0 <= j < i ==> !#[trigger] p(j),
    ensures
        first_where(n, p) == Some(i),
{
    lemma_first_where(n, p);
}

pub proof fn lemma_last_where(n: int, p: spec_fn(int) -> bool)
    ensures
        match last_where(n, p) {
            Some(i) => 0 <= i < n && p(i) && (forall|j: int| i < j < n ==> !#[trigger] p(j)),
            None => forall|j: int| 0 <= j < n ==> !#[trigger] p(j),
        },
    decreases n,
{
    if n > 0 && !p(n - 1) {
        lemma_last_where(n - 1, p);
    }
}

pub proof fn lemma_last_where_is(n: int, p: spec_fn(int) -> bool, i: int)
    requires
        0 <= i < n,
        p(i),
        forall|j: int| i < j < n ==> !#[trigger] p(j),
    ensures
        last_where(n, p) == Some(i),
{
    lemma_last_where(n, p);
}

/// Two conditions that agree below `n` are first met at the same place.
pub proof fn lemma_first_where_agrees(n: int, p: spec_fn(int) -> bool, q: spec_fn(int) -> bool)
    requires
        forall|i: int| 0 <= i < n ==> #[trigger] p(i) == q(i),
    ensures
        first_where(n, p) == first_where(n, q),
    decreases n,
{
    if n > 0 {
        lemma_first_where_agrees(n - 1, p, q);
        assert(p(n - 1) == q(n - 1));
    }
}

/// Two conditions that agree below `n` are last met at the same place.
pub proof fn lemma_last_where_agrees(n: int, p: spec_fn(int) -> bool, q: spec_fn(int) -> bool)
    requires
        forall|i: int| 0 <= i < n ==> #[trigger] p(i) == q(i),
    ensures
        last_where(n, p) == last_where(n, q),
    decreases n,
{
    if n > 0 {
        assert(p(n - 1) == q(n - 1));
        lemma_last_where_agrees(n - 1, p, q);
    }
}

/// Where index `i` goes when something is put at index `k`.
pub open spec fn shifted(i: int, k: int) -> int {
    if i < k {
        i
    } else {
        i + 1
    }
}

/// A condition that is not met at `k` and otherwise as before around it is first met where it
/// was, moved behind `k`.
pub proof fn lemma_first_where_shifts(
    n: int,
    p: spec_fn(int) -> bool,
    q: spec_fn(int) -> bool,
    k: int,
)
    requires
        0 <= k <= n,
        forall|i: int| 0 <= i < n ==> #[trigger] p(i) == q(shifted(i, k)),
        !q(k),
    ensures
        first_where(n + 1, q) == match first_where(n, p) {
            Some(i) => Some(shifted(i, k)),
            None => None,
        },
{
    lemma_first_where(n, p);
    lemma_first_where(n + 1, q);
    match first_where(n, p) {
        Some(i) => {
            assert(p(i) == q(shifted(i, k)));
            assert forall|j: int| 0 <= j < shifted(i, k) implies !#[trigger] q(j) by {
                if j < k {
                    assert(!p(j));
                    assert(shifted(j, k) == j);
                } else if j > k {
                    assert(!p(j - 1));
                    assert(shifted(j - 1, k) == j);
                }
            }
            lemma_first_where_is(n + 1, q, shifted(i, k));
        },
        None => {
            assert forall|j: int| 0 <= j < n + 1 implies !#[trigger] q(j) by {
                if j < k {
                    assert(!p(j));
                    assert(shifted(j, k) == j);
                } else if j > k {
                    assert(!p(j - 1));
                    assert(shifted(j - 1, k) == j);
                }
            }
        },
    }
}

/// A condition that is not met at `k` and otherwise as before around it is last met where it
/// was, moved behind `k`.
pub proof fn lemma_last_where_shifts(
    n: int,
    p: spec_fn(int) -> bool,
    q: spec_fn(int) -> bool,
    k: int,
)
    requires
        0 <= k <= n,
        forall|i: int| 0 <= i < n ==> #[trigger] p(i) == q(shifted(i, k)),
        !q(k),
    ensures
        last_where(n + 1, q) == match last_where(n, p) {
            Some(i) => Some(shifted(i, k)),
            None => None,
        },
{
    lemma_last_where(n, p);
    lemma_last_where(n + 1, q);
    match last_where(n, p) {
        Some(i) => {
            assert(p(i) == q(shifted(i, k)));
            assert forall|j: int| shifted(i, k) < j < n + 1 implies !#[trigger] q(j) by {
                if j < k {
                    assert(!p(j));
                    assert(shifted(j, k) == j);
                } else if j > k {
                    assert(!p(j - 1));
                    assert(shifted(j - 1, k) == j);
                }
            }
            lemma_last_where_is(n + 1, q, shifted(i, k));
        },
        None => {
            assert forall|j: int| 0 <= j < n + 1 implies !#[trigger] q(j) by {
                if j < k {
                    assert(!p(j));
                    assert(shifted(j, k) == j);
                } else if j > k {
                    assert(!p(j - 1));
                    assert(shifted(j - 1, k) == j);
                }
            }
        },
    }
}

} // verus!
