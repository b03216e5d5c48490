//! The value of a `key=value` line: what stands behind the `=`, without the white space
//! around it.

use crate::text;
use crate::text::{count_leading_space, trimmed};
use vstd::prelude::*;
use vstd::slice::slice_subrange;

verus! {

/// Where the value behind an `=` at `eq` begins.
pub open spec fn value_start(content: Seq<char>, eq: int) -> int {
    eq + 1 + text::leading_space(content.skip(eq + 1))
}

/// Where the value behind an `=` at `eq` ends.
pub open spec fn value_end(content: Seq<char>, eq: int) -> int {
    value_start(content, eq) + text::trim(content.skip(eq + 1)).len()
}

/// The value lies behind the `=`, inside the line, and is the trimmed text there.
pub proof fn lemma_value_span(content: Seq<char>, eq: int)
    requires
        0 <= eq < content.len(),
    ensures
        eq < value_start(content, eq) <= value_end(content, eq) <= content.len(),
        content.subrange(value_start(content, eq), value_end(content, eq)) == text::trim(
            content.skip(eq + 1),
        ),
        forall|i: int|
            eq < i < value_start(content, eq) ==> text::is_space(#[trigger] content[i]),
{
    let after = content.skip(eq + 1);
    text::lemma_trim(after);
    text::lemma_leading_space(after);
    assert(content.subrange(value_start(content, eq), value_end(content, eq)) =~= after.subrange(
        text::leading_space(after),
        text::leading_space(after) + text::trim(after).len(),
    ));
    assert forall|i: int| eq < i < value_start(content, eq) implies text::is_space(
        #[trigger] content[i],
    ) by {
        assert(after[i - eq - 1] == content[i]);
    }
}

/// Computes [`value_start`] and [`value_end`].
pub fn value_span(content: &[char], eq: usize) -> (r: (usize, usize))
    requires
        eq < content@.len(),
    ensures
        r.0 == value_start(content@, eq as int),
        r.1 == value_end(content@, eq as int),
        eq < r.0 <= r.1 <= content@.len(),
{
    let n: usize = content.len();
    let after = slice_subrange(content, eq + 1, n);
    assert(after@ =~= content@.skip(eq + 1));
    proof {
        lemma_value_span(content@, eq as int);
    }
    let start: usize = eq + 1 + count_leading_space(after);
    (start, start + trimmed(after).len())
}

} // verus!
