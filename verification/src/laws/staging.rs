//! The laws of pending changes.

use crate::search;
use crate::theme::staging;
use crate::theme::staging::{Choice, Pending};
use vstd::prelude::*;

verus! {

/// A change that is made pending is what the value will be, and is one: staging what the
/// configuration holds leaves no change pending. What the configuration holds stays.
pub proof fn staged_value_is_effective(value: Pending, to: Seq<char>)
    ensures
        value.stage(to).effective() == Some(to),
        value.stage(to).is_sound(),
        value.stage(to).is_changed() <==> value.original != Some(to),
        value.stage(to).original == value.original,
{
}

/// Only the last of several changes counts.
pub proof fn last_change_counts(value: Pending, first: Seq<char>, to: Seq<char>)
    ensures
        value.stage(first).stage(to) == value.stage(to),
{
}

/// Forgetting the pending change gives what the configuration holds, and undoes any staging.
pub proof fn reset_undoes_staging(value: Pending, to: Seq<char>)
    ensures
        value.reset().effective() == value.original,
        !value.reset().is_changed(),
        value.stage(to).reset() == value.reset(),
        value.reset().reset() == value.reset(),
        !value.is_changed() ==> value.reset() == value,
{
}

/// Taking the pending change for written leaves the value as it was to be, with no change pending.
pub proof fn commit_keeps_the_value(value: Pending)
    ensures
        value.commit().effective() == value.effective(),
        value.commit().original == value.effective(),
        !value.commit().is_changed(),
        !value.is_changed() ==> value.commit() == value,
{
}

/// What there is to choose from holds the current value, and every given option, in order.
pub proof fn current_value_is_offered(options: Seq<Seq<char>>, original: Option<Seq<char>>)
    ensures
        original matches Some(current) ==> staging::offering(options, original).contains(current),
        forall|i: int|
            0 <= i < options.len() ==> staging::offering(options, original).contains(
                #[trigger] options[i],
            ),
        original is None || options.contains(original->0) ==> staging::offering(options, original)
            == options,
{
    let offered = staging::offering(options, original);
    if let Some(current) = original {
        if !options.contains(current) {
            assert(offered[0] == current);
            assert forall|i: int| 0 <= i < options.len() implies offered.contains(
                #[trigger] options[i],
            ) by {
                assert(offered[i + 1] == options[i]);
            }
        }
    }
}

/// A choice whose value is among the options keeps it there when another option is chosen, and
/// when the choice is taken for written. When it is forgotten, the value is there if the one that
/// the configuration holds is.
pub proof fn choice_stays_offered(choice: Choice, i: int)
    requires
        0 <= i < choice.options.len(),
    ensures
        choice.with(choice.value.stage(choice.options[i])).is_offered(),
        choice.is_offered() ==> choice.with(choice.value.commit()).is_offered(),
        choice.value.original is Some && choice.options.contains(choice.value.original->0)
            ==> choice.with(choice.value.reset()).is_offered(),
{
}

/// What there is to choose from is the given options and the current value, which stands in front
/// where it is not among them, with the options behind it in their order.
pub proof fn offering_adds_the_current_value(
    options: Seq<Seq<char>>,
    original: Option<Seq<char>>,
    value: Seq<char>,
)
    ensures
        staging::offering(options, original).contains(value) <==> options.contains(value) || original
            == Some(value),
        original matches Some(current) ==> !options.contains(current) ==> {
            let offered = staging::offering(options, original);
            &&& offered.len() == options.len() + 1
            &&& offered[0] == current
            &&& offered.skip(1) == options
        },
{
    let offered = staging::offering(options, original);
    current_value_is_offered(options, original);
    if let Some(current) = original {
        if !options.contains(current) {
            assert(offered.skip(1) =~= options);
            if offered.contains(value) {
                let i = choose|i: int| 0 <= i < offered.len() && offered[i] == value;
                if i > 0 {
                    assert(options[i - 1] == value);
                }
            }
        }
    }
    if options.contains(value) {
        let i = choose|i: int| 0 <= i < options.len() && options[i] == value;
        assert(offered.contains(options[i]));
    }
}

/// The option that is selected is the one that the value will be, and the first of several that are
/// the same; none is where the value is not among the options.
pub proof fn selected_option_is_the_value(choice: Choice, i: int, j: int)
    requires
        choice.is_selected(i),
    ensures
        0 <= i < choice.options.len(),
        choice.value.effective() == Some(choice.options[i]),
        choice.is_offered(),
        choice.is_selected(j) ==> i == j,
        0 <= j < choice.options.len() && choice.options[j] == choice.options[i] ==> i <= j,
{
    if 0 <= j < choice.options.len() && choice.options[j] == choice.options[i] && j < i {
        assert(choice.value.effective() != Some(choice.options[j]));
    }
}

/// A value that is among the options is selected at some place there.
pub proof fn offered_value_is_selected(choice: Choice)
    requires
        choice.is_offered(),
    ensures
        exists|i: int| choice.is_selected(i),
{
    let value = choice.value.effective()->0;
    let n = choice.options.len() as int;
    let p = |i: int| choice.options[i] == value;
    search::lemma_first_where(n, p);
    let k = choose|k: int| 0 <= k < n && choice.options[k] == value;
    assert(p(k));
    let i = search::first_where(n, p)->0;
    assert forall|j: int| 0 <= j < i implies choice.value.effective() != Some(
        #[trigger] choice.options[j],
    ) by {
        assert(!p(j));
    }
    assert(choice.is_selected(i));
}

} // verus!
