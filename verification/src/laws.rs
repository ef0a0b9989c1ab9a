//! Laws of the selection and of the filter, proved from the models that the
//! operations are specified by.

use crate::order::{ascending, lemma_ascending, lemma_ascending_is, strictly_ascending, within};
use crate::selection::SelectionView;
use crate::state::{is_first_match, same, FilteredView, StateView};
use vstd::prelude::*;

verus! {

/// Where exactly one index is always selected, deselecting and clearing
/// change nothing: both report no change and the selected index stays.
pub proof fn law_exactly_one_is_kept(selection: SelectionView, index: usize)
    requires
        selection.cardinality is ExactlyOne,
    ensures
        selection.deselect(index) == selection,
        !selection.deselect_changes(index),
        selection.clear() == selection,
        !selection.clear_changes(),
{
}

/// Where at most one index is selected, selecting an index and then
/// deselecting it leaves nothing selected, and deselecting an index that is
/// not the selected one changes nothing.
pub proof fn law_zero_or_one_round_trip(selection: SelectionView, index: usize, other: usize)
    requires
        selection.cardinality is ZeroOrOne,
    ensures
        selection.select(index).deselect(index).indices == Set::<usize>::empty(),
        selection.select(index).deselect_changes(index),
        !selection.includes(other) ==> selection.deselect(other) == selection
            && !selection.deselect_changes(other),
{
    assert(set![index].remove(index) =~= Set::<usize>::empty());
    if !selection.includes(other) {
        assert(selection.indices.remove(other) =~= selection.indices);
    }
}

/// Where any number of indices may be selected, selecting inserts into the
/// set of selected indices and deselecting removes from it, and both are
/// idempotent: a second call changes nothing and says so. The first call
/// reports a change exactly if the index was not selected, or was.
pub proof fn law_zero_or_many_is_a_set(selection: SelectionView, index: usize)
    requires
        selection.cardinality is ZeroOrMany,
    ensures
        selection.select(index).indices == selection.indices.insert(index),
        selection.select_changes(index) == !selection.includes(index),
        selection.select(index).select(index) == selection.select(index),
        !selection.select(index).select_changes(index),
        selection.deselect(index).indices == selection.indices.remove(index),
        selection.deselect_changes(index) == selection.includes(index),
        selection.deselect(index).deselect(index) == selection.deselect(index),
        !selection.deselect(index).deselect_changes(index),
{
    assert(selection.indices.insert(index).insert(index) =~= selection.indices.insert(index));
    assert(selection.indices.remove(index).remove(index) =~= selection.indices.remove(index));
}

/// Selecting, deselecting and clearing report a change exactly if the
/// selection is another one afterwards.
pub proof fn law_changed_means_changed(selection: SelectionView, index: usize)
    requires
        selection.wf(),
    ensures
        selection.select_changes(index) == (selection.select(index) != selection),
        selection.deselect_changes(index) == (selection.deselect(index) != selection),
        selection.clear_changes() == (selection.clear() != selection),
{
    assert(set![index].contains(index));
    if selection.includes(index) {
        assert(selection.indices.insert(index) =~= selection.indices);
        if !(selection.cardinality is ZeroOrMany) {
            assert(selection.indices.len() == 1);
            assert(selection.indices.remove(index).len() == 0);
            assert(selection.indices.remove(index) =~= Set::<usize>::empty());
            assert(selection.indices =~= set![index]);
        }
        assert(!selection.indices.remove(index).contains(index));
    } else {
        assert(selection.indices.remove(index) =~= selection.indices);
    }
}

/// Selecting, deselecting, clearing and starting over keep a selection
/// within its cardinality policy.
pub proof fn law_selection_stays_valid(selection: SelectionView, index: usize)
    requires
        selection.wf(),
    ensures
        selection.select(index).wf(),
        selection.deselect(index).wf(),
        selection.clear().wf(),
        selection.reset().wf(),
{
    assert(set![index].len() == 1);
    assert(set![0usize].len() == 1);
    if selection.includes(index) {
        assert(selection.indices.remove(index).len() == selection.indices.len() - 1);
    } else {
        assert(selection.indices.remove(index) =~= selection.indices);
    }
}

/// Filtering by the empty text shows every option: the outcome is `All`, no
/// search text is active, and what is shown is the whole list in its order.
pub proof fn law_empty_query_shows_all<T, F: Fn(&T, &str) -> bool>(state: StateView<T, F>)
    requires
        state.wf(),
    ensures
        state.filter(Seq::<char>::empty()).filtered == FilteredView::All,
        state.filter(Seq::<char>::empty()).query is None,
        state.filter(Seq::<char>::empty()).visible().len() == state.items.len(),
        forall|k: int|
            0 <= k < state.items.len() ==> #[trigger] state.filter(
                Seq::<char>::empty(),
            ).visible()[k] == k,
{
}

/// Filtering by a text that is not empty narrows the options to exactly
/// those that pass it: the outcome is the set of passing indices, or
/// `Nothing` if that set is empty, never an empty subset and never `All`.
/// What is shown is the passing indices in ascending order.
pub proof fn law_filter_keeps_what_passes<T, F: Fn(&T, &str) -> bool>(
    state: StateView<T, F>,
    query: Seq<char>,
)
    requires
        query.len() > 0,
    ensures
        state.filter(query).query == Option::Some(query),
        match state.filter(query).filtered {
            FilteredView::Subset(indices) => indices == state.passing(query) && indices
                != Set::<usize>::empty(),
            FilteredView::Nothing => state.passing(query) == Set::<usize>::empty(),
            FilteredView::All => false,
        },
        state.filter(query).visible() == ascending(state.passing(query)),
        strictly_ascending(state.filter(query).visible()),
        state.filter(query).visible().to_set() == state.passing(query),
        forall|i: usize|
            state.filter(query).visible().contains(i) <==> i < state.items.len()
                && state.predicate.accepts(&state.items[i as int], query),
        state.passing(query) == Set::<usize>::empty() ==> state.filter(query).visible().len() == 0,
{
    let passing = state.passing(query);
    assert(within(passing, state.items.len()) =~= passing);
    lemma_ascending(passing);
    let shown = state.filter(query).visible();
    if passing == Set::<usize>::empty() {
        assert(Seq::<usize>::empty().to_set() =~= passing);
        lemma_ascending_is(Seq::<usize>::empty(), passing);
    }
    assert forall|i: usize|
        shown.contains(i) <==> i < state.items.len() && state.predicate.accepts(
            &state.items[i as int],
            query,
        ) by {
        assert(shown.contains(i) <==> shown.to_set().contains(i));
    }
}

/// After filtering by a text that is not empty, the first option shown is
/// the one at the smallest passing index; if no option passes, nothing is
/// shown.
pub proof fn law_first_shown_is_smallest<T, F: Fn(&T, &str) -> bool>(
    state: StateView<T, F>,
    query: Seq<char>,
)
    requires
        query.len() > 0,
    ensures
        state.passing(query) != Set::<usize>::empty() ==> {
            &&& state.filter(query).visible().len() > 0
            &&& state.passing(query).contains(state.filter(query).visible()[0])
            &&& forall|i: usize|
                state.passing(query).contains(i) ==> state.filter(query).visible()[0] <= i
        },
        state.passing(query) == Set::<usize>::empty() ==> state.filter(query).visible().len() == 0,
{
    let passing = state.passing(query);
    assert(within(passing, state.items.len()) =~= passing);
    let shown = state.filter(query).visible();
    lemma_ascending(passing);
    if passing == Set::<usize>::empty() {
        assert(Seq::<usize>::empty().to_set() =~= passing);
        lemma_ascending_is(Seq::<usize>::empty(), passing);
    } else {
        assert(shown.len() > 0) by {
            if shown.len() == 0 {
                assert(shown.to_set() =~= Set::<usize>::empty());
            }
        }
        assert forall|i: usize| passing.contains(i) implies shown[0] <= i by {
            assert(shown.contains(i));
            let k = choose|k: int| 0 <= k < shown.len() && shown[k] == i;
        }
    }
}

/// Dropping the filter undoes any filtering: whatever the text was, all
/// options are shown again in list order, and the options, the selection
/// and the predicate are what they were.
pub proof fn law_unfilter_restores_all<T, F: Fn(&T, &str) -> bool>(
    state: StateView<T, F>,
    query: Seq<char>,
)
    requires
        state.wf(),
    ensures
        state.filter(query).unfilter() == state.unfilter(),
        state.filter(query).unfilter().filtered == FilteredView::All,
        state.filter(query).unfilter().query is None,
        state.filter(query).unfilter().items == state.items,
        state.filter(query).unfilter().selection == state.selection,
        state.filter(query).unfilter().predicate == state.predicate,
        state.filter(query).unfilter().visible().len() == state.items.len(),
        forall|k: int|
            0 <= k < state.items.len() ==> #[trigger] state.filter(query).unfilter().visible()[k]
                == k,
{
}

/// Every operation keeps the state valid: the selection stays within its
/// policy, an active search text is never empty, and the filter outcome is
/// always the one that the active search text gives on the current options.
pub proof fn law_state_stays_valid<T, F: Fn(&T, &str) -> bool>(
    state: StateView<T, F>,
    index: usize,
    query: Seq<char>,
    items: Seq<T>,
)
    requires
        state.wf(),
        items.len() <= usize::MAX,
    ensures
        state.select(index).wf(),
        state.deselect(index).wf(),
        state.clear().wf(),
        state.filter(query).wf(),
        state.unfilter().wf(),
        state.replace_options(items).wf(),
{
    law_selection_stays_valid(state.selection, index);
}

/// Carrying a selection over to new options keeps it within its policy and
/// within the new options: each index carried over addresses a new option,
/// a selection of at most one index carries at most one over, and
/// `ExactlyOne` holds exactly one index afterwards. The state as a whole
/// stays valid.
pub proof fn law_reselect_stays_valid<T, F: Fn(&T, &str) -> bool, E: Fn(&T, &T) -> bool>(
    state: StateView<T, F>,
    items: Seq<T>,
    eq: E,
)
    requires
        state.wf(),
        items.len() <= usize::MAX,
    ensures
        forall|j: usize| state.carried(items, eq).contains(j) ==> j < items.len(),
        state.reselect(items, eq).wf(),
        state.replace_options_reselecting(items, eq).wf(),
        state.selection.cardinality is ExactlyOne ==> state.reselect(items, eq).indices.len() == 1,
{
    let carried = state.carried(items, eq);
    lemma_ascending(carried);
    assert(set![0usize].len() == 1);
    if !(state.selection.cardinality is ZeroOrMany) {
        if carried != Set::<usize>::empty() {
            if forall|j: usize| !carried.contains(j) {
                assert(carried =~= Set::<usize>::empty());
            }
            let j0 = choose|j: usize| carried.contains(j);
            let i0 = choose|i: usize|
                state.selection.includes(i) && i < state.items.len() && #[trigger] is_first_match(
                    eq,
                    &state.items[i as int],
                    items,
                    j0 as int,
                );
            assert(state.selection.indices.len() <= 1);
            assert(state.selection.indices =~= set![i0]) by {
                assert(state.selection.indices.remove(i0).len() == 0);
                assert(state.selection.indices.remove(i0) =~= Set::<usize>::empty());
                assert forall|x: usize| state.selection.indices.contains(x) implies x == i0 by {
                    if x != i0 {
                        assert(state.selection.indices.remove(i0).contains(x));
                    }
                }
            }
            assert forall|j: usize| carried.contains(j) implies j == j0 by {
                let i = choose|i: usize|
                    state.selection.includes(i) && i < state.items.len()
                        && #[trigger] is_first_match(eq, &state.items[i as int], items, j as int);
                assert(i == i0);
                if j < j0 {
                    assert(!same(eq, &state.items[i0 as int], &items[j as int]));
                }
                if j0 < j {
                    assert(!same(eq, &state.items[i0 as int], &items[j0 as int]));
                }
            }
            assert(carried =~= set![j0]);
            assert(set![j0].len() == 1);
        }
    }
}

/// What is listed as selected is exactly the selected indices that address
/// an option, in ascending order of index, whatever else is selected.
pub proof fn law_selected_is_in_range<T, F: Fn(&T, &str) -> bool>(state: StateView<T, F>)
    ensures
        strictly_ascending(state.selected()),
        forall|i: usize|
            state.selected().contains(i) <==> state.selection.includes(i) && i < state.items.len(),
{
    let cut = within(state.selection.indices, state.items.len());
    lemma_ascending(cut);
    assert forall|i: usize|
        state.selected().contains(i) <==> state.selection.includes(i) && i
            < state.items.len() by {
        assert(state.selected().contains(i) <==> state.selected().to_set().contains(i));
    }
}

/// What is shown always addresses options, in ascending order of index, and
/// a filter outcome that is a subset is never empty.
pub proof fn law_visible_is_in_range<T, F: Fn(&T, &str) -> bool>(state: StateView<T, F>)
    requires
        state.wf(),
    ensures
        strictly_ascending(state.visible()),
        forall|k: int| 0 <= k < state.visible().len() ==> #[trigger] state.visible()[k] < state.items.len(),
        state.filtered matches FilteredView::Subset(indices) ==> indices != Set::<usize>::empty(),
{
    match state.filtered {
        FilteredView::Subset(indices) => {
            assert(within(indices, state.items.len()) =~= indices);
            lemma_ascending(indices);
        },
        _ => {},
    }
}

} // verus!
