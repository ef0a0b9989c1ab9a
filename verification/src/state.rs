//! The state of a select box: the options, which of them are selected, and
//! which of them the current search text lets through.

use crate::order::{
    ascending, ascending_within, lemma_ascending, lemma_ascending_is, lemma_within_is_prefix,
    nth_index, within,
};
use crate::selection::{Selection, SelectionView};
use crate::wrappers::SelectFilter;
use std::collections::BTreeSet;
use vstd::prelude::*;
use vstd::std_specs::iter::IteratorSpec;

verus! {

/// The outcome of the last filter pass over the options.
#[derive(Debug)]
pub enum Filtered {
    /// A search text is active and no option passes it.
    Nothing,
    /// A search text is active and exactly these options pass it; never empty.
    Subset(BTreeSet<usize>),
    /// No search text is active: every option is shown.
    All,
}

/// What a filter outcome is, mathematically.
pub enum FilteredView {
    Nothing,
    Subset(Set<usize>),
    All,
}

impl View for Filtered {
    type V = FilteredView;

    open spec fn view(&self) -> FilteredView {
        match self {
            Filtered::Nothing => FilteredView::Nothing,
            Filtered::Subset(set) => FilteredView::Subset(set@),
            Filtered::All => FilteredView::All,
        }
    }
}

impl FilteredView {
    /// The outcome of a pass that exactly the indices in `passing` survived:
    /// an empty result is `Nothing`, never an empty subset.
    pub open spec fn of(passing: Set<usize>) -> FilteredView {
        if passing == Set::<usize>::empty() {
            FilteredView::Nothing
        } else {
            FilteredView::Subset(passing)
        }
    }

    /// The indices shown from a list of `len` options, in list order. An
    /// index of a subset that addresses no option is not shown.
    pub open spec fn visible(self, len: nat) -> Seq<usize> {
        match self {
            FilteredView::Nothing => Seq::empty(),
            FilteredView::Subset(set) => ascending(within(set, len)),
            FilteredView::All => Seq::new(len, |i: int| i as usize),
        }
    }
}

/// The indices of the `items` that pass the search text `query`.
pub open spec fn passing_indices<T, F: Fn(&T, &str) -> bool>(
    items: Seq<T>,
    predicate: SelectFilter<T, F>,
    query: Seq<char>,
) -> Set<usize> {
    Set::new(|i: usize| i < items.len() && predicate.accepts(&items[i as int], query))
}

/// The predicate has answered on every one of the `items` for the search
/// text `query`.
pub open spec fn all_decided<T, F: Fn(&T, &str) -> bool>(
    items: Seq<T>,
    predicate: SelectFilter<T, F>,
    query: Seq<char>,
) -> bool {
    forall|i: int| 0 <= i < items.len() ==> #[trigger] predicate.decides(&items[i], query)
}

/// `eq` can be called on every pair of items and always gives the same
/// answer on the same pair.
pub open spec fn is_pure_eq<T, E: Fn(&T, &T) -> bool>(eq: E) -> bool {
    &&& forall|a: &T, b: &T| #[trigger] call_requires(eq, (a, b))
    &&& forall|a: &T, b: &T, ra: bool, rb: bool|
        #[trigger] call_ensures(eq, (a, b), ra) && #[trigger] call_ensures(eq, (a, b), rb) ==> ra
            == rb
}

/// `eq` takes `b` for the same item as `a`.
pub open spec fn same<T, E: Fn(&T, &T) -> bool>(eq: E, a: &T, b: &T) -> bool {
    call_ensures(eq, (a, b), true)
}

/// `eq` answers on `a` and `b`, one way or the other.
pub open spec fn answered<T, E: Fn(&T, &T) -> bool>(eq: E, a: &T, b: &T) -> bool {
    call_ensures(eq, (a, b), true) || call_ensures(eq, (a, b), false)
}

/// `j` is the first position of `items` whose item `eq` takes for `target`.
pub open spec fn is_first_match<T, E: Fn(&T, &T) -> bool>(
    eq: E,
    target: &T,
    items: Seq<T>,
    j: int,
) -> bool {
    &&& 0 <= j < items.len()
    &&& same(eq, target, &items[j])
    &&& forall|k: int| 0 <= k < j ==> !same(eq, target, &#[trigger] items[k])
}

/// What the state of a select box is, mathematically. The operations of
/// `SelectState` are stated as functions on this model.
pub struct StateView<T, F: Fn(&T, &str) -> bool> {
    /// The options, in list order.
    pub items: Seq<T>,
    /// What is selected, and under which cardinality policy.
    pub selection: SelectionView,
    /// The outcome of the last filter pass.
    pub filtered: FilteredView,
    /// The search text that `filtered` was computed for, if one is active.
    pub query: Option<Seq<char>>,
    /// The predicate that tests an option against a search text.
    pub predicate: SelectFilter<T, F>,
}

impl<T, F: Fn(&T, &str) -> bool> StateView<T, F> {
    /// The indices of the options that pass the search text `query`.
    pub open spec fn passing(self, query: Seq<char>) -> Set<usize> {
        passing_indices(self.items, self.predicate, query)
    }

    /// The predicate has answered on every option for the search text `query`.
    pub open spec fn decided(self, query: Seq<char>) -> bool {
        all_decided(self.items, self.predicate, query)
    }

    /// The filter outcome that the active search text gives on the options.
    pub open spec fn refiltered(self) -> FilteredView {
        match self.query {
            Option::None => FilteredView::All,
            Option::Some(query) => FilteredView::of(self.passing(query)),
        }
    }

    /// The selection respects its policy, an active search text is not
    /// empty, and the filter outcome is the one that the active search text
    /// gives on the options.
    pub open spec fn wf(self) -> bool {
        &&& self.predicate.wf()
        &&& self.selection.wf()
        &&& self.items.len() <= usize::MAX
        &&& self.query matches Option::Some(query) ==> query.len() > 0
        &&& self.filtered == self.refiltered()
    }

    /// The indices shown, in list order.
    pub open spec fn visible(self) -> Seq<usize> {
        self.filtered.visible(self.items.len())
    }

    /// The index shown at `position`, if that many are shown.
    pub open spec fn shown_at(self, position: usize) -> Option<usize> {
        if position < self.visible().len() {
            Option::Some(self.visible()[position as int])
        } else {
            Option::None
        }
    }

    /// The selected indices that address an option, in ascending order.
    pub open spec fn selected(self) -> Seq<usize> {
        ascending(within(self.selection.indices, self.items.len()))
    }

    /// Selecting `index`; an index that addresses no option changes nothing.
    pub open spec fn select(self, index: usize) -> Self {
        if index < self.items.len() {
            StateView { selection: self.selection.select(index), ..self }
        } else {
            self
        }
    }

    /// Whether selecting `index` changes the selection.
    pub open spec fn select_changes(self, index: usize) -> bool {
        index < self.items.len() && self.selection.select_changes(index)
    }

    /// Deselecting `index`; an index that addresses no option changes nothing.
    pub open spec fn deselect(self, index: usize) -> Self {
        if index < self.items.len() {
            StateView { selection: self.selection.deselect(index), ..self }
        } else {
            self
        }
    }

    /// Whether deselecting `index` changes the selection.
    pub open spec fn deselect_changes(self, index: usize) -> bool {
        index < self.items.len() && self.selection.deselect_changes(index)
    }

    /// Clearing the selection.
    pub open spec fn clear(self) -> Self {
        StateView { selection: self.selection.clear(), ..self }
    }

    /// Dropping the filter: every option is shown and no search text is active.
    pub open spec fn unfilter(self) -> Self {
        StateView { filtered: FilteredView::All, query: Option::None, ..self }
    }

    /// Replacing the options: the selection starts over, and the active
    /// search text, if there is one, is applied to the new options.
    pub open spec fn replace_options(self, items: Seq<T>) -> Self {
        let swapped = StateView { items, selection: self.selection.reset(), ..self };
        StateView { filtered: swapped.refiltered(), ..swapped }
    }

    /// Where the selected options are found again in `items`: for each
    /// selected index that addresses an option, the first position of
    /// `items` whose item `eq` takes for that option, if there is one.
    pub open spec fn carried<E: Fn(&T, &T) -> bool>(self, items: Seq<T>, eq: E) -> Set<usize> {
        Set::new(
            |j: usize|
                exists|i: usize|
                    self.selection.includes(i) && i < self.items.len() && #[trigger] is_first_match(
                        eq,
                        &self.items[i as int],
                        items,
                        j as int,
                    ),
        )
    }

    /// The selection carried over to `items`: what is found again stays
    /// selected, what is not is dropped, and `ExactlyOne` falls back to
    /// index 0 when its option is not found.
    pub open spec fn reselect<E: Fn(&T, &T) -> bool>(self, items: Seq<T>, eq: E) -> SelectionView {
        let carried = self.carried(items, eq);
        SelectionView {
            cardinality: self.selection.cardinality,
            indices: if self.selection.cardinality is ExactlyOne && carried == Set::<
                usize,
            >::empty() {
                set![0usize]
            } else {
                carried
            },
        }
    }

    /// Replacing the options while carrying the selection over, and applying
    /// the active search text, if there is one, to the new options.
    pub open spec fn replace_options_reselecting<E: Fn(&T, &T) -> bool>(
        self,
        items: Seq<T>,
        eq: E,
    ) -> Self {
        let swapped = StateView { items, selection: self.reselect(items, eq), ..self };
        StateView { filtered: swapped.refiltered(), ..swapped }
    }

    /// `eq` has answered on every pair it had to look at to carry the
    /// selection over to `items`: each selected option against the items up
    /// to and including its first match.
    pub open spec fn compared<E: Fn(&T, &T) -> bool>(self, items: Seq<T>, eq: E) -> bool {
        forall|i: usize, k: int|
            self.selection.includes(i) && i < self.items.len() && 0 <= k < items.len() && (forall|
                m: int,
            |
                0 <= m < k ==> !same(eq, &self.items[i as int], &#[trigger] items[m]))
                ==> #[trigger] answered(eq, &self.items[i as int], &items[k])
    }

    /// Filtering by `query`: a non-empty text becomes the active one and
    /// narrows the options to those that pass it; an empty text drops the
    /// filter.
    pub open spec fn filter(self, query: Seq<char>) -> Self {
        if query.len() == 0 {
            self.unfilter()
        } else {
            StateView {
                filtered: FilteredView::of(self.passing(query)),
                query: Option::Some(query),
                ..self
            }
        }
    }
}

/// `entries` pairs each index of `indices`, in order, with the option it addresses.
pub open spec fn pairs_with_items<T>(
    entries: Seq<(usize, &T)>,
    indices: Seq<usize>,
    items: Seq<T>,
) -> bool {
    &&& entries.len() == indices.len()
    &&& forall|k: int|
        0 <= k < entries.len() ==> {
            &&& (#[trigger] entries[k]).0 == indices[k]
            &&& 0 <= indices[k] < items.len()
            &&& *entries[k].1 == items[indices[k] as int]
        }
}

/// `entries` gives each index of `indices`, in order, with whether it is
/// selected and with the option it addresses.
pub open spec fn marks_with_items<T>(
    entries: Seq<(usize, bool, &T)>,
    indices: Seq<usize>,
    selection: SelectionView,
    items: Seq<T>,
) -> bool {
    &&& entries.len() == indices.len()
    &&& forall|k: int|
        0 <= k < entries.len() ==> {
            &&& (#[trigger] entries[k]).0 == indices[k]
            &&& entries[k].1 == selection.includes(indices[k])
            &&& 0 <= indices[k] < items.len()
            &&& *entries[k].2 == items[indices[k] as int]
        }
}

/// `entry` is the index at `position` of `indices` with the option it
/// addresses, or nothing where `indices` has no such position.
pub open spec fn entry_at<T>(
    entry: Option<(usize, &T)>,
    indices: Seq<usize>,
    position: int,
    items: Seq<T>,
) -> bool {
    match entry {
        Option::Some(found) => {
            &&& 0 <= position < indices.len()
            &&& found.0 == indices[position]
            &&& found.0 < items.len()
            &&& *found.1 == items[found.0 as int]
        },
        Option::None => !(0 <= position < indices.len()),
    }
}

/// The state of a select box.
pub struct SelectState<T, F: Fn(&T, &str) -> bool> {
    options: Vec<T>,
    selected_indices: Selection,
    filtered_indices: Filtered,
    filter_fn: SelectFilter<T, F>,
    filter_input: Option<String>,
}

impl<T, F: Fn(&T, &str) -> bool> View for SelectState<T, F> {
    type V = StateView<T, F>;

    closed spec fn view(&self) -> StateView<T, F> {
        StateView {
            items: self.options@,
            selection: self.selected_indices@,
            filtered: self.filtered_indices@,
            query: match self.filter_input {
                Option::None => Option::None,
                Option::Some(input) => Option::Some(input@),
            },
            predicate: self.filter_fn,
        }
    }
}

impl<T, F: Fn(&T, &str) -> bool> SelectState<T, F> {
    /// A select box over `options` with the given selection and nothing
    /// filtered out. The selection is taken as it is: an index in it that
    /// addresses no option stays selected and is never shown.
    pub fn new(options: Vec<T>, selection: Selection, filter_fn: SelectFilter<T, F>) -> (r: Self)
        requires
            filter_fn.wf(),
        ensures
            r@ == (StateView {
                items: options@,
                selection: selection@,
                filtered: FilteredView::All,
                query: Option::None,
                predicate: filter_fn,
            }),
            r@.wf(),
    {
        proof {
            selection.lemma_view_wf();
            assert(options@.len() == options.len());
        }
        Self {
            options,
            selected_indices: selection,
            filtered_indices: Filtered::All,
            filter_fn,
            filter_input: None,
        }
    }

    /// Whether several options may be selected at once.
    pub fn is_multiple(&self) -> (r: bool)
        ensures
            r == (self@.selection.cardinality is ZeroOrMany),
    {
        self.selected_indices.is_multiple()
    }

    /// Whether the selection may be empty.
    pub fn is_nullable(&self) -> (r: bool)
        ensures
            r == !(self@.selection.cardinality is ExactlyOne),
    {
        self.selected_indices.is_nullable()
    }

    /// The current selection.
    pub fn selection(&self) -> (r: &Selection)
        ensures
            r@ == self@.selection,
    {
        &self.selected_indices
    }

    /// The outcome of the last filter pass.
    pub fn filtered(&self) -> (r: &Filtered)
        ensures
            r@ == self@.filtered,
    {
        &self.filtered_indices
    }

    /// The active search text, if there is one.
    pub fn query(&self) -> (r: Option<&str>)
        ensures
            match r {
                Option::Some(text) => self@.query == Option::Some(text@),
                Option::None => self@.query is None,
            },
    {
        match &self.filter_input {
            Some(input) => Some(input.as_str()),
            None => None,
        }
    }

    /// The option at `index`, if there is one.
    pub fn get(&self, index: usize) -> (r: Option<&T>)
        ensures
            r == if index < self@.items.len() {
                Option::Some(&self@.items[index as int])
            } else {
                Option::None
            },
    {
        if index < self.options.len() {
            Some(&self.options[index])
        } else {
            None
        }
    }

    /// An iterator over all options, in list order.
    pub fn iter(&self) -> (r: std::slice::Iter<'_, T>)
        ensures
            r.remaining().unref() == self@.items,
    {
        self.options.as_slice().iter()
    }

    /// Select an index from the options.
    /// Returns true if the selection has changed.
    pub fn select(&mut self, index: usize) -> (changed: bool)
        ensures
            final(self)@ == old(self)@.select(index),
            old(self)@.wf() ==> final(self)@.wf(),
            changed == old(self)@.select_changes(index),
    {
        if index >= self.options.len() {
            return false;
        }
        let changed = self.selected_indices.select(index);
        proof {
            self.selected_indices.lemma_view_wf();
        }
        changed
    }

    /// Deselect an index from the options.
    /// Returns true if the selection has changed.
    pub fn deselect(&mut self, index: usize) -> (changed: bool)
        ensures
            final(self)@ == old(self)@.deselect(index),
            old(self)@.wf() ==> final(self)@.wf(),
            changed == old(self)@.deselect_changes(index),
    {
        if index >= self.options.len() {
            return false;
        }
        let changed = self.selected_indices.deselect(index);
        proof {
            self.selected_indices.lemma_view_wf();
        }
        changed
    }

    /// Clear the selected items.
    /// Returns true if the selection has changed.
    pub fn clear(&mut self) -> (changed: bool)
        ensures
            final(self)@ == old(self)@.clear(),
            old(self)@.wf() ==> final(self)@.wf(),
            changed == old(self)@.selection.clear_changes(),
    {
        let changed = self.selected_indices.clear();
        proof {
            self.selected_indices.lemma_view_wf();
        }
        changed
    }

    /// Drop the filter: every option is shown again and no search text is
    /// active.
    pub fn unfilter(&mut self)
        ensures
            final(self)@ == old(self)@.unfilter(),
            old(self)@.wf() ==> final(self)@.wf(),
    {
        self.filter_input = None;
        self.filtered_indices = Filtered::All;
    }

    /// The outcome of a filter pass over `options` with the search text `input`.
    fn filter_inner(options: &Vec<T>, filter_fn: &SelectFilter<T, F>, input: &str) -> (r: Filtered)
        requires
            filter_fn.wf(),
        ensures
            r@ == FilteredView::of(passing_indices(options@, *filter_fn, input@)),
            all_decided(options@, *filter_fn, input@),
    {
        let mut indices: BTreeSet<usize> = BTreeSet::new();
        let mut i: usize = 0;
        while i < options.len()
            invariant
                i <= options@.len(),
                filter_fn.wf(),
                indices@ == Set::new(
                    |j: usize| j < i && filter_fn.accepts(&options@[j as int], input@),
                ),
                forall|j: int| 0 <= j < i ==> #[trigger] filter_fn.decides(&options@[j], input@),
            decreases options@.len() - i,
        {
            let passes = filter_fn.call(&options[i], input);
            if passes {
                indices.insert(i);
            }
            proof {
                assert(indices@ =~= Set::new(
                    |j: usize| j < i + 1 && filter_fn.accepts(&options@[j as int], input@),
                ));
            }
            i += 1;
        }
        proof {
            assert(indices@ =~= passing_indices(options@, *filter_fn, input@));
        }
        if indices.is_empty() {
            Filtered::Nothing
        } else {
            Filtered::Subset(indices)
        }
    }

    /// Compute the filter outcome anew from the active search text.
    fn refilter(&mut self)
        requires
            old(self)@.predicate.wf(),
        ensures
            final(self)@ == (StateView { filtered: old(self)@.refiltered(), ..old(self)@ }),
            final(self)@.query matches Option::Some(query) ==> final(self)@.decided(query),
    {
        let outcome = match &self.filter_input {
            Some(input) => Self::filter_inner(&self.options, &self.filter_fn, input.as_str()),
            None => Filtered::All,
        };
        self.filtered_indices = outcome;
    }

    /// Narrow the options to those that pass the search text `input`, which
    /// becomes the active one. An empty `input` drops the filter instead, as
    /// `unfilter` does: a search box that has been emptied shows everything.
    pub fn filter(&mut self, input: &str)
        requires
            old(self)@.predicate.wf(),
        ensures
            final(self)@ == old(self)@.filter(input@),
            final(self)@.wf(),
            input@.len() > 0 ==> final(self)@.decided(input@),
    {
        proof {
            self.selected_indices.lemma_view_wf();
            assert(self.options@.len() == self.options.len());
        }
        if input.is_empty() {
            self.unfilter();
        } else {
            self.filtered_indices = Self::filter_inner(&self.options, &self.filter_fn, input);
            self.filter_input = Some(input.to_owned());
        }
    }

    /// The first selected option with its index, if any is selected.
    pub fn first_selected(&self) -> (r: Option<(usize, &T)>)
        ensures
            entry_at(r, self@.selected(), 0, self@.items),
    {
        let first = match &self.selected_indices {
            Selection::MaybeOne(None) => None,
            Selection::AlwaysOne(index) => Some(*index),
            Selection::MaybeOne(Some(index)) => Some(*index),
            Selection::Multiple(set) => nth_index(set, 0),
        };
        proof {
            let all = self.selected_indices@.indices;
            lemma_ascending(all);
            lemma_within_is_prefix(all, self.options@.len());
            match first {
                Option::Some(index) => {
                    if !(self.selected_indices is Multiple) {
                        assert(seq![index][0] == index);
                        assert(seq![index].to_set() =~= all);
                        lemma_ascending_is(seq![index], all);
                    }
                    assert(ascending(all)[0] == index);
                },
                Option::None => {
                    assert(ascending(all).len() == 0);
                },
            }
        }
        match first {
            Some(index) => {
                if index < self.options.len() {
                    Some((index, &self.options[index]))
                } else {
                    None
                }
            },
            None => None,
        }
    }

    /// The selected indices that address an option, in ascending order.
    fn selected_within(&self) -> (r: Vec<usize>)
        ensures
            r@ == self@.selected(),
    {
        match &self.selected_indices {
            Selection::MaybeOne(None) => {
                proof {
                    let cut = within(Set::<usize>::empty(), self.options@.len());
                    assert(Seq::<usize>::empty().to_set() =~= cut);
                    lemma_ascending_is(Seq::<usize>::empty(), cut);
                }
                Vec::new()
            },
            Selection::AlwaysOne(index) | Selection::MaybeOne(Some(index)) => {
                let mut only: Vec<usize> = Vec::new();
                if *index < self.options.len() {
                    only.push(*index);
                }
                proof {
                    let cut = within(set![*index], self.options@.len());
                    assert(only@.to_set() =~= cut) by {
                        assert forall|x: usize| only@.to_set().contains(x) <==> cut.contains(x) by {
                            if cut.contains(x) {
                                assert(only@[0] == x);
                            }
                        }
                    }
                    lemma_ascending_is(only@, cut);
                }
                only
            },
            Selection::Multiple(set) => ascending_within(set, self.options.len()),
        }
    }

    /// The selected options, each with its index, in ascending order of
    /// index. A selected index that addresses no option is left out.
    pub fn selected_items(&self) -> (r: Vec<(usize, &T)>)
        ensures
            pairs_with_items(r@, self@.selected(), self@.items),
    {
        let indices = self.selected_within();
        proof {
            lemma_ascending(within(self@.selection.indices, self@.items.len()));
        }
        let mut selected_items: Vec<(usize, &T)> = Vec::new();
        let mut k: usize = 0;
        while k < indices.len()
            invariant
                k <= indices@.len(),
                forall|j: int| 0 <= j < indices@.len() ==> indices@[j] < self.options@.len(),
                pairs_with_items(selected_items@, indices@.take(k as int), self.options@),
            decreases indices@.len() - k,
        {
            let index = indices[k];
            selected_items.push((index, &self.options[index]));
            k += 1;
        }
        proof {
            assert(indices@.take(k as int) == indices@);
        }
        selected_items
    }

    /// The option at `position` of what is shown, with its index in the
    /// list of all options: with no filter the option at that index, with a
    /// filter the option at that rank among those that pass.
    pub fn get_filtered(&self, position: usize) -> (r: Option<(usize, &T)>)
        ensures
            entry_at(r, self@.visible(), position as int, self@.items),
            match r {
                Option::Some(found) => self@.shown_at(position) == Option::Some(found.0),
                Option::None => self@.shown_at(position) is None,
            },
    {
        let found = match &self.filtered_indices {
            Filtered::All => Some(position),
            Filtered::Subset(set) => {
                proof {
                    lemma_within_is_prefix(set@, self.options@.len());
                }
                nth_index(set, position)
            },
            Filtered::Nothing => None,
        };
        match found {
            Some(index) => {
                if index < self.options.len() {
                    Some((index, &self.options[index]))
                } else {
                    None
                }
            },
            None => None,
        }
    }

    /// The first option of what is shown, with its index.
    pub fn first_filtered(&self) -> (r: Option<(usize, &T)>)
        ensures
            entry_at(r, self@.visible(), 0, self@.items),
    {
        self.get_filtered(0)
    }

    /// The options that are shown, in list order, each with its index and
    /// with whether it is selected.
    pub fn filtered_items(&self) -> (r: Vec<(usize, bool, &T)>)
        ensures
            marks_with_items(r@, self@.visible(), self@.selection, self@.items),
    {
        let mut filtered_items: Vec<(usize, bool, &T)> = Vec::new();
        match &self.filtered_indices {
            Filtered::All => {
                let mut i: usize = 0;
                while i < self.options.len()
                    invariant
                        i <= self.options@.len(),
                        self.filtered_indices is All,
                        marks_with_items(
                            filtered_items@,
                            self@.visible().take(i as int),
                            self@.selection,
                            self@.items,
                        ),
                    decreases self.options@.len() - i,
                {
                    let selected = self.selected_indices.includes(&i);
                    filtered_items.push((i, selected, &self.options[i]));
                    i += 1;
                }
                proof {
                    assert(self@.visible().take(i as int) == self@.visible());
                }
            },
            Filtered::Subset(set) => {
                let ordered = ascending_within(set, self.options.len());
                proof {
                    lemma_ascending(within(set@, self.options@.len()));
                }
                let mut k: usize = 0;
                while k < ordered.len()
                    invariant
                        k <= ordered@.len(),
                        ordered@ == self@.visible(),
                        forall|j: int| 0 <= j < ordered@.len() ==> ordered@[j] < self.options@.len(),
                        marks_with_items(
                            filtered_items@,
                            ordered@.take(k as int),
                            self@.selection,
                            self@.items,
                        ),
                    decreases ordered@.len() - k,
                {
                    let index = ordered[k];
                    let selected = self.selected_indices.includes(&index);
                    filtered_items.push((index, selected, &self.options[index]));
                    k += 1;
                }
                proof {
                    assert(ordered@.take(k as int) == ordered@);
                }
            },
            Filtered::Nothing => {},
        }
        filtered_items
    }

    /// The first position of `items` whose item `eq` takes for `target`.
    fn position<E: Fn(&T, &T) -> bool>(items: &Vec<T>, target: &T, eq: &E) -> (r: Option<usize>)
        requires
            is_pure_eq::<T, E>(*eq),
        ensures
            match r {
                Option::Some(j) => is_first_match(*eq, target, items@, j as int),
                Option::None => forall|k: int|
                    0 <= k < items@.len() ==> !same(*eq, target, &#[trigger] items@[k]),
            },
            forall|k: int|
                0 <= k < items@.len() && (forall|m: int|
                    0 <= m < k ==> !same(*eq, target, &#[trigger] items@[m])) ==> #[trigger] answered(
                    *eq,
                    target,
                    &items@[k],
                ),
    {
        let mut j: usize = 0;
        while j < items.len()
            invariant
                j <= items@.len(),
                is_pure_eq::<T, E>(*eq),
                forall|k: int| 0 <= k < j ==> !same(*eq, target, &#[trigger] items@[k]),
                forall|k: int| 0 <= k < j ==> #[trigger] answered(*eq, target, &items@[k]),
            decreases items@.len() - j,
        {
            if eq(target, &items[j]) {
                proof {
                    assert forall|k: int|
                        0 <= k < items@.len() && (forall|m: int|
                            0 <= m < k ==> !same(*eq, target, &#[trigger] items@[m]))
                            implies #[trigger] answered(*eq, target, &items@[k]) by {
                        if k > j {
                            assert(same(*eq, target, &items@[j as int]));
                        }
                    }
                }
                return Some(j);
            }
            j += 1;
        }
        None
    }

    /// Where the option at `index` of `old_options` is found again in
    /// `options`.
    fn carry_over<E: Fn(&T, &T) -> bool>(
        old_options: &Vec<T>,
        index: usize,
        options: &Vec<T>,
        eq: &E,
    ) -> (r: Option<usize>)
        requires
            is_pure_eq::<T, E>(*eq),
        ensures
            match r {
                Option::Some(j) => index < old_options@.len() && is_first_match(
                    *eq,
                    &old_options@[index as int],
                    options@,
                    j as int,
                ),
                Option::None => index < old_options@.len() ==> forall|k: int|
                    0 <= k < options@.len() ==> !same(
                        *eq,
                        &old_options@[index as int],
                        &#[trigger] options@[k],
                    ),
            },
            index < old_options@.len() ==> forall|k: int|
                0 <= k < options@.len() && (forall|m: int|
                    0 <= m < k ==> !same(*eq, &old_options@[index as int], &#[trigger] options@[m]))
                    ==> #[trigger] answered(*eq, &old_options@[index as int], &options@[k]),
    {
        if index < old_options.len() {
            Self::position(options, &old_options[index], eq)
        } else {
            None
        }
    }

    /// Replace the option set. The selection starts over: index 0 where one
    /// option is always selected, nothing otherwise. The active search text,
    /// if there is one, is applied to the new options.
    pub fn replace_options(&mut self, options: Vec<T>)
        requires
            old(self)@.predicate.wf(),
        ensures
            final(self)@ == old(self)@.replace_options(options@),
            old(self)@.wf() ==> final(self)@.wf(),
            final(self)@.query matches Option::Some(query) ==> final(self)@.decided(query),
    {
        let reset = match &self.selected_indices {
            Selection::MaybeOne(_) => Selection::none(),
            Selection::AlwaysOne(_) => Selection::one(0),
            Selection::Multiple(_) => Selection::empty(),
        };
        proof {
            reset.lemma_view_wf();
            assert(options@.len() == options.len());
        }
        self.selected_indices = reset;
        self.options = options;
        self.refilter();
    }
    /// Replace the existing options and attempt to reselect the existing
    /// selections: each selected option is looked up in the new options with
    /// `selection_eq` and its first match is selected in its place. An
    /// option that is not found again is dropped from the selection; where
    /// one option is always selected, index 0 takes its place. The active
    /// search text, if there is one, is applied to the new options.
    pub fn replace_options_reselecting<E: Fn(&T, &T) -> bool>(
        &mut self,
        options: Vec<T>,
        selection_eq: E,
    )
        requires
            old(self)@.predicate.wf(),
            is_pure_eq::<T, E>(selection_eq),
        ensures
            final(self)@ == old(self)@.replace_options_reselecting(options@, selection_eq),
            old(self)@.wf() ==> final(self)@.wf(),
            final(self)@.query matches Option::Some(query) ==> final(self)@.decided(query),
            old(self)@.compared(options@, selection_eq),
    {
        let ghost before = self@;
        let ghost carried = before.carried(options@, selection_eq);
        let reselected = match &self.selected_indices {
            Selection::MaybeOne(None) => {
                proof {
                    assert(carried =~= Set::<usize>::empty());
                }
                Selection::MaybeOne(None)
            },
            Selection::MaybeOne(Some(index)) => {
                let found = Self::carry_over(&self.options, *index, &options, &selection_eq);
                proof {
                    Self::lemma_carried_one(before, *index, options@, selection_eq, found);
                }
                Selection::MaybeOne(found)
            },
            Selection::AlwaysOne(index) => {
                let found = Self::carry_over(&self.options, *index, &options, &selection_eq);
                proof {
                    Self::lemma_carried_one(before, *index, options@, selection_eq, found);
                }
                match found {
                    Some(j) => {
                        assert(carried.contains(j));
                        Selection::one(j)
                    },
                    None => Selection::one(0),
                }
            },
            Selection::Multiple(indices) => {
                let ordered = ascending_within(indices, self.options.len());
                let mut kept: BTreeSet<usize> = BTreeSet::new();
                proof {
                    lemma_ascending(within(indices@, self.options@.len()));
                }
                let mut k: usize = 0;
                while k < ordered.len()
                    invariant
                        k <= ordered@.len(),
                        is_pure_eq::<T, E>(selection_eq),
                        ordered@ == ascending(within(indices@, self.options@.len())),
                        before.items == self.options@,
                        kept@ == Set::new(
                            |j: usize|
                                exists|t: int|
                                    0 <= t < k && ordered@[t] < self.options@.len()
                                        && #[trigger] is_first_match(
                                        selection_eq,
                                        &self.options@[ordered@[t] as int],
                                        options@,
                                        j as int,
                                    ),
                        ),
                        forall|t: int, c: int|
                            0 <= t < k && ordered@[t] < self.options@.len() && 0 <= c
                                < options@.len() && (forall|m: int|
                                0 <= m < c ==> !same(
                                    selection_eq,
                                    &self.options@[ordered@[t] as int],
                                    &#[trigger] options@[m],
                                )) ==> #[trigger] answered(
                                selection_eq,
                                &self.options@[ordered@[t] as int],
                                &options@[c],
                            ),
                    decreases ordered@.len() - k,
                {
                    let ghost kept_before = kept@;
                    let index = ordered[k];
                    let found = Self::carry_over(&self.options, index, &options, &selection_eq);
                    match found {
                        Some(j) => {
                            kept.insert(j);
                        },
                        None => {},
                    }
                    proof {
                        let grown = Set::new(
                            |j: usize|
                                exists|t: int|
                                    0 <= t < k + 1 && ordered@[t] < self.options@.len()
                                        && #[trigger] is_first_match(
                                        selection_eq,
                                        &self.options@[ordered@[t] as int],
                                        options@,
                                        j as int,
                                    ),
                        );
                        assert forall|j: usize| kept@.contains(j) <==> grown.contains(j) by {
                            if kept@.contains(j) {
                                if kept_before.contains(j) {
                                    let t = choose|t: int|
                                        0 <= t < k && ordered@[t] < self.options@.len()
                                            && #[trigger] is_first_match(
                                            selection_eq,
                                            &self.options@[ordered@[t] as int],
                                            options@,
                                            j as int,
                                        );
                                    assert(is_first_match(
                                        selection_eq,
                                        &self.options@[ordered@[t] as int],
                                        options@,
                                        j as int,
                                    ));
                                } else {
                                    assert(found == Option::Some(j));
                                    assert(is_first_match(
                                        selection_eq,
                                        &self.options@[ordered@[k as int] as int],
                                        options@,
                                        j as int,
                                    ));
                                }
                            }
                            if grown.contains(j) {
                                let t = choose|t: int|
                                    0 <= t < k + 1 && ordered@[t] < self.options@.len()
                                        && #[trigger] is_first_match(
                                        selection_eq,
                                        &self.options@[ordered@[t] as int],
                                        options@,
                                        j as int,
                                    );
                                if t < k {
                                    assert(kept_before.contains(j));
                                } else {
                                    Self::lemma_first_match_unique(
                                        selection_eq,
                                        &self.options@[index as int],
                                        options@,
                                        j as int,
                                        found,
                                    );
                                }
                            }
                        }
                        assert(kept@ =~= grown);
                    }
                    k += 1;
                }
                proof {
                    assert forall|j: usize| kept@.contains(j) <==> carried.contains(j) by {
                        if kept@.contains(j) {
                            let t = choose|t: int|
                                0 <= t < k && ordered@[t] < self.options@.len()
                                    && #[trigger] is_first_match(
                                    selection_eq,
                                    &self.options@[ordered@[t] as int],
                                    options@,
                                    j as int,
                                );
                            let i = ordered@[t];
                            assert(within(indices@, self.options@.len()).contains(i));
                            assert(is_first_match(
                                selection_eq,
                                &before.items[i as int],
                                options@,
                                j as int,
                            ));
                        }
                        if carried.contains(j) {
                            let i = choose|i: usize|
                                before.selection.includes(i) && i < before.items.len()
                                    && #[trigger] is_first_match(
                                    selection_eq,
                                    &before.items[i as int],
                                    options@,
                                    j as int,
                                );
                            assert(within(indices@, self.options@.len()).contains(i));
                            assert(ascending(within(indices@, self.options@.len())).contains(i));
                            let t = choose|t: int| 0 <= t < ordered@.len() && ordered@[t] == i;
                            assert(is_first_match(
                                selection_eq,
                                &self.options@[ordered@[t] as int],
                                options@,
                                j as int,
                            ));
                        }
                    }
                    assert(kept@ =~= carried);
                    assert forall|i: usize, c: int|
                        before.selection.includes(i) && i < before.items.len() && 0 <= c
                            < options@.len() && (forall|m: int|
                            0 <= m < c ==> !same(
                                selection_eq,
                                &before.items[i as int],
                                &#[trigger] options@[m],
                            )) implies #[trigger] answered(
                        selection_eq,
                        &before.items[i as int],
                        &options@[c],
                    ) by {
                        assert(within(indices@, self.options@.len()).contains(i));
                        assert(ascending(within(indices@, self.options@.len())).contains(i));
                        let t = choose|t: int| 0 <= t < ordered@.len() && ordered@[t] == i;
                        assert(ordered@[t] == i);
                    }
                }
                Selection::Multiple(kept)
            },
        };
        proof {
            reselected.lemma_view_wf();
            assert(options@.len() == options.len());
            assert(reselected@ == before.reselect(options@, selection_eq));
        }
        self.selected_indices = reselected;
        self.options = options;
        self.refilter();
    }

    /// A first match is the only one: whatever `found` says of `target`, a
    /// first match at `j` is what it found.
    proof fn lemma_first_match_unique<E: Fn(&T, &T) -> bool>(
        eq: E,
        target: &T,
        items: Seq<T>,
        j: int,
        found: Option<usize>,
    )
        requires
            is_first_match(eq, target, items, j),
            match found {
                Option::Some(f) => is_first_match(eq, target, items, f as int),
                Option::None => forall|k: int|
                    0 <= k < items.len() ==> !same(eq, target, &#[trigger] items[k]),
            },
        ensures
            found == Option::Some(j as usize),
    {
        match found {
            Option::Some(f) => {
                if (f as int) < j {
                    assert(!same(eq, target, &items[f as int]));
                }
                if j < f as int {
                    assert(!same(eq, target, &items[j]));
                }
            },
            Option::None => {
                assert(!same(eq, target, &items[j]));
            },
        }
    }

    /// What a selection of the one index `index` carries over, given what
    /// the search for its option found.
    proof fn lemma_carried_one<E: Fn(&T, &T) -> bool>(
        before: StateView<T, F>,
        index: usize,
        items: Seq<T>,
        eq: E,
        found: Option<usize>,
    )
        requires
            before.selection.indices == set![index],
            match found {
                Option::Some(j) => index < before.items.len() && is_first_match(
                    eq,
                    &before.items[index as int],
                    items,
                    j as int,
                ),
                Option::None => index < before.items.len() ==> forall|k: int|
                    0 <= k < items.len() ==> !same(
                        eq,
                        &before.items[index as int],
                        &#[trigger] items[k],
                    ),
            },
        ensures
            before.carried(items, eq) == match found {
                Option::Some(j) => set![j],
                Option::None => Set::<usize>::empty(),
            },
    {
        let carried = before.carried(items, eq);
        let expected = match found {
            Option::Some(j) => set![j],
            Option::None => Set::<usize>::empty(),
        };
        assert forall|j: usize| carried.contains(j) <==> expected.contains(j) by {
            if carried.contains(j) {
                let i = choose|i: usize|
                    before.selection.includes(i) && i < before.items.len()
                        && #[trigger] is_first_match(eq, &before.items[i as int], items, j as int);
                assert(i == index);
                Self::lemma_first_match_unique(
                    eq,
                    &before.items[index as int],
                    items,
                    j as int,
                    found,
                );
            }
            if expected.contains(j) {
                assert(before.selection.includes(index));
                assert(is_first_match(eq, &before.items[index as int], items, j as int));
            }
        }
        assert(carried =~= expected);
    }
}

} // verus!
