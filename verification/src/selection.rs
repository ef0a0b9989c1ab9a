//! The selection of a select box: which indices are chosen, and under which
//! cardinality policy.

use std::collections::BTreeSet;
use vstd::prelude::*;

verus! {

/// How many indices a selection may hold.
pub enum Cardinality {
    /// Always exactly one index; the selection can be replaced, never emptied.
    ExactlyOne,
    /// No index or one.
    ZeroOrOne,
    /// Any number of distinct indices.
    ZeroOrMany,
}

/// What a selection is, mathematically: a cardinality policy and the set of
/// selected indices. The operations on a selection are stated as functions on
/// this model.
pub struct SelectionView {
    pub cardinality: Cardinality,
    pub indices: Set<usize>,
}

impl SelectionView {
    /// The index set respects the cardinality policy.
    pub open spec fn wf(self) -> bool {
        match self.cardinality {
            Cardinality::ExactlyOne => self.indices.finite() && self.indices.len() == 1,
            Cardinality::ZeroOrOne => self.indices.finite() && self.indices.len() <= 1,
            Cardinality::ZeroOrMany => self.indices.finite(),
        }
    }

    /// Whether `index` is selected.
    pub open spec fn includes(self, index: usize) -> bool {
        self.indices.contains(index)
    }

    /// Selecting `index`: a single-valued selection then holds `index` alone,
    /// a multiple one gains it.
    pub open spec fn select(self, index: usize) -> SelectionView {
        SelectionView {
            cardinality: self.cardinality,
            indices: if self.cardinality is ZeroOrMany {
                self.indices.insert(index)
            } else {
                set![index]
            },
        }
    }

    /// Whether selecting `index` changes the selection: it does unless
    /// `index` is selected already.
    pub open spec fn select_changes(self, index: usize) -> bool {
        !self.includes(index)
    }

    /// Deselecting `index`: `ExactlyOne` keeps what it has, the others lose
    /// `index` if they held it.
    pub open spec fn deselect(self, index: usize) -> SelectionView {
        SelectionView {
            cardinality: self.cardinality,
            indices: if self.cardinality is ExactlyOne {
                self.indices
            } else {
                self.indices.remove(index)
            },
        }
    }

    /// Whether deselecting `index` changes the selection: never under
    /// `ExactlyOne`, otherwise if `index` is selected.
    pub open spec fn deselect_changes(self, index: usize) -> bool {
        !(self.cardinality is ExactlyOne) && self.includes(index)
    }

    /// Clearing: `ExactlyOne` keeps what it has, the others become empty.
    pub open spec fn clear(self) -> SelectionView {
        SelectionView {
            cardinality: self.cardinality,
            indices: if self.cardinality is ExactlyOne {
                self.indices
            } else {
                Set::empty()
            },
        }
    }

    /// Whether clearing changes the selection: never under `ExactlyOne`,
    /// otherwise if anything is selected.
    pub open spec fn clear_changes(self) -> bool {
        !(self.cardinality is ExactlyOne) && self.indices != Set::<usize>::empty()
    }

    /// The selection a policy starts from: index 0 for `ExactlyOne`, nothing
    /// for the others.
    pub open spec fn reset(self) -> SelectionView {
        SelectionView {
            cardinality: self.cardinality,
            indices: if self.cardinality is ExactlyOne {
                set![0usize]
            } else {
                Set::empty()
            },
        }
    }
}

/// The chosen indices of a select box together with its cardinality policy.
///
/// * `AlwaysOne` holds exactly one index and can never become empty.
/// * `MaybeOne` holds at most one index.
/// * `Multiple` holds any number of distinct indices.
///
/// A selection knows nothing of the list it selects from: every index is
/// accepted here, and bounds are the business of whoever owns the list.
pub enum Selection {
    AlwaysOne(usize),
    MaybeOne(Option<usize>),
    Multiple(BTreeSet<usize>),
}

impl View for Selection {
    type V = SelectionView;

    open spec fn view(&self) -> SelectionView {
        match self {
            Selection::AlwaysOne(index) => SelectionView {
                cardinality: Cardinality::ExactlyOne,
                indices: set![*index],
            },
            Selection::MaybeOne(Some(index)) => SelectionView {
                cardinality: Cardinality::ZeroOrOne,
                indices: set![*index],
            },
            Selection::MaybeOne(None) => SelectionView {
                cardinality: Cardinality::ZeroOrOne,
                indices: Set::empty(),
            },
            Selection::Multiple(set) => SelectionView {
                cardinality: Cardinality::ZeroOrMany,
                indices: set@,
            },
        }
    }
}

impl Selection {
    /// The model of every selection respects its cardinality policy.
    pub proof fn lemma_view_wf(&self)
        ensures
            self@.wf(),
    {
        match self {
            Selection::AlwaysOne(index) => {
                assert(set![*index].len() == 1);
            },
            Selection::MaybeOne(Some(index)) => {
                assert(set![*index].len() == 1);
            },
            Selection::MaybeOne(None) => {},
            Selection::Multiple(set) => {
                crate::order::lemma_ascending(set@);
            },
        }
    }

    /// A selection of at most one index is determined by its model: two such
    /// selections with the same model are the same value.
    pub proof fn lemma_single_valued_by_view(&self, other: &Selection)
        requires
            self@ == other@,
            !(self is Multiple),
        ensures
            *self == *other,
    {
        match (self, other) {
            (Selection::AlwaysOne(a), Selection::AlwaysOne(b)) => {
                assert(set![*a].contains(*a));
            },
            (Selection::MaybeOne(Some(a)), Selection::MaybeOne(Some(b))) => {
                assert(set![*a].contains(*a));
            },
            (Selection::MaybeOne(Some(a)), Selection::MaybeOne(None)) => {
                assert(set![*a].contains(*a));
            },
            (Selection::MaybeOne(None), Selection::MaybeOne(Some(b))) => {
                assert(set![*b].contains(*b));
            },
            _ => {},
        }
    }

    /// Create a new `Selection::AlwaysOne` with the given selection
    pub fn one(index: usize) -> (r: Self)
        ensures
            r == Selection::AlwaysOne(index),
    {
        Selection::AlwaysOne(index)
    }

    /// Create a new `Selection::MaybeOne` with the given selection
    pub fn some(index: usize) -> (r: Self)
        ensures
            r == Selection::MaybeOne(Some(index)),
    {
        Selection::MaybeOne(Some(index))
    }

    /// Create a new `Selection::MaybeOne` with no selection
    pub fn none() -> (r: Self)
        ensures
            r == Selection::MaybeOne(None),
    {
        Selection::MaybeOne(None)
    }

    /// Create a new `Selection::Multiple` with no selection
    pub fn empty() -> (r: Self)
        ensures
            r is Multiple,
            r@.indices == Set::<usize>::empty(),
    {
        Selection::Multiple(BTreeSet::new())
    }

    /// Create a new `Selection::Multiple` with some indices selected;
    /// an index given twice is selected once.
    pub fn multiple(indices: Vec<usize>) -> (r: Self)
        ensures
            r is Multiple,
            r@.indices == indices@.to_set(),
    {
        let mut set: BTreeSet<usize> = BTreeSet::new();
        let mut k: usize = 0;
        while k < indices.len()
            invariant
                k <= indices@.len(),
                set@ == indices@.take(k as int).to_set(),
            decreases indices@.len() - k,
        {
            let index = indices[k];
            set.insert(index);
            proof {
                let before = indices@.take(k as int);
                let after = indices@.take(k + 1);
                assert(after == before.push(index));
                assert(after.to_set() =~= before.to_set().insert(index)) by {
                    assert forall|x: usize| after.to_set().contains(x) implies before.to_set().insert(
                        index,
                    ).contains(x) by {
                        let j = choose|j: int| 0 <= j < after.len() && after[j] == x;
                        if j < k {
                            assert(before[j] == x);
                        }
                    }
                    assert forall|x: usize| before.to_set().insert(index).contains(
                        x,
                    ) implies after.to_set().contains(x) by {
                        if x == index {
                            assert(after[k as int] == x);
                        } else {
                            let j = choose|j: int| 0 <= j < before.len() && before[j] == x;
                            assert(after[j] == x);
                        }
                    }
                }
            }
            k += 1;
        }
        proof {
            assert(indices@.take(k as int) == indices@);
        }
        Selection::Multiple(set)
    }

    /// The number of selected indices.
    pub fn len(&self) -> (n: usize)
        ensures
            n == self@.indices.len(),
    {
        match self {
            Selection::MaybeOne(None) => 0,
            Selection::AlwaysOne(_) | Selection::MaybeOne(Some(_)) => 1,
            Selection::Multiple(set) => set.len(),
        }
    }

    /// Whether nothing is selected.
    pub fn is_empty(&self) -> (r: bool)
        ensures
            r == (self@.indices == Set::<usize>::empty()),
    {
        match self {
            Selection::MaybeOne(None) => true,
            Selection::AlwaysOne(index) | Selection::MaybeOne(Some(index)) => {
                assert(set![*index].contains(*index));
                false
            },
            Selection::Multiple(set) => set.is_empty(),
        }
    }

    /// The selected indices as an ordered set.
    pub fn as_set(&self) -> (r: BTreeSet<usize>)
        ensures
            r@ == self@.indices,
    {
        match self {
            Selection::MaybeOne(None) => BTreeSet::new(),
            Selection::AlwaysOne(index) | Selection::MaybeOne(Some(index)) => {
                let mut set: BTreeSet<usize> = BTreeSet::new();
                set.insert(*index);
                set
            },
            Selection::Multiple(set) => set.clone(),
        }
    }

    /// Whether `i` is selected.
    pub fn includes(&self, i: &usize) -> (r: bool)
        ensures
            r == self@.includes(*i),
    {
        match self {
            Selection::MaybeOne(None) => false,
            Selection::AlwaysOne(index) | Selection::MaybeOne(Some(index)) => *index == *i,
            Selection::Multiple(set) => set.contains(i),
        }
    }

    /// Whether several indices may be selected at once.
    pub fn is_multiple(&self) -> (r: bool)
        ensures
            r == (self@.cardinality is ZeroOrMany),
    {
        match self {
            Selection::AlwaysOne(_) => false,
            Selection::MaybeOne(_) => false,
            Selection::Multiple(_) => true,
        }
    }

    /// Whether the selection may be empty.
    pub fn is_nullable(&self) -> (r: bool)
        ensures
            r == !(self@.cardinality is ExactlyOne),
    {
        match self {
            Selection::AlwaysOne(_) => false,
            Selection::MaybeOne(_) => true,
            Selection::Multiple(_) => true,
        }
    }

    /// Select an index from the options.
    /// Returns true if the selection has changed.
    pub fn select(&mut self, index: usize) -> (changed: bool)
        ensures
            final(self)@ == old(self)@.select(index),
            changed == old(self)@.select_changes(index),
    {
        match self {
            Selection::AlwaysOne(idx) => {
                if index != *idx {
                    *idx = index;
                    true
                } else {
                    false
                }
            },
            Selection::MaybeOne(maybe_idx) => {
                let previous = *maybe_idx;
                *maybe_idx = Some(index);
                match previous {
                    Some(old_index) => old_index != index,
                    None => true,
                }
            },
            Selection::Multiple(set) => set.insert(index),
        }
    }

    /// Deselect an index from the options.
    /// Returns true if the selection has changed.
    pub fn deselect(&mut self, index: usize) -> (changed: bool)
        ensures
            final(self)@ == old(self)@.deselect(index),
            changed == old(self)@.deselect_changes(index),
    {
        match self {
            Selection::AlwaysOne(_) => false,
            Selection::MaybeOne(maybe_idx) => {
                match *maybe_idx {
                    None => {
                        assert(Set::<usize>::empty().remove(index) =~= Set::<usize>::empty());
                        false
                    },
                    Some(i) => {
                        if index == i {
                            assert(set![i].remove(index) =~= Set::<usize>::empty());
                            *maybe_idx = None;
                            true
                        } else {
                            assert(set![i].remove(index) =~= set![i]);
                            false
                        }
                    },
                }
            },
            Selection::Multiple(set) => set.remove(&index),
        }
    }

    /// Clear the selected items.
    /// Returns true if the selection has changed.
    pub fn clear(&mut self) -> (changed: bool)
        ensures
            final(self)@ == old(self)@.clear(),
            changed == old(self)@.clear_changes(),
    {
        match self {
            Selection::AlwaysOne(_) => false,
            Selection::MaybeOne(maybe_idx) => {
                match *maybe_idx {
                    None => false,
                    Some(i) => {
                        assert(set![i].contains(i));
                        *maybe_idx = None;
                        true
                    },
                }
            },
            Selection::Multiple(set) => {
                if set.is_empty() {
                    assert(set@ =~= Set::<usize>::empty());
                    false
                } else {
                    set.clear();
                    true
                }
            },
        }
    }
}

impl Clone for Selection {
    fn clone(&self) -> (r: Self)
        ensures
            r@ == self@,
    {
        match self {
            Selection::AlwaysOne(index) => Selection::AlwaysOne(*index),
            Selection::MaybeOne(index) => Selection::MaybeOne(*index),
            Selection::Multiple(set) => Selection::Multiple(set.clone()),
        }
    }
}

} // verus!
