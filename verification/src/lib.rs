//! The state behind a searchable select box: a list of options, a selection
//! over it, and a text filter that narrows what is shown.
//!
//! * [`Selection`] is what is selected, under one of three cardinality
//!   policies.
//! * [`SelectState`] owns the options, the selection and the outcome of the
//!   last filter pass, and answers what is shown and what is selected.
//! * [`SelectFilter`] and [`SelectDisplay`] hold the two functions a select
//!   box is built with.
//! * [`Select`] is the search box itself: focus, highlighted row and typed
//!   text, and what each message does to them.
//!
//! Each operation is specified as a function on a mathematical model of the
//! state; `laws` proves what follows from those models.

use vstd::prelude::*;

pub mod laws;
pub mod order;
pub mod selection;
pub mod state;
pub mod widget;
pub mod wrappers;

pub use selection::Selection;
pub use state::{Filtered, SelectState};
pub use widget::{Effect, Msg, Select};
pub use wrappers::{SelectDisplay, SelectFilter};

verus! {

/// Make a filter predicate out of a function of an item and a search text.
pub fn filter<T, F: Fn(&T, &str) -> bool>(f: F) -> (r: SelectFilter<T, F>)
    ensures
        r == SelectFilter::<T, F>::holding(f),
        r.closure() == f,
{
    SelectFilter::new(f)
}

} // verus!
