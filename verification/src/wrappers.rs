//! Cheaply cloneable handles for the two functions a select box is built
//! with: the predicate that tests an item against the search text, and the
//! formatter that renders an item as text.

use std::marker::PhantomData;
use std::sync::Arc;
use vstd::prelude::*;

verus! {

/// `f` can be called on every item and every input, and its answer depends
/// on the item and on the text of the input alone.
pub open spec fn is_pure_filter<T, F: Fn(&T, &str) -> bool>(f: F) -> bool {
    &&& forall|item: &T, input: &str| #[trigger] call_requires(f, (item, input))
    &&& forall|item: &T, a: &str, b: &str, ra: bool, rb: bool|
        a@ == b@ && #[trigger] call_ensures(f, (item, a), ra) && #[trigger] call_ensures(
            f,
            (item, b),
            rb,
        ) ==> ra == rb
}

/// The predicate that decides whether an item passes a search text.
pub struct SelectFilter<T, F: Fn(&T, &str) -> bool> {
    inner: Arc<F>,
    marker: PhantomData<T>,
}

impl<T, F: Fn(&T, &str) -> bool> SelectFilter<T, F> {
    /// The function this handle holds.
    pub closed spec fn closure(&self) -> F {
        *self.inner
    }

    /// The held function is a pure predicate.
    pub open spec fn wf(&self) -> bool {
        is_pure_filter::<T, F>(self.closure())
    }

    /// `r` is an answer of the held function on `item` and a string that
    /// reads `input`.
    pub open spec fn answers(&self, item: &T, input: Seq<char>, r: bool) -> bool {
        exists|s: &str| s@ == input && #[trigger] call_ensures(self.closure(), (item, s), r)
    }

    /// The held function answers on `item` and `input`, one way or the other.
    pub open spec fn decides(&self, item: &T, input: Seq<char>) -> bool {
        self.answers(item, input, true) || self.answers(item, input, false)
    }

    /// `item` passes the search text `input`.
    pub open spec fn accepts(&self, item: &T, input: Seq<char>) -> bool {
        self.answers(item, input, true)
    }

    /// The handle that holds `f`.
    pub closed spec fn holding(f: F) -> Self {
        SelectFilter { inner: Arc::new(f), marker: PhantomData }
    }

    /// The handle that holds `f` holds `f`, and is well-formed exactly if
    /// `f` is a pure predicate.
    pub proof fn lemma_holding(f: F)
        ensures
            Self::holding(f).closure() == f,
            Self::holding(f).wf() == is_pure_filter::<T, F>(f),
    {
    }

    /// Wrap a predicate. The handle is well-formed if the predicate is pure.
    pub fn new(f: F) -> (r: Self)
        ensures
            r == Self::holding(f),
            r.closure() == f,
    {
        Self { inner: Arc::new(f), marker: PhantomData }
    }

    /// Test `item` against the search text `input`.
    pub fn call(&self, item: &T, input: &str) -> (r: bool)
        requires
            self.wf(),
        ensures
            r == self.accepts(item, input@),
            self.answers(item, input@, r),
            self.decides(item, input@),
    {
        (self.inner)(item, input)
    }
}

impl<T, F: Fn(&T, &str) -> bool> From<F> for SelectFilter<T, F> {
    /// Wrap a predicate, as `new` does.
    fn from(f: F) -> (r: Self) {
        SelectFilter::new(f)
    }
}

impl<T, F: Fn(&T, &str) -> bool> vstd::std_specs::convert::FromSpecImpl<F> for SelectFilter<T, F> {
    open spec fn obeys_from_spec() -> bool {
        true
    }

    open spec fn from_spec(f: F) -> Self {
        Self::holding(f)
    }
}

impl<T, F: Fn(&T, &str) -> bool> Clone for SelectFilter<T, F> {
    /// A second handle to the same function.
    fn clone(&self) -> (r: Self)
        ensures
            r == *self,
    {
        Self { inner: self.inner.clone(), marker: PhantomData }
    }
}

/// The formatter that renders an item as the text shown for it.
pub struct SelectDisplay<T, F: Fn(&T) -> String> {
    inner: Arc<F>,
    marker: PhantomData<T>,
}

impl<T, F: Fn(&T) -> String> SelectDisplay<T, F> {
    /// The function this handle holds.
    pub closed spec fn closure(&self) -> F {
        *self.inner
    }

    /// The handle that holds `f`.
    pub closed spec fn holding(f: F) -> Self {
        SelectDisplay { inner: Arc::new(f), marker: PhantomData }
    }

    /// The handle that holds `f` holds `f`.
    pub proof fn lemma_holding(f: F)
        ensures
            Self::holding(f).closure() == f,
    {
    }

    /// Wrap a formatter.
    pub fn new(f: F) -> (r: Self)
        ensures
            r == Self::holding(f),
            r.closure() == f,
    {
        Self { inner: Arc::new(f), marker: PhantomData }
    }

    /// Render `item`: the result is what the held function gives for it.
    pub fn call(&self, item: &T) -> (r: String)
        requires
            call_requires(self.closure(), (item,)),
        ensures
            call_ensures(self.closure(), (item,), r),
    {
        (self.inner)(item)
    }
}

impl<T, F: Fn(&T) -> String> From<F> for SelectDisplay<T, F> {
    /// Wrap a formatter, as `new` does.
    fn from(f: F) -> (r: Self) {
        SelectDisplay::new(f)
    }
}

impl<T, F: Fn(&T) -> String> vstd::std_specs::convert::FromSpecImpl<F> for SelectDisplay<T, F> {
    open spec fn obeys_from_spec() -> bool {
        true
    }

    open spec fn from_spec(f: F) -> Self {
        Self::holding(f)
    }
}

impl<T, F: Fn(&T) -> String> Clone for SelectDisplay<T, F> {
    /// A second handle to the same function.
    fn clone(&self) -> (r: Self)
        ensures
            r == *self,
    {
        Self { inner: self.inner.clone(), marker: PhantomData }
    }
}

} // verus!
