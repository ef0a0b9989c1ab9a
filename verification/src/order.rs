//! Index sets in ascending order.
//!
//! A set of indices is shown to the user as a list, smallest index first.
//! `ascending` is that list, `within` cuts a set down to the indices that
//! address an entry of a list, and `nth_index` and `ascending_within` read
//! both off an ordered set.

use std::collections::BTreeSet;
use vstd::prelude::*;
use vstd::std_specs::cmp::OrdSpec;
use vstd::std_specs::iter::IteratorSpec;

verus! {

/// Every element is smaller than all that follow it.
pub open spec fn strictly_ascending(s: Seq<usize>) -> bool {
    forall|i: int, j: int| 0 <= i < j < s.len() ==> s[i] < s[j]
}

/// The elements of `set`, each once, smallest first.
pub open spec fn ascending(set: Set<usize>) -> Seq<usize> {
    choose|s: Seq<usize>| strictly_ascending(s) && s.to_set() == set
}

/// The elements of `set` that are below `bound`: the indices in `set` that
/// address an entry of a list of `bound` entries.
pub open spec fn within(set: Set<usize>, bound: nat) -> Set<usize> {
    Set::new(|i: usize| set.contains(i) && i < bound)
}

/// The elements of `set` below `bound`, smallest first, built from the bottom up.
spec fn ascending_below(set: Set<usize>, bound: nat) -> Seq<usize>
    decreases bound,
{
    if bound == 0 {
        Seq::empty()
    } else {
        let rest = ascending_below(set, (bound - 1) as nat);
        if bound - 1 <= usize::MAX && set.contains((bound - 1) as usize) {
            rest.push((bound - 1) as usize)
        } else {
            rest
        }
    }
}

proof fn lemma_ascending_below(set: Set<usize>, bound: nat)
    ensures
        strictly_ascending(ascending_below(set, bound)),
        forall|k: int|
            0 <= k < ascending_below(set, bound).len() ==> #[trigger] ascending_below(
                set,
                bound,
            )[k] < bound,
        forall|x: usize|
            #[trigger] ascending_below(set, bound).to_set().contains(x) <==> set.contains(x) && x
                < bound,
    decreases bound,
{
    let s = ascending_below(set, bound);
    if bound > 0 {
        let rest = ascending_below(set, (bound - 1) as nat);
        lemma_ascending_below(set, (bound - 1) as nat);
        assert forall|x: usize| #[trigger] s.to_set().contains(x) <==> set.contains(x) && x
            < bound by {
            if s.to_set().contains(x) {
                let k = choose|k: int| 0 <= k < s.len() && s[k] == x;
                if k < rest.len() {
                    assert(rest[k] == x);
                    assert(rest.to_set().contains(x));
                }
            }
            if set.contains(x) && x < bound {
                if x == bound - 1 {
                    assert(s[s.len() - 1] == x);
                } else {
                    assert(rest.to_set().contains(x));
                    let k = choose|k: int| 0 <= k < rest.len() && rest[k] == x;
                    assert(s[k] == x);
                }
            }
        }
    }
}

/// Two strictly ascending sequences with the same elements are the same sequence.
pub proof fn lemma_ascending_unique(a: Seq<usize>, b: Seq<usize>)
    requires
        strictly_ascending(a),
        strictly_ascending(b),
        a.to_set() == b.to_set(),
    ensures
        a == b,
    decreases a.len(),
{
    if a.len() == 0 {
        if b.len() > 0 {
            assert(b.to_set().contains(b[0]));
            assert(a.to_set().contains(b[0]));
        }
        assert(a =~= b);
    } else {
        let x = a.last();
        assert(a.to_set().contains(x));
        assert(b.to_set().contains(x));
        let j = choose|j: int| 0 <= j < b.len() && b[j] == x;
        let y = b.last();
        assert(b.to_set().contains(y));
        assert(a.to_set().contains(y));
        let i = choose|i: int| 0 <= i < a.len() && a[i] == y;
        assert(x == y);
        let a0 = a.drop_last();
        let b0 = b.drop_last();
        assert(a0.to_set() =~= b0.to_set()) by {
            assert forall|z: usize| a0.to_set().contains(z) implies b0.to_set().contains(z) by {
                let k = choose|k: int| 0 <= k < a0.len() && a0[k] == z;
                assert(a[k] == z);
                assert(a.to_set().contains(z));
                let m = choose|m: int| 0 <= m < b.len() && b[m] == z;
                assert(b0[m] == z);
            }
            assert forall|z: usize| b0.to_set().contains(z) implies a0.to_set().contains(z) by {
                let k = choose|k: int| 0 <= k < b0.len() && b0[k] == z;
                assert(b[k] == z);
                assert(b.to_set().contains(z));
                let m = choose|m: int| 0 <= m < a.len() && a[m] == z;
                assert(a0[m] == z);
            }
        }
        lemma_ascending_unique(a0, b0);
        assert(a =~= a0.push(x));
        assert(b =~= b0.push(y));
    }
}

/// `ascending(set)` is strictly ascending and holds exactly the elements of `set`.
pub proof fn lemma_ascending(set: Set<usize>)
    ensures
        strictly_ascending(ascending(set)),
        ascending(set).to_set() == set,
        ascending(set).len() == set.len(),
        set.finite(),
        forall|k: int| 0 <= k < ascending(set).len() ==> set.contains(#[trigger] ascending(set)[k]),
        forall|x: usize| set.contains(x) ==> ascending(set).contains(x),
{
    let witness = ascending_below(set, (usize::MAX + 1) as nat);
    lemma_ascending_below(set, (usize::MAX + 1) as nat);
    assert(witness.to_set() =~= set);
    let s = ascending(set);
    assert(strictly_ascending(s) && s.to_set() == set);
    assert(s.no_duplicates());
    s.unique_seq_to_set();
    assert forall|k: int| 0 <= k < s.len() implies set.contains(#[trigger] s[k]) by {
        assert(s.to_set().contains(s[k]));
    }
    assert forall|x: usize| set.contains(x) implies s.contains(x) by {
        assert(s.to_set().contains(x));
    }
}

/// A strictly ascending sequence is the ascending list of its own elements.
pub proof fn lemma_ascending_is(s: Seq<usize>, set: Set<usize>)
    requires
        strictly_ascending(s),
        s.to_set() == set,
    ensures
        s == ascending(set),
{
    lemma_ascending(set);
    lemma_ascending_unique(s, ascending(set));
}

/// An ordered set is walked in ascending order: what its iterator yields is
/// the ascending list of its elements.
pub proof fn lemma_iter_ascending(set: &BTreeSet<usize>)
    ensures
        set.iter().remaining().unref() == ascending(set@),
        set.iter().remaining().len() == ascending(set@).len(),
{
    let r = set.iter().remaining();
    assert(vstd::laws_cmp::obeys_cmp::<&usize>());
    assert(vstd::std_specs::btree::increasing_seq(r));
    assert forall|i: int, j: int| 0 <= i < j < r.len() implies *r[i] < *r[j] by {
        assert(OrdSpec::cmp_spec(&r[i], &r[j]) is Less);
    }
    assert(strictly_ascending(r.unref()));
    lemma_ascending_is(r.unref(), set@);
}

/// The element at `position` when `set` is listed in ascending order, if
/// there are that many.
pub fn nth_index(set: &BTreeSet<usize>, position: usize) -> (r: Option<usize>)
    ensures
        r == if position < ascending(set@).len() {
            Some(ascending(set@)[position as int])
        } else {
            None
        },
{
    proof {
        lemma_iter_ascending(set);
    }
    let mut seen: usize = 0;
    for x in it: set.iter()
        invariant
            it.seq() == set.iter().remaining(),
            it.seq().unref() == ascending(set@),
            seen == it.index(),
            seen <= position,
    {
        if seen == position {
            return Some(*x);
        }
        seen += 1;
    }
    None
}

/// In a strictly ascending sequence the elements below `bound` come first:
/// there is a position that all of them stand before and none of the others.
proof fn lemma_split(s: Seq<usize>, bound: nat) -> (n: int)
    requires
        strictly_ascending(s),
    ensures
        0 <= n <= s.len(),
        forall|p: int| 0 <= p < n ==> s[p] < bound,
        forall|p: int| n <= p < s.len() ==> s[p] >= bound,
    decreases s.len(),
{
    if s.len() == 0 {
        0
    } else if s.last() < bound {
        s.len() as int
    } else {
        let n = lemma_split(s.drop_last(), bound);
        assert forall|p: int| 0 <= p < n implies s[p] < bound by {
            assert(s.drop_last()[p] == s[p]);
        }
        assert forall|p: int| n <= p < s.len() implies s[p] >= bound by {
            if p < s.len() - 1 {
                assert(s.drop_last()[p] == s[p]);
            }
        }
        n
    }
}

/// Cutting a set down to the indices below `bound` cuts its ascending list
/// down to a prefix: position by position the two lists agree, and the
/// shorter one ends where the longer one reaches `bound`.
pub proof fn lemma_within_is_prefix(set: Set<usize>, bound: nat)
    ensures
        ascending(within(set, bound)).len() <= ascending(set).len(),
        forall|p: int|
            0 <= p < ascending(within(set, bound)).len() ==> #[trigger] ascending(
                within(set, bound),
            )[p] == ascending(set)[p],
        forall|p: int|
            0 <= p < ascending(set).len() ==> (#[trigger] ascending(set)[p] < bound <==> p
                < ascending(within(set, bound)).len()),
        (forall|i: usize| set.contains(i) ==> i < bound) ==> within(set, bound) == set,
{
    let all = ascending(set);
    lemma_ascending(set);
    let n = lemma_split(all, bound);
    let prefix = all.take(n);
    assert(prefix.to_set() =~= within(set, bound)) by {
        assert forall|x: usize| prefix.to_set().contains(x) <==> within(set, bound).contains(
            x,
        ) by {
            if prefix.to_set().contains(x) {
                let p = choose|p: int| 0 <= p < prefix.len() && prefix[p] == x;
                assert(all[p] == x);
            }
            if within(set, bound).contains(x) {
                assert(all.contains(x));
                let p = choose|p: int| 0 <= p < all.len() && all[p] == x;
                assert(p < n);
                assert(prefix[p] == x);
            }
        }
    }
    lemma_ascending_is(prefix, within(set, bound));
    if forall|i: usize| set.contains(i) ==> i < bound {
        assert(within(set, bound) =~= set);
    }
}

/// The elements of `set` below `bound`, in ascending order.
pub fn ascending_within(set: &BTreeSet<usize>, bound: usize) -> (r: Vec<usize>)
    ensures
        r@ == ascending(within(set@, bound as nat)),
{
    proof {
        lemma_iter_ascending(set);
        lemma_within_is_prefix(set@, bound as nat);
    }
    let ghost cut = ascending(within(set@, bound as nat));
    let mut r: Vec<usize> = Vec::new();
    for x in it: set.iter()
        invariant
            it.seq() == set.iter().remaining(),
            it.seq().unref() == ascending(set@),
            cut == ascending(within(set@, bound as nat)),
            cut.len() <= ascending(set@).len(),
            forall|p: int| 0 <= p < cut.len() ==> #[trigger] cut[p] == ascending(set@)[p],
            forall|p: int|
                0 <= p < ascending(set@).len() ==> (#[trigger] ascending(set@)[p] < bound <==> p
                    < cut.len()),
            r@.len() <= it.index(),
            r@.len() <= cut.len(),
            r@.len() < it.index() ==> r@.len() == cut.len(),
            forall|j: int| 0 <= j < r@.len() ==> r@[j] == cut[j],
    {
        if *x < bound {
            r.push(*x);
        }
    }
    proof {
        assert(r@ =~= cut);
    }
    r
}
} // verus!
