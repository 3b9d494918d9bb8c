//! Least and greatest elements of ordered sets of sequence numbers.

use std::collections::BTreeSet;
use vstd::prelude::*;

verus! {

/// `m` belongs to `s` and nothing in `s` is below it.
pub open spec fn is_least(s: Set<u32>, m: u32) -> bool {
    s.contains(m) && forall|x: u32| s.contains(x) ==> m <= x
}

/// `m` belongs to `s` and nothing in `s` is above it.
pub open spec fn is_greatest(s: Set<u32>, m: u32) -> bool {
    s.contains(m) && forall|x: u32| s.contains(x) ==> x <= m
}

/// The greatest element of a set that has one.
pub open spec fn greatest(s: Set<u32>) -> u32 {
    choose|m: u32| is_greatest(s, m)
}

/// A set has at most one greatest element.
pub proof fn lemma_greatest_unique(s: Set<u32>, m: u32)
    requires
        is_greatest(s, m),
    ensures
        greatest(s) == m,
{
}

/// The least element through `BTreeSet::first`.
///
/// Trusted: the call returns nothing for an empty set and otherwise a
/// reference to the minimum of the elements.
#[verifier::external_body]
pub(crate) fn first<'a>(set: &'a BTreeSet<u32>) -> (found: Option<&'a u32>)
    ensures
        match found {
            Some(m) => is_least(set@, *m),
            None => set@ == Set::<u32>::empty(),
        },
{
    set.first()
}

/// The greatest element through `BTreeSet::last`.
///
/// Trusted: the call returns nothing for an empty set and otherwise a
/// reference to the maximum of the elements.
#[verifier::external_body]
pub(crate) fn last<'a>(set: &'a BTreeSet<u32>) -> (found: Option<&'a u32>)
    ensures
        match found {
            Some(m) => is_greatest(set@, *m),
            None => set@ == Set::<u32>::empty(),
        },
{
    set.last()
}

/// Removes the least element through `BTreeSet::pop_first`.
///
/// Trusted: the call leaves an empty set as it is and returns nothing;
/// otherwise it removes the minimum of the elements and returns it.
#[verifier::external_body]
pub(crate) fn pop_first(set: &mut BTreeSet<u32>) -> (taken: Option<u32>)
    ensures
        match taken {
            Some(m) => is_least(old(set)@, m) && final(set)@ == old(set)@.remove(m),
            None => old(set)@ == Set::<u32>::empty() && final(set)@ == old(set)@,
        },
{
    set.pop_first()
}

/// A finite set that is not empty has a greatest element.
pub proof fn lemma_finite_has_greatest(s: Set<u32>)
    requires
        s.finite(),
        s != Set::<u32>::empty(),
    ensures
        is_greatest(s, greatest(s)),
    decreases s.len(),
{
    if forall|x: u32| !s.contains(x) {
        assert(s =~= Set::<u32>::empty());
    }
    let x = choose|x: u32| s.contains(x);
    let rest = s.remove(x);
    if rest =~= Set::<u32>::empty() {
        assert forall|y: u32| s.contains(y) implies y <= x by {
            if y != x {
                assert(rest.contains(y));
            }
        }
        assert(is_greatest(s, x));
    } else {
        lemma_finite_has_greatest(rest);
        let below = greatest(rest);
        let top = if x > below {
            x
        } else {
            below
        };
        assert(rest.contains(below));
        assert forall|y: u32| s.contains(y) implies y <= top by {
            if y != x {
                assert(rest.contains(y));
            }
        }
        assert(is_greatest(s, top));
    }
}

/// The greatest element after one more joins a set: the newcomer, if the set
/// was empty or held nothing as great, and the greatest of before otherwise.
pub proof fn lemma_greatest_of_insert(s: Set<u32>, x: u32)
    requires
        s == Set::<u32>::empty() || is_greatest(s, greatest(s)),
    ensures
        is_greatest(s.insert(x), greatest(s.insert(x))),
        greatest(s.insert(x)) == if s == Set::<u32>::empty() || x > greatest(s) {
            x
        } else {
            greatest(s)
        },
{
    let top = if s == Set::<u32>::empty() || x > greatest(s) {
        x
    } else {
        greatest(s)
    };
    assert(is_greatest(s.insert(x), top));
}

} // verus!
