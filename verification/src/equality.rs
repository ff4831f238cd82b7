//! Equality of integers: the same canonical limbs, which is to say the same
//! number.

use crate::biguint::BigUint;
use crate::digit::Digit;
use crate::limbs::{canonical, lemma_canonical_unique};
use vstd::prelude::*;
use vstd::std_specs::cmp::PartialEqSpecImpl;

verus! {

/// Whether two limbs are the same limb.
pub fn same_limb<D: Digit>(a: D, b: D) -> (same: bool)
    ensures
        same == (a == b),
{
    proof {
        a.lemma_join_of_halves();
        b.lemma_join_of_halves();
    }
    a.low_word() == b.low_word() && a.high_word() == b.high_word()
}

/// Whether two limb sequences are the same, limb for limb.
pub fn same_limbs<D: Digit>(a: &[D], b: &[D]) -> (same: bool)
    ensures
        same == (a@ == b@),
{
    if a.len() != b.len() {
        return false;
    }
    let n: usize = a.len();
    let mut i: usize = 0;
    while i < n
        invariant
            n == a.len(),
            n == b.len(),
            i <= n,
            forall|k: int| 0 <= k < i ==> a[k] == b[k],
        decreases n - i,
    {
        if !same_limb(a[i], b[i]) {
            return false;
        }
        i = i + 1;
    }
    assert(a@ =~= b@);
    true
}

/// Integers with the same limbs stand for the same number, and integers
/// that stand for the same number have the same limbs.
pub proof fn lemma_equal_iff_same_number<D: Digit>(a: BigUint<D>, b: BigUint<D>)
    requires
        canonical(a@),
        canonical(b@),
    ensures
        (a@ == b@) == (a.number() == b.number()),
{
    if a.number() == b.number() {
        lemma_canonical_unique(a@, b@);
    }
}

impl<D: Digit> PartialEq for BigUint<D> {
    fn eq(&self, other: &Self) -> (same: bool) {
        same_limbs(self.limbs(), other.limbs())
    }
}

impl<D: Digit> PartialEqSpecImpl for BigUint<D> {
    open spec fn obeys_eq_spec() -> bool {
        true
    }

    open spec fn eq_spec(&self, other: &Self) -> bool {
        self@ == other@
    }
}

} // verus!
