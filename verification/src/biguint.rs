//! The integer type: a canonical sequence of limbs.

use crate::digit::Digit;
use crate::dispatch::{Duplicate, Operand};
use crate::limbs::{
    canonical, is_zero, lemma_canonical_positive, lemma_trim_canonical, lemma_trim_number, number,
    trim,
};
use vstd::prelude::*;

verus! {

/// An unsigned integer of any size, stored as limbs of type `D`, least
/// significant first, with no zero limb at the most-significant end. Zero has
/// no limbs at all.
#[derive(Debug)]
pub struct BigUint<D: Digit> {
    data: Vec<D>,
}

impl<D: Digit> View for BigUint<D> {
    type V = Seq<D>;

    /// The limbs, least significant first.
    closed spec fn view(&self) -> Seq<D> {
        self.data@
    }
}

/// `Vec::capacity`: how many elements the vector has room for before it must
/// allocate again. The allocator decides how much that is; all that is known
/// is that what the vector holds fits.
#[verifier::external_body]
fn vec_capacity<D>(v: &Vec<D>) -> (cap: usize)
    ensures
        cap >= v@.len(),
{
    v.capacity()
}

/// Whether every bit of the limb is zero.
pub fn limb_is_zero<D: Digit>(limb: D) -> (z: bool)
    ensures
        z == is_zero(limb),
{
    limb.low_word() == 0 && limb.high_word() == 0
}

/// Removes the most-significant zero limbs.
pub fn normalize<D: Digit>(limbs: &mut Vec<D>)
    ensures
        final(limbs)@ == trim(old(limbs)@),
        canonical(final(limbs)@),
{
    let mut n: usize = limbs.len();
    assert(limbs@.take(n as int) =~= limbs@);
    while n > 0 && limb_is_zero(limbs[n - 1])
        invariant
            n <= limbs.len(),
            *limbs == *old(limbs),
            trim(limbs@.take(n as int)) == trim(limbs@),
        decreases n,
    {
        assert(limbs@.take(n as int).drop_last() =~= limbs@.take(n - 1));
        n = n - 1;
    }
    proof {
        lemma_trim_canonical(limbs@);
    }
    limbs.truncate(n);
}

/// A copy of the limbs in a vector of its own.
pub fn copy_limbs<D: Digit>(limbs: &[D]) -> (copy: Vec<D>)
    ensures
        copy@ == limbs@,
{
    let n: usize = limbs.len();
    let mut copy: Vec<D> = Vec::with_capacity(n);
    let mut i: usize = 0;
    while i < n
        invariant
            n == limbs.len(),
            i <= n,
            copy@ == limbs@.take(i as int),
        decreases n - i,
    {
        copy.push(limbs[i]);
        i = i + 1;
    }
    copy
}

impl<D: Digit> BigUint<D> {
    #[verifier::type_invariant]
    spec fn well_formed(self) -> bool {
        canonical(self.data@)
    }

    /// The number that the integer stands for.
    pub open spec fn number(&self) -> nat {
        number(self@)
    }

    /// The integer zero.
    pub fn zero() -> (r: Self)
        ensures
            r@ == Seq::<D>::empty(),
    {
        BigUint { data: Vec::new() }
    }

    /// The integer with the given limbs, least significant first. Zero limbs
    /// at the most-significant end are dropped.
    pub fn from_limbs(raw: Vec<D>) -> (r: Self)
        ensures
            r@ == trim(raw@),
            canonical(r@),
            r.number() == number(raw@),
    {
        proof {
            lemma_trim_number(raw@);
        }
        let mut data: Vec<D> = raw;
        normalize(&mut data);
        BigUint { data }
    }

    /// The integer with the given limbs, which are canonical already.
    pub(crate) fn from_canonical(limbs: Vec<D>) -> (r: Self)
        requires
            canonical(limbs@),
        ensures
            r@ == limbs@,
    {
        BigUint { data: limbs }
    }

    /// The limbs, least significant first.
    pub fn limbs(&self) -> (limbs: &[D])
        ensures
            limbs@ == self@,
            canonical(self@),
    {
        proof {
            use_type_invariant(self);
        }
        self.data.as_slice()
    }

    /// Gives up the integer for its limbs.
    pub fn into_limbs(self) -> (limbs: Vec<D>)
        ensures
            limbs@ == self@,
            canonical(self@),
    {
        proof {
            use_type_invariant(&self);
        }
        self.data
    }

    /// The number of limbs.
    pub fn len(&self) -> (n: usize)
        ensures
            n == self@.len(),
    {
        self.data.len()
    }

    /// The number of limbs there is room for without allocating again.
    pub fn capacity(&self) -> (cap: usize)
        ensures
            cap >= self@.len(),
    {
        vec_capacity(&self.data)
    }

    /// Whether the integer is zero.
    pub fn is_zero(&self) -> (z: bool)
        ensures
            z == (self@.len() == 0),
            z == (self.number() == 0),
    {
        proof {
            use_type_invariant(self);
            if self@.len() > 0 {
                lemma_canonical_positive(self@);
            }
        }
        self.data.len() == 0
    }
}

impl<D: Digit> Duplicate for BigUint<D> {
    fn duplicate(&self) -> (copy: Self) {
        self.clone()
    }
}

impl<D: Digit> Operand for BigUint<D> {
    /// The number of limbs there is room for.
    fn capacity(&self) -> (cap: usize)
        ensures
            cap >= self@.len(),
    {
        BigUint::capacity(self)
    }

    /// The number of limbs.
    fn len(&self) -> (n: usize)
        ensures
            n == self@.len(),
    {
        BigUint::len(self)
    }
}

impl<D: Digit> Clone for BigUint<D> {
    /// An integer with the same limbs in storage of its own.
    fn clone(&self) -> (r: Self)
        ensures
            r@ == self@,
    {
        proof {
            use_type_invariant(self);
        }
        BigUint { data: copy_limbs(self.data.as_slice()) }
    }
}

} // verus!
