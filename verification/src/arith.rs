//! Arithmetic of an integer with a single word: the bodies that forwarding
//! hands an integer and a scalar to.

use crate::biguint::BigUint;
use crate::digit::Digit;
use crate::dispatch::{
    folded, reversed_via_val_val, AssignVal, Commutative, Operator, RefVal, Seeded, ValVal,
};
use crate::limbs::{
    canonical, is_zero, lemma_limbs_of, lemma_limbs_of_number, lemma_number_push,
    lemma_number_split, lemma_trim_number, limbs_of, magnitude, number, radix, weight,
};
use vstd::arithmetic::div_mod::{
    lemma_add_mod_noop_right, lemma_mul_mod_noop_right, lemma_small_mod,
};
use vstd::prelude::*;

verus! {

/// Adds `word` to the number that the limbs stand for. Canonical limbs stay
/// canonical.
pub fn add_word_in_place<D: Digit>(limbs: &mut Vec<D>, word: u32)
    ensures
        number(final(limbs)@) == number(old(limbs)@) + word,
        canonical(old(limbs)@) ==> canonical(final(limbs)@),
{
    let n: usize = limbs.len();
    let mut carry: u32 = word;
    let mut i: usize = 0;
    proof {
        assert(weight::<D>(0) == 1);
    }
    while i < n && carry != 0
        invariant
            n == limbs.len(),
            n == old(limbs).len(),
            i <= n,
            number(limbs@.take(i as int)) + weight::<D>(i as nat) * carry == number(
                old(limbs)@.take(i as int),
            ) + word,
            forall|k: int| i <= k < n ==> limbs[k] == old(limbs)[k],
            i > 0 && carry == 0 && is_zero(limbs[i - 1]) ==> is_zero(old(limbs)[i - 1]),
        decreases n - i,
    {
        let ghost before = limbs@.take(i as int);
        let ghost before_old = old(limbs)@.take(i as int);
        let ghost limb_old = limbs@[i as int];
        let (limb, over) = limbs[i].add_word(carry);
        proof {
            let r = radix::<D>();
            let w = weight::<D>(i as nat);
            let (a, b) = (number(before), number(before_old));
            let (m, m_old) = (magnitude(limb), magnitude(limb_old));
            lemma_number_push(before, limb);
            lemma_number_push(before_old, limb_old);
            assert(a + w * m + (r * w) * over == b + w * m_old + word) by (nonlinear_arith)
                requires
                    a + w * carry == b + word,
                    m + r * over == m_old + carry,
            ;
        }
        limbs.set(i, limb);
        proof {
            assert(limbs@.take(i + 1) =~= before.push(limb));
            assert(old(limbs)@.take(i + 1) =~= before_old.push(limb_old));
        }
        carry = over;
        i = i + 1;
    }
    if carry != 0 {
        proof {
            assert(limbs@.take(n as int) =~= limbs@);
            assert(old(limbs)@.take(n as int) =~= old(limbs)@);
            D::lemma_halves_of_join(carry, 0);
            D::join(carry, 0).lemma_join_of_halves();
            lemma_number_push(limbs@, D::join(carry, 0));
        }
        limbs.push(D::from_words(carry, 0));
    } else {
        proof {
            lemma_number_split(limbs@, i as int);
            lemma_number_split(old(limbs)@, i as int);
            assert(limbs@.skip(i as int) =~= old(limbs)@.skip(i as int));
        }
    }
}

/// What is left of a number after a step of long division: taking one more
/// limb below a remainder gives the same remainder as taking it below the
/// whole of what stood above.
proof fn lemma_rem_step(m: int, r: int, above: int, d: int)
    requires
        0 < d,
    ensures
        (m + r * (above % d)) % d == (m + r * above) % d,
{
    lemma_mul_mod_noop_right(r, above, d);
    lemma_add_mod_noop_right(m, r * (above % d), d);
    lemma_add_mod_noop_right(m, r * above, d);
}

/// The remainder of the number that the limbs stand for, by `divisor`.
pub fn rem_word<D: Digit>(limbs: &[D], divisor: u32) -> (rem: u32)
    requires
        divisor != 0,
    ensures
        rem == number(limbs@) % (divisor as nat),
{
    let mut i: usize = limbs.len();
    let mut rem: u32 = 0;
    proof {
        lemma_small_mod(0, divisor as nat);
    }
    while i > 0
        invariant
            i <= limbs.len(),
            divisor != 0,
            rem < divisor,
            rem == number(limbs@.skip(i as int)) % (divisor as nat),
        decreases i,
    {
        i = i - 1;
        let limb: D = limbs[i];
        proof {
            let here = limbs@.skip(i as int);
            let above = limbs@.skip(i + 1);
            assert(here.skip(1) =~= above);
            lemma_rem_step(
                magnitude(limb) as int,
                radix::<D>() as int,
                number(above) as int,
                divisor as int,
            );
        }
        rem = limb.rem_step(rem, divisor);
    }
    assert(limbs@.skip(0) =~= limbs@);
    rem
}

/// Addition of a word to an integer. Its body owns the integer and adds to
/// it in place.
pub struct Add;

/// The remainder of an integer by a word. Its body borrows the integer and
/// builds the remainder apart from it.
pub struct Rem;

impl<D: Digit> Operator<BigUint<D>, u32, BigUint<D>> for Add {
    open spec fn defined(lhs: Seq<D>, rhs: u32) -> bool {
        true
    }

    open spec fn result(lhs: Seq<D>, rhs: u32) -> Seq<D> {
        limbs_of::<D>(number(lhs) + rhs as nat)
    }
}

impl<D: Digit> Operator<u32, BigUint<D>, BigUint<D>> for Add {
    open spec fn defined(lhs: u32, rhs: Seq<D>) -> bool {
        true
    }

    open spec fn result(lhs: u32, rhs: Seq<D>) -> Seq<D> {
        limbs_of::<D>(lhs as nat + number(rhs))
    }
}

impl<D: Digit> Commutative<BigUint<D>, u32, BigUint<D>> for Add {
    proof fn lemma_commutes(lhs: Seq<D>, rhs: u32) {
    }
}

impl<D: Digit> ValVal<BigUint<D>, u32, BigUint<D>> for Add {
    fn val_val(lhs: BigUint<D>, rhs: u32) -> (out: BigUint<D>)
        ensures
            out.number() == lhs.number() + rhs,
    {
        let mut data: Vec<D> = lhs.into_limbs();
        add_word_in_place(&mut data, rhs);
        proof {
            lemma_limbs_of(data@);
        }
        BigUint::from_canonical(data)
    }
}

impl<D: Digit> ValVal<u32, BigUint<D>, BigUint<D>> for Add {
    /// A word on the left of an integer: the operands change places.
    fn val_val(lhs: u32, rhs: BigUint<D>) -> (out: BigUint<D>)
        ensures
            out.number() == lhs + rhs.number(),
    {
        proof {
            lemma_limbs_of_number::<D>(lhs as nat + number(rhs@));
        }
        reversed_via_val_val::<BigUint<D>, u32, BigUint<D>, Add>(lhs, rhs)
    }
}

impl<D: Digit> AssignVal<BigUint<D>, u32> for Add {
    fn assign_val(lhs: &mut BigUint<D>, rhs: u32)
        ensures
            final(lhs).number() == old(lhs).number() + rhs,
    {
        let mut taken: BigUint<D> = BigUint::zero();
        core::mem::swap(lhs, &mut taken);
        *lhs = <Add as ValVal<BigUint<D>, u32, BigUint<D>>>::val_val(taken, rhs);
    }
}

impl<D: Digit> Seeded<BigUint<D>, u32> for Add {
    open spec fn seed_view() -> Seq<D> {
        Seq::empty()
    }

    fn seed() -> (start: BigUint<D>) {
        BigUint::zero()
    }
}

impl<D: Digit> Operator<BigUint<D>, u32, BigUint<D>> for Rem {
    open spec fn defined(lhs: Seq<D>, rhs: u32) -> bool {
        rhs != 0
    }

    open spec fn result(lhs: Seq<D>, rhs: u32) -> Seq<D> {
        limbs_of::<D>(number(lhs) % (rhs as nat))
    }
}

impl<D: Digit> RefVal<BigUint<D>, u32, BigUint<D>> for Rem {
    fn ref_val(lhs: &BigUint<D>, rhs: u32) -> (out: BigUint<D>)
        ensures
            out.number() == lhs.number() % (rhs as nat),
    {
        let rem: u32 = rem_word(lhs.limbs(), rhs);
        let mut data: Vec<D> = Vec::with_capacity(1);
        data.push(D::from_words(rem, 0));
        proof {
            let limb = D::join(rem, 0);
            D::lemma_halves_of_join(rem, 0);
            limb.lemma_join_of_halves();
            assert(number(data@.skip(1)) == 0);
            assert(number(data@) == magnitude(limb) + radix::<D>() * 0);
            lemma_trim_number(data@);
        }
        let out: BigUint<D> = BigUint::from_limbs(data);
        proof {
            lemma_limbs_of(out@);
        }
        out
    }
}

/// The sum of the words.
pub open spec fn total(words: Seq<u32>) -> nat
    decreases words.len(),
{
    if words.len() == 0 {
        0
    } else {
        total(words.drop_last()) + words.last() as nat
    }
}

/// What addition gives stands for the sum of what its operands stand for.
pub proof fn lemma_add_number<D: Digit>(lhs: Seq<D>, rhs: u32)
    ensures
        number(<Add as Operator<BigUint<D>, u32, BigUint<D>>>::result(lhs, rhs)) == number(lhs)
            + rhs,
        canonical(<Add as Operator<BigUint<D>, u32, BigUint<D>>>::result(lhs, rhs)),
{
    lemma_limbs_of_number::<D>(number(lhs) + rhs as nat);
}

/// What the remainder operator gives stands for the remainder of what its
/// left operand stands for.
pub proof fn lemma_rem_number<D: Digit>(lhs: Seq<D>, rhs: u32)
    ensures
        number(<Rem as Operator<BigUint<D>, u32, BigUint<D>>>::result(lhs, rhs)) == number(lhs) % (
        rhs as nat),
        canonical(<Rem as Operator<BigUint<D>, u32, BigUint<D>>>::result(lhs, rhs)),
{
    lemma_limbs_of_number::<D>(number(lhs) % (rhs as nat));
}

/// Folding words with addition, from zero, gives the integer that stands for
/// their sum.
pub proof fn lemma_fold_is_sum<D: Digit>(words: Seq<u32>)
    ensures
        number(folded::<BigUint<D>, u32, Add>(Seq::<D>::empty(), words)) == total(words),
    decreases words.len(),
{
    if words.len() > 0 {
        let before = folded::<BigUint<D>, u32, Add>(Seq::<D>::empty(), words.drop_last());
        lemma_fold_is_sum::<D>(words.drop_last());
        lemma_add_number::<D>(before, words.last());
    }
}

} // verus!
