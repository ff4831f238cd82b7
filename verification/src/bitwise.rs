//! Bitwise operators on integers: the bodies that forwarding hands its
//! operands to.

use crate::biguint::{normalize, BigUint};
use crate::digit::Digit;
use crate::dispatch::{AssignRef, Commutative, Operator, RefRef, Seeded, ValRef};
use crate::limbs::{canonical, is_zero, trim};
use vstd::prelude::*;

verus! {

/// The bitwise or of two limbs.
pub open spec fn limb_or<D: Digit>(a: D, b: D) -> D {
    D::join(a.low() | b.low(), a.high() | b.high())
}

/// The bitwise and of two limbs.
pub open spec fn limb_and<D: Digit>(a: D, b: D) -> D {
    D::join(a.low() & b.low(), a.high() & b.high())
}

/// The bitwise or of two limb sequences: limb by limb where both have a
/// limb, and the limbs of the longer one beyond that.
pub open spec fn or_limbs<D: Digit>(a: Seq<D>, b: Seq<D>) -> Seq<D> {
    Seq::new(
        if a.len() >= b.len() {
            a.len()
        } else {
            b.len()
        },
        |i: int|
            if i < a.len() && i < b.len() {
                limb_or(a[i], b[i])
            } else if i < a.len() {
                a[i]
            } else {
                b[i]
            },
    )
}

/// The bitwise and of two limb sequences, limb by limb as far as both have
/// limbs, before zero limbs are trimmed from it.
pub open spec fn and_limbs_raw<D: Digit>(a: Seq<D>, b: Seq<D>) -> Seq<D> {
    Seq::new(
        if a.len() <= b.len() {
            a.len()
        } else {
            b.len()
        },
        |i: int| limb_and(a[i], b[i]),
    )
}

/// The bitwise and of two limb sequences, in canonical form.
pub open spec fn and_limbs<D: Digit>(a: Seq<D>, b: Seq<D>) -> Seq<D> {
    trim(and_limbs_raw(a, b))
}

/// The or of two limbs is the same whichever comes first, and is zero only
/// where both are.
pub proof fn lemma_limb_or<D: Digit>(a: D, b: D)
    ensures
        limb_or(a, b) == limb_or(b, a),
        is_zero(limb_or(a, b)) ==> is_zero(a) && is_zero(b),
{
    let (al, ah, bl, bh) = (a.low(), a.high(), b.low(), b.high());
    assert(al | bl == bl | al) by (bit_vector);
    assert(ah | bh == bh | ah) by (bit_vector);
    assert((al | bl) == 0 ==> al == 0 && bl == 0) by (bit_vector);
    assert((ah | bh) == 0 ==> ah == 0 && bh == 0) by (bit_vector);
    D::lemma_halves_of_join(al | bl, ah | bh);
    a.lemma_join_of_halves();
    b.lemma_join_of_halves();
}

/// The and of two limbs is the same whichever comes first.
pub proof fn lemma_limb_and<D: Digit>(a: D, b: D)
    ensures
        limb_and(a, b) == limb_and(b, a),
{
    let (al, ah, bl, bh) = (a.low(), a.high(), b.low(), b.high());
    assert(al & bl == bl & al) by (bit_vector);
    assert(ah & bh == bh & ah) by (bit_vector);
}

/// The or of canonical sequences is canonical and does not depend on the
/// order of the operands.
pub proof fn lemma_or_limbs<D: Digit>(a: Seq<D>, b: Seq<D>)
    ensures
        or_limbs(a, b) == or_limbs(b, a),
        canonical(a) && canonical(b) ==> canonical(or_limbs(a, b)),
{
    assert forall|i: int| 0 <= i < a.len() && i < b.len() implies limb_or(a[i], b[i]) == limb_or(
        b[i],
        a[i],
    ) by {
        lemma_limb_or(a[i], b[i]);
    }
    if a.len() == b.len() && a.len() > 0 {
        lemma_limb_or(a.last(), b.last());
    }
}

/// The and of two sequences does not depend on the order of the operands.
pub proof fn lemma_and_limbs<D: Digit>(a: Seq<D>, b: Seq<D>)
    ensures
        and_limbs(a, b) == and_limbs(b, a),
{
    assert forall|i: int| 0 <= i < a.len() && i < b.len() implies limb_and(a[i], b[i])
        == limb_and(b[i], a[i]) by {
        lemma_limb_and(a[i], b[i]);
    }
    assert(and_limbs_raw(a, b) =~= and_limbs_raw(b, a));
}

/// Ors `rhs` into `lhs`, limb by limb; where `rhs` is longer its further
/// limbs are added at the end.
pub fn or_in_place<D: Digit>(lhs: &mut Vec<D>, rhs: &[D])
    ensures
        final(lhs)@ == or_limbs(old(lhs)@, rhs@),
{
    let shared: usize = if lhs.len() <= rhs.len() {
        lhs.len()
    } else {
        rhs.len()
    };
    let mut i: usize = 0;
    while i < shared
        invariant
            i <= shared,
            shared <= rhs.len(),
            shared <= lhs.len(),
            lhs.len() == old(lhs).len(),
            forall|k: int| 0 <= k < i ==> lhs[k] == limb_or(old(lhs)[k], rhs[k]),
            forall|k: int| i <= k < lhs.len() ==> lhs[k] == old(lhs)[k],
        decreases shared - i,
    {
        let limb: D = lhs[i].or(rhs[i]);
        proof {
            limb.lemma_join_of_halves();
        }
        lhs.set(i, limb);
        i = i + 1;
    }
    while i < rhs.len()
        invariant
            shared <= i,
            old(lhs).len() <= rhs.len() ==> i <= rhs.len() && lhs.len() == i,
            old(lhs).len() > rhs.len() ==> i == rhs.len() && lhs.len() == old(lhs).len(),
            shared == if old(lhs).len() <= rhs.len() {
                old(lhs).len()
            } else {
                rhs.len()
            },
            forall|k: int| 0 <= k < shared ==> lhs[k] == limb_or(old(lhs)[k], rhs[k]),
            forall|k: int| shared <= k < lhs.len() && k < old(lhs).len() ==> lhs[k] == old(lhs)[k],
            forall|k: int| old(lhs).len() <= k < lhs.len() ==> lhs[k] == rhs[k],
        decreases rhs.len() - i,
    {
        lhs.push(rhs[i]);
        i = i + 1;
    }
}

/// The and of two limb sequences, limb by limb as far as both have limbs;
/// zero limbs at the end are left for the caller to trim.
pub fn and_raw<D: Digit>(lhs: &[D], rhs: &[D]) -> (out: Vec<D>)
    ensures
        out@ == and_limbs_raw(lhs@, rhs@),
{
    let shared: usize = if lhs.len() <= rhs.len() {
        lhs.len()
    } else {
        rhs.len()
    };
    let mut out: Vec<D> = Vec::with_capacity(shared);
    let mut i: usize = 0;
    while i < shared
        invariant
            i <= shared,
            shared <= rhs.len(),
            shared <= lhs.len(),
            out.len() == i,
            forall|k: int| 0 <= k < i ==> out[k] == limb_and(lhs[k], rhs[k]),
        decreases shared - i,
    {
        let limb: D = lhs[i].and(rhs[i]);
        proof {
            limb.lemma_join_of_halves();
        }
        out.push(limb);
        i = i + 1;
    }
    out
}

/// Bitwise or. Its body owns the left operand and ors the right one into it.
pub struct BitOr;

/// Bitwise and. Its body borrows both operands and builds the result apart
/// from them, no longer than the shorter one.
pub struct BitAnd;

impl<D: Digit> Operator<BigUint<D>, BigUint<D>, BigUint<D>> for BitOr {
    open spec fn defined(lhs: Seq<D>, rhs: Seq<D>) -> bool {
        true
    }

    open spec fn result(lhs: Seq<D>, rhs: Seq<D>) -> Seq<D> {
        or_limbs(lhs, rhs)
    }
}

impl<D: Digit> ValRef<BigUint<D>, BigUint<D>, BigUint<D>> for BitOr {
    fn val_ref(lhs: BigUint<D>, rhs: &BigUint<D>) -> (out: BigUint<D>) {
        let mut data: Vec<D> = lhs.into_limbs();
        let other: &[D] = rhs.limbs();
        proof {
            lemma_or_limbs(data@, other@);
        }
        or_in_place(&mut data, other);
        BigUint::from_canonical(data)
    }
}

impl<D: Digit> AssignRef<BigUint<D>, BigUint<D>> for BitOr {
    fn assign_ref(lhs: &mut BigUint<D>, rhs: &BigUint<D>) {
        let mut taken: BigUint<D> = BigUint::zero();
        core::mem::swap(lhs, &mut taken);
        *lhs = <BitOr as ValRef<BigUint<D>, BigUint<D>, BigUint<D>>>::val_ref(taken, rhs);
    }
}

impl<D: Digit> Commutative<BigUint<D>, BigUint<D>, BigUint<D>> for BitOr {
    proof fn lemma_commutes(a: Seq<D>, b: Seq<D>) {
        lemma_or_limbs(a, b);
    }
}

impl<D: Digit> Seeded<BigUint<D>, BigUint<D>> for BitOr {
    open spec fn seed_view() -> Seq<D> {
        Seq::empty()
    }

    fn seed() -> (start: BigUint<D>) {
        BigUint::zero()
    }
}

impl<D: Digit> Operator<BigUint<D>, BigUint<D>, BigUint<D>> for BitAnd {
    open spec fn defined(lhs: Seq<D>, rhs: Seq<D>) -> bool {
        true
    }

    open spec fn result(lhs: Seq<D>, rhs: Seq<D>) -> Seq<D> {
        and_limbs(lhs, rhs)
    }
}

impl<D: Digit> RefRef<BigUint<D>, BigUint<D>, BigUint<D>> for BitAnd {
    fn ref_ref(lhs: &BigUint<D>, rhs: &BigUint<D>) -> (out: BigUint<D>) {
        BigUint::from_limbs(and_raw(lhs.limbs(), rhs.limbs()))
    }
}

impl<D: Digit> AssignRef<BigUint<D>, BigUint<D>> for BitAnd {
    fn assign_ref(lhs: &mut BigUint<D>, rhs: &BigUint<D>) {
        let out: BigUint<D> = <BitAnd as RefRef<BigUint<D>, BigUint<D>, BigUint<D>>>::ref_ref(
            lhs,
            rhs,
        );
        *lhs = out;
    }
}

impl<D: Digit> Commutative<BigUint<D>, BigUint<D>, BigUint<D>> for BitAnd {
    proof fn lemma_commutes(a: Seq<D>, b: Seq<D>) {
        lemma_and_limbs(a, b);
    }
}

} // verus!
