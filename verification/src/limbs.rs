//! Sequences of limbs and the numbers they stand for.
//!
//! Limbs are little-endian: the first limb is the least significant. A
//! sequence is canonical when it does not end in a zero limb, so zero is the
//! empty sequence and every number has exactly one canonical sequence.

use crate::digit::Digit;
use vstd::arithmetic::div_mod::{
    lemma_fundamental_div_mod, lemma_fundamental_div_mod_converse, lemma_mod_pos_bound,
};
use vstd::arithmetic::mul::lemma_mul_strictly_positive;
use vstd::prelude::*;

verus! {

/// Whether every bit of the limb is zero.
pub open spec fn is_zero<D: Digit>(limb: D) -> bool {
    limb.low() == 0 && limb.high() == 0
}

/// The number a single limb stands for.
pub open spec fn magnitude<D: Digit>(limb: D) -> nat {
    limb.low() as nat + 0x1_0000_0000 * (limb.high() as nat)
}

/// The number of values of one limb: 2^32 or 2^64.
pub open spec fn radix<D: Digit>() -> nat {
    if D::is_wide() {
        0x1_0000_0000_0000_0000
    } else {
        0x1_0000_0000
    }
}

/// Whether the sequence has no most-significant zero limb.
pub open spec fn canonical<D: Digit>(limbs: Seq<D>) -> bool {
    limbs.len() == 0 || !is_zero(limbs.last())
}

/// The sequence without its most-significant zero limbs.
pub open spec fn trim<D: Digit>(limbs: Seq<D>) -> Seq<D>
    decreases limbs.len(),
{
    if limbs.len() > 0 && is_zero(limbs.last()) {
        trim(limbs.drop_last())
    } else {
        limbs
    }
}

/// The number that the sequence stands for.
pub open spec fn number<D: Digit>(limbs: Seq<D>) -> nat
    decreases limbs.len(),
{
    if limbs.len() == 0 {
        0
    } else {
        magnitude(limbs[0]) + radix::<D>() * number(limbs.skip(1))
    }
}

/// A limb stands for a number below the radix.
pub proof fn lemma_magnitude_bound<D: Digit>(limb: D)
    ensures
        magnitude(limb) < radix::<D>(),
{
    limb.lemma_join_of_halves();
}

/// Limbs that stand for the same number are the same limb.
pub proof fn lemma_magnitude_injective<D: Digit>(a: D, b: D)
    requires
        magnitude(a) == magnitude(b),
    ensures
        a == b,
{
    a.lemma_join_of_halves();
    b.lemma_join_of_halves();
}

/// Trimming leaves a canonical sequence.
pub proof fn lemma_trim_canonical<D: Digit>(limbs: Seq<D>)
    ensures
        canonical(trim(limbs)),
    decreases limbs.len(),
{
    if limbs.len() > 0 && is_zero(limbs.last()) {
        lemma_trim_canonical(limbs.drop_last());
    }
}

/// Trimming leaves a canonical sequence as it is.
pub proof fn lemma_trim_of_canonical<D: Digit>(limbs: Seq<D>)
    requires
        canonical(limbs),
    ensures
        trim(limbs) == limbs,
{
}

/// A most-significant zero limb adds nothing to the number.
pub proof fn lemma_number_drop_zero<D: Digit>(limbs: Seq<D>)
    requires
        limbs.len() > 0,
        is_zero(limbs.last()),
    ensures
        number(limbs.drop_last()) == number(limbs),
    decreases limbs.len(),
{
    if limbs.len() == 1 {
        assert(number(limbs.skip(1)) == 0);
    } else {
        let tail = limbs.skip(1);
        lemma_number_drop_zero(tail);
        assert(limbs.drop_last().skip(1) =~= tail.drop_last());
    }
}

/// Trimming does not change the number.
pub proof fn lemma_trim_number<D: Digit>(limbs: Seq<D>)
    ensures
        number(trim(limbs)) == number(limbs),
    decreases limbs.len(),
{
    if limbs.len() > 0 && is_zero(limbs.last()) {
        lemma_number_drop_zero(limbs);
        lemma_trim_number(limbs.drop_last());
    }
}

/// What follows the first limb of a canonical sequence is canonical.
pub proof fn lemma_tail_canonical<D: Digit>(limbs: Seq<D>)
    requires
        limbs.len() > 0,
        canonical(limbs),
    ensures
        canonical(limbs.skip(1)),
{
}

/// A canonical sequence that is not empty stands for a positive number.
pub proof fn lemma_canonical_positive<D: Digit>(limbs: Seq<D>)
    requires
        limbs.len() > 0,
        canonical(limbs),
    ensures
        number(limbs) > 0,
    decreases limbs.len(),
{
    if limbs.len() > 1 {
        let tail = limbs.skip(1);
        lemma_tail_canonical(limbs);
        lemma_canonical_positive(tail);
        lemma_mul_strictly_positive(radix::<D>() as int, number(tail) as int);
    }
}

/// Canonical sequences that stand for the same number are the same
/// sequence.
pub proof fn lemma_canonical_unique<D: Digit>(a: Seq<D>, b: Seq<D>)
    requires
        canonical(a),
        canonical(b),
        number(a) == number(b),
    ensures
        a == b,
    decreases a.len(),
{
    if a.len() == 0 {
        if b.len() > 0 {
            lemma_canonical_positive(b);
        }
    } else {
        lemma_canonical_positive(a);
        let r = radix::<D>() as int;
        lemma_magnitude_bound(a[0]);
        lemma_magnitude_bound(b[0]);
        let x = number(a) as int;
        let na = number(a.skip(1)) as int;
        let nb = number(b.skip(1)) as int;
        assert(r * na == na * r && r * nb == nb * r) by (nonlinear_arith);
        lemma_fundamental_div_mod_converse(x, r, na, magnitude(a[0]) as int);
        lemma_fundamental_div_mod_converse(x, r, nb, magnitude(b[0]) as int);
        lemma_magnitude_injective(a[0], b[0]);
        lemma_tail_canonical(a);
        lemma_tail_canonical(b);
        lemma_canonical_unique(a.skip(1), b.skip(1));
        assert(a =~= seq![a[0]] + a.skip(1));
    }
}

/// The weight of the limb at place `k`: the radix to the power `k`.
pub open spec fn weight<D: Digit>(k: nat) -> nat
    decreases k,
{
    if k == 0 {
        1
    } else {
        radix::<D>() * weight::<D>((k - 1) as nat)
    }
}

/// A limb added at the most-significant end counts with the weight of its
/// place.
pub proof fn lemma_number_push<D: Digit>(limbs: Seq<D>, limb: D)
    ensures
        number(limbs.push(limb)) == number(limbs) + weight::<D>(limbs.len()) * magnitude(limb),
    decreases limbs.len(),
{
    let r = radix::<D>();
    let m = magnitude(limb);
    let longer = limbs.push(limb);
    if limbs.len() == 0 {
        assert(number(longer.skip(1)) == 0);
        assert(weight::<D>(0) == 1);
    } else {
        let tail = limbs.skip(1);
        let w = weight::<D>(tail.len());
        let t = number(tail);
        let first = magnitude(limbs[0]);
        lemma_number_push(tail, limb);
        assert(longer.skip(1) =~= tail.push(limb));
        assert(weight::<D>(limbs.len()) == r * w);
        assert(number(longer) == number(limbs) + (r * w) * m) by (nonlinear_arith)
            requires
                number(longer) == first + r * (t + w * m),
                number(limbs) == first + r * t,
        ;
    }
}

/// The number of a sequence is that of its first `k` limbs, and that of the
/// rest with the weight of place `k`.
pub proof fn lemma_number_split<D: Digit>(limbs: Seq<D>, k: int)
    requires
        0 <= k <= limbs.len(),
    ensures
        number(limbs) == number(limbs.take(k)) + weight::<D>(k as nat) * number(limbs.skip(k)),
    decreases k,
{
    if k == 0 {
        assert(limbs.skip(0) =~= limbs);
        assert(weight::<D>(0) * number(limbs.skip(0)) == number(limbs)) by (nonlinear_arith)
            requires
                weight::<D>(0) == 1,
                number(limbs.skip(0)) == number(limbs),
        ;
    } else {
        let j = k - 1;
        let r = radix::<D>();
        let w = weight::<D>(j as nat);
        let m = magnitude(limbs[j]);
        let above = number(limbs.skip(k));
        let below = number(limbs.take(j));
        lemma_number_split(limbs, j);
        lemma_number_push(limbs.take(j), limbs[j]);
        assert(limbs.take(k) =~= limbs.take(j).push(limbs[j]));
        assert(limbs.skip(j).skip(1) =~= limbs.skip(k));
        assert(number(limbs) == number(limbs.take(k)) + (r * w) * above) by (nonlinear_arith)
            requires
                number(limbs) == below + w * (m + r * above),
                number(limbs.take(k)) == below + w * m,
        ;
    }
}

/// The canonical limbs of a number.
pub open spec fn limbs_of<D: Digit>(n: nat) -> Seq<D> {
    choose|limbs: Seq<D>| canonical(limbs) && number(limbs) == n
}

/// Every number has canonical limbs.
pub proof fn lemma_number_has_limbs<D: Digit>(n: nat) -> (limbs: Seq<D>)
    ensures
        canonical(limbs),
        number(limbs) == n,
    decreases n,
{
    if n == 0 {
        Seq::empty()
    } else {
        let r = radix::<D>();
        let q = n / r;
        let m = n % r;
        lemma_fundamental_div_mod(n as int, r as int);
        lemma_mod_pos_bound(n as int, r as int);
        assert(q < n) by (nonlinear_arith)
            requires
                n == r * q + m,
                r >= 2,
                n > 0,
        ;
        let above = lemma_number_has_limbs::<D>(q);
        let low = (m % 0x1_0000_0000) as u32;
        let high = (m / 0x1_0000_0000) as u32;
        let limb = D::join(low, high);
        D::lemma_halves_of_join(low, high);
        limb.lemma_join_of_halves();
        let limbs = seq![limb] + above;
        assert(limbs.skip(1) =~= above);
        limbs
    }
}

/// The canonical limbs of a number are canonical and stand for that number.
pub proof fn lemma_limbs_of_number<D: Digit>(n: nat)
    ensures
        canonical(limbs_of::<D>(n)),
        number(limbs_of::<D>(n)) == n,
{
    lemma_number_has_limbs::<D>(n);
}

/// A canonical sequence is the canonical limbs of its number.
pub proof fn lemma_limbs_of<D: Digit>(limbs: Seq<D>)
    requires
        canonical(limbs),
    ensures
        limbs_of::<D>(number(limbs)) == limbs,
{
    let chosen = limbs_of::<D>(number(limbs));
    lemma_canonical_unique(chosen, limbs);
}

} // verus!
