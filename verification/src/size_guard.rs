//! Bounds on what is allocated ahead of reading a sequence whose announced
//! length cannot be trusted.

use vstd::prelude::*;

verus! {

/// The most memory, in bytes, that is reserved before any word has been read.
pub const MAX_PREALLOC_BYTES: usize = 1024 * 1024;

/// The size of one wire word in bytes.
pub const BYTES_PER_WORD: usize = 4;

/// The largest number of words that is reserved ahead of reading.
pub open spec fn max_prealloc_words() -> nat {
    (MAX_PREALLOC_BYTES / BYTES_PER_WORD) as nat
}

/// The number of words to reserve for an announced length `hint`: the hint
/// itself, zero where there is none, and never more than
/// [`max_prealloc_words`].
pub open spec fn cautious_spec(hint: Option<usize>) -> nat {
    let announced: nat = match hint {
        Some(n) => n as nat,
        None => 0,
    };
    if announced <= max_prealloc_words() {
        announced
    } else {
        max_prealloc_words()
    }
}

/// The quotient of `n` by `d`, rounded up.
pub open spec fn div_ceil_spec(n: nat, d: nat) -> nat {
    if n % d == 0 {
        n / d
    } else {
        n / d + 1
    }
}

/// Clamps an announced element count to what may be reserved up front.
pub fn cautious(hint: Option<usize>) -> (cap: usize)
    ensures
        cap == cautious_spec(hint),
        cap <= 262_144,
{
    let announced: usize = match hint {
        Some(n) => n,
        None => 0,
    };
    let ceiling: usize = MAX_PREALLOC_BYTES / BYTES_PER_WORD;
    if announced <= ceiling {
        announced
    } else {
        ceiling
    }
}

/// `num_integer::Integer::div_ceil` on `usize`: the quotient rounded up, which
/// for unsigned operands is the truncated quotient plus one where the
/// remainder is not zero. The divisor must not be zero.
#[verifier::external_body]
fn div_ceil(n: usize, d: usize) -> (q: usize)
    requires
        d != 0,
    ensures
        q == div_ceil_spec(n as nat, d as nat),
{
    num_integer::Integer::div_ceil(&n, &d)
}

/// The number of limbs to reserve for an announced count of `hint` words,
/// where each limb takes `words_per_limb` words.
pub fn prealloc_limbs(hint: Option<usize>, words_per_limb: usize) -> (cap: usize)
    requires
        words_per_limb != 0,
    ensures
        cap == div_ceil_spec(cautious_spec(hint), words_per_limb as nat),
        cap <= 262_144,
{
    let words: usize = cautious(hint);
    let cap: usize = div_ceil(words, words_per_limb);
    proof {
        lemma_div_ceil_bounded(words as nat, words_per_limb as nat);
    }
    cap
}

/// Rounding a quotient up never gives more than the dividend.
pub proof fn lemma_div_ceil_bounded(n: nat, d: nat)
    requires
        d != 0,
    ensures
        div_ceil_spec(n, d) <= n,
{
    assert(div_ceil_spec(n, d) <= n) by (nonlinear_arith)
        requires
            d != 0,
            div_ceil_spec(n, d) == if n % d == 0 {
                n / d
            } else {
                n / d + 1
            },
    ;
}

} // verus!
