//! The wire form: an integer as a sequence of 32-bit words, least
//! significant first, with no zero word at the most-significant end.
//!
//! The wire form does not depend on the limb width. A limb of two words is
//! written low half first; the high half of the last limb is left out where
//! it is zero.

use crate::biguint::BigUint;
use crate::digit::Digit;
use crate::limbs::{
    canonical, lemma_canonical_unique, lemma_number_drop_zero, lemma_trim_canonical,
    lemma_trim_number, lemma_trim_of_canonical, number, trim,
};
use crate::size_guard::prealloc_limbs;
use vstd::prelude::*;

verus! {

/// The words of all limbs in order, every half of every limb.
pub open spec fn spread<D: Digit>(limbs: Seq<D>) -> Seq<u32> {
    if D::is_wide() {
        Seq::new(
            2 * limbs.len(),
            |i: int|
                if i % 2 == 0 {
                    limbs[i / 2].low()
                } else {
                    limbs[i / 2].high()
                },
        )
    } else {
        Seq::new(limbs.len(), |i: int| limbs[i].low())
    }
}

/// The wire form of a canonical limb sequence.
pub open spec fn wire<D: Digit>(limbs: Seq<D>) -> Seq<u32> {
    if D::is_wide() && limbs.len() > 0 && limbs.last().high() == 0 {
        spread(limbs).drop_last()
    } else {
        spread(limbs)
    }
}

/// The limbs that a word sequence fills, in order. Where a limb takes two
/// words and the sequence has an odd number of them, the last word alone
/// makes the last limb.
pub open spec fn gather<D: Digit>(words: Seq<u32>) -> Seq<D> {
    if D::is_wide() {
        Seq::new(
            ((words.len() + 1) / 2) as nat,
            |i: int|
                D::join(
                    words[2 * i],
                    if 2 * i + 1 < words.len() {
                        words[2 * i + 1]
                    } else {
                        0
                    },
                ),
        )
    } else {
        Seq::new(words.len(), |i: int| D::join(words[i], 0))
    }
}

/// The canonical limbs of the integer that a word sequence stands for.
pub open spec fn decoded<D: Digit>(words: Seq<u32>) -> Seq<D> {
    trim(gather::<D>(words))
}

/// One more limb adds its words at the end.
pub proof fn lemma_spread_push<D: Digit>(limbs: Seq<D>, limb: D)
    ensures
        D::is_wide() ==> spread(limbs.push(limb)) == spread(limbs).push(limb.low()).push(
            limb.high(),
        ),
        !D::is_wide() ==> spread(limbs.push(limb)) == spread(limbs).push(limb.low()),
{
    if !D::is_wide() {
        assert(spread(limbs.push(limb)) =~= spread(limbs).push(limb.low()));
    }
}

/// Filling limbs with the words of `limbs` gives `limbs` back.
pub proof fn lemma_gather_of_spread<D: Digit>(limbs: Seq<D>)
    ensures
        gather::<D>(spread(limbs)) == limbs,
{
    let words = spread(limbs);
    let again = gather::<D>(words);
    assert forall|i: int| 0 <= i < limbs.len() implies again[i] == limbs[i] by {
        limbs[i].lemma_join_of_halves();
    }
}

/// A single word after the words of `limbs` fills one more limb, whose high
/// half is zero.
pub proof fn lemma_gather_of_spread_odd<D: Digit>(limbs: Seq<D>, low: u32)
    requires
        D::is_wide(),
    ensures
        gather::<D>(spread(limbs).push(low)) == limbs.push(D::join(low, 0)),
{
    let words = spread(limbs).push(low);
    let again = gather::<D>(words);
    let expected = limbs.push(D::join(low, 0));
    assert forall|i: int| 0 <= i < expected.len() implies again[i] == expected[i] by {
        if i < limbs.len() {
            limbs[i].lemma_join_of_halves();
        }
    }
}

/// With limbs of one word the wire form is the limb sequence itself.
pub proof fn lemma_wire_of_words(limbs: Seq<u32>)
    ensures
        wire(limbs) == limbs,
{
}

/// The words of the limbs stand for the same number as the limbs.
pub proof fn lemma_spread_number<D: Digit>(limbs: Seq<D>)
    ensures
        number(spread(limbs)) == number(limbs),
    decreases limbs.len(),
{
    let words = spread(limbs);
    if limbs.len() > 0 {
        let tail = limbs.skip(1);
        let r: nat = 0x1_0000_0000;
        let t = number(spread(tail));
        lemma_spread_number(tail);
        limbs[0].lemma_join_of_halves();
        if D::is_wide() {
            let low = limbs[0].low() as nat;
            let high = limbs[0].high() as nat;
            assert(words.skip(1).skip(1) =~= spread(tail));
            assert(number(words.skip(1)) == high + r * t);
            assert(number(words) == low + r * (high + r * t));
            assert(number(words) == number(limbs)) by (nonlinear_arith)
                requires
                    number(words) == low + r * (high + r * t),
                    number(limbs) == low + r * high + 0x1_0000_0000_0000_0000 * t,
                    r == 0x1_0000_0000,
            ;
        } else {
            assert(words.skip(1) =~= spread(tail));
        }
    }
}

/// The wire form stands for the same number as the limbs, and the wire form
/// of a canonical sequence has no zero word at its most-significant end.
pub proof fn lemma_wire_number<D: Digit>(limbs: Seq<D>)
    ensures
        number(wire(limbs)) == number(limbs),
        canonical(limbs) ==> canonical(wire(limbs)),
{
    lemma_spread_number(limbs);
    let words = spread(limbs);
    if limbs.len() > 0 {
        limbs.last().lemma_join_of_halves();
        if D::is_wide() && limbs.last().high() == 0 {
            lemma_number_drop_zero(words);
        }
    }
}

/// Round trip: decoding the wire form of a canonical limb sequence gives the
/// same limb sequence.
pub proof fn lemma_round_trip<D: Digit>(limbs: Seq<D>)
    requires
        canonical(limbs),
    ensures
        decoded::<D>(wire(limbs)) == limbs,
{
    if D::is_wide() && limbs.len() > 0 && limbs.last().high() == 0 {
        let front = limbs.drop_last();
        let last = limbs.last();
        assert(limbs =~= front.push(last));
        lemma_spread_push(front, last);
        lemma_gather_of_spread_odd(front, last.low());
        last.lemma_join_of_halves();
    } else {
        lemma_gather_of_spread(limbs);
    }
    lemma_trim_of_canonical(limbs);
}

/// Portability: canonical limb sequences of any two widths that stand for the
/// same number have the same wire form, word for word.
pub proof fn lemma_portable<A: Digit, B: Digit>(a: Seq<A>, b: Seq<B>)
    requires
        canonical(a),
        canonical(b),
        number(a) == number(b),
    ensures
        wire(a) == wire(b),
{
    lemma_wire_number(a);
    lemma_wire_number(b);
    lemma_canonical_unique(wire(a), wire(b));
}

/// The limbs that a word sequence fills stand for the same number as the
/// words.
pub proof fn lemma_gather_number<D: Digit>(words: Seq<u32>)
    ensures
        number(gather::<D>(words)) == number(words),
    decreases words.len(),
{
    let limbs = gather::<D>(words);
    let r: nat = 0x1_0000_0000;
    if words.len() == 0 {
        // Nothing to fill and nothing to count.
    } else if !D::is_wide() {
        let rest = words.skip(1);
        lemma_gather_number::<D>(rest);
        assert(limbs.skip(1) =~= gather::<D>(rest));
        D::lemma_halves_of_join(words[0], 0);
        limbs[0].lemma_join_of_halves();
    } else if words.len() == 1 {
        D::lemma_halves_of_join(words[0], 0);
        assert(words.skip(1).len() == 0);
        assert(number(limbs.skip(1)) == 0);
        assert(number(words.skip(1)) == 0);
        assert(number(limbs) == words[0] + 0x1_0000_0000_0000_0000 * 0);
    } else {
        let rest = words.skip(1).skip(1);
        let t = number(rest);
        let low = words[0] as nat;
        let high = words[1] as nat;
        lemma_gather_number::<D>(rest);
        assert(limbs.skip(1) =~= gather::<D>(rest));
        D::lemma_halves_of_join(words[0], words[1]);
        assert(number(limbs) == number(words)) by (nonlinear_arith)
            requires
                number(words) == low + r * (high + r * t),
                number(limbs) == low + r * high + 0x1_0000_0000_0000_0000 * t,
                r == 0x1_0000_0000,
        ;
    }
}

/// Decoding is total: any word sequence gives the canonical limbs of the
/// number that the words stand for.
pub proof fn lemma_decoded_number<D: Digit>(words: Seq<u32>)
    ensures
        canonical(decoded::<D>(words)),
        number(decoded::<D>(words)) == number(words),
{
    lemma_trim_canonical(gather::<D>(words));
    lemma_trim_number(gather::<D>(words));
    lemma_gather_number::<D>(words);
}

impl<D: Digit> BigUint<D> {
    /// The wire form of the integer.
    pub fn to_words(&self) -> (words: Vec<u32>)
        ensures
            words@ == wire(self@),
            canonical(words@),
            number(words@) == self.number(),
    {
        let limbs = self.limbs();
        proof {
            lemma_wire_number(limbs@);
        }
        let n: usize = limbs.len();
        let mut words: Vec<u32> = Vec::new();
        if !D::wide() {
            let mut i: usize = 0;
            while i < n
                invariant
                    n == limbs.len(),
                    i <= n,
                    !D::is_wide(),
                    words@ == spread(limbs@.take(i as int)),
                decreases n - i,
            {
                let limb = limbs[i];
                words.push(limb.low_word());
                proof {
                    lemma_spread_push(limbs@.take(i as int), limb);
                }
                i = i + 1;
            }
        } else if n > 0 {
            let mut i: usize = 0;
            while i < n - 1
                invariant
                    n == limbs.len(),
                    n > 0,
                    i <= n - 1,
                    D::is_wide(),
                    words@ == spread(limbs@.take(i as int)),
                decreases n - i,
            {
                let limb = limbs[i];
                words.push(limb.low_word());
                words.push(limb.high_word());
                proof {
                    lemma_spread_push(limbs@.take(i as int), limb);
                }
                i = i + 1;
            }
            let last = limbs[n - 1];
            let high: u32 = last.high_word();
            words.push(last.low_word());
            proof {
                lemma_spread_push(limbs@.take(n - 1), last);
            }
            if high != 0 {
                words.push(high);
            }
        }
        words
    }

    /// The integer that a word sequence stands for.
    pub fn from_words(words: &[u32]) -> (value: Self)
        ensures
            value@ == decoded::<D>(words@),
            canonical(value@),
            value.number() == number(words@),
    {
        let n: usize = words.len();
        let mut decoder: Decoder<D> = Decoder::new(Some(n));
        let mut i: usize = 0;
        while i < n
            invariant
                n == words.len(),
                i <= n,
                decoder.words() == words@.take(i as int),
            decreases n - i,
        {
            decoder.push(words[i]);
            i = i + 1;
        }
        assert(words@.take(n as int) =~= words@);
        decoder.finish()
    }
}

/// What a source of words is expected to hold, for a message about a source
/// that holds something else.
pub fn expected() -> (text: &'static str)
    ensures
        text@ == "a sequence of unsigned 32-bit numbers"@,
{
    "a sequence of unsigned 32-bit numbers"
}

/// Builds an integer from words that arrive one at a time.
pub struct Decoder<D: Digit> {
    limbs: Vec<D>,
    pending: Option<u32>,
}

/// What follows one pull from the source of words.
pub enum Step<D: Digit, E> {
    /// A word was taken in; the source is to be pulled again.
    More(Decoder<D>),
    /// The source had no more words; this is the integer.
    Done(BigUint<D>),
    /// The source failed; what had been read is gone.
    Failed(E),
}

impl<D: Digit> Decoder<D> {
    #[verifier::type_invariant]
    spec fn well_formed(self) -> bool {
        self.pending is Some ==> D::is_wide()
    }

    /// The words taken in so far, in order of arrival.
    pub closed spec fn words(&self) -> Seq<u32> {
        match self.pending {
            Some(low) => spread(self.limbs@).push(low),
            None => spread(self.limbs@),
        }
    }

    /// A decoder that has taken in nothing. `hint` is the number of words
    /// that the source says it will give; it decides only how much room is
    /// reserved, and no more than the guard allows.
    pub fn new(hint: Option<usize>) -> (decoder: Self)
        ensures
            decoder.words() == Seq::<u32>::empty(),
    {
        let per_limb: usize = if D::wide() {
            2
        } else {
            1
        };
        let limbs: Vec<D> = Vec::with_capacity(prealloc_limbs(hint, per_limb));
        Decoder { limbs, pending: None }
    }

    /// The decoder after one more word.
    fn advance(self, word: u32) -> (next: Self)
        ensures
            next.words() == self.words().push(word),
    {
        proof {
            use_type_invariant(&self);
        }
        let mut limbs: Vec<D> = self.limbs;
        if !D::wide() {
            proof {
                D::lemma_halves_of_join(word, 0);
                lemma_spread_push(limbs@, D::join(word, 0));
            }
            limbs.push(D::from_words(word, 0));
            Decoder { limbs, pending: None }
        } else {
            match self.pending {
                Some(low) => {
                    proof {
                        D::lemma_halves_of_join(low, word);
                        lemma_spread_push(limbs@, D::join(low, word));
                    }
                    limbs.push(D::from_words(low, word));
                    Decoder { limbs, pending: None }
                },
                None => Decoder { limbs, pending: Some(word) },
            }
        }
    }

    /// Takes in the next word.
    pub fn push(&mut self, word: u32)
        ensures
            final(self).words() == old(self).words().push(word),
    {
        let mut taken: Decoder<D> = Decoder { limbs: Vec::new(), pending: None };
        core::mem::swap(self, &mut taken);
        *self = taken.advance(word);
    }

    /// The integer that the words taken in stand for.
    pub fn finish(self) -> (value: BigUint<D>)
        ensures
            value@ == decoded::<D>(self.words()),
            canonical(value@),
            value.number() == number(self.words()),
    {
        proof {
            use_type_invariant(&self);
            lemma_decoded_number::<D>(self.words());
        }
        let mut limbs: Vec<D> = self.limbs;
        match self.pending {
            Some(low) => {
                proof {
                    lemma_gather_of_spread_odd(limbs@, low);
                }
                limbs.push(D::from_words(low, 0));
            },
            None => {
                proof {
                    lemma_gather_of_spread(limbs@);
                }
            },
        }
        BigUint::from_limbs(limbs)
    }

    /// Decides what follows one pull from the source: a word is taken in, the
    /// end of the words gives the integer, and a failure of the source is
    /// handed on as it is.
    pub fn step<E>(self, pulled: Result<Option<u32>, E>) -> (next: Step<D, E>)
        ensures
            match pulled {
                Ok(Some(word)) => next matches Step::More(decoder) && decoder.words()
                    == self.words().push(word),
                Ok(None) => next matches Step::Done(value) && value@ == decoded::<D>(
                    self.words(),
                ) && canonical(value@) && value.number() == number(self.words()),
                Err(error) => next matches Step::Failed(e) && e == error,
            },
    {
        match pulled {
            Ok(Some(word)) => Step::More(self.advance(word)),
            Ok(None) => Step::Done(self.finish()),
            Err(error) => Step::Failed(error),
        }
    }
}

} // verus!
