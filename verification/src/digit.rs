//! Limbs: the fixed-width digits an integer is stored in.
//!
//! A limb is one or two 32-bit words wide. Everything the rest of the library
//! knows of a limb type it knows through its words, so the same code and the
//! same proofs serve both widths.

use vstd::prelude::*;

verus! {

/// A limb type: `u32`, one word wide, or `u64`, two words wide.
pub trait Digit: Copy + Sized {
    /// Whether a limb holds two words rather than one.
    spec fn is_wide() -> bool;

    /// The low 32 bits of the limb.
    spec fn low(self) -> u32;

    /// The bits of the limb above the low 32; zero for a limb of one word.
    spec fn high(self) -> u32;

    /// The limb with the given halves. A limb of one word has no room for a
    /// high half and takes the low half only.
    spec fn join(low: u32, high: u32) -> Self;

    /// A limb is made of its halves and of nothing else.
    proof fn lemma_join_of_halves(self)
        ensures
            Self::join(self.low(), self.high()) == self,
            !Self::is_wide() ==> self.high() == 0,
    ;

    /// Joining keeps the low half, and the high half where there is room.
    proof fn lemma_halves_of_join(low: u32, high: u32)
        ensures
            Self::join(low, high).low() == low,
            Self::is_wide() ==> Self::join(low, high).high() == high,
    ;

    /// Whether a limb holds two words rather than one.
    fn wide() -> (w: bool)
        ensures
            w == Self::is_wide(),
    ;

    /// The low 32 bits of the limb.
    fn low_word(self) -> (w: u32)
        ensures
            w == self.low(),
    ;

    /// The bits of the limb above the low 32; zero for a limb of one word.
    fn high_word(self) -> (w: u32)
        ensures
            w == self.high(),
    ;

    /// The limb with the given halves; a limb of one word takes the low
    /// half only.
    fn from_words(low: u32, high: u32) -> (limb: Self)
        ensures
            limb == Self::join(low, high),
    ;

    /// Bitwise or, which acts on each half by itself.
    fn or(self, other: Self) -> (r: Self)
        ensures
            r.low() == self.low() | other.low(),
            r.high() == self.high() | other.high(),
    ;

    /// Bitwise and, which acts on each half by itself.
    fn and(self, other: Self) -> (r: Self)
        ensures
            r.low() == self.low() & other.low(),
            r.high() == self.high() & other.high(),
    ;

    /// Adds a word to the limb. The second part of the result is what the
    /// limb has no room for, counted in units of the limb's radix.
    fn add_word(self, word: u32) -> (r: (Self, u32))
        ensures
            r.0.low() + 0x1_0000_0000 * r.0.high() + (if Self::is_wide() {
                0x1_0000_0000_0000_0000int
            } else {
                0x1_0000_0000int
            }) * r.1 == self.low() + 0x1_0000_0000 * self.high() + word,
    ;

    /// The remainder by `divisor` of the number that has this limb as its
    /// lower part and `above`, itself a remainder, as its upper part.
    fn rem_step(self, above: u32, divisor: u32) -> (r: u32)
        requires
            above < divisor,
        ensures
            r == (self.low() + 0x1_0000_0000 * self.high() + (if Self::is_wide() {
                0x1_0000_0000_0000_0000int
            } else {
                0x1_0000_0000int
            }) * above) % (divisor as int),
    ;
}

impl Digit for u32 {
    open spec fn is_wide() -> bool {
        false
    }

    open spec fn low(self) -> u32 {
        self
    }

    open spec fn high(self) -> u32 {
        0
    }

    open spec fn join(low: u32, high: u32) -> u32 {
        low
    }

    proof fn lemma_join_of_halves(self) {
    }

    proof fn lemma_halves_of_join(low: u32, high: u32) {
    }

    fn wide() -> (w: bool) {
        false
    }

    fn low_word(self) -> (w: u32) {
        self
    }

    fn high_word(self) -> (w: u32) {
        0
    }

    fn from_words(low: u32, high: u32) -> (limb: u32) {
        low
    }

    fn or(self, other: u32) -> (r: u32) {
        assert(0u32 | 0u32 == 0u32) by (bit_vector);
        self | other
    }

    fn and(self, other: u32) -> (r: u32) {
        assert(0u32 & 0u32 == 0u32) by (bit_vector);
        self & other
    }

    fn add_word(self, word: u32) -> (r: (u32, u32)) {
        let sum: u64 = self as u64 + word as u64;
        assert(sum & 0xffff_ffff == sum % 0x1_0000_0000) by (bit_vector);
        assert(sum >> 32 == sum / 0x1_0000_0000) by (bit_vector);
        ((sum & 0xffff_ffff) as u32, (sum >> 32) as u32)
    }

    fn rem_step(self, above: u32, divisor: u32) -> (r: u32) {
        let whole: u64 = (above as u64) * 0x1_0000_0000 + self as u64;
        (whole % (divisor as u64)) as u32
    }
}

impl Digit for u64 {
    open spec fn is_wide() -> bool {
        true
    }

    open spec fn low(self) -> u32 {
        (self % 0x1_0000_0000) as u32
    }

    open spec fn high(self) -> u32 {
        (self / 0x1_0000_0000) as u32
    }

    open spec fn join(low: u32, high: u32) -> u64 {
        (low + high * 0x1_0000_0000) as u64
    }

    proof fn lemma_join_of_halves(self) {
    }

    proof fn lemma_halves_of_join(low: u32, high: u32) {
    }

    fn wide() -> (w: bool) {
        true
    }

    fn low_word(self) -> (w: u32) {
        assert(self & 0xffff_ffff == self % 0x1_0000_0000) by (bit_vector);
        (self & 0xffff_ffff) as u32
    }

    fn high_word(self) -> (w: u32) {
        assert(self >> 32 == self / 0x1_0000_0000) by (bit_vector);
        (self >> 32) as u32
    }

    fn from_words(low: u32, high: u32) -> (limb: u64) {
        assert((low as u64) | ((high as u64) << 32) == low + high * 0x1_0000_0000) by (bit_vector);
        (low as u64) | ((high as u64) << 32)
    }

    fn or(self, other: u64) -> (r: u64) {
        let r: u64 = self | other;
        assert(((self | other) % 0x1_0000_0000) as u32 == ((self % 0x1_0000_0000) as u32) | ((other
            % 0x1_0000_0000) as u32)) by (bit_vector);
        assert(((self | other) / 0x1_0000_0000) as u32 == ((self / 0x1_0000_0000) as u32) | ((other
            / 0x1_0000_0000) as u32)) by (bit_vector);
        r
    }

    fn and(self, other: u64) -> (r: u64) {
        let r: u64 = self & other;
        assert(((self & other) % 0x1_0000_0000) as u32 == ((self % 0x1_0000_0000) as u32) & ((other
            % 0x1_0000_0000) as u32)) by (bit_vector);
        assert(((self & other) / 0x1_0000_0000) as u32 == ((self / 0x1_0000_0000) as u32) & ((other
            / 0x1_0000_0000) as u32)) by (bit_vector);
        r
    }

    fn add_word(self, word: u32) -> (r: (u64, u32)) {
        let sum: u128 = self as u128 + word as u128;
        assert(sum & 0xffff_ffff_ffff_ffff == sum % 0x1_0000_0000_0000_0000) by (bit_vector);
        assert(sum >> 64 == sum / 0x1_0000_0000_0000_0000) by (bit_vector);
        ((sum & 0xffff_ffff_ffff_ffff) as u64, (sum >> 64) as u32)
    }

    fn rem_step(self, above: u32, divisor: u32) -> (r: u32) {
        let whole: u128 = (above as u128) * 0x1_0000_0000_0000_0000 + self as u128;
        (whole % (divisor as u128)) as u32
    }
}

} // verus!
