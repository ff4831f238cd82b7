//! Scalars as operands: copying them, and widening the narrow ones to the
//! width that the operators take.

use crate::dispatch::{Duplicate, Widen};
use vstd::prelude::*;

verus! {

impl Duplicate for u32 {
    fn duplicate(&self) -> (copy: u32) {
        *self
    }
}

impl Duplicate for u64 {
    fn duplicate(&self) -> (copy: u64) {
        *self
    }
}

impl Duplicate for u128 {
    fn duplicate(&self) -> (copy: u128) {
        *self
    }
}

impl Duplicate for i32 {
    fn duplicate(&self) -> (copy: i32) {
        *self
    }
}

impl Duplicate for i64 {
    fn duplicate(&self) -> (copy: i64) {
        *self
    }
}

impl Duplicate for i128 {
    fn duplicate(&self) -> (copy: i128) {
        *self
    }
}

impl Widen<u32> for u8 {
    open spec fn widened(self) -> u32 {
        self as u32
    }

    proof fn lemma_widened_exact(self) {
    }

    fn widen(self) -> (wide: u32) {
        self as u32
    }
}

impl Widen<u32> for u16 {
    open spec fn widened(self) -> u32 {
        self as u32
    }

    proof fn lemma_widened_exact(self) {
    }

    fn widen(self) -> (wide: u32) {
        self as u32
    }
}

/// A `usize` is widened to 64 bits, which hold it on every target.
impl Widen<u64> for usize {
    open spec fn widened(self) -> u64 {
        self as u64
    }

    proof fn lemma_widened_exact(self) {
    }

    fn widen(self) -> (wide: u64) {
        self as u64
    }
}

impl Widen<i32> for i8 {
    open spec fn widened(self) -> i32 {
        self as i32
    }

    proof fn lemma_widened_exact(self) {
    }

    fn widen(self) -> (wide: i32) {
        self as i32
    }
}

impl Widen<i32> for i16 {
    open spec fn widened(self) -> i32 {
        self as i32
    }

    proof fn lemma_widened_exact(self) {
    }

    fn widen(self) -> (wide: i32) {
        self as i32
    }
}

/// An `isize` is widened to 64 bits, which hold it on every target.
impl Widen<i64> for isize {
    open spec fn widened(self) -> i64 {
        self as i64
    }

    proof fn lemma_widened_exact(self) {
    }

    fn widen(self) -> (wide: i64) {
        self as i64
    }
}

} // verus!
