//! A portable wire form for arbitrary-precision unsigned integers, and the
//! forwarding rules that let one operator body serve every way of passing
//! its operands.
//!
//! An integer is a little-endian sequence of limbs, 32 or 64 bits wide. On
//! the wire it is always a sequence of 32-bit words, the same for both limb
//! widths.

pub mod arith;
pub mod biguint;
pub mod bitwise;
pub mod digit;
pub mod dispatch;
pub mod equality;
pub mod limbs;
pub mod scalar;
pub mod size_guard;
pub mod wire;

pub use arith::{Add, Rem};
pub use biguint::BigUint;
pub use bitwise::{BitAnd, BitOr};
pub use digit::Digit;
pub use size_guard::cautious;
pub use wire::{Decoder, Step};
