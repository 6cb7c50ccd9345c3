//! Floating-point values carried through the library by their IEEE-754 bit
//! patterns. The library never computes with them; it stores, copies and
//! hands them back, and callers convert with `f32::to_bits`/`from_bits`.

use vstd::prelude::*;

verus! {

/// An `f32`, held as its bit pattern.
#[derive(Clone, Copy, Debug, PartialEq, Eq, Structural)]
pub struct F32Bits(pub u32);

/// An `f64`, held as its bit pattern.
#[derive(Clone, Copy, Debug, PartialEq, Eq, Structural)]
pub struct F64Bits(pub u64);

} // verus!
