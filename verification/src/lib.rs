//! Load/store execution-trace chip of a RISC-V zero-knowledge virtual machine.
//!
//! The crate ingests an ordered stream of memory-instruction execution steps
//! and produces a populated arithmetic trace over the Mersenne-31 prime field,
//! a per-byte-address memory-consistency log, and the low-degree constraints
//! that any honest trace must satisfy.

pub mod chip;
pub mod codec;
pub mod constraints;
pub mod driver;
pub mod instructions;
pub mod kv;
pub mod memlog;
pub mod memory;
pub mod pubio;
pub mod riscv;
pub mod trace;

use vstd::prelude::*;

verus! {

/// The Mersenne-31 prime: the modulus of the trace's base field.
pub const FIELD_MODULUS: u32 = 0x7fff_ffff;

} // verus!
