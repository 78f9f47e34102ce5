//! Word codec: little-endian byte encoding of 32-bit values, byte-wise
//! addition with per-limb carry recovery, and sign/zero extension for
//! narrow loads.

use vstd::prelude::*;

verus! {

/// A 32-bit value as four little-endian bytes.
pub type Word = [u8; 4];

/// Width of a single memory access, in lanes of one byte each.
#[derive(Clone, Copy, Debug, PartialEq, Eq, Structural)]
pub enum MemAccessSize {
    Byte,
    HalfWord,
    Word,
}

/// Number of byte lanes the access touches.
pub open spec fn size_lanes(size: MemAccessSize) -> int {
    match size {
        MemAccessSize::Byte => 1,
        MemAccessSize::HalfWord => 2,
        MemAccessSize::Word => 4,
    }
}

/// Exclusive upper bound on values that fit in the access width.
pub open spec fn size_limit(size: MemAccessSize) -> int {
    match size {
        MemAccessSize::Byte => 0x100,
        MemAccessSize::HalfWord => 0x1_0000,
        MemAccessSize::Word => 0x1_0000_0000,
    }
}

/// Number of byte lanes the access touches.
pub fn lanes_of_size(size: MemAccessSize) -> (n: usize)
    ensures
        n == size_lanes(size),
{
    match size {
        MemAccessSize::Byte => 1,
        MemAccessSize::HalfWord => 2,
        MemAccessSize::Word => 4,
    }
}

/// The unsigned integer a word denotes, little-endian.
pub open spec fn word_value(w: Word) -> int {
    w[0] + 0x100 * w[1] + 0x1_0000 * w[2] + 0x100_0000 * w[3]
}

/// Byte `i` of the little-endian encoding of `v`.
pub open spec fn le_byte(v: u32, i: int) -> int {
    if i == 0 {
        (v as int) % 0x100
    } else if i == 1 {
        ((v as int) / 0x100) % 0x100
    } else if i == 2 {
        ((v as int) / 0x1_0000) % 0x100
    } else {
        ((v as int) / 0x100_0000) % 0x100
    }
}

/// A word encoding `v` carries exactly the little-endian bytes of `v`.
pub proof fn lemma_le_bytes_unique(w: Word, v: u32)
    requires
        word_value(w) == v,
    ensures
        forall|i: int| 0 <= i < 4 ==> w[i] == le_byte(v, i),
{
    let b0 = w[0];
    let b1 = w[1];
    let b2 = w[2];
    let b3 = w[3];
    assert(b0 == v % 0x100 && b1 == (v / 0x100) % 0x100 && b2 == (v / 0x1_0000) % 0x100
        && b3 == (v / 0x100_0000) % 0x100) by (bit_vector)
        requires v == b0 + 0x100 * b1 + 0x1_0000 * b2 + 0x100_0000 * b3;
    assert(w[0] == le_byte(v, 0) && w[1] == le_byte(v, 1) && w[2] == le_byte(v, 2)
        && w[3] == le_byte(v, 3));
}

/// Carry out of limb `k` when the little-endian bytes of `a` and `b` are
/// added limb by limb.
pub open spec fn carry_out(a: u32, b: u32, k: int) -> int
    decreases k + 1,
{
    if k < 0 {
        0
    } else if le_byte(a, k) + le_byte(b, k) + carry_out(a, b, k - 1) >= 0x100 {
        1
    } else {
        0
    }
}

/// Split a 32-bit value into its four little-endian bytes.
pub fn u32_to_le_bytes(v: u32) -> (w: Word)
    ensures
        word_value(w) == v,
{
    let b0 = (v % 0x100) as u8;
    let b1 = ((v / 0x100) % 0x100) as u8;
    let b2 = ((v / 0x1_0000) % 0x100) as u8;
    let b3 = (v / 0x100_0000) as u8;
    proof {
        assert(v % 0x100 + 0x100 * ((v / 0x100) % 0x100) + 0x1_0000 * ((v / 0x1_0000) % 0x100)
            + 0x100_0000 * (v / 0x100_0000) == v && v / 0x100_0000 < 0x100) by (bit_vector);
    }
    [b0, b1, b2, b3]
}

/// Recompose four little-endian bytes into the 32-bit value they denote.
pub fn u32_from_le_bytes(w: &Word) -> (v: u32)
    ensures
        v == word_value(*w),
{
    w[0] as u32 + 0x100 * w[1] as u32 + 0x1_0000 * w[2] as u32 + 0x100_0000 * w[3] as u32
}

/// Little-endian byte-wise addition.
///
/// Returns the sum modulo `2^32` as a word together with the carry bit out of
/// each limb; the carry out of the top limb records overflow and is never
/// wrapped back in.
pub fn add_with_carries(a: Word, b: Word) -> (res: (Word, [u8; 4]))
    ensures
        ({
            let (sum, carry) = res;
            &&& carry[0] == if a[0] + b[0] >= 0x100 { 1int } else { 0int }
            &&& carry[1] == if a[1] + b[1] + carry[0] >= 0x100 { 1int } else { 0int }
            &&& carry[2] == if a[2] + b[2] + carry[1] >= 0x100 { 1int } else { 0int }
            &&& carry[3] == if a[3] + b[3] + carry[2] >= 0x100 { 1int } else { 0int }
            &&& sum[0] + 0x100 * carry[0] == a[0] + b[0]
            &&& sum[1] + 0x100 * carry[1] == a[1] + b[1] + carry[0]
            &&& sum[2] + 0x100 * carry[2] == a[2] + b[2] + carry[1]
            &&& sum[3] + 0x100 * carry[3] == a[3] + b[3] + carry[2]
            &&& word_value(sum) == (word_value(a) + word_value(b)) % 0x1_0000_0000
            &&& carry[3] == (word_value(a) + word_value(b)) / 0x1_0000_0000
        }),
{
    let t0: u32 = a[0] as u32 + b[0] as u32;
    let c0: u8 = if t0 >= 0x100 { 1 } else { 0 };
    let r0 = (t0 - 0x100 * c0 as u32) as u8;
    let t1: u32 = a[1] as u32 + b[1] as u32 + c0 as u32;
    let c1: u8 = if t1 >= 0x100 { 1 } else { 0 };
    let r1 = (t1 - 0x100 * c1 as u32) as u8;
    let t2: u32 = a[2] as u32 + b[2] as u32 + c1 as u32;
    let c2: u8 = if t2 >= 0x100 { 1 } else { 0 };
    let r2 = (t2 - 0x100 * c2 as u32) as u8;
    let t3: u32 = a[3] as u32 + b[3] as u32 + c2 as u32;
    let c3: u8 = if t3 >= 0x100 { 1 } else { 0 };
    let r3 = (t3 - 0x100 * c3 as u32) as u8;
    let sum = [r0, r1, r2, r3];
    let carry = [c0, c1, c2, c3];
    proof {
        let total = word_value(a) + word_value(b);
        assert(word_value(sum) + 0x1_0000_0000 * c3 == total);
        if c3 == 1 {
            assert(word_value(sum) == total - 0x1_0000_0000);
            assert(total % 0x1_0000_0000 == total - 0x1_0000_0000 && total / 0x1_0000_0000 == 1)
                by (nonlinear_arith)
                requires 0x1_0000_0000 <= total < 2 * 0x1_0000_0000;
        } else {
            assert(total % 0x1_0000_0000 == total && total / 0x1_0000_0000 == 0)
                by (nonlinear_arith)
                requires 0 <= total < 0x1_0000_0000;
        }
    }
    (sum, carry)
}

/// The carries `add_with_carries` recovers are the carries of the values the
/// words encode.
pub proof fn lemma_carries_match(a: Word, b: Word, av: u32, bv: u32, carry: [u8; 4])
    requires
        word_value(a) == av,
        word_value(b) == bv,
        carry[0] == if a[0] + b[0] >= 0x100 { 1int } else { 0int },
        carry[1] == if a[1] + b[1] + carry[0] >= 0x100 { 1int } else { 0int },
        carry[2] == if a[2] + b[2] + carry[1] >= 0x100 { 1int } else { 0int },
        carry[3] == if a[3] + b[3] + carry[2] >= 0x100 { 1int } else { 0int },
    ensures
        forall|k: int| 0 <= k < 4 ==> carry[k] == carry_out(av, bv, k),
{
    lemma_le_bytes_unique(a, av);
    lemma_le_bytes_unique(b, bv);
    assert(carry_out(av, bv, -1) == 0);
    assert(forall|k: int| 0 <= k < 4 ==> carry[k] == carry_out(av, bv, k)) by {
        assert(carry[0] == carry_out(av, bv, 0));
        assert(carry[1] == carry_out(av, bv, 1));
        assert(carry[2] == carry_out(av, bv, 2));
        assert(carry[3] == carry_out(av, bv, 3));
    }
}

/// The 32-bit value obtained by replicating the top bit of the access width.
pub open spec fn sign_extend_value(v: u32, size: MemAccessSize) -> int {
    let low = (v as int) % size_limit(size);
    match size {
        MemAccessSize::Byte => if low < 0x80 { low } else { low + 0xffff_ff00 },
        MemAccessSize::HalfWord => if low < 0x8000 { low } else { low + 0xffff_0000 },
        MemAccessSize::Word => low,
    }
}

/// The 32-bit value obtained by zero-filling above the access width.
pub open spec fn zero_extend_value(v: u32, size: MemAccessSize) -> int {
    (v as int) % size_limit(size)
}

/// Widen a narrow value to 32 bits by replicating its top bit.
pub fn sign_extend(value: u32, size: MemAccessSize) -> (r: u32)
    ensures
        r == sign_extend_value(value, size),
{
    match size {
        MemAccessSize::Byte => {
            let b = value % 0x100;
            if b < 0x80 { b } else { b + 0xffff_ff00 }
        }
        MemAccessSize::HalfWord => {
            let h = value % 0x1_0000;
            if h < 0x8000 { h } else { h + 0xffff_0000 }
        }
        MemAccessSize::Word => value,
    }
}

/// Widen a narrow value to 32 bits by zero-filling.
pub fn zero_extend(value: u32, size: MemAccessSize) -> (r: u32)
    ensures
        r == zero_extend_value(value, size),
{
    match size {
        MemAccessSize::Byte => value % 0x100,
        MemAccessSize::HalfWord => value % 0x1_0000,
        MemAccessSize::Word => value,
    }
}

} // verus!
