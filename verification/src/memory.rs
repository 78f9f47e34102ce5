//! Byte-addressed memory of the virtual machine: a sparse map from byte
//! address to byte, with aligned multi-byte reads and writes. Untouched
//! addresses read as zero.

use vstd::prelude::*;

use crate::codec::{le_byte, lanes_of_size, size_lanes, zero_extend_value, MemAccessSize};
use crate::kv::{find_key, lemma_map_of_contains, lemma_map_of_index, lemma_map_of_update,
    lemma_unique_push, map_of, unique_keys};

verus! {

/// Faults the VM surfaces to instruction executors.
#[derive(Clone, Copy, Debug, PartialEq, Eq, Structural)]
pub enum VMError {
    /// A multi-byte write to an address not aligned to its width.
    UnalignedMemoryWrite(u32),
    /// A multi-byte read from an address not aligned to its width.
    UnalignedMemoryRead(u32),
    /// The effective address computation wrapped past the address space.
    AddressCalculationOverflow,
}

/// Faults of the lower memory layer.
#[derive(Clone, Copy, Debug, PartialEq, Eq, Structural)]
pub enum MemoryError {
    /// A multi-byte write to an address not aligned to its width.
    UnalignedMemoryWrite(u32),
    /// A multi-byte read from an address not aligned to its width.
    UnalignedMemoryRead(u32),
    /// The effective address computation wrapped past the address space.
    AddressCalculationOverflow,
}

/// A completed load: the width, the address and the value read.
#[derive(Clone, Copy, Debug, PartialEq, Eq, Structural)]
pub enum LoadOp {
    /// The width, address, and value of the load.
    Op(MemAccessSize, u32, u32),
}

/// The address is a multiple of the access width.
pub open spec fn aligned(addr: u32, size: MemAccessSize) -> bool {
    addr % (size_lanes(size) as u32) == 0
}

/// The byte held at `a`: the mapped byte, or zero when never written.
pub open spec fn byte_at(m: Map<u32, u8>, a: u32) -> int {
    if m.contains_key(a) {
        m[a] as int
    } else {
        0
    }
}

/// The little-endian value of the `size` bytes starting at `addr`.
pub open spec fn read_value(m: Map<u32, u8>, addr: u32, size: MemAccessSize) -> int {
    match size {
        MemAccessSize::Byte => byte_at(m, addr),
        MemAccessSize::HalfWord => byte_at(m, addr) + 0x100 * byte_at(m, (addr + 1) as u32),
        MemAccessSize::Word => byte_at(m, addr) + 0x100 * byte_at(m, (addr + 1) as u32)
            + 0x1_0000 * byte_at(m, (addr + 2) as u32)
            + 0x100_0000 * byte_at(m, (addr + 3) as u32),
    }
}

/// The map after `value`, masked to the access width, is written
/// little-endian at `addr`.
pub open spec fn write_map(m: Map<u32, u8>, addr: u32, size: MemAccessSize, value: u32) -> Map<
    u32,
    u8,
> {
    match size {
        MemAccessSize::Byte => m.insert(addr, le_byte(value, 0) as u8),
        MemAccessSize::HalfWord => m.insert(addr, le_byte(value, 0) as u8).insert(
            (addr + 1) as u32,
            le_byte(value, 1) as u8,
        ),
        MemAccessSize::Word => m.insert(addr, le_byte(value, 0) as u8).insert(
            (addr + 1) as u32,
            le_byte(value, 1) as u8,
        ).insert((addr + 2) as u32, le_byte(value, 2) as u8).insert(
            (addr + 3) as u32,
            le_byte(value, 3) as u8,
        ),
    }
}

/// Sparse byte-addressed memory.
pub struct Memory {
    bytes: Vec<(u32, u8)>,
}

impl Memory {
    /// The map from byte address to byte.
    pub closed spec fn mem_map(self) -> Map<u32, u8> {
        map_of(self.bytes@)
    }

    /// Addresses are pairwise distinct.
    pub closed spec fn wf(self) -> bool {
        unique_keys(self.bytes@)
    }

    /// Read the byte at `a`; untouched addresses read as zero.
    fn get_byte(&self, a: u32) -> (v: u8)
        requires
            self.wf(),
        ensures
            v == byte_at(self.mem_map(), a),
    {
        match find_key(&self.bytes, a) {
            Some(i) => {
                proof {
                    lemma_map_of_index(self.bytes@, i as int);
                }
                self.bytes[i].1
            }
            None => {
                proof {
                    lemma_map_of_contains(self.bytes@, a);
                }
                0
            }
        }
    }

    /// Set the byte at `a`.
    fn set_byte(&mut self, a: u32, v: u8)
        requires
            old(self).wf(),
        ensures
            final(self).wf(),
            final(self).mem_map() == old(self).mem_map().insert(a, v),
    {
        let ghost s0 = self.bytes@;
        match find_key(&self.bytes, a) {
            Some(i) => {
                self.bytes[i] = (a, v);
                proof {
                    lemma_map_of_update(s0, i as int, v);
                    assert(s0[i as int].0 == a);
                    assert(self.bytes@ == s0.update(i as int, (a, v)));
                    assert(self.mem_map() =~= old(self).mem_map().insert(a, v));
                }
            }
            None => {
                self.bytes.push((a, v));
                proof {
                    lemma_unique_push(s0, (a, v));
                    assert(self.bytes@.drop_last() =~= s0);
                    assert(self.mem_map()
                        == map_of(self.bytes@.drop_last()).insert(a, v));
                    assert(self.mem_map() =~= old(self).mem_map().insert(a, v));
                }
            }
        }
    }

    /// Read `size` bytes at `addr`, little-endian. The address must be
    /// aligned to the width.
    pub fn read(&self, addr: u32, size: MemAccessSize) -> (r: Result<u32, VMError>)
        requires
            self.wf(),
        ensures
            r == if aligned(addr, size) {
                Ok::<u32, VMError>(read_value(self.mem_map(), addr, size) as u32)
            } else {
                Err::<u32, VMError>(VMError::UnalignedMemoryRead(addr))
            },
    {
        let lanes = lanes_of_size(size);
        if addr % (lanes as u32) != 0 {
            return Err(VMError::UnalignedMemoryRead(addr));
        }
        proof {
            lemma_aligned_no_overflow(addr, size);
        }
        match size {
            MemAccessSize::Byte => Ok(self.get_byte(addr) as u32),
            MemAccessSize::HalfWord => Ok(
                self.get_byte(addr) as u32 + 0x100 * self.get_byte(addr + 1) as u32,
            ),
            MemAccessSize::Word => Ok(
                self.get_byte(addr) as u32 + 0x100 * self.get_byte(addr + 1) as u32
                    + 0x1_0000 * self.get_byte(addr + 2) as u32
                    + 0x100_0000 * self.get_byte(addr + 3) as u32,
            ),
        }
    }

    /// Write `value`, masked to the width, at `addr`, little-endian. The
    /// address must be aligned to the width.
    pub fn write(&mut self, addr: u32, size: MemAccessSize, value: u32) -> (r: Result<
        (),
        VMError,
    >)
        requires
            old(self).wf(),
        ensures
            final(self).wf(),
            r == if aligned(addr, size) {
                Ok::<(), VMError>(())
            } else {
                Err::<(), VMError>(VMError::UnalignedMemoryWrite(addr))
            },
            aligned(addr, size) ==> final(self).mem_map()
                == write_map(old(self).mem_map(), addr, size, value),
            !aligned(addr, size) ==> *final(self) == *old(self),
    {
        let lanes = lanes_of_size(size);
        if addr % (lanes as u32) != 0 {
            return Err(VMError::UnalignedMemoryWrite(addr));
        }
        proof {
            lemma_aligned_no_overflow(addr, size);
        }
        match size {
            MemAccessSize::Byte => {
                self.set_byte(addr, (value % 0x100) as u8);
            }
            MemAccessSize::HalfWord => {
                self.set_byte(addr, (value % 0x100) as u8);
                self.set_byte(addr + 1, ((value / 0x100) % 0x100) as u8);
            }
            MemAccessSize::Word => {
                self.set_byte(addr, (value % 0x100) as u8);
                self.set_byte(addr + 1, ((value / 0x100) % 0x100) as u8);
                self.set_byte(addr + 2, ((value / 0x1_0000) % 0x100) as u8);
                self.set_byte(addr + 3, (value / 0x100_0000) as u8);
                proof {
                    assert(value / 0x100_0000 < 0x100 && value / 0x100_0000
                        == (value / 0x100_0000) % 0x100) by (bit_vector);
                }
            }
        }
        Ok(())
    }
}

impl Default for Memory {
    /// An empty memory: every byte reads as zero.
    fn default() -> (m: Memory)
        ensures
            m.wf(),
            m.mem_map() == Map::<u32, u8>::empty(),
    {
        let m = Memory { bytes: Vec::new() };
        proof {
            assert(m.mem_map() =~= Map::<u32, u8>::empty());
        }
        m
    }
}

/// Read/write variable memory: the same byte map, surfacing its reads as
/// `LoadOp` records and its faults as `MemoryError`.
pub struct VariableMemory {
    mem: Memory,
}

impl VariableMemory {
    /// The map from byte address to byte.
    pub closed spec fn mem_map(self) -> Map<u32, u8> {
        self.mem.mem_map()
    }

    /// Addresses are pairwise distinct.
    pub closed spec fn wf(self) -> bool {
        self.mem.wf()
    }

    /// Read `size` bytes at `addr` as a `LoadOp`.
    pub fn read(&self, addr: u32, size: MemAccessSize) -> (r: Result<LoadOp, MemoryError>)
        requires
            self.wf(),
        ensures
            r == if aligned(addr, size) {
                Ok::<LoadOp, MemoryError>(LoadOp::Op(size, addr,
                    read_value(self.mem_map(), addr, size) as u32))
            } else {
                Err::<LoadOp, MemoryError>(MemoryError::UnalignedMemoryRead(addr))
            },
    {
        match self.mem.read(addr, size) {
            Ok(v) => Ok(LoadOp::Op(size, addr, v)),
            Err(_) => Err(MemoryError::UnalignedMemoryRead(addr)),
        }
    }

    /// Write `value`, masked to the width, at `addr`.
    pub fn write(&mut self, addr: u32, size: MemAccessSize, value: u32) -> (r: Result<
        (),
        MemoryError,
    >)
        requires
            old(self).wf(),
        ensures
            final(self).wf(),
            r == if aligned(addr, size) {
                Ok::<(), MemoryError>(())
            } else {
                Err::<(), MemoryError>(MemoryError::UnalignedMemoryWrite(addr))
            },
            aligned(addr, size) ==> final(self).mem_map()
                == write_map(old(self).mem_map(), addr, size, value),
            !aligned(addr, size) ==> *final(self) == *old(self),
    {
        match self.mem.write(addr, size, value) {
            Ok(()) => Ok(()),
            Err(_) => Err(MemoryError::UnalignedMemoryWrite(addr)),
        }
    }
}

impl Default for VariableMemory {
    /// An empty memory: every byte reads as zero.
    fn default() -> (m: VariableMemory)
        ensures
            m.wf(),
            m.mem_map() == Map::<u32, u8>::empty(),
    {
        VariableMemory { mem: Memory::default() }
    }
}

/// An aligned access never wraps past the end of the address space.
pub proof fn lemma_aligned_no_overflow(addr: u32, size: MemAccessSize)
    requires
        aligned(addr, size),
    ensures
        addr + size_lanes(size) - 1 <= u32::MAX,
{
    match size {
        MemAccessSize::Byte => {}
        MemAccessSize::HalfWord => {
            assert(addr % 2 == 0 ==> addr <= 0xffff_fffe) by (bit_vector);
        }
        MemAccessSize::Word => {
            assert(addr % 4 == 0 ==> addr <= 0xffff_fffc) by (bit_vector);
        }
    }
}

/// Law: a load of matching width at the address of a store recovers the
/// stored value masked to the width; the stored bytes recompose to the raw
/// integer for unsigned interpretation, and sign extension of what is read
/// back equals sign extension of the stored value.
pub proof fn lemma_store_load_roundtrip(m: Map<u32, u8>, addr: u32, size: MemAccessSize,
    value: u32)
    requires
        aligned(addr, size),
    ensures
        read_value(write_map(m, addr, size, value), addr, size)
            == zero_extend_value(value, size),
        crate::codec::sign_extend_value(
            read_value(write_map(m, addr, size, value), addr, size) as u32, size)
            == crate::codec::sign_extend_value(value, size),
{
    lemma_aligned_no_overflow(addr, size);
    let w = write_map(m, addr, size, value);
    match size {
        MemAccessSize::Byte => {
            assert(byte_at(w, addr) == le_byte(value, 0));
        }
        MemAccessSize::HalfWord => {
            assert(addr != addr + 1);
            assert(byte_at(w, addr) == le_byte(value, 0));
            assert(byte_at(w, (addr + 1) as u32) == le_byte(value, 1));
            assert(value % 0x100 + 0x100 * ((value / 0x100) % 0x100) == value % 0x1_0000)
                by (bit_vector);
            assert((value % 0x1_0000) % 0x1_0000 == value % 0x1_0000) by (bit_vector);
            assert(((value % 0x1_0000) as u32) % 0x1_0000 == value % 0x1_0000);
        }
        MemAccessSize::Word => {
            assert(byte_at(w, addr) == le_byte(value, 0));
            assert(byte_at(w, (addr + 1) as u32) == le_byte(value, 1));
            assert(byte_at(w, (addr + 2) as u32) == le_byte(value, 2));
            assert(byte_at(w, (addr + 3) as u32) == le_byte(value, 3));
            assert(value % 0x100 + 0x100 * ((value / 0x100) % 0x100)
                + 0x1_0000 * ((value / 0x1_0000) % 0x100)
                + 0x100_0000 * ((value / 0x100_0000) % 0x100) == value) by (bit_vector);
        }
    }
}

} // verus!
