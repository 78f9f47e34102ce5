//! The load and store instruction executors: decode operands from the
//! register file, compute the effective address, read or write memory, and
//! write results back to the processor.

use vstd::prelude::*;

use crate::codec::{sign_extend, sign_extend_value, zero_extend, zero_extend_value,
    MemAccessSize};
use crate::memory::{aligned, read_value, write_map, Memory, MemoryError, VMError,
    VariableMemory};
use crate::riscv::{lemma_reg_value_at, register_from_index, register_index, Cpu, Instruction,
    Register, RegisterFile};

verus! {

/// The register result of a load of width `size` at `rs1 + imm`, or the
/// fault: the address computation must not wrap, and the address must be
/// aligned to the width. Signed loads replicate the top bit of the loaded
/// value, unsigned loads zero-fill.
pub open spec fn load_result(
    m: Map<u32, u8>,
    rs1: u32,
    imm: u32,
    size: MemAccessSize,
    signed: bool,
) -> Result<u32, VMError> {
    if rs1 + imm > u32::MAX {
        Err(VMError::AddressCalculationOverflow)
    } else {
        let addr = (rs1 + imm) as u32;
        if !aligned(addr, size) {
            Err(VMError::UnalignedMemoryRead(addr))
        } else if signed {
            Ok(sign_extend_value(read_value(m, addr, size) as u32, size) as u32)
        } else {
            Ok(zero_extend_value(read_value(m, addr, size) as u32, size) as u32)
        }
    }
}

/// The effective address of a store of width `size` at `rs1 + imm`, or the
/// fault.
pub open spec fn store_address(rs1: u32, imm: u32, size: MemAccessSize) -> Result<u32, VMError> {
    if rs1 + imm > u32::MAX {
        Err(VMError::AddressCalculationOverflow)
    } else if !aligned((rs1 + imm) as u32, size) {
        Err(VMError::UnalignedMemoryWrite((rs1 + imm) as u32))
    } else {
        Ok((rs1 + imm) as u32)
    }
}

/// Load byte, sign-extended.
pub struct LbInstruction {
    /// Destination register and the value to write back.
    pub rd: (Register, u32),
    /// Address base operand value.
    pub rs1: u32,
    /// Immediate offset.
    pub imm: u32,
}

/// Load byte, zero-extended.
pub struct LbuInstruction {
    /// Destination register and the value to write back.
    pub rd: (Register, u32),
    /// Address base operand value.
    pub rs1: u32,
    /// Immediate offset.
    pub imm: u32,
}

/// Store byte.
pub struct SbInstruction {
    /// Address base operand value.
    pub rs1: u32,
    /// Value operand: the register whose low byte is stored.
    pub rs2: u32,
    /// Immediate offset.
    pub imm: u32,
}

/// Store word.
pub struct SwInstruction {
    /// Value operand: the register whose word is stored.
    pub rd: u32,
    /// Address base operand value.
    pub rs1: u32,
    /// Immediate offset.
    pub imm: u32,
}

impl LbInstruction {
    /// Read the operands out of the register file.
    pub fn decode(ins: &Instruction, registers: &RegisterFile) -> (s: LbInstruction)
        requires
            registers.wf(),
            ins.op_a < 32,
            ins.op_b < 32,
        ensures
            register_index(s.rd.0) == ins.op_a,
            s.rd.1 == 0,
            s.rs1 == registers.reg_value_at(ins.op_b as int),
            s.imm == ins.op_c,
    {
        let rd = register_from_index(ins.op_a);
        let base = register_from_index(ins.op_b);
        let rs1 = registers.read(base);
        proof {
            lemma_reg_value_at(*registers, base);
        }
        LbInstruction { rd: (rd, 0), rs1, imm: ins.op_c }
    }

    /// Read the byte at `rs1 + imm` and sign-extend it into the pending
    /// destination value.
    pub fn memory_read(&mut self, memory: &Memory) -> (r: Result<u32, VMError>)
        requires
            memory.wf(),
        ensures
            r == load_result(memory.mem_map(), old(self).rs1, old(self).imm,
                MemAccessSize::Byte, true),
            final(self).rs1 == old(self).rs1,
            final(self).imm == old(self).imm,
            final(self).rd.0 == old(self).rd.0,
            r is Ok ==> final(self).rd.1 == r->Ok_0,
            r is Err ==> final(self).rd.1 == old(self).rd.1,
    {
        let addr = match self.rs1.checked_add(self.imm) {
            Some(a) => a,
            None => {
                return Err(VMError::AddressCalculationOverflow);
            }
        };
        match memory.read(addr, MemAccessSize::Byte) {
            Ok(v) => {
                let ext = sign_extend(v, MemAccessSize::Byte);
                self.rd.1 = ext;
                Ok(ext)
            }
            Err(e) => Err(e),
        }
    }

    /// Write the loaded value into the destination register.
    pub fn write_back(&self, cpu: &mut Cpu) -> (r: Option<u32>)
        requires
            old(cpu).registers.wf(),
        ensures
            final(cpu).registers.wf(),
            final(cpu).registers.reg_value(self.rd.0)
                == if self.rd.0 == Register::X0 { 0u32 } else { self.rd.1 },
            forall|r2: Register| r2 != self.rd.0
                ==> final(cpu).registers.reg_value(r2) == old(cpu).registers.reg_value(r2),
            r == Some(self.rd.1),
    {
        cpu.registers.write(self.rd.0, self.rd.1);
        Some(self.rd.1)
    }
}

impl LbuInstruction {
    /// Read the operands out of the register file.
    pub fn decode(ins: &Instruction, registers: &RegisterFile) -> (s: LbuInstruction)
        requires
            registers.wf(),
            ins.op_a < 32,
            ins.op_b < 32,
        ensures
            register_index(s.rd.0) == ins.op_a,
            s.rd.1 == 0,
            s.rs1 == registers.reg_value_at(ins.op_b as int),
            s.imm == ins.op_c,
    {
        let rd = register_from_index(ins.op_a);
        let base = register_from_index(ins.op_b);
        let rs1 = registers.read(base);
        proof {
            lemma_reg_value_at(*registers, base);
        }
        LbuInstruction { rd: (rd, 0), rs1, imm: ins.op_c }
    }

    /// Read the byte at `rs1 + imm` and zero-extend it into the pending
    /// destination value.
    pub fn memory_read(&mut self, memory: &Memory) -> (r: Result<u32, VMError>)
        requires
            memory.wf(),
        ensures
            r == load_result(memory.mem_map(), old(self).rs1, old(self).imm,
                MemAccessSize::Byte, false),
            final(self).rs1 == old(self).rs1,
            final(self).imm == old(self).imm,
            final(self).rd.0 == old(self).rd.0,
            r is Ok ==> final(self).rd.1 == r->Ok_0,
            r is Err ==> final(self).rd.1 == old(self).rd.1,
    {
        let addr = match self.rs1.checked_add(self.imm) {
            Some(a) => a,
            None => {
                return Err(VMError::AddressCalculationOverflow);
            }
        };
        match memory.read(addr, MemAccessSize::Byte) {
            Ok(v) => {
                let ext = zero_extend(v, MemAccessSize::Byte);
                self.rd.1 = ext;
                Ok(ext)
            }
            Err(e) => Err(e),
        }
    }

    /// Write the loaded value into the destination register.
    pub fn write_back(&self, cpu: &mut Cpu) -> (r: Option<u32>)
        requires
            old(cpu).registers.wf(),
        ensures
            final(cpu).registers.wf(),
            final(cpu).registers.reg_value(self.rd.0)
                == if self.rd.0 == Register::X0 { 0u32 } else { self.rd.1 },
            forall|r2: Register| r2 != self.rd.0
                ==> final(cpu).registers.reg_value(r2) == old(cpu).registers.reg_value(r2),
            r == Some(self.rd.1),
    {
        cpu.registers.write(self.rd.0, self.rd.1);
        Some(self.rd.1)
    }
}

impl SbInstruction {
    /// Read the operands out of the register file.
    pub fn decode(ins: &Instruction, registers: &RegisterFile) -> (s: SbInstruction)
        requires
            registers.wf(),
            ins.op_a < 32,
            ins.op_b < 32,
        ensures
            s.rs1 == registers.reg_value_at(ins.op_a as int),
            s.rs2 == registers.reg_value_at(ins.op_b as int),
            s.imm == ins.op_c,
    {
        let base = register_from_index(ins.op_a);
        let src = register_from_index(ins.op_b);
        let rs1 = registers.read(base);
        let rs2 = registers.read(src);
        proof {
            lemma_reg_value_at(*registers, base);
            lemma_reg_value_at(*registers, src);
        }
        SbInstruction { rs1, rs2, imm: ins.op_c }
    }

    /// Store the low byte of `rs2` at `rs1 + imm`.
    pub fn memory_write(&self, memory: &mut VariableMemory) -> (r: Result<(), MemoryError>)
        requires
            old(memory).wf(),
        ensures
            final(memory).wf(),
            r == match store_address(self.rs1, self.imm, MemAccessSize::Byte) {
                Ok(_) => Ok::<(), MemoryError>(()),
                Err(VMError::AddressCalculationOverflow) => Err::<(), MemoryError>(
                    MemoryError::AddressCalculationOverflow),
                Err(_) => Err::<(), MemoryError>(MemoryError::UnalignedMemoryWrite(
                    (self.rs1 + self.imm) as u32)),
            },
            store_address(self.rs1, self.imm, MemAccessSize::Byte) matches Ok(addr)
                ==> final(memory).mem_map() == write_map(old(memory).mem_map(), addr,
                    MemAccessSize::Byte, self.rs2),
            store_address(self.rs1, self.imm, MemAccessSize::Byte) is Err
                ==> *final(memory) == *old(memory),
    {
        let addr = match self.rs1.checked_add(self.imm) {
            Some(a) => a,
            None => {
                return Err(MemoryError::AddressCalculationOverflow);
            }
        };
        memory.write(addr, MemAccessSize::Byte, self.rs2)
    }

    /// Stores write no register back.
    pub fn write_back(&self, cpu: &mut Cpu) -> (r: Option<u32>)
        ensures
            *final(cpu) == *old(cpu),
            r is None,
    {
        let _ = cpu;
        None
    }
}

impl SwInstruction {
    /// Read the operands out of the register file.
    pub fn decode(ins: &Instruction, registers: &RegisterFile) -> (s: SwInstruction)
        requires
            registers.wf(),
            ins.op_a < 32,
            ins.op_b < 32,
        ensures
            s.rs1 == registers.reg_value_at(ins.op_a as int),
            s.rd == registers.reg_value_at(ins.op_b as int),
            s.imm == ins.op_c,
    {
        let base = register_from_index(ins.op_a);
        let src = register_from_index(ins.op_b);
        let rs1 = registers.read(base);
        let rd = registers.read(src);
        proof {
            lemma_reg_value_at(*registers, base);
            lemma_reg_value_at(*registers, src);
        }
        SwInstruction { rd, rs1, imm: ins.op_c }
    }

    /// Store the word `rd` at `rs1 + imm`.
    pub fn memory_write(&self, memory: &mut Memory) -> (r: Result<(), VMError>)
        requires
            old(memory).wf(),
        ensures
            final(memory).wf(),
            r == match store_address(self.rs1, self.imm, MemAccessSize::Word) {
                Ok(_) => Ok::<(), VMError>(()),
                Err(e) => Err::<(), VMError>(e),
            },
            store_address(self.rs1, self.imm, MemAccessSize::Word) matches Ok(addr)
                ==> final(memory).mem_map() == write_map(old(memory).mem_map(), addr,
                    MemAccessSize::Word, self.rd),
            store_address(self.rs1, self.imm, MemAccessSize::Word) is Err
                ==> *final(memory) == *old(memory),
    {
        let addr = match self.rs1.checked_add(self.imm) {
            Some(a) => a,
            None => {
                return Err(VMError::AddressCalculationOverflow);
            }
        };
        memory.write(addr, MemAccessSize::Word, self.rd)
    }

    /// Stores write no register back.
    pub fn write_back(&self, cpu: &mut Cpu) -> (r: Option<u32>)
        ensures
            *final(cpu) == *old(cpu),
            r is None,
    {
        let _ = cpu;
        None
    }
}

} // verus!
