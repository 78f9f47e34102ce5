//! RISC-V instruction vocabulary: the eight memory opcodes the chip handles,
//! the non-memory opcodes that may appear in a trace row, registers, and the
//! decoded instruction form the executors consume.

use vstd::prelude::*;

use crate::codec::MemAccessSize;

verus! {

/// Built-in opcodes. The chip constrains the eight memory opcodes; any other
/// opcode leaves the chip's columns untouched.
#[derive(Clone, Copy, Debug, PartialEq, Eq, Structural)]
pub enum Opcode {
    /// Store byte.
    SB,
    /// Store half-word.
    SH,
    /// Store word.
    SW,
    /// Load byte, sign-extended.
    LB,
    /// Load half-word, sign-extended.
    LH,
    /// Load byte, zero-extended.
    LBU,
    /// Load half-word, zero-extended.
    LHU,
    /// Load word.
    LW,
    /// Add immediate (handled by another chip).
    ADDI,
    /// Shift left logical immediate (handled by another chip).
    SLLI,
    /// Add (handled by another chip).
    ADD,
    /// Branch on equal (handled by another chip).
    BEQ,
    /// Unimplemented filler instruction.
    UNIMPL,
}

/// The opcode reads or writes memory.
pub open spec fn is_memory_opcode(op: Opcode) -> bool {
    match op {
        Opcode::SB | Opcode::SH | Opcode::SW | Opcode::LB | Opcode::LH | Opcode::LBU
            | Opcode::LHU | Opcode::LW => true,
        _ => false,
    }
}

/// The opcode reads memory into a register.
pub open spec fn is_load_opcode(op: Opcode) -> bool {
    match op {
        Opcode::LB | Opcode::LH | Opcode::LBU | Opcode::LHU | Opcode::LW => true,
        _ => false,
    }
}

/// Access width of a memory opcode.
pub open spec fn opcode_size(op: Opcode) -> MemAccessSize {
    match op {
        Opcode::SB | Opcode::LB | Opcode::LBU => MemAccessSize::Byte,
        Opcode::SH | Opcode::LH | Opcode::LHU => MemAccessSize::HalfWord,
        _ => MemAccessSize::Word,
    }
}

/// The opcode reads or writes memory.
pub fn opcode_is_memory(op: Opcode) -> (r: bool)
    ensures
        r == is_memory_opcode(op),
{
    match op {
        Opcode::SB | Opcode::SH | Opcode::SW | Opcode::LB | Opcode::LH | Opcode::LBU
            | Opcode::LHU | Opcode::LW => true,
        _ => false,
    }
}

/// The opcode reads memory into a register.
pub fn opcode_is_load(op: Opcode) -> (r: bool)
    ensures
        r == is_load_opcode(op),
{
    match op {
        Opcode::LB | Opcode::LH | Opcode::LBU | Opcode::LHU | Opcode::LW => true,
        _ => false,
    }
}

/// Access width of a memory opcode.
pub fn opcode_access_size(op: Opcode) -> (s: MemAccessSize)
    ensures
        s == opcode_size(op),
{
    match op {
        Opcode::SB | Opcode::LB | Opcode::LBU => MemAccessSize::Byte,
        Opcode::SH | Opcode::LH | Opcode::LHU => MemAccessSize::HalfWord,
        _ => MemAccessSize::Word,
    }
}

/// Encoding families of the RISC-V base instruction set.
#[derive(Clone, Copy, Debug, PartialEq, Eq, Structural)]
pub enum InstructionType {
    RType,
    IType,
    SType,
    BType,
    UType,
    JType,
}

/// A decoded instruction: opcode and three operand fields. For loads,
/// `op_a` names the destination register and `op_b` the address base
/// register; for stores, `op_a` names the address base register and `op_b`
/// the stored register. `op_c` is the immediate.
#[derive(Clone, Copy, Debug, PartialEq, Eq, Structural)]
pub struct Instruction {
    /// The opcode.
    pub opcode: Opcode,
    /// First operand field.
    pub op_a: u8,
    /// Second operand field.
    pub op_b: u8,
    /// Immediate field.
    pub op_c: u32,
    /// Encoding family.
    pub instruction_type: InstructionType,
}

impl Instruction {
    /// Build an instruction in assembler operand order: for stores the first
    /// operand names the stored register and the second the address base, as
    /// `sw rs2, imm(rs1)` writes them.
    pub fn new(opcode: Opcode, op_a: u8, op_b: u8, op_c: u32, instruction_type: InstructionType)
        -> (ins: Instruction)
        ensures
            ins.opcode == opcode,
            ins.instruction_type == instruction_type,
            instruction_type == InstructionType::SType ==> ins.op_a == op_b && ins.op_b == op_a,
            instruction_type != InstructionType::SType ==> ins.op_a == op_a && ins.op_b == op_b,
            ins.op_c == op_c,
    {
        match instruction_type {
            InstructionType::SType => Instruction {
                opcode,
                op_a: op_b,
                op_b: op_a,
                op_c,
                instruction_type,
            },
            _ => Instruction { opcode, op_a, op_b, op_c, instruction_type },
        }
    }

    /// Build an instruction from intermediate-representation operand order:
    /// the fields are taken as given.
    pub fn new_ir(opcode: Opcode, op_a: u8, op_b: u8, op_c: u32) -> (ins: Instruction)
        ensures
            ins.opcode == opcode,
            ins.op_a == op_a,
            ins.op_b == op_b,
            ins.op_c == op_c,
    {
        let instruction_type = match opcode {
            Opcode::SB | Opcode::SH | Opcode::SW => InstructionType::SType,
            Opcode::BEQ => InstructionType::BType,
            Opcode::ADD => InstructionType::RType,
            _ => InstructionType::IType,
        };
        Instruction { opcode, op_a, op_b, op_c, instruction_type }
    }
}

/// The thirty-two general-purpose registers. `X0` is hard-wired to zero.
#[derive(Clone, Copy, Debug, PartialEq, Eq, Structural)]
pub enum Register {
    X0,
    X1,
    X2,
    X3,
    X4,
    X5,
    X6,
    X7,
    X8,
    X9,
    X10,
    X11,
    X12,
    X13,
    X14,
    X15,
    X16,
    X17,
    X18,
    X19,
    X20,
    X21,
    X22,
    X23,
    X24,
    X25,
    X26,
    X27,
    X28,
    X29,
    X30,
    X31,
}

/// The register's index in the register file.
pub open spec fn register_index(r: Register) -> int {
    match r {
        Register::X0 => 0,
        Register::X1 => 1,
        Register::X2 => 2,
        Register::X3 => 3,
        Register::X4 => 4,
        Register::X5 => 5,
        Register::X6 => 6,
        Register::X7 => 7,
        Register::X8 => 8,
        Register::X9 => 9,
        Register::X10 => 10,
        Register::X11 => 11,
        Register::X12 => 12,
        Register::X13 => 13,
        Register::X14 => 14,
        Register::X15 => 15,
        Register::X16 => 16,
        Register::X17 => 17,
        Register::X18 => 18,
        Register::X19 => 19,
        Register::X20 => 20,
        Register::X21 => 21,
        Register::X22 => 22,
        Register::X23 => 23,
        Register::X24 => 24,
        Register::X25 => 25,
        Register::X26 => 26,
        Register::X27 => 27,
        Register::X28 => 28,
        Register::X29 => 29,
        Register::X30 => 30,
        Register::X31 => 31,
    }
}

/// The register's index in the register file.
pub fn register_to_index(r: Register) -> (i: usize)
    ensures
        i == register_index(r),
{
    match r {
        Register::X0 => 0,
        Register::X1 => 1,
        Register::X2 => 2,
        Register::X3 => 3,
        Register::X4 => 4,
        Register::X5 => 5,
        Register::X6 => 6,
        Register::X7 => 7,
        Register::X8 => 8,
        Register::X9 => 9,
        Register::X10 => 10,
        Register::X11 => 11,
        Register::X12 => 12,
        Register::X13 => 13,
        Register::X14 => 14,
        Register::X15 => 15,
        Register::X16 => 16,
        Register::X17 => 17,
        Register::X18 => 18,
        Register::X19 => 19,
        Register::X20 => 20,
        Register::X21 => 21,
        Register::X22 => 22,
        Register::X23 => 23,
        Register::X24 => 24,
        Register::X25 => 25,
        Register::X26 => 26,
        Register::X27 => 27,
        Register::X28 => 28,
        Register::X29 => 29,
        Register::X30 => 30,
        Register::X31 => 31,
    }
}

/// The register a five-bit operand field names.
pub fn register_from_index(i: u8) -> (r: Register)
    requires
        i < 32,
    ensures
        register_index(r) == i,
{
    if i == 0 { Register::X0 }
    else if i == 1 { Register::X1 }
    else if i == 2 { Register::X2 }
    else if i == 3 { Register::X3 }
    else if i == 4 { Register::X4 }
    else if i == 5 { Register::X5 }
    else if i == 6 { Register::X6 }
    else if i == 7 { Register::X7 }
    else if i == 8 { Register::X8 }
    else if i == 9 { Register::X9 }
    else if i == 10 { Register::X10 }
    else if i == 11 { Register::X11 }
    else if i == 12 { Register::X12 }
    else if i == 13 { Register::X13 }
    else if i == 14 { Register::X14 }
    else if i == 15 { Register::X15 }
    else if i == 16 { Register::X16 }
    else if i == 17 { Register::X17 }
    else if i == 18 { Register::X18 }
    else if i == 19 { Register::X19 }
    else if i == 20 { Register::X20 }
    else if i == 21 { Register::X21 }
    else if i == 22 { Register::X22 }
    else if i == 23 { Register::X23 }
    else if i == 24 { Register::X24 }
    else if i == 25 { Register::X25 }
    else if i == 26 { Register::X26 }
    else if i == 27 { Register::X27 }
    else if i == 28 { Register::X28 }
    else if i == 29 { Register::X29 }
    else if i == 30 { Register::X30 }
    else { Register::X31 }
}

/// The thirty-two registers' values. Reads of `X0` always yield zero.
pub struct RegisterFile {
    regs: Vec<u32>,
}

impl RegisterFile {
    /// The file holds one value per register.
    pub closed spec fn wf(self) -> bool {
        self.regs@.len() == 32
    }

    /// The value a read of `r` yields.
    pub closed spec fn reg_value(self, r: Register) -> u32 {
        if r == Register::X0 {
            0
        } else {
            self.regs@[register_index(r)]
        }
    }

    /// The value a read of the register with index `i` yields.
    pub closed spec fn reg_value_at(self, i: int) -> u32 {
        if i == 0 {
            0
        } else {
            self.regs@[i]
        }
    }

    /// Read a register; `X0` reads as zero.
    pub fn read(&self, r: Register) -> (v: u32)
        requires
            self.wf(),
        ensures
            v == self.reg_value(r),
    {
        if let Register::X0 = r {
            return 0;
        }
        let i = register_to_index(r);
        self.regs[i]
    }

    /// Write a register; writes to `X0` are discarded.
    pub fn write(&mut self, r: Register, v: u32)
        requires
            old(self).wf(),
        ensures
            final(self).wf(),
            final(self).reg_value(r) == if r == Register::X0 { 0u32 } else { v },
            forall|r2: Register| r2 != r
                ==> final(self).reg_value(r2) == old(self).reg_value(r2),
    {
        if let Register::X0 = r {
            return;
        }
        let i = register_to_index(r);
        self.regs[i] = v;
        proof {
            assert forall|r2: Register| r2 != r implies final(self).reg_value(r2)
                == old(self).reg_value(r2) by {
                if r2 != Register::X0 {
                    assert(register_index(r2) != register_index(r));
                }
            }
        }
    }
}

impl Default for RegisterFile {
    /// All registers zero.
    fn default() -> (rf: RegisterFile)
        ensures
            rf.wf(),
            forall|r: Register| rf.reg_value(r) == 0,
    {
        let mut regs: Vec<u32> = Vec::new();
        let mut i: usize = 0;
        while i < 32
            invariant
                regs@.len() == i,
                i <= 32,
                forall|k: int| 0 <= k < i ==> regs@[k] == 0,
            decreases 32 - i,
        {
            regs.push(0);
            i += 1;
        }
        RegisterFile { regs }
    }
}

/// Reading a register yields the value at its index.
pub proof fn lemma_reg_value_at(rf: RegisterFile, r: Register)
    ensures
        rf.reg_value(r) == rf.reg_value_at(register_index(r)),
{
}

/// The processor state the executors touch: its register file.
pub struct Cpu {
    /// The general-purpose registers.
    pub registers: RegisterFile,
}

impl Default for Cpu {
    /// A processor with all registers zero.
    fn default() -> (cpu: Cpu)
        ensures
            cpu.registers.wf(),
            forall|r: Register| cpu.registers.reg_value(r) == 0,
    {
        Cpu { registers: RegisterFile::default() }
    }
}

} // verus!
