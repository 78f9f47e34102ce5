use loadstore_chip::codec::MemAccessSize;
use loadstore_chip::instructions::{LbInstruction, LbuInstruction, SbInstruction, SwInstruction};
use loadstore_chip::memory::{LoadOp, Memory, MemoryError, VMError, VariableMemory};
use loadstore_chip::riscv::{Cpu, Instruction, InstructionType, Opcode, Register};

fn setup_memory() -> Memory {
    let mut memory = Memory::default();
    memory.write(0x1000, MemAccessSize::Byte, 0xFF).unwrap();
    memory.write(0x1001, MemAccessSize::Byte, 0x80).unwrap();
    memory.write(0x1002, MemAccessSize::Byte, 0x7F).unwrap();
    memory.write(0x1003, MemAccessSize::Byte, 0x00).unwrap();
    memory
}

#[test]
fn test_lb_positive_value() {
    let mut cpu = Cpu::default();
    let memory = setup_memory();

    cpu.registers.write(Register::X1, 0x1000);

    let bare_instruction = Instruction::new(Opcode::LB, 2, 1, 2, InstructionType::IType);
    let mut instruction = LbInstruction::decode(&bare_instruction, &cpu.registers);

    instruction.memory_read(&memory).unwrap();
    instruction.write_back(&mut cpu);

    assert_eq!(cpu.registers.read(Register::X2), 0x0000007F);
}

#[test]
fn test_lb_negative_value() {
    let mut cpu = Cpu::default();
    let memory = setup_memory();

    cpu.registers.write(Register::X1, 0x1000);

    let bare_instruction = Instruction::new(Opcode::LB, 2, 1, 1, InstructionType::IType);
    let mut instruction = LbInstruction::decode(&bare_instruction, &cpu.registers);

    instruction.memory_read(&memory).unwrap();
    instruction.write_back(&mut cpu);

    assert_eq!(cpu.registers.read(Register::X2), 0xFFFFFF80); // Sign-extended -128
}

#[test]
fn test_lb_max_negative_value() {
    let mut cpu = Cpu::default();
    let memory = setup_memory();

    cpu.registers.write(Register::X1, 0x1000);

    let bare_instruction = Instruction::new(Opcode::LB, 2, 1, 0, InstructionType::IType);
    let mut instruction = LbInstruction::decode(&bare_instruction, &cpu.registers);

    instruction.memory_read(&memory).unwrap();
    instruction.write_back(&mut cpu);

    assert_eq!(cpu.registers.read(Register::X2), 0xFFFFFFFF); // Sign-extended -1
}

#[test]
fn test_lbu_positive_value() {
    let mut cpu = Cpu::default();
    let memory = setup_memory();

    cpu.registers.write(Register::X1, 0x1000);

    let bare_instruction = Instruction::new(Opcode::LBU, 2, 1, 2, InstructionType::IType);
    let mut instruction = LbuInstruction::decode(&bare_instruction, &cpu.registers);

    instruction.memory_read(&memory).unwrap();
    instruction.write_back(&mut cpu);

    assert_eq!(cpu.registers.read(Register::X2), 0x0000007F);
}

#[test]
fn test_lbu_negative_value() {
    let mut cpu = Cpu::default();
    let memory = setup_memory();

    cpu.registers.write(Register::X1, 0x1000);

    let bare_instruction = Instruction::new(Opcode::LBU, 2, 1, 1, InstructionType::IType);
    let mut instruction = LbuInstruction::decode(&bare_instruction, &cpu.registers);

    instruction.memory_read(&memory).unwrap();
    instruction.write_back(&mut cpu);

    assert_eq!(cpu.registers.read(Register::X2), 0x80); // Sign-extended -128
}

#[test]
fn test_lbu_max_negative_value() {
    let mut cpu = Cpu::default();
    let memory = setup_memory();

    cpu.registers.write(Register::X1, 0x1000);

    let bare_instruction = Instruction::new(Opcode::LBU, 2, 1, 0, InstructionType::IType);
    let mut instruction = LbuInstruction::decode(&bare_instruction, &cpu.registers);

    instruction.memory_read(&memory).unwrap();
    instruction.write_back(&mut cpu);

    assert_eq!(cpu.registers.read(Register::X2), 0xFF); // Sign-extended -1
}

fn setup_variable_memory() -> VariableMemory {
    VariableMemory::default()
}

#[test]
fn test_sb_positive_value() {
    let mut cpu = Cpu::default();
    let mut memory = setup_variable_memory();

    cpu.registers.write(Register::X1, 0x1000);
    cpu.registers.write(Register::X2, 0x7F);

    let bare_instruction = Instruction::new_ir(Opcode::SB, 1, 2, 0);
    let instruction = SbInstruction::decode(&bare_instruction, &cpu.registers);

    instruction.memory_write(&mut memory).unwrap();
    let res = instruction.write_back(&mut cpu);

    assert_eq!(res, None);
    assert_eq!(
        memory.read(0x1000, MemAccessSize::Byte).unwrap(),
        LoadOp::Op(MemAccessSize::Byte, 0x1000, 0x7F)
    );
}

#[test]
fn test_sb_negative_value() {
    let mut cpu = Cpu::default();
    let mut memory = setup_variable_memory();

    cpu.registers.write(Register::X1, 0x1000);
    cpu.registers.write(Register::X2, 0xFFFFFF80); // -128 in two's complement

    let bare_instruction = Instruction::new_ir(Opcode::SB, 1, 2, 1);
    let instruction = SbInstruction::decode(&bare_instruction, &cpu.registers);

    instruction.memory_write(&mut memory).unwrap();
    let res = instruction.write_back(&mut cpu);

    assert_eq!(res, None);
    assert_eq!(
        memory.read(0x1001, MemAccessSize::Byte).unwrap(),
        LoadOp::Op(MemAccessSize::Byte, 0x1001, 0x80)
    );
}

#[test]
fn test_sb_max_negative_value() {
    let mut cpu = Cpu::default();
    let mut memory = setup_variable_memory();

    cpu.registers.write(Register::X1, 0x1000);
    cpu.registers.write(Register::X2, 0xFFFFFFFF); // -1 in two's complement

    let bare_instruction = Instruction::new_ir(Opcode::SB, 1, 2, 2);
    let instruction = SbInstruction::decode(&bare_instruction, &cpu.registers);

    instruction.memory_write(&mut memory).unwrap();
    let res = instruction.write_back(&mut cpu);

    assert_eq!(res, None);
    assert_eq!(
        memory.read(0x1002, MemAccessSize::Byte).unwrap(),
        LoadOp::Op(MemAccessSize::Byte, 0x1002, 0xFF)
    );
}

#[test]
fn test_sb_overflow() {
    let mut cpu = Cpu::default();
    let mut memory = setup_variable_memory();

    cpu.registers.write(Register::X1, u32::MAX);
    cpu.registers.write(Register::X2, 0xAA);

    let bare_instruction = Instruction::new_ir(Opcode::SB, 1, 2, 1);
    let instruction = SbInstruction::decode(&bare_instruction, &cpu.registers);

    let result = instruction.memory_write(&mut memory);
    assert!(result.is_err());
    assert!(matches!(
        result.unwrap_err(),
        MemoryError::AddressCalculationOverflow
    ));
}

#[test]
fn test_sw_positive_value() {
    let mut cpu = Cpu::default();
    let mut memory = Memory::default();

    cpu.registers.write(Register::X1, 0x1000);
    cpu.registers.write(Register::X2, 0x7FFFFFFF);

    let bare_instruction = Instruction::new(Opcode::SW, 2, 1, 0, InstructionType::SType);
    let instruction = SwInstruction::decode(&bare_instruction, &cpu.registers);

    instruction.memory_write(&mut memory).unwrap();

    assert_eq!(
        memory.read(0x1000, MemAccessSize::Word).unwrap(),
        0x7FFFFFFF
    );
}

#[test]
fn test_sw_negative_value() {
    let mut cpu = Cpu::default();
    let mut memory = Memory::default();

    cpu.registers.write(Register::X1, 0x1000);
    cpu.registers.write(Register::X2, 0x80000000); // -2147483648 in two's complement

    let bare_instruction = Instruction::new(Opcode::SW, 2, 1, 4, InstructionType::SType);
    let instruction = SwInstruction::decode(&bare_instruction, &cpu.registers);

    instruction.memory_write(&mut memory).unwrap();

    assert_eq!(
        memory.read(0x1004, MemAccessSize::Word).unwrap(),
        0x80000000
    );
}

#[test]
fn test_sw_unaligned_address() {
    let mut cpu = Cpu::default();
    let mut memory = Memory::default();

    cpu.registers.write(Register::X1, 0x1001); // Unaligned address
    cpu.registers.write(Register::X2, 0xABCDEF01);

    let bare_instruction = Instruction::new(Opcode::SW, 2, 1, 0, InstructionType::SType);
    let instruction = SwInstruction::decode(&bare_instruction, &cpu.registers);

    let result = instruction.memory_write(&mut memory);
    assert!(result.is_err());
    assert!(matches!(
        result.unwrap_err(),
        VMError::UnalignedMemoryWrite(0x1001)
    ));
}

#[test]
fn test_sw_overflow() {
    let mut cpu = Cpu::default();
    let mut memory = Memory::default();

    cpu.registers.write(Register::X1, u32::MAX);
    cpu.registers.write(Register::X2, 0xDEADBEEF);

    let bare_instruction = Instruction::new(Opcode::SW, 2, 1, 1, InstructionType::SType);
    let instruction = SwInstruction::decode(&bare_instruction, &cpu.registers);

    let result = instruction.memory_write(&mut memory);
    assert!(result.is_err());
    assert!(matches!(
        result.unwrap_err(),
        VMError::AddressCalculationOverflow
    ));
}
