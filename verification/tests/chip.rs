use loadstore_chip::chip::{ChipError, ExecutionStep, LoadStoreChip, MemoryRecord, SideNote};
use loadstore_chip::codec::MemAccessSize;
use loadstore_chip::constraints::{eval_constraints, eval_lookup_constraints};
use loadstore_chip::pubio::{PublicInputMap, PublicOutputSet};
use loadstore_chip::riscv::Opcode;
use loadstore_chip::trace::{Column, ProgramColumn, ProgramTracesBuilder, TracesBuilder};

fn empty_side_note() -> SideNote {
    SideNote::new(PublicInputMap::new(), PublicOutputSet::new())
}

fn plain_step(opcode: Opcode) -> ExecutionStep {
    ExecutionStep {
        opcode,
        value_a: 0,
        value_b: 0,
        offset: 0,
        result: None,
        memory_records: Vec::new(),
    }
}

fn store_step(
    opcode: Opcode,
    base: u32,
    offset: u32,
    value: u32,
    prev_value: u32,
    ts: u32,
    prev_ts: u32,
) -> ExecutionStep {
    let size = match opcode {
        Opcode::SB => MemAccessSize::Byte,
        Opcode::SH => MemAccessSize::HalfWord,
        _ => MemAccessSize::Word,
    };
    ExecutionStep {
        opcode,
        value_a: base,
        value_b: value,
        offset,
        result: None,
        memory_records: vec![MemoryRecord {
            address: base.wrapping_add(offset),
            size,
            value,
            prev_value: Some(prev_value),
            timestamp: ts,
            prev_timestamp: prev_ts,
        }],
    }
}

fn load_step(
    opcode: Opcode,
    base: u32,
    offset: u32,
    value: u32,
    result: u32,
    ts: u32,
    prev_ts: u32,
) -> ExecutionStep {
    let size = match opcode {
        Opcode::LB | Opcode::LBU => MemAccessSize::Byte,
        Opcode::LH | Opcode::LHU => MemAccessSize::HalfWord,
        _ => MemAccessSize::Word,
    };
    ExecutionStep {
        opcode,
        value_a: 0,
        value_b: base,
        offset,
        result: Some(result),
        memory_records: vec![MemoryRecord {
            address: base.wrapping_add(offset),
            size,
            value,
            prev_value: None,
            timestamp: ts,
            prev_timestamp: prev_ts,
        }],
    }
}

fn value_a_word(traces: &TracesBuilder, row: usize) -> u32 {
    let limbs = traces.column(row, Column::ValueA);
    let bytes = limbs.map(|v| u8::try_from(v).expect("limb value out of bounds"));
    u32::from_le_bytes(bytes)
}

/// A basic block that stores the byte 128 at `A`, `A + 10` and `A + 20` and
/// loads it back through all five load opcodes, as the trace populator sees
/// it row by row.
#[test]
fn test_store_load_block_trace() {
    let a: u32 = 0x81008;
    let mut traces = TracesBuilder::new(5);
    let mut program_traces = ProgramTracesBuilder::new(5);
    let mut side_note = empty_side_note();

    let mut steps: Vec<Option<ExecutionStep>> = vec![
        Some(plain_step(Opcode::ADDI)),
        Some(plain_step(Opcode::SLLI)),
        Some(plain_step(Opcode::ADD)),
        Some(plain_step(Opcode::ADDI)),
        Some(store_step(Opcode::SB, a, 0, 128, 0, 5, 0)),
        Some(store_step(Opcode::SH, a, 10, 128, 0, 6, 0)),
        Some(store_step(Opcode::SW, a, 20, 128, 0, 7, 0)),
        Some(load_step(Opcode::LB, a, 0, 128, 0xFFFFFF80, 8, 5)),
        Some(plain_step(Opcode::ADDI)),
        Some(plain_step(Opcode::BEQ)),
        Some(load_step(Opcode::LBU, a, 0, 128, 128, 11, 8)),
        Some(plain_step(Opcode::BEQ)),
        Some(load_step(Opcode::LH, a, 10, 128, 128, 13, 6)),
        Some(plain_step(Opcode::BEQ)),
        Some(load_step(Opcode::LHU, a, 10, 128, 128, 15, 13)),
        Some(plain_step(Opcode::BEQ)),
        Some(load_step(Opcode::LW, a, 20, 128, 128, 17, 7)),
        Some(plain_step(Opcode::BEQ)),
    ];
    while steps.len() < 32 {
        steps.push(None);
    }

    for (row_idx, step) in steps.iter().enumerate() {
        LoadStoreChip::fill_main_trace(
            &mut traces,
            row_idx,
            step,
            &mut program_traces,
            &mut side_note,
        )
        .unwrap();
    }

    assert_eq!(value_a_word(&traces, 7), 0xffffff80);
    assert_eq!(value_a_word(&traces, 10), 128);
    assert_eq!(value_a_word(&traces, 12), 128);
    assert_eq!(value_a_word(&traces, 14), 128);
    assert_eq!(value_a_word(&traces, 16), 128);

    // The computed base address of the first store.
    let base = traces.column(4, Column::RamBaseAddr);
    assert_eq!(base, [0x08, 0x10, 0x08, 0x00]);

    // Every touched address is finalized with its last access.
    // Insertion order: A, A+10, A+11, A+20 .. A+23.
    let addr0 = traces.column(0, Column::RamInitFinalAddr);
    assert_eq!(addr0, [0x08, 0x10, 0x08, 0x00]);
    assert_eq!(traces.cell_at(0, Column::RamInitFinalFlag, 0), 1);
    assert_eq!(traces.cell_at(0, Column::RamFinalCounter, 0), 11);
    assert_eq!(traces.cell_at(0, Column::RamFinalValue, 0), 128);
    assert_eq!(traces.cell_at(1, Column::RamFinalCounter, 0), 15);
    assert_eq!(traces.cell_at(1, Column::RamFinalValue, 0), 128);
    assert_eq!(traces.cell_at(3, Column::RamFinalCounter, 0), 17);
    assert_eq!(traces.cell_at(3, Column::RamFinalValue, 0), 128);
    assert_eq!(traces.cell_at(4, Column::RamFinalValue, 0), 0);

    // All seven constraints vanish on every row.
    for row_idx in 0..32 {
        let values = eval_constraints(&traces, row_idx);
        assert_eq!(values, vec![0, 0, 0, 0, 0, 0, 0]);
    }

    // Lane accessed flags follow the access width.
    assert_eq!(traces.cell_at(4, Column::Ram1Accessed, 0), 1);
    assert_eq!(traces.cell_at(4, Column::Ram2Accessed, 0), 0);
    assert_eq!(traces.cell_at(5, Column::Ram2Accessed, 0), 1);
    assert_eq!(traces.cell_at(5, Column::Ram3Accessed, 0), 0);
    assert_eq!(traces.cell_at(6, Column::Ram3Accessed, 0), 1);
    assert_eq!(traces.cell_at(6, Column::Ram4Accessed, 0), 1);
}

/// Public input and output entries are consumed exactly once while the
/// terminal rows are written.
#[test]
fn test_public_io_reconciliation() {
    let mut public_input = PublicInputMap::new();
    public_input.insert(0x2000, 0);
    let mut public_output = PublicOutputSet::new();
    public_output.insert(0x2000);
    let mut side_note = SideNote::new(public_input, public_output);

    let mut traces = TracesBuilder::new(1);
    let mut program_traces = ProgramTracesBuilder::new(1);

    let step = Some(store_step(Opcode::SB, 0x2000, 0, 0xAB, 0, 1, 0));
    LoadStoreChip::fill_main_trace(&mut traces, 0, &step, &mut program_traces, &mut side_note)
        .unwrap();
    let none_step: Option<ExecutionStep> = None;
    LoadStoreChip::fill_main_trace(
        &mut traces,
        1,
        &none_step,
        &mut program_traces,
        &mut side_note,
    )
    .unwrap();

    assert_eq!(program_traces.cell_at(0, ProgramColumn::PublicInputFlag, 0), 1);
    assert_eq!(program_traces.cell_at(0, ProgramColumn::PublicInputValue, 0), 0);
    assert_eq!(program_traces.cell_at(0, ProgramColumn::PublicOutputFlag, 0), 1);
    assert_eq!(program_traces.cell_at(0, ProgramColumn::PublicOutputValue, 0), 0xAB);
    assert_eq!(program_traces.cell_at(0, ProgramColumn::PublicInputOutputAddr, 0), 0x00);
    assert_eq!(program_traces.cell_at(0, ProgramColumn::PublicInputOutputAddr, 1), 0x20);
}

#[test]
fn test_step_timestamp_mismatch() {
    let mut traces = TracesBuilder::new(2);
    let mut side_note = empty_side_note();
    let mut step = store_step(Opcode::SB, 0x100, 0, 1, 0, 1, 0);
    step.memory_records[0].timestamp = 2;
    let r = LoadStoreChip::fill_main_trace_step(&mut traces, 0, &Some(step), &mut side_note);
    assert_eq!(r, Err(ChipError::TimestampMismatch));
}

#[test]
fn test_step_address_mismatch() {
    let mut traces = TracesBuilder::new(2);
    let mut side_note = empty_side_note();
    let mut step = store_step(Opcode::SB, 0x100, 4, 1, 0, 1, 0);
    step.memory_records[0].address = 0x100;
    let r = LoadStoreChip::fill_main_trace_step(&mut traces, 0, &Some(step), &mut side_note);
    assert_eq!(r, Err(ChipError::AddressMismatch));
}

#[test]
fn test_step_value_out_of_width() {
    let mut traces = TracesBuilder::new(2);
    let mut side_note = empty_side_note();
    let step = store_step(Opcode::SB, 0x100, 0, 0x100, 0, 1, 0);
    let r = LoadStoreChip::fill_main_trace_step(&mut traces, 0, &Some(step), &mut side_note);
    assert_eq!(r, Err(ChipError::ValueOutOfWidth));
}

#[test]
fn test_step_missing_record() {
    let mut traces = TracesBuilder::new(2);
    let mut side_note = empty_side_note();
    let mut step = plain_step(Opcode::SB);
    step.value_a = 0x100;
    let r = LoadStoreChip::fill_main_trace_step(&mut traces, 0, &Some(step), &mut side_note);
    assert_eq!(r, Err(ChipError::OpcodeMismatch));
}

#[test]
fn test_step_memory_log_mismatch() {
    let mut traces = TracesBuilder::new(2);
    let mut side_note = empty_side_note();
    // No address was ever touched, yet the record claims a previous access.
    let step = store_step(Opcode::SB, 0x100, 0, 1, 0, 1, 3);
    let r = LoadStoreChip::fill_main_trace_step(&mut traces, 0, &Some(step), &mut side_note);
    assert_eq!(r, Err(ChipError::MemoryLogMismatch));
}

/// A half-word access at the last byte address would wrap back to address
/// zero and is rejected.
#[test]
fn test_step_address_overflow() {
    let mut traces = TracesBuilder::new(2);
    let mut side_note = empty_side_note();
    let step = store_step(Opcode::SH, 0xFFFFFFFF, 0, 1, 0, 1, 0);
    let r = LoadStoreChip::fill_main_trace_step(&mut traces, 0, &Some(step), &mut side_note);
    assert_eq!(r, Err(ChipError::AddressOverflow));
}

/// A previous timestamp at or above the field modulus cannot be committed.
#[test]
fn test_step_timestamp_field_overflow() {
    let mut traces = TracesBuilder::new(2);
    let mut side_note = empty_side_note();
    let step = store_step(Opcode::SB, 0x100, 0, 1, 0, 1, 0x7FFFFFFF);
    let r = LoadStoreChip::fill_main_trace_step(&mut traces, 0, &Some(step), &mut side_note);
    assert_eq!(r, Err(ChipError::TimestampFieldOverflow));
}

/// A word store touches four byte addresses, more than a one-row trace can
/// finalize.
#[test]
fn test_finish_log_size_overflow() {
    let mut traces = TracesBuilder::new(0);
    let mut program_traces = ProgramTracesBuilder::new(0);
    let mut side_note = empty_side_note();
    let step = Some(store_step(Opcode::SW, 0x100, 0, 1, 0, 1, 0));
    let r = LoadStoreChip::fill_main_trace(&mut traces, 0, &step, &mut program_traces,
        &mut side_note);
    assert_eq!(r, Err(ChipError::LogSizeOverflow));
}

#[test]
fn test_unreconciled_public_input() {
    let mut public_input = PublicInputMap::new();
    public_input.insert(0x3000, 7);
    let mut side_note = SideNote::new(public_input, PublicOutputSet::new());
    let mut traces = TracesBuilder::new(0);
    let mut program_traces = ProgramTracesBuilder::new(0);
    let none_step: Option<ExecutionStep> = None;
    let r = LoadStoreChip::fill_main_trace(&mut traces, 0, &none_step, &mut program_traces,
        &mut side_note);
    assert_eq!(r, Err(ChipError::UnreconciledPublicInput));
}

#[test]
fn test_unreconciled_public_output() {
    let mut public_output = PublicOutputSet::new();
    public_output.insert(0x3000);
    let mut side_note = SideNote::new(PublicInputMap::new(), public_output);
    let mut traces = TracesBuilder::new(0);
    let mut program_traces = ProgramTracesBuilder::new(0);
    let none_step: Option<ExecutionStep> = None;
    let r = LoadStoreChip::fill_main_trace(&mut traces, 0, &none_step, &mut program_traces,
        &mut side_note);
    assert_eq!(r, Err(ChipError::UnreconciledPublicOutput));
}

/// The same load served twice chains its previous timestamps.
#[test]
fn test_memory_log_chains_accesses() {
    let mut traces = TracesBuilder::new(2);
    let mut side_note = empty_side_note();
    let step0 = Some(store_step(Opcode::SB, 0x500, 0, 9, 0, 1, 0));
    let r0 = LoadStoreChip::fill_main_trace_step(&mut traces, 0, &step0, &mut side_note);
    assert_eq!(r0, Ok(()));
    let step1 = Some(load_step(Opcode::LB, 0x500, 0, 9, 9, 2, 1));
    let r1 = LoadStoreChip::fill_main_trace_step(&mut traces, 1, &step1, &mut side_note);
    assert_eq!(r1, Ok(()));
    assert_eq!(traces.cell_at(1, Column::Ram1TsPrev, 0), 1);
    assert_eq!(traces.cell_at(1, Column::Ram1ValPrev, 0), 9);
    // A stale previous timestamp is rejected on the next access.
    let step2 = Some(load_step(Opcode::LB, 0x500, 0, 9, 9, 2, 1));
    let mut traces2 = TracesBuilder::new(2);
    let r2 = LoadStoreChip::fill_main_trace_step(&mut traces2, 1, &step2, &mut side_note);
    assert_eq!(r2, Err(ChipError::MemoryLogMismatch));
}

/// The sequential driver populates the whole trace and reconciles the side
/// note in one call.
#[test]
fn test_build_trace_block() {
    let a: u32 = 0x81008;
    let mut steps: Vec<Option<ExecutionStep>> = vec![
        Some(store_step(Opcode::SB, a, 0, 128, 0, 1, 0)),
        Some(load_step(Opcode::LB, a, 0, 128, 0xFFFFFF80, 2, 1)),
    ];
    while steps.len() < 4 {
        steps.push(None);
    }
    let (traces, _program_traces, _side_note) = loadstore_chip::driver::build_trace(
        2,
        &steps,
        PublicInputMap::new(),
        PublicOutputSet::new(),
    )
    .unwrap();
    assert_eq!(value_a_word(&traces, 1), 0xFFFFFF80);
    assert_eq!(traces.cell_at(0, Column::Ram1ValCur, 0), 128);
    for row_idx in 0..4 {
        assert_eq!(eval_constraints(&traces, row_idx), vec![0, 0, 0, 0, 0, 0, 0]);
    }
}

/// The driver reports an unreconciled public input.
#[test]
fn test_build_trace_unreconciled_input() {
    let mut public_input = PublicInputMap::new();
    public_input.insert(0x4000, 1);
    let steps: Vec<Option<ExecutionStep>> = vec![None];
    let r = loadstore_chip::driver::build_trace(0, &steps, public_input,
        PublicOutputSet::new());
    assert!(matches!(r, Err(ChipError::UnreconciledPublicInput)));
}

/// The driver reports the first rejected row's error.
#[test]
fn test_build_trace_step_error() {
    let mut step = store_step(Opcode::SB, 0x100, 0, 1, 0, 1, 0);
    step.memory_records[0].timestamp = 7;
    let steps: Vec<Option<ExecutionStep>> = vec![Some(step), None];
    let r = loadstore_chip::driver::build_trace(1, &steps, PublicInputMap::new(),
        PublicOutputSet::new());
    assert!(matches!(r, Err(ChipError::TimestampMismatch)));
}

/// The deferred lookup block holds no constraints yet.
#[test]
fn test_lookup_constraint_block_empty() {
    let traces = TracesBuilder::new(0);
    assert_eq!(eval_lookup_constraints(&traces, 0), Vec::<u32>::new());
}
