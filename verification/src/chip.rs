//! The load/store chip: consumes one execution step per row, fills the row's
//! trace columns, and keeps the memory-consistency side note in step with the
//! trace. A terminal pass writes the initial/final memory columns and
//! reconciles public inputs and outputs.

use vstd::assert_by_contradiction;
use vstd::prelude::*;

use crate::codec::{add_with_carries, carry_out, lanes_of_size, le_byte, lemma_carries_match,
    lemma_le_bytes_unique, size_lanes, size_limit, u32_from_le_bytes, u32_to_le_bytes,
    zero_extend, zero_extend_value, MemAccessSize};
use crate::memlog::AccessLog;
use crate::pubio::{PublicInputMap, PublicOutputSet};
use crate::riscv::{is_load_opcode, is_memory_opcode, opcode_access_size, opcode_is_load,
    opcode_is_memory, opcode_size, Opcode};
use crate::trace::{column_offset, Column, ProgramColumn, ProgramTracesBuilder, TracesBuilder,
    NUM_TRACE_COLS};
use crate::FIELD_MODULUS;

verus! {

/// Structural failures. Each aborts trace building; the partial trace is
/// unprovable and must be discarded.
#[derive(Clone, Copy, Debug, PartialEq, Eq, Structural)]
pub enum ChipError {
    /// The step's shape does not fit its opcode: a memory opcode without a
    /// record, a store without a previous value, a load without a result or
    /// with a result that does not match the accessed bytes, or a record
    /// whose width differs from the opcode's.
    OpcodeMismatch,
    /// A record's timestamp is not `row_index + 1`.
    TimestampMismatch,
    /// A record's byte address differs from the computed base address.
    AddressMismatch,
    /// A value does not fit in the access width.
    ValueOutOfWidth,
    /// A record's previous timestamp or value contradicts the log.
    MemoryLogMismatch,
    /// A multi-byte access would wrap past the end of the address space.
    AddressOverflow,
    /// A timestamp does not fit in the base field.
    TimestampFieldOverflow,
    /// More distinct byte addresses were touched than the trace has rows.
    LogSizeOverflow,
    /// A public input entry was never matched by a touched address.
    UnreconciledPublicInput,
    /// A public output entry was never matched by a touched address.
    UnreconciledPublicOutput,
}

/// One byte/half/word access as the VM recorded it.
pub struct MemoryRecord {
    /// Byte address of the access.
    pub address: u32,
    /// Access width.
    pub size: MemAccessSize,
    /// Value read or written, within the access width.
    pub value: u32,
    /// Value previously held at the address; present exactly for stores.
    pub prev_value: Option<u32>,
    /// Timestamp of the access.
    pub timestamp: u32,
    /// Timestamp of the last previous access, zero if none.
    pub prev_timestamp: u32,
}

/// One step of the VM execution trace, as the upstream CPU hands it over.
pub struct ExecutionStep {
    /// The instruction's opcode.
    pub opcode: Opcode,
    /// First operand value: for stores the address base register, for loads
    /// the destination register's old value.
    pub value_a: u32,
    /// Second operand value: for loads the address base register, for stores
    /// the stored register.
    pub value_b: u32,
    /// The 12-bit immediate offset, sign-extended to 32 bits upstream.
    pub offset: u32,
    /// The extended register result; present for loads.
    pub result: Option<u32>,
    /// The step's memory accesses, in order.
    pub memory_records: Vec<MemoryRecord>,
}

/// Out-of-band state the chip owns while the trace is built.
pub struct SideNote {
    /// Last access to every byte address ever touched.
    pub last_access: AccessLog,
    /// Public input bytes still to be reconciled.
    pub public_input: PublicInputMap,
    /// Public output addresses still to be reconciled.
    pub public_output_addresses: PublicOutputSet,
}

impl SideNote {
    /// All three collections are well formed.
    pub open spec fn wf(self) -> bool {
        &&& self.last_access.wf()
        &&& self.public_input.wf()
        &&& self.public_output_addresses.wf()
    }

    /// A side note with an empty log and the given public collections.
    pub fn new(public_input: PublicInputMap, public_output_addresses: PublicOutputSet) -> (s:
        SideNote)
        requires
            public_input.wf(),
            public_output_addresses.wf(),
        ensures
            s.wf(),
            s.last_access.log_map() == Map::<u32, (u32, u8)>::empty(),
            s.last_access.history() == Seq::<crate::memlog::MemAccess>::empty(),
            s.last_access.entries_seq().len() == 0,
            s.public_input == public_input,
            s.public_output_addresses == public_output_addresses,
    {
        SideNote { last_access: AccessLog::new(), public_input, public_output_addresses }
    }
}

/// The base register of the access: loads add the offset to the second
/// operand, stores to the first.
pub open spec fn step_base_reg(step: ExecutionStep) -> u32 {
    if is_load_opcode(step.opcode) {
        step.value_b
    } else {
        step.value_a
    }
}

/// The computed byte base address of the step's access.
pub open spec fn step_base(step: ExecutionStep) -> int {
    (step_base_reg(step) + step.offset) % 0x1_0000_0000
}

/// The previous-value word source of a record: for loads the bytes read, for
/// stores the bytes overwritten.
pub open spec fn record_prev_source(rec: MemoryRecord, is_load: bool) -> u32 {
    if is_load {
        rec.value
    } else {
        rec.prev_value->Some_0
    }
}

/// A lane's previous pair agrees with the log: equal to the entry at the
/// address, or zeroes when the address was never touched.
pub open spec fn lane_matches(
    log: Map<u32, (u32, u8)>,
    a: u32,
    prev_ts: u32,
    prev_byte: int,
) -> bool {
    if log.contains_key(a) {
        log[a].0 == prev_ts && log[a].1 == prev_byte
    } else {
        prev_ts == 0 && prev_byte == 0
    }
}

/// The verdict on one record, checked against the log state `log`, in the
/// order the populator tests: timestamp, address, record width, previous
/// timestamp in the field, store shape, value widths, load shape and result,
/// address-space overflow, and finally the per-lane log match.
pub open spec fn record_check(
    rec: MemoryRecord,
    clk: u32,
    base: int,
    size: MemAccessSize,
    is_load: bool,
    result: Option<u32>,
    log: Map<u32, (u32, u8)>,
) -> Result<(), ChipError> {
    if rec.timestamp != clk {
        Err(ChipError::TimestampMismatch)
    } else if rec.address != base {
        Err(ChipError::AddressMismatch)
    } else if rec.size != size {
        Err(ChipError::OpcodeMismatch)
    } else if rec.prev_timestamp >= FIELD_MODULUS {
        Err(ChipError::TimestampFieldOverflow)
    } else if !is_load && rec.prev_value is None {
        Err(ChipError::OpcodeMismatch)
    } else if !is_load && rec.prev_value->Some_0 >= size_limit(size) {
        Err(ChipError::ValueOutOfWidth)
    } else if rec.value >= size_limit(size) {
        Err(ChipError::ValueOutOfWidth)
    } else if is_load && result is None {
        Err(ChipError::OpcodeMismatch)
    } else if is_load && zero_extend_value(result->Some_0, size) != rec.value {
        Err(ChipError::OpcodeMismatch)
    } else if base + size_lanes(size) - 1 >= 0x1_0000_0000 {
        Err(ChipError::AddressOverflow)
    } else if exists|i: int|
        0 <= i < size_lanes(size) && !lane_matches(
            log,
            (base + i) as u32,
            rec.prev_timestamp,
            le_byte(record_prev_source(rec, is_load), i),
        ) {
        Err(ChipError::MemoryLogMismatch)
    } else {
        Ok(())
    }
}

/// The log after the record's first `i` lanes are recorded at timestamp
/// `clk`.
pub open spec fn lanes_inserted(
    log: Map<u32, (u32, u8)>,
    rec: MemoryRecord,
    clk: u32,
    base: int,
    i: int,
) -> Map<u32, (u32, u8)>
    decreases i,
{
    if i <= 0 {
        log
    } else {
        lanes_inserted(log, rec, clk, base, i - 1).insert(
            (base + (i - 1)) as u32,
            (clk, le_byte(rec.value, i - 1) as u8),
        )
    }
}

/// The log after the step's first `j` records are recorded.
pub open spec fn logs_after(
    log: Map<u32, (u32, u8)>,
    recs: Seq<MemoryRecord>,
    j: int,
    clk: u32,
    base: int,
    lanes: int,
) -> Map<u32, (u32, u8)>
    decreases j,
{
    if j <= 0 {
        log
    } else {
        lanes_inserted(logs_after(log, recs, j - 1, clk, base, lanes), recs[j - 1], clk, base,
            lanes)
    }
}

/// The verdict on the step's records from index `j` on, starting from log
/// state `log`: the first failing record's error, or success.
pub open spec fn records_outcome(
    recs: Seq<MemoryRecord>,
    j: int,
    log: Map<u32, (u32, u8)>,
    clk: u32,
    base: int,
    size: MemAccessSize,
    is_load: bool,
    result: Option<u32>,
) -> Result<(), ChipError>
    decreases recs.len() - j,
{
    if j < 0 || j >= recs.len() {
        Ok(())
    } else {
        match record_check(recs[j], clk, base, size, is_load, result, log) {
            Err(e) => Err(e),
            Ok(()) => records_outcome(
                recs,
                j + 1,
                lanes_inserted(log, recs[j], clk, base, size_lanes(size)),
                clk,
                base,
                size,
                is_load,
                result,
            ),
        }
    }
}

/// The verdict on a whole memory step at row `row_idx` against log state
/// `log`: the timestamp must fit in the field, the step must carry at least
/// one record, and every record must pass.
pub open spec fn step_outcome(
    step: ExecutionStep,
    row_idx: int,
    log: Map<u32, (u32, u8)>,
) -> Result<(), ChipError> {
    if row_idx + 1 >= FIELD_MODULUS {
        Err(ChipError::TimestampFieldOverflow)
    } else if step.memory_records@.len() == 0 {
        Err(ChipError::OpcodeMismatch)
    } else {
        records_outcome(
            step.memory_records@,
            0,
            log,
            (row_idx + 1) as u32,
            step_base(step),
            opcode_size(step.opcode),
            is_load_opcode(step.opcode),
            step.result,
        )
    }
}

/// The lane's value-current column.
pub open spec fn lane_val_cur_col(i: int) -> Column {
    if i == 0 {
        Column::Ram1ValCur
    } else if i == 1 {
        Column::Ram2ValCur
    } else if i == 2 {
        Column::Ram3ValCur
    } else {
        Column::Ram4ValCur
    }
}

/// The lane's value-previous column.
pub open spec fn lane_val_prev_col(i: int) -> Column {
    if i == 0 {
        Column::Ram1ValPrev
    } else if i == 1 {
        Column::Ram2ValPrev
    } else if i == 2 {
        Column::Ram3ValPrev
    } else {
        Column::Ram4ValPrev
    }
}

/// The lane's previous-timestamp column.
pub open spec fn lane_ts_prev_col(i: int) -> Column {
    if i == 0 {
        Column::Ram1TsPrev
    } else if i == 1 {
        Column::Ram2TsPrev
    } else if i == 2 {
        Column::Ram3TsPrev
    } else {
        Column::Ram4TsPrev
    }
}

/// The lane's accessed-flag column.
pub open spec fn lane_accessed_col(i: int) -> Column {
    if i == 0 {
        Column::Ram1Accessed
    } else if i == 1 {
        Column::Ram2Accessed
    } else if i == 2 {
        Column::Ram3Accessed
    } else {
        Column::Ram4Accessed
    }
}

/// The lane's four columns, lanes numbered from zero.
fn lane_columns(i: usize) -> (cols: (Column, Column, Column, Column))
    requires
        i < 4,
    ensures
        cols.0 == lane_val_cur_col(i as int),
        cols.1 == lane_val_prev_col(i as int),
        cols.2 == lane_ts_prev_col(i as int),
        cols.3 == lane_accessed_col(i as int),
{
    if i == 0 {
        (Column::Ram1ValCur, Column::Ram1ValPrev, Column::Ram1TsPrev, Column::Ram1Accessed)
    } else if i == 1 {
        (Column::Ram2ValCur, Column::Ram2ValPrev, Column::Ram2TsPrev, Column::Ram2Accessed)
    } else if i == 2 {
        (Column::Ram3ValCur, Column::Ram3ValPrev, Column::Ram3TsPrev, Column::Ram3Accessed)
    } else {
        (Column::Ram4ValCur, Column::Ram4ValPrev, Column::Ram4TsPrev, Column::Ram4Accessed)
    }
}

/// The flag column of a memory opcode.
pub open spec fn flag_column(op: Opcode) -> Column {
    match op {
        Opcode::SB => Column::IsSb,
        Opcode::SH => Column::IsSh,
        Opcode::SW => Column::IsSw,
        Opcode::LB => Column::IsLb,
        Opcode::LH => Column::IsLh,
        Opcode::LBU => Column::IsLbu,
        Opcode::LHU => Column::IsLhu,
        _ => Column::IsLw,
    }
}

/// The lane columns of record `rec` carry the record's bytes, previous
/// bytes, previous timestamp, and accessed flags in trace row `r`.
pub open spec fn record_lanes_filled(
    t: TracesBuilder,
    r: int,
    rec: MemoryRecord,
    is_load: bool,
    lanes: int,
) -> bool {
    forall|i: int| 0 <= i < lanes ==> {
        &&& t.cell(r, #[trigger] lane_val_cur_col(i), 0) == le_byte(rec.value, i)
        &&& t.cell(r, lane_val_prev_col(i), 0) == le_byte(record_prev_source(rec, is_load), i)
        &&& t.cell(r, lane_ts_prev_col(i), 0) == rec.prev_timestamp
        &&& t.cell(r, lane_accessed_col(i), 0) == 1
    }
}

/// The lane columns beyond the access width carry zeroes in trace row `r`.
pub open spec fn unused_lanes_zero(t: TracesBuilder, r: int, lanes: int) -> bool {
    forall|i: int| lanes <= i < 4 ==> {
        &&& t.cell(r, #[trigger] lane_val_cur_col(i), 0) == 0
        &&& t.cell(r, lane_val_prev_col(i), 0) == 0
        &&& t.cell(r, lane_ts_prev_col(i), 0) == 0
        &&& t.cell(r, lane_accessed_col(i), 0) == 0
    }
}

/// Row `r` holds exactly what the step dictates: the opcode's flag set and
/// the seven others clear, the operand and effective values, the computed
/// base address with its carries, and the last record's lanes.
pub open spec fn step_row_filled(t: TracesBuilder, r: int, step: ExecutionStep) -> bool {
    let op = step.opcode;
    let is_load = is_load_opcode(op);
    let lanes = size_lanes(opcode_size(op));
    let base = step_base(step);
    let rec = step.memory_records@.last();
    let va: u32 = if is_load {
        step.result->Some_0
    } else {
        step.value_a
    };
    &&& t.cell(r, Column::IsSb, 0) == if op == Opcode::SB { 1int } else { 0int }
    &&& t.cell(r, Column::IsSh, 0) == if op == Opcode::SH { 1int } else { 0int }
    &&& t.cell(r, Column::IsSw, 0) == if op == Opcode::SW { 1int } else { 0int }
    &&& t.cell(r, Column::IsLb, 0) == if op == Opcode::LB { 1int } else { 0int }
    &&& t.cell(r, Column::IsLh, 0) == if op == Opcode::LH { 1int } else { 0int }
    &&& t.cell(r, Column::IsLbu, 0) == if op == Opcode::LBU { 1int } else { 0int }
    &&& t.cell(r, Column::IsLhu, 0) == if op == Opcode::LHU { 1int } else { 0int }
    &&& t.cell(r, Column::IsLw, 0) == if op == Opcode::LW { 1int } else { 0int }
    &&& forall|k: int| 0 <= k < 4
        ==> #[trigger] t.cell(r, Column::ValueA, k) == le_byte(va, k)
    &&& forall|k: int| 0 <= k < 4
        ==> #[trigger] t.cell(r, Column::ValueAEffective, k) == le_byte(step.value_a, k)
    &&& forall|k: int| 0 <= k < 4
        ==> #[trigger] t.cell(r, Column::RamBaseAddr, k) == le_byte(base as u32, k)
    &&& forall|k: int| 0 <= k < 4
        ==> #[trigger] t.cell(r, Column::CarryFlag, k)
            == carry_out(step_base_reg(step), step.offset, k)
    &&& record_lanes_filled(t, r, rec, is_load, lanes)
    &&& unused_lanes_zero(t, r, lanes)
}

/// Chip that populates the load/store columns of the trace and declares
/// their constraints.
pub struct LoadStoreChip;

impl LoadStoreChip {
    /// Check one record against the evolving log, then commit its lanes to
    /// the trace row and the log.
    fn fill_record(
        traces: &mut TracesBuilder,
        row_idx: usize,
        rec: &MemoryRecord,
        clk: u32,
        base_addr: u32,
        is_load: bool,
        size: MemAccessSize,
        result: Option<u32>,
        side_note: &mut SideNote,
    ) -> (r: Result<(), ChipError>)
        requires
            old(traces).wf(),
            row_idx < old(traces).spec_num_rows(),
            old(side_note).wf(),
            0 < clk < FIELD_MODULUS,
        ensures
            final(traces).wf(),
            final(side_note).wf(),
            final(traces).spec_num_rows() == old(traces).spec_num_rows(),
            forall|r2: int| 0 <= r2 < old(traces).spec_num_rows() && r2 != row_idx
                ==> final(traces).grid()[r2] == old(traces).grid()[r2],
            forall|c2: int| 0 <= c2 < NUM_TRACE_COLS && !(8 <= c2 < 12) && !(28 <= c2 < 44)
                ==> #[trigger] final(traces).grid()[row_idx as int][c2]
                    == old(traces).grid()[row_idx as int][c2],
            !is_load ==> forall|c2: int| 8 <= c2 < 12
                ==> #[trigger] final(traces).grid()[row_idx as int][c2]
                    == old(traces).grid()[row_idx as int][c2],
            final(side_note).public_input == old(side_note).public_input,
            final(side_note).public_output_addresses == old(side_note).public_output_addresses,
            forall|i: int| 0 <= i < old(side_note).last_access.history().len()
                ==> final(side_note).last_access.history()[i]
                    == old(side_note).last_access.history()[i],
            final(side_note).last_access.history().len()
                >= old(side_note).last_access.history().len(),
            final(side_note).last_access.history().len()
                <= old(side_note).last_access.history().len() + size_lanes(size),
            forall|a: u32| !(base_addr <= a < base_addr + size_lanes(size)) ==> {
                &&& (#[trigger] final(side_note).last_access.log_map().contains_key(a)
                    <==> old(side_note).last_access.log_map().contains_key(a))
                &&& (old(side_note).last_access.log_map().contains_key(a)
                    ==> final(side_note).last_access.log_map()[a]
                        == old(side_note).last_access.log_map()[a])
            },
            (r is Err && r->Err_0 != ChipError::MemoryLogMismatch) ==> {
                &&& *final(traces) == *old(traces)
                &&& *final(side_note) == *old(side_note)
            },
            r == record_check(*rec, clk, base_addr as int, size, is_load, result,
                old(side_note).last_access.log_map()),
            r is Ok ==> {
                &&& final(side_note).last_access.log_map() == lanes_inserted(
                    old(side_note).last_access.log_map(), *rec, clk, base_addr as int,
                    size_lanes(size))
                &&& final(side_note).last_access.history().len()
                    == old(side_note).last_access.history().len() + size_lanes(size)
                &&& record_lanes_filled(*final(traces), row_idx as int, *rec, is_load,
                    size_lanes(size))
                &&& forall|i: int| size_lanes(size) <= i < 4 ==> {
                    &&& final(traces).cell(row_idx as int, #[trigger] lane_val_cur_col(i), 0)
                        == old(traces).cell(row_idx as int, lane_val_cur_col(i), 0)
                    &&& final(traces).cell(row_idx as int, lane_val_prev_col(i), 0)
                        == old(traces).cell(row_idx as int, lane_val_prev_col(i), 0)
                    &&& final(traces).cell(row_idx as int, lane_ts_prev_col(i), 0)
                        == old(traces).cell(row_idx as int, lane_ts_prev_col(i), 0)
                    &&& final(traces).cell(row_idx as int, lane_accessed_col(i), 0)
                        == old(traces).cell(row_idx as int, lane_accessed_col(i), 0)
                }
                &&& is_load ==> forall|k: int| 0 <= k < 4
                    ==> final(traces).cell(row_idx as int, Column::ValueA, k)
                        == le_byte(result->Some_0, k)
            },
    {
        let ghost log0 = side_note.last_access.log_map();
        if rec.timestamp != clk {
            return Err(ChipError::TimestampMismatch);
        }
        if rec.address != base_addr {
            return Err(ChipError::AddressMismatch);
        }
        if rec.size != size {
            return Err(ChipError::OpcodeMismatch);
        }
        if rec.prev_timestamp >= FIELD_MODULUS {
            return Err(ChipError::TimestampFieldOverflow);
        }
        let prev_source: u32 = if is_load {
            rec.value
        } else {
            match rec.prev_value {
                Some(p) => p,
                None => {
                    return Err(ChipError::OpcodeMismatch);
                }
            }
        };
        if !is_load && !value_fits(prev_source, size) {
            return Err(ChipError::ValueOutOfWidth);
        }
        if !value_fits(rec.value, size) {
            return Err(ChipError::ValueOutOfWidth);
        }
        if is_load {
            match result {
                Some(res) => {
                    if zero_extend(res, size) != rec.value {
                        return Err(ChipError::OpcodeMismatch);
                    }
                }
                None => {
                    return Err(ChipError::OpcodeMismatch);
                }
            }
        }
        let lanes = lanes_of_size(size);
        if (lanes as u32) - 1 > u32::MAX - base_addr {
            return Err(ChipError::AddressOverflow);
        }
        if is_load {
            let res_w = u32_to_le_bytes(match result {
                Some(res) => res,
                None => 0,
            });
            traces.fill_word(row_idx, Column::ValueA, res_w);
            proof {
                lemma_le_bytes_unique(res_w, result->Some_0);
            }
        }
        let cur_w = u32_to_le_bytes(rec.value);
        let prev_w = u32_to_le_bytes(prev_source);
        proof {
            lemma_le_bytes_unique(cur_w, rec.value);
            lemma_le_bytes_unique(prev_w, prev_source);
        }
        let mut i: usize = 0;
        while i < lanes
            invariant
                traces.wf(),
                side_note.wf(),
                i <= lanes,
                lanes == size_lanes(size),
                lanes <= 4,
                row_idx < traces.spec_num_rows(),
                0 < clk < FIELD_MODULUS,
                base_addr + lanes - 1 <= u32::MAX,
                log0 == old(side_note).last_access.log_map(),
                rec.timestamp == clk,
                rec.address == base_addr,
                rec.size == size,
                rec.prev_timestamp < FIELD_MODULUS,
                !is_load ==> rec.prev_value is Some,
                prev_source == record_prev_source(*rec, is_load),
                prev_source < size_limit(size),
                rec.value < size_limit(size),
                is_load ==> result is Some
                    && zero_extend_value(result->Some_0, size) == rec.value,
                forall|k: int| 0 <= k < 4 ==> cur_w[k] == le_byte(rec.value, k),
                forall|k: int| 0 <= k < 4 ==> prev_w[k]
                    == le_byte(record_prev_source(*rec, is_load), k),
                traces.spec_num_rows() == old(traces).spec_num_rows(),
                forall|r2: int| 0 <= r2 < old(traces).spec_num_rows() && r2 != row_idx
                    ==> traces.grid()[r2] == old(traces).grid()[r2],
                forall|c2: int| 0 <= c2 < NUM_TRACE_COLS && !(8 <= c2 < 12) && !(28 <= c2 < 44)
                    ==> #[trigger] traces.grid()[row_idx as int][c2]
                        == old(traces).grid()[row_idx as int][c2],
                !is_load ==> forall|c2: int| 8 <= c2 < 12
                    ==> #[trigger] traces.grid()[row_idx as int][c2]
                        == old(traces).grid()[row_idx as int][c2],
                is_load ==> forall|k: int| 0 <= k < 4
                    ==> traces.cell(row_idx as int, Column::ValueA, k)
                        == le_byte(result->Some_0, k),
                forall|k: int| 0 <= k < i ==> {
                    &&& traces.cell(row_idx as int, #[trigger] lane_val_cur_col(k), 0)
                        == le_byte(rec.value, k)
                    &&& traces.cell(row_idx as int, lane_val_prev_col(k), 0)
                        == le_byte(record_prev_source(*rec, is_load), k)
                    &&& traces.cell(row_idx as int, lane_ts_prev_col(k), 0)
                        == rec.prev_timestamp
                    &&& traces.cell(row_idx as int, lane_accessed_col(k), 0) == 1
                },
                forall|k: int| i <= k < 4 ==> {
                    &&& traces.cell(row_idx as int, #[trigger] lane_val_cur_col(k), 0)
                        == old(traces).cell(row_idx as int, lane_val_cur_col(k), 0)
                    &&& traces.cell(row_idx as int, lane_val_prev_col(k), 0)
                        == old(traces).cell(row_idx as int, lane_val_prev_col(k), 0)
                    &&& traces.cell(row_idx as int, lane_ts_prev_col(k), 0)
                        == old(traces).cell(row_idx as int, lane_ts_prev_col(k), 0)
                    &&& traces.cell(row_idx as int, lane_accessed_col(k), 0)
                        == old(traces).cell(row_idx as int, lane_accessed_col(k), 0)
                },
                side_note.last_access.log_map() == lanes_inserted(log0, *rec, clk,
                    base_addr as int, i as int),
                forall|a: u32| !(base_addr <= a < base_addr + i) ==> {
                    &&& (#[trigger] side_note.last_access.log_map().contains_key(a)
                        <==> log0.contains_key(a))
                    &&& (log0.contains_key(a)
                        ==> side_note.last_access.log_map()[a] == log0[a])
                },
                forall|k: int| 0 <= k < i ==> lane_matches(log0, (base_addr + k) as u32,
                    rec.prev_timestamp, le_byte(record_prev_source(*rec, is_load), k)),
                side_note.last_access.history().len()
                    == old(side_note).last_access.history().len() + i,
                forall|k: int| 0 <= k < old(side_note).last_access.history().len()
                    ==> side_note.last_access.history()[k]
                        == old(side_note).last_access.history()[k],
                side_note.public_input == old(side_note).public_input,
                side_note.public_output_addresses == old(side_note).public_output_addresses,
            decreases lanes - i,
        {
            let (c_cur, c_prev, c_ts, c_acc) = lane_columns(i);
            traces.fill_one(row_idx, c_cur, cur_w[i] as u32);
            traces.fill_one(row_idx, c_prev, prev_w[i] as u32);
            traces.fill_one(row_idx, c_ts, rec.prev_timestamp);
            traces.fill_one(row_idx, c_acc, 1);
            proof {
                assert(28 <= column_offset(lane_val_cur_col(i as int)) < 44);
                assert(28 <= column_offset(lane_val_prev_col(i as int)) < 44);
                assert(28 <= column_offset(lane_ts_prev_col(i as int)) < 44);
                assert(28 <= column_offset(lane_accessed_col(i as int)) < 44);
            }
            let addr_i = base_addr + i as u32;
            let ghost pre_map = side_note.last_access.log_map();
            let prev = side_note.last_access.record_access(addr_i, clk, cur_w[i]);
            proof {
                assert(pre_map.contains_key(addr_i) <==> log0.contains_key(addr_i));
                assert(log0.contains_key(addr_i) ==> pre_map[addr_i] == log0[addr_i]);
            }
            let lane_bad: bool = match prev {
                Some(p) => p.0 != rec.prev_timestamp || p.1 != prev_w[i],
                None => rec.prev_timestamp != 0 || prev_w[i] != 0,
            };
            if lane_bad {
                proof {
                    assert(!lane_matches(log0, addr_i, rec.prev_timestamp,
                        le_byte(record_prev_source(*rec, is_load), i as int)));
                    assert forall|a: u32| !(base_addr <= a < base_addr + size_lanes(size))
                        implies {
                        &&& (side_note.last_access.log_map().contains_key(a)
                            <==> log0.contains_key(a))
                        &&& (log0.contains_key(a)
                            ==> side_note.last_access.log_map()[a] == log0[a])
                    } by {
                        assert(a != addr_i);
                        assert(pre_map.contains_key(a) <==> log0.contains_key(a));
                        assert(log0.contains_key(a) ==> pre_map[a] == log0[a]);
                    }
                    assert(traces.spec_num_rows() == old(traces).spec_num_rows());
                    assert forall|c2: int| 0 <= c2 < NUM_TRACE_COLS && !(8 <= c2 < 12)
                        && !(28 <= c2 < 44) implies traces.grid()[row_idx as int][c2]
                        == old(traces).grid()[row_idx as int][c2] by {}
                    assert(record_check(*rec, clk, base_addr as int, size, is_load, result,
                        log0) == Err::<(), ChipError>(ChipError::MemoryLogMismatch));
                }
                return Err(ChipError::MemoryLogMismatch);
            }
            proof {
                assert(lane_matches(log0, addr_i, rec.prev_timestamp,
                    le_byte(record_prev_source(*rec, is_load), i as int)));
                assert(side_note.last_access.log_map() == lanes_inserted(log0, *rec, clk,
                    base_addr as int, i + 1));
            }
            i += 1;
        }
        proof {
            assert(record_check(*rec, clk, base_addr as int, size, is_load, result, log0)
                is Ok);
        }
        Ok(())
    }

    /// Fill the trace row for one execution step. A missing step or a
    /// non-memory opcode leaves the row untouched; a memory step fills the
    /// opcode flag, operand, address, carry and lane columns and records each
    /// access in the side note's log.
    pub fn fill_main_trace_step(
        traces: &mut TracesBuilder,
        row_idx: usize,
        vm_step: &Option<ExecutionStep>,
        side_note: &mut SideNote,
    ) -> (r: Result<(), ChipError>)
        requires
            old(traces).wf(),
            row_idx < old(traces).spec_num_rows(),
            old(side_note).wf(),
            forall|c: int| 0 <= c < 44 ==> old(traces).grid()[row_idx as int][c] == 0,
        ensures
            final(traces).wf(),
            final(side_note).wf(),
            final(traces).spec_num_rows() == old(traces).spec_num_rows(),
            forall|r2: int| 0 <= r2 < old(traces).spec_num_rows() && r2 != row_idx
                ==> final(traces).grid()[r2] == old(traces).grid()[r2],
            forall|c2: int| 44 <= c2 < NUM_TRACE_COLS
                ==> #[trigger] final(traces).grid()[row_idx as int][c2]
                    == old(traces).grid()[row_idx as int][c2],
            forall|c2: int| 16 <= c2 < 20
                ==> #[trigger] final(traces).grid()[row_idx as int][c2]
                    == old(traces).grid()[row_idx as int][c2],
            final(side_note).public_input == old(side_note).public_input,
            final(side_note).public_output_addresses == old(side_note).public_output_addresses,
            forall|i: int| 0 <= i < old(side_note).last_access.history().len()
                ==> final(side_note).last_access.history()[i]
                    == old(side_note).last_access.history()[i],
            final(side_note).last_access.history().len()
                >= old(side_note).last_access.history().len(),
            (*vm_step is None || !is_memory_opcode(vm_step->Some_0.opcode)) ==> {
                &&& r is Ok
                &&& final(traces).grid() == old(traces).grid()
                &&& *final(side_note) == *old(side_note)
            },
            (*vm_step is Some && is_memory_opcode(vm_step->Some_0.opcode)) ==> {
                let step = vm_step->Some_0;
                &&& r == step_outcome(step, row_idx as int,
                    old(side_note).last_access.log_map())
                &&& forall|a: u32| !(step_base(step) <= a
                    < step_base(step) + size_lanes(opcode_size(step.opcode))) ==> {
                    &&& (#[trigger] final(side_note).last_access.log_map().contains_key(a)
                        <==> old(side_note).last_access.log_map().contains_key(a))
                    &&& (old(side_note).last_access.log_map().contains_key(a)
                        ==> final(side_note).last_access.log_map()[a]
                            == old(side_note).last_access.log_map()[a])
                }
                &&& final(side_note).last_access.history().len()
                    <= old(side_note).last_access.history().len()
                        + step.memory_records@.len() * size_lanes(opcode_size(step.opcode))
                &&& (r is Err && r->Err_0 != ChipError::MemoryLogMismatch
                    && step.memory_records@.len() == 1)
                    ==> final(side_note).last_access == old(side_note).last_access
                &&& r is Ok ==> {
                    &&& step_row_filled(*final(traces), row_idx as int, step)
                    &&& final(side_note).last_access.log_map() == logs_after(
                        old(side_note).last_access.log_map(), step.memory_records@,
                        step.memory_records@.len() as int, (row_idx + 1) as u32,
                        step_base(step), size_lanes(opcode_size(step.opcode)))
                    &&& final(side_note).last_access.history().len()
                        == old(side_note).last_access.history().len()
                            + step.memory_records@.len() * size_lanes(opcode_size(step.opcode))
                }
            },
    {
        let step = match vm_step {
            Some(s) => s,
            None => {
                return Ok(());
            }
        };
        if !opcode_is_memory(step.opcode) {
            return Ok(());
        }
        let is_load = opcode_is_load(step.opcode);
        let size = opcode_access_size(step.opcode);
        let lanes = lanes_of_size(size);
        if row_idx >= 0x7fff_fffe {
            return Err(ChipError::TimestampFieldOverflow);
        }
        let clk: u32 = row_idx as u32 + 1;
        proof {
            assert(clk == row_idx + 1);
        }
        let n = step.memory_records.len();
        if n == 0 {
            return Err(ChipError::OpcodeMismatch);
        }
        let flag_c = match step.opcode {
            Opcode::SB => Column::IsSb,
            Opcode::SH => Column::IsSh,
            Opcode::SW => Column::IsSw,
            Opcode::LB => Column::IsLb,
            Opcode::LH => Column::IsLh,
            Opcode::LBU => Column::IsLbu,
            Opcode::LHU => Column::IsLhu,
            Opcode::LW => Column::IsLw,
            _ => {
                proof {
                    assert(false);
                }
                Column::IsLw
            }
        };
        traces.fill_one(row_idx, flag_c, 1);
        let value_a_w = u32_to_le_bytes(step.value_a);
        traces.fill_word(row_idx, Column::ValueA, value_a_w);
        traces.fill_word(row_idx, Column::ValueAEffective, value_a_w);
        let base_reg = if is_load {
            step.value_b
        } else {
            step.value_a
        };
        let breg_w = u32_to_le_bytes(base_reg);
        let off_w = u32_to_le_bytes(step.offset);
        let (base_w, carry_w) = add_with_carries(breg_w, off_w);
        traces.fill_word(row_idx, Column::RamBaseAddr, base_w);
        traces.fill_word(row_idx, Column::CarryFlag, carry_w);
        let base_addr = u32_from_le_bytes(&base_w);
        proof {
            lemma_le_bytes_unique(value_a_w, step.value_a);
            lemma_le_bytes_unique(base_w, base_addr);
            lemma_carries_match(breg_w, off_w, base_reg, step.offset, carry_w);
            assert(base_addr as int == step_base(*step));
            assert(flag_c == flag_column(step.opcode));
        }
        let ghost log0 = side_note.last_access.log_map();
        let ghost recs = step.memory_records@;
        let mut j: usize = 0;
        while j < n
            invariant
                traces.wf(),
                side_note.wf(),
                j <= n,
                n == recs.len(),
                n >= 1,
                recs == step.memory_records@,
                *vm_step is Some,
                *step == vm_step->Some_0,
                row_idx < traces.spec_num_rows(),
                clk == row_idx + 1,
                0 < clk < FIELD_MODULUS,
                is_memory_opcode(step.opcode),
                is_load == is_load_opcode(step.opcode),
                size == opcode_size(step.opcode),
                lanes == size_lanes(size),
                base_reg == step_base_reg(*step),
                base_addr as int == step_base(*step),
                log0 == old(side_note).last_access.log_map(),
                traces.spec_num_rows() == old(traces).spec_num_rows(),
                forall|r2: int| 0 <= r2 < old(traces).spec_num_rows() && r2 != row_idx
                    ==> traces.grid()[r2] == old(traces).grid()[r2],
                forall|c2: int| 44 <= c2 < NUM_TRACE_COLS
                    ==> #[trigger] traces.grid()[row_idx as int][c2]
                        == old(traces).grid()[row_idx as int][c2],
                forall|c2: int| 16 <= c2 < 20
                    ==> #[trigger] traces.grid()[row_idx as int][c2]
                        == old(traces).grid()[row_idx as int][c2],
                traces.cell(row_idx as int, Column::IsSb, 0)
                    == if step.opcode == Opcode::SB { 1int } else { 0int },
                traces.cell(row_idx as int, Column::IsSh, 0)
                    == if step.opcode == Opcode::SH { 1int } else { 0int },
                traces.cell(row_idx as int, Column::IsSw, 0)
                    == if step.opcode == Opcode::SW { 1int } else { 0int },
                traces.cell(row_idx as int, Column::IsLb, 0)
                    == if step.opcode == Opcode::LB { 1int } else { 0int },
                traces.cell(row_idx as int, Column::IsLh, 0)
                    == if step.opcode == Opcode::LH { 1int } else { 0int },
                traces.cell(row_idx as int, Column::IsLbu, 0)
                    == if step.opcode == Opcode::LBU { 1int } else { 0int },
                traces.cell(row_idx as int, Column::IsLhu, 0)
                    == if step.opcode == Opcode::LHU { 1int } else { 0int },
                traces.cell(row_idx as int, Column::IsLw, 0)
                    == if step.opcode == Opcode::LW { 1int } else { 0int },
                forall|k: int| 0 <= k < 4
                    ==> traces.cell(row_idx as int, Column::ValueAEffective, k)
                        == le_byte(step.value_a, k),
                forall|k: int| 0 <= k < 4 ==> traces.cell(row_idx as int, Column::RamBaseAddr, k)
                    == le_byte(base_addr, k),
                forall|k: int| 0 <= k < 4 ==> traces.cell(row_idx as int, Column::CarryFlag, k)
                    == carry_out(step_base_reg(*step), step.offset, k),
                (!is_load || j == 0) ==> forall|k: int| 0 <= k < 4
                    ==> traces.cell(row_idx as int, Column::ValueA, k)
                        == le_byte(step.value_a, k),
                (is_load && j > 0) ==> forall|k: int| 0 <= k < 4
                    ==> traces.cell(row_idx as int, Column::ValueA, k)
                        == le_byte(step.result->Some_0, k),
                j == 0 ==> forall|c2: int| 28 <= c2 < 44
                    ==> #[trigger] traces.grid()[row_idx as int][c2] == 0,
                j > 0 ==> record_lanes_filled(*traces, row_idx as int, recs[j - 1], is_load,
                    lanes as int),
                unused_lanes_zero(*traces, row_idx as int, lanes as int),
                side_note.last_access.log_map() == logs_after(log0, recs, j as int, clk,
                    base_addr as int, lanes as int),
                forall|a: u32| !(base_addr <= a < base_addr + lanes) ==> {
                    &&& (#[trigger] side_note.last_access.log_map().contains_key(a)
                        <==> log0.contains_key(a))
                    &&& (log0.contains_key(a)
                        ==> side_note.last_access.log_map()[a] == log0[a])
                },
                j == 0 ==> side_note.last_access == old(side_note).last_access,
                records_outcome(recs, j as int, side_note.last_access.log_map(), clk,
                    base_addr as int, size, is_load, step.result)
                    == records_outcome(recs, 0, log0, clk, base_addr as int, size, is_load,
                        step.result),
                j > 0 ==> (is_load ==> step.result is Some),
                side_note.last_access.history().len()
                    == old(side_note).last_access.history().len() + j * lanes,
                forall|i: int| 0 <= i < old(side_note).last_access.history().len()
                    ==> side_note.last_access.history()[i]
                        == old(side_note).last_access.history()[i],
                side_note.public_input == old(side_note).public_input,
                side_note.public_output_addresses == old(side_note).public_output_addresses,
            decreases n - j,
        {
            let rec = &step.memory_records[j];
            let ghost pre_log = side_note.last_access.log_map();
            let res = LoadStoreChip::fill_record(traces, row_idx, rec, clk, base_addr, is_load,
                size, step.result, side_note);
            match res {
                Err(e) => {
                    proof {
                        assert(records_outcome(recs, j as int, pre_log, clk, base_addr as int,
                            size, is_load, step.result) == Err::<(), ChipError>(e));
                        assert((j + 1) * lanes <= n * lanes) by (nonlinear_arith)
                            requires 0 <= lanes, j + 1 <= n;
                        assert(j * lanes + lanes == (j + 1) * lanes) by (nonlinear_arith);
                    }
                    return Err(e);
                }
                Ok(()) => {}
            }
            proof {
                assert(record_check(recs[j as int], clk, base_addr as int, size, is_load,
                    step.result, pre_log) is Ok);
                assert(side_note.last_access.log_map() == lanes_inserted(pre_log,
                    recs[j as int], clk, base_addr as int, lanes as int));
                assert(logs_after(log0, recs, j + 1, clk, base_addr as int, lanes as int)
                    == lanes_inserted(logs_after(log0, recs, j as int, clk, base_addr as int,
                        lanes as int), recs[j as int], clk, base_addr as int, lanes as int));
                assert((j + 1) * lanes == j * lanes + lanes) by (nonlinear_arith);
            }
            j += 1;
        }
        proof {
            assert(records_outcome(recs, n as int, side_note.last_access.log_map(), clk,
                base_addr as int, size, is_load, step.result) is Ok);
            assert(recs[n - 1] == recs.last());
            assert(step_row_filled(*traces, row_idx as int, *step));
        }
        Ok(())
    }

    /// Write the initial/final memory columns for every touched byte address
    /// and reconcile the public input and output collections. To be called
    /// once, on the last row.
    pub fn fill_main_trace_finish(
        traces: &mut TracesBuilder,
        row_idx: usize,
        program_traces: &mut ProgramTracesBuilder,
        side_note: &mut SideNote,
    ) -> (r: Result<(), ChipError>)
        requires
            old(traces).wf(),
            old(program_traces).wf(),
            old(side_note).wf(),
            row_idx + 1 == old(traces).spec_num_rows(),
            old(program_traces).spec_num_rows() == old(traces).spec_num_rows(),
        ensures
            final(traces).wf(),
            final(program_traces).wf(),
            final(side_note).wf(),
            final(traces).spec_num_rows() == old(traces).spec_num_rows(),
            final(program_traces).spec_num_rows() == old(program_traces).spec_num_rows(),
            final(side_note).last_access == old(side_note).last_access,
            r == finish_outcome(old(side_note).last_access,
                old(side_note).public_input.view_map(),
                old(side_note).public_output_addresses.view_set(),
                old(traces).spec_num_rows()),
            forall|r2: int, c2: int| 0 <= r2 < old(traces).spec_num_rows() && 0 <= c2 < 44
                ==> #[trigger] final(traces).grid()[r2][c2] == old(traces).grid()[r2][c2],
            (r == Err::<(), ChipError>(ChipError::LogSizeOverflow)
                || r == Err::<(), ChipError>(ChipError::TimestampFieldOverflow)) ==> {
                &&& final(traces).grid() == old(traces).grid()
                &&& final(program_traces).grid() == old(program_traces).grid()
                &&& *final(side_note) == *old(side_note)
            },
            !(r == Err::<(), ChipError>(ChipError::LogSizeOverflow)
                || r == Err::<(), ChipError>(ChipError::TimestampFieldOverflow)) ==> {
                let entries = old(side_note).last_access.entries_seq();
                let pubin0 = old(side_note).public_input.view_map();
                let pubout0 = old(side_note).public_output_addresses.view_set();
                let logmap = old(side_note).last_access.log_map();
                &&& forall|i: int| 0 <= i < entries.len() ==> {
                    &&& final(traces).cell(i, Column::RamInitFinalAddr, 0)
                        == le_byte((#[trigger] entries[i]).0, 0)
                    &&& final(traces).cell(i, Column::RamInitFinalAddr, 1)
                        == le_byte(entries[i].0, 1)
                    &&& final(traces).cell(i, Column::RamInitFinalAddr, 2)
                        == le_byte(entries[i].0, 2)
                    &&& final(traces).cell(i, Column::RamInitFinalAddr, 3)
                        == le_byte(entries[i].0, 3)
                    &&& final(traces).cell(i, Column::RamInitFinalFlag, 0) == 1
                    &&& final(traces).cell(i, Column::RamFinalCounter, 0) == entries[i].1.0
                    &&& final(traces).cell(i, Column::RamFinalValue, 0) == entries[i].1.1
                }
                &&& forall|r2: int| entries.len() <= r2 < old(traces).spec_num_rows()
                    ==> final(traces).grid()[r2] == old(traces).grid()[r2]
                &&& forall|a: u32| #[trigger] final(side_note).public_input.view_map()
                    .contains_key(a) <==> (pubin0.contains_key(a) && !logmap.contains_key(a))
                &&& forall|a: u32| #[trigger] final(side_note).public_input.view_map()
                    .contains_key(a) ==> final(side_note).public_input.view_map()[a]
                        == pubin0[a]
                &&& forall|a: u32| #[trigger] final(side_note).public_output_addresses
                    .view_set().contains(a) <==> (pubout0.contains(a)
                        && !logmap.contains_key(a))
                &&& forall|i: int| 0 <= i < entries.len()
                    && pubin0.contains_key((#[trigger] entries[i]).0) ==> {
                    &&& final(program_traces).cell(i, ProgramColumn::PublicInputValue, 0)
                        == pubin0[entries[i].0]
                    &&& final(program_traces).cell(i, ProgramColumn::PublicInputFlag, 0) == 1
                    &&& final(program_traces).cell(i,
                        ProgramColumn::PublicInputOutputAddr, 0) == le_byte(entries[i].0, 0)
                    &&& final(program_traces).cell(i,
                        ProgramColumn::PublicInputOutputAddr, 1) == le_byte(entries[i].0, 1)
                    &&& final(program_traces).cell(i,
                        ProgramColumn::PublicInputOutputAddr, 2) == le_byte(entries[i].0, 2)
                    &&& final(program_traces).cell(i,
                        ProgramColumn::PublicInputOutputAddr, 3) == le_byte(entries[i].0, 3)
                }
                &&& forall|i: int| 0 <= i < entries.len()
                    && pubout0.contains((#[trigger] entries[i]).0) ==> {
                    &&& final(program_traces).cell(i, ProgramColumn::PublicOutputValue, 0)
                        == entries[i].1.1
                    &&& final(program_traces).cell(i, ProgramColumn::PublicOutputFlag, 0) == 1
                    &&& final(program_traces).cell(i,
                        ProgramColumn::PublicInputOutputAddr, 0) == le_byte(entries[i].0, 0)
                    &&& final(program_traces).cell(i,
                        ProgramColumn::PublicInputOutputAddr, 1) == le_byte(entries[i].0, 1)
                    &&& final(program_traces).cell(i,
                        ProgramColumn::PublicInputOutputAddr, 2) == le_byte(entries[i].0, 2)
                    &&& final(program_traces).cell(i,
                        ProgramColumn::PublicInputOutputAddr, 3) == le_byte(entries[i].0, 3)
                }
                &&& forall|r2: int| entries.len() <= r2 < old(program_traces).spec_num_rows()
                    ==> final(program_traces).grid()[r2] == old(program_traces).grid()[r2]
            },
            r is Ok ==> {
                &&& final(side_note).public_input.view_map() =~= Map::<u32, u8>::empty()
                &&& final(side_note).public_output_addresses.view_set()
                    =~= Set::<u32>::empty()
            },
    {
        let n_rows = traces.num_rows();
        let log_len = side_note.last_access.len();
        let ghost entries = side_note.last_access.entries_seq();
        if log_len > n_rows {
            return Err(ChipError::LogSizeOverflow);
        }
        let mut i: usize = 0;
        while i < log_len
            invariant
                side_note.wf(),
                traces.wf(),
                program_traces.wf(),
                log_len == entries.len(),
                entries == side_note.last_access.entries_seq(),
                i <= log_len,
                log_len <= old(traces).spec_num_rows(),
                *traces == *old(traces),
                *program_traces == *old(program_traces),
                *side_note == *old(side_note),
                forall|k: int| 0 <= k < i ==> (#[trigger] entries[k]).1.0 < FIELD_MODULUS,
            decreases log_len - i,
        {
            let e = side_note.last_access.entry_at(i);
            if e.1.0 >= FIELD_MODULUS {
                return Err(ChipError::TimestampFieldOverflow);
            }
            i += 1;
        }
        proof {
            crate::memlog::lemma_entries_unique(side_note.last_access);
        }
        let mut i: usize = 0;
        while i < log_len
            invariant
                traces.wf(),
                program_traces.wf(),
                side_note.wf(),
                i <= log_len,
                log_len == entries.len(),
                log_len <= traces.spec_num_rows(),
                entries == side_note.last_access.entries_seq(),
                side_note.last_access == old(side_note).last_access,
                crate::kv::unique_keys(entries),
                forall|k: int| 0 <= k < log_len ==> (#[trigger] entries[k]).1.0 < FIELD_MODULUS,
                traces.spec_num_rows() == old(traces).spec_num_rows(),
                program_traces.spec_num_rows() == old(program_traces).spec_num_rows(),
                program_traces.spec_num_rows() == traces.spec_num_rows(),
                forall|r2: int, c2: int| 0 <= r2 < old(traces).spec_num_rows() && 0 <= c2 < 44
                    ==> #[trigger] traces.grid()[r2][c2] == old(traces).grid()[r2][c2],
                forall|r2: int| i <= r2 < old(traces).spec_num_rows()
                    ==> traces.grid()[r2] == old(traces).grid()[r2],
                forall|r2: int| i <= r2 < old(program_traces).spec_num_rows()
                    ==> program_traces.grid()[r2] == old(program_traces).grid()[r2],
                forall|k: int| 0 <= k < i ==> {
                    &&& traces.cell(k, Column::RamInitFinalAddr, 0)
                        == le_byte((#[trigger] entries[k]).0, 0)
                    &&& traces.cell(k, Column::RamInitFinalAddr, 1) == le_byte(entries[k].0, 1)
                    &&& traces.cell(k, Column::RamInitFinalAddr, 2) == le_byte(entries[k].0, 2)
                    &&& traces.cell(k, Column::RamInitFinalAddr, 3) == le_byte(entries[k].0, 3)
                    &&& traces.cell(k, Column::RamInitFinalFlag, 0) == 1
                    &&& traces.cell(k, Column::RamFinalCounter, 0) == entries[k].1.0
                    &&& traces.cell(k, Column::RamFinalValue, 0) == entries[k].1.1
                },
                forall|a: u32| #[trigger] side_note.public_input.view_map().contains_key(a)
                    <==> (old(side_note).public_input.view_map().contains_key(a)
                        && !key_before(entries, a, i as int)),
                forall|a: u32| #[trigger] side_note.public_input.view_map().contains_key(a)
                    ==> side_note.public_input.view_map()[a]
                        == old(side_note).public_input.view_map()[a],
                forall|a: u32| #[trigger] side_note.public_output_addresses.view_set()
                    .contains(a) <==> (old(side_note).public_output_addresses.view_set()
                        .contains(a) && !key_before(entries, a, i as int)),
                forall|k: int| 0 <= k < i
                    && old(side_note).public_input.view_map().contains_key(
                        (#[trigger] entries[k]).0) ==> {
                    &&& program_traces.cell(k, ProgramColumn::PublicInputValue, 0)
                        == old(side_note).public_input.view_map()[entries[k].0]
                    &&& program_traces.cell(k, ProgramColumn::PublicInputFlag, 0) == 1
                    &&& program_traces.cell(k, ProgramColumn::PublicInputOutputAddr, 0)
                        == le_byte(entries[k].0, 0)
                    &&& program_traces.cell(k, ProgramColumn::PublicInputOutputAddr, 1)
                        == le_byte(entries[k].0, 1)
                    &&& program_traces.cell(k, ProgramColumn::PublicInputOutputAddr, 2)
                        == le_byte(entries[k].0, 2)
                    &&& program_traces.cell(k, ProgramColumn::PublicInputOutputAddr, 3)
                        == le_byte(entries[k].0, 3)
                },
                forall|k: int| 0 <= k < i
                    && old(side_note).public_output_addresses.view_set().contains(
                        (#[trigger] entries[k]).0) ==> {
                    &&& program_traces.cell(k, ProgramColumn::PublicOutputValue, 0)
                        == entries[k].1.1
                    &&& program_traces.cell(k, ProgramColumn::PublicOutputFlag, 0) == 1
                    &&& program_traces.cell(k, ProgramColumn::PublicInputOutputAddr, 0)
                        == le_byte(entries[k].0, 0)
                    &&& program_traces.cell(k, ProgramColumn::PublicInputOutputAddr, 1)
                        == le_byte(entries[k].0, 1)
                    &&& program_traces.cell(k, ProgramColumn::PublicInputOutputAddr, 2)
                        == le_byte(entries[k].0, 2)
                    &&& program_traces.cell(k, ProgramColumn::PublicInputOutputAddr, 3)
                        == le_byte(entries[k].0, 3)
                },
            decreases log_len - i,
        {
            let e = side_note.last_access.entry_at(i);
            let addr = e.0;
            let ts = e.1.0;
            let val = e.1.1;
            let addr_w = u32_to_le_bytes(addr);
            proof {
                lemma_le_bytes_unique(addr_w, addr);
                lemma_key_before_iff(entries, addr, i as int);
            }
            traces.fill_word(i, Column::RamInitFinalAddr, addr_w);
            traces.fill_one(i, Column::RamInitFinalFlag, 1);
            traces.fill_one(i, Column::RamFinalCounter, ts);
            traces.fill_one(i, Column::RamFinalValue, val as u32);
            proof {
                assert forall|m: int| 0 <= m < 4 implies traces.cell(i as int,
                    Column::RamInitFinalAddr, m) == le_byte(entries[i as int].0, m) by {
                    assert(addr_w[m] == le_byte(addr, m));
                }
                assert(traces.cell(i as int, Column::RamInitFinalFlag, 0) == 1);
                assert(traces.cell(i as int, Column::RamFinalCounter, 0) == ts);
                assert(traces.cell(i as int, Column::RamFinalValue, 0) == val);
            }
            match side_note.public_input.remove(addr) {
                Some(v) => {
                    program_traces.fill_one(i, ProgramColumn::PublicInputValue, v as u32);
                    program_traces.fill_one(i, ProgramColumn::PublicInputFlag, 1);
                    program_traces.fill_addr(i, addr_w);
                }
                None => {}
            }
            if side_note.public_output_addresses.remove(addr) {
                program_traces.fill_one(i, ProgramColumn::PublicOutputValue, val as u32);
                program_traces.fill_one(i, ProgramColumn::PublicOutputFlag, 1);
                program_traces.fill_addr(i, addr_w);
            }
            i += 1;
        }
        let ghost logmap = side_note.last_access.log_map();
        proof {
            assert forall|a: u32| key_before(entries, a, log_len as int)
                <==> #[trigger] logmap.contains_key(a) by {
                lemma_key_before_iff(entries, a, log_len as int);
                crate::kv::lemma_map_of_contains(entries, a);
            }
        }
        if !side_note.public_input.is_empty() {
            proof {
                assert(finish_outcome(old(side_note).last_access,
                    old(side_note).public_input.view_map(),
                    old(side_note).public_output_addresses.view_set(),
                    old(traces).spec_num_rows()) !=
                    Err::<(), ChipError>(ChipError::LogSizeOverflow));
                assert_by_contradiction!(exists|a: u32|
                    side_note.public_input.view_map().contains_key(a), {
                    assert(side_note.public_input.view_map() =~= Map::<u32, u8>::empty());
                });
                let a = choose|a: u32| side_note.public_input.view_map().contains_key(a);
                assert(old(side_note).public_input.view_map().contains_key(a)
                    && !logmap.contains_key(a));
            }
            return Err(ChipError::UnreconciledPublicInput);
        }
        if !side_note.public_output_addresses.is_empty() {
            proof {
                assert(side_note.public_input.view_map() =~= Map::<u32, u8>::empty());
                assert forall|a: u32| #[trigger] old(side_note).public_input.view_map()
                    .contains_key(a) implies logmap.contains_key(a) by {
                    assert(!side_note.public_input.view_map().contains_key(a));
                }
                assert_by_contradiction!(exists|a: u32|
                    side_note.public_output_addresses.view_set().contains(a), {
                    assert(side_note.public_output_addresses.view_set()
                        =~= Set::<u32>::empty());
                });
                let a = choose|a: u32|
                    side_note.public_output_addresses.view_set().contains(a);
                assert(old(side_note).public_output_addresses.view_set().contains(a)
                    && !logmap.contains_key(a));
            }
            return Err(ChipError::UnreconciledPublicOutput);
        }
        proof {
            assert(side_note.public_input.view_map() =~= Map::<u32, u8>::empty());
            assert(side_note.public_output_addresses.view_set() =~= Set::<u32>::empty());
            assert forall|a: u32| #[trigger] old(side_note).public_input.view_map()
                .contains_key(a) implies logmap.contains_key(a) by {
                assert(!side_note.public_input.view_map().contains_key(a));
            }
            assert forall|a: u32| #[trigger] old(side_note).public_output_addresses
                .view_set().contains(a) implies logmap.contains_key(a) by {
                assert(!side_note.public_output_addresses.view_set().contains(a));
            }
            assert(finish_outcome(old(side_note).last_access,
                old(side_note).public_input.view_map(),
                old(side_note).public_output_addresses.view_set(),
                old(traces).spec_num_rows()) is Ok);
        }
        Ok(())
    }

    /// Fill one trace row from the step, and run the terminal pass when the
    /// row is the last one.
    pub fn fill_main_trace(
        traces: &mut TracesBuilder,
        row_idx: usize,
        vm_step: &Option<ExecutionStep>,
        program_traces: &mut ProgramTracesBuilder,
        side_note: &mut SideNote,
    ) -> (r: Result<(), ChipError>)
        requires
            old(traces).wf(),
            old(program_traces).wf(),
            old(side_note).wf(),
            row_idx < old(traces).spec_num_rows(),
            old(program_traces).spec_num_rows() == old(traces).spec_num_rows(),
            forall|c: int| 0 <= c < 44 ==> old(traces).grid()[row_idx as int][c] == 0,
        ensures
            final(traces).wf(),
            final(program_traces).wf(),
            final(side_note).wf(),
            final(traces).spec_num_rows() == old(traces).spec_num_rows(),
            final(program_traces).spec_num_rows() == old(program_traces).spec_num_rows(),
            (*vm_step is Some && is_memory_opcode(vm_step->Some_0.opcode) && r is Ok)
                ==> step_row_filled(*final(traces), row_idx as int, vm_step->Some_0),
            (*vm_step is Some && is_memory_opcode(vm_step->Some_0.opcode)
                && step_outcome(vm_step->Some_0, row_idx as int,
                    old(side_note).last_access.log_map()) is Err)
                ==> r == step_outcome(vm_step->Some_0, row_idx as int,
                    old(side_note).last_access.log_map()),
            row_idx + 1 < old(traces).spec_num_rows() ==> {
                &&& final(side_note).public_input == old(side_note).public_input
                &&& final(side_note).public_output_addresses
                    == old(side_note).public_output_addresses
                &&& ((*vm_step is None || !is_memory_opcode(vm_step->Some_0.opcode))
                    ==> r is Ok)
            },
            forall|r2: int, c2: int| 0 <= r2 < old(traces).spec_num_rows() && r2 != row_idx
                && 0 <= c2 < 44 ==> #[trigger] final(traces).grid()[r2][c2]
                    == old(traces).grid()[r2][c2],
            (*vm_step is None || !is_memory_opcode(vm_step->Some_0.opcode))
                ==> forall|r2: int, c2: int| 0 <= r2 < old(traces).spec_num_rows()
                    && 0 <= c2 < 44 ==> #[trigger] final(traces).grid()[r2][c2]
                        == old(traces).grid()[r2][c2],
            row_idx + 1 < old(traces).spec_num_rows() && *vm_step is Some
                && is_memory_opcode(vm_step->Some_0.opcode)
                ==> r == step_outcome(vm_step->Some_0, row_idx as int,
                    old(side_note).last_access.log_map()),
            row_idx + 1 == old(traces).spec_num_rows()
                && (*vm_step is None || !is_memory_opcode(vm_step->Some_0.opcode)
                    || step_outcome(vm_step->Some_0, row_idx as int,
                        old(side_note).last_access.log_map()) is Ok)
                ==> r == finish_outcome(final(side_note).last_access,
                    old(side_note).public_input.view_map(),
                    old(side_note).public_output_addresses.view_set(),
                    old(traces).spec_num_rows()),
            row_idx + 1 == old(traces).spec_num_rows() ==> {
                &&& r is Ok ==> {
                    &&& final(side_note).public_input.view_map() =~= Map::<u32, u8>::empty()
                    &&& final(side_note).public_output_addresses.view_set()
                        =~= Set::<u32>::empty()
                }
            },
            (*vm_step is None || !is_memory_opcode(vm_step->Some_0.opcode))
                ==> final(side_note).last_access == old(side_note).last_access,
            (*vm_step is Some && is_memory_opcode(vm_step->Some_0.opcode)
                && step_outcome(vm_step->Some_0, row_idx as int,
                    old(side_note).last_access.log_map()) is Ok)
                ==> final(side_note).last_access.log_map() == logs_after(
                    old(side_note).last_access.log_map(),
                    vm_step->Some_0.memory_records@,
                    vm_step->Some_0.memory_records@.len() as int,
                    (row_idx + 1) as u32,
                    step_base(vm_step->Some_0),
                    size_lanes(opcode_size(vm_step->Some_0.opcode))),
    {
        let r = Self::fill_main_trace_step(traces, row_idx, vm_step, side_note);
        if let Err(e) = r {
            return Err(e);
        }
        let ghost t_mid = *traces;
        let n = traces.num_rows();
        if row_idx + 1 == n {
            let rf = Self::fill_main_trace_finish(traces, row_idx, program_traces, side_note);
            proof {
                if *vm_step is Some && is_memory_opcode(vm_step->Some_0.opcode) {
                    lemma_step_row_preserved(t_mid, *traces, row_idx as int, vm_step->Some_0);
                }
            }
            return rf;
        }
        r
    }
}

/// Some entry among the first `i` carries address `a`.
pub open spec fn key_before(s: Seq<(u32, (u32, u8))>, a: u32, i: int) -> bool
    decreases i,
{
    if i <= 0 {
        false
    } else {
        s[i - 1].0 == a || key_before(s, a, i - 1)
    }
}

proof fn lemma_key_before_iff(s: Seq<(u32, (u32, u8))>, a: u32, i: int)
    requires
        0 <= i <= s.len(),
    ensures
        key_before(s, a, i) <==> exists|k: int| 0 <= k < i && s[k].0 == a,
    decreases i,
{
    if i > 0 {
        lemma_key_before_iff(s, a, i - 1);
    }
}

/// The verdict on the terminal pass: the log must fit in the trace, every
/// last-access timestamp must fit in the field, and every public input and
/// output address must have been touched.
pub open spec fn finish_outcome(
    log: AccessLog,
    pubin: Map<u32, u8>,
    pubout: Set<u32>,
    num_rows: int,
) -> Result<(), ChipError> {
    if log.entries_seq().len() > num_rows {
        Err(ChipError::LogSizeOverflow)
    } else if exists|i: int|
        0 <= i < log.entries_seq().len()
            && (#[trigger] log.entries_seq()[i]).1.0 >= FIELD_MODULUS {
        Err(ChipError::TimestampFieldOverflow)
    } else if exists|a: u32|
        #[trigger] pubin.contains_key(a) && !log.log_map().contains_key(a) {
        Err(ChipError::UnreconciledPublicInput)
    } else if exists|a: u32| #[trigger] pubout.contains(a) && !log.log_map().contains_key(a) {
        Err(ChipError::UnreconciledPublicOutput)
    } else {
        Ok(())
    }
}

/// A step's row content only involves the first 44 cells of its row, so it
/// survives any later write to other cells or other rows.
pub proof fn lemma_step_row_preserved(t1: TracesBuilder, t2: TracesBuilder, r: int,
    step: ExecutionStep)
    requires
        step_row_filled(t1, r, step),
        0 <= r < t1.spec_num_rows(),
        t2.spec_num_rows() == t1.spec_num_rows(),
        forall|c2: int| 0 <= c2 < 44 ==> #[trigger] t2.grid()[r][c2] == t1.grid()[r][c2],
    ensures
        step_row_filled(t2, r, step),
{
    assert(forall|i: int| 0 <= i < 4
        ==> 28 <= column_offset(#[trigger] lane_val_cur_col(i)) < 44);
    assert(forall|i: int| 0 <= i < 4
        ==> 28 <= column_offset(#[trigger] lane_val_prev_col(i)) < 44);
    assert(forall|i: int| 0 <= i < 4
        ==> 28 <= column_offset(#[trigger] lane_ts_prev_col(i)) < 44);
    assert(forall|i: int| 0 <= i < 4
        ==> 28 <= column_offset(#[trigger] lane_accessed_col(i)) < 44);
    let lanes = size_lanes(opcode_size(step.opcode));
    let is_load = is_load_opcode(step.opcode);
    let rec = step.memory_records@.last();
    assert forall|i: int| 0 <= i < lanes implies {
        &&& t2.cell(r, #[trigger] lane_val_cur_col(i), 0) == le_byte(rec.value, i)
        &&& t2.cell(r, lane_val_prev_col(i), 0) == le_byte(record_prev_source(rec, is_load), i)
        &&& t2.cell(r, lane_ts_prev_col(i), 0) == rec.prev_timestamp
        &&& t2.cell(r, lane_accessed_col(i), 0) == 1
    } by {
        assert(t1.cell(r, lane_val_cur_col(i), 0) == le_byte(rec.value, i));
    }
    assert forall|i: int| lanes <= i < 4 implies {
        &&& t2.cell(r, #[trigger] lane_val_cur_col(i), 0) == 0
        &&& t2.cell(r, lane_val_prev_col(i), 0) == 0
        &&& t2.cell(r, lane_ts_prev_col(i), 0) == 0
        &&& t2.cell(r, lane_accessed_col(i), 0) == 0
    } by {
        assert(t1.cell(r, lane_val_cur_col(i), 0) == 0);
    }
    assert forall|k: int| 0 <= k < 4 implies {
        &&& t2.cell(r, Column::ValueA, k) == t1.cell(r, Column::ValueA, k)
        &&& t2.cell(r, Column::ValueAEffective, k) == t1.cell(r, Column::ValueAEffective, k)
        &&& t2.cell(r, Column::RamBaseAddr, k) == t1.cell(r, Column::RamBaseAddr, k)
        &&& t2.cell(r, Column::CarryFlag, k) == t1.cell(r, Column::CarryFlag, k)
    } by {
        assert(t2.grid()[r][8 + k] == t1.grid()[r][8 + k]);
        assert(t2.grid()[r][12 + k] == t1.grid()[r][12 + k]);
        assert(t2.grid()[r][20 + k] == t1.grid()[r][20 + k]);
        assert(t2.grid()[r][24 + k] == t1.grid()[r][24 + k]);
    }
    assert(t2.cell(r, Column::IsSb, 0) == t1.cell(r, Column::IsSb, 0));
    assert(t2.cell(r, Column::IsSh, 0) == t1.cell(r, Column::IsSh, 0));
    assert(t2.cell(r, Column::IsSw, 0) == t1.cell(r, Column::IsSw, 0));
    assert(t2.cell(r, Column::IsLb, 0) == t1.cell(r, Column::IsLb, 0));
    assert(t2.cell(r, Column::IsLh, 0) == t1.cell(r, Column::IsLh, 0));
    assert(t2.cell(r, Column::IsLbu, 0) == t1.cell(r, Column::IsLbu, 0));
    assert(t2.cell(r, Column::IsLhu, 0) == t1.cell(r, Column::IsLhu, 0));
    assert(t2.cell(r, Column::IsLw, 0) == t1.cell(r, Column::IsLw, 0));
    assert(record_lanes_filled(t2, r, rec, is_load, lanes));
    assert(unused_lanes_zero(t2, r, lanes));
    let va: u32 = if is_load { step.result->Some_0 } else { step.value_a };
    assert forall|k: int| 0 <= k < 4 implies t2.cell(r, Column::ValueA, k)
        == le_byte(va, k) by {
        assert(t1.cell(r, Column::ValueA, k) == le_byte(va, k));
    }
    assert forall|k: int| 0 <= k < 4 implies t2.cell(r, Column::ValueAEffective, k)
        == le_byte(step.value_a, k) by {
        assert(t1.cell(r, Column::ValueAEffective, k) == le_byte(step.value_a, k));
    }
    assert forall|k: int| 0 <= k < 4 implies t2.cell(r, Column::RamBaseAddr, k)
        == le_byte(step_base(step) as u32, k) by {
        assert(t1.cell(r, Column::RamBaseAddr, k) == le_byte(step_base(step) as u32, k));
    }
    assert forall|k: int| 0 <= k < 4 implies t2.cell(r, Column::CarryFlag, k)
        == carry_out(step_base_reg(step), step.offset, k) by {
        assert(t1.cell(r, Column::CarryFlag, k)
            == carry_out(step_base_reg(step), step.offset, k));
    }
}

/// The terminal verdict stated over the log's map alone: the same conditions
/// as `finish_outcome`, with the entry count as the map's key count and the
/// timestamp bound quantified over the mapped pairs.
pub open spec fn reconcile_outcome(
    log: Map<u32, (u32, u8)>,
    pubin: Map<u32, u8>,
    pubout: Set<u32>,
    num_rows: int,
) -> Result<(), ChipError> {
    if log.dom().len() > num_rows {
        Err(ChipError::LogSizeOverflow)
    } else if exists|a: u32| #[trigger] log.contains_key(a) && log[a].0 >= FIELD_MODULUS {
        Err(ChipError::TimestampFieldOverflow)
    } else if exists|a: u32| #[trigger] pubin.contains_key(a) && !log.contains_key(a) {
        Err(ChipError::UnreconciledPublicInput)
    } else if exists|a: u32| #[trigger] pubout.contains(a) && !log.contains_key(a) {
        Err(ChipError::UnreconciledPublicOutput)
    } else {
        Ok(())
    }
}

/// On a well-formed log the terminal verdict over the entries and the one
/// over the map agree.
pub proof fn lemma_finish_outcome_map(
    log: AccessLog,
    pubin: Map<u32, u8>,
    pubout: Set<u32>,
    num_rows: int,
)
    requires
        log.wf(),
    ensures
        finish_outcome(log, pubin, pubout, num_rows)
            == reconcile_outcome(log.log_map(), pubin, pubout, num_rows),
{
    let s = log.entries_seq();
    crate::memlog::lemma_entries_unique(log);
    crate::kv::lemma_map_of_dom_len(s);
    assert(log.log_map().dom().len() == s.len());
    assert forall|i: int| 0 <= i < s.len() && (#[trigger] s[i]).1.0 >= FIELD_MODULUS implies
        exists|a: u32| #[trigger] log.log_map().contains_key(a)
            && log.log_map()[a].0 >= FIELD_MODULUS by {
        crate::kv::lemma_map_of_index(s, i);
        assert(log.log_map().contains_key(s[i].0) && log.log_map()[s[i].0].0 >= FIELD_MODULUS);
    }
    assert forall|a: u32| #[trigger] log.log_map().contains_key(a)
        && log.log_map()[a].0 >= FIELD_MODULUS implies
        exists|i: int| 0 <= i < s.len() && (#[trigger] s[i]).1.0 >= FIELD_MODULUS by {
        crate::kv::lemma_map_of_contains(s, a);
        let i = choose|i: int| 0 <= i < s.len() && s[i].0 == a;
        crate::kv::lemma_map_of_index(s, i);
        assert(s[i].1.0 >= FIELD_MODULUS);
    }
}

/// A memory-width value fits the access width.
fn value_fits(v: u32, size: MemAccessSize) -> (r: bool)
    ensures
        r == (v < size_limit(size)),
{
    match size {
        MemAccessSize::Byte => v < 0x100,
        MemAccessSize::HalfWord => v < 0x1_0000,
        MemAccessSize::Word => true,
    }
}

} // verus!
