//! The sequential driver: feeds one execution step per row to the chip, in
//! strict row order, and returns the populated traces together with the
//! consumed side note. The drive's verdict is a spec-level fold of the
//! per-row verdicts over the evolving log, followed by the terminal
//! reconciliation; every row of a trace built this way satisfies the chip's
//! row-level invariant, so all seven constraints vanish on it.

use vstd::prelude::*;

use crate::chip::{finish_outcome, lemma_finish_outcome_map, lemma_step_row_preserved,
    logs_after, reconcile_outcome, step_base, step_outcome, step_row_filled, ChipError,
    ExecutionStep, LoadStoreChip, SideNote};
use crate::codec::size_lanes;
use crate::constraints::{constraint_values, lemma_constraints_vanish,
    lemma_filled_row_constrained, lemma_row_constrained_preserved,
    lemma_untouched_row_constrained, row_constrained};
use crate::pubio::{PublicInputMap, PublicOutputSet};
use crate::riscv::{is_memory_opcode, opcode_size};
use crate::trace::{ProgramTracesBuilder, TracesBuilder};

verus! {

/// The chip's verdict on one row's step against log state `log`: a missing
/// step or a non-memory opcode is accepted without effect, a memory step is
/// judged by `step_outcome`.
pub open spec fn row_outcome(
    step: Option<ExecutionStep>,
    row: int,
    log: Map<u32, (u32, u8)>,
) -> Result<(), ChipError> {
    match step {
        None => Ok(()),
        Some(s) => if !is_memory_opcode(s.opcode) {
            Ok(())
        } else {
            step_outcome(s, row, log)
        },
    }
}

/// The log after an accepted row: unchanged for missing or non-memory steps,
/// else the fold of the step's records.
pub open spec fn log_after_row(
    step: Option<ExecutionStep>,
    row: int,
    log: Map<u32, (u32, u8)>,
) -> Map<u32, (u32, u8)> {
    match step {
        None => log,
        Some(s) => if !is_memory_opcode(s.opcode) {
            log
        } else {
            logs_after(log, s.memory_records@, s.memory_records@.len() as int,
                (row + 1) as u32, step_base(s), size_lanes(opcode_size(s.opcode)))
        },
    }
}

/// The verdict of driving the steps from row `j` on under the evolving log:
/// the first rejected row's error, or the final log.
pub open spec fn steps_outcome(
    steps: Seq<Option<ExecutionStep>>,
    j: int,
    log: Map<u32, (u32, u8)>,
) -> Result<Map<u32, (u32, u8)>, ChipError>
    decreases steps.len() - j,
{
    if j < 0 || j >= steps.len() {
        Ok(log)
    } else {
        match row_outcome(steps[j], j, log) {
            Err(e) => Err(e),
            Ok(()) => steps_outcome(steps, j + 1, log_after_row(steps[j], j, log)),
        }
    }
}

/// The outcome of the whole drive: the first rejected row's error, else the
/// terminal reconciliation on the final log.
pub open spec fn drive_outcome(
    steps: Seq<Option<ExecutionStep>>,
    pubin: Map<u32, u8>,
    pubout: Set<u32>,
    num_rows: int,
) -> Result<(), ChipError> {
    match steps_outcome(steps, 0, Map::empty()) {
        Err(e) => Err(e),
        Ok(m) => reconcile_outcome(m, pubin, pubout, num_rows),
    }
}

/// Build the load/store trace of `2^log_size` rows from one step per row,
/// running the terminal pass on the last row. The call succeeds exactly when
/// the drive's verdict does, and a failure carries the verdict's error. On
/// success, every memory step's row is populated as the step dictates, every
/// row satisfies the row-level invariant, all seven constraints vanish
/// everywhere, the log holds the drive's final map, and both public
/// collections were reconciled empty.
#[verifier::rlimit(100)]
pub fn build_trace(
    log_size: u32,
    steps: &Vec<Option<ExecutionStep>>,
    public_input: PublicInputMap,
    public_output_addresses: PublicOutputSet,
) -> (r: Result<(TracesBuilder, ProgramTracesBuilder, SideNote), ChipError>)
    requires
        log_size < 32,
        public_input.wf(),
        public_output_addresses.wf(),
        steps@.len() == (1usize << log_size),
    ensures
        r is Ok <==> drive_outcome(steps@, public_input.view_map(),
            public_output_addresses.view_set(), (1usize << log_size) as int) is Ok,
        r is Err ==> Err::<(), ChipError>(r->Err_0) == drive_outcome(steps@,
            public_input.view_map(), public_output_addresses.view_set(),
            (1usize << log_size) as int),
        r matches Ok(out) ==> {
            let (traces, program_traces, side_note) = out;
            &&& traces.wf()
            &&& program_traces.wf()
            &&& side_note.wf()
            &&& traces.spec_num_rows() == (1usize << log_size)
            &&& program_traces.spec_num_rows() == (1usize << log_size)
            &&& side_note.last_access.log_map()
                == steps_outcome(steps@, 0, Map::<u32, (u32, u8)>::empty())->Ok_0
            &&& forall|row: int| 0 <= row < traces.spec_num_rows()
                ==> row_constrained(traces, row)
            &&& forall|row: int, i: int| 0 <= row < traces.spec_num_rows() && 0 <= i < 7
                ==> #[trigger] constraint_values(traces, row)[i] == 0
            &&& forall|row: int| 0 <= row < steps@.len()
                && (#[trigger] steps@[row]) is Some
                && is_memory_opcode(steps@[row]->Some_0.opcode)
                ==> step_row_filled(traces, row, steps@[row]->Some_0)
            &&& side_note.public_input.view_map() =~= Map::<u32, u8>::empty()
            &&& side_note.public_output_addresses.view_set() =~= Set::<u32>::empty()
        },
{
    let mut traces = TracesBuilder::new(log_size);
    let mut program_traces = ProgramTracesBuilder::new(log_size);
    let mut side_note = SideNote::new(public_input, public_output_addresses);
    let n = traces.num_rows();
    proof {
        assert(1usize << log_size >= 1) by (bit_vector)
            requires log_size < 32;
    }
    let mut row_idx: usize = 0;
    while row_idx < n
        invariant
            traces.wf(),
            program_traces.wf(),
            side_note.wf(),
            row_idx <= n,
            n == steps@.len(),
            n == (1usize << log_size),
            n >= 1,
            traces.spec_num_rows() == n,
            program_traces.spec_num_rows() == n,
            forall|r2: int, c2: int| row_idx <= r2 < n && 0 <= c2 < 44
                ==> #[trigger] traces.grid()[r2][c2] == 0,
            forall|row: int| 0 <= row < row_idx ==> row_constrained(traces, row),
            forall|row: int| 0 <= row < row_idx
                && (#[trigger] steps@[row]) is Some
                && is_memory_opcode(steps@[row]->Some_0.opcode)
                ==> step_row_filled(traces, row, steps@[row]->Some_0),
            steps_outcome(steps@, row_idx as int, side_note.last_access.log_map())
                == steps_outcome(steps@, 0, Map::<u32, (u32, u8)>::empty()),
            row_idx < n ==> side_note.public_input == public_input,
            row_idx < n ==> side_note.public_output_addresses == public_output_addresses,
            row_idx == n ==> finish_outcome(side_note.last_access, public_input.view_map(),
                public_output_addresses.view_set(), n as int) is Ok,
            row_idx == n ==> side_note.public_input.view_map() =~= Map::<u32, u8>::empty(),
            row_idx == n ==> side_note.public_output_addresses.view_set()
                =~= Set::<u32>::empty(),
        decreases n - row_idx,
    {
        let ghost t_pre = traces;
        let ghost pre_log = side_note.last_access.log_map();
        let step = &steps[row_idx];
        let res = LoadStoreChip::fill_main_trace(
            &mut traces,
            row_idx,
            step,
            &mut program_traces,
            &mut side_note,
        );
        if let Err(e) = res {
            proof {
                let j = row_idx as int;
                if *step is Some && is_memory_opcode(step->Some_0.opcode)
                    && step_outcome(step->Some_0, j, pre_log) is Err {
                    assert(row_outcome(steps@[j], j, pre_log)
                        == Err::<(), ChipError>(e));
                    assert(steps_outcome(steps@, j, pre_log) == Err::<Map<u32, (u32, u8)>,
                        ChipError>(e));
                } else {
                    assert(j + 1 == n);
                    assert(res == finish_outcome(side_note.last_access,
                        public_input.view_map(), public_output_addresses.view_set(),
                        n as int));
                    lemma_finish_outcome_map(side_note.last_access, public_input.view_map(),
                        public_output_addresses.view_set(), n as int);
                    assert(side_note.last_access.log_map()
                        == log_after_row(steps@[j], j, pre_log));
                    assert(row_outcome(steps@[j], j, pre_log) is Ok);
                    assert(steps_outcome(steps@, j, pre_log)
                        == Ok::<Map<u32, (u32, u8)>, ChipError>(
                            side_note.last_access.log_map()));
                }
            }
            return Err(e);
        }
        proof {
            let j = row_idx as int;
            if *step is Some && is_memory_opcode(step->Some_0.opcode) {
                lemma_filled_row_constrained(traces, j, step->Some_0);
                assert(step_outcome(step->Some_0, j, pre_log) is Ok);
            } else {
                lemma_untouched_row_constrained(traces, j);
            }
            assert(side_note.last_access.log_map() == log_after_row(steps@[j], j, pre_log));
            assert(row_outcome(steps@[j], j, pre_log) is Ok);
            assert(steps_outcome(steps@, j, pre_log)
                == steps_outcome(steps@, j + 1, side_note.last_access.log_map()));
            if j + 1 == n {
                assert(res == finish_outcome(side_note.last_access, public_input.view_map(),
                    public_output_addresses.view_set(), n as int));
            }
            assert forall|row: int| 0 <= row < row_idx implies
                row_constrained(traces, row) by {
                lemma_row_constrained_preserved(t_pre, traces, row);
            }
            assert forall|row: int| 0 <= row < row_idx
                && (#[trigger] steps@[row]) is Some
                && is_memory_opcode(steps@[row]->Some_0.opcode) implies
                step_row_filled(traces, row, steps@[row]->Some_0) by {
                lemma_step_row_preserved(t_pre, traces, row, steps@[row]->Some_0);
            }
        }
        row_idx += 1;
    }
    proof {
        lemma_finish_outcome_map(side_note.last_access, public_input.view_map(),
            public_output_addresses.view_set(), n as int);
        assert(steps_outcome(steps@, 0, Map::<u32, (u32, u8)>::empty())
            == Ok::<Map<u32, (u32, u8)>, ChipError>(side_note.last_access.log_map()));
        assert(drive_outcome(steps@, public_input.view_map(),
            public_output_addresses.view_set(), n as int) is Ok);
        assert forall|row: int, i: int| 0 <= row < traces.spec_num_rows() && 0 <= i < 7
            implies #[trigger] constraint_values(traces, row)[i] == 0 by {
            lemma_constraints_vanish(traces, row);
        }
    }
    Ok((traces, program_traces, side_note))
}

} // verus!
