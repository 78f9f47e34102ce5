//! The arithmetic trace: a dense grid of Mersenne-31 field elements, one row
//! per execution step, with named columns. Multi-limb quantities (words,
//! carry bits) occupy consecutive cells starting at the column's offset.

use vstd::prelude::*;

use crate::codec::Word;
use crate::FIELD_MODULUS;

verus! {

/// Number of cells in one main-trace row.
pub const NUM_TRACE_COLS: usize = 51;

/// Number of cells in one program-trace row.
pub const NUM_PROGRAM_COLS: usize = 8;

/// Main-trace columns of the load/store chip.
#[derive(Clone, Copy, Debug, PartialEq, Eq, Structural)]
pub enum Column {
    /// Opcode flag: store byte.
    IsSb,
    /// Opcode flag: store half-word.
    IsSh,
    /// Opcode flag: store word.
    IsSw,
    /// Opcode flag: load byte, sign-extended.
    IsLb,
    /// Opcode flag: load half-word, sign-extended.
    IsLh,
    /// Opcode flag: load byte, zero-extended.
    IsLbu,
    /// Opcode flag: load half-word, zero-extended.
    IsLhu,
    /// Opcode flag: load word.
    IsLw,
    /// First operand value, four byte limbs.
    ValueA,
    /// First operand value as the committed effective word.
    ValueAEffective,
    /// Second operand value, filled upstream.
    ValueB,
    /// Computed byte address of the access, four byte limbs.
    RamBaseAddr,
    /// Per-limb carry bits of the address addition.
    CarryFlag,
    /// Lane 1: byte written or read.
    Ram1ValCur,
    /// Lane 1: byte previously held at the address.
    Ram1ValPrev,
    /// Lane 1: timestamp of the previous access.
    Ram1TsPrev,
    /// Lane 1: the access touches this lane.
    Ram1Accessed,
    /// Lane 2: byte written or read.
    Ram2ValCur,
    /// Lane 2: byte previously held at the address.
    Ram2ValPrev,
    /// Lane 2: timestamp of the previous access.
    Ram2TsPrev,
    /// Lane 2: the access touches this lane.
    Ram2Accessed,
    /// Lane 3: byte written or read.
    Ram3ValCur,
    /// Lane 3: byte previously held at the address.
    Ram3ValPrev,
    /// Lane 3: timestamp of the previous access.
    Ram3TsPrev,
    /// Lane 3: the access touches this lane.
    Ram3Accessed,
    /// Lane 4: byte written or read.
    Ram4ValCur,
    /// Lane 4: byte previously held at the address.
    Ram4ValPrev,
    /// Lane 4: timestamp of the previous access.
    Ram4TsPrev,
    /// Lane 4: the access touches this lane.
    Ram4Accessed,
    /// Terminal rows: a touched byte address, four byte limbs.
    RamInitFinalAddr,
    /// Terminal rows: the row finalizes a touched address.
    RamInitFinalFlag,
    /// Terminal rows: timestamp of the last access to the address.
    RamFinalCounter,
    /// Terminal rows: final value of the address.
    RamFinalValue,
}

/// Program-trace columns reconciling public inputs and outputs.
#[derive(Clone, Copy, Debug, PartialEq, Eq, Structural)]
pub enum ProgramColumn {
    /// Byte address of the reconciled public input or output.
    PublicInputOutputAddr,
    /// The public input byte expected at the address.
    PublicInputValue,
    /// The row reconciles a public input.
    PublicInputFlag,
    /// The final memory byte published at the address.
    PublicOutputValue,
    /// The row reconciles a public output.
    PublicOutputFlag,
}

/// First cell of the column within a row.
pub open spec fn column_offset(c: Column) -> int {
    match c {
        Column::IsSb => 0,
        Column::IsSh => 1,
        Column::IsSw => 2,
        Column::IsLb => 3,
        Column::IsLh => 4,
        Column::IsLbu => 5,
        Column::IsLhu => 6,
        Column::IsLw => 7,
        Column::ValueA => 8,
        Column::ValueAEffective => 12,
        Column::ValueB => 16,
        Column::RamBaseAddr => 20,
        Column::CarryFlag => 24,
        Column::Ram1ValCur => 28,
        Column::Ram1ValPrev => 29,
        Column::Ram1TsPrev => 30,
        Column::Ram1Accessed => 31,
        Column::Ram2ValCur => 32,
        Column::Ram2ValPrev => 33,
        Column::Ram2TsPrev => 34,
        Column::Ram2Accessed => 35,
        Column::Ram3ValCur => 36,
        Column::Ram3ValPrev => 37,
        Column::Ram3TsPrev => 38,
        Column::Ram3Accessed => 39,
        Column::Ram4ValCur => 40,
        Column::Ram4ValPrev => 41,
        Column::Ram4TsPrev => 42,
        Column::Ram4Accessed => 43,
        Column::RamInitFinalAddr => 44,
        Column::RamInitFinalFlag => 48,
        Column::RamFinalCounter => 49,
        Column::RamFinalValue => 50,
    }
}

/// Number of consecutive cells the column occupies.
pub open spec fn column_size(c: Column) -> int {
    match c {
        Column::ValueA => 4,
        Column::ValueAEffective => 4,
        Column::ValueB => 4,
        Column::RamBaseAddr => 4,
        Column::CarryFlag => 4,
        Column::RamInitFinalAddr => 4,
        _ => 1,
    }
}

/// First cell of the program column within a row.
pub open spec fn program_column_offset(c: ProgramColumn) -> int {
    match c {
        ProgramColumn::PublicInputOutputAddr => 0,
        ProgramColumn::PublicInputValue => 4,
        ProgramColumn::PublicInputFlag => 5,
        ProgramColumn::PublicOutputValue => 6,
        ProgramColumn::PublicOutputFlag => 7,
    }
}

/// First cell of the column within a row.
pub fn col_offset(c: Column) -> (r: usize)
    ensures
        r == column_offset(c),
{
    match c {
        Column::IsSb => 0,
        Column::IsSh => 1,
        Column::IsSw => 2,
        Column::IsLb => 3,
        Column::IsLh => 4,
        Column::IsLbu => 5,
        Column::IsLhu => 6,
        Column::IsLw => 7,
        Column::ValueA => 8,
        Column::ValueAEffective => 12,
        Column::ValueB => 16,
        Column::RamBaseAddr => 20,
        Column::CarryFlag => 24,
        Column::Ram1ValCur => 28,
        Column::Ram1ValPrev => 29,
        Column::Ram1TsPrev => 30,
        Column::Ram1Accessed => 31,
        Column::Ram2ValCur => 32,
        Column::Ram2ValPrev => 33,
        Column::Ram2TsPrev => 34,
        Column::Ram2Accessed => 35,
        Column::Ram3ValCur => 36,
        Column::Ram3ValPrev => 37,
        Column::Ram3TsPrev => 38,
        Column::Ram3Accessed => 39,
        Column::Ram4ValCur => 40,
        Column::Ram4ValPrev => 41,
        Column::Ram4TsPrev => 42,
        Column::Ram4Accessed => 43,
        Column::RamInitFinalAddr => 44,
        Column::RamInitFinalFlag => 48,
        Column::RamFinalCounter => 49,
        Column::RamFinalValue => 50,
    }
}

/// First cell of the program column within a row.
pub fn program_col_offset(c: ProgramColumn) -> (r: usize)
    ensures
        r == program_column_offset(c),
{
    match c {
        ProgramColumn::PublicInputOutputAddr => 0,
        ProgramColumn::PublicInputValue => 4,
        ProgramColumn::PublicInputFlag => 5,
        ProgramColumn::PublicOutputValue => 6,
        ProgramColumn::PublicOutputFlag => 7,
    }
}

/// A dense grid of field elements.
struct Grid {
    rows: Vec<Vec<u32>>,
}

impl Grid {
    spec fn grid(self) -> Seq<Seq<u32>> {
        self.rows@.map_values(|v: Vec<u32>| v@)
    }

    fn new(num_rows: usize, cols: usize) -> (g: Grid)
        ensures
            g.grid().len() == num_rows,
            forall|r: int| 0 <= r < num_rows ==> (#[trigger] g.grid()[r]).len() == cols,
            forall|r: int, c: int| 0 <= r < num_rows && 0 <= c < cols ==> g.grid()[r][c] == 0,
    {
        let mut rows: Vec<Vec<u32>> = Vec::new();
        let mut r: usize = 0;
        while r < num_rows
            invariant
                r <= num_rows,
                rows@.len() == r,
                forall|i: int| 0 <= i < r ==> (#[trigger] rows@[i])@.len() == cols,
                forall|i: int, c: int| 0 <= i < r && 0 <= c < cols ==> rows@[i]@[c] == 0,
            decreases num_rows - r,
        {
            let mut row: Vec<u32> = Vec::new();
            let mut c: usize = 0;
            while c < cols
                invariant
                    c <= cols,
                    row@.len() == c,
                    forall|k: int| 0 <= k < c ==> row@[k] == 0,
                decreases cols - c,
            {
                row.push(0);
                c += 1;
            }
            rows.push(row);
            r += 1;
        }
        let g = Grid { rows };
        proof {
            assert(forall|i: int| 0 <= i < num_rows ==> g.grid()[i] == g.rows@[i]@);
        }
        g
    }

    fn set_cell(&mut self, r: usize, c: usize, v: u32)
        requires
            r < old(self).grid().len(),
            c < old(self).grid()[r as int].len(),
        ensures
            final(self).grid() == old(self).grid().update(
                r as int,
                old(self).grid()[r as int].update(c as int, v),
            ),
    {
        let ghost g0 = self.grid();
        self.rows[r][c] = v;
        proof {
            assert(self.rows@[r as int]@ == g0[r as int].update(c as int, v));
            assert(self.grid() =~= g0.update(r as int, g0[r as int].update(c as int, v)));
        }
    }

    fn cell(&self, r: usize, c: usize) -> (v: u32)
        requires
            r < self.grid().len(),
            c < self.grid()[r as int].len(),
        ensures
            v == self.grid()[r as int][c as int],
    {
        self.rows[r][c]
    }
}

/// The main trace under construction.
pub struct TracesBuilder {
    grid: Grid,
}

/// The program trace under construction.
pub struct ProgramTracesBuilder {
    grid: Grid,
}

impl TracesBuilder {
    /// The grid of field-element values, row-major.
    pub closed spec fn grid(self) -> Seq<Seq<u32>> {
        self.grid.grid()
    }

    /// Every row has one cell per column and every cell is a field element.
    pub open spec fn wf(self) -> bool {
        forall|r: int| 0 <= r < self.grid().len() ==> {
            &&& (#[trigger] self.grid()[r]).len() == NUM_TRACE_COLS
            &&& forall|c: int| 0 <= c < NUM_TRACE_COLS
                ==> #[trigger] self.grid()[r][c] < FIELD_MODULUS
        }
    }

    /// Number of rows.
    pub open spec fn spec_num_rows(self) -> int {
        self.grid().len() as int
    }

    /// The value of limb `k` of column `c` in row `r`.
    pub open spec fn cell(self, r: int, c: Column, k: int) -> int {
        self.grid()[r][column_offset(c) + k] as int
    }

    /// A zero-filled trace of `2^log_size` rows.
    pub fn new(log_size: u32) -> (t: TracesBuilder)
        requires
            log_size < 32,
        ensures
            t.wf(),
            t.spec_num_rows() == (1usize << log_size),
            forall|r: int, c: int| 0 <= r < t.spec_num_rows() && 0 <= c < NUM_TRACE_COLS
                ==> t.grid()[r][c] == 0,
    {
        let n = 1usize << log_size;
        TracesBuilder { grid: Grid::new(n, NUM_TRACE_COLS) }
    }

    /// Number of rows.
    pub fn num_rows(&self) -> (n: usize)
        ensures
            n == self.spec_num_rows(),
    {
        self.grid.rows.len()
    }

    /// Write a single-cell column in row `r`.
    pub fn fill_one(&mut self, r: usize, c: Column, v: u32)
        requires
            old(self).wf(),
            r < old(self).spec_num_rows(),
            column_size(c) == 1,
            v < FIELD_MODULUS,
        ensures
            final(self).wf(),
            final(self).spec_num_rows() == old(self).spec_num_rows(),
            final(self).grid() == old(self).grid().update(
                r as int,
                old(self).grid()[r as int].update(column_offset(c), v),
            ),
    {
        let off = col_offset(c);
        self.grid.set_cell(r, off, v);
    }

    /// Write the four limbs of a word column in row `r`.
    pub fn fill_word(&mut self, r: usize, c: Column, w: Word)
        requires
            old(self).wf(),
            r < old(self).spec_num_rows(),
            column_size(c) == 4,
        ensures
            final(self).wf(),
            final(self).spec_num_rows() == old(self).spec_num_rows(),
            forall|k: int| 0 <= k < 4 ==> final(self).cell(r as int, c, k) == w[k],
            forall|r2: int| 0 <= r2 < old(self).spec_num_rows() && r2 != r
                ==> final(self).grid()[r2] == old(self).grid()[r2],
            forall|c2: int| 0 <= c2 < NUM_TRACE_COLS
                && !(column_offset(c) <= c2 < column_offset(c) + 4)
                ==> #[trigger] final(self).grid()[r as int][c2] == old(self).grid()[r as int][c2],
    {
        let off = col_offset(c);
        let ghost g0 = self.grid();
        self.grid.set_cell(r, off, w[0] as u32);
        self.grid.set_cell(r, off + 1, w[1] as u32);
        self.grid.set_cell(r, off + 2, w[2] as u32);
        self.grid.set_cell(r, off + 3, w[3] as u32);
        proof {
            assert(forall|r2: int| 0 <= r2 < g0.len() && r2 != r
                ==> final(self).grid()[r2] == g0[r2]);
        }
    }

    /// Read one cell.
    pub fn cell_at(&self, r: usize, c: Column, k: usize) -> (v: u32)
        requires
            self.wf(),
            r < self.spec_num_rows(),
            k < column_size(c),
        ensures
            v == self.cell(r as int, c, k as int),
    {
        let off = col_offset(c);
        self.grid.cell(r, off + k)
    }

    /// Read the four limbs of a word column.
    pub fn column(&self, r: usize, c: Column) -> (w: [u32; 4])
        requires
            self.wf(),
            r < self.spec_num_rows(),
            column_size(c) == 4,
        ensures
            forall|k: int| 0 <= k < 4 ==> w[k] == self.cell(r as int, c, k),
    {
        let off = col_offset(c);
        [
            self.grid.cell(r, off),
            self.grid.cell(r, off + 1),
            self.grid.cell(r, off + 2),
            self.grid.cell(r, off + 3),
        ]
    }
}

impl ProgramTracesBuilder {
    /// The grid of field-element values, row-major.
    pub closed spec fn grid(self) -> Seq<Seq<u32>> {
        self.grid.grid()
    }

    /// Every row has one cell per column and every cell is a field element.
    pub open spec fn wf(self) -> bool {
        forall|r: int| 0 <= r < self.grid().len() ==> {
            &&& (#[trigger] self.grid()[r]).len() == NUM_PROGRAM_COLS
            &&& forall|c: int| 0 <= c < NUM_PROGRAM_COLS
                ==> #[trigger] self.grid()[r][c] < FIELD_MODULUS
        }
    }

    /// Number of rows.
    pub open spec fn spec_num_rows(self) -> int {
        self.grid().len() as int
    }

    /// The value of limb `k` of program column `c` in row `r`.
    pub open spec fn cell(self, r: int, c: ProgramColumn, k: int) -> int {
        self.grid()[r][program_column_offset(c) + k] as int
    }

    /// A zero-filled program trace of `2^log_size` rows.
    pub fn new(log_size: u32) -> (t: ProgramTracesBuilder)
        requires
            log_size < 32,
        ensures
            t.wf(),
            t.spec_num_rows() == (1usize << log_size),
            forall|r: int, c: int| 0 <= r < t.spec_num_rows() && 0 <= c < NUM_PROGRAM_COLS
                ==> t.grid()[r][c] == 0,
    {
        let n = 1usize << log_size;
        ProgramTracesBuilder { grid: Grid::new(n, NUM_PROGRAM_COLS) }
    }

    /// Number of rows.
    pub fn num_rows(&self) -> (n: usize)
        ensures
            n == self.spec_num_rows(),
    {
        self.grid.rows.len()
    }

    /// Write a single-cell program column in row `r`.
    pub fn fill_one(&mut self, r: usize, c: ProgramColumn, v: u32)
        requires
            old(self).wf(),
            r < old(self).spec_num_rows(),
            c != ProgramColumn::PublicInputOutputAddr,
            v < FIELD_MODULUS,
        ensures
            final(self).wf(),
            final(self).spec_num_rows() == old(self).spec_num_rows(),
            final(self).grid() == old(self).grid().update(
                r as int,
                old(self).grid()[r as int].update(program_column_offset(c), v),
            ),
    {
        let off = program_col_offset(c);
        self.grid.set_cell(r, off, v);
    }

    /// Write the four address limbs of `PublicInputOutputAddr` in row `r`.
    pub fn fill_addr(&mut self, r: usize, w: Word)
        requires
            old(self).wf(),
            r < old(self).spec_num_rows(),
        ensures
            final(self).wf(),
            final(self).spec_num_rows() == old(self).spec_num_rows(),
            forall|k: int| 0 <= k < 4
                ==> final(self).cell(r as int, ProgramColumn::PublicInputOutputAddr, k) == w[k],
            forall|r2: int| 0 <= r2 < old(self).spec_num_rows() && r2 != r
                ==> final(self).grid()[r2] == old(self).grid()[r2],
            forall|c2: int| 4 <= c2 < NUM_PROGRAM_COLS
                ==> #[trigger] final(self).grid()[r as int][c2] == old(self).grid()[r as int][c2],
    {
        let ghost g0 = self.grid();
        self.grid.set_cell(r, 0, w[0] as u32);
        self.grid.set_cell(r, 1, w[1] as u32);
        self.grid.set_cell(r, 2, w[2] as u32);
        self.grid.set_cell(r, 3, w[3] as u32);
        proof {
            assert(forall|r2: int| 0 <= r2 < g0.len() && r2 != r
                ==> final(self).grid()[r2] == g0[r2]);
        }
    }

    /// Read one cell.
    pub fn cell_at(&self, r: usize, c: ProgramColumn, k: usize) -> (v: u32)
        requires
            self.wf(),
            r < self.spec_num_rows(),
            c == ProgramColumn::PublicInputOutputAddr ==> k < 4,
            c != ProgramColumn::PublicInputOutputAddr ==> k == 0,
        ensures
            v == self.cell(r as int, c, k as int),
    {
        let off = program_col_offset(c);
        self.grid.cell(r, off + k)
    }
}

} // verus!
