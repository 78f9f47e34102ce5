//! The chip's polynomial constraints: seven low-degree relations over the
//! opcode flags and lane accessed-flags that every honest trace row
//! satisfies, evaluated over the Mersenne-31 base field.

use vstd::prelude::*;

use crate::chip::{step_row_filled, ExecutionStep};
use crate::trace::{Column, TracesBuilder};
use crate::FIELD_MODULUS;

verus! {

/// Field addition.
pub open spec fn f_add(a: int, b: int) -> int {
    (a + b) % (FIELD_MODULUS as int)
}

/// Field multiplication.
pub open spec fn f_mul(a: int, b: int) -> int {
    (a * b) % (FIELD_MODULUS as int)
}

/// Field complement `1 - a`.
pub open spec fn f_one_minus(a: int) -> int {
    (1 + FIELD_MODULUS - a) % (FIELD_MODULUS as int)
}

/// Field addition.
pub fn field_add(a: u32, b: u32) -> (r: u32)
    requires
        a < FIELD_MODULUS,
        b < FIELD_MODULUS,
    ensures
        r == f_add(a as int, b as int),
        r < FIELD_MODULUS,
{
    let s = a + b;
    if s >= FIELD_MODULUS {
        proof {
            assert((s as int) % (FIELD_MODULUS as int) == s - FIELD_MODULUS)
                by (nonlinear_arith)
                requires FIELD_MODULUS <= s < 2 * FIELD_MODULUS;
        }
        s - FIELD_MODULUS
    } else {
        s
    }
}

/// Field multiplication.
pub fn field_mul(a: u32, b: u32) -> (r: u32)
    requires
        a < FIELD_MODULUS,
        b < FIELD_MODULUS,
    ensures
        r == f_mul(a as int, b as int),
        r < FIELD_MODULUS,
{
    proof {
        assert((a as int) * (b as int) < 0x4000_0000_0000_0000) by (nonlinear_arith)
            requires a < 0x8000_0000, b < 0x8000_0000;
    }
    let p = a as u64 * b as u64;
    let m = p % (FIELD_MODULUS as u64);
    proof {
        assert(m < FIELD_MODULUS && m == (a as int * b as int) % (FIELD_MODULUS as int))
            by (nonlinear_arith)
            requires p == a as u64 * b as u64, m == p % (FIELD_MODULUS as u64),
                a < FIELD_MODULUS, b < FIELD_MODULUS;
    }
    m as u32
}

/// Field complement `1 - a`.
pub fn field_one_minus(a: u32) -> (r: u32)
    requires
        a < FIELD_MODULUS,
    ensures
        r == f_one_minus(a as int),
        r < FIELD_MODULUS,
{
    let s = 1 + FIELD_MODULUS - a;
    if s >= FIELD_MODULUS {
        proof {
            assert((s as int) % (FIELD_MODULUS as int) == s - FIELD_MODULUS)
                by (nonlinear_arith)
                requires FIELD_MODULUS <= s < 2 * FIELD_MODULUS;
        }
        s - FIELD_MODULUS
    } else {
        s
    }
}

/// The sum of the eight opcode-flag cells of the row, in the field.
pub open spec fn flag_sum(t: TracesBuilder, r: int) -> int {
    f_add(f_add(f_add(f_add(f_add(f_add(f_add(
        t.cell(r, Column::IsSb, 0), t.cell(r, Column::IsSh, 0)), t.cell(r, Column::IsSw, 0)),
        t.cell(r, Column::IsLb, 0)), t.cell(r, Column::IsLh, 0)), t.cell(r, Column::IsLbu, 0)),
        t.cell(r, Column::IsLhu, 0)), t.cell(r, Column::IsLw, 0))
}

/// The sum of the flags of the opcodes that touch at least two bytes.
pub open spec fn multi_byte_flag_sum(t: TracesBuilder, r: int) -> int {
    f_add(f_add(f_add(f_add(
        t.cell(r, Column::IsSh, 0), t.cell(r, Column::IsSw, 0)), t.cell(r, Column::IsLh, 0)),
        t.cell(r, Column::IsLhu, 0)), t.cell(r, Column::IsLw, 0))
}

/// The sum of the flags of the opcodes that touch a single byte.
pub open spec fn byte_flag_sum(t: TracesBuilder, r: int) -> int {
    f_add(f_add(t.cell(r, Column::IsSb, 0), t.cell(r, Column::IsLb, 0)),
        t.cell(r, Column::IsLbu, 0))
}

/// The sum of the flags of the opcodes that touch fewer than four bytes.
pub open spec fn narrow_flag_sum(t: TracesBuilder, r: int) -> int {
    f_add(f_add(f_add(f_add(f_add(
        t.cell(r, Column::IsSb, 0), t.cell(r, Column::IsSh, 0)), t.cell(r, Column::IsLb, 0)),
        t.cell(r, Column::IsLh, 0)), t.cell(r, Column::IsLhu, 0)),
        t.cell(r, Column::IsLbu, 0))
}

/// The sum of the flags of the opcodes that touch four bytes.
pub open spec fn word_flag_sum(t: TracesBuilder, r: int) -> int {
    f_add(t.cell(r, Column::IsSw, 0), t.cell(r, Column::IsLw, 0))
}

/// The seven constraint polynomials of the chip, evaluated on row `r`. An
/// honest row makes every one of them zero.
pub open spec fn constraint_values(t: TracesBuilder, r: int) -> Seq<int> {
    seq![
        f_mul(flag_sum(t, r), f_one_minus(t.cell(r, Column::Ram1Accessed, 0))),
        f_mul(byte_flag_sum(t, r), t.cell(r, Column::Ram2Accessed, 0)),
        f_mul(multi_byte_flag_sum(t, r), f_one_minus(t.cell(r, Column::Ram2Accessed, 0))),
        f_mul(narrow_flag_sum(t, r), t.cell(r, Column::Ram3Accessed, 0)),
        f_mul(word_flag_sum(t, r), f_one_minus(t.cell(r, Column::Ram3Accessed, 0))),
        f_mul(narrow_flag_sum(t, r), t.cell(r, Column::Ram4Accessed, 0)),
        f_mul(word_flag_sum(t, r), f_one_minus(t.cell(r, Column::Ram4Accessed, 0))),
    ]
}

/// Evaluate the seven constraint polynomials on row `r`.
pub fn eval_constraints(t: &TracesBuilder, r: usize) -> (v: Vec<u32>)
    requires
        t.wf(),
        r < t.spec_num_rows(),
    ensures
        v@.len() == 7,
        forall|i: int| 0 <= i < 7 ==> v@[i] == constraint_values(*t, r as int)[i],
{
    let is_sb = t.cell_at(r, Column::IsSb, 0);
    let is_sh = t.cell_at(r, Column::IsSh, 0);
    let is_sw = t.cell_at(r, Column::IsSw, 0);
    let is_lb = t.cell_at(r, Column::IsLb, 0);
    let is_lh = t.cell_at(r, Column::IsLh, 0);
    let is_lbu = t.cell_at(r, Column::IsLbu, 0);
    let is_lhu = t.cell_at(r, Column::IsLhu, 0);
    let is_lw = t.cell_at(r, Column::IsLw, 0);
    let ram1 = t.cell_at(r, Column::Ram1Accessed, 0);
    let ram2 = t.cell_at(r, Column::Ram2Accessed, 0);
    let ram3 = t.cell_at(r, Column::Ram3Accessed, 0);
    let ram4 = t.cell_at(r, Column::Ram4Accessed, 0);
    let all = field_add(field_add(field_add(field_add(field_add(field_add(field_add(
        is_sb, is_sh), is_sw), is_lb), is_lh), is_lbu), is_lhu), is_lw);
    let multi = field_add(field_add(field_add(field_add(is_sh, is_sw), is_lh), is_lhu), is_lw);
    let byte = field_add(field_add(is_sb, is_lb), is_lbu);
    let narrow = field_add(field_add(field_add(field_add(field_add(
        is_sb, is_sh), is_lb), is_lh), is_lhu), is_lbu);
    let word = field_add(is_sw, is_lw);
    let mut v: Vec<u32> = Vec::new();
    v.push(field_mul(all, field_one_minus(ram1)));
    v.push(field_mul(byte, ram2));
    v.push(field_mul(multi, field_one_minus(ram2)));
    v.push(field_mul(narrow, ram3));
    v.push(field_mul(word, field_one_minus(ram3)));
    v.push(field_mul(narrow, ram4));
    v.push(field_mul(word, field_one_minus(ram4)));
    v
}

/// The deferred lookup constraint block: the multiset argument that will bind
/// each accessed lane's `(address + i, TsPrev, ValPrev)` and
/// `(address + i, timestamp, ValCur)` tuples, summed across all rows, against
/// the initial/final memory columns, enforcing read-last-write globally. The
/// lane, address and timestamp columns it consumes are populated already; the
/// polynomial linkage is deferred, so the block holds no constraints yet.
pub open spec fn lookup_constraint_values(t: TracesBuilder, r: int) -> Seq<int> {
    Seq::empty()
}

/// Evaluate the deferred lookup constraint block on row `r`: the attachment
/// point for the future multiset argument, empty until that argument lands.
pub fn eval_lookup_constraints(t: &TracesBuilder, r: usize) -> (v: Vec<u32>)
    requires
        t.wf(),
        r < t.spec_num_rows(),
    ensures
        v@.len() == lookup_constraint_values(*t, r as int).len(),
        forall|i: int| 0 <= i < v@.len()
            ==> v@[i] == lookup_constraint_values(*t, r as int)[i],
{
    let _ = t;
    let _ = r;
    Vec::new()
}

/// The row-level invariant the populator guarantees: every opcode flag is a
/// bit, at most one is set, lane 1 is accessed exactly on memory rows, lane 2
/// exactly on multi-byte rows, and lanes 3 and 4 exactly on word rows.
pub open spec fn row_constrained(t: TracesBuilder, r: int) -> bool {
    let is_sb = t.cell(r, Column::IsSb, 0);
    let is_sh = t.cell(r, Column::IsSh, 0);
    let is_sw = t.cell(r, Column::IsSw, 0);
    let is_lb = t.cell(r, Column::IsLb, 0);
    let is_lh = t.cell(r, Column::IsLh, 0);
    let is_lbu = t.cell(r, Column::IsLbu, 0);
    let is_lhu = t.cell(r, Column::IsLhu, 0);
    let is_lw = t.cell(r, Column::IsLw, 0);
    &&& 0 <= is_sb <= 1
    &&& 0 <= is_sh <= 1
    &&& 0 <= is_sw <= 1
    &&& 0 <= is_lb <= 1
    &&& 0 <= is_lh <= 1
    &&& 0 <= is_lbu <= 1
    &&& 0 <= is_lhu <= 1
    &&& 0 <= is_lw <= 1
    &&& is_sb + is_sh + is_sw + is_lb + is_lh + is_lbu + is_lhu + is_lw <= 1
    &&& t.cell(r, Column::Ram1Accessed, 0)
        == is_sb + is_sh + is_sw + is_lb + is_lh + is_lbu + is_lhu + is_lw
    &&& t.cell(r, Column::Ram2Accessed, 0) == is_sh + is_sw + is_lh + is_lhu + is_lw
    &&& t.cell(r, Column::Ram3Accessed, 0) == is_sw + is_lw
    &&& t.cell(r, Column::Ram4Accessed, 0) == is_sw + is_lw
}

/// Law: a row filled by the populator for a memory step satisfies the
/// row-level invariant — each opcode flag is a bit, exactly one is set, lane
/// 1 is accessed, lane 2 exactly when the access is wider than a byte, and
/// lanes 3 and 4 exactly when it is a word.
pub proof fn lemma_filled_row_constrained(t: TracesBuilder, r: int, step: ExecutionStep)
    requires
        step_row_filled(t, r, step),
        crate::riscv::is_memory_opcode(step.opcode),
    ensures
        row_constrained(t, r),
        t.cell(r, Column::Ram1Accessed, 0) == 1,
{
    assert(crate::chip::lane_val_cur_col(0) == Column::Ram1ValCur);
    assert(crate::chip::lane_val_cur_col(1) == Column::Ram2ValCur);
    assert(crate::chip::lane_val_cur_col(2) == Column::Ram3ValCur);
    assert(crate::chip::lane_val_cur_col(3) == Column::Ram4ValCur);
    assert(crate::chip::lane_accessed_col(0) == Column::Ram1Accessed);
    assert(crate::chip::lane_accessed_col(1) == Column::Ram2Accessed);
    assert(crate::chip::lane_accessed_col(2) == Column::Ram3Accessed);
    assert(crate::chip::lane_accessed_col(3) == Column::Ram4Accessed);
    assert(t.cell(r, Column::Ram1Accessed, 0) == 1);
}

/// Law: a row the populator never touched — all its chip cells still zero —
/// satisfies the row-level invariant with no flag set.
pub proof fn lemma_untouched_row_constrained(t: TracesBuilder, r: int)
    requires
        0 <= r < t.spec_num_rows(),
        forall|c: int| 0 <= c < 44 ==> t.grid()[r][c] == 0,
    ensures
        row_constrained(t, r),
{
    assert(t.grid()[r][31] == 0);
    assert(t.grid()[r][35] == 0);
    assert(t.grid()[r][39] == 0);
    assert(t.grid()[r][43] == 0);
}

proof fn lemma_mod_small(x: int)
    by (nonlinear_arith)
    requires
        0 <= x < (FIELD_MODULUS as int),
    ensures
        x % (FIELD_MODULUS as int) == x,
{
}

proof fn lemma_mul_mod_zero(a: int)
    by (nonlinear_arith)
    ensures
        (a * 0) % (FIELD_MODULUS as int) == 0,
        (0 * a) % (FIELD_MODULUS as int) == 0,
{
}

/// The row-level invariant only involves the first 44 cells of the row, so
/// it survives any later write to other cells or other rows.
pub proof fn lemma_row_constrained_preserved(t1: TracesBuilder, t2: TracesBuilder, r: int)
    requires
        row_constrained(t1, r),
        forall|c2: int| 0 <= c2 < 44 ==> #[trigger] t2.grid()[r][c2] == t1.grid()[r][c2],
    ensures
        row_constrained(t2, r),
{
    assert(t2.grid()[r][0] == t1.grid()[r][0]);
    assert(t2.grid()[r][1] == t1.grid()[r][1]);
    assert(t2.grid()[r][2] == t1.grid()[r][2]);
    assert(t2.grid()[r][3] == t1.grid()[r][3]);
    assert(t2.grid()[r][4] == t1.grid()[r][4]);
    assert(t2.grid()[r][5] == t1.grid()[r][5]);
    assert(t2.grid()[r][6] == t1.grid()[r][6]);
    assert(t2.grid()[r][7] == t1.grid()[r][7]);
    assert(t2.grid()[r][31] == t1.grid()[r][31]);
    assert(t2.grid()[r][35] == t1.grid()[r][35]);
    assert(t2.grid()[r][39] == t1.grid()[r][39]);
    assert(t2.grid()[r][43] == t1.grid()[r][43]);
}

/// Law: the seven constraint polynomials vanish on every row that satisfies
/// the row-level invariant.
pub proof fn lemma_constraints_vanish(t: TracesBuilder, r: int)
    requires
        row_constrained(t, r),
    ensures
        forall|i: int| 0 <= i < 7 ==> #[trigger] constraint_values(t, r)[i] == 0,
{
    let p = FIELD_MODULUS as int;
    let sb = t.cell(r, Column::IsSb, 0);
    let sh = t.cell(r, Column::IsSh, 0);
    let sw = t.cell(r, Column::IsSw, 0);
    let lb = t.cell(r, Column::IsLb, 0);
    let lh = t.cell(r, Column::IsLh, 0);
    let lbu = t.cell(r, Column::IsLbu, 0);
    let lhu = t.cell(r, Column::IsLhu, 0);
    let lw = t.cell(r, Column::IsLw, 0);
    let ram1 = t.cell(r, Column::Ram1Accessed, 0);
    let ram2 = t.cell(r, Column::Ram2Accessed, 0);
    let ram3 = t.cell(r, Column::Ram3Accessed, 0);
    let ram4 = t.cell(r, Column::Ram4Accessed, 0);
    assert(flag_sum(t, r) == sb + sh + sw + lb + lh + lbu + lhu + lw) by {
        lemma_mod_small(sb + sh);
        lemma_mod_small(sb + sh + sw);
        lemma_mod_small(sb + sh + sw + lb);
        lemma_mod_small(sb + sh + sw + lb + lh);
        lemma_mod_small(sb + sh + sw + lb + lh + lbu);
        lemma_mod_small(sb + sh + sw + lb + lh + lbu + lhu);
        lemma_mod_small(sb + sh + sw + lb + lh + lbu + lhu + lw);
    }
    assert(multi_byte_flag_sum(t, r) == sh + sw + lh + lhu + lw) by {
        lemma_mod_small(sh + sw);
        lemma_mod_small(sh + sw + lh);
        lemma_mod_small(sh + sw + lh + lhu);
        lemma_mod_small(sh + sw + lh + lhu + lw);
    }
    assert(byte_flag_sum(t, r) == sb + lb + lbu) by {
        lemma_mod_small(sb + lb);
        lemma_mod_small(sb + lb + lbu);
    }
    assert(narrow_flag_sum(t, r) == sb + sh + lb + lh + lhu + lbu) by {
        lemma_mod_small(sb + sh);
        lemma_mod_small(sb + sh + lb);
        lemma_mod_small(sb + sh + lb + lh);
        lemma_mod_small(sb + sh + lb + lh + lhu);
        lemma_mod_small(sb + sh + lb + lh + lhu + lbu);
    }
    assert(word_flag_sum(t, r) == sw + lw) by {
        lemma_mod_small(sw + lw);
    }
    assert((FIELD_MODULUS as int) % (FIELD_MODULUS as int) == 0) by (nonlinear_arith);
    lemma_mod_small(0int);
    lemma_mod_small(1int);
    let vs = constraint_values(t, r);
    assert(vs[0] == f_mul(flag_sum(t, r), f_one_minus(ram1)));
    assert(vs[0] == 0) by {
        assert(0 <= ram1 <= 1);
        if ram1 == 0 {
            assert(flag_sum(t, r) == 0);
            lemma_mul_mod_zero(f_one_minus(ram1));
        } else {
            assert(f_one_minus(1) == 0);
            lemma_mod_small(0int);
        }
    }
    assert(vs[1] == 0) by {
        if sb + lb + lbu == 0 {
            lemma_mul_mod_zero(ram2);
        } else {
            assert(ram2 == 0);
            lemma_mul_mod_zero(byte_flag_sum(t, r));
        }
    }
    assert(vs[2] == 0) by {
        if ram2 == 0 {
            lemma_mul_mod_zero(f_one_minus(ram2));
        } else {
            assert(f_one_minus(1) == 0);
            lemma_mul_mod_zero(multi_byte_flag_sum(t, r));
        }
    }
    assert(vs[3] == 0) by {
        if sb + sh + lb + lh + lhu + lbu == 0 {
            lemma_mul_mod_zero(ram3);
        } else {
            assert(ram3 == 0);
            lemma_mul_mod_zero(narrow_flag_sum(t, r));
        }
    }
    assert(vs[4] == 0) by {
        if ram3 == 0 {
            lemma_mul_mod_zero(f_one_minus(ram3));
        } else {
            assert(f_one_minus(1) == 0);
            lemma_mul_mod_zero(word_flag_sum(t, r));
        }
    }
    assert(vs[5] == 0) by {
        if sb + sh + lb + lh + lhu + lbu == 0 {
            lemma_mul_mod_zero(ram4);
        } else {
            assert(ram4 == 0);
            lemma_mul_mod_zero(narrow_flag_sum(t, r));
        }
    }
    assert(vs[6] == 0) by {
        if ram4 == 0 {
            lemma_mul_mod_zero(f_one_minus(ram4));
        } else {
            assert(f_one_minus(1) == 0);
            lemma_mul_mod_zero(word_flag_sum(t, r));
        }
    }
    assert forall|i: int| 0 <= i < 7 implies #[trigger] constraint_values(t, r)[i] == 0 by {
        assert(vs[i] == 0);
    }
}

} // verus!
