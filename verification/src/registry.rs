//! The fixed lookup relationships of this proving pipeline: the sponge table
//! looks its Keccak invocations up in the permutation table.
//!
//! The column layouts of the two traces are fixed by their external
//! generators and are referenced here only by cell index: a lookup row is the
//! permutation's input state followed by its output state, 50 32-bit limbs
//! each, and each table marks the rows carrying an invocation with a 0/1
//! filter cell.

use vstd::prelude::*;
use crate::column::Column;
use crate::table::{CrossTableLookup, Table, TableWithColumns};

verus! {

/// Limbs of one Keccak state: 25 lanes of 64 bits, held as 32-bit limbs.
pub const KECCAK_STATE_LIMBS: usize = 50;

/// First input-state limb column of the permutation trace.
pub const KECCAK_PERM_INPUT_START: usize = 0;

/// First output-state limb column of the permutation trace.
pub const KECCAK_PERM_OUTPUT_START: usize = 50;

/// Filter cell of the permutation trace: 1 on rows exporting an invocation.
pub const KECCAK_PERM_FILTER: usize = 100;

/// Filter cell of the sponge trace: 1 on rows invoking the permutation.
pub const KECCAK_SPONGE_FILTER: usize = 0;

/// First input-state limb column of the sponge trace.
pub const KECCAK_SPONGE_INPUT_START: usize = 1;

/// First output-state limb column of the sponge trace.
pub const KECCAK_SPONGE_OUTPUT_START: usize = 51;

/// The indices `start`, `start + 1`, ..., `start + count - 1`.
fn index_range(start: usize, count: usize) -> (r: Vec<usize>)
    requires
        start + count <= usize::MAX as int,
    ensures
        r@.len() == count,
        forall|i: int| 0 <= i < count ==> #[trigger] r@[i] == start + i,
{
    let mut r: Vec<usize> = Vec::new();
    for i in 0..count
        invariant
            start + count <= usize::MAX as int,
            r@.len() == i,
            forall|j: int| 0 <= j < i ==> #[trigger] r@[j] == start + j,
    {
        r.push(start + i);
    }
    r
}

/// The lookup key of one table: the single-cell columns of its input-state
/// limbs followed by those of its output-state limbs.
fn state_columns(input_start: usize, output_start: usize) -> (r: Vec<Column>)
    requires
        input_start + KECCAK_STATE_LIMBS <= usize::MAX as int,
        output_start + KECCAK_STATE_LIMBS <= usize::MAX as int,
    ensures
        r@.len() == 2 * KECCAK_STATE_LIMBS,
{
    let mut cs = index_range(input_start, KECCAK_STATE_LIMBS);
    let mut out = index_range(output_start, KECCAK_STATE_LIMBS);
    cs.append(&mut out);
    Column::singles(&cs)
}

/// The lookup tying the sponge table's Keccak invocations to the permutation
/// table's rows: the sponge looks, the permutation is looked into.
pub fn ctl_keccak_permutation() -> (r: CrossTableLookup)
    ensures
        r@.wf(),
        r@.looking.len() == 1,
        r@.looking[0].table == Table::KeccakSponge,
        r@.looked.table == Table::KeccakPermutation,
        r@.looking[0].filter is Some,
        r@.looked.filter is Some,
        r@.looked.columns.len() == 2 * KECCAK_STATE_LIMBS,
{
    let keccak_sponge_looking = TableWithColumns::new(
        Table::KeccakSponge,
        state_columns(KECCAK_SPONGE_INPUT_START, KECCAK_SPONGE_OUTPUT_START),
        Some(Column::single(KECCAK_SPONGE_FILTER)),
    );
    let keccak_looked = TableWithColumns::new(
        Table::KeccakPermutation,
        state_columns(KECCAK_PERM_INPUT_START, KECCAK_PERM_OUTPUT_START),
        Some(Column::single(KECCAK_PERM_FILTER)),
    );
    let mut looking: Vec<TableWithColumns> = Vec::new();
    looking.push(keccak_sponge_looking);
    CrossTableLookup::new(looking, keccak_looked)
}

/// Every lookup relationship of the pipeline, in canonical order.
pub fn all_cross_table_lookups() -> (r: Vec<CrossTableLookup>)
    ensures
        r@.len() == 1,
        r@[0]@.wf(),
        r@[0]@.looking.len() == 1,
        r@[0]@.looking[0].table == Table::KeccakSponge,
        r@[0]@.looked.table == Table::KeccakPermutation,
{
    let mut r: Vec<CrossTableLookup> = Vec::new();
    r.push(ctl_keccak_permutation());
    r
}

} // verus!
