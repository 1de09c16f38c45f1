use cross_table_lookup::challenge::PermutationChallenge;
use cross_table_lookup::column::Column;
use cross_table_lookup::error::CtlError;
use cross_table_lookup::field::{Fe, GOLDILOCKS_P};
use cross_table_lookup::registry::{all_cross_table_lookups, ctl_keccak_permutation};
use cross_table_lookup::table::{CrossTableLookup, Table, TableWithColumns, NUM_TABLES};

fn fe(x: u64) -> Fe {
    Fe::from_u64(x)
}

#[test]
fn field_add_wraps_at_modulus() {
    let a = fe(GOLDILOCKS_P - 1);
    let b = fe(1);
    assert_eq!(a.add(b).to_u64(), 0);
    assert_eq!(fe(3).add(fe(4)).to_u64(), 7);
}

#[test]
fn field_mul_exact() {
    // (p-1)^2 = p^2 - 2p + 1, which is 1 modulo p
    let m = fe(GOLDILOCKS_P - 1);
    assert_eq!(m.mul(m).to_u64(), 1);
    assert_eq!(fe(6).mul(fe(7)).to_u64(), 42);
    assert_eq!(fe(0).mul(m).to_u64(), 0);
}

#[test]
fn field_sub_wraps_below_zero() {
    assert_eq!(fe(3).sub(fe(5)).to_u64(), GOLDILOCKS_P - 2);
    assert_eq!(fe(5).sub(fe(3)).to_u64(), 2);
}

#[test]
fn field_from_u64_reduces() {
    assert_eq!(fe(GOLDILOCKS_P).to_u64(), 0);
    assert_eq!(fe(GOLDILOCKS_P - 1).to_u64(), GOLDILOCKS_P - 1);
}

#[test]
fn combine_folds_with_powers_then_adds_gamma() {
    let ch = PermutationChallenge { beta: fe(2), gamma: fe(10) };
    let evals = vec![fe(3), fe(5), fe(7)];
    // 3 + 5*2 + 7*4 = 41, plus gamma 10
    assert_eq!(ch.combine(&evals).to_u64(), 51);
}

#[test]
fn combine_of_single_value_adds_gamma() {
    let ch = PermutationChallenge { beta: fe(123), gamma: fe(9) };
    let evals = vec![fe(7)];
    assert_eq!(ch.combine(&evals).to_u64(), 16);
}

#[test]
fn eval_and_eval_table_agree() {
    // trace in column-major form: two columns, three rows
    let trace = vec![vec![fe(1), fe(2), fe(3)], vec![fe(10), fe(20), fe(30)]];
    let col =
        Column::linear_combination_with_constant(vec![(0, fe(2)), (1, fe(3))], fe(5)).unwrap();
    let row1 = vec![fe(2), fe(20)];
    // 2*2 + 20*3 + 5 = 69 either way
    assert_eq!(col.eval_table(&trace, 1).to_u64(), 69);
    assert_eq!(col.eval(&row1).to_u64(), 69);
    assert_eq!(col.eval_table(&trace, 1).to_u64(), col.eval(&row1).to_u64());
}

#[test]
fn le_bits_reproduces_the_integer() {
    // 13 = 1011 in little-endian bits 1,0,1,1
    let col = Column::le_bits(&vec![0, 1, 2, 3]).unwrap();
    let row = vec![fe(1), fe(0), fe(1), fe(1)];
    assert_eq!(col.eval(&row).to_u64(), 13);
}

#[test]
fn le_bytes_reproduces_the_integer() {
    let col = Column::le_bytes(&vec![0, 1]).unwrap();
    let row = vec![fe(0x34), fe(0x12)];
    assert_eq!(col.eval(&row).to_u64(), 0x1234);
}

#[test]
fn sum_adds_the_cells() {
    let col = Column::sum(&vec![0, 2]).unwrap();
    let row = vec![fe(4), fe(100), fe(9)];
    assert_eq!(col.eval(&row).to_u64(), 13);
}

#[test]
fn single_and_constant_columns() {
    let row = vec![fe(4), fe(7)];
    assert_eq!(Column::single(1).eval(&row).to_u64(), 7);
    assert_eq!(Column::constant(fe(42)).eval(&row).to_u64(), 42);
    assert_eq!(Column::zero().eval(&row).to_u64(), 0);
    assert_eq!(Column::one().eval(&row).to_u64(), 1);
    let singles = Column::singles(&vec![0, 1]);
    assert_eq!(singles.len(), 2);
    assert_eq!(singles[0].eval(&row).to_u64(), 4);
    assert_eq!(singles[1].eval(&row).to_u64(), 7);
}

#[test]
fn duplicate_column_index_is_rejected() {
    let r = Column::linear_combination(vec![(1, fe(2)), (1, fe(3))]);
    assert_eq!(r.unwrap_err(), CtlError::DuplicateColumn);
    let r2 = Column::le_bits(&vec![0, 0]);
    assert_eq!(r2.unwrap_err(), CtlError::DuplicateColumn);
}

#[test]
fn empty_combination_is_rejected() {
    let r = Column::linear_combination(vec![]);
    assert_eq!(r.unwrap_err(), CtlError::EmptyCombination);
}

#[test]
fn table_registry_is_fixed() {
    let all = Table::all();
    assert_eq!(all.len(), NUM_TABLES);
    assert_eq!(all[0], Table::KeccakPermutation);
    assert_eq!(all[1], Table::KeccakSponge);
    assert_eq!(Table::KeccakPermutation.index(), 0);
    assert_eq!(Table::KeccakSponge.index(), 1);
}

#[test]
fn keccak_lookup_shape() {
    let ctl = ctl_keccak_permutation();
    assert_eq!(ctl.looking_tables.len(), 1);
    assert_eq!(ctl.looking_tables[0].table, Table::KeccakSponge);
    assert_eq!(ctl.looked_table.table, Table::KeccakPermutation);
    assert_eq!(ctl.looked_table.columns.len(), 100);
    assert_eq!(ctl.looking_tables[0].columns.len(), 100);
    let all = all_cross_table_lookups();
    assert_eq!(all.len(), 1);
}

#[test]
fn num_ctl_zs_counts_participations_per_challenge() {
    let ctls = all_cross_table_lookups();
    // each table participates once in the single lookup
    assert_eq!(CrossTableLookup::num_ctl_zs(&ctls, Table::KeccakPermutation, 2), 2);
    assert_eq!(CrossTableLookup::num_ctl_zs(&ctls, Table::KeccakSponge, 3), 3);
    assert_eq!(CrossTableLookup::num_ctl_zs(&ctls, Table::KeccakSponge, 0), 0);
}

#[test]
fn disable_ctl_forces_zero_filters_and_is_idempotent() {
    let mut ctl = ctl_keccak_permutation();
    cross_table_lookup::table::disable_ctl(&mut ctl);
    let row = vec![fe(5); 101];
    let f1 = ctl.looked_table.filter_column.as_ref().unwrap().eval(&row);
    assert_eq!(f1.to_u64(), 0);
    let cols_before = ctl.looked_table.columns.len();
    cross_table_lookup::table::disable_ctl(&mut ctl);
    let f2 = ctl.looked_table.filter_column.as_ref().unwrap().eval(&row);
    assert_eq!(f2.to_u64(), 0);
    assert_eq!(ctl.looked_table.columns.len(), cols_before);
    let g = ctl.looking_tables[0].filter_column.as_ref().unwrap().eval(&row);
    assert_eq!(g.to_u64(), 0);
}

#[test]
fn table_with_columns_new_keeps_fields() {
    let twc = TableWithColumns::new(
        Table::KeccakSponge,
        vec![Column::single(0)],
        Some(Column::single(1)),
    );
    assert_eq!(twc.table, Table::KeccakSponge);
    assert_eq!(twc.columns.len(), 1);
    assert!(twc.filter_column.is_some());
}
