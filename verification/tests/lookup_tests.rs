use cross_table_lookup::challenge::{PermutationChallenge, PermutationChallengeSet};
use cross_table_lookup::check_vars::{eval_cross_table_lookup_checks, CtlCheckVars};
use cross_table_lookup::column::Column;
use cross_table_lookup::consistency::{check_ctl, check_ctls};
use cross_table_lookup::ctl::{cross_table_lookup_data, partial_products};
use cross_table_lookup::error::CtlError;
use cross_table_lookup::field::Fe;
use cross_table_lookup::table::{CrossTableLookup, Table, TableWithColumns};
use cross_table_lookup::verify::verify_cross_table_lookups;

fn fe(x: u64) -> Fe {
    Fe::from_u64(x)
}

fn fes(xs: &[u64]) -> Vec<Fe> {
    xs.iter().map(|&x| fe(x)).collect()
}

/// A lookup between the two tables over a one-cell key: column 0 carries the
/// value, column 1 the filter, in both traces. The sponge table looks, the
/// permutation table is looked into.
fn value_filter_lookup() -> CrossTableLookup {
    let looking = TableWithColumns::new(
        Table::KeccakSponge,
        vec![Column::single(0)],
        Some(Column::single(1)),
    );
    let looked = TableWithColumns::new(
        Table::KeccakPermutation,
        vec![Column::single(0)],
        Some(Column::single(1)),
    );
    CrossTableLookup::new(vec![looking], looked)
}

/// Column-major traces: `traces[0]` is the permutation (looked) table,
/// `traces[1]` the sponge (looking) table.
fn traces(looked_vals: &[u64], looked_filt: &[u64], looking_vals: &[u64], looking_filt: &[u64])
    -> Vec<Vec<Vec<Fe>>> {
    vec![
        vec![fes(looked_vals), fes(looked_filt)],
        vec![fes(looking_vals), fes(looking_filt)],
    ]
}

#[test]
fn partial_products_accumulates_active_rows() {
    // active rows 0 and 2 with values 7 and 3 under the identity combination
    let trace = vec![fes(&[7, 0, 3, 0]), fes(&[1, 0, 1, 0])];
    let ch = PermutationChallenge { beta: fe(1), gamma: fe(0) };
    let z = partial_products(&trace, &vec![Column::single(0)], &Some(Column::single(1)), ch)
        .unwrap();
    let got: Vec<u64> = z.iter().map(|v| v.to_u64()).collect();
    assert_eq!(got, vec![7, 7, 21, 21]);
}

#[test]
fn partial_products_without_filter_takes_every_row() {
    let trace = vec![fes(&[2, 3, 5])];
    let ch = PermutationChallenge { beta: fe(1), gamma: fe(0) };
    let z = partial_products(&trace, &vec![Column::single(0)], &None, ch).unwrap();
    let got: Vec<u64> = z.iter().map(|v| v.to_u64()).collect();
    assert_eq!(got, vec![2, 6, 30]);
}

#[test]
fn partial_products_rejects_non_binary_filter() {
    let trace = vec![fes(&[7, 0, 3, 0]), fes(&[1, 0, 2, 0])];
    let ch = PermutationChallenge { beta: fe(1), gamma: fe(0) };
    let r = partial_products(&trace, &vec![Column::single(0)], &Some(Column::single(1)), ch);
    assert_eq!(r.unwrap_err(), CtlError::NonBinaryFilter);
}

#[test]
fn partial_products_accepts_binary_filters() {
    // any trace whose filter stays in {0,1} passes the binarity check
    let trace = vec![fes(&[9, 8, 7, 6]), fes(&[0, 1, 1, 0])];
    let ch = PermutationChallenge { beta: fe(3), gamma: fe(11) };
    assert!(partial_products(&trace, &vec![Column::single(0)], &Some(Column::single(1)), ch)
        .is_ok());
}

#[test]
fn scenario_mismatch_is_caught_by_self_test_and_products() {
    // looking side: value 7 once and 3 once; looked side: 7 once, 3 twice
    let tps = traces(&[7, 3, 0, 3], &[1, 1, 0, 1], &[7, 0, 3, 0], &[1, 0, 1, 0]);
    let ctls = vec![value_filter_lookup()];

    assert_eq!(check_ctls(&tps, &ctls).unwrap_err(), CtlError::MultisetMismatch);
    assert_eq!(check_ctl(&tps, &ctls[0]).unwrap_err(), CtlError::MultisetMismatch);

    let chs = PermutationChallengeSet {
        challenges: vec![PermutationChallenge { beta: fe(1), gamma: fe(0) }],
    };
    let r = cross_table_lookup_data(&tps, &ctls, &chs);
    assert_eq!(r.unwrap_err(), CtlError::ProductMismatch);

    // the final openings the two tables would expose: 7*3*3 against 7*3
    let lasts = vec![fes(&[63]), fes(&[21])];
    let r2 = verify_cross_table_lookups(&ctls, &lasts, 1);
    assert_eq!(r2.unwrap_err(), CtlError::VerificationFailed);
}

#[test]
fn scenario_match_passes_all_checks() {
    // both sides now hold the multiset {7, 3}
    let tps = traces(&[7, 3, 0, 0], &[1, 1, 0, 0], &[7, 0, 3, 0], &[1, 0, 1, 0]);
    let ctls = vec![value_filter_lookup()];

    assert!(check_ctls(&tps, &ctls).is_ok());

    let chs = PermutationChallengeSet {
        challenges: vec![PermutationChallenge { beta: fe(9), gamma: fe(5) }],
    };
    let data = cross_table_lookup_data(&tps, &ctls, &chs).unwrap();
    assert_eq!(data.len(), 2);
    assert_eq!(data[0].len(), 1);
    assert_eq!(data[1].len(), 1);
    assert!(!data[0].is_empty());

    // with gamma 5 the active combined values are 12 and 8 on both sides
    let z_looked = &data[0].z_polys()[0];
    let z_looking = &data[1].z_polys()[0];
    assert_eq!(z_looked.last().unwrap().to_u64(), 96);
    assert_eq!(z_looking.last().unwrap().to_u64(), 96);
    assert_eq!(z_looked.iter().map(|v| v.to_u64()).collect::<Vec<u64>>(), vec![12, 96, 96, 96]);

    let lasts = vec![fes(&[96]), fes(&[96])];
    assert!(verify_cross_table_lookups(&ctls, &lasts, 1).is_ok());
}

#[test]
fn mutating_one_active_looking_row_is_detected() {
    // consistent first; then one active looking value changed from 7 to 9
    let good = traces(&[7, 3, 0, 0], &[1, 1, 0, 0], &[7, 0, 3, 0], &[1, 0, 1, 0]);
    let ctls = vec![value_filter_lookup()];
    assert!(check_ctls(&good, &ctls).is_ok());

    let bad = traces(&[7, 3, 0, 0], &[1, 1, 0, 0], &[9, 0, 3, 0], &[1, 0, 1, 0]);
    assert_eq!(check_ctls(&bad, &ctls).unwrap_err(), CtlError::MultisetMismatch);
}

#[test]
fn check_ctls_rejects_non_binary_filter() {
    let tps = traces(&[7, 3, 0, 0], &[1, 2, 0, 0], &[7, 0, 3, 0], &[1, 0, 1, 0]);
    let ctls = vec![value_filter_lookup()];
    assert_eq!(check_ctls(&tps, &ctls).unwrap_err(), CtlError::NonBinaryFilter);
}

#[test]
fn verify_rejects_wrong_opening_counts() {
    let ctls = vec![value_filter_lookup()];
    // one challenge: each table must offer exactly one last value
    let too_many = vec![fes(&[21, 5]), fes(&[21])];
    assert_eq!(
        verify_cross_table_lookups(&ctls, &too_many, 1).unwrap_err(),
        CtlError::DesyncOpenings
    );
    let too_few = vec![fes(&[]), fes(&[21])];
    assert_eq!(
        verify_cross_table_lookups(&ctls, &too_few, 1).unwrap_err(),
        CtlError::DesyncOpenings
    );
    let wrong_tables = vec![fes(&[21])];
    assert_eq!(
        verify_cross_table_lookups(&ctls, &wrong_tables, 1).unwrap_err(),
        CtlError::DesyncOpenings
    );
}

#[test]
fn verify_accepts_matching_products_two_challenges() {
    let ctls = vec![value_filter_lookup()];
    // two challenges: two last values per table, pairwise equal
    let lasts = vec![fes(&[21, 40]), fes(&[21, 40])];
    assert!(verify_cross_table_lookups(&ctls, &lasts, 2).is_ok());
    let broken = vec![fes(&[21, 40]), fes(&[21, 41])];
    assert_eq!(
        verify_cross_table_lookups(&ctls, &broken, 2).unwrap_err(),
        CtlError::VerificationFailed
    );
}

#[test]
fn from_proof_skips_permutation_openings() {
    let ctls = vec![value_filter_lookup()];
    let chs = PermutationChallengeSet {
        challenges: vec![PermutationChallenge { beta: fe(2), gamma: fe(3) }],
    };
    // one non-lookup opening precedes the single lookup opening
    let zs = fes(&[99, 21]);
    let zs_next = fes(&[98, 22]);
    let vars =
        CtlCheckVars::from_proof(Table::KeccakPermutation, &zs, &zs_next, &ctls, &chs, 1);
    assert_eq!(vars.len(), 1);
    assert_eq!(vars[0].local_z.to_u64(), 21);
    assert_eq!(vars[0].next_z.to_u64(), 22);
    assert_eq!(vars[0].challenges.beta.to_u64(), 2);
    assert_eq!(vars[0].columns.len(), 1);
}

#[test]
fn from_proofs_extracts_every_table() {
    let ctls = vec![value_filter_lookup()];
    let chs = PermutationChallengeSet {
        challenges: vec![PermutationChallenge { beta: fe(2), gamma: fe(3) }],
    };
    let zs = vec![fes(&[21]), fes(&[5, 33])];
    let zs_next = vec![fes(&[22]), fes(&[6, 34])];
    let nperm = vec![0, 1];
    let vars = CtlCheckVars::from_proofs(&zs, &zs_next, &ctls, &chs, &nperm);
    assert_eq!(vars.len(), 2);
    assert_eq!(vars[0].len(), 1);
    assert_eq!(vars[1].len(), 1);
    assert_eq!(vars[0][0].local_z.to_u64(), 21);
    assert_eq!(vars[1][0].local_z.to_u64(), 33);
    assert_eq!(vars[1][0].next_z.to_u64(), 34);
}

#[test]
fn constraint_evaluation_is_zero_on_valid_openings() {
    // row values: cell 0 the key, cell 1 the filter
    let local = fes(&[7, 1]);
    let next = fes(&[3, 1]);
    let vars = vec![CtlCheckVars {
        local_z: fe(7),
        next_z: fe(21),
        challenges: PermutationChallenge { beta: fe(1), gamma: fe(0) },
        columns: vec![Column::single(0)],
        filter_column: Some(Column::single(1)),
    }];
    let cs = eval_cross_table_lookup_checks(&local, &next, &vars);
    assert_eq!(cs.first_row.len(), 1);
    assert_eq!(cs.transition.len(), 1);
    assert_eq!(cs.first_row[0].to_u64(), 0);
    assert_eq!(cs.transition[0].to_u64(), 0);
}

#[test]
fn constraint_evaluation_flags_wrong_openings() {
    let local = fes(&[7, 1]);
    let next = fes(&[3, 0]);
    let vars = vec![CtlCheckVars {
        local_z: fe(8),
        next_z: fe(9),
        challenges: PermutationChallenge { beta: fe(1), gamma: fe(0) },
        columns: vec![Column::single(0)],
        filter_column: Some(Column::single(1)),
    }];
    let cs = eval_cross_table_lookup_checks(&local, &next, &vars);
    // boundary: 8 - select(1, 7) = 1; transition: 9 - 8*select(0, 3) = 1
    assert_eq!(cs.first_row[0].to_u64(), 1);
    assert_eq!(cs.transition[0].to_u64(), 1);
}

#[test]
fn empty_lookup_set_passes_trivially() {
    let tps = traces(&[7], &[1], &[7], &[1]);
    let ctls: Vec<CrossTableLookup> = vec![];
    assert!(check_ctls(&tps, &ctls).is_ok());
    let chs = PermutationChallengeSet {
        challenges: vec![PermutationChallenge { beta: fe(1), gamma: fe(0) }],
    };
    let data = cross_table_lookup_data(&tps, &ctls, &chs).unwrap();
    assert_eq!(data.len(), 2);
    assert!(data[0].is_empty());
    assert!(data[1].is_empty());
    let lasts = vec![fes(&[]), fes(&[])];
    assert!(verify_cross_table_lookups(&ctls, &lasts, 1).is_ok());
}

#[test]
fn zero_challenges_consume_no_openings() {
    let ctls = vec![value_filter_lookup()];
    let lasts = vec![fes(&[]), fes(&[])];
    assert!(verify_cross_table_lookups(&ctls, &lasts, 0).is_ok());
    let nonempty = vec![fes(&[1]), fes(&[])];
    assert_eq!(
        verify_cross_table_lookups(&ctls, &nonempty, 0).unwrap_err(),
        CtlError::DesyncOpenings
    );
}

#[test]
fn two_looking_tables_multiply_into_one_looked() {
    // both tables look into the permutation table over the one-cell key;
    // looking actives: {5} from the permutation table itself and {3} from
    // the sponge table; looked actives: {5, 3}
    let looking_self = TableWithColumns::new(
        Table::KeccakPermutation,
        vec![Column::single(0)],
        Some(Column::single(1)),
    );
    let looking_sponge = TableWithColumns::new(
        Table::KeccakSponge,
        vec![Column::single(0)],
        Some(Column::single(1)),
    );
    let looked = TableWithColumns::new(
        Table::KeccakPermutation,
        vec![Column::single(2)],
        Some(Column::single(3)),
    );
    let ctl = CrossTableLookup::new(vec![looking_self, looking_sponge], looked);
    let tps = vec![
        // permutation trace: looking key cols 0/1, looked key cols 2/3
        vec![fes(&[5, 0]), fes(&[1, 0]), fes(&[5, 3]), fes(&[1, 1])],
        // sponge trace
        vec![fes(&[3, 0]), fes(&[1, 0])],
    ];
    let ctls = vec![ctl];
    assert!(check_ctls(&tps, &ctls).is_ok());
    let chs = PermutationChallengeSet {
        challenges: vec![PermutationChallenge { beta: fe(1), gamma: fe(0) }],
    };
    let data = cross_table_lookup_data(&tps, &ctls, &chs).unwrap();
    // the permutation table carries two Z polynomials: looking then looked
    assert_eq!(data[0].len(), 2);
    assert_eq!(data[1].len(), 1);
    let zs = data[0].z_polys();
    assert_eq!(zs[0].last().unwrap().to_u64(), 5);
    assert_eq!(zs[1].last().unwrap().to_u64(), 15);
    assert_eq!(data[1].z_polys()[0].last().unwrap().to_u64(), 3);
    // 5 * 3 == 15
    let lasts = vec![fes(&[5, 15]), fes(&[3])];
    assert!(verify_cross_table_lookups(&ctls, &lasts, 1).is_ok());
}
