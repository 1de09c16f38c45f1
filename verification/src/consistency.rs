//! The brute-force, non-cryptographic consistency check of a lookup: the
//! multiset of active lookup-key rows over all looking tables must equal the
//! looked table's multiset of active rows. Used to catch trace-generation
//! bugs before they reach the cryptographic argument.
//!
//! This module also carries the theorem tying the multiset check to the
//! product argument: equal row multisets force the looking tables' product
//! of final Z values to equal the looked table's, under every challenge.

use vstd::prelude::*;
use vstd::multiset::Multiset;
use crate::challenge::{combine_int, PermutationChallenge};
use crate::column::{Column, ColumnV, trace_ints};
use crate::ctl::{
    all_filters_binary, check_filter_binary, cols_in_bounds, ctl_inputs_wf, degree_of, filter_at,
    filter_in_bounds, filter_view, looking_finals, products_match_at, row_evals, trace_wf,
    traces_view, twc_binary, twc_fits_tables, z_at, z_final,
};
use crate::error::CtlError;
use crate::field::{fprod, fe_seq, Fe};
use crate::seq_lemmas::{
    lemma_counts_agree_iff_multisets_equal, lemma_fprod_concat, lemma_fprod_multiset,
    lemma_map_values_preserves_multiset_equality, lemma_seq_count_is_multiset_count,
    lemma_seq_count_le_len, lemma_seq_count_take_succ, seq_count,
};
use crate::table::{ctls_view, CrossTableLookup, CtlV, TwcV};

verus! {

/// The lookup-key rows of the active rows (filter value 1) among the first
/// `n` rows of a trace, in row order.
pub open spec fn active_rows_upto(
    columns: Seq<ColumnV>,
    filter: Option<ColumnV>,
    trace: Seq<Seq<int>>,
    n: int,
) -> Seq<Seq<int>>
    decreases n,
{
    if n <= 0 {
        Seq::empty()
    } else {
        active_rows_upto(columns, filter, trace, n - 1) + if filter_at(filter, trace, n - 1) == 1 {
            seq![row_evals(columns, trace, n - 1)]
        } else {
            Seq::empty()
        }
    }
}

/// All active lookup-key rows of one participation.
pub open spec fn active_rows(twc: TwcV, trace: Seq<Seq<int>>) -> Seq<Seq<int>> {
    active_rows_upto(twc.columns, twc.filter, trace, degree_of(trace))
}

/// The active rows of every looking participation, concatenated in looking
/// order.
pub open spec fn looking_rows(traces: Seq<Seq<Seq<int>>>, looking: Seq<TwcV>) -> Seq<Seq<int>>
    decreases looking.len(),
{
    if looking.len() == 0 {
        Seq::empty()
    } else {
        looking_rows(traces, looking.drop_last()) + active_rows(
            looking.last(),
            traces[looking.last().table.ordinal()],
        )
    }
}

/// The active rows of the looked participation.
pub open spec fn looked_rows(traces: Seq<Seq<Seq<int>>>, ctl: CtlV) -> Seq<Seq<int>> {
    active_rows(ctl.looked, traces[ctl.looked.table.ordinal()])
}

/// The consistency condition of one lookup: every filtered row appearing in
/// any looking table appears in the looked table with the same total
/// multiplicity, and vice versa.
pub open spec fn ctl_multisets_match(traces: Seq<Seq<Seq<int>>>, ctl: CtlV) -> bool {
    looking_rows(traces, ctl.looking).to_multiset() == looked_rows(traces, ctl).to_multiset()
}

/// Every lookup of the set is consistent.
pub open spec fn all_multisets_match(traces: Seq<Seq<Seq<int>>>, cv: Seq<CtlV>) -> bool {
    forall|l: int| 0 <= l < cv.len() ==> ctl_multisets_match(traces, #[trigger] cv[l])
}

/// The rows a list of materialized rows stands for.
pub open spec fn rows_ints(rows: Seq<Vec<Fe>>) -> Seq<Seq<int>> {
    rows.map_values(|v: Vec<Fe>| fe_seq(v@))
}

/// Whether two materialized rows carry the same values.
fn rows_equal(x: &Vec<Fe>, y: &Vec<Fe>) -> (r: bool)
    ensures
        r <==> fe_seq(x@) == fe_seq(y@),
{
    if x.len() != y.len() {
        proof {
            assert(fe_seq(x@).len() != fe_seq(y@).len());
        }
        return false;
    }
    let n = x.len();
    for i in 0..n
        invariant
            n == x@.len(),
            n == y@.len(),
            forall|k: int| 0 <= k < i ==> fe_seq(x@)[k] == fe_seq(y@)[k],
        decreases n - i,
    {
        if !x[i].eq_fe(y[i]) {
            proof {
                assert(fe_seq(x@)[i as int] == x@[i as int]@);
                assert(fe_seq(y@)[i as int] == y@[i as int]@);
            }
            return false;
        }
        proof {
            assert(fe_seq(x@)[i as int] == x@[i as int]@);
            assert(fe_seq(y@)[i as int] == y@[i as int]@);
        }
    }
    proof {
        assert(fe_seq(x@) =~= fe_seq(y@));
    }
    true
}

/// How often a row value occurs in a list of rows.
#[verifier::loop_isolation(false)]
fn count_row(rows: &Vec<Vec<Fe>>, x: &Vec<Fe>) -> (c: usize)
    ensures
        c as int == seq_count(rows_ints(rows@), fe_seq(x@)),
{
    let mut c: usize = 0;
    let n = rows.len();
    let ghost ri = rows_ints(rows@);
    proof {
        assert(ri.take(0) =~= Seq::<Seq<int>>::empty());
    }
    for i in 0..n
        invariant
            c as int == seq_count(ri.take(i as int), fe_seq(x@)),
            c <= i,
    {
        proof {
            lemma_seq_count_take_succ(ri, fe_seq(x@), i as int);
            assert(ri[i as int] == fe_seq(rows@[i as int]@));
            crate::seq_lemmas::lemma_seq_count_le_len(ri.take(i as int), fe_seq(x@));
        }
        if rows_equal(&rows[i], x) {
            c = c + 1;
        }
    }
    proof {
        assert(ri.take(n as int) =~= ri);
    }
    c
}

/// Whether two lists of rows carry the same multiset of row values.
#[verifier::loop_isolation(false)]
fn multisets_equal(a: &Vec<Vec<Fe>>, b: &Vec<Vec<Fe>>) -> (r: bool)
    ensures
        r <==> rows_ints(a@).to_multiset() == rows_ints(b@).to_multiset(),
{
    let ghost ai = rows_ints(a@);
    let ghost bi = rows_ints(b@);
    let n = a.len();
    for i in 0..n
        invariant
            forall|k: int|
                0 <= k < i ==> seq_count(ai, #[trigger] ai[k]) == seq_count(bi, ai[k]),
    {
        let ca = count_row(a, &a[i]);
        let cb = count_row(b, &a[i]);
        proof {
            assert(ai[i as int] == fe_seq(a@[i as int]@));
        }
        if ca != cb {
            proof {
                lemma_seq_count_is_multiset_count(ai, ai[i as int]);
                lemma_seq_count_is_multiset_count(bi, ai[i as int]);
            }
            return false;
        }
    }
    let m = b.len();
    for i in 0..m
        invariant
            forall|k: int|
                0 <= k < a@.len() ==> seq_count(ai, #[trigger] ai[k]) == seq_count(bi, ai[k]),
            forall|k: int|
                0 <= k < i ==> seq_count(ai, #[trigger] bi[k]) == seq_count(bi, bi[k]),
    {
        let ca = count_row(a, &b[i]);
        let cb = count_row(b, &b[i]);
        proof {
            assert(bi[i as int] == fe_seq(b@[i as int]@));
        }
        if ca != cb {
            proof {
                lemma_seq_count_is_multiset_count(ai, bi[i as int]);
                lemma_seq_count_is_multiset_count(bi, bi[i as int]);
            }
            return false;
        }
    }
    proof {
        lemma_counts_agree_iff_multisets_equal(ai, bi);
    }
    true
}

/// Appends the active lookup-key rows of one participation to `out`.
#[verifier::loop_isolation(false)]
fn collect_active_rows(
    trace: &Vec<Vec<Fe>>,
    columns: &Vec<Column>,
    filter_column: &Option<Column>,
    out: &mut Vec<Vec<Fe>>,
)
    requires
        trace_wf(trace_ints(trace@)),
        cols_in_bounds(columns@.map_values(|c: Column| c@), trace_ints(trace@).len() as int),
        filter_in_bounds(filter_view(filter_column), trace_ints(trace@).len() as int),
        filters_binary_all(filter_view(filter_column), trace_ints(trace@)),
    ensures
        rows_ints(final(out)@) == rows_ints(old(out)@) + active_rows_upto(
            columns@.map_values(|c: Column| c@),
            filter_view(filter_column),
            trace_ints(trace@),
            degree_of(trace_ints(trace@)),
        ),
{
    let ghost tr = trace_ints(trace@);
    let ghost cols = columns@.map_values(|c: Column| c@);
    let ghost filt = filter_view(filter_column);
    let ghost base = rows_ints(out@);
    let degree = trace[0].len();
    proof {
        assert(tr[0] == fe_seq(trace@[0]@));
        assert(base + active_rows_upto(cols, filt, tr, 0) =~= base);
    }
    for i in 0..degree
        invariant
            rows_ints(out@) == base + active_rows_upto(cols, filt, tr, i as int),
    {
        let f = crate::ctl::eval_filter(trace, filter_column, i);
        if f.is_one() {
            let mut row: Vec<Fe> = Vec::new();
            let m = columns.len();
            for k in 0..m
                invariant
                    row@.len() == k,
                    forall|q: int|
                        0 <= q < k ==> (#[trigger] row@[q])@ == cols[q].eval_table(tr, i as int),
            {
                proof {
                    assert(cols[k as int] == columns@[k as int]@);
                    crate::ctl::lemma_in_bounds_table(columns@[k as int]@, tr, i as int);
                }
                row.push(columns[k].eval_table(trace, i));
            }
            let ghost out_old = out@;
            proof {
                assert forall|q: int| 0 <= q < m implies fe_seq(row@)[q] == row_evals(
                    cols,
                    tr,
                    i as int,
                )[q] by {
                    assert(fe_seq(row@)[q] == row@[q]@);
                }
                assert(fe_seq(row@) =~= row_evals(cols, tr, i as int));
            }
            out.push(row);
            proof {
                assert(filter_at(filt, tr, i as int) == 1);
                assert(rows_ints(out@) =~= rows_ints(out_old).push(fe_seq(out@.last()@)));
                assert(rows_ints(out@) =~= base + active_rows_upto(cols, filt, tr, i + 1));
            }
        } else {
            proof {
                assert(filter_at(filt, tr, i as int) == 0);
                assert(base + active_rows_upto(cols, filt, tr, i + 1) =~= base
                    + active_rows_upto(cols, filt, tr, i as int));
            }
        }
    }
}

/// The filter stays binary on the trace's whole domain.
pub open spec fn filters_binary_all(filter: Option<ColumnV>, trace: Seq<Seq<int>>) -> bool {
    crate::ctl::filters_binary(filter, trace, degree_of(trace))
}

/// Checks one lookup against the traces: all participating filters must be
/// binary, and the looking tables' multiset of active rows must equal the
/// looked table's.
#[verifier::loop_isolation(false)]
#[verifier::rlimit(60)]
pub fn check_ctl(trace_poly_values: &Vec<Vec<Vec<Fe>>>, ctl: &CrossTableLookup) -> (r: Result<
    (),
    CtlError,
>)
    requires
        traces_view(trace_poly_values@).len() == crate::table::NUM_TABLES,
        forall|i: int|
            0 <= i < ctl@.looking.len() ==> twc_fits_tables(
                #[trigger] ctl@.looking[i],
                traces_view(trace_poly_values@),
            ),
        twc_fits_tables(ctl@.looked, traces_view(trace_poly_values@)),
    ensures
        r is Ok <==> ctl_binary(traces_view(trace_poly_values@), ctl@) && ctl_multisets_match(
            traces_view(trace_poly_values@),
            ctl@,
        ),
        r == Err::<(), CtlError>(CtlError::NonBinaryFilter) <==> !ctl_binary(
            traces_view(trace_poly_values@),
            ctl@,
        ),
        r == Err::<(), CtlError>(CtlError::MultisetMismatch) <==> ctl_binary(
            traces_view(trace_poly_values@),
            ctl@,
        ) && !ctl_multisets_match(traces_view(trace_poly_values@), ctl@),
{
    let ghost traces = traces_view(trace_poly_values@);
    let m = ctl.looking_tables.len();
    for i in 0..m
        invariant
            forall|i2: int| 0 <= i2 < i ==> twc_binary(#[trigger] ctl@.looking[i2], traces),
    {
        let twc = &ctl.looking_tables[i];
        let ti = twc.table.index();
        proof {
            assert(ctl@.looking[i as int] == twc@);
            assert(twc_fits_tables(twc@, traces));
            assert(traces[ti as int] == trace_ints(trace_poly_values@[ti as int]@));
        }
        if !check_filter_binary(&trace_poly_values[ti], &twc.filter_column) {
            proof {
                assert(!twc_binary(ctl@.looking[i as int], traces));
            }
            return Err(CtlError::NonBinaryFilter);
        }
    }
    let looked = &ctl.looked_table;
    let lti = looked.table.index();
    proof {
        assert(ctl@.looked == looked@);
        assert(traces[lti as int] == trace_ints(trace_poly_values@[lti as int]@));
    }
    if !check_filter_binary(&trace_poly_values[lti], &looked.filter_column) {
        proof {
            assert(!twc_binary(ctl@.looked, traces));
        }
        return Err(CtlError::NonBinaryFilter);
    }
    proof {
        assert(ctl_binary(traces, ctl@));
    }

    let mut lrows: Vec<Vec<Fe>> = Vec::new();
    proof {
        assert(ctl@.looking.take(0) =~= Seq::<TwcV>::empty());
        assert(rows_ints(lrows@) =~= looking_rows(traces, ctl@.looking.take(0)));
    }
    for i in 0..m
        invariant
            rows_ints(lrows@) == looking_rows(traces, ctl@.looking.take(i as int)),
    {
        let twc = &ctl.looking_tables[i];
        let ti = twc.table.index();
        let ghost before = rows_ints(lrows@);
        proof {
            assert(ctl@.looking[i as int] == twc@);
            assert(twc_fits_tables(twc@, traces));
            assert(twc_binary(twc@, traces));
            assert(traces[ti as int] == trace_ints(trace_poly_values@[ti as int]@));
        }
        collect_active_rows(&trace_poly_values[ti], &twc.columns, &twc.filter_column, &mut lrows);
        proof {
            assert(ctl@.looking.take(i + 1).drop_last() =~= ctl@.looking.take(i as int));
            assert(ctl@.looking.take(i + 1).last() == ctl@.looking[i as int]);
            assert(looking_rows(traces, ctl@.looking.take(i + 1)) == looking_rows(
                traces,
                ctl@.looking.take(i as int),
            ) + active_rows(twc@, traces[ti as int]));
        }
    }
    proof {
        assert(ctl@.looking.take(m as int) =~= ctl@.looking);
    }
    let mut krows: Vec<Vec<Fe>> = Vec::new();
    collect_active_rows(&trace_poly_values[lti], &looked.columns, &looked.filter_column, &mut krows);
    proof {
        assert(rows_ints(krows@) =~= looked_rows(traces, ctl@));
    }
    if multisets_equal(&lrows, &krows) {
        Ok(())
    } else {
        Err(CtlError::MultisetMismatch)
    }
}

/// Every filter of one lookup's participants stays binary.
pub open spec fn ctl_binary(traces: Seq<Seq<Seq<int>>>, ctl: CtlV) -> bool {
    &&& forall|i: int| 0 <= i < ctl.looking.len() ==> twc_binary(#[trigger] ctl.looking[i], traces)
    &&& twc_binary(ctl.looked, traces)
}

/// Checks every declared lookup against the traces.
#[verifier::loop_isolation(false)]
pub fn check_ctls(
    trace_poly_values: &Vec<Vec<Vec<Fe>>>,
    cross_table_lookups: &Vec<CrossTableLookup>,
) -> (r: Result<(), CtlError>)
    requires
        ctl_inputs_wf(traces_view(trace_poly_values@), ctls_view(cross_table_lookups@)),
    ensures
        r is Ok <==> all_filters_binary(
            traces_view(trace_poly_values@),
            ctls_view(cross_table_lookups@),
        ) && all_multisets_match(traces_view(trace_poly_values@), ctls_view(cross_table_lookups@)),
        r == Err::<(), CtlError>(CtlError::NonBinaryFilter) <==> !all_filters_binary(
            traces_view(trace_poly_values@),
            ctls_view(cross_table_lookups@),
        ),
        r == Err::<(), CtlError>(CtlError::MultisetMismatch) <==> all_filters_binary(
            traces_view(trace_poly_values@),
            ctls_view(cross_table_lookups@),
        ) && !all_multisets_match(traces_view(trace_poly_values@), ctls_view(cross_table_lookups@)),
{
    let ghost traces = traces_view(trace_poly_values@);
    let ghost cv = ctls_view(cross_table_lookups@);
    let n = cross_table_lookups.len();
    for l in 0..n
        invariant
            forall|l2: int| 0 <= l2 < l ==> ctl_binary(traces, #[trigger] cv[l2]),
    {
        let ctl = &cross_table_lookups[l];
        proof {
            assert(cv[l as int] == ctl@);
        }
        let m = ctl.looking_tables.len();
        for i in 0..m
            invariant
                forall|i2: int| 0 <= i2 < i ==> twc_binary(#[trigger] cv[l as int].looking[i2], traces),
        {
            let twc = &ctl.looking_tables[i];
            let ti = twc.table.index();
            proof {
                assert(cv[l as int].looking[i as int] == twc@);
                assert(twc_fits_tables(twc@, traces));
                assert(traces[ti as int] == trace_ints(trace_poly_values@[ti as int]@));
            }
            if !check_filter_binary(&trace_poly_values[ti], &twc.filter_column) {
                proof {
                    assert(!twc_binary(cv[l as int].looking[i as int], traces));
                }
                return Err(CtlError::NonBinaryFilter);
            }
        }
        let looked = &ctl.looked_table;
        let lti = looked.table.index();
        proof {
            assert(cv[l as int].looked == looked@);
            assert(twc_fits_tables(looked@, traces));
            assert(traces[lti as int] == trace_ints(trace_poly_values@[lti as int]@));
        }
        if !check_filter_binary(&trace_poly_values[lti], &looked.filter_column) {
            proof {
                assert(!twc_binary(cv[l as int].looked, traces));
            }
            return Err(CtlError::NonBinaryFilter);
        }
    }
    proof {
        assert(all_filters_binary(traces, cv));
    }
    for l in 0..n
        invariant
            forall|l2: int| 0 <= l2 < l ==> ctl_multisets_match(traces, #[trigger] cv[l2]),
    {
        let ctl = &cross_table_lookups[l];
        proof {
            assert(cv[l as int] == ctl@);
            assert(ctl_binary(traces, ctl@));
        }
        match check_ctl(trace_poly_values, ctl) {
            Ok(()) => {},
            Err(_) => {
                proof {
                    assert(!ctl_multisets_match(traces, cv[l as int]));
                }
                return Err(CtlError::MultisetMismatch);
            },
        }
    }
    Ok(())
}

// -- from multiset equality to the product argument -------------------------

/// The final Z value of one participation is the field product of the
/// combined values of its active rows.
proof fn lemma_z_is_product_of_active(
    columns: Seq<ColumnV>,
    filter: Option<ColumnV>,
    ch: PermutationChallenge,
    trace: Seq<Seq<int>>,
    i: int,
)
    ensures
        z_at(columns, filter, ch, trace, i) == fprod(
            active_rows_upto(columns, filter, trace, i + 1).map_values(
                |row: Seq<int>| combine_int(row, ch.beta@, ch.gamma@),
            ),
        ),
    decreases i + 1,
{
    let g = |row: Seq<int>| combine_int(row, ch.beta@, ch.gamma@);
    if i < 0 {
        assert(active_rows_upto(columns, filter, trace, i + 1).map_values(g) =~= Seq::<
            int,
        >::empty());
    } else {
        lemma_z_is_product_of_active(columns, filter, ch, trace, i - 1);
        let pre = active_rows_upto(columns, filter, trace, i);
        if filter_at(filter, trace, i) == 1 {
            let row = row_evals(columns, trace, i);
            assert(active_rows_upto(columns, filter, trace, i + 1) == pre + seq![row]);
            assert((pre + seq![row]).map_values(g) =~= pre.map_values(g).push(g(row)));
            assert(pre.map_values(g).push(g(row)).drop_last() =~= pre.map_values(g));
            assert(crate::ctl::combined_at(columns, ch, trace, i) == g(row));
        } else {
            assert(active_rows_upto(columns, filter, trace, i + 1) =~= pre);
        }
    }
}

/// The product of the looking tables' final Z values is the field product of
/// the combined values of all their active rows together.
proof fn lemma_looking_product_is_row_product(
    traces: Seq<Seq<Seq<int>>>,
    looking: Seq<TwcV>,
    ch: PermutationChallenge,
)
    ensures
        fprod(looking_finals(traces, looking, ch)) == fprod(
            looking_rows(traces, looking).map_values(
                |row: Seq<int>| combine_int(row, ch.beta@, ch.gamma@),
            ),
        ),
    decreases looking.len(),
{
    let g = |row: Seq<int>| combine_int(row, ch.beta@, ch.gamma@);
    if looking.len() == 0 {
        assert(looking_finals(traces, looking, ch) =~= Seq::<int>::empty());
        assert(looking_rows(traces, looking).map_values(g) =~= Seq::<int>::empty());
    } else {
        let sdl = looking.drop_last();
        let last = looking.last();
        let tr = traces[last.table.ordinal()];
        lemma_looking_product_is_row_product(traces, sdl, ch);
        assert(looking_finals(traces, looking, ch).drop_last() =~= looking_finals(
            traces,
            sdl,
            ch,
        ));
        assert(looking_finals(traces, looking, ch).last() == z_final(last, ch, tr));
        lemma_z_is_product_of_active(last.columns, last.filter, ch, tr, degree_of(tr) - 1);
        assert(z_final(last, ch, tr) == fprod(active_rows(last, tr).map_values(g)));
        assert(looking_rows(traces, looking).map_values(g) =~= looking_rows(traces, sdl).map_values(
            g,
        ) + active_rows(last, tr).map_values(g));
        lemma_fprod_concat(
            looking_rows(traces, sdl).map_values(g),
            active_rows(last, tr).map_values(g),
        );
    }
}

/// Product round-trip: when one lookup's looking and looked row multisets
/// agree, the product of the looking tables' final Z values equals the
/// looked table's final Z value, under every challenge.
pub proof fn lemma_product_round_trip(
    traces: Seq<Seq<Seq<int>>>,
    cv: Seq<CtlV>,
    chals: Seq<PermutationChallenge>,
    l: int,
    j: int,
)
    requires
        0 <= l < cv.len(),
        0 <= j < chals.len(),
        ctl_multisets_match(traces, cv[l]),
    ensures
        products_match_at(traces, cv, chals, l, j),
{
    let ch = chals[j];
    let g = |row: Seq<int>| combine_int(row, ch.beta@, ch.gamma@);
    let ctl = cv[l];
    let tr = traces[ctl.looked.table.ordinal()];
    lemma_looking_product_is_row_product(traces, ctl.looking, ch);
    lemma_z_is_product_of_active(
        ctl.looked.columns,
        ctl.looked.filter,
        ch,
        tr,
        degree_of(tr) - 1,
    );
    lemma_map_values_preserves_multiset_equality(
        looking_rows(traces, ctl.looking),
        looked_rows(traces, ctl),
        g,
    );
    lemma_fprod_multiset(
        looking_rows(traces, ctl.looking).map_values(g),
        looked_rows(traces, ctl).map_values(g),
    );
}

/// Product round-trip over the whole lookup set: consistent traces make the
/// eager product check of the data builder, and the final equality of the
/// verifier, hold for every lookup under every challenge.
pub proof fn lemma_consistent_traces_give_matching_products(
    traces: Seq<Seq<Seq<int>>>,
    cv: Seq<CtlV>,
    chals: Seq<PermutationChallenge>,
)
    requires
        all_multisets_match(traces, cv),
    ensures
        crate::ctl::products_match(traces, cv, chals),
{
    assert forall|l: int, j: int|
        0 <= l < cv.len() && 0 <= j < chals.len() implies #[trigger] products_match_at(
        traces,
        cv,
        chals,
        l,
        j,
    ) by {
        lemma_product_round_trip(traces, cv, chals, l, j);
    }
}

/// A single altered active row on the looking side cannot go unnoticed:
/// replacing one occurrence of a row value by a different value breaks the
/// multiset equality that the self-test checks.
pub proof fn lemma_single_row_mutation_detected(
    looking: Multiset<Seq<int>>,
    looked: Multiset<Seq<int>>,
    before: Seq<int>,
    after: Seq<int>,
)
    requires
        looking == looked,
        looking.count(before) > 0,
        before != after,
    ensures
        looking.remove(before).insert(after) != looked,
{
    let mutated = looking.remove(before).insert(after);
    assert(mutated.count(before) == looking.count(before) - 1);
    assert(looked.count(before) == looking.count(before));
}

} // verus!
