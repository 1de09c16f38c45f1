//! Construction of the running-product ("Z") polynomials that embed the
//! multiset-equality check, and their packaging per table in the exact
//! (lookup, challenge) order the proving system allocates them in.

use vstd::prelude::*;
use crate::challenge::{PermutationChallenge, PermutationChallengeSet};
use crate::column::{trace_ints, Column, ColumnV};
use crate::error::CtlError;
use crate::field::{fmul, fprod, fe_seq, Fe};
use crate::table::{consumed_before, count_looking, npart, num_ctl_zs_spec, ord_table, ctls_view,
    CrossTableLookup, CtlV, Table, TwcV, NUM_TABLES};

verus! {

/// A column-major trace with at least one column, at least one row, and all
/// columns of one length.
pub open spec fn trace_wf(trace: Seq<Seq<int>>) -> bool {
    &&& trace.len() > 0
    &&& trace[0].len() > 0
    &&& forall|c: int| 0 <= c < trace.len() ==> (#[trigger] trace[c]).len() == trace[0].len()
}

/// The number of rows of a well-formed trace.
pub open spec fn degree_of(trace: Seq<Seq<int>>) -> int {
    trace[0].len() as int
}

/// Every column's referenced cells lie inside the trace.
pub open spec fn cols_in_bounds(columns: Seq<ColumnV>, width: int) -> bool {
    forall|k: int| 0 <= k < columns.len() ==> (#[trigger] columns[k]).in_bounds(width)
}

/// The optional filter's referenced cells lie inside the trace.
pub open spec fn filter_in_bounds(filter: Option<ColumnV>, width: int) -> bool {
    match filter {
        Some(c) => c.in_bounds(width),
        None => true,
    }
}

/// One participation evaluates inside the given trace.
pub open spec fn twc_fits(twc: TwcV, trace: Seq<Seq<int>>) -> bool {
    &&& trace_wf(trace)
    &&& cols_in_bounds(twc.columns, trace.len() as int)
    &&& filter_in_bounds(twc.filter, trace.len() as int)
}

/// The filter's value at one row; absent filters admit every row.
pub open spec fn filter_at(filter: Option<ColumnV>, trace: Seq<Seq<int>>, i: int) -> int {
    match filter {
        Some(c) => c.eval_table(trace, i),
        None => 1,
    }
}

/// The filter takes only the values 0 and 1 on the first `n` rows.
pub open spec fn filters_binary(filter: Option<ColumnV>, trace: Seq<Seq<int>>, n: int) -> bool {
    forall|i: int|
        0 <= i < n ==> #[trigger] filter_at(filter, trace, i) == 0 || filter_at(filter, trace, i)
            == 1
}

/// The lookup-key values of one row: each column evaluated at the row.
pub open spec fn row_evals(columns: Seq<ColumnV>, trace: Seq<Seq<int>>, i: int) -> Seq<int> {
    Seq::new(columns.len(), |k: int| columns[k].eval_table(trace, i))
}

/// The row's key collapsed into one field element under a challenge.
pub open spec fn combined_at(
    columns: Seq<ColumnV>,
    ch: PermutationChallenge,
    trace: Seq<Seq<int>>,
    i: int,
) -> int {
    crate::challenge::combine_int(row_evals(columns, trace, i), ch.beta@, ch.gamma@)
}

/// The running product after the rows up to and including `i`: it advances by
/// the combined row value exactly on rows whose filter fires.
pub open spec fn z_at(
    columns: Seq<ColumnV>,
    filter: Option<ColumnV>,
    ch: PermutationChallenge,
    trace: Seq<Seq<int>>,
    i: int,
) -> int
    decreases i + 1,
{
    if i < 0 {
        1
    } else if filter_at(filter, trace, i) == 1 {
        fmul(z_at(columns, filter, ch, trace, i - 1), combined_at(columns, ch, trace, i))
    } else {
        z_at(columns, filter, ch, trace, i - 1)
    }
}

/// The whole Z polynomial of one participation, row by row.
pub open spec fn z_values(
    columns: Seq<ColumnV>,
    filter: Option<ColumnV>,
    ch: PermutationChallenge,
    trace: Seq<Seq<int>>,
) -> Seq<int> {
    Seq::new(degree_of(trace) as nat, |i: int| z_at(columns, filter, ch, trace, i))
}

/// The last Z value: the total product over all active rows.
pub open spec fn z_final(twc: TwcV, ch: PermutationChallenge, trace: Seq<Seq<int>>) -> int {
    z_at(twc.columns, twc.filter, ch, trace, degree_of(trace) - 1)
}

/// Whether the filter stays binary, decided row by row.
pub(crate) fn check_filter_binary(trace: &Vec<Vec<Fe>>, filter_column: &Option<Column>) -> (r: bool)
    requires
        trace_wf(trace_ints(trace@)),
        filter_in_bounds(filter_view(filter_column), trace_ints(trace@).len() as int),
    ensures
        r <==> filters_binary(
            filter_view(filter_column),
            trace_ints(trace@),
            degree_of(trace_ints(trace@)),
        ),
{
    let ghost tr = trace_ints(trace@);
    let degree = trace[0].len();
    proof {
        assert(tr[0] == fe_seq(trace@[0]@));
    }
    for i in 0..degree
        invariant
            trace_wf(tr),
            tr == trace_ints(trace@),
            degree == degree_of(tr),
            filter_in_bounds(filter_view(filter_column), tr.len() as int),
            filters_binary(filter_view(filter_column), tr, i as int),
    {
        let f = eval_filter(trace, filter_column, i);
        if !(f.is_zero() || f.is_one()) {
            return false;
        }
    }
    true
}

/// The optional filter as a mathematical value.
pub open spec fn filter_view(filter_column: &Option<Column>) -> Option<ColumnV> {
    match filter_column {
        Some(c) => Some(c@),
        None => None,
    }
}

/// The filter's value at one row; rows of a filterless table all count.
pub(crate) fn eval_filter(trace: &Vec<Vec<Fe>>, filter_column: &Option<Column>, i: usize) -> (r: Fe)
    requires
        trace_wf(trace_ints(trace@)),
        filter_in_bounds(filter_view(filter_column), trace_ints(trace@).len() as int),
        0 <= (i as int) < degree_of(trace_ints(trace@)),
    ensures
        r@ == filter_at(filter_view(filter_column), trace_ints(trace@), i as int),
{
    match filter_column {
        Some(c) => {
            proof {
                lemma_in_bounds_table(c@, trace_ints(trace@), i as int);
            }
            c.eval_table(trace, i)
        },
        None => Fe::one(),
    }
}

/// In a well-formed trace, a column whose cells lie inside the trace can be
/// read at every row.
pub proof fn lemma_in_bounds_table(c: ColumnV, trace: Seq<Seq<int>>, i: int)
    requires
        trace_wf(trace),
        c.in_bounds(trace.len() as int),
        0 <= i < degree_of(trace),
    ensures
        c.table_in_bounds(trace, i),
{
    assert forall|k: int| 0 <= k < c.pairs.len() implies 0 <= (#[trigger] c.pairs[k]).0
        < trace.len() && 0 <= i < trace[c.pairs[k].0].len() by {
        assert(trace[c.pairs[k].0].len() == trace[0].len());
    }
}

/// One participation's Z polynomial, for a trace whose filter is known to be
/// binary: entry `i` is the running product over the active rows up to `i`.
fn partial_products_core(
    trace: &Vec<Vec<Fe>>,
    columns: &Vec<Column>,
    filter_column: &Option<Column>,
    challenge: PermutationChallenge,
) -> (z: Vec<Fe>)
    requires
        trace_wf(trace_ints(trace@)),
        cols_in_bounds(columns@.map_values(|c: Column| c@), trace_ints(trace@).len() as int),
        filter_in_bounds(filter_view(filter_column), trace_ints(trace@).len() as int),
        filters_binary(
            filter_view(filter_column),
            trace_ints(trace@),
            degree_of(trace_ints(trace@)),
        ),
    ensures
        z@.len() == degree_of(trace_ints(trace@)),
        fe_seq(z@) =~= z_values(
            columns@.map_values(|c: Column| c@),
            filter_view(filter_column),
            challenge,
            trace_ints(trace@),
        ),
{
    let ghost tr = trace_ints(trace@);
    let ghost cols = columns@.map_values(|c: Column| c@);
    let ghost filt = filter_view(filter_column);
    let mut partial_prod = Fe::one();
    let degree = trace[0].len();
    proof {
        assert(tr[0] == fe_seq(trace@[0]@));
    }
    let mut z: Vec<Fe> = Vec::new();
    for i in 0..degree
        invariant
            trace_wf(tr),
            tr == trace_ints(trace@),
            cols == columns@.map_values(|c: Column| c@),
            filt == filter_view(filter_column),
            degree == degree_of(tr),
            cols_in_bounds(cols, tr.len() as int),
            filter_in_bounds(filt, tr.len() as int),
            filters_binary(filt, tr, degree as int),
            z@.len() == i,
            partial_prod@ == z_at(cols, filt, challenge, tr, i - 1),
            forall|k: int| 0 <= k < i ==> (#[trigger] z@[k])@ == z_at(cols, filt, challenge, tr, k),
    {
        let f = eval_filter(trace, filter_column, i);
        if f.is_one() {
            let mut evals: Vec<Fe> = Vec::new();
            let m = columns.len();
            for k in 0..m
                invariant
                    m == columns@.len(),
                    trace_wf(tr),
                    tr == trace_ints(trace@),
                    cols == columns@.map_values(|c: Column| c@),
                    cols_in_bounds(cols, tr.len() as int),
                    0 <= (i as int) < degree_of(tr),
                    evals@.len() == k,
                    forall|q: int|
                        0 <= q < k ==> (#[trigger] evals@[q])@ == cols[q].eval_table(tr, i as int),
            {
                proof {
                    assert(cols[k as int] == columns@[k as int]@);
                    lemma_in_bounds_table(columns@[k as int]@, tr, i as int);
                }
                evals.push(columns[k].eval_table(trace, i));
            }
            proof {
                assert forall|q: int| 0 <= q < m implies fe_seq(evals@)[q] == row_evals(
                    cols,
                    tr,
                    i as int,
                )[q] by {
                    assert(fe_seq(evals@)[q] == evals@[q]@);
                }
                assert(fe_seq(evals@) =~= row_evals(cols, tr, i as int));
            }
            let combined = challenge.combine(&evals);
            partial_prod = partial_prod.mul(combined);
            proof {
                assert(combined@ == combined_at(cols, challenge, tr, i as int));
                assert(filter_at(filt, tr, i as int) == 1);
            }
        } else {
            proof {
                assert(filter_at(filt, tr, i as int) == 0);
            }
        }
        z.push(partial_prod);
    }
    proof {
        assert forall|k: int| 0 <= k < degree implies fe_seq(z@)[k] == z_values(
            cols,
            filt,
            challenge,
            tr,
        )[k] by {
            assert(fe_seq(z@)[k] == z@[k]@);
        }
        assert(fe_seq(z@) =~= z_values(cols, filt, challenge, tr));
    }
    z
}

/// One participation's Z polynomial over the trace's whole domain. Fails
/// exactly when the filter takes a value other than 0 or 1 on some row.
pub fn partial_products(
    trace: &Vec<Vec<Fe>>,
    columns: &Vec<Column>,
    filter_column: &Option<Column>,
    challenge: PermutationChallenge,
) -> (r: Result<Vec<Fe>, CtlError>)
    requires
        trace_wf(trace_ints(trace@)),
        cols_in_bounds(columns@.map_values(|c: Column| c@), trace_ints(trace@).len() as int),
        filter_in_bounds(filter_view(filter_column), trace_ints(trace@).len() as int),
    ensures
        r.is_ok() <==> filters_binary(
            filter_view(filter_column),
            trace_ints(trace@),
            degree_of(trace_ints(trace@)),
        ),
        r matches Ok(z) ==> z@.len() == degree_of(trace_ints(trace@)) && fe_seq(z@) =~= z_values(
            columns@.map_values(|c: Column| c@),
            filter_view(filter_column),
            challenge,
            trace_ints(trace@),
        ),
        r matches Err(e) ==> e == CtlError::NonBinaryFilter,
{
    if !check_filter_binary(trace, filter_column) {
        return Err(CtlError::NonBinaryFilter);
    }
    Ok(partial_products_core(trace, columns, filter_column, challenge))
}


/// Cross-table lookup data associated with one Z polynomial: the polynomial,
/// the challenge that built it, and the columns and filter it was built from.
#[derive(Debug)]
pub struct CtlZData {
    pub z: Vec<Fe>,
    pub challenge: PermutationChallenge,
    pub columns: Vec<Column>,
    pub filter_column: Option<Column>,
}

/// The mathematical content of one Z-polynomial record.
#[verifier::ext_equal]
pub ghost struct CtlZDataV {
    pub z: Seq<int>,
    pub challenge: PermutationChallenge,
    pub columns: Seq<ColumnV>,
    pub filter: Option<ColumnV>,
}

impl View for CtlZData {
    type V = CtlZDataV;

    open spec fn view(&self) -> CtlZDataV {
        CtlZDataV {
            z: fe_seq(self.z@),
            challenge: self.challenge,
            columns: self.columns@.map_values(|c: Column| c@),
            filter: filter_view(&self.filter_column),
        }
    }
}

/// Cross-table lookup data for one table: its Z-polynomial records in the
/// order the proving system allocates them.
#[derive(Debug)]
pub struct CtlData {
    pub zs_columns: Vec<CtlZData>,
}

impl View for CtlData {
    type V = Seq<CtlZDataV>;

    open spec fn view(&self) -> Seq<CtlZDataV> {
        self.zs_columns@.map_values(|z: CtlZData| z@)
    }
}

impl CtlData {
    /// How many Z polynomials this table carries.
    pub fn len(&self) -> (r: usize)
        ensures
            r == self@.len(),
    {
        self.zs_columns.len()
    }

    /// Whether this table carries no Z polynomial.
    pub fn is_empty(&self) -> (r: bool)
        ensures
            r <==> self@.len() == 0,
    {
        self.zs_columns.len() == 0
    }

    /// The Z polynomials alone, in allocation order.
    pub fn z_polys(&self) -> (r: Vec<Vec<Fe>>)
        ensures
            r@.len() == self@.len(),
            forall|i: int| 0 <= i < r@.len() ==> fe_seq((#[trigger] r@[i])@) == self@[i].z,
    {
        let mut r: Vec<Vec<Fe>> = Vec::new();
        let n = self.zs_columns.len();
        for i in 0..n
            invariant
                n == self.zs_columns@.len(),
                r@.len() == i,
                forall|k: int| 0 <= k < i ==> fe_seq((#[trigger] r@[k])@) == self@[k].z,
        {
            let zp = copy_fe_vec(&self.zs_columns[i].z);
            proof {
                assert(self@[i as int] == self.zs_columns@[i as int]@);
            }
            r.push(zp);
        }
        r
    }
}

/// An element-for-element copy of a vector of field elements.
fn copy_fe_vec(v: &Vec<Fe>) -> (r: Vec<Fe>)
    ensures
        r@ == v@,
{
    let mut r: Vec<Fe> = Vec::new();
    let n = v.len();
    for i in 0..n
        invariant
            n == v@.len(),
            r@ =~= v@.take(i as int),
    {
        r.push(v[i]);
    }
    proof {
        assert(r@ =~= v@);
    }
    r
}

/// An identical copy of a column list: the views agree pointwise.
pub(crate) fn clone_columns(v: &Vec<Column>) -> (r: Vec<Column>)
    ensures
        r@.map_values(|c: Column| c@) =~= v@.map_values(|c: Column| c@),
{
    let mut r: Vec<Column> = Vec::new();
    let n = v.len();
    for i in 0..n
        invariant
            n == v@.len(),
            r@.len() == i,
            forall|k: int| 0 <= k < i ==> (#[trigger] r@[k])@ == v@[k]@,
    {
        let c = &v[i];
        r.push(c.clone());
    }
    r
}

/// An identical copy of an optional filter column.
pub(crate) fn clone_filter(f: &Option<Column>) -> (r: Option<Column>)
    ensures
        filter_view(&r) == filter_view(f),
{
    match f {
        Some(c) => Some(c.clone()),
        None => None,
    }
}

// -- what the assembled data must hold -------------------------------------

/// The traces of all tables as mathematical values, indexed by ordinal.
pub open spec fn traces_view(tps: Seq<Vec<Vec<Fe>>>) -> Seq<Seq<Seq<int>>> {
    tps.map_values(|t: Vec<Vec<Fe>>| trace_ints(t@))
}

/// One participation evaluates inside its own table's trace.
pub open spec fn twc_fits_tables(twc: TwcV, traces: Seq<Seq<Seq<int>>>) -> bool {
    &&& 0 <= twc.table.ordinal() < traces.len()
    &&& twc_fits(twc, traces[twc.table.ordinal()])
}

/// Every participation of every lookup evaluates inside its table's trace.
pub open spec fn ctl_inputs_wf(traces: Seq<Seq<Seq<int>>>, cv: Seq<CtlV>) -> bool {
    &&& traces.len() == NUM_TABLES
    &&& forall|l: int, i: int|
        0 <= l < cv.len() && 0 <= i < cv[l].looking.len() ==> twc_fits_tables(
            #[trigger] cv[l].looking[i],
            traces,
        )
    &&& forall|l: int| 0 <= l < cv.len() ==> twc_fits_tables((#[trigger] cv[l]).looked, traces)
}

/// One participation's filter stays binary on its whole trace.
pub open spec fn twc_binary(twc: TwcV, traces: Seq<Seq<Seq<int>>>) -> bool {
    filters_binary(
        twc.filter,
        traces[twc.table.ordinal()],
        degree_of(traces[twc.table.ordinal()]),
    )
}

/// Every participating filter of every lookup stays binary.
pub open spec fn all_filters_binary(traces: Seq<Seq<Seq<int>>>, cv: Seq<CtlV>) -> bool {
    &&& forall|l: int, i: int|
        0 <= l < cv.len() && 0 <= i < cv[l].looking.len() ==> twc_binary(
            #[trigger] cv[l].looking[i],
            traces,
        )
    &&& forall|l: int| 0 <= l < cv.len() ==> twc_binary((#[trigger] cv[l]).looked, traces)
}

/// The final Z value of each looking participant, in looking order.
pub open spec fn looking_finals(
    traces: Seq<Seq<Seq<int>>>,
    looking: Seq<TwcV>,
    ch: PermutationChallenge,
) -> Seq<int> {
    Seq::new(looking.len(), |i: int| z_final(looking[i], ch, traces[looking[i].table.ordinal()]))
}

/// The looking tables' product of final Z values equals the looked table's
/// final Z value, for lookup `l` under challenge `j`.
pub open spec fn products_match_at(
    traces: Seq<Seq<Seq<int>>>,
    cv: Seq<CtlV>,
    chals: Seq<PermutationChallenge>,
    l: int,
    j: int,
) -> bool {
    fprod(looking_finals(traces, cv[l].looking, chals[j])) == z_final(
        cv[l].looked,
        chals[j],
        traces[cv[l].looked.table.ordinal()],
    )
}

/// The product equality holds for every lookup and every challenge.
pub open spec fn products_match(
    traces: Seq<Seq<Seq<int>>>,
    cv: Seq<CtlV>,
    chals: Seq<PermutationChallenge>,
) -> bool {
    forall|l: int, j: int|
        0 <= l < cv.len() && 0 <= j < chals.len() ==> #[trigger] products_match_at(
            traces,
            cv,
            chals,
            l,
            j,
        )
}

/// The record one participation contributes under one challenge.
pub open spec fn expected_z_entry(
    traces: Seq<Seq<Seq<int>>>,
    twc: TwcV,
    ch: PermutationChallenge,
) -> CtlZDataV {
    CtlZDataV {
        z: z_values(twc.columns, twc.filter, ch, traces[twc.table.ordinal()]),
        challenge: ch,
        columns: twc.columns,
        filter: twc.filter,
    }
}

/// The records that the looking participants of table `t` among the first
/// `i` entries of the looking list contribute under one challenge.
pub open spec fn looking_entries(
    traces: Seq<Seq<Seq<int>>>,
    looking: Seq<TwcV>,
    ch: PermutationChallenge,
    t: Table,
) -> Seq<CtlZDataV>
    decreases looking.len(),
{
    if looking.len() == 0 {
        Seq::empty()
    } else {
        looking_entries(traces, looking.drop_last(), ch, t) + if looking.last().table == t {
            seq![expected_z_entry(traces, looking.last(), ch)]
        } else {
            Seq::empty()
        }
    }
}

/// The records one lookup contributes to table `t` under one challenge:
/// its looking participants of table `t` in order, then the looked record
/// when the looked table is `t`.
pub open spec fn lookup_entries(
    traces: Seq<Seq<Seq<int>>>,
    ctl: CtlV,
    ch: PermutationChallenge,
    t: Table,
) -> Seq<CtlZDataV> {
    looking_entries(traces, ctl.looking, ch, t) + if ctl.looked.table == t {
        seq![expected_z_entry(traces, ctl.looked, ch)]
    } else {
        Seq::empty()
    }
}

/// The records one lookup contributes to table `t` under the first `jmax`
/// challenges, in challenge order.
pub open spec fn lookup_challenge_entries(
    traces: Seq<Seq<Seq<int>>>,
    ctl: CtlV,
    chals: Seq<PermutationChallenge>,
    jmax: int,
    t: Table,
) -> Seq<CtlZDataV>
    decreases jmax,
{
    if jmax <= 0 {
        Seq::empty()
    } else {
        lookup_challenge_entries(traces, ctl, chals, jmax - 1, t) + lookup_entries(
            traces,
            ctl,
            chals[jmax - 1],
            t,
        )
    }
}

/// Everything table `t` carries for the first `lmax` lookups: the canonical
/// lookup-then-challenge-then-participant order.
pub open spec fn z_stream(
    traces: Seq<Seq<Seq<int>>>,
    cv: Seq<CtlV>,
    chals: Seq<PermutationChallenge>,
    t: Table,
    lmax: int,
) -> Seq<CtlZDataV>
    decreases lmax,
{
    if lmax <= 0 {
        Seq::empty()
    } else {
        z_stream(traces, cv, chals, t, lmax - 1) + lookup_challenge_entries(
            traces,
            cv[lmax - 1],
            chals,
            chals.len() as int,
            t,
        )
    }
}

/// The views of a list of Z-polynomial records.
pub open spec fn zdata_views(s: Seq<CtlZData>) -> Seq<CtlZDataV> {
    s.map_values(|z: CtlZData| z@)
}

pub proof fn lemma_looking_entries_len(
    traces: Seq<Seq<Seq<int>>>,
    looking: Seq<TwcV>,
    ch: PermutationChallenge,
    t: Table,
)
    ensures
        looking_entries(traces, looking, ch, t).len() == count_looking(looking, t),
    decreases looking.len(),
{
    if looking.len() > 0 {
        lemma_looking_entries_len(traces, looking.drop_last(), ch, t);
    }
}

pub proof fn lemma_lookup_entries_len(
    traces: Seq<Seq<Seq<int>>>,
    ctl: CtlV,
    ch: PermutationChallenge,
    t: Table,
)
    ensures
        lookup_entries(traces, ctl, ch, t).len() == npart(ctl, t),
{
    lemma_looking_entries_len(traces, ctl.looking, ch, t);
}

pub proof fn lemma_lookup_challenge_entries_len(
    traces: Seq<Seq<Seq<int>>>,
    ctl: CtlV,
    chals: Seq<PermutationChallenge>,
    jmax: int,
    t: Table,
)
    requires
        0 <= jmax,
    ensures
        lookup_challenge_entries(traces, ctl, chals, jmax, t).len() == jmax * npart(ctl, t),
    decreases jmax,
{
    if jmax == 0 {
        assert(jmax * npart(ctl, t) == 0) by (nonlinear_arith)
            requires
                jmax == 0,
        ;
    } else {
        lemma_lookup_challenge_entries_len(traces, ctl, chals, jmax - 1, t);
        lemma_lookup_entries_len(traces, ctl, chals[jmax - 1], t);
        vstd::arithmetic::mul::lemma_mul_is_distributive_add_other_way(
            npart(ctl, t),
            jmax - 1,
            1,
        );
    }
}

/// The stream of table `t` for the first `lmax` lookups is exactly as long
/// as the opening count those lookups consume.
pub proof fn lemma_z_stream_len(
    traces: Seq<Seq<Seq<int>>>,
    cv: Seq<CtlV>,
    chals: Seq<PermutationChallenge>,
    t: Table,
    lmax: int,
)
    requires
        0 <= lmax <= cv.len(),
    ensures
        z_stream(traces, cv, chals, t, lmax).len() == consumed_before(
            cv,
            t,
            lmax,
            chals.len() as int,
        ),
    decreases lmax,
{
    if lmax > 0 {
        lemma_z_stream_len(traces, cv, chals, t, lmax - 1);
        lemma_lookup_challenge_entries_len(traces, cv[lmax - 1], chals, chals.len() as int, t);
        vstd::arithmetic::mul::lemma_mul_is_commutative(
            npart(cv[lmax - 1], t),
            chals.len() as int,
        );
    }
}

proof fn lemma_looking_entries_take_succ(
    traces: Seq<Seq<Seq<int>>>,
    looking: Seq<TwcV>,
    ch: PermutationChallenge,
    t: Table,
    i: int,
)
    requires
        0 <= i < looking.len(),
    ensures
        looking_entries(traces, looking.take(i + 1), ch, t) == looking_entries(
            traces,
            looking.take(i),
            ch,
            t,
        ) + if looking[i].table == t {
            seq![expected_z_entry(traces, looking[i], ch)]
        } else {
            Seq::<CtlZDataV>::empty()
        },
{
    assert(looking.take(i + 1).drop_last() =~= looking.take(i));
    assert(looking.take(i + 1).last() == looking[i]);
}

/// Appends, to each table's record list, the records one lookup contributes
/// under one challenge, and reports whether the looking tables' product of
/// final Z values equals the looked table's final Z value.
#[verifier::loop_isolation(false)]
#[verifier::rlimit(60)]
fn build_one_challenge(
    trace_poly_values: &Vec<Vec<Vec<Fe>>>,
    ctl: &CrossTableLookup,
    challenge: PermutationChallenge,
    zs0: &mut Vec<CtlZData>,
    zs1: &mut Vec<CtlZData>,
) -> (ok: bool)
    requires
        traces_view(trace_poly_values@).len() == NUM_TABLES,
        forall|i: int|
            0 <= i < ctl@.looking.len() ==> twc_fits_tables(
                #[trigger] ctl@.looking[i],
                traces_view(trace_poly_values@),
            ) && twc_binary(ctl@.looking[i], traces_view(trace_poly_values@)),
        twc_fits_tables(ctl@.looked, traces_view(trace_poly_values@)),
        twc_binary(ctl@.looked, traces_view(trace_poly_values@)),
    ensures
        zdata_views(final(zs0)@) == zdata_views(old(zs0)@) + lookup_entries(
            traces_view(trace_poly_values@),
            ctl@,
            challenge,
            ord_table(0),
        ),
        zdata_views(final(zs1)@) == zdata_views(old(zs1)@) + lookup_entries(
            traces_view(trace_poly_values@),
            ctl@,
            challenge,
            ord_table(1),
        ),
        ok <==> fprod(looking_finals(traces_view(trace_poly_values@), ctl@.looking, challenge))
            == z_final(
            ctl@.looked,
            challenge,
            traces_view(trace_poly_values@)[ctl@.looked.table.ordinal()],
        ),
{
    let ghost traces = traces_view(trace_poly_values@);
    let ghost base0 = zdata_views(zs0@);
    let ghost base1 = zdata_views(zs1@);
    let ghost lf = looking_finals(traces, ctl@.looking, challenge);
    let m = ctl.looking_tables.len();
    let mut prod = Fe::one();
    proof {
        assert(lf.take(0) =~= Seq::<int>::empty());
        assert(ctl@.looking.take(0) =~= Seq::<TwcV>::empty());
        assert(base0 + looking_entries(traces, ctl@.looking.take(0), challenge, ord_table(0))
            =~= base0);
        assert(base1 + looking_entries(traces, ctl@.looking.take(0), challenge, ord_table(1))
            =~= base1);
    }
    for i in 0..m
        invariant
            zdata_views(zs0@) == base0 + looking_entries(
                traces,
                ctl@.looking.take(i as int),
                challenge,
                ord_table(0),
            ),
            zdata_views(zs1@) == base1 + looking_entries(
                traces,
                ctl@.looking.take(i as int),
                challenge,
                ord_table(1),
            ),
            prod@ == fprod(lf.take(i as int)),
    {
        let twc = &ctl.looking_tables[i];
        let ti = twc.table.index();
        proof {
            assert(ctl@.looking[i as int] == twc@);
            assert(twc_fits_tables(twc@, traces));
            assert(twc_binary(twc@, traces));
            assert(traces[ti as int] == trace_ints(trace_poly_values@[ti as int]@));
        }
        let z = partial_products_core(
            &trace_poly_values[ti],
            &twc.columns,
            &twc.filter_column,
            challenge,
        );
        let zlast = z[z.len() - 1];
        proof {
            let tr = traces[ti as int];
            assert(zlast@ == fe_seq(z@)[degree_of(tr) - 1]);
            assert(zlast@ == z_final(twc@, challenge, tr));
            assert(lf[i as int] == zlast@);
            assert(lf.take(i + 1).drop_last() =~= lf.take(i as int));
            assert(lf.take(i + 1).last() == lf[i as int]);
        }
        prod = prod.mul(zlast);
        let entry = CtlZData {
            z,
            challenge,
            columns: clone_columns(&twc.columns),
            filter_column: clone_filter(&twc.filter_column),
        };
        let ghost e = expected_z_entry(traces, ctl@.looking[i as int], challenge);
        let ghost c0 = looking_entries(traces, ctl@.looking.take(i as int), challenge, ord_table(0));
        let ghost c1 = looking_entries(traces, ctl@.looking.take(i as int), challenge, ord_table(1));
        proof {
            assert(entry@ =~= e);
            lemma_looking_entries_take_succ(traces, ctl@.looking, challenge, ord_table(0), i as int);
            lemma_looking_entries_take_succ(traces, ctl@.looking, challenge, ord_table(1), i as int);
        }
        if ti == 0 {
            zs0.push(entry);
            proof {
                assert(twc@.table == ord_table(0));
                assert(twc@.table != ord_table(1));
                assert(zdata_views(zs0@) =~= (base0 + c0).push(e));
                assert((base0 + c0).push(e) =~= base0 + (c0 + seq![e]));
                assert(looking_entries(traces, ctl@.looking.take(i + 1), challenge, ord_table(0))
                    == c0 + seq![e]);
                assert(looking_entries(traces, ctl@.looking.take(i + 1), challenge, ord_table(1))
                    =~= c1);
            }
        } else {
            zs1.push(entry);
            proof {
                assert(twc@.table == ord_table(1));
                assert(twc@.table != ord_table(0));
                assert(zdata_views(zs1@) =~= (base1 + c1).push(e));
                assert((base1 + c1).push(e) =~= base1 + (c1 + seq![e]));
                assert(looking_entries(traces, ctl@.looking.take(i + 1), challenge, ord_table(1))
                    == c1 + seq![e]);
                assert(looking_entries(traces, ctl@.looking.take(i + 1), challenge, ord_table(0))
                    =~= c0);
            }
        }
    }
    proof {
        assert(ctl@.looking.take(m as int) =~= ctl@.looking);
        assert(lf.take(m as int) =~= lf);
    }
    let looked = &ctl.looked_table;
    let lti = looked.table.index();
    proof {
        assert(ctl@.looked == looked@);
        assert(traces[lti as int] == trace_ints(trace_poly_values@[lti as int]@));
    }
    let z_looked = partial_products_core(
        &trace_poly_values[lti],
        &looked.columns,
        &looked.filter_column,
        challenge,
    );
    let looked_last = z_looked[z_looked.len() - 1];
    proof {
        let tr = traces[lti as int];
        assert(looked_last@ == fe_seq(z_looked@)[degree_of(tr) - 1]);
        assert(looked_last@ == z_final(looked@, challenge, tr));
    }
    let ok = prod.eq_fe(looked_last);
    let entry = CtlZData {
        z: z_looked,
        challenge,
        columns: clone_columns(&looked.columns),
        filter_column: clone_filter(&looked.filter_column),
    };
    let ghost le = expected_z_entry(traces, ctl@.looked, challenge);
    let ghost c0 = looking_entries(traces, ctl@.looking, challenge, ord_table(0));
    let ghost c1 = looking_entries(traces, ctl@.looking, challenge, ord_table(1));
    proof {
        assert(entry@ =~= le);
    }
    if lti == 0 {
        zs0.push(entry);
        proof {
            assert(looked@.table == ord_table(0));
            assert(looked@.table != ord_table(1));
            assert(zdata_views(zs0@) =~= (base0 + c0).push(le));
            assert((base0 + c0).push(le) =~= base0 + (c0 + seq![le]));
            assert(lookup_entries(traces, ctl@, challenge, ord_table(0)) == c0 + seq![le]);
            assert(lookup_entries(traces, ctl@, challenge, ord_table(1)) =~= c1);
        }
    } else {
        zs1.push(entry);
        proof {
            assert(looked@.table == ord_table(1));
            assert(looked@.table != ord_table(0));
            assert(zdata_views(zs1@) =~= (base1 + c1).push(le));
            assert((base1 + c1).push(le) =~= base1 + (c1 + seq![le]));
            assert(lookup_entries(traces, ctl@, challenge, ord_table(1)) == c1 + seq![le]);
            assert(lookup_entries(traces, ctl@, challenge, ord_table(0)) =~= c0);
        }
    }
    ok
}

/// Builds, for every table and in canonical order, the Z-polynomial records
/// of every lookup under every challenge, and checks eagerly that each
/// lookup's looking product equals its looked final value.
#[verifier::loop_isolation(false)]
#[verifier::rlimit(60)]
pub fn cross_table_lookup_data(
    trace_poly_values: &Vec<Vec<Vec<Fe>>>,
    cross_table_lookups: &Vec<CrossTableLookup>,
    ctl_challenges: &PermutationChallengeSet,
) -> (r: Result<Vec<CtlData>, CtlError>)
    requires
        ctl_inputs_wf(traces_view(trace_poly_values@), ctls_view(cross_table_lookups@)),
    ensures
        r.is_ok() <==> all_filters_binary(
            traces_view(trace_poly_values@),
            ctls_view(cross_table_lookups@),
        ) && products_match(
            traces_view(trace_poly_values@),
            ctls_view(cross_table_lookups@),
            ctl_challenges.challenges@,
        ),
        r matches Ok(data) ==> data@.len() == NUM_TABLES && (forall|t: int|
            0 <= t < NUM_TABLES ==> (#[trigger] data@[t])@ == z_stream(
                traces_view(trace_poly_values@),
                ctls_view(cross_table_lookups@),
                ctl_challenges.challenges@,
                ord_table(t),
                ctls_view(cross_table_lookups@).len() as int,
            )) && (forall|t: int|
            0 <= t < NUM_TABLES ==> (#[trigger] data@[t])@.len() == num_ctl_zs_spec(
                ctls_view(cross_table_lookups@),
                ord_table(t),
                ctl_challenges.challenges@.len() as int,
            )),
        r matches Err(e) ==> (e == CtlError::NonBinaryFilter <==> !all_filters_binary(
            traces_view(trace_poly_values@),
            ctls_view(cross_table_lookups@),
        )),
        r matches Err(e) ==> (e == CtlError::ProductMismatch <==> all_filters_binary(
            traces_view(trace_poly_values@),
            ctls_view(cross_table_lookups@),
        ) && !products_match(
            traces_view(trace_poly_values@),
            ctls_view(cross_table_lookups@),
            ctl_challenges.challenges@,
        )),
{
    let ghost traces = traces_view(trace_poly_values@);
    let ghost cv = ctls_view(cross_table_lookups@);
    let ghost chals = ctl_challenges.challenges@;
    let n = cross_table_lookups.len();

    // Every participating filter must be binary before any product is built.
    for l in 0..n
        invariant
            forall|l2: int, i2: int|
                0 <= l2 < l && 0 <= i2 < cv[l2].looking.len() ==> twc_binary(
                    #[trigger] cv[l2].looking[i2],
                    traces,
                ),
            forall|l2: int| 0 <= l2 < l ==> twc_binary((#[trigger] cv[l2]).looked, traces),
    {
        let ctl = &cross_table_lookups[l];
        proof {
            assert(cv[l as int] == ctl@);
        }
        let m = ctl.looking_tables.len();
        for i in 0..m
            invariant
                forall|i2: int|
                    0 <= i2 < i ==> twc_binary(#[trigger] cv[l as int].looking[i2], traces),
        {
            let twc = &ctl.looking_tables[i];
            let ti = twc.table.index();
            proof {
                assert(cv[l as int].looking[i as int] == twc@);
                assert(twc_fits_tables(twc@, traces));
                assert(traces[ti as int] == trace_ints(trace_poly_values@[ti as int]@));
            }
            if !check_filter_binary(&trace_poly_values[ti], &twc.filter_column) {
                proof {
                    assert(!twc_binary(cv[l as int].looking[i as int], traces));
                }
                return Err(CtlError::NonBinaryFilter);
            }
        }
        let looked = &ctl.looked_table;
        let lti = looked.table.index();
        proof {
            assert(cv[l as int].looked == looked@);
            assert(twc_fits_tables(looked@, traces));
            assert(traces[lti as int] == trace_ints(trace_poly_values@[lti as int]@));
        }
        if !check_filter_binary(&trace_poly_values[lti], &looked.filter_column) {
            proof {
                assert(!twc_binary(cv[l as int].looked, traces));
            }
            return Err(CtlError::NonBinaryFilter);
        }
    }
    proof {
        assert(all_filters_binary(traces, cv));
    }

    let nch = ctl_challenges.challenges.len();
    let mut zs0: Vec<CtlZData> = Vec::new();
    let mut zs1: Vec<CtlZData> = Vec::new();
    for l in 0..n
        invariant
            zdata_views(zs0@) == z_stream(traces, cv, chals, ord_table(0), l as int),
            zdata_views(zs1@) == z_stream(traces, cv, chals, ord_table(1), l as int),
            forall|l2: int, j2: int|
                0 <= l2 < l && 0 <= j2 < nch ==> products_match_at(traces, cv, chals, l2, j2),
    {
        let ctl = &cross_table_lookups[l];
        proof {
            assert(cv[l as int] == ctl@);
        }
        for j in 0..nch
            invariant
                zdata_views(zs0@) == z_stream(traces, cv, chals, ord_table(0), l as int)
                    + lookup_challenge_entries(traces, cv[l as int], chals, j as int, ord_table(0)),
                zdata_views(zs1@) == z_stream(traces, cv, chals, ord_table(1), l as int)
                    + lookup_challenge_entries(traces, cv[l as int], chals, j as int, ord_table(1)),
                forall|l2: int, j2: int|
                    0 <= l2 < l && 0 <= j2 < nch ==> products_match_at(traces, cv, chals, l2, j2),
                forall|j2: int| 0 <= j2 < j ==> products_match_at(traces, cv, chals, l as int, j2),
    {
            let challenge = ctl_challenges.challenges[j];
            let ghost a0 = zdata_views(zs0@);
            let ghost a1 = zdata_views(zs1@);
            let ok = build_one_challenge(trace_poly_values, ctl, challenge, &mut zs0, &mut zs1);
            proof {
                assert(challenge == chals[j as int]);
                assert(lookup_challenge_entries(traces, cv[l as int], chals, j + 1, ord_table(0))
                    == lookup_challenge_entries(traces, cv[l as int], chals, j as int, ord_table(0))
                    + lookup_entries(traces, cv[l as int], chals[j as int], ord_table(0)));
                assert(lookup_challenge_entries(traces, cv[l as int], chals, j + 1, ord_table(1))
                    == lookup_challenge_entries(traces, cv[l as int], chals, j as int, ord_table(1))
                    + lookup_entries(traces, cv[l as int], chals[j as int], ord_table(1)));
                assert(zdata_views(zs0@) =~= z_stream(traces, cv, chals, ord_table(0), l as int)
                    + lookup_challenge_entries(traces, cv[l as int], chals, j + 1, ord_table(0)));
                assert(zdata_views(zs1@) =~= z_stream(traces, cv, chals, ord_table(1), l as int)
                    + lookup_challenge_entries(traces, cv[l as int], chals, j + 1, ord_table(1)));
            }
            if !ok {
                proof {
                    assert(!products_match_at(traces, cv, chals, l as int, j as int));
                }
                return Err(CtlError::ProductMismatch);
            }
            proof {
                assert(products_match_at(traces, cv, chals, l as int, j as int));
            }
        }
        proof {
            assert(zdata_views(zs0@) =~= z_stream(traces, cv, chals, ord_table(0), l + 1));
            assert(zdata_views(zs1@) =~= z_stream(traces, cv, chals, ord_table(1), l + 1));
        }
    }
    let mut data: Vec<CtlData> = Vec::new();
    let ghost g0 = zs0@;
    let ghost g1 = zs1@;
    data.push(CtlData { zs_columns: zs0 });
    data.push(CtlData { zs_columns: zs1 });
    proof {
        assert(products_match(traces, cv, chals));
        assert(data@[0]@ == zdata_views(g0));
        assert(data@[1]@ == zdata_views(g1));
        lemma_z_stream_len(traces, cv, chals, ord_table(0), cv.len() as int);
        lemma_z_stream_len(traces, cv, chals, ord_table(1), cv.len() as int);
        assert forall|t: int| 0 <= t < NUM_TABLES implies (#[trigger] data@[t])@ == z_stream(
            traces,
            cv,
            chals,
            ord_table(t),
            cv.len() as int,
        ) by {
            if t == 0 {
            } else {
                assert(t == 1);
            }
        }
    }
    Ok(data)
}

} // verus!
