//! The per-constraint view extracted from a produced proof's claimed
//! openings, and the boundary and transition constraints that every valid
//! Z polynomial must satisfy.

use vstd::prelude::*;
use crate::challenge::{combine_int, PermutationChallenge, PermutationChallengeSet};
use crate::column::{Column, ColumnV};
use crate::field::{fadd, fmul, fsub, fe_seq, Fe};
use crate::table::{
    consumed_before, count_looking, npart, num_ctl_zs_spec, ord_table, ctls_view,
    lemma_count_looking_bound, lemma_npart_nonneg, CrossTableLookup, CtlV, Table, TwcV,
    NUM_TABLES,
};

verus! {

/// The data one row-wise constraint check needs: the Z polynomial's opening
/// at the local and next row, the challenge, and the columns and filter the
/// polynomial was built from.
pub struct CtlCheckVars {
    pub local_z: Fe,
    pub next_z: Fe,
    pub challenges: PermutationChallenge,
    pub columns: Vec<Column>,
    pub filter_column: Option<Column>,
}

/// The mathematical content of one check-variable record.
#[verifier::ext_equal]
pub ghost struct CtlCheckVarsV {
    pub local_z: int,
    pub next_z: int,
    pub challenges: PermutationChallenge,
    pub columns: Seq<ColumnV>,
    pub filter: Option<ColumnV>,
}

impl View for CtlCheckVars {
    type V = CtlCheckVarsV;

    open spec fn view(&self) -> CtlCheckVarsV {
        CtlCheckVarsV {
            local_z: self.local_z@,
            next_z: self.next_z@,
            challenges: self.challenges,
            columns: self.columns@.map_values(|c: Column| c@),
            filter: crate::ctl::filter_view(&self.filter_column),
        }
    }
}

// -- which participations the openings of one table stand for --------------

/// The participations of table `t` among the first entries of one looking
/// list, paired with the challenge, in consumption order.
pub open spec fn twcs_looking(
    looking: Seq<TwcV>,
    ch: PermutationChallenge,
    t: Table,
) -> Seq<(TwcV, PermutationChallenge)>
    decreases looking.len(),
{
    if looking.len() == 0 {
        Seq::empty()
    } else {
        twcs_looking(looking.drop_last(), ch, t) + if looking.last().table == t {
            seq![(looking.last(), ch)]
        } else {
            Seq::empty()
        }
    }
}

/// The participations of table `t` in one lookup under one challenge.
pub open spec fn twcs_lookup(ctl: CtlV, ch: PermutationChallenge, t: Table) -> Seq<
    (TwcV, PermutationChallenge),
> {
    twcs_looking(ctl.looking, ch, t) + if ctl.looked.table == t {
        seq![(ctl.looked, ch)]
    } else {
        Seq::empty()
    }
}

/// The participations of table `t` in one lookup under the first `jmax`
/// challenges.
pub open spec fn twcs_challenges(
    ctl: CtlV,
    chals: Seq<PermutationChallenge>,
    jmax: int,
    t: Table,
) -> Seq<(TwcV, PermutationChallenge)>
    decreases jmax,
{
    if jmax <= 0 {
        Seq::empty()
    } else {
        twcs_challenges(ctl, chals, jmax - 1, t) + twcs_lookup(ctl, chals[jmax - 1], t)
    }
}

/// Every participation of table `t` over the first `lmax` lookups, in the
/// canonical consumption order.
pub open spec fn twcs_stream(
    cv: Seq<CtlV>,
    chals: Seq<PermutationChallenge>,
    t: Table,
    lmax: int,
) -> Seq<(TwcV, PermutationChallenge)>
    decreases lmax,
{
    if lmax <= 0 {
        Seq::empty()
    } else {
        twcs_stream(cv, chals, t, lmax - 1) + twcs_challenges(
            cv[lmax - 1],
            chals,
            chals.len() as int,
            t,
        )
    }
}

pub proof fn lemma_twcs_looking_len(looking: Seq<TwcV>, ch: PermutationChallenge, t: Table)
    ensures
        twcs_looking(looking, ch, t).len() == count_looking(looking, t),
    decreases looking.len(),
{
    if looking.len() > 0 {
        lemma_twcs_looking_len(looking.drop_last(), ch, t);
    }
}

pub proof fn lemma_twcs_lookup_len(ctl: CtlV, ch: PermutationChallenge, t: Table)
    ensures
        twcs_lookup(ctl, ch, t).len() == npart(ctl, t),
{
    lemma_twcs_looking_len(ctl.looking, ch, t);
}

pub proof fn lemma_twcs_challenges_len(
    ctl: CtlV,
    chals: Seq<PermutationChallenge>,
    jmax: int,
    t: Table,
)
    requires
        0 <= jmax,
    ensures
        twcs_challenges(ctl, chals, jmax, t).len() == jmax * npart(ctl, t),
    decreases jmax,
{
    if jmax == 0 {
        vstd::arithmetic::mul::lemma_mul_basics(npart(ctl, t));
    } else {
        lemma_twcs_challenges_len(ctl, chals, jmax - 1, t);
        lemma_twcs_lookup_len(ctl, chals[jmax - 1], t);
        vstd::arithmetic::mul::lemma_mul_is_distributive_add_other_way(npart(ctl, t), jmax - 1, 1);
    }
}

/// The participation stream of table `t` is exactly as long as the opening
/// count the lookups consume.
pub proof fn lemma_twcs_stream_len(
    cv: Seq<CtlV>,
    chals: Seq<PermutationChallenge>,
    t: Table,
    lmax: int,
)
    requires
        0 <= lmax <= cv.len(),
    ensures
        twcs_stream(cv, chals, t, lmax).len() == consumed_before(cv, t, lmax, chals.len() as int),
    decreases lmax,
{
    if lmax > 0 {
        lemma_twcs_stream_len(cv, chals, t, lmax - 1);
        lemma_twcs_challenges_len(cv[lmax - 1], chals, chals.len() as int, t);
        vstd::arithmetic::mul::lemma_mul_is_commutative(npart(cv[lmax - 1], t), chals.len() as int);
    }
}

proof fn lemma_twcs_looking_take_succ(looking: Seq<TwcV>, ch: PermutationChallenge, t: Table, i: int)
    requires
        0 <= i < looking.len(),
    ensures
        twcs_looking(looking.take(i + 1), ch, t) == twcs_looking(looking.take(i), ch, t) + if looking[i].table
            == t {
            seq![(looking[i], ch)]
        } else {
            Seq::<(TwcV, PermutationChallenge)>::empty()
        },
{
    assert(looking.take(i + 1).drop_last() =~= looking.take(i));
    assert(looking.take(i + 1).last() == looking[i]);
}

/// The record that stands for consuming opening `pos` for one participation.
pub open spec fn expected_check_var(
    p: (TwcV, PermutationChallenge),
    zs: Seq<int>,
    zs_next: Seq<int>,
    pos: int,
) -> CtlCheckVarsV {
    CtlCheckVarsV {
        local_z: zs[pos],
        next_z: zs_next[pos],
        challenges: p.1,
        columns: p.0.columns,
        filter: p.0.filter,
    }
}

/// The records a list of participations yields, consuming openings from
/// position `skip` on.
pub open spec fn expected_check_vars(
    ps: Seq<(TwcV, PermutationChallenge)>,
    zs: Seq<int>,
    zs_next: Seq<int>,
    skip: int,
) -> Seq<CtlCheckVarsV> {
    Seq::new(ps.len(), |k: int| expected_check_var(ps[k], zs, zs_next, skip + k))
}

/// The views of a list of check-variable records.
pub open spec fn cvars_views(s: Seq<CtlCheckVars>) -> Seq<CtlCheckVarsV> {
    s.map_values(|v: CtlCheckVars| v@)
}

impl CtlCheckVars {
    /// Extracts, from one proof's permutation-argument openings, the
    /// check-variable records of one table: the openings past the
    /// `num_permutation_zs` non-lookup ones, paired in canonical order with
    /// the participations of `table` over all lookups and challenges.
    #[verifier::loop_isolation(false)]
    #[verifier::rlimit(60)]
    pub fn from_proof(
        table: Table,
        ctl_zs: &Vec<Fe>,
        ctl_zs_next: &Vec<Fe>,
        cross_table_lookups: &Vec<CrossTableLookup>,
        ctl_challenges: &PermutationChallengeSet,
        num_permutation_zs: usize,
    ) -> (r: Vec<CtlCheckVars>)
        requires
            ctl_zs@.len() as int == num_permutation_zs + num_ctl_zs_spec(
                ctls_view(cross_table_lookups@),
                table,
                ctl_challenges.challenges@.len() as int,
            ),
            ctl_zs_next@.len() == ctl_zs@.len(),
        ensures
            cvars_views(r@) == expected_check_vars(
                twcs_stream(
                    ctls_view(cross_table_lookups@),
                    ctl_challenges.challenges@,
                    table,
                    cross_table_lookups@.len() as int,
                ),
                fe_seq(ctl_zs@),
                fe_seq(ctl_zs_next@),
                num_permutation_zs as int,
            ),
    {
        let ghost cv = ctls_view(cross_table_lookups@);
        let ghost chals = ctl_challenges.challenges@;
        let ghost zs = fe_seq(ctl_zs@);
        let ghost zs_next = fe_seq(ctl_zs_next@);
        let skip = num_permutation_zs;
        let zlen = ctl_zs.len();
        let mut out: Vec<CtlCheckVars> = Vec::new();
        let n = cross_table_lookups.len();
        let nch = ctl_challenges.challenges.len();
        proof {
            lemma_twcs_stream_len(cv, chals, table, cv.len() as int);
        }
        for l in 0..n
            invariant
                out@.len() == twcs_stream(cv, chals, table, l as int).len(),
                cvars_views(out@) == expected_check_vars(
                    twcs_stream(cv, chals, table, l as int),
                    zs,
                    zs_next,
                    skip as int,
                ),
        {
            let ctl = &cross_table_lookups[l];
            proof {
                assert(cv[l as int] == ctl@);
                lemma_twcs_stream_len(cv, chals, table, l as int);
                lemma_twcs_stream_len(cv, chals, table, l + 1);
                crate::table::lemma_consumed_before_monotonic(cv, table, l + 1, cv.len() as int,
                    nch as int);
            }
            for j in 0..nch
                invariant
                    out@.len() == twcs_stream(cv, chals, table, l as int).len() + twcs_challenges(
                        cv[l as int],
                        chals,
                        j as int,
                        table,
                    ).len(),
                    cvars_views(out@) == expected_check_vars(
                        twcs_stream(cv, chals, table, l as int) + twcs_challenges(
                            cv[l as int],
                            chals,
                            j as int,
                            table,
                        ),
                        zs,
                        zs_next,
                        skip as int,
                    ),
            {
                let challenge = ctl_challenges.challenges[j];
                proof {
                    assert(challenge == chals[j as int]);
                }
                let m = ctl.looking_tables.len();
                for i in 0..m
                    invariant
                        out@.len() == twcs_stream(cv, chals, table, l as int).len()
                            + twcs_challenges(cv[l as int], chals, j as int, table).len()
                            + twcs_looking(
                            cv[l as int].looking.take(i as int),
                            chals[j as int],
                            table,
                        ).len(),
                        cvars_views(out@) == expected_check_vars(
                            twcs_stream(cv, chals, table, l as int) + twcs_challenges(
                                cv[l as int],
                                chals,
                                j as int,
                                table,
                            ) + twcs_looking(
                                cv[l as int].looking.take(i as int),
                                chals[j as int],
                                table,
                            ),
                            zs,
                            zs_next,
                            skip as int,
                        ),
                {
                    let twc = &ctl.looking_tables[i];
                    proof {
                        assert(cv[l as int].looking[i as int] == twc@);
                        lemma_twcs_looking_take_succ(
                            cv[l as int].looking,
                            chals[j as int],
                            table,
                            i as int,
                        );
                    }
                    if twc.table == table {
                        proof {
                            lemma_twcs_looking_len(
                                cv[l as int].looking.take(i as int),
                                chals[j as int],
                                table,
                            );
                            lemma_twcs_looking_len(cv[l as int].looking, chals[j as int], table);
                            lemma_twcs_lookup_len(cv[l as int], chals[j as int], table);
                            lemma_twcs_challenges_len(cv[l as int], chals, j as int, table);
                            lemma_twcs_challenges_len(cv[l as int], chals, j + 1, table);
                            crate::table::lemma_count_looking_take_succ(
                                cv[l as int].looking,
                                table,
                                i as int,
                            );
                            crate::table::lemma_count_looking_prefix_le(
                                cv[l as int].looking,
                                table,
                                i + 1,
                            );
                            lemma_out_position_in_range(cv, chals, table, l as int, j as int,
                                out@.len() as int, skip as int, ctl_zs@.len() as int);
                        }
                        let pos = skip + out.len();
                        let entry = CtlCheckVars {
                            local_z: ctl_zs[pos],
                            next_z: ctl_zs_next[pos],
                            challenges: challenge,
                            columns: crate::ctl::clone_columns(&twc.columns),
                            filter_column: crate::ctl::clone_filter(&twc.filter_column),
                        };
                        let ghost ps_old = twcs_stream(cv, chals, table, l as int) + twcs_challenges(
                            cv[l as int],
                            chals,
                            j as int,
                            table,
                        ) + twcs_looking(cv[l as int].looking.take(i as int), chals[j as int], table);
                        let ghost out_old = out@;
                        proof {
                            assert(entry@ =~= expected_check_var(
                                (twc@, chals[j as int]),
                                zs,
                                zs_next,
                                skip + ps_old.len(),
                            ));
                        }
                        out.push(entry);
                        proof {
                            let new_ps = ps_old + seq![(twc@, chals[j as int])];
                            assert forall|k: int| 0 <= k < new_ps.len() implies cvars_views(out@)[k]
                                == expected_check_vars(new_ps, zs, zs_next, skip as int)[k] by {
                                assert(cvars_views(out@)[k] == out@[k]@);
                                if k < ps_old.len() {
                                    assert(out@[k] == out_old[k]);
                                    assert(cvars_views(out_old)[k] == out_old[k]@);
                                    assert(cvars_views(out_old)[k] == expected_check_vars(
                                        ps_old,
                                        zs,
                                        zs_next,
                                        skip as int,
                                    )[k]);
                                    assert(new_ps[k] == ps_old[k]);
                                } else {
                                    assert(k == ps_old.len());
                                    assert(out@[k] == entry);
                                    assert(new_ps[k] == (twc@, chals[j as int]));
                                }
                            }
                            assert(cvars_views(out@) =~= expected_check_vars(
                                new_ps,
                                zs,
                                zs_next,
                                skip as int,
                            ));
                            assert(twcs_stream(cv, chals, table, l as int) + twcs_challenges(
                                cv[l as int],
                                chals,
                                j as int,
                                table,
                            ) + twcs_looking(
                                cv[l as int].looking.take(i + 1),
                                chals[j as int],
                                table,
                            ) =~= ps_old + seq![(twc@, chals[j as int])]);
                        }
                    } else {
                        proof {
                            assert(twcs_looking(
                                cv[l as int].looking.take(i + 1),
                                chals[j as int],
                                table,
                            ) =~= twcs_looking(
                                cv[l as int].looking.take(i as int),
                                chals[j as int],
                                table,
                            ));
                        }
                    }
                }
                proof {
                    assert(cv[l as int].looking.take(m as int) =~= cv[l as int].looking);
                }
                let looked = &ctl.looked_table;
                proof {
                    assert(cv[l as int].looked == looked@);
                }
                if looked.table == table {
                    proof {
                        lemma_twcs_looking_len(cv[l as int].looking, chals[j as int], table);
                        lemma_twcs_lookup_len(cv[l as int], chals[j as int], table);
                        lemma_twcs_challenges_len(cv[l as int], chals, j as int, table);
                        lemma_twcs_challenges_len(cv[l as int], chals, j + 1, table);
                        lemma_count_looking_bound(cv[l as int].looking, table);
                        assert(npart(cv[l as int], table) == count_looking(
                            cv[l as int].looking,
                            table,
                        ) + 1);
                        assert(twcs_challenges(cv[l as int], chals, j + 1, table)
                            == twcs_challenges(cv[l as int], chals, j as int, table) + twcs_lookup(
                            cv[l as int],
                            chals[j as int],
                            table,
                        ));
                        lemma_out_position_in_range(cv, chals, table, l as int, j as int,
                            out@.len() as int, skip as int, ctl_zs@.len() as int);
                    }
                    let pos = skip + out.len();
                    let entry = CtlCheckVars {
                        local_z: ctl_zs[pos],
                        next_z: ctl_zs_next[pos],
                        challenges: challenge,
                        columns: crate::ctl::clone_columns(&looked.columns),
                        filter_column: crate::ctl::clone_filter(&looked.filter_column),
                    };
                    let ghost ps_old = twcs_stream(cv, chals, table, l as int) + twcs_challenges(
                        cv[l as int],
                        chals,
                        j as int,
                        table,
                    ) + twcs_looking(cv[l as int].looking, chals[j as int], table);
                    let ghost out_old = out@;
                    proof {
                        assert(entry@ =~= expected_check_var(
                            (looked@, chals[j as int]),
                            zs,
                            zs_next,
                            skip + ps_old.len(),
                        ));
                    }
                    out.push(entry);
                    proof {
                        let new_ps = ps_old + seq![(looked@, chals[j as int])];
                        assert forall|k: int| 0 <= k < new_ps.len() implies cvars_views(out@)[k]
                            == expected_check_vars(new_ps, zs, zs_next, skip as int)[k] by {
                            assert(cvars_views(out@)[k] == out@[k]@);
                            if k < ps_old.len() {
                                assert(out@[k] == out_old[k]);
                                assert(cvars_views(out_old)[k] == out_old[k]@);
                                assert(cvars_views(out_old)[k] == expected_check_vars(
                                    ps_old,
                                    zs,
                                    zs_next,
                                    skip as int,
                                )[k]);
                                assert(new_ps[k] == ps_old[k]);
                            } else {
                                assert(k == ps_old.len());
                                assert(out@[k] == entry);
                                assert(new_ps[k] == (looked@, chals[j as int]));
                            }
                        }
                        assert(cvars_views(out@) =~= expected_check_vars(
                            new_ps,
                            zs,
                            zs_next,
                            skip as int,
                        ));
                        assert(twcs_stream(cv, chals, table, l as int) + twcs_challenges(
                            cv[l as int],
                            chals,
                            j + 1,
                            table,
                        ) =~= ps_old + seq![(looked@, chals[j as int])]);
                    }
                } else {
                    proof {
                        let ghost ps_old = twcs_stream(cv, chals, table, l as int)
                            + twcs_challenges(cv[l as int], chals, j as int, table) + twcs_looking(
                            cv[l as int].looking,
                            chals[j as int],
                            table,
                        );
                        assert(twcs_stream(cv, chals, table, l as int) + twcs_challenges(
                            cv[l as int],
                            chals,
                            j + 1,
                            table,
                        ) =~= ps_old);
                    }
                }
            }
            proof {
                assert(twcs_stream(cv, chals, table, l + 1) =~= twcs_stream(cv, chals, table, l as int)
                    + twcs_challenges(cv[l as int], chals, nch as int, table));
            }
        }
        out
    }

    /// The check-variable records of every table, from every proof's
    /// openings: table `t` reads its own openings past its own
    /// non-lookup permutation polynomials.
    pub fn from_proofs(
        proofs_ctl_zs: &Vec<Vec<Fe>>,
        proofs_ctl_zs_next: &Vec<Vec<Fe>>,
        cross_table_lookups: &Vec<CrossTableLookup>,
        ctl_challenges: &PermutationChallengeSet,
        num_permutation_zs: &Vec<usize>,
    ) -> (r: Vec<Vec<CtlCheckVars>>)
        requires
            proofs_ctl_zs@.len() == NUM_TABLES,
            proofs_ctl_zs_next@.len() == NUM_TABLES,
            num_permutation_zs@.len() == NUM_TABLES,
            forall|t: int|
                0 <= t < NUM_TABLES ==> (#[trigger] proofs_ctl_zs@[t])@.len() as int
                    == num_permutation_zs@[t] + num_ctl_zs_spec(
                    ctls_view(cross_table_lookups@),
                    ord_table(t),
                    ctl_challenges.challenges@.len() as int,
                ) && proofs_ctl_zs_next@[t]@.len() == proofs_ctl_zs@[t]@.len(),
        ensures
            r@.len() == NUM_TABLES,
            forall|t: int|
                0 <= t < NUM_TABLES ==> cvars_views((#[trigger] r@[t])@) == expected_check_vars(
                    twcs_stream(
                        ctls_view(cross_table_lookups@),
                        ctl_challenges.challenges@,
                        ord_table(t),
                        cross_table_lookups@.len() as int,
                    ),
                    fe_seq(proofs_ctl_zs@[t]@),
                    fe_seq(proofs_ctl_zs_next@[t]@),
                    num_permutation_zs@[t] as int,
                ),
    {
        let v0 = CtlCheckVars::from_proof(
            Table::KeccakPermutation,
            &proofs_ctl_zs[0],
            &proofs_ctl_zs_next[0],
            cross_table_lookups,
            ctl_challenges,
            num_permutation_zs[0],
        );
        let v1 = CtlCheckVars::from_proof(
            Table::KeccakSponge,
            &proofs_ctl_zs[1],
            &proofs_ctl_zs_next[1],
            cross_table_lookups,
            ctl_challenges,
            num_permutation_zs[1],
        );
        let mut r: Vec<Vec<CtlCheckVars>> = Vec::new();
        r.push(v0);
        r.push(v1);
        proof {
            assert forall|t: int| 0 <= t < NUM_TABLES implies cvars_views((#[trigger] r@[t])@)
                == expected_check_vars(
                twcs_stream(
                    ctls_view(cross_table_lookups@),
                    ctl_challenges.challenges@,
                    ord_table(t),
                    cross_table_lookups@.len() as int,
                ),
                fe_seq(proofs_ctl_zs@[t]@),
                fe_seq(proofs_ctl_zs_next@[t]@),
                num_permutation_zs@[t] as int,
            ) by {
                if t == 0 {
                } else {
                    assert(t == 1);
                }
            }
        }
        r
    }
}

/// While the traversal of one lookup is underway, the openings consumed so
/// far stay below the table's total opening count.
proof fn lemma_out_position_in_range(
    cv: Seq<CtlV>,
    chals: Seq<PermutationChallenge>,
    t: Table,
    l: int,
    j: int,
    out_len: int,
    skip: int,
    zs_len: int,
)
    requires
        0 <= l < cv.len(),
        0 <= j < chals.len(),
        zs_len == skip + num_ctl_zs_spec(cv, t, chals.len() as int),
        0 <= skip,
        out_len < twcs_stream(cv, chals, t, l).len() + twcs_challenges(cv[l], chals, j + 1, t).len(),
    ensures
        skip + out_len < zs_len,
{
    let nch = chals.len() as int;
    lemma_twcs_stream_len(cv, chals, t, l);
    lemma_twcs_challenges_len(cv[l], chals, j + 1, t);
    lemma_npart_nonneg(cv[l], t);
    vstd::arithmetic::mul::lemma_mul_inequality(j + 1, nch, npart(cv[l], t));
    vstd::arithmetic::mul::lemma_mul_is_commutative(npart(cv[l], t), nch);
    crate::table::lemma_consumed_before_monotonic(cv, t, l + 1, cv.len() as int, nch);
    assert(consumed_before(cv, t, l + 1, nch) == consumed_before(cv, t, l, nch) + npart(cv[l], t)
        * nch);
}

// -- the boundary and transition constraints --------------------------------

/// `select(f, x) = f*x + (1-f)`: the combined row value where the filter
/// fires, the multiplicative identity where it does not.
pub open spec fn fselect(f: int, x: int) -> int {
    fadd(fmul(f, x), fsub(1, f))
}

/// The filter's value on a materialized row; absent filters give 1.
pub open spec fn filter_eval(filter: Option<ColumnV>, row: Seq<int>) -> int {
    match filter {
        Some(c) => c.eval(row),
        None => 1,
    }
}

/// Each column of the record evaluated on a materialized row.
pub open spec fn columns_eval(columns: Seq<ColumnV>, row: Seq<int>) -> Seq<int> {
    Seq::new(columns.len(), |k: int| columns[k].eval(row))
}

/// The combined value of a record's columns on a row, under its challenge.
pub open spec fn combined_eval(v: CtlCheckVarsV, row: Seq<int>) -> int {
    combine_int(columns_eval(v.columns, row), v.challenges.beta@, v.challenges.gamma@)
}

/// The boundary constraint: on the first row, Z must equal the selected
/// combined value.
pub open spec fn first_row_constraint(v: CtlCheckVarsV, local: Seq<int>) -> int {
    fsub(v.local_z, fselect(filter_eval(v.filter, local), combined_eval(v, local)))
}

/// The transition constraint: the next Z value must be the local one times
/// the selected combined value of the next row.
pub open spec fn transition_constraint(v: CtlCheckVarsV, local: Seq<int>, next: Seq<int>) -> int {
    fsub(v.next_z, fmul(v.local_z, fselect(filter_eval(v.filter, next), combined_eval(v, next))))
}

/// Every record's columns and filter read only cells below `width`.
pub open spec fn check_vars_in_bounds(vars: Seq<CtlCheckVarsV>, width: int) -> bool {
    forall|k: int|
        0 <= k < vars.len() ==> crate::ctl::cols_in_bounds((#[trigger] vars[k]).columns, width)
            && crate::ctl::filter_in_bounds(vars[k].filter, width)
}

/// The two per-record constraints, over all records: entry `k` of
/// `first_row` and of `transition` belongs to record `k`. Both must
/// evaluate to zero for the openings of a correctly built Z polynomial.
pub struct CtlConstraints {
    pub first_row: Vec<Fe>,
    pub transition: Vec<Fe>,
}

/// Derives, for each check-variable record, the boundary constraint on the
/// first row and the transition constraint between consecutive rows.
#[verifier::loop_isolation(false)]
pub fn eval_cross_table_lookup_checks(
    local_values: &Vec<Fe>,
    next_values: &Vec<Fe>,
    ctl_vars: &Vec<CtlCheckVars>,
) -> (r: CtlConstraints)
    requires
        check_vars_in_bounds(cvars_views(ctl_vars@), local_values@.len() as int),
        check_vars_in_bounds(cvars_views(ctl_vars@), next_values@.len() as int),
    ensures
        r.first_row@.len() == ctl_vars@.len(),
        r.transition@.len() == ctl_vars@.len(),
        forall|k: int|
            0 <= k < ctl_vars@.len() ==> (#[trigger] r.first_row@[k])@ == first_row_constraint(
                ctl_vars@[k]@,
                fe_seq(local_values@),
            ),
        forall|k: int|
            0 <= k < ctl_vars@.len() ==> (#[trigger] r.transition@[k])@ == transition_constraint(
                ctl_vars@[k]@,
                fe_seq(local_values@),
                fe_seq(next_values@),
            ),
{
    let mut first_row: Vec<Fe> = Vec::new();
    let mut transition: Vec<Fe> = Vec::new();
    let n = ctl_vars.len();
    for k in 0..n
        invariant
            first_row@.len() == k,
            transition@.len() == k,
            forall|q: int|
                0 <= q < k ==> (#[trigger] first_row@[q])@ == first_row_constraint(
                    ctl_vars@[q]@,
                    fe_seq(local_values@),
                ),
            forall|q: int|
                0 <= q < k ==> (#[trigger] transition@[q])@ == transition_constraint(
                    ctl_vars@[q]@,
                    fe_seq(local_values@),
                    fe_seq(next_values@),
                ),
    {
        let v = &ctl_vars[k];
        proof {
            assert(cvars_views(ctl_vars@)[k as int] == v@);
        }
        let local_filter = eval_filter_row(&v.filter_column, local_values);
        let next_filter = eval_filter_row(&v.filter_column, next_values);
        let combined_local = combine_columns(v, local_values);
        let combined_next = combine_columns(v, next_values);
        let selected_local = select(local_filter, combined_local);
        let selected_next = select(next_filter, combined_next);
        first_row.push(v.local_z.sub(selected_local));
        transition.push(v.next_z.sub(v.local_z.mul(selected_next)));
    }
    CtlConstraints { first_row, transition }
}

/// `filter*x + 1 - filter` in the field.
fn select(filter: Fe, x: Fe) -> (r: Fe)
    ensures
        r@ == fselect(filter@, x@),
{
    filter.mul(x).add(Fe::one().sub(filter))
}

/// The filter evaluated on a materialized row; absent filters give 1.
fn eval_filter_row(filter_column: &Option<Column>, row: &Vec<Fe>) -> (r: Fe)
    requires
        crate::ctl::filter_in_bounds(crate::ctl::filter_view(filter_column), row@.len() as int),
    ensures
        r@ == filter_eval(crate::ctl::filter_view(filter_column), fe_seq(row@)),
{
    match filter_column {
        Some(c) => c.eval(row),
        None => Fe::one(),
    }
}

/// The record's columns evaluated on a row and combined under its challenge.
#[verifier::loop_isolation(false)]
fn combine_columns(v: &CtlCheckVars, row: &Vec<Fe>) -> (r: Fe)
    requires
        crate::ctl::cols_in_bounds(v@.columns, row@.len() as int),
    ensures
        r@ == combined_eval(v@, fe_seq(row@)),
{
    let mut evals: Vec<Fe> = Vec::new();
    let m = v.columns.len();
    for k in 0..m
        invariant
            evals@.len() == k,
            forall|q: int| 0 <= q < k ==> (#[trigger] evals@[q])@ == v@.columns[q].eval(fe_seq(row@)),
    {
        proof {
            assert(v@.columns[k as int] == v.columns@[k as int]@);
        }
        evals.push(v.columns[k].eval(row));
    }
    proof {
        assert forall|q: int| 0 <= q < m implies fe_seq(evals@)[q] == columns_eval(
            v@.columns,
            fe_seq(row@),
        )[q] by {
            assert(fe_seq(evals@)[q] == evals@[q]@);
        }
        assert(fe_seq(evals@) =~= columns_eval(v@.columns, fe_seq(row@)));
    }
    v.challenges.combine(&evals)
}

} // verus!
