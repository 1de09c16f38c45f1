//! The final global check of the lookup argument: for every lookup and every
//! challenge, the product of the looking tables' last Z-opening values must
//! equal the looked table's last Z-opening value, the openings of each table
//! being consumed in the canonical (lookup, challenge, participant) order.

use vstd::prelude::*;
use crate::error::CtlError;
use crate::field::{fmul, fe_seq, Fe};
use crate::table::{
    consumed_before, count_looking, npart, num_ctl_zs_spec, ord_table, ctls_view,
    lemma_consumed_before_monotonic, lemma_count_looking_take_all, lemma_count_looking_take_succ,
    lemma_looked_slot_bounds, lemma_looking_slot_bounds, lemma_npart_nonneg,
    lemma_ord_table_roundtrip, looked_slot, looking_slot, CrossTableLookup, CtlV, Table,
    NUM_TABLES,
};

verus! {

/// The per-table last Z-opening values as mathematical sequences.
pub open spec fn lasts_ints(lasts: Seq<Vec<Fe>>) -> Seq<Seq<int>> {
    lasts.map_values(|v: Vec<Fe>| fe_seq(v@))
}

/// Each table offers exactly as many last values as the lookup set consumes.
pub open spec fn lasts_lens_ok(cv: Seq<CtlV>, lasts: Seq<Seq<int>>, nch: int) -> bool {
    &&& lasts.len() == NUM_TABLES
    &&& forall|t: int|
        0 <= t < NUM_TABLES ==> (#[trigger] lasts[t]).len() == num_ctl_zs_spec(
            cv,
            ord_table(t),
            nch,
        )
}

/// The last value consumed for the `i`-th looking participant of lookup `l`
/// under challenge `j`.
pub open spec fn looking_last_at(
    cv: Seq<CtlV>,
    lasts: Seq<Seq<int>>,
    nch: int,
    l: int,
    j: int,
    i: int,
) -> int {
    lasts[cv[l].looking[i].table.ordinal()][looking_slot(cv, l, j, i, nch)]
}

/// The product of the first `imax` looking participants' last values.
pub open spec fn looking_last_prod(
    cv: Seq<CtlV>,
    lasts: Seq<Seq<int>>,
    nch: int,
    l: int,
    j: int,
    imax: int,
) -> int
    decreases imax,
{
    if imax <= 0 {
        1
    } else {
        fmul(
            looking_last_prod(cv, lasts, nch, l, j, imax - 1),
            looking_last_at(cv, lasts, nch, l, j, imax - 1),
        )
    }
}

/// The last value consumed for the looked table of lookup `l` under
/// challenge `j`.
pub open spec fn looked_last_at(cv: Seq<CtlV>, lasts: Seq<Seq<int>>, nch: int, l: int, j: int) -> int {
    lasts[cv[l].looked.table.ordinal()][looked_slot(cv, l, j, nch)]
}

/// Every lookup's looking product equals its looked value, for every
/// challenge.
pub open spec fn lasts_match(cv: Seq<CtlV>, lasts: Seq<Seq<int>>, nch: int) -> bool {
    forall|l: int, j: int|
        0 <= l < cv.len() && 0 <= j < nch ==> #[trigger] looked_last_at(cv, lasts, nch, l, j)
            == looking_last_prod(cv, lasts, nch, l, j, cv[l].looking.len() as int)
}

/// How many looking participants of one lookup belong to `table`.
#[verifier::loop_isolation(false)]
fn count_looking_exec(ctl: &CrossTableLookup, table: Table) -> (r: usize)
    ensures
        r as int == count_looking(ctl@.looking, table),
        r <= ctl.looking_tables@.len(),
{
    let mut here: usize = 0;
    let m = ctl.looking_tables.len();
    proof {
        assert(ctl@.looking.take(0) =~= Seq::<crate::table::TwcV>::empty());
    }
    for i in 0..m
        invariant
            here as int == count_looking(ctl@.looking.take(i as int), table),
            here <= i,
    {
        proof {
            assert(ctl@.looking[i as int] == ctl.looking_tables@[i as int]@);
            lemma_count_looking_take_succ(ctl@.looking, table, i as int);
        }
        if ctl.looking_tables[i].table == table {
            here = here + 1;
        }
    }
    proof {
        lemma_count_looking_take_all(ctl@.looking, table);
    }
    here
}

/// Whether the lookup set consumes exactly `target` openings of `table`.
#[verifier::loop_isolation(false)]
fn count_matches(
    ctls: &Vec<CrossTableLookup>,
    table: Table,
    num_challenges: usize,
    target: usize,
) -> (r: bool)
    ensures
        r <==> num_ctl_zs_spec(ctls_view(ctls@), table, num_challenges as int) == target as int,
{
    let ghost cv = ctls_view(ctls@);
    let n = ctls.len();
    let mut count: usize = 0;
    for l in 0..n
        invariant
            count as int == consumed_before(cv, table, l as int, num_challenges as int),
            count <= target,
    {
        let ctl = &ctls[l];
        proof {
            assert(cv[l as int] == ctl@);
        }
        let here_looking = count_looking_exec(ctl, table);
        let looked_here = ctl.looked_table.table == table;
        let ghost np = npart(cv[l as int], table);
        proof {
            vstd::arithmetic::mul::lemma_mul_basics(np);
            assert(here_looking as int + if looked_here { 1int } else { 0int } == np);
        }
        for j in 0..num_challenges
            invariant
                here_looking as int + if looked_here { 1int } else { 0int } == np,
                count as int == consumed_before(cv, table, l as int, num_challenges as int) + (
                j as int) * np,
                count <= target,
        {
            proof {
                lemma_consumed_before_monotonic(cv, table, l + 1, cv.len() as int,
                    num_challenges as int);
                lemma_npart_nonneg(cv[l as int], table);
                vstd::arithmetic::mul::lemma_mul_inequality(j + 1, num_challenges as int, np);
                vstd::arithmetic::mul::lemma_mul_is_distributive_add_other_way(np, j as int, 1);
                vstd::arithmetic::mul::lemma_mul_is_commutative(np, num_challenges as int);
                assert(consumed_before(cv, table, l + 1, num_challenges as int)
                    >= count as int + np);
            }
            if here_looking > target - count {
                proof {
                    assert(num_ctl_zs_spec(cv, table, num_challenges as int) > target as int);
                }
                return false;
            }
            count = count + here_looking;
            if looked_here {
                if count >= target {
                    proof {
                        assert(num_ctl_zs_spec(cv, table, num_challenges as int) > target as int);
                    }
                    return false;
                }
                count = count + 1;
            }
        }
        proof {
            vstd::arithmetic::mul::lemma_mul_is_commutative(np, num_challenges as int);
        }
    }
    count == target
}

/// Replays the canonical traversal over the per-table last Z-opening values:
/// succeeds exactly when each table offers exactly the expected number of
/// openings and every lookup's looking product equals its looked value under
/// every challenge. A count mismatch is a desynchronization between the
/// declared lookup set and the proof layout; a product mismatch rejects the
/// proof.
#[verifier::loop_isolation(false)]
#[verifier::rlimit(60)]
pub fn verify_cross_table_lookups(
    cross_table_lookups: &Vec<CrossTableLookup>,
    ctl_zs_lasts: &Vec<Vec<Fe>>,
    num_challenges: usize,
) -> (r: Result<(), CtlError>)
    ensures
        r is Ok <==> lasts_lens_ok(
            ctls_view(cross_table_lookups@),
            lasts_ints(ctl_zs_lasts@),
            num_challenges as int,
        ) && lasts_match(
            ctls_view(cross_table_lookups@),
            lasts_ints(ctl_zs_lasts@),
            num_challenges as int,
        ),
        r == Err::<(), CtlError>(CtlError::DesyncOpenings) <==> !lasts_lens_ok(
            ctls_view(cross_table_lookups@),
            lasts_ints(ctl_zs_lasts@),
            num_challenges as int,
        ),
        r == Err::<(), CtlError>(CtlError::VerificationFailed) <==> lasts_lens_ok(
            ctls_view(cross_table_lookups@),
            lasts_ints(ctl_zs_lasts@),
            num_challenges as int,
        ) && !lasts_match(
            ctls_view(cross_table_lookups@),
            lasts_ints(ctl_zs_lasts@),
            num_challenges as int,
        ),
{
    let ghost cv = ctls_view(cross_table_lookups@);
    let ghost lasts = lasts_ints(ctl_zs_lasts@);
    let nch = num_challenges;
    if ctl_zs_lasts.len() != NUM_TABLES {
        return Err(CtlError::DesyncOpenings);
    }
    if !count_matches(cross_table_lookups, Table::KeccakPermutation, nch, ctl_zs_lasts[0].len()) {
        proof {
            assert(lasts[0].len() == ctl_zs_lasts@[0]@.len());
            assert(!lasts_lens_ok(cv, lasts, nch as int));
        }
        return Err(CtlError::DesyncOpenings);
    }
    if !count_matches(cross_table_lookups, Table::KeccakSponge, nch, ctl_zs_lasts[1].len()) {
        proof {
            assert(lasts[1].len() == ctl_zs_lasts@[1]@.len());
            assert(!lasts_lens_ok(cv, lasts, nch as int));
        }
        return Err(CtlError::DesyncOpenings);
    }
    proof {
        assert(lasts[0].len() == ctl_zs_lasts@[0]@.len());
        assert(lasts[1].len() == ctl_zs_lasts@[1]@.len());
        assert(lasts_lens_ok(cv, lasts, nch as int));
    }

    let n = cross_table_lookups.len();
    let mut cur0: usize = 0;
    let mut cur1: usize = 0;
    for l in 0..n
        invariant
            cur0 as int == consumed_before(cv, ord_table(0), l as int, nch as int),
            cur1 as int == consumed_before(cv, ord_table(1), l as int, nch as int),
            forall|l2: int, j2: int|
                0 <= l2 < l && 0 <= j2 < nch ==> #[trigger] looked_last_at(
                    cv,
                    lasts,
                    nch as int,
                    l2,
                    j2,
                ) == looking_last_prod(cv, lasts, nch as int, l2, j2, cv[l2].looking.len() as int),
    {
        let ctl = &cross_table_lookups[l];
        proof {
            assert(cv[l as int] == ctl@);
            vstd::arithmetic::mul::lemma_mul_basics(npart(cv[l as int], ord_table(0)));
            vstd::arithmetic::mul::lemma_mul_basics(npart(cv[l as int], ord_table(1)));
        }
        for j in 0..nch
            invariant
                cur0 as int == consumed_before(cv, ord_table(0), l as int, nch as int) + (j as int)
                    * npart(cv[l as int], ord_table(0)),
                cur1 as int == consumed_before(cv, ord_table(1), l as int, nch as int) + (j as int)
                    * npart(cv[l as int], ord_table(1)),
                forall|l2: int, j2: int|
                    0 <= l2 < l && 0 <= j2 < nch ==> #[trigger] looked_last_at(
                        cv,
                        lasts,
                        nch as int,
                        l2,
                        j2,
                    ) == looking_last_prod(cv, lasts, nch as int, l2, j2,
                    cv[l2].looking.len() as int),
                forall|j2: int|
                    0 <= j2 < j ==> #[trigger] looked_last_at(cv, lasts, nch as int, l as int, j2)
                        == looking_last_prod(cv, lasts, nch as int, l as int, j2,
                    cv[l as int].looking.len() as int),
        {
            let m = ctl.looking_tables.len();
            let mut prod = Fe::one();
            for i in 0..m
                invariant
                    cur0 as int == consumed_before(cv, ord_table(0), l as int, nch as int) + (
                    j as int) * npart(cv[l as int], ord_table(0)) + count_looking(
                        cv[l as int].looking.take(i as int),
                        ord_table(0),
                    ),
                    cur1 as int == consumed_before(cv, ord_table(1), l as int, nch as int) + (
                    j as int) * npart(cv[l as int], ord_table(1)) + count_looking(
                        cv[l as int].looking.take(i as int),
                        ord_table(1),
                    ),
                    prod@ == looking_last_prod(cv, lasts, nch as int, l as int, j as int, i as int),
            {
                let twc = &ctl.looking_tables[i];
                let ti = twc.table.index();
                proof {
                    assert(cv[l as int].looking[i as int] == twc@);
                    lemma_looking_slot_bounds(cv, l as int, j as int, i as int, nch as int);
                    lemma_consumed_before_monotonic(cv, twc@.table, l + 1, cv.len() as int,
                        nch as int);
                    lemma_ord_table_roundtrip(twc@.table);
                    lemma_count_looking_take_succ(cv[l as int].looking, ord_table(0), i as int);
                    lemma_count_looking_take_succ(cv[l as int].looking, ord_table(1), i as int);
                    assert(lasts[ti as int] == fe_seq(ctl_zs_lasts@[ti as int]@));
                }
                let cur = if ti == 0 {
                    cur0
                } else {
                    cur1
                };
                proof {
                    assert(cur as int == looking_slot(cv, l as int, j as int, i as int, nch as int));
                    assert(cur < ctl_zs_lasts@[ti as int]@.len());
                }
                let v = ctl_zs_lasts[ti][cur];
                prod = prod.mul(v);
                proof {
                    assert(v@ == looking_last_at(cv, lasts, nch as int, l as int, j as int, i as int));
                }
                if ti == 0 {
                    cur0 = cur0 + 1;
                } else {
                    cur1 = cur1 + 1;
                }
            }
            proof {
                assert(cv[l as int].looking.take(m as int) =~= cv[l as int].looking);
                lemma_count_looking_take_all(cv[l as int].looking, ord_table(0));
                lemma_count_looking_take_all(cv[l as int].looking, ord_table(1));
            }
            let looked = &ctl.looked_table;
            let lti = looked.table.index();
            proof {
                assert(cv[l as int].looked == looked@);
                lemma_looked_slot_bounds(cv, l as int, j as int, nch as int);
                lemma_consumed_before_monotonic(cv, looked@.table, l + 1, cv.len() as int,
                    nch as int);
                lemma_ord_table_roundtrip(looked@.table);
                assert(lasts[lti as int] == fe_seq(ctl_zs_lasts@[lti as int]@));
            }
            let cur = if lti == 0 {
                cur0
            } else {
                cur1
            };
            proof {
                assert(cur as int == looked_slot(cv, l as int, j as int, nch as int));
                assert(cur < ctl_zs_lasts@[lti as int]@.len());
            }
            let lv = ctl_zs_lasts[lti][cur];
            if lti == 0 {
                cur0 = cur0 + 1;
            } else {
                cur1 = cur1 + 1;
            }
            proof {
                assert(lv@ == looked_last_at(cv, lasts, nch as int, l as int, j as int));
                vstd::arithmetic::mul::lemma_mul_is_distributive_add_other_way(
                    npart(cv[l as int], ord_table(0)),
                    j as int,
                    1,
                );
                vstd::arithmetic::mul::lemma_mul_is_distributive_add_other_way(
                    npart(cv[l as int], ord_table(1)),
                    j as int,
                    1,
                );
            }
            if !prod.eq_fe(lv) {
                proof {
                    assert(!lasts_match(cv, lasts, nch as int));
                }
                return Err(CtlError::VerificationFailed);
            }
        }
        proof {
            vstd::arithmetic::mul::lemma_mul_is_commutative(
                npart(cv[l as int], ord_table(0)),
                nch as int,
            );
            vstd::arithmetic::mul::lemma_mul_is_commutative(
                npart(cv[l as int], ord_table(1)),
                nch as int,
            );
        }
    }
    proof {
        assert(lasts_match(cv, lasts, nch as int));
    }
    Ok(())
}

} // verus!
