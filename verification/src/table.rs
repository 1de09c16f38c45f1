//! The registry of trace tables and of the lookup relationships among them:
//! which tables look up rows, which table is looked into, and over which
//! columns.

use vstd::prelude::*;
use crate::column::{Column, ColumnV};

verus! {

/// The number of trace tables.
pub const NUM_TABLES: usize = 2;

/// The identities of the trace tables, ordinally indexed.
#[derive(Clone, Copy, Debug, PartialEq, Eq, Structural)]
pub enum Table {
    KeccakPermutation,
    KeccakSponge,
}

impl Table {
    /// The ordinal of this table, the index of its trace in every per-table
    /// collection.
    pub open spec fn ordinal(self) -> int {
        match self {
            Table::KeccakPermutation => 0,
            Table::KeccakSponge => 1,
        }
    }

    /// The ordinal as a machine integer.
    pub fn index(self) -> (r: usize)
        ensures
            r as int == self.ordinal(),
            r < NUM_TABLES,
    {
        match self {
            Table::KeccakPermutation => 0,
            Table::KeccakSponge => 1,
        }
    }

    /// The fixed ordered set of table identities.
    pub fn all() -> (r: [Table; 2])
        ensures
            r@ =~= seq![Table::KeccakPermutation, Table::KeccakSponge],
    {
        [Table::KeccakPermutation, Table::KeccakSponge]
    }
}

/// The mathematical content of a table's participation in a lookup: its
/// identity, the columns forming the lookup key, and the optional filter.
#[verifier::ext_equal]
pub ghost struct TwcV {
    pub table: Table,
    pub columns: Seq<ColumnV>,
    pub filter: Option<ColumnV>,
}

/// One table's participation in a lookup.
pub struct TableWithColumns {
    pub table: Table,
    pub columns: Vec<Column>,
    pub filter_column: Option<Column>,
}

impl View for TableWithColumns {
    type V = TwcV;

    open spec fn view(&self) -> TwcV {
        TwcV {
            table: self.table,
            columns: self.columns@.map_values(|c: Column| c@),
            filter: match self.filter_column {
                Some(c) => Some(c@),
                None => None,
            },
        }
    }
}

impl TableWithColumns {
    pub fn new(table: Table, columns: Vec<Column>, filter_column: Option<Column>) -> (r:
        TableWithColumns)
        ensures
            r@.table == table,
            r@.columns =~= columns@.map_values(|c: Column| c@),
            r@.filter == match filter_column {
                Some(c) => Some(c@),
                None => None::<ColumnV>,
            },
    {
        TableWithColumns { table, columns, filter_column }
    }
}

/// The mathematical content of one lookup relationship.
#[verifier::ext_equal]
pub ghost struct CtlV {
    pub looking: Seq<TwcV>,
    pub looked: TwcV,
}

impl CtlV {
    /// Every participating table's column list has the length of the looked
    /// table's: all describe the same logical row shape.
    pub open spec fn wf(self) -> bool {
        forall|i: int|
            0 <= i < self.looking.len() ==> (#[trigger] self.looking[i]).columns.len()
                == self.looked.columns.len()
    }
}

/// One lookup relationship: every filtered row appearing in any looking table
/// must appear among the looked table's filtered rows with the same total
/// multiplicity, and vice versa.
pub struct CrossTableLookup {
    pub looking_tables: Vec<TableWithColumns>,
    pub looked_table: TableWithColumns,
}

impl View for CrossTableLookup {
    type V = CtlV;

    open spec fn view(&self) -> CtlV {
        CtlV {
            looking: self.looking_tables@.map_values(|t: TableWithColumns| t@),
            looked: self.looked_table@,
        }
    }
}

impl CrossTableLookup {
    pub fn new(looking_tables: Vec<TableWithColumns>, looked_table: TableWithColumns) -> (r:
        CrossTableLookup)
        requires
            forall|i: int|
                0 <= i < looking_tables@.len() ==> (#[trigger] looking_tables@[i]).columns@.len()
                    == looked_table.columns@.len(),
        ensures
            r@.looking =~= looking_tables@.map_values(|t: TableWithColumns| t@),
            r@.looked == looked_table@,
            r@.wf(),
    {
        let r = CrossTableLookup { looking_tables, looked_table };
        proof {
            assert forall|i: int| 0 <= i < r@.looking.len() implies (
            #[trigger] r@.looking[i]).columns.len() == r@.looked.columns.len() by {
                assert(r@.looking[i] == r.looking_tables@[i]@);
            }
        }
        r
    }

    /// How many Z polynomials the given table must allocate for the whole
    /// lookup set: one per participation per challenge.
    pub fn num_ctl_zs(ctls: &Vec<CrossTableLookup>, table: Table, num_challenges: usize) -> (r:
        usize)
        requires
            total_npart(ctls_view(ctls@), table) <= usize::MAX as int,
            total_npart(ctls_view(ctls@), table) * (num_challenges as int) <= usize::MAX as int,
        ensures
            r as int == num_ctl_zs_spec(ctls_view(ctls@), table, num_challenges as int),
    {
        let ghost cv = ctls_view(ctls@);
        let mut num_ctls: usize = 0;
        let n = ctls.len();
        proof {
            assert(cv.take(0) =~= Seq::<CtlV>::empty());
            lemma_total_npart_monotonic(cv, table, 0);
        }
        for l in 0..n
            invariant
                n == ctls@.len(),
                cv == ctls_view(ctls@),
                num_ctls as int == total_npart(cv.take(l as int), table),
                total_npart(cv.take(l as int), table) <= total_npart(cv, table),
                total_npart(cv, table) <= usize::MAX as int,
        {
            let ctl = &ctls[l];
            proof {
                assert(cv[l as int] == ctls@[l as int]@);
                lemma_total_npart_take_succ(cv, table, l as int);
                lemma_npart_nonneg(cv[l as int], table);
                lemma_total_npart_monotonic(cv, table, l + 1);
            }
            let mut here: usize = 0;
            let m = ctl.looking_tables.len();
            for i in 0..m
                invariant
                    m == ctl.looking_tables@.len(),
                    here as int == count_looking(ctl@.looking.take(i as int), table),
                    here <= i,
            {
                proof {
                    assert(ctl@.looking[i as int] == ctl.looking_tables@[i as int]@);
                    assert(ctl@.looking.take(i + 1).drop_last() =~= ctl@.looking.take(i as int));
                    lemma_count_looking_bound(ctl@.looking.take(i + 1), table);
                }
                if ctl.looking_tables[i].table == table {
                    here = here + 1;
                }
            }
            proof {
                assert(ctl@.looking.take(m as int) =~= ctl@.looking);
            }
            if ctl.looked_table.table == table {
                here = here + 1;
            }
            proof {
                assert(here as int == npart(cv[l as int], table));
            }
            num_ctls = num_ctls + here;
        }
        proof {
            assert(cv.take(n as int) =~= cv);
            lemma_total_npart_times(cv, table, num_challenges as int);
            vstd::arithmetic::mul::lemma_mul_nonnegative(
                total_npart(cv, table),
                num_challenges as int,
            );
        }
        num_ctls * num_challenges
    }
}

/// The constant-zero column, the filter that deactivates every row.
pub open spec fn zero_column_v() -> ColumnV {
    ColumnV { pairs: Seq::empty(), constant: 0 }
}

/// A participation with its filter forced to the constant-zero column.
pub open spec fn disabled_twc(t: TwcV) -> TwcV {
    TwcV { table: t.table, columns: t.columns, filter: Some(zero_column_v()) }
}

/// A lookup with every participant's filter forced to the constant-zero
/// column: no row of any table is active for it.
pub open spec fn disabled_ctl(c: CtlV) -> CtlV {
    CtlV { looking: c.looking.map_values(|t: TwcV| disabled_twc(t)), looked: disabled_twc(c.looked) }
}

/// Force every filter of the lookup to the constant-zero column, turning the
/// lookup into a no-op without restructuring the table list.
pub fn disable_ctl(ctl: &mut CrossTableLookup)
    ensures
        final(ctl)@ == disabled_ctl(old(ctl)@),
{
    let mut remaining = Vec::new();
    std::mem::swap(&mut remaining, &mut ctl.looking_tables);
    let ghost orig = remaining@.map_values(|t: TableWithColumns| t@);
    let mut rebuilt: Vec<TableWithColumns> = Vec::new();
    let n = remaining.len();
    for i in 0..n
        invariant
            n == orig.len(),
            remaining@.len() + i == n,
            forall|j: int| 0 <= j < n - i ==> #[trigger] remaining@[j]@ == orig[i + j],
            rebuilt@.len() == i,
            forall|j: int| 0 <= j < i ==> #[trigger] rebuilt@[j]@ == disabled_twc(orig[j]),
    {
        let mut twc = remaining.remove(0);
        let ghost before = twc@;
        let zcol = Column::zero();
        proof {
            assert(zcol@ =~= zero_column_v());
        }
        twc.filter_column = Some(zcol);
        proof {
            assert(before == orig[i as int]);
            assert(twc@.columns == before.columns);
            assert(twc@.table == before.table);
            assert(twc@.filter == Some(zero_column_v()));
            assert(twc@ =~= disabled_twc(orig[i as int]));
        }
        rebuilt.push(twc);
    }
    ctl.looking_tables = rebuilt;
    ctl.looked_table.filter_column = Some(Column::zero());
    proof {
        assert(ctl.looked_table@ =~= disabled_twc(old(ctl)@.looked));
        assert(ctl.looking_tables@.map_values(|t: TableWithColumns| t@) =~= old(
            ctl,
        )@.looking.map_values(|t: TwcV| disabled_twc(t)));
        assert(ctl@ =~= disabled_ctl(old(ctl)@));
    }
}

/// Disabling a lookup is idempotent: a second application changes nothing,
/// the filters stay the constant-zero column.
pub proof fn lemma_disable_ctl_idempotent(c: CtlV)
    ensures
        disabled_ctl(disabled_ctl(c)) == disabled_ctl(c),
{
    assert(disabled_ctl(disabled_ctl(c)).looking =~= disabled_ctl(c).looking);
    assert(disabled_ctl(disabled_ctl(c)) =~= disabled_ctl(c));
}

/// The lookup set as mathematical values.
pub open spec fn ctls_view(ctls: Seq<CrossTableLookup>) -> Seq<CtlV> {
    ctls.map_values(|c: CrossTableLookup| c@)
}

/// How many of the looking participations belong to table `t`.
pub open spec fn count_looking(looking: Seq<TwcV>, t: Table) -> int
    decreases looking.len(),
{
    if looking.len() == 0 {
        0
    } else {
        count_looking(looking.drop_last(), t) + if looking.last().table == t {
            1int
        } else {
            0int
        }
    }
}

/// How many participations of one lookup belong to table `t`, the looked
/// table included.
pub open spec fn npart(ctl: CtlV, t: Table) -> int {
    count_looking(ctl.looking, t) + if ctl.looked.table == t {
        1int
    } else {
        0int
    }
}

/// How many participations of the whole lookup set belong to table `t`.
pub open spec fn total_npart(ctls: Seq<CtlV>, t: Table) -> int
    decreases ctls.len(),
{
    if ctls.len() == 0 {
        0
    } else {
        total_npart(ctls.drop_last(), t) + npart(ctls.last(), t)
    }
}

/// How many Z-polynomial openings of table `t` the lookups before index `l`
/// consume, at `nch` challenges per lookup.
pub open spec fn consumed_before(ctls: Seq<CtlV>, t: Table, l: int, nch: int) -> int
    decreases l,
{
    if l <= 0 {
        0
    } else {
        consumed_before(ctls, t, l - 1, nch) + npart(ctls[l - 1], t) * nch
    }
}

/// How many Z polynomials table `t` carries for the whole lookup set.
pub open spec fn num_ctl_zs_spec(ctls: Seq<CtlV>, t: Table, nch: int) -> int {
    consumed_before(ctls, t, ctls.len() as int, nch)
}

/// The table whose ordinal is `t` (tables beyond the range fall to the last).
pub open spec fn ord_table(t: int) -> Table {
    if t == 0 {
        Table::KeccakPermutation
    } else {
        Table::KeccakSponge
    }
}

/// Ordinals and table identities are inverse to one another.
pub proof fn lemma_ord_table_roundtrip(t: Table)
    ensures
        ord_table(t.ordinal()) == t,
        0 <= t.ordinal() < NUM_TABLES,
{
}

/// The position, within table `t`'s Z-polynomial stream (`t` being the table
/// of the `i`-th looking participant), of that participant's entry for
/// challenge `j` of lookup `l`.
pub open spec fn looking_slot(ctls: Seq<CtlV>, l: int, j: int, i: int, nch: int) -> int {
    let t = ctls[l].looking[i].table;
    consumed_before(ctls, t, l, nch) + j * npart(ctls[l], t) + count_looking(
        ctls[l].looking.take(i),
        t,
    )
}

/// The position, within the looked table's Z-polynomial stream, of the looked
/// entry for challenge `j` of lookup `l`.
pub open spec fn looked_slot(ctls: Seq<CtlV>, l: int, j: int, nch: int) -> int {
    let t = ctls[l].looked.table;
    consumed_before(ctls, t, l, nch) + j * npart(ctls[l], t) + count_looking(ctls[l].looking, t)
}

/// Counting one more looking participant raises the count of its table by
/// one and leaves the other counts unchanged.
pub proof fn lemma_count_looking_take_succ(looking: Seq<TwcV>, t: Table, i: int)
    requires
        0 <= i < looking.len(),
    ensures
        count_looking(looking.take(i + 1), t) == count_looking(looking.take(i), t) + if looking[i].table
            == t {
            1int
        } else {
            0int
        },
{
    assert(looking.take(i + 1).drop_last() =~= looking.take(i));
    assert(looking.take(i + 1).last() == looking[i]);
}

/// The whole looking list is its own full prefix.
pub proof fn lemma_count_looking_take_all(looking: Seq<TwcV>, t: Table)
    ensures
        count_looking(looking.take(looking.len() as int), t) == count_looking(looking, t),
{
    assert(looking.take(looking.len() as int) =~= looking);
}

/// Earlier lookups consume no more openings than later ones.
pub proof fn lemma_consumed_before_monotonic(ctls: Seq<CtlV>, t: Table, l1: int, l2: int, nch: int)
    requires
        0 <= l1 <= l2 <= ctls.len(),
        nch >= 0,
    ensures
        consumed_before(ctls, t, l1, nch) <= consumed_before(ctls, t, l2, nch),
    decreases l2 - l1,
{
    if l1 < l2 {
        lemma_consumed_before_monotonic(ctls, t, l1, l2 - 1, nch);
        lemma_npart_nonneg(ctls[l2 - 1], t);
        vstd::arithmetic::mul::lemma_mul_nonnegative(npart(ctls[l2 - 1], t), nch);
    }
}

/// Every slot of lookup `l` lies between what the lookups before `l` consume
/// and what those up to `l` consume: a looking slot for a participant of
/// table `t`, and the looked slot for the looked table.
pub proof fn lemma_looking_slot_bounds(ctls: Seq<CtlV>, l: int, j: int, i: int, nch: int)
    requires
        0 <= l < ctls.len(),
        0 <= j < nch,
        0 <= i < ctls[l].looking.len(),
    ensures
        consumed_before(ctls, ctls[l].looking[i].table, l, nch) <= looking_slot(ctls, l, j, i, nch),
        looking_slot(ctls, l, j, i, nch) < consumed_before(
            ctls,
            ctls[l].looking[i].table,
            l + 1,
            nch,
        ),
{
    let t = ctls[l].looking[i].table;
    let np = npart(ctls[l], t);
    lemma_npart_nonneg(ctls[l], t);
    lemma_count_looking_bound(ctls[l].looking.take(i), t);
    vstd::arithmetic::mul::lemma_mul_nonnegative(j, np);
    // the i-th participant itself is still uncounted in the prefix
    lemma_count_looking_take_succ(ctls[l].looking, t, i);
    lemma_count_looking_prefix_le(ctls[l].looking, t, i + 1);
    assert(count_looking(ctls[l].looking.take(i), t) + 1 <= count_looking(ctls[l].looking, t));
    assert(count_looking(ctls[l].looking, t) <= np);
    // j * np + (np - 1) < nch * np
    vstd::arithmetic::mul::lemma_mul_inequality(j + 1, nch, np);
    vstd::arithmetic::mul::lemma_mul_is_distributive_add_other_way(np, j, 1);
    assert(consumed_before(ctls, t, l + 1, nch) == consumed_before(ctls, t, l, nch) + np * nch);
    vstd::arithmetic::mul::lemma_mul_is_commutative(np, nch);
}

/// A prefix of the looking list counts no more participants than the whole.
pub proof fn lemma_count_looking_prefix_le(looking: Seq<TwcV>, t: Table, i: int)
    requires
        0 <= i <= looking.len(),
    ensures
        count_looking(looking.take(i), t) <= count_looking(looking, t),
    decreases looking.len() - i,
{
    if i == looking.len() {
        assert(looking.take(i) =~= looking);
    } else {
        lemma_count_looking_take_succ(looking, t, i);
        lemma_count_looking_prefix_le(looking, t, i + 1);
    }
}

/// The looked slot follows every looking slot of the same lookup and
/// challenge, and still lies below what the lookups up to `l` consume.
pub proof fn lemma_looked_slot_bounds(ctls: Seq<CtlV>, l: int, j: int, nch: int)
    requires
        0 <= l < ctls.len(),
        0 <= j < nch,
    ensures
        consumed_before(ctls, ctls[l].looked.table, l, nch) <= looked_slot(ctls, l, j, nch),
        looked_slot(ctls, l, j, nch) < consumed_before(ctls, ctls[l].looked.table, l + 1, nch),
{
    let t = ctls[l].looked.table;
    let np = npart(ctls[l], t);
    lemma_npart_nonneg(ctls[l], t);
    lemma_count_looking_bound(ctls[l].looking, t);
    vstd::arithmetic::mul::lemma_mul_nonnegative(j, np);
    assert(count_looking(ctls[l].looking, t) < np);
    vstd::arithmetic::mul::lemma_mul_inequality(j + 1, nch, np);
    vstd::arithmetic::mul::lemma_mul_is_distributive_add_other_way(np, j, 1);
    assert(consumed_before(ctls, t, l + 1, nch) == consumed_before(ctls, t, l, nch) + np * nch);
    vstd::arithmetic::mul::lemma_mul_is_commutative(np, nch);
}

pub proof fn lemma_count_looking_bound(looking: Seq<TwcV>, t: Table)
    ensures
        0 <= count_looking(looking, t) <= looking.len(),
    decreases looking.len(),
{
    if looking.len() > 0 {
        lemma_count_looking_bound(looking.drop_last(), t);
    }
}

pub proof fn lemma_npart_nonneg(ctl: CtlV, t: Table)
    ensures
        0 <= npart(ctl, t) <= ctl.looking.len() + 1,
{
    lemma_count_looking_bound(ctl.looking, t);
}

proof fn lemma_total_npart_take_succ(ctls: Seq<CtlV>, t: Table, l: int)
    requires
        0 <= l < ctls.len(),
    ensures
        total_npart(ctls.take(l + 1), t) == total_npart(ctls.take(l), t) + npart(ctls[l], t),
{
    assert(ctls.take(l + 1).drop_last() =~= ctls.take(l));
    assert(ctls.take(l + 1).last() == ctls[l]);
}

proof fn lemma_total_npart_monotonic(ctls: Seq<CtlV>, t: Table, l: int)
    requires
        0 <= l <= ctls.len(),
    ensures
        total_npart(ctls.take(l), t) <= total_npart(ctls, t),
    decreases ctls.len() - l,
{
    if l == ctls.len() {
        assert(ctls.take(l) =~= ctls);
    } else {
        lemma_total_npart_take_succ(ctls, t, l);
        lemma_npart_nonneg(ctls[l], t);
        lemma_total_npart_monotonic(ctls, t, l + 1);
    }
}

/// Consuming lookup by lookup and multiplying the total at the end agree:
/// the per-lookup counts, each times the challenge count, sum to the total
/// participation count times the challenge count.
pub proof fn lemma_total_npart_times(ctls: Seq<CtlV>, t: Table, nch: int)
    ensures
        consumed_before(ctls, t, ctls.len() as int, nch) == total_npart(ctls, t) * nch,
    decreases ctls.len(),
{
    if ctls.len() == 0 {
        assert(consumed_before(ctls, t, 0, nch) == 0);
        assert(total_npart(ctls, t) * nch == 0) by (nonlinear_arith)
            requires
                total_npart(ctls, t) == 0,
        ;
    } else {
        let prefix = ctls.drop_last();
        lemma_total_npart_times(prefix, t, nch);
        lemma_consumed_before_drop_last(ctls, t, ctls.len() as int - 1, nch);
        assert(consumed_before(ctls, t, ctls.len() as int, nch) == consumed_before(
            ctls,
            t,
            ctls.len() as int - 1,
            nch,
        ) + npart(ctls.last(), t) * nch);
        vstd::arithmetic::mul::lemma_mul_is_distributive_add_other_way(
            nch,
            total_npart(prefix, t),
            npart(ctls.last(), t),
        );
    }
}

/// A prefix of the consumption count reads only lookups below `l`.
pub proof fn lemma_consumed_before_drop_last(ctls: Seq<CtlV>, t: Table, l: int, nch: int)
    requires
        0 <= l <= ctls.len() - 1,
    ensures
        consumed_before(ctls.drop_last(), t, l, nch) == consumed_before(ctls, t, l, nch),
    decreases l,
{
    if l > 0 {
        lemma_consumed_before_drop_last(ctls, t, l - 1, nch);
    }
}

} // verus!
