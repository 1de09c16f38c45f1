//! Symbolic affine combinations of trace-row cells.
//!
//! A [`Column`] stands for `constant + sum of coeff_i * cell(index_i)` over a
//! fixed row of a trace table. It can be evaluated over a materialized row or
//! directly over a column-major trace; the two evaluators agree on the same
//! row values.

use vstd::prelude::*;
use crate::error::CtlError;
use crate::field::{fadd, fmul, fpow, fe_seq, Fe};

verus! {

/// The mathematical content of a column: its (cell index, coefficient) pairs
/// and its constant term, all as plain integers (coefficients as residues).
#[verifier::ext_equal]
pub ghost struct ColumnV {
    pub pairs: Seq<(int, int)>,
    pub constant: int,
}

/// The field value of the affine terms `sum of row[index] * coeff` over the
/// given pairs, accumulated left to right.
pub open spec fn eval_pairs(pairs: Seq<(int, int)>, row: Seq<int>) -> int
    decreases pairs.len(),
{
    if pairs.len() == 0 {
        0
    } else {
        fadd(eval_pairs(pairs.drop_last(), row), fmul(row[pairs.last().0], pairs.last().1))
    }
}

/// The same affine terms read from a column-major trace at one row.
pub open spec fn eval_pairs_table(pairs: Seq<(int, int)>, trace: Seq<Seq<int>>, row: int) -> int
    decreases pairs.len(),
{
    if pairs.len() == 0 {
        0
    } else {
        fadd(
            eval_pairs_table(pairs.drop_last(), trace, row),
            fmul(trace[pairs.last().0][row], pairs.last().1),
        )
    }
}

/// The row at index `i` of a column-major trace.
pub open spec fn row_of(trace: Seq<Seq<int>>, i: int) -> Seq<int> {
    Seq::new(trace.len(), |c: int| trace[c][i])
}

/// The residues a column-major trace of field elements stands for.
pub open spec fn trace_ints(trace: Seq<Vec<Fe>>) -> Seq<Seq<int>> {
    trace.map_values(|col: Vec<Fe>| fe_seq(col@))
}

impl ColumnV {
    /// The value of the column on a materialized row of residues.
    pub open spec fn eval(self, row: Seq<int>) -> int {
        fadd(eval_pairs(self.pairs, row), self.constant)
    }

    /// The value of the column on row `row` of a column-major trace.
    pub open spec fn eval_table(self, trace: Seq<Seq<int>>, row: int) -> int {
        fadd(eval_pairs_table(self.pairs, trace, row), self.constant)
    }

    /// Every referenced cell index lies below `width`.
    pub open spec fn in_bounds(self, width: int) -> bool {
        forall|k: int| 0 <= k < self.pairs.len() ==> 0 <= (#[trigger] self.pairs[k]).0 < width
    }

    /// Row `row` of every referenced trace column exists.
    pub open spec fn table_in_bounds(self, trace: Seq<Seq<int>>, row: int) -> bool {
        forall|k: int|
            0 <= k < self.pairs.len() ==> 0 <= (#[trigger] self.pairs[k]).0 < trace.len()
                && 0 <= row < trace[self.pairs[k].0].len()
    }
}

/// An affine combination of the cells of one trace row.
#[derive(Debug)]
pub struct Column {
    linear_combination: Vec<(usize, Fe)>,
    constant: Fe,
}

impl View for Column {
    type V = ColumnV;

    closed spec fn view(&self) -> ColumnV {
        ColumnV {
            pairs: self.linear_combination@.map_values(|p: (usize, Fe)| (p.0 as int, p.1@)),
            constant: self.constant@,
        }
    }
}

/// No index occurs twice among the pairs.
pub open spec fn pairs_distinct(pairs: Seq<(usize, Fe)>) -> bool {
    forall|k: int, l: int|
        0 <= k < l < pairs.len() ==> (#[trigger] pairs[k]).0 != (#[trigger] pairs[l]).0
}

/// Whether no index occurs twice, decided by pairwise comparison.
fn check_pairs_distinct(pairs: &Vec<(usize, Fe)>) -> (r: bool)
    ensures
        r <==> pairs_distinct(pairs@),
{
    let n = pairs.len();
    for k in 0..n
        invariant
            n == pairs@.len(),
            forall|a: int, b: int| 0 <= a < b < pairs@.len() && a < k ==> (
            #[trigger] pairs@[a]).0 != (#[trigger] pairs@[b]).0,
    {
        for l in (k + 1)..n
            invariant
                n == pairs@.len(),
                k < n,
                forall|a: int, b: int| 0 <= a < b < pairs@.len() && a < k ==> (
                #[trigger] pairs@[a]).0 != (#[trigger] pairs@[b]).0,
                forall|b: int| k < b < l ==> (#[trigger] pairs@[b]).0 != pairs@[k as int].0,
        {
            if pairs[l].0 == pairs[k].0 {
                return false;
            }
        }
    }
    true
}

impl Column {
    /// The invariant every column keeps: referenced indices are unique.
    #[verifier::type_invariant]
    spec fn inv(self) -> bool {
        pairs_distinct(self.linear_combination@)
    }

    /// The combination `1 * cell(c)`.
    pub fn single(c: usize) -> (r: Column)
        ensures
            r@.pairs =~= seq![(c as int, 1int)],
            r@.constant == 0,
    {
        let mut lc: Vec<(usize, Fe)> = Vec::new();
        lc.push((c, Fe::one()));
        Column { linear_combination: lc, constant: Fe::zero() }
    }

    /// One single-cell column for each listed index.
    pub fn singles(cs: &Vec<usize>) -> (r: Vec<Column>)
        ensures
            r@.len() == cs@.len(),
            forall|i: int|
                0 <= i < cs@.len() ==> (#[trigger] r@[i])@.pairs =~= seq![(cs@[i] as int, 1int)]
                    && r@[i]@.constant == 0,
    {
        let mut r: Vec<Column> = Vec::new();
        let n = cs.len();
        for i in 0..n
            invariant
                n == cs@.len(),
                r@.len() == i,
                forall|j: int|
                    0 <= j < i ==> (#[trigger] r@[j])@.pairs =~= seq![(cs@[j] as int, 1int)]
                        && r@[j]@.constant == 0,
        {
            r.push(Column::single(cs[i]));
        }
        r
    }

    /// The constant column with no cell references.
    pub fn constant(constant: Fe) -> (r: Column)
        ensures
            r@.pairs =~= Seq::<(int, int)>::empty(),
            r@.constant == constant@,
    {
        Column { linear_combination: Vec::new(), constant }
    }

    /// The constant 0 column.
    pub fn zero() -> (r: Column)
        ensures
            r@.pairs =~= Seq::<(int, int)>::empty(),
            r@.constant == 0,
    {
        Column::constant(Fe::zero())
    }

    /// The constant 1 column.
    pub fn one() -> (r: Column)
        ensures
            r@.pairs =~= Seq::<(int, int)>::empty(),
            r@.constant == 1,
    {
        Column::constant(Fe::one())
    }

    /// The combination with the given pairs and constant term. Rejects an
    /// empty pair list and a repeated cell index.
    pub fn linear_combination_with_constant(pairs: Vec<(usize, Fe)>, constant: Fe) -> (r: Result<
        Column,
        CtlError,
    >)
        ensures
            r matches Ok(c) ==> c@.pairs =~= pairs@.map_values(|p: (usize, Fe)| (p.0 as int, p.1@))
                && c@.constant == constant@,
            r.is_ok() <==> pairs@.len() > 0 && pairs_distinct(pairs@),
            r matches Err(e) ==> (e == CtlError::EmptyCombination <==> pairs@.len() == 0),
            r matches Err(e) ==> (e == CtlError::DuplicateColumn <==> pairs@.len() > 0),
    {
        if pairs.len() == 0 {
            return Err(CtlError::EmptyCombination);
        }
        if !check_pairs_distinct(&pairs) {
            return Err(CtlError::DuplicateColumn);
        }
        Ok(Column { linear_combination: pairs, constant })
    }

    /// The combination with the given pairs and no constant term.
    pub fn linear_combination(pairs: Vec<(usize, Fe)>) -> (r: Result<Column, CtlError>)
        ensures
            r matches Ok(c) ==> c@.pairs =~= pairs@.map_values(|p: (usize, Fe)| (p.0 as int, p.1@))
                && c@.constant == 0,
            r.is_ok() <==> pairs@.len() > 0 && pairs_distinct(pairs@),
            r matches Err(e) ==> (e == CtlError::EmptyCombination <==> pairs@.len() == 0),
            r matches Err(e) ==> (e == CtlError::DuplicateColumn <==> pairs@.len() > 0),
    {
        Column::linear_combination_with_constant(pairs, Fe::zero())
    }

    /// Little-endian bit recomposition: the coefficient of `cs[i]` is `2^i`.
    pub fn le_bits(cs: &Vec<usize>) -> (r: Result<Column, CtlError>)
        ensures
            r matches Ok(c) ==> c@.pairs.len() == cs@.len() && c@.constant == 0 && forall|i: int|
                0 <= i < cs@.len() ==> (#[trigger] c@.pairs[i]) == (cs@[i] as int, fpow(2, i as nat)),
            r.is_ok() <==> cs@.len() > 0 && indices_distinct(cs@),
    {
        Column::scaled_sum(cs, 2)
    }

    /// Little-endian byte recomposition: the coefficient of `cs[i]` is `256^i`.
    pub fn le_bytes(cs: &Vec<usize>) -> (r: Result<Column, CtlError>)
        ensures
            r matches Ok(c) ==> c@.pairs.len() == cs@.len() && c@.constant == 0 && forall|i: int|
                0 <= i < cs@.len() ==> (#[trigger] c@.pairs[i]) == (
                    cs@[i] as int,
                    fpow(256, i as nat),
                ),
            r.is_ok() <==> cs@.len() > 0 && indices_distinct(cs@),
    {
        Column::scaled_sum(cs, 256)
    }

    /// The plain sum of the listed cells: every coefficient is 1.
    pub fn sum(cs: &Vec<usize>) -> (r: Result<Column, CtlError>)
        ensures
            r matches Ok(c) ==> c@.pairs.len() == cs@.len() && c@.constant == 0 && forall|i: int|
                0 <= i < cs@.len() ==> (#[trigger] c@.pairs[i]) == (cs@[i] as int, 1int),
            r.is_ok() <==> cs@.len() > 0 && indices_distinct(cs@),
    {
        let r = Column::scaled_sum(cs, 1);
        proof {
            if r is Ok {
                assert forall|i: int| 0 <= i < cs@.len() implies (#[trigger] (r->Ok_0)@.pairs[i])
                    == (cs@[i] as int, 1int) by {
                    crate::field::lemma_fpow_one(i as nat);
                }
            }
        }
        r
    }

    /// The combination whose coefficient of `cs[i]` is `base^i`.
    fn scaled_sum(cs: &Vec<usize>, base: u64) -> (r: Result<Column, CtlError>)
        requires
            (base as int) < crate::field::fp(),
        ensures
            r matches Ok(c) ==> c@.pairs.len() == cs@.len() && c@.constant == 0 && forall|i: int|
                0 <= i < cs@.len() ==> (#[trigger] c@.pairs[i]) == (
                    cs@[i] as int,
                    fpow(base as int, i as nat),
                ),
            r.is_ok() <==> cs@.len() > 0 && indices_distinct(cs@),
    {
        let mut pairs: Vec<(usize, Fe)> = Vec::new();
        let mut power = Fe::one();
        let n = cs.len();
        let base_fe = Fe::from_u64(base);
        proof {
            vstd::arithmetic::div_mod::lemma_small_mod(base as nat, crate::field::fp() as nat);
        }
        for i in 0..n
            invariant
                n == cs@.len(),
                base_fe@ == base as int,
                pairs@.len() == i,
                power@ == fpow(base as int, i as nat),
                forall|j: int|
                    0 <= j < i ==> (#[trigger] pairs@[j]).0 == cs@[j] && pairs@[j].1@ == fpow(
                        base as int,
                        j as nat,
                    ),
        {
            pairs.push((cs[i], power));
            power = power.mul(base_fe);
        }
        let r = Column::linear_combination(pairs);
        proof {
            if pairs_distinct(pairs@) {
                assert forall|k: int, l: int| 0 <= k < l < cs@.len() implies cs@[k] != cs@[l] by {
                    assert((pairs@[k]).0 != (pairs@[l]).0);
                }
            }
            if indices_distinct(cs@) {
                assert forall|k: int, l: int|
                    0 <= k < l < pairs@.len() implies (#[trigger] pairs@[k]).0 != (
                #[trigger] pairs@[l]).0 by {
                    assert(cs@[k] != cs@[l]);
                }
            }
            if r is Ok {
                let c = r->Ok_0;
                let mapped = pairs@.map_values(|p: (usize, Fe)| (p.0 as int, p.1@));
                assert forall|i: int| 0 <= i < cs@.len() implies (#[trigger] c@.pairs[i]) == (
                    cs@[i] as int,
                    fpow(base as int, i as nat),
                ) by {
                    assert(mapped[i] == (pairs@[i].0 as int, pairs@[i].1@));
                }
            }
        }
        r
    }

    /// The (cell index, coefficient) pairs of the combination, in order.
    pub fn terms(&self) -> (r: Vec<(usize, Fe)>)
        ensures
            r@.map_values(|p: (usize, Fe)| (p.0 as int, p.1@)) == self@.pairs,
    {
        let mut r: Vec<(usize, Fe)> = Vec::new();
        let n = self.linear_combination.len();
        for k in 0..n
            invariant
                n == self.linear_combination@.len(),
                r@ =~= self.linear_combination@.take(k as int),
        {
            r.push(self.linear_combination[k]);
        }
        proof {
            assert(r@ =~= self.linear_combination@);
        }
        r
    }

    /// The constant term of the combination.
    pub fn constant_term(&self) -> (r: Fe)
        ensures
            r@ == self@.constant,
    {
        self.constant
    }

    /// The value of the column on a materialized row of field elements.
    pub fn eval(&self, v: &Vec<Fe>) -> (r: Fe)
        requires
            self@.in_bounds(v@.len() as int),
        ensures
            r@ == self@.eval(fe_seq(v@)),
    {
        let mut acc = Fe::zero();
        let n = self.linear_combination.len();
        proof {
            assert(self@.pairs.len() == n);
        }
        for k in 0..n
            invariant
                n == self.linear_combination@.len(),
                self@.in_bounds(v@.len() as int),
                acc@ == eval_pairs(self@.pairs.take(k as int), fe_seq(v@)),
        {
            let (c, f) = self.linear_combination[k];
            proof {
                assert(self@.pairs[k as int] == (c as int, f@));
                assert(self@.pairs.take(k + 1).drop_last() =~= self@.pairs.take(k as int));
                assert(self@.pairs.take(k + 1).last() == self@.pairs[k as int]);
                assert(fe_seq(v@)[c as int] == v@[c as int]@);
            }
            acc = acc.add(v[c].mul(f));
        }
        proof {
            assert(self@.pairs.take(n as int) =~= self@.pairs);
        }
        acc.add(self.constant)
    }

    /// The value of the column on row `row` of a column-major trace.
    pub fn eval_table(&self, table: &Vec<Vec<Fe>>, row: usize) -> (r: Fe)
        requires
            self@.table_in_bounds(trace_ints(table@), row as int),
        ensures
            r@ == self@.eval_table(trace_ints(table@), row as int),
    {
        let mut acc = Fe::zero();
        let n = self.linear_combination.len();
        for k in 0..n
            invariant
                n == self.linear_combination@.len(),
                self@.table_in_bounds(trace_ints(table@), row as int),
                acc@ == eval_pairs_table(self@.pairs.take(k as int), trace_ints(table@), row as int),
        {
            let (c, f) = self.linear_combination[k];
            proof {
                assert(self@.pairs[k as int] == (c as int, f@));
                assert(self@.pairs.take(k + 1).drop_last() =~= self@.pairs.take(k as int));
                assert(self@.pairs.take(k + 1).last() == self@.pairs[k as int]);
                assert(trace_ints(table@)[c as int] == fe_seq(table@[c as int]@));
                assert(fe_seq(table@[c as int]@)[row as int] == table@[c as int]@[row as int]@);
            }
            acc = acc.add(table[c][row].mul(f));
        }
        proof {
            assert(self@.pairs.take(n as int) =~= self@.pairs);
        }
        acc.add(self.constant)
    }
}

impl Clone for Column {
    /// An identical copy: the clone has the same pairs and constant.
    fn clone(&self) -> (r: Column)
        ensures
            r@ == self@,
    {
        proof {
            use_type_invariant(self);
        }
        let mut lc: Vec<(usize, Fe)> = Vec::new();
        let n = self.linear_combination.len();
        for k in 0..n
            invariant
                n == self.linear_combination@.len(),
                lc@ =~= self.linear_combination@.take(k as int),
                pairs_distinct(self.linear_combination@),
        {
            lc.push(self.linear_combination[k]);
        }
        proof {
            assert(lc@ =~= self.linear_combination@);
        }
        let r = Column { linear_combination: lc, constant: self.constant };
        proof {
            assert(r@ =~= self@);
        }
        r
    }
}

/// No index occurs twice in the list.
pub open spec fn indices_distinct(cs: Seq<usize>) -> bool {
    forall|k: int, l: int| 0 <= k < l < cs.len() ==> cs[k] != cs[l]
}

/// The two evaluators agree: on a materialized row holding exactly the values
/// of one trace row, `eval` computes the same field element as `eval_table`
/// does directly on the trace.
pub proof fn lemma_eval_table_agrees_with_eval(c: ColumnV, trace: Seq<Seq<int>>, i: int)
    requires
        c.table_in_bounds(trace, i),
    ensures
        c.eval_table(trace, i) == c.eval(row_of(trace, i)),
{
    lemma_eval_pairs_table_agrees(c.pairs, trace, i);
}

proof fn lemma_eval_pairs_table_agrees(pairs: Seq<(int, int)>, trace: Seq<Seq<int>>, i: int)
    requires
        forall|k: int|
            0 <= k < pairs.len() ==> 0 <= (#[trigger] pairs[k]).0 < trace.len() && 0 <= i
                < trace[pairs[k].0].len(),
    ensures
        eval_pairs_table(pairs, trace, i) == eval_pairs(pairs, row_of(trace, i)),
    decreases pairs.len(),
{
    if pairs.len() > 0 {
        lemma_eval_pairs_table_agrees(pairs.drop_last(), trace, i);
        assert(row_of(trace, i)[pairs.last().0] == trace[pairs.last().0][i]);
    }
}

// -- bit and byte recomposition ---------------------------------------------

/// The little-endian value of a digit sequence: digit `k` weighs `base^k`.
pub open spec fn le_value(digits: Seq<int>, base: int) -> int
    decreases digits.len(),
{
    if digits.len() == 0 {
        0
    } else {
        le_value(digits.drop_last(), base) + digits.last() * vstd::arithmetic::power::pow(
            base,
            (digits.len() - 1) as nat,
        )
    }
}

/// A reduced power equals the plain power while the plain power stays below
/// the modulus.
pub proof fn lemma_fpow_is_pow(b: int, e: nat)
    requires
        b >= 1,
        vstd::arithmetic::power::pow(b, e) < crate::field::fp(),
    ensures
        fpow(b, e) == vstd::arithmetic::power::pow(b, e),
    decreases e,
{
    reveal(vstd::arithmetic::power::pow);
    let p = crate::field::fp();
    if e == 0 {
    } else {
        let prev = vstd::arithmetic::power::pow(b, (e - 1) as nat);
        vstd::arithmetic::power::lemma_pow_positive(b, (e - 1) as nat);
        vstd::arithmetic::mul::lemma_mul_inequality(1, b, prev);
        assert(prev <= b * prev);
        lemma_fpow_is_pow(b, (e - 1) as nat);
        vstd::arithmetic::mul::lemma_mul_is_commutative(prev, b);
        vstd::arithmetic::div_mod::lemma_small_mod((b * prev) as nat, p as nat);
    }
}

proof fn lemma_eval_pairs_le(
    pairs: Seq<(int, int)>,
    row: Seq<int>,
    digits: Seq<int>,
    base: int,
    n: int,
)
    requires
        base >= 2,
        pairs.len() == digits.len(),
        0 <= n <= digits.len(),
        vstd::arithmetic::power::pow(base, digits.len() as nat) < crate::field::fp(),
        forall|k: int| 0 <= k < digits.len() ==> 0 <= #[trigger] digits[k] < base,
        forall|k: int|
            0 <= k < digits.len() ==> (#[trigger] pairs[k]).1 == fpow(base, k as nat),
        forall|k: int|
            0 <= k < digits.len() ==> 0 <= (#[trigger] pairs[k]).0 < row.len() && row[pairs[k].0]
                == digits[k],
    ensures
        eval_pairs(pairs.take(n), row) == le_value(digits.take(n), base),
        0 <= le_value(digits.take(n), base) < vstd::arithmetic::power::pow(base, n as nat),
    decreases n,
{
    reveal(vstd::arithmetic::power::pow);
    let p = crate::field::fp();
    let pw = |e: int| vstd::arithmetic::power::pow(base, e as nat);
    if n == 0 {
        assert(pairs.take(0) =~= Seq::<(int, int)>::empty());
        assert(digits.take(0) =~= Seq::<int>::empty());
        vstd::arithmetic::power::lemma_pow_positive(base, 0);
    } else {
        lemma_eval_pairs_le(pairs, row, digits, base, n - 1);
        assert(pairs.take(n).drop_last() =~= pairs.take(n - 1));
        assert(digits.take(n).drop_last() =~= digits.take(n - 1));
        assert(pairs.take(n).last() == pairs[n - 1]);
        assert(digits.take(n).last() == digits[n - 1]);
        let prev = le_value(digits.take(n - 1), base);
        let d = digits[n - 1];
        // the power at position n-1 is still below the modulus
        vstd::arithmetic::power::lemma_pow_increases(base as nat, (n - 1) as nat,
            digits.len() as nat);
        vstd::arithmetic::power::lemma_pow_positive(base, (n - 1) as nat);
        lemma_fpow_is_pow(base, (n - 1) as nat);
        // the digit term: d * base^(n-1), reduced is plain
        vstd::arithmetic::mul::lemma_mul_inequality(d, base - 1, pw(n - 1));
        vstd::arithmetic::mul::lemma_mul_nonnegative(d, pw(n - 1));
        assert(vstd::arithmetic::power::pow(base, n as nat) == base * pw(n - 1));
        vstd::arithmetic::mul::lemma_mul_is_distributive_sub_other_way(pw(n - 1), base, 1);
        assert((base - 1) * pw(n - 1) == base * pw(n - 1) - pw(n - 1));
        vstd::arithmetic::power::lemma_pow_increases(base as nat, n as nat, digits.len() as nat);
        assert(d * pw(n - 1) < p);
        vstd::arithmetic::div_mod::lemma_small_mod((d * pw(n - 1)) as nat, p as nat);
        assert(fmul(d, pw(n - 1)) == d * pw(n - 1));
        // the running sum stays below base^n, so the reduced sum is plain
        assert(prev + d * pw(n - 1) < pw(n - 1) + (base - 1) * pw(n - 1) + 1);
        assert(prev + d * pw(n - 1) < vstd::arithmetic::power::pow(base, n as nat));
        vstd::arithmetic::div_mod::lemma_small_mod((prev + d * pw(n - 1)) as nat, p as nat);
        assert(eval_pairs(pairs.take(n), row) == fadd(prev, fmul(d, pw(n - 1))));
    }
}

/// Bit recomposition is exact: on a row whose referenced cells hold the
/// little-endian bits of a value, a `le_bits` column evaluates to that
/// value itself.
pub proof fn lemma_le_bits_recomposes(c: ColumnV, row: Seq<int>, bits: Seq<int>)
    requires
        c.constant == 0,
        c.pairs.len() == bits.len(),
        bits.len() <= 63,
        forall|k: int| 0 <= k < bits.len() ==> 0 <= #[trigger] bits[k] < 2,
        forall|k: int| 0 <= k < bits.len() ==> (#[trigger] c.pairs[k]).1 == fpow(2, k as nat),
        forall|k: int|
            0 <= k < bits.len() ==> 0 <= (#[trigger] c.pairs[k]).0 < row.len() && row[c.pairs[k].0]
                == bits[k],
    ensures
        c.eval(row) == le_value(bits, 2),
        0 <= le_value(bits, 2) < vstd::arithmetic::power::pow(2, bits.len() as nat),
{
    reveal(vstd::arithmetic::power::pow);
    vstd::arithmetic::power2::lemma2_to64();
    vstd::arithmetic::power2::lemma2_to64_rest();
    vstd::arithmetic::power2::lemma_pow2(63);
    vstd::arithmetic::power::lemma_pow_increases(2, bits.len() as nat, 63);
    lemma_eval_pairs_le(c.pairs, row, bits, 2, bits.len() as int);
    assert(c.pairs.take(bits.len() as int) =~= c.pairs);
    assert(bits.take(bits.len() as int) =~= bits);
    let v = le_value(bits, 2);
    vstd::arithmetic::div_mod::lemma_small_mod(v as nat, crate::field::fp() as nat);
}

/// Byte recomposition is exact: on a row whose referenced cells hold the
/// little-endian bytes of a value, a `le_bytes` column evaluates to that
/// value itself.
pub proof fn lemma_le_bytes_recomposes(c: ColumnV, row: Seq<int>, bytes: Seq<int>)
    requires
        c.constant == 0,
        c.pairs.len() == bytes.len(),
        bytes.len() <= 7,
        forall|k: int| 0 <= k < bytes.len() ==> 0 <= #[trigger] bytes[k] < 256,
        forall|k: int| 0 <= k < bytes.len() ==> (#[trigger] c.pairs[k]).1 == fpow(256, k as nat),
        forall|k: int|
            0 <= k < bytes.len() ==> 0 <= (#[trigger] c.pairs[k]).0 < row.len() && row[c.pairs[k].0]
                == bytes[k],
    ensures
        c.eval(row) == le_value(bytes, 256),
        0 <= le_value(bytes, 256) < vstd::arithmetic::power::pow(256, bytes.len() as nat),
{
    reveal(vstd::arithmetic::power::pow);
    vstd::arithmetic::power2::lemma2_to64();
    vstd::arithmetic::power2::lemma2_to64_rest();
    vstd::arithmetic::power2::lemma_pow2(8);
    vstd::arithmetic::power2::lemma_pow2(56);
    vstd::arithmetic::power::lemma_pow_multiplies(2, 8, 7);
    assert(vstd::arithmetic::power::pow(256, 7) == vstd::arithmetic::power::pow(2, 56));
    vstd::arithmetic::power::lemma_pow_increases(256, bytes.len() as nat, 7);
    lemma_eval_pairs_le(c.pairs, row, bytes, 256, bytes.len() as int);
    assert(c.pairs.take(bytes.len() as int) =~= c.pairs);
    assert(bytes.take(bytes.len() as int) =~= bytes);
    let v = le_value(bytes, 256);
    vstd::arithmetic::div_mod::lemma_small_mod(v as nat, crate::field::fp() as nat);
}

} // verus!
