//! Sequence and multiset facts used by the lookup argument: occurrence
//! counting agrees with multiset counting, mapping a row to its combined
//! value preserves multiset equality, and the field product of a sequence
//! depends only on its multiset.

use vstd::prelude::*;
use vstd::multiset::Multiset;
use crate::field::{fmul, fprod};
use crate::field::lemma_fmul_comm;
use crate::field::lemma_fmul_assoc;

verus! {

/// How many entries of `s` equal `x`.
pub open spec fn seq_count<A>(s: Seq<A>, x: A) -> int
    decreases s.len(),
{
    if s.len() == 0 {
        0
    } else {
        seq_count(s.drop_last(), x) + if s.last() == x {
            1int
        } else {
            0int
        }
    }
}

/// Occurrence counting is multiset counting.
pub proof fn lemma_seq_count_is_multiset_count<A>(s: Seq<A>, x: A)
    ensures
        seq_count(s, x) == s.to_multiset().count(x),
    decreases s.len(),
{
    broadcast use vstd::seq_lib::group_to_multiset_ensures;

    if s.len() == 0 {
        assert(s.to_multiset() =~= Multiset::<A>::empty());
    } else {
        lemma_seq_count_is_multiset_count(s.drop_last(), x);
        assert(s.drop_last().push(s.last()) =~= s);
        assert(s.drop_last().push(s.last()).to_multiset()
            =~= s.drop_last().to_multiset().insert(s.last()));
    }
}

/// Counting over a one-longer prefix adds one exactly when the new entry is
/// the counted element.
pub proof fn lemma_seq_count_take_succ<A>(s: Seq<A>, x: A, i: int)
    requires
        0 <= i < s.len(),
    ensures
        seq_count(s.take(i + 1), x) == seq_count(s.take(i), x) + if s[i] == x {
            1int
        } else {
            0int
        },
{
    assert(s.take(i + 1).drop_last() =~= s.take(i));
    assert(s.take(i + 1).last() == s[i]);
}

/// The count of an element never exceeds the length.
pub proof fn lemma_seq_count_le_len<A>(s: Seq<A>, x: A)
    ensures
        0 <= seq_count(s, x) <= s.len(),
    decreases s.len(),
{
    if s.len() > 0 {
        lemma_seq_count_le_len(s.drop_last(), x);
    }
}

/// Two sequences have equal multisets exactly when every element of either
/// occurs equally often in both.
pub proof fn lemma_counts_agree_iff_multisets_equal<A>(s1: Seq<A>, s2: Seq<A>)
    requires
        forall|i: int| 0 <= i < s1.len() ==> seq_count(s1, #[trigger] s1[i]) == seq_count(
            s2,
            s1[i],
        ),
        forall|i: int| 0 <= i < s2.len() ==> seq_count(s1, #[trigger] s2[i]) == seq_count(
            s2,
            s2[i],
        ),
    ensures
        s1.to_multiset() == s2.to_multiset(),
{
    broadcast use vstd::seq_lib::group_to_multiset_ensures;

    assert forall|x: A| s1.to_multiset().count(x) == s2.to_multiset().count(x) by {
        lemma_seq_count_is_multiset_count(s1, x);
        lemma_seq_count_is_multiset_count(s2, x);
        if s1.to_multiset().count(x) > 0 {
            assert(s1.contains(x));
            let i = choose|i: int| 0 <= i < s1.len() && s1[i] == x;
            assert(seq_count(s1, s1[i]) == seq_count(s2, s1[i]));
        } else if s2.to_multiset().count(x) > 0 {
            assert(s2.contains(x));
            let i = choose|i: int| 0 <= i < s2.len() && s2[i] == x;
            assert(seq_count(s1, s2[i]) == seq_count(s2, s2[i]));
        }
    }
    assert(s1.to_multiset() =~= s2.to_multiset());
}

/// Applying one function to every entry keeps multiset equality.
pub proof fn lemma_map_values_preserves_multiset_equality<A, B>(
    s1: Seq<A>,
    s2: Seq<A>,
    f: spec_fn(A) -> B,
)
    requires
        s1.to_multiset() == s2.to_multiset(),
    ensures
        s1.map_values(f).to_multiset() == s2.map_values(f).to_multiset(),
    decreases s1.len(),
{
    broadcast use vstd::seq_lib::group_to_multiset_ensures;

    if s1.len() == 0 {
        assert(s1.to_multiset().len() == 0);
        assert(s2.len() == 0);
        assert(s1.map_values(f) =~= s2.map_values(f));
    } else {
        let v = s1.last();
        assert(s1.contains(v));
        assert(s1.to_multiset().count(v) > 0);
        assert(s2.to_multiset().count(v) > 0);
        assert(s2.contains(v));
        let j = choose|j: int| 0 <= j < s2.len() && s2[j] == v;
        let s1d = s1.drop_last();
        let s2d = s2.remove(j);
        assert(s1.remove(s1.len() - 1) =~= s1d);
        assert(s1d.to_multiset() == s1.to_multiset().remove(v));
        assert(s2d.to_multiset() == s2.to_multiset().remove(v));
        lemma_map_values_preserves_multiset_equality(s1d, s2d, f);
        assert(s1d.map_values(f).push(f(v)) =~= s1.map_values(f));
        assert(s1.map_values(f).to_multiset() =~= s1d.map_values(f).to_multiset().insert(f(v)));
        assert(s2d.map_values(f) =~= s2.map_values(f).remove(j));
        assert(s2.map_values(f).remove(j).to_multiset()
            =~= s2.map_values(f).to_multiset().remove(f(v)));
        assert(s2.map_values(f)[j] == f(v));
        assert(s2.map_values(f).contains(f(v)));
        assert(s2.map_values(f).to_multiset().count(f(v)) > 0);
        assert(s2.map_values(f).to_multiset()
            =~= s2.map_values(f).to_multiset().remove(f(v)).insert(f(v)));
        assert(s1.map_values(f).to_multiset() =~= s2.map_values(f).to_multiset());
    }
}

/// Removing one entry divides the product by it: the product of `s` is the
/// product of `s` without position `j`, times `s[j]`.
pub proof fn lemma_fprod_remove(s: Seq<int>, j: int)
    requires
        0 <= j < s.len(),
    ensures
        fprod(s) == fmul(fprod(s.remove(j)), s[j]),
    decreases s.len(),
{
    if j == s.len() - 1 {
        assert(s.remove(j) =~= s.drop_last());
    } else {
        let sd = s.drop_last();
        lemma_fprod_remove(sd, j);
        assert(s.remove(j).drop_last() =~= sd.remove(j));
        assert(s.remove(j).last() == s.last());
        assert(fprod(s) == fmul(fmul(fprod(sd.remove(j)), sd[j]), s.last()));
        lemma_fmul_assoc(fprod(sd.remove(j)), sd[j], s.last());
        lemma_fmul_comm(sd[j], s.last());
        lemma_fmul_assoc(fprod(sd.remove(j)), s.last(), sd[j]);
        assert(fprod(s) == fmul(fmul(fprod(sd.remove(j)), s.last()), s[j]));
        assert(fprod(s.remove(j)) == fmul(fprod(sd.remove(j)), s.last()));
    }
}

/// The field product of a sequence depends only on its multiset: any
/// reordering gives the same product.
pub proof fn lemma_fprod_multiset(s1: Seq<int>, s2: Seq<int>)
    requires
        s1.to_multiset() == s2.to_multiset(),
    ensures
        fprod(s1) == fprod(s2),
    decreases s1.len(),
{
    broadcast use vstd::seq_lib::group_to_multiset_ensures;

    if s1.len() == 0 {
        assert(s1.to_multiset().len() == 0);
        assert(s2.len() == 0);
    } else {
        let v = s1.last();
        assert(s1.contains(v));
        assert(s1.to_multiset().count(v) > 0);
        assert(s2.to_multiset().count(v) > 0);
        assert(s2.contains(v));
        let j = choose|j: int| 0 <= j < s2.len() && s2[j] == v;
        let s1d = s1.drop_last();
        let s2d = s2.remove(j);
        assert(s1.remove(s1.len() - 1) =~= s1d);
        assert(s1d.to_multiset() == s1.to_multiset().remove(v));
        assert(s2d.to_multiset() == s2.to_multiset().remove(v));
        lemma_fprod_multiset(s1d, s2d);
        lemma_fprod_remove(s2, j);
    }
}

/// The product of a concatenation is the field product of the two products.
pub proof fn lemma_fprod_concat(s1: Seq<int>, s2: Seq<int>)
    ensures
        fprod(s1 + s2) == fmul(fprod(s1), fprod(s2)),
    decreases s2.len(),
{
    if s2.len() == 0 {
        assert(s1 + s2 =~= s1);
        lemma_fmul_comm(fprod(s1), 1);
        vstd::arithmetic::div_mod::lemma_mul_mod_noop_left(fprod(s1), 1, crate::field::fp());
        assert(fmul(fprod(s1), 1) == fprod(s1) % crate::field::fp());
        lemma_fprod_mod(s1);
    } else {
        lemma_fprod_concat(s1, s2.drop_last());
        assert((s1 + s2).drop_last() =~= s1 + s2.drop_last());
        assert((s1 + s2).last() == s2.last());
        lemma_fmul_assoc(fprod(s1), fprod(s2.drop_last()), s2.last());
    }
}

/// A nonempty product is already reduced; the empty product is 1.
pub proof fn lemma_fprod_mod(s: Seq<int>)
    ensures
        fprod(s) % crate::field::fp() == fprod(s),
    decreases s.len(),
{
    if s.len() == 0 {
        assert(crate::field::fp() == 0xFFFF_FFFF_0000_0001);
        vstd::arithmetic::div_mod::lemma_small_mod(1nat, crate::field::fp() as nat);
    } else {
        vstd::arithmetic::div_mod::lemma_mod_bound(
            fprod(s.drop_last()) * s.last(),
            crate::field::fp(),
        );
        vstd::arithmetic::div_mod::lemma_mod_twice(
            fprod(s.drop_last()) * s.last(),
            crate::field::fp(),
        );
    }
}

} // verus!
