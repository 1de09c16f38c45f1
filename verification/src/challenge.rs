//! Random challenges used to collapse a row of field values into a single
//! field element for the multiset-equality argument.

use vstd::prelude::*;
use crate::field::{fadd, fmul, fe_seq, Fe};

verus! {

/// The value `terms[0] + terms[1]*beta + terms[2]*beta^2 + ...`, evaluated by
/// Horner's rule from the last term down.
pub open spec fn reduce_with_powers(terms: Seq<int>, beta: int) -> int
    decreases terms.len(),
{
    if terms.len() == 0 {
        0
    } else {
        fadd(fmul(reduce_with_powers(terms.drop_first(), beta), beta), terms.first())
    }
}

/// The combined value of a row under a challenge: its terms folded with
/// powers of `beta`, plus `gamma`.
pub open spec fn combine_int(evals: Seq<int>, beta: int, gamma: int) -> int {
    fadd(reduce_with_powers(evals, beta), gamma)
}

/// One sampled challenge: the power `beta` that spreads a row's cells apart
/// and the offset `gamma` that separates distinct rows.
#[derive(Clone, Copy, Debug, PartialEq, Eq, Structural)]
pub struct PermutationChallenge {
    pub beta: Fe,
    pub gamma: Fe,
}

/// All challenges sampled for one proof, in sampling order.
pub struct PermutationChallengeSet {
    pub challenges: Vec<PermutationChallenge>,
}

impl PermutationChallenge {
    /// The combined value of `evals` under this challenge.
    pub open spec fn combine_spec(self, evals: Seq<int>) -> int {
        combine_int(evals, self.beta@, self.gamma@)
    }

    /// Collapse a row of field values into one field element.
    pub fn combine(&self, evals: &Vec<Fe>) -> (r: Fe)
        ensures
            r@ == self.combine_spec(fe_seq(evals@)),
    {
        let ghost terms = fe_seq(evals@);
        let mut acc = Fe::zero();
        let n = evals.len();
        proof {
            assert(terms.subrange(n as int, n as int) =~= Seq::<int>::empty());
        }
        for j in 0..n
            invariant
                n == evals@.len(),
                terms == fe_seq(evals@),
                acc@ == reduce_with_powers(terms.subrange(n - j, n as int), self.beta@),
        {
            let term = evals[n - 1 - j];
            acc = acc.mul(self.beta).add(term);
            proof {
                let lo = n - 1 - j;
                assert(terms.subrange(lo as int, n as int).drop_first() =~= terms.subrange(
                    lo + 1,
                    n as int,
                ));
                assert(terms.subrange(lo as int, n as int).first() == terms[lo as int]);
                assert(terms[lo as int] == evals@[lo as int]@);
            }
        }
        proof {
            assert(terms.subrange(0, n as int) =~= terms);
        }
        acc.add(self.gamma)
    }
}

} // verus!
