//! The Goldilocks base field, the ambient field of every trace value,
//! challenge and running product in the lookup argument.

use vstd::prelude::*;
use vstd::arithmetic::div_mod::{
    lemma_mod_bound, lemma_mod_multiples_vanish, lemma_mul_mod_noop_left, lemma_mul_mod_noop_right,
};
use vstd::arithmetic::mul::{lemma_mul_is_associative, lemma_mul_is_commutative,
    lemma_mul_upper_bound};

verus! {

/// The Goldilocks prime 2^64 - 2^32 + 1.
pub const GOLDILOCKS_P: u64 = 0xFFFF_FFFF_0000_0001;

/// The modulus as a mathematical integer.
pub open spec fn fp() -> int {
    GOLDILOCKS_P as int
}

/// Field addition on residues.
pub open spec fn fadd(a: int, b: int) -> int {
    (a + b) % fp()
}

/// Field subtraction on residues.
pub open spec fn fsub(a: int, b: int) -> int {
    (a - b) % fp()
}

/// Field multiplication on residues.
pub open spec fn fmul(a: int, b: int) -> int {
    (a * b) % fp()
}

/// `b` raised to the power `e` in the field.
pub open spec fn fpow(b: int, e: nat) -> int
    decreases e,
{
    if e == 0 {
        1
    } else {
        fmul(fpow(b, (e - 1) as nat), b)
    }
}

/// The field product of a sequence of residues, multiplied left to right.
pub open spec fn fprod(s: Seq<int>) -> int
    decreases s.len(),
{
    if s.len() == 0 {
        1
    } else {
        fmul(fprod(s.drop_last()), s.last())
    }
}

/// A field element in canonical form: its value lies below the modulus.
#[derive(Clone, Copy, Debug, PartialEq, Eq, Structural)]
pub struct Fe {
    v: u64,
}

impl View for Fe {
    type V = int;

    closed spec fn view(&self) -> int {
        self.v as int
    }
}

impl Fe {
    #[verifier::type_invariant]
    spec fn inv(self) -> bool {
        self.v < GOLDILOCKS_P
    }

    /// The canonical residue of `x`.
    pub fn from_u64(x: u64) -> (r: Fe)
        ensures
            r@ == x as int % fp(),
    {
        Fe { v: x % GOLDILOCKS_P }
    }

    /// The canonical value as a machine integer.
    pub fn to_u64(self) -> (r: u64)
        ensures
            r as int == self@,
    {
        self.v
    }

    /// The additive identity.
    pub fn zero() -> (r: Fe)
        ensures
            r@ == 0,
    {
        Fe { v: 0 }
    }

    /// The multiplicative identity.
    pub fn one() -> (r: Fe)
        ensures
            r@ == 1,
    {
        Fe { v: 1 }
    }

    /// Whether this is the additive identity.
    pub fn is_zero(self) -> (r: bool)
        ensures
            r <==> self@ == 0,
    {
        self.v == 0
    }

    /// Whether this is the multiplicative identity.
    pub fn is_one(self) -> (r: bool)
        ensures
            r <==> self@ == 1,
    {
        self.v == 1
    }

    /// Whether the two elements are the same residue.
    pub fn eq_fe(self, other: Fe) -> (r: bool)
        ensures
            r <==> self@ == other@,
    {
        self.v == other.v
    }

    pub fn add(self, other: Fe) -> (r: Fe)
        ensures
            r@ == fadd(self@, other@),
    {
        proof {
            use_type_invariant(self);
            use_type_invariant(other);
        }
        let s: u128 = self.v as u128 + other.v as u128;
        let m: u128 = s % (GOLDILOCKS_P as u128);
        proof {
            lemma_mod_bound(s as int, fp());
        }
        Fe { v: m as u64 }
    }

    pub fn sub(self, other: Fe) -> (r: Fe)
        ensures
            r@ == fsub(self@, other@),
    {
        proof {
            use_type_invariant(self);
            use_type_invariant(other);
        }
        let s: u128 = self.v as u128 + GOLDILOCKS_P as u128 - other.v as u128;
        let m: u128 = s % (GOLDILOCKS_P as u128);
        proof {
            lemma_mod_bound(s as int, fp());
            lemma_mod_multiples_vanish(1, self@ - other@, fp());
        }
        Fe { v: m as u64 }
    }

    pub fn mul(self, other: Fe) -> (r: Fe)
        ensures
            r@ == fmul(self@, other@),
    {
        proof {
            use_type_invariant(self);
            use_type_invariant(other);
            lemma_mul_upper_bound(self.v as int, fp() - 1, other.v as int, fp() - 1);
            assert((GOLDILOCKS_P - 1) * (GOLDILOCKS_P - 1) <= u128::MAX) by (nonlinear_arith);
        }
        let s: u128 = self.v as u128 * other.v as u128;
        let m: u128 = s % (GOLDILOCKS_P as u128);
        proof {
            lemma_mod_bound(s as int, fp());
        }
        Fe { v: m as u64 }
    }
}

/// The sequence of residues that a sequence of field elements stands for.
pub open spec fn fe_seq(s: Seq<Fe>) -> Seq<int> {
    s.map_values(|f: Fe| f@)
}

/// Raising 1 to any power gives 1.
pub proof fn lemma_fpow_one(e: nat)
    ensures
        fpow(1, e) == 1,
    decreases e,
{
    if e > 0 {
        lemma_fpow_one((e - 1) as nat);
        vstd::arithmetic::div_mod::lemma_small_mod(1nat, fp() as nat);
    }
}

pub proof fn lemma_fmul_comm(a: int, b: int)
    ensures
        fmul(a, b) == fmul(b, a),
{
    lemma_mul_is_commutative(a, b);
}

pub proof fn lemma_fmul_assoc(a: int, b: int, c: int)
    ensures
        fmul(fmul(a, b), c) == fmul(a, fmul(b, c)),
{
    lemma_mul_mod_noop_left(a * b, c, fp());
    lemma_mul_mod_noop_right(a, b * c, fp());
    lemma_mul_is_associative(a, b, c);
}

} // verus!
