use vstd::prelude::*;

verus! {

/// The failures the lookup argument distinguishes.
///
/// Configuration errors (`DuplicateColumn`, `EmptyCombination`) reject a bad
/// column definition at construction time. `NonBinaryFilter` is a trace
/// invariant violation. `ProductMismatch` and `MultisetMismatch` report
/// inconsistent traces, found respectively by the running-product sanity check
/// and by the brute-force multiset self-test. `VerificationFailed` rejects a
/// proof whose opening values do not satisfy the cross-table equality, and
/// `DesyncOpenings` reports an opening count that does not match the declared
/// lookup set.
#[derive(Clone, Copy, Debug, PartialEq, Eq, Structural)]
pub enum CtlError {
    DuplicateColumn,
    EmptyCombination,
    NonBinaryFilter,
    ProductMismatch,
    MultisetMismatch,
    VerificationFailed,
    DesyncOpenings,
}

} // verus!
