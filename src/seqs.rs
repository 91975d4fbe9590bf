use rangemap::RangeInclusiveSet;
use vstd::prelude::*;

verus! {

#[verifier::external_type_specification]
#[verifier::external_body]
#[verifier::reject_recursive_types(T)]
#[verifier::reject_recursive_types(StepFnsT)]
pub struct ExRangeInclusiveSet<T, StepFnsT>(RangeInclusiveSet<T, StepFnsT>);

/// The sequence numbers that a set of inclusive ranges covers.
pub uninterp spec fn seqs_of(s: RangeInclusiveSet<i64, i64>) -> Set<int>;

/// Relies on `Extend::extend` of `RangeInclusiveSet`, fed with the ranges of
/// `other`: afterwards the set covers what either covered.
#[verifier::external_body]
pub(crate) fn seq_set_extend(s: &mut RangeInclusiveSet<i64, i64>, other: &RangeInclusiveSet<i64, i64>)
    ensures
        seqs_of(*final(s)) == seqs_of(*old(s)).union(seqs_of(*other)),
{
    s.extend(other.iter().cloned())
}

/// Relies on `PartialEq` of `RangeInclusiveSet`: it compares the coalesced
/// ranges in order, and adjacent integer ranges are always coalesced, so two
/// sets compare equal exactly when they cover the same numbers.
#[verifier::external_body]
pub(crate) fn seq_set_eq(a: &RangeInclusiveSet<i64, i64>, b: &RangeInclusiveSet<i64, i64>) -> (r: bool)
    ensures
        r == (seqs_of(*a) == seqs_of(*b)),
{
    a == b
}

/// Relies on `Clone` of `RangeInclusiveSet`: the copy covers the same numbers.
#[verifier::external_body]
pub(crate) fn seq_set_clone(s: &RangeInclusiveSet<i64, i64>) -> (r: RangeInclusiveSet<i64, i64>)
    ensures
        seqs_of(r) == seqs_of(*s),
{
    s.clone()
}

} // verus!
