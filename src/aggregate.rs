use vstd::prelude::*;
use crate::errors::Error;

verus! {

/// Combines the shares of one protocol round, one per party, into the round's output.
pub trait Aggregate: Sized {
    /// What the round produces.
    type Output;

    /// The shares belong to one parameter set.
    spec fn shares_agree(shares: Seq<Self>) -> bool;

    /// What the aggregation returns for the given shares.
    spec fn aggregate_spec(shares: Seq<Self>, r: Result<Self::Output, Error>) -> bool;

    /// Aggregates the shares; fails on an empty list and on shares of
    /// different parameter sets.
    fn aggregate(shares: Vec<Self>) -> (r: Result<Self::Output, Error>)
        ensures
            shares@.len() == 0 ==> r == Err::<Self::Output, Error>(Error::TooFewValues(0, 1)),
            shares@.len() > 0 && !Self::shares_agree(shares@) ==> r == Err::<Self::Output, Error>(
                Error::ParametersMismatch,
            ),
            Self::aggregate_spec(shares@, r),
    ;
}

} // verus!
