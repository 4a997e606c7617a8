//! The generic aggregation contract: each implementation fixes the result
//! type and says, through its spec methods, exactly which aggregates it
//! answers and with what.

use vstd::prelude::*;

verus! {

/// Aggregates over one column, with results of type `T`. An operation a
/// type does not support answers `None`; the spec methods pin each answer.
pub trait ChunkAgg<T> {
    /// When `sum` may be asked.
    spec fn sum_req(&self) -> bool;

    /// What `sum` answers.
    spec fn sum_spec(&self) -> Option<T>;

    spec fn min_req(&self) -> bool;

    spec fn min_spec(&self) -> Option<T>;

    spec fn max_req(&self) -> bool;

    spec fn max_spec(&self) -> Option<T>;

    spec fn mean_req(&self) -> bool;

    spec fn mean_spec(&self) -> Option<T>;

    fn sum(&self) -> (r: Option<T>)
        requires
            self.sum_req(),
        ensures
            r == self.sum_spec(),
    ;

    fn min(&self) -> (r: Option<T>)
        requires
            self.min_req(),
        ensures
            r == self.min_spec(),
    ;

    fn max(&self) -> (r: Option<T>)
        requires
            self.max_req(),
        ensures
            r == self.max_spec(),
    ;

    fn mean(&self) -> (r: Option<T>)
        requires
            self.mean_req(),
        ensures
            r == self.mean_spec(),
    ;
}

} // verus!
