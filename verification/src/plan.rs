//! The part of a query that one index answers.

use vstd::prelude::*;

verus! {

/// A query on one index.
pub struct IndexQuery<'a, K> {
    range: &'a [K],
}

impl<'a, K> IndexQuery<'a, K> {
    /// The columns of the index whose values the query restricts.
    pub closed spec fn spec_range(self) -> Seq<K> {
        self.range@
    }

    /// Query an index by the values of the columns `range`.
    pub fn new(range: &'a [K]) -> (query: Self)
        ensures
            query.spec_range() == range@,
    {
        IndexQuery { range }
    }

    /// The columns of the index whose values this query restricts.
    pub fn range(&self) -> (range: &'a [K])
        ensures
            range@ == self.spec_range(),
    {
        self.range
    }
}

} // verus!
