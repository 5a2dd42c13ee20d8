//! The run-time half of the pushdown: putting a limit on a search.

use vstd::prelude::*;

verus! {

/// A search, as `==>` takes it.
#[derive(Debug, PartialEq, Eq)]
pub struct ZDBQuery {
    /// How many hits to ask for at most, best score first; all if absent.
    pub limit: Option<u64>,
    /// The search itself, carried along unread.
    pub query: String,
}

impl ZDBQuery {
    /// The same search with another limit.
    pub fn set_limit(self, limit: Option<u64>) -> (limited: ZDBQuery)
        ensures
            limited.limit == limit,
            limited.query == self.query,
    {
        ZDBQuery { limit, query: self.query }
    }
}

/// The limit that a size puts on a search: none if the size is null or
/// negative.
pub open spec fn size_limit(size: Option<i64>) -> Option<u64> {
    match size {
        Some(n) => if n >= 0 {
            Some(n as u64)
        } else {
            None
        },
        None => None,
    }
}

/// Run-time helper that the rewrite wraps around the right side of `==>`.
///
/// A null limit (`LIMIT ALL`, or a null bound parameter) leaves the query
/// unchanged, which keeps the meaning of "no limit".
pub fn score_topn_limit(limit: Option<i64>, query: ZDBQuery) -> (limited: ZDBQuery)
    ensures
        match size_limit(limit) {
            Some(n) => limited.limit == Some(n) && limited.query == query.query,
            None => limited == query,
        },
        limit is Some && limit->0 >= 0 ==> limited.limit is Some && limited.limit->0 == limit->0
            && limited.query == query.query,
        limit is None || limit->0 < 0 ==> limited == query,
{
    match limit {
        Some(limit) if limit >= 0 => query.set_limit(Some(limit as u64)),
        _ => query,
    }
}

} // verus!
