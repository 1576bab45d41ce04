//! Query parameters of the list endpoints.
use vstd::prelude::*;

verus! {

/// Page size of a list when the query names none.
pub const DEFAULT_LIMIT: i64 = 50;

/// The page size used when a list query names none: 50.
pub fn default_limit() -> (r: i64)
    ensures
        r == DEFAULT_LIMIT,
{
    DEFAULT_LIMIT
}

/// Paging of the anchor list.
#[derive(Debug, Clone, Copy, PartialEq, Eq, Structural)]
pub struct ListAnchorsQuery {
    pub limit: i64,
    pub offset: i64,
}

/// Order of the corridor list.
#[derive(Debug, Clone, Copy, PartialEq, Eq, Structural)]
pub enum SortBy {
    SuccessRate,
    Volume,
}

/// Paging and order of the corridor list.
#[derive(Debug, Clone, Copy, PartialEq, Eq, Structural)]
pub struct ListCorridorsQuery {
    pub limit: i64,
    pub offset: i64,
    pub sort_by: SortBy,
}

impl Default for ListAnchorsQuery {
    /// The first page of the default size.
    fn default() -> (r: ListAnchorsQuery)
        ensures
            r.limit == DEFAULT_LIMIT && r.offset == 0,
    {
        ListAnchorsQuery { limit: default_limit(), offset: 0 }
    }
}

impl Default for SortBy {
    /// By success rate.
    fn default() -> (r: SortBy)
        ensures
            r == SortBy::SuccessRate,
    {
        SortBy::SuccessRate
    }
}

impl Default for ListCorridorsQuery {
    /// The first page of the default size, by success rate.
    fn default() -> (r: ListCorridorsQuery)
        ensures
            r.limit == DEFAULT_LIMIT && r.offset == 0 && r.sort_by == SortBy::SuccessRate,
    {
        ListCorridorsQuery { limit: default_limit(), offset: 0, sort_by: SortBy::SuccessRate }
    }
}

} // verus!
