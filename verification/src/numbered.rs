//! Numbered pagination value types: page-number based requests and
//! results, carried as plain data for callers that count pages instead
//! of following cursors.

use vstd::prelude::*;
use crate::pagination::PageOrder;

verus! {

/// One page of a numbered paginated query.
#[derive(Clone, Debug, PartialEq)]
pub struct NumberedPageResult<T> {
    /// The requested data.
    pub data: Vec<T>,
    /// The current page number.
    pub page: u64,
    /// How many items the whole range holds.
    pub total: u64,
}

impl<T> Default for NumberedPageResult<T> {
    /// The default result is an empty first page of an empty range.
    fn default() -> (r: Self)
        ensures
            r.data@ == Seq::<T>::empty(),
            r.page == 0,
            r.total == 0,
    {
        let r = NumberedPageResult { data: Vec::new(), page: 0, total: 0 };
        proof {
            assert(r.data@ =~= Seq::<T>::empty());
        }
        r
    }
}

/// A request for one page of a numbered paginated query.
#[derive(Clone, Copy, Debug, PartialEq)]
pub struct NumberedPageRequest<K> {
    /// The page to get next; `None` starts from the first page.
    pub page: Option<K>,
    /// How many items to return at most; `None` uses the caller default.
    pub limit: Option<u32>,
    /// The scan direction; `None` scans ascending.
    pub order: Option<PageOrder>,
}

impl<K> Default for NumberedPageRequest<K> {
    /// The default request starts at the first page, ascending, with the
    /// caller's default limit.
    fn default() -> (r: Self)
        ensures
            r.page is None,
            r.limit is None,
            r.order is None,
    {
        NumberedPageRequest { page: None, limit: None, order: None }
    }
}

} // verus!
