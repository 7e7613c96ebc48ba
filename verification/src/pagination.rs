//! Pagination of list queries: requested page and size, and the derived
//! offset and page count.

use vstd::prelude::*;

verus! {

/// Largest page size a query may ask for.
pub const MAX_PAGE_SIZE: u64 = 100;

/// Default page size when a query names none.
pub const DEFAULT_PAGE_SIZE: u64 = 10;

/// A client's pagination request; absent fields take defaults.
#[derive(Clone, Copy, PartialEq, Eq, Debug)]
pub struct PaginationQuery {
    pub page: Option<u64>,
    pub limit: Option<u64>,
}

/// The effective page: the requested one, or the first.
pub open spec fn spec_page(q: PaginationQuery) -> u64 {
    match q.page {
        Some(p) => p,
        None => 1,
    }
}

/// The effective page size: the requested one capped at `MAX_PAGE_SIZE`,
/// or the default.
pub open spec fn spec_limit(q: PaginationQuery) -> u64 {
    let l = match q.limit {
        Some(l) => l,
        None => DEFAULT_PAGE_SIZE,
    };
    if l < MAX_PAGE_SIZE {
        l
    } else {
        MAX_PAGE_SIZE
    }
}

impl PaginationQuery {
    /// The effective page number.
    pub fn get_page(&self) -> (r: u64)
        ensures
            r == spec_page(*self),
    {
        match self.page {
            Some(p) => p,
            None => 1,
        }
    }

    /// The effective page size.
    pub fn get_limit(&self) -> (r: u64)
        ensures
            r == spec_limit(*self),
    {
        let l = match self.limit {
            Some(l) => l,
            None => DEFAULT_PAGE_SIZE,
        };
        if l < MAX_PAGE_SIZE {
            l
        } else {
            MAX_PAGE_SIZE
        }
    }

    /// How many rows the query skips: a full page for each page before the
    /// requested one.
    pub fn get_offset(&self) -> (r: u64)
        requires
            spec_page(*self) >= 1 ==> (spec_page(*self) - 1) * spec_limit(*self) <= u64::MAX,
        ensures
            r == (if spec_page(*self) >= 1 {
                (spec_page(*self) - 1) * spec_limit(*self)
            } else {
                0
            }),
    {
        let page = self.get_page();
        let limit = self.get_limit();
        if page > 0 {
            (page - 1) * limit
        } else {
            0
        }
    }
}

/// What a paginated answer says about its whole result set.
#[derive(Clone, Copy, PartialEq, Eq, Structural, Debug)]
pub struct PaginationInfo {
    pub current_page: u64,
    pub total_pages: u64,
    pub total_items: u64,
    pub items_per_page: u64,
}

impl PaginationInfo {
    /// Describe a result set: the page count is the total divided by the
    /// page size, rounded up, and at least one.
    pub fn new(current_page: u64, total_items: u64, items_per_page: u64) -> (r: PaginationInfo)
        requires
            1 <= items_per_page,
        ensures
            r.current_page == current_page,
            r.total_items == total_items,
            r.items_per_page == items_per_page,
            r.total_pages == (if total_items == 0 {
                1int
            } else {
                (total_items + items_per_page - 1) as int / items_per_page as int
            }),
    {
        let total_pages: u64 = if total_items == 0 {
            1
        } else {
            let n = (total_items as u128) + (items_per_page as u128) - 1;
            proof {
                assert(n / (items_per_page as u128) <= total_items) by (nonlinear_arith)
                    requires
                        n == total_items + items_per_page - 1,
                        1 <= items_per_page,
                        1 <= total_items,
                ;
            }
            (n / (items_per_page as u128)) as u64
        };
        PaginationInfo { current_page, total_pages, total_items, items_per_page }
    }
}

/// One page of results together with its pagination description.
pub struct PaginatedResponse<T> {
    pub data: Vec<T>,
    pub pagination: PaginationInfo,
}

impl<T> PaginatedResponse<T> {
    /// Bundle a page of rows with its description.
    pub fn new(data: Vec<T>, pagination: PaginationInfo) -> (r: PaginatedResponse<T>)
        ensures
            r.data == data,
            r.pagination == pagination,
    {
        PaginatedResponse { data, pagination }
    }
}

} // verus!
