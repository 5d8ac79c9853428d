//! Pagination arithmetic shared by every paged listing.
//!
//! Pages are 1-based; a listing of `total` records with `page_size` records
//! per page has `ceil(total / page_size)` pages.

use vstd::prelude::*;

verus! {

/// A page request: 1-based page number and records per page.
#[derive(Debug, Clone, Copy)]
pub struct PageQuery {
    pub page: u64,
    pub page_size: u64,
}

/// The page number used when a request names none.
pub fn default_page() -> (r: u64)
    ensures
        r == 1,
{
    1
}

/// The page size used when a request names none.
pub fn default_page_size() -> (r: u64)
    ensures
        r == 10,
{
    10
}

/// One page of records, with the bookkeeping a client needs to page on.
#[derive(Debug)]
pub struct PageResponse<T> {
    pub data: Vec<T>,
    pub total: u64,
    pub current_page: u64,
    pub page_size: u64,
    pub total_pages: u64,
}

/// How many pages a listing of `total` records has: `ceil(total / page_size)`.
pub open spec fn spec_total_pages(total: int, page_size: int) -> int {
    if total % page_size == 0 {
        total / page_size
    } else {
        total / page_size + 1
    }
}

/// Ceiling division of the record count by the page size.
pub fn total_pages(total: u64, page_size: u64) -> (r: u64)
    requires
        page_size >= 1,
    ensures
        r == spec_total_pages(total as int, page_size as int),
        r * page_size >= total,
        total > 0 ==> (r - 1) * page_size < total,
{
    proof {
        lemma_total_pages_bounds(total as int, page_size as int);
    }
    let r = if total % page_size == 0 {
        total / page_size
    } else {
        total / page_size + 1
    };
    r
}

/// `spec_total_pages` is the least page count that covers every record.
proof fn lemma_total_pages_bounds(total: int, page_size: int)
    requires
        total >= 0,
        page_size >= 1,
    ensures
        spec_total_pages(total, page_size) * page_size >= total,
        spec_total_pages(total, page_size) <= total,
        total > 0 ==> (spec_total_pages(total, page_size) - 1) * page_size < total,
        total > 0 ==> spec_total_pages(total, page_size) >= 1,
{
    let q = total / page_size;
    let m = total % page_size;
    assert(total == q * page_size + m && 0 <= m < page_size && q >= 0) by (nonlinear_arith)
        requires
            total >= 0,
            page_size >= 1,
            q == total / page_size,
            m == total % page_size,
    ;
    assert((q + 1) * page_size == q * page_size + page_size) by (nonlinear_arith);
    assert((q - 1) * page_size == q * page_size - page_size) by (nonlinear_arith);
    assert(q <= q * page_size) by (nonlinear_arith)
        requires
            page_size >= 1,
            q >= 0,
    ;
    if m == 0 && total > 0 {
        // q * page_size == total > 0, so q must be at least 1.
        assert(q >= 1) by (nonlinear_arith)
            requires
                q * page_size > 0,
                page_size >= 1,
        ;
    }
}

/// The index of the first record of `page` within the full listing.
pub fn page_offset(page: u64, page_size: u64) -> (r: u64)
    requires
        page >= 1,
        (page - 1) * page_size <= u64::MAX,
    ensures
        r == (page - 1) * page_size,
{
    (page - 1) * page_size
}

/// The half-open index range `[start, end)` that `page` selects out of a
/// listing of `total_len` records. An out-of-range page selects the empty
/// range at `total_len`.
pub open spec fn spec_page_bounds(total_len: int, page: int, page_size: int) -> (int, int) {
    let offset = (page - 1) * page_size;
    if offset >= total_len {
        (total_len, total_len)
    } else if offset + page_size >= total_len {
        (offset, total_len)
    } else {
        (offset, offset + page_size)
    }
}

/// Computes the index range `[start, end)` that `page` selects.
pub fn page_bounds(total_len: usize, page: u64, page_size: u64) -> (r: (usize, usize))
    requires
        page >= 1,
        (page - 1) * page_size <= u64::MAX,
    ensures
        (r.0 as int, r.1 as int) == spec_page_bounds(total_len as int, page as int, page_size as int),
        r.0 <= r.1 <= total_len,
        r.1 - r.0 <= page_size,
{
    let offset = page_offset(page, page_size);
    if offset >= total_len as u64 {
        (total_len, total_len)
    } else if page_size >= total_len as u64 - offset {
        (offset as usize, total_len)
    } else {
        (offset as usize, (offset + page_size) as usize)
    }
}

} // verus!
