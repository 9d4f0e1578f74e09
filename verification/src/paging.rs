//! Step three of the pipeline: pagination arithmetic, and the page moves the
//! pagination controls make.
//!
//! Every input is normalized rather than rejected: a page size below one acts
//! as one, there is always at least one page, and a stale page index is
//! clamped into range.

use vstd::prelude::*;

use crate::types::PageDirection;

verus! {

/// A supplied page size below one acts as one.
pub open spec fn effective_page_size(p: int) -> int {
    if p < 1 {
        1
    } else {
        p
    }
}

/// How many pages `n` rows fill at `p` rows per page: the ceiling of `n / p`,
/// and at least one even when `n` is zero.
pub open spec fn spec_total_pages(n: int, p: int) -> int
    recommends
        n >= 0,
        p >= 1,
{
    if n <= 0 {
        1
    } else {
        (n - 1) / p + 1
    }
}

/// The raw page index clamped into `[0, total - 1]`.
pub open spec fn spec_clamp_page(page: int, total: int) -> int
    recommends
        page >= 0,
        total >= 1,
{
    if page < total {
        page
    } else {
        total - 1
    }
}

/// The page reached by one pagination step: `Previous` stops at the first
/// page, `Next` stops at the last.
pub open spec fn advanced_page(current: int, total: int, direction: PageDirection) -> int {
    match direction {
        PageDirection::Previous => if current >= 1 {
            current - 1
        } else {
            0
        },
        PageDirection::Next => if current + 1 < total {
            current + 1
        } else {
            total - 1
        },
    }
}

/// There is always at least one page, whatever the dataset or filter left.
pub proof fn lemma_total_pages_at_least_one(n: int, p: int)
    requires
        n >= 0,
        p >= 1,
    ensures
        spec_total_pages(n, p) >= 1,
{
    if n > 0 {
        vstd::arithmetic::div_mod::lemma_div_pos_is_pos(n - 1, p);
    }
}

/// The clamped page is always a valid page, and clamping a page that is
/// already valid changes nothing.
pub proof fn lemma_clamp_page_valid(page: int, total: int)
    requires
        page >= 0,
        total >= 1,
    ensures
        0 <= spec_clamp_page(page, total) < total,
        spec_clamp_page(spec_clamp_page(page, total), total) == spec_clamp_page(page, total),
{
}

/// A step back at the first page and a step forward at the last page are
/// no-ops.
pub proof fn lemma_advance_page_boundaries(total: int)
    requires
        total >= 1,
    ensures
        advanced_page(0, total, PageDirection::Previous) == 0,
        advanced_page(total - 1, total, PageDirection::Next) == total - 1,
{
}

/// Number of pages the current row count fills at the given page size.
pub fn total_pages(filtered_len: usize, page_size: usize) -> (r: usize)
    ensures
        r == spec_total_pages(filtered_len as int, effective_page_size(page_size as int)),
        r >= 1,
{
    let p = if page_size < 1 {
        1
    } else {
        page_size
    };
    if filtered_len == 0 {
        1
    } else {
        proof {
            vstd::arithmetic::div_mod::lemma_div_pos_is_pos(filtered_len as int - 1, p as int);
            vstd::arithmetic::div_mod::lemma_div_nonincreasing(filtered_len as int - 1, p as int);
        }
        (filtered_len - 1) / p + 1
    }
}

/// The raw page index clamped into the valid range.
pub fn clamp_page(page: usize, total: usize) -> (r: usize)
    requires
        total >= 1,
    ensures
        r == spec_clamp_page(page as int, total as int),
        r < total,
{
    if page < total {
        page
    } else {
        total - 1
    }
}

/// The page a prev or next click moves to. Neither wraps: `Previous` at the
/// first page and `Next` at the last page return the page unchanged.
pub fn advance_page(current_page: usize, total_pages: usize, direction: PageDirection) -> (r: usize)
    requires
        total_pages >= 1,
    ensures
        r == advanced_page(current_page as int, total_pages as int, direction),
{
    match direction {
        PageDirection::Previous => {
            if current_page > 0 {
                current_page - 1
            } else {
                0
            }
        },
        PageDirection::Next => {
            if current_page < total_pages - 1 {
                current_page + 1
            } else {
                total_pages - 1
            }
        },
    }
}

} // verus!
