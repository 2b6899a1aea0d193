//! Paging of list queries: every list is cut the same way.
use vstd::prelude::*;

verus! {

/// The page that is served when the caller names none.
pub const DEFAULT_PAGE: i64 = 1;

/// The page size that is used when the caller names none.
pub const DEFAULT_PAGE_SIZE: i64 = 20;

/// The largest page size that is served.
pub const MAX_PAGE_SIZE: i64 = 200;

/// The page number that a request stands for: at least 1, 1 when none is given.
pub open spec fn normal_page(page: Option<i64>) -> int {
    match page {
        Some(p) => if p < 1 { 1 } else { p as int },
        None => 1,
    }
}

/// The page size that a request stands for: within 1 and 200, 20 when none is given.
pub open spec fn normal_page_size(page_size: Option<i64>) -> int {
    match page_size {
        Some(s) => if s < 1 { 1 } else if s > 200 { 200 } else { s as int },
        None => 20,
    }
}

/// The number of rows that come before the first row of the page.
pub open spec fn page_offset(page: int, page_size: int) -> int {
    (page - 1) * page_size
}

/// A page request brought into range.
#[derive(Clone, Copy, Debug, PartialEq, Eq)]
pub struct PageWindow {
    pub page: i64,
    pub page_size: i64,
    pub offset: i128,
}

impl PageWindow {
    /// A window is in range when its page is at least 1, its size lies
    /// within 1 and 200, and its offset is the rows of the pages before it.
    pub open spec fn in_range(&self) -> bool {
        &&& self.page >= 1
        &&& 1 <= self.page_size <= 200
        &&& self.offset == page_offset(self.page as int, self.page_size as int)
    }
}

/// Brings a page request into range. No request is rejected: a missing or
/// too small page becomes 1, a missing size 20, and a size outside 1..=200
/// the nearer bound.
pub fn normalize(page: Option<i64>, page_size: Option<i64>) -> (w: PageWindow)
    ensures
        w.page == normal_page(page),
        w.page_size == normal_page_size(page_size),
        w.offset == page_offset(w.page as int, w.page_size as int),
        w.in_range(),
{
    let p: i64 = match page {
        Some(p) => if p < 1 { 1 } else { p },
        None => DEFAULT_PAGE,
    };
    let s: i64 = match page_size {
        Some(s) => if s < 1 { 1 } else if s > MAX_PAGE_SIZE { MAX_PAGE_SIZE } else { s },
        None => DEFAULT_PAGE_SIZE,
    };
    let before: i128 = (p - 1) as i128;
    assert(0 <= before * (s as i128) <= 0x7fff_ffff_ffff_ffff * 200) by (nonlinear_arith)
        requires
            0 <= before <= 0x7fff_ffff_ffff_ffff,
            1 <= s <= 200,
    ;
    PageWindow { page: p, page_size: s, offset: before * (s as i128) }
}

} // verus!
