//! Page arithmetic for paginated queries.
use vstd::prelude::*;

verus! {

/// A request that may name a page and a page size.
pub trait PaginatedRequest {
    /// The page that the request names, counted from one.
    fn get_page(&self) -> Option<i32>;

    /// The number of items on a page that the request names.
    fn get_page_size(&self) -> Option<i32>;
}

/// Which page of a result is wanted, how many items the result has in all and
/// how many a page holds. A `limit` of `i32::MAX` stands for "no paging".
#[derive(Clone, Copy, Debug, PartialEq, Structural)]
pub struct Pagination {
    pub page: i32,
    pub nb_items: i32,
    pub limit: i32,
}

/// Division of integers that rounds toward zero.
pub open spec fn div_toward_zero(a: int, b: int) -> int {
    if a >= 0 {
        a / b
    } else {
        -((-a) / b)
    }
}

/// A quotient is no further from zero than its dividend.
pub proof fn lemma_div_toward_zero_bound(a: int, b: int)
    requires
        b != 0,
    ensures
        a >= 0 ==> -a <= div_toward_zero(a, b) <= a,
        a < 0 ==> a <= div_toward_zero(a, b) <= -a,
        a < 0 && b != -1 ==> div_toward_zero(a, b) < -a,
{
    if a >= 0 {
        lemma_quotient_bound(a, b);
    } else {
        lemma_quotient_bound(-a, b);
    }
}

proof fn lemma_quotient_bound(a: int, b: int)
    by (nonlinear_arith)
    requires
        a >= 0,
        b != 0,
    ensures
        -a <= a / b <= a,
        a > 0 && b != -1 ==> -a < a / b,
{
}

/// For a result that is not negative and pages that hold at least one item,
/// the page count is the least number of pages that hold all items.
pub proof fn lemma_page_count_is_least(nb_items: int, limit: int)
    requires
        0 <= nb_items,
        0 < limit,
    ensures
        (div_toward_zero(nb_items + limit - 1, limit) - 1) * limit < nb_items,
        nb_items <= div_toward_zero(nb_items + limit - 1, limit) * limit,
{
    lemma_floor_quotient(nb_items + limit - 1, limit);
}

proof fn lemma_floor_quotient(a: int, b: int)
    by (nonlinear_arith)
    requires
        0 <= a,
        0 < b,
    ensures
        (a / b - 1) * b <= a - b,
        a < (a / b) * b + b,
{
}

/// The pagination that a request asks for: its page, or the first where it
/// names none; its page size, or `limit` where it names none; no items yet.
pub open spec fn requested(page: Option<i32>, page_size: Option<i32>, limit: i32) -> Pagination {
    Pagination {
        page: match page {
            Some(p) => p,
            None => 1,
        },
        nb_items: 0,
        limit: match page_size {
            Some(s) => s,
            None => limit,
        },
    }
}

impl Default for Pagination {
    /// The pagination with every field zero.
    fn default() -> (res: Self)
        ensures
            res == (Pagination { page: 0, nb_items: 0, limit: 0 }),
    {
        Self { page: 0, nb_items: 0, limit: 0 }
    }
}

impl Pagination {
    /// The first page of an unpaged result.
    pub fn new() -> (res: Self)
        ensures
            res == (Pagination { page: 1, nb_items: 0, limit: i32::MAX }),
    {
        Self { page: 1, nb_items: 0, limit: i32::MAX }
    }

    /// Whether the result is cut into pages at all.
    pub open spec fn paged(&self) -> bool {
        self.limit != i32::MAX
    }

    /// The number of items that come before page `page_index`, pages counted
    /// from one. Without paging it is zero.
    pub fn get_offset_for_page(&self, page_index: i32) -> (offset: i32)
        requires
            self.paged() ==> i32::MIN <= page_index - 1,
            self.paged() ==> i32::MIN <= (page_index - 1) * self.limit <= i32::MAX,
        ensures
            offset == if self.paged() {
                (page_index - 1) * self.limit
            } else {
                0
            },
    {
        if self.limit == i32::MAX {
            0
        } else {
            (page_index - 1) * self.limit
        }
    }

    /// The number of pages that the items fill: one without paging, else the
    /// number of items plus the limit less one, divided by the limit.
    pub fn page_count(&self) -> (count: i32)
        requires
            self.paged() ==> self.limit != 0,
            self.paged() ==> i32::MIN < self.nb_items + self.limit <= i32::MAX,
            self.paged() ==> !(self.nb_items + self.limit - 1 == i32::MIN && self.limit == -1),
        ensures
            count == if self.paged() {
                div_toward_zero(self.nb_items + self.limit - 1, self.limit as int)
            } else {
                1
            },
            self.paged() && 0 <= self.nb_items && 0 < self.limit ==> (count - 1) * self.limit
                < self.nb_items <= count * self.limit,
    {
        if self.limit == i32::MAX {
            1
        } else {
            proof {
                lemma_div_toward_zero_bound(self.nb_items + self.limit - 1, self.limit as int);
                if 0 <= self.nb_items && 0 < self.limit {
                    lemma_page_count_is_least(self.nb_items as int, self.limit as int);
                }
            }
            (self.nb_items + self.limit - 1) / self.limit
        }
    }

    /// The pagination for a page and a page size that a request may name,
    /// with `limit` as the page size where it names none.
    pub fn from_parts(page: Option<i32>, page_size: Option<i32>, limit: i32) -> (res: Self)
        ensures
            res == requested(page, page_size, limit),
    {
        Self {
            page: match page {
                Some(p) => p,
                None => 1,
            },
            nb_items: 0,
            limit: match page_size {
                Some(s) => s,
                None => limit,
            },
        }
    }

    /// The pagination that `req` asks for, with `limit` as the page size where
    /// it names none: `req` is asked once for its page and once for its page
    /// size, and the answers decide as `requested` says.
    pub fn from_request<R: PaginatedRequest + ?Sized>(req: &R, limit: i32) -> (res: Self)
        ensures
            exists|page: Option<i32>, page_size: Option<i32>|
                #![trigger requested(page, page_size, limit)]
                call_ensures(R::get_page, (req,), page) && call_ensures(
                    R::get_page_size,
                    (req,),
                    page_size,
                ) && res == requested(page, page_size, limit),
    {
        let page = req.get_page();
        let size = req.get_page_size();
        Self::from_parts(page, size, limit)
    }
}

} // verus!
