//! Offset pagination: pages are counted from the start of the ranked results.
//! A change before the requested page shifts every later page.

use crate::keyset::into_items;
use crate::ranking::{items_of, ScoredItem};
use vstd::arithmetic::div_mod::{lemma_fundamental_div_mod, lemma_fundamental_div_mod_converse};
use vstd::prelude::*;

verus! {

/// The size of an offset page. It is fixed, not chosen by the caller.
pub const OFFSET_LIMIT: i64 = 20;

/// What a client sends to ask for an offset page.
#[derive(Clone, Copy, Debug, PartialEq, Eq, Structural)]
pub struct Cursor {
    pub page: i64,
}

impl Default for Cursor {
    fn default() -> (cursor: Cursor)
        ensures
            cursor.page == 0,
    {
        Cursor { page: 0 }
    }
}

/// One page of an offset walk with the number of pages there are.
#[derive(Debug)]
pub struct OffsetPage<P> {
    pub items: Vec<P>,
    pub total_pages: i64,
}

/// The mathematical content of an `OffsetPage`.
pub struct OffsetPageView<P> {
    pub items: Seq<P>,
    pub total_pages: int,
}

impl<P> View for OffsetPage<P> {
    type V = OffsetPageView<P>;

    open spec fn view(&self) -> OffsetPageView<P> {
        OffsetPageView { items: self.items@, total_pages: self.total_pages as int }
    }
}

/// The number of pages that `count` results fill: `count / limit` rounded
/// up, and 0 where there are none.
pub open spec fn total_pages_spec(count: int, limit: int) -> int {
    if count == 0 {
        0
    } else {
        (count + limit - 1) / limit
    }
}

/// The page number that is served for a requested one: a negative request
/// is served as page 0.
pub open spec fn served_page(page: int) -> int {
    if page < 0 {
        0
    } else {
        page
    }
}

/// The entries of page `page`: up to `limit` of them, starting `page * limit`
/// entries into `ranked`.
pub open spec fn offset_window<P>(ranked: Seq<ScoredItem<P>>, page: int, limit: int) -> Seq<
    ScoredItem<P>,
> {
    let offset = served_page(page) * limit;
    if offset >= ranked.len() {
        Seq::empty()
    } else if offset + limit >= ranked.len() {
        ranked.subrange(offset, ranked.len() as int)
    } else {
        ranked.subrange(offset, offset + limit)
    }
}

/// The offset page `page` of `ranked`.
pub open spec fn offset_page_spec<P>(ranked: Seq<ScoredItem<P>>, page: int) -> OffsetPageView<P> {
    OffsetPageView {
        items: items_of(offset_window(ranked, page, OFFSET_LIMIT as int)),
        total_pages: total_pages_spec(ranked.len() as int, OFFSET_LIMIT as int),
    }
}

/// Rounding up a division is the quotient, plus one where a remainder is
/// left.
pub proof fn lemma_total_pages(count: int, limit: int)
    requires
        0 <= count,
        1 <= limit,
    ensures
        total_pages_spec(count, limit) == count / limit + if count % limit == 0 {
            0int
        } else {
            1int
        },
{
    let q = count / limit;
    let r = count % limit;
    lemma_fundamental_div_mod(count, limit);
    if count == 0 {
        lemma_fundamental_div_mod_converse(0, limit, 0, 0);
    } else if r == 0 {
        assert(count + limit - 1 == q * limit + (limit - 1)) by (nonlinear_arith)
            requires
                count == limit * q + r,
                r == 0,
        ;
        lemma_fundamental_div_mod_converse(count + limit - 1, limit, q, limit - 1);
    } else {
        assert(count + limit - 1 == (q + 1) * limit + (r - 1)) by (nonlinear_arith)
            requires
                count == limit * q + r,
        ;
        lemma_fundamental_div_mod_converse(count + limit - 1, limit, q + 1, r - 1);
    }
}

/// The number of pages that `full_count` results fill at `limit` a page.
pub fn count_total_pages(full_count: i64, limit: i64) -> (pages: i64)
    requires
        0 <= full_count,
        1 <= limit,
    ensures
        pages == total_pages_spec(full_count as int, limit as int),
{
    proof {
        lemma_total_pages(full_count as int, limit as int);
        lemma_fundamental_div_mod(full_count as int, limit as int);
        assert(full_count as int / limit as int <= full_count) by (nonlinear_arith)
            requires
                0 <= full_count,
                1 <= limit,
        ;
        if full_count % limit != 0 {
            assert(limit > 1 ==> (full_count as int) / (limit as int) < full_count)
                by (nonlinear_arith)
                requires
                    0 < full_count,
                    1 < limit,
            ;
        }
    }
    let whole = full_count / limit;
    if full_count % limit == 0 {
        whole
    } else {
        whole + 1
    }
}

/// How many results a store has to skip for page `cursor.page`, or `None`
/// where that number is beyond what a store can be asked for.
pub fn offset_of(cursor: &Cursor) -> (offset: Option<i64>)
    ensures
        match offset {
            Some(skip) => skip == served_page(cursor.page as int) * OFFSET_LIMIT,
            None => served_page(cursor.page as int) * OFFSET_LIMIT > i64::MAX,
        },
{
    let page: i64 = if cursor.page < 0 {
        0
    } else {
        cursor.page
    };
    page.checked_mul(OFFSET_LIMIT)
}

/// Cuts page `cursor.page` out of `ranked`.
pub fn offset_page<P>(ranked: Vec<ScoredItem<P>>, cursor: &Cursor) -> (page: OffsetPage<P>)
    ensures
        page@ == offset_page_spec(ranked@, cursor.page as int),
{
    let mut rest = ranked;
    let count = rest.len();
    let page_no: u128 = if cursor.page < 0 {
        0
    } else {
        cursor.page as u128
    };
    let offset: u128 = page_no * 20;
    let total: u64 = (count as u64) / 20 + if count % 20 == 0 {
        0
    } else {
        1
    };
    proof {
        lemma_total_pages(count as int, 20);
    }
    let window = if offset >= count as u128 {
        Vec::new()
    } else {
        let start = offset as usize;
        if count - start > 20 {
            rest.truncate(start + 20);
        }
        rest.split_off(start)
    };
    proof {
        assert(window@ =~= offset_window(ranked@, cursor.page as int, OFFSET_LIMIT as int));
    }
    OffsetPage { items: into_items(window), total_pages: total as i64 }
}

} // verus!
