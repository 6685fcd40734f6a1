//! Keyset pagination: a page is found from the position that the cursor
//! carries, never from a count of the rows before it.

use crate::ids::ItemId;
use crate::ranking::{
    comes_before, items_of, mirrored, ordered, reversed, seek, KeysetDirection, RankKey,
    ScoredItem,
};
use vstd::prelude::*;

verus! {

/// The page size when the cursor asks for none.
pub const DEFAULT_KEYSET_LIMIT: i64 = 30;

/// The largest page size that is served.
pub const MAX_KEYSET_LIMIT: i64 = 100;

/// The pagination protocol a request asks for.
#[derive(Clone, Copy, Debug, PartialEq, Eq, Structural)]
pub enum PaginationMode {
    Offset,
    Keyset,
}

impl Default for PaginationMode {
    fn default() -> (mode: PaginationMode)
        ensures
            mode == PaginationMode::Keyset,
    {
        PaginationMode::Keyset
    }
}

/// What a client sends to ask for a keyset page. Without a position this is
/// a request for the first page.
#[derive(Clone, Copy, Debug)]
pub struct KeysetCursor {
    pub mode: Option<PaginationMode>,
    pub last_id: Option<ItemId>,
    pub last_score: Option<u64>,
    pub limit: Option<i64>,
    pub direction: Option<KeysetDirection>,
}

/// The marker of a page boundary that a response hands back; replayed as a
/// `KeysetCursor` it asks for the adjacent page.
#[derive(Clone, Copy, Debug, PartialEq, Eq, Structural)]
pub struct KeysetPageCursor {
    pub mode: PaginationMode,
    pub direction: KeysetDirection,
    pub last_id: ItemId,
    pub last_score: u64,
    pub limit: i64,
}

/// One page of a keyset walk, always in forward order.
#[derive(Debug)]
pub struct KeysetPage<P> {
    pub items: Vec<P>,
    pub has_next: bool,
    pub has_prev: bool,
    pub next_cursor: Option<KeysetPageCursor>,
    pub prev_cursor: Option<KeysetPageCursor>,
}

/// The mathematical content of a `KeysetPage`.
pub struct KeysetPageView<P> {
    pub items: Seq<P>,
    pub has_next: bool,
    pub has_prev: bool,
    pub next_cursor: Option<KeysetPageCursor>,
    pub prev_cursor: Option<KeysetPageCursor>,
}

impl<P> View for KeysetPage<P> {
    type V = KeysetPageView<P>;

    open spec fn view(&self) -> KeysetPageView<P> {
        KeysetPageView {
            items: self.items@,
            has_next: self.has_next,
            has_prev: self.has_prev,
            next_cursor: self.next_cursor,
            prev_cursor: self.prev_cursor,
        }
    }
}

/// What a cursor comes to once its gaps are filled in: the page size, whether
/// it carries a position, the direction of the walk and the position itself.
#[derive(Clone, Copy, Debug, PartialEq, Eq, Structural)]
pub struct KeysetPlan {
    pub limit: i64,
    pub use_cursor: bool,
    pub direction: KeysetDirection,
    pub last: RankKey,
}

impl Default for KeysetCursor {
    fn default() -> (cursor: KeysetCursor)
        ensures
            cursor.mode is None,
            cursor.last_id is None,
            cursor.last_score is None,
            cursor.limit is None,
            cursor.direction is None,
    {
        KeysetCursor { mode: None, last_id: None, last_score: None, limit: None, direction: None }
    }
}

/// The request that replays `marker`, asking for pages of `limit` entries
/// (`None` asks for the default size).
pub open spec fn replay_spec(marker: KeysetPageCursor, limit: Option<i64>) -> KeysetCursor {
    KeysetCursor {
        mode: Some(marker.mode),
        last_id: Some(marker.last_id),
        last_score: Some(marker.last_score),
        limit,
        direction: Some(marker.direction),
    }
}

impl KeysetPageCursor {
    /// The request for the page next to the one this marker came with.
    pub fn replay(&self) -> (cursor: KeysetCursor)
        ensures
            cursor == replay_spec(*self, Some(self.limit)),
    {
        self.replay_with_limit(Some(self.limit))
    }

    /// The same request with another page size.
    pub fn replay_with_limit(&self, limit: Option<i64>) -> (cursor: KeysetCursor)
        ensures
            cursor == replay_spec(*self, limit),
    {
        KeysetCursor {
            mode: Some(self.mode),
            last_id: Some(self.last_id),
            last_score: Some(self.last_score),
            limit,
            direction: Some(self.direction),
        }
    }
}

/// The page size for a requested size: the default when none is asked for,
/// and otherwise the request brought into `1..=100`.
pub open spec fn resolved_limit(requested: Option<i64>) -> int {
    match requested {
        None => DEFAULT_KEYSET_LIMIT as int,
        Some(limit) => if limit < 1 {
            1
        } else if limit > MAX_KEYSET_LIMIT {
            MAX_KEYSET_LIMIT as int
        } else {
            limit as int
        },
    }
}

/// The plan for a cursor. A ranked (`filtered`) retrieval continues only from
/// a cursor with both identifier and score; an unranked one needs the
/// identifier alone and walks with score 0 throughout. Without a position
/// the walk is forward whatever the cursor says.
pub open spec fn plan_spec(cursor: KeysetCursor, filtered: bool) -> KeysetPlan {
    let use_cursor = cursor.last_id is Some && (cursor.last_score is Some || !filtered);
    KeysetPlan {
        limit: resolved_limit(cursor.limit) as i64,
        use_cursor,
        direction: if use_cursor {
            match cursor.direction {
                Some(direction) => direction,
                None => KeysetDirection::Next,
            }
        } else {
            KeysetDirection::Next
        },
        last: RankKey {
            score: if filtered {
                match cursor.last_score {
                    Some(score) => score,
                    None => u64::MAX,
                }
            } else {
                0
            },
            id: match cursor.last_id {
                Some(id) => id,
                None => 0,
            },
        },
    }
}

/// The test that keeps the entries strictly beyond `last` on a walk in
/// `direction`.
pub open spec fn after_cursor<P>(direction: KeysetDirection, last: RankKey) -> spec_fn(
    ScoredItem<P>,
) -> bool {
    |entry: ScoredItem<P>| comes_before(direction, last, entry.key())
}

/// The entries a walk may still show: all of them for a first page, and
/// otherwise those strictly beyond the cursor.
pub open spec fn candidates<P>(entries: Seq<ScoredItem<P>>, plan: KeysetPlan) -> Seq<
    ScoredItem<P>,
> {
    if plan.use_cursor {
        entries.filter(after_cursor(plan.direction, plan.last))
    } else {
        entries
    }
}

/// The first `count` candidates, or all of them where there are fewer.
pub open spec fn fetched<P>(entries: Seq<ScoredItem<P>>, plan: KeysetPlan, count: int) -> Seq<
    ScoredItem<P>,
> {
    let open = candidates(entries, plan);
    if 0 <= count < open.len() {
        open.take(count)
    } else {
        open
    }
}

/// The entries that stay on the page: the first `limit` of them where more
/// were fetched.
pub open spec fn kept<P>(entries: Seq<ScoredItem<P>>, limit: int) -> Seq<ScoredItem<P>> {
    if 0 <= limit < entries.len() {
        entries.take(limit)
    } else {
        entries
    }
}

/// The kept entries in forward order, whichever way they were fetched.
pub open spec fn shown<P>(
    entries: Seq<ScoredItem<P>>,
    limit: int,
    direction: KeysetDirection,
) -> Seq<ScoredItem<P>> {
    match direction {
        KeysetDirection::Next => kept(entries, limit),
        KeysetDirection::Prev => mirrored(kept(entries, limit)),
    }
}

/// The boundary marker that points at `entry`.
pub open spec fn boundary<P>(
    direction: KeysetDirection,
    entry: ScoredItem<P>,
    limit: int,
) -> KeysetPageCursor {
    KeysetPageCursor {
        mode: PaginationMode::Keyset,
        direction,
        last_id: entry.id,
        last_score: entry.score,
        limit: limit as i64,
    }
}

/// The page made of the entries `entries` that were fetched in `direction`
/// with one entry over the `limit`.
pub open spec fn response_spec<P>(
    entries: Seq<ScoredItem<P>>,
    limit: int,
    direction: KeysetDirection,
    use_cursor: bool,
) -> KeysetPageView<P> {
    let has_more = entries.len() > limit;
    let page = shown(entries, limit, direction);
    let has_next = if direction == KeysetDirection::Next {
        has_more
    } else {
        use_cursor
    };
    let has_prev = if direction == KeysetDirection::Prev {
        has_more
    } else {
        use_cursor
    };
    KeysetPageView {
        items: items_of(page),
        has_next,
        has_prev,
        next_cursor: if has_next && page.len() > 0 {
            Some(boundary(KeysetDirection::Next, page.last(), limit))
        } else {
            None
        },
        prev_cursor: if has_prev && page.len() > 0 {
            Some(boundary(KeysetDirection::Prev, page.first(), limit))
        } else {
            None
        },
    }
}

/// The page that `plan` asks for of `entries`, which are in the order of the
/// plan's direction.
pub open spec fn keyset_page<P>(entries: Seq<ScoredItem<P>>, plan: KeysetPlan) -> KeysetPageView<
    P,
> {
    response_spec(
        fetched(entries, plan, plan.limit + 1),
        plan.limit as int,
        plan.direction,
        plan.use_cursor,
    )
}

/// The page size for `cursor`.
pub fn resolve_keyset_limit(cursor: &KeysetCursor) -> (limit: i64)
    ensures
        limit == resolved_limit(cursor.limit),
        1 <= limit <= MAX_KEYSET_LIMIT,
{
    match cursor.limit {
        None => DEFAULT_KEYSET_LIMIT,
        Some(limit) => {
            if limit < 1 {
                1
            } else if limit > MAX_KEYSET_LIMIT {
                MAX_KEYSET_LIMIT
            } else {
                limit
            }
        },
    }
}

/// Fills in the gaps of `cursor`.
pub fn plan_keyset(cursor: &KeysetCursor, filtered: bool) -> (plan: KeysetPlan)
    ensures
        plan == plan_spec(*cursor, filtered),
        1 <= plan.limit <= MAX_KEYSET_LIMIT,
{
    let limit = resolve_keyset_limit(cursor);
    let use_cursor = cursor.last_id.is_some() && (cursor.last_score.is_some() || !filtered);
    let direction = if use_cursor {
        match cursor.direction {
            Some(direction) => direction,
            None => KeysetDirection::Next,
        }
    } else {
        KeysetDirection::Next
    };
    let score = if filtered {
        match cursor.last_score {
            Some(score) => score,
            None => u64::MAX,
        }
    } else {
        0
    };
    let id = match cursor.last_id {
        Some(id) => id,
        None => 0,
    };
    KeysetPlan { limit, use_cursor, direction, last: RankKey { score, id } }
}

/// Where every entry before `start` fails `keep` and every entry from
/// `start` on passes it, filtering by `keep` leaves the entries from `start`
/// on.
pub proof fn lemma_filter_keeps_tail<A>(s: Seq<A>, keep: spec_fn(A) -> bool, start: int)
    requires
        0 <= start <= s.len(),
        forall|k: int| 0 <= k < start ==> !keep(#[trigger] s[k]),
        forall|k: int| start <= k < s.len() ==> keep(#[trigger] s[k]),
    ensures
        s.filter(keep) == s.subrange(start, s.len() as int),
    decreases s.len(),
{
    reveal(Seq::filter);
    if s.len() == 0 {
        assert(s.filter(keep) =~= s.subrange(start, s.len() as int));
    } else {
        let front = s.drop_last();
        if start == s.len() {
            lemma_filter_keeps_tail(front, keep, start - 1);
            assert(front.filter(keep) =~= Seq::<A>::empty());
            assert(s.filter(keep) =~= s.subrange(start, s.len() as int));
        } else {
            lemma_filter_keeps_tail(front, keep, start);
            assert(front.subrange(start, front.len() as int).push(s.last()) =~= s.subrange(
                start,
                s.len() as int,
            ));
        }
    }
}

/// Takes from `ranked`, which is in the order of the plan's direction, the
/// first `count` entries that the plan may still show.
pub fn fetch_window<P>(ranked: Vec<ScoredItem<P>>, plan: &KeysetPlan, count: usize) -> (window:
    Vec<ScoredItem<P>>)
    requires
        ordered(ranked@, plan.direction),
    ensures
        window@ == fetched(ranked@, *plan, count as int),
{
    let mut open = ranked;
    if plan.use_cursor {
        let start = seek(&open, plan.direction, plan.last);
        proof {
            lemma_filter_keeps_tail(
                open@,
                after_cursor::<P>(plan.direction, plan.last),
                start as int,
            );
        }
        let tail = open.split_off(start);
        open = tail;
    }
    if open.len() > count {
        open.truncate(count);
        proof {
            assert(open@ =~= candidates(ranked@, *plan).take(count as int));
        }
    }
    open
}

/// The payloads of `entries`, in order.
pub fn into_items<P>(entries: Vec<ScoredItem<P>>) -> (items: Vec<P>)
    ensures
        items@ == items_of(entries@),
{
    let mut rest = reversed(entries);
    let mut items: Vec<P> = Vec::new();
    while rest.len() > 0
        invariant
            rest@.len() + items@.len() == entries@.len(),
            forall|i: int| 0 <= i < rest@.len() ==> rest@[i] == entries@[entries@.len() - 1 - i],
            forall|i: int| 0 <= i < items@.len() ==> items@[i] == entries@[i].item,
        decreases rest@.len(),
    {
        let last = rest.pop();
        match last {
            Some(entry) => {
                items.push(entry.item);
            },
            None => {},
        }
    }
    proof {
        assert(items@ =~= items_of(entries@));
    }
    items
}

/// Makes the page out of what was fetched: `entries` came in the order of
/// `direction`, one more than `limit` of them where the walk can go on.
pub fn build_keyset_response<P>(
    entries: Vec<ScoredItem<P>>,
    limit: i64,
    direction: KeysetDirection,
    use_cursor: bool,
) -> (page: KeysetPage<P>)
    ensures
        page@ == response_spec(entries@, limit as int, direction, use_cursor),
{
    let mut entries = entries;
    let has_more_in_direction = if limit < 0 {
        true
    } else {
        (limit as u64) < (entries.len() as u64)
    };
    if has_more_in_direction && limit >= 0 {
        entries.truncate(limit as usize);
    }
    let page = match direction {
        KeysetDirection::Next => entries,
        KeysetDirection::Prev => reversed(entries),
    };
    let has_next = match direction {
        KeysetDirection::Next => has_more_in_direction,
        KeysetDirection::Prev => use_cursor,
    };
    let has_prev = match direction {
        KeysetDirection::Prev => has_more_in_direction,
        KeysetDirection::Next => use_cursor,
    };
    let next_cursor = if has_next && page.len() > 0 {
        let entry = &page[page.len() - 1];
        Some(
            KeysetPageCursor {
                mode: PaginationMode::Keyset,
                direction: KeysetDirection::Next,
                last_id: entry.id,
                last_score: entry.score,
                limit,
            },
        )
    } else {
        None
    };
    let prev_cursor = if has_prev && page.len() > 0 {
        let entry = &page[0];
        Some(
            KeysetPageCursor {
                mode: PaginationMode::Keyset,
                direction: KeysetDirection::Prev,
                last_id: entry.id,
                last_score: entry.score,
                limit,
            },
        )
    } else {
        None
    };
    let items = into_items(page);
    KeysetPage { items, has_next, has_prev, next_cursor, prev_cursor }
}

} // verus!
