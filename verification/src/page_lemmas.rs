//! What holds of every keyset page: where it lies in the forward ranking,
//! and where the pages that its two cursors ask for lie.

use crate::keyset::{
    after_cursor, boundary, candidates, fetched, kept, keyset_page, lemma_filter_keeps_tail,
    response_spec, shown, KeysetPageCursor, KeysetPageView, KeysetPlan,
};
use crate::ranking::{
    comes_before, items_of, lemma_mirrored_is_ordered, lemma_split_point,
    lemma_split_point_is_unique, mirrored, ordered, splits_at, KeysetDirection, RankKey,
    ScoredItem,
};
use vstd::prelude::*;

verus! {

/// `forward` in the order of a walk in `direction`.
pub open spec fn in_direction<P>(forward: Seq<ScoredItem<P>>, direction: KeysetDirection) -> Seq<
    ScoredItem<P>,
> {
    match direction {
        KeysetDirection::Next => forward,
        KeysetDirection::Prev => mirrored(forward),
    }
}

/// How many entries of the ranking `plan` may still show.
pub open spec fn open_count<P>(forward: Seq<ScoredItem<P>>, plan: KeysetPlan) -> int {
    candidates(in_direction(forward, plan.direction), plan).len() as int
}

/// How many entries the page of `plan` shows.
pub open spec fn shown_count<P>(forward: Seq<ScoredItem<P>>, plan: KeysetPlan) -> int {
    if open_count(forward, plan) > plan.limit {
        plan.limit as int
    } else {
        open_count(forward, plan)
    }
}

/// The place in the forward ranking where the page of `plan` begins.
pub open spec fn page_start<P>(forward: Seq<ScoredItem<P>>, plan: KeysetPlan) -> int {
    match plan.direction {
        KeysetDirection::Next => forward.len() - open_count(forward, plan),
        KeysetDirection::Prev => open_count(forward, plan) - shown_count(forward, plan),
    }
}

/// The place in the forward ranking where the page of `plan` ends.
pub open spec fn page_end<P>(forward: Seq<ScoredItem<P>>, plan: KeysetPlan) -> int {
    match plan.direction {
        KeysetDirection::Next => forward.len() - open_count(forward, plan) + shown_count(
            forward,
            plan,
        ),
        KeysetDirection::Prev => open_count(forward, plan),
    }
}

/// The plan of a request that replays `cursor` with page size `limit`.
pub open spec fn replayed(cursor: KeysetPageCursor, limit: i64) -> KeysetPlan {
    KeysetPlan {
        limit,
        use_cursor: true,
        direction: cursor.direction,
        last: RankKey { score: cursor.last_score, id: cursor.last_id },
    }
}

/// What `plan` may still show of a sequence in the order of its direction is
/// a tail of that sequence, and where a cursor is used, the tail is made of
/// just the entries strictly beyond it.
pub proof fn lemma_candidates_are_tail<P>(entries: Seq<ScoredItem<P>>, plan: KeysetPlan)
    requires
        ordered(entries, plan.direction),
    ensures
        candidates(entries, plan).len() <= entries.len(),
        candidates(entries, plan) == entries.subrange(
            entries.len() - candidates(entries, plan).len(),
            entries.len() as int,
        ),
        !plan.use_cursor ==> candidates(entries, plan).len() == entries.len(),
        plan.use_cursor ==> splits_at(
            entries,
            plan.direction,
            plan.last,
            entries.len() - candidates(entries, plan).len(),
        ),
{
    if plan.use_cursor {
        let start = lemma_split_point(entries, plan.direction, plan.last);
        lemma_filter_keeps_tail(entries, after_cursor::<P>(plan.direction, plan.last), start);
    } else {
        assert(entries =~= entries.subrange(0, entries.len() as int));
    }
}

/// The page of `plan` told by places in the forward ranking: the entries
/// from `page_start` up to `page_end`; flags that say whether the walk can
/// go on; and cursors that point at the last and at the first of the
/// entries.
pub open spec fn page_by_places<P>(forward: Seq<ScoredItem<P>>, plan: KeysetPlan) -> KeysetPageView<
    P,
> {
    let lo = page_start(forward, plan);
    let hi = page_end(forward, plan);
    let more = open_count(forward, plan) > plan.limit;
    let has_next = if plan.direction == KeysetDirection::Next {
        more
    } else {
        plan.use_cursor
    };
    let has_prev = if plan.direction == KeysetDirection::Prev {
        more
    } else {
        plan.use_cursor
    };
    KeysetPageView {
        items: items_of(forward.subrange(lo, hi)),
        has_next,
        has_prev,
        next_cursor: if has_next && lo < hi {
            Some(boundary(KeysetDirection::Next, forward[hi - 1], plan.limit as int))
        } else {
            None
        },
        prev_cursor: if has_prev && lo < hi {
            Some(boundary(KeysetDirection::Prev, forward[lo], plan.limit as int))
        } else {
            None
        },
    }
}

/// Every keyset page is a run of consecutive entries of the forward ranking,
/// at most `limit` long, whichever way the walk goes.
pub proof fn lemma_page_is_range<P>(forward: Seq<ScoredItem<P>>, plan: KeysetPlan)
    requires
        ordered(forward, KeysetDirection::Next),
        1 <= plan.limit,
    ensures
        0 <= page_start(forward, plan) <= page_end(forward, plan) <= forward.len(),
        page_end(forward, plan) - page_start(forward, plan) == shown_count(forward, plan),
        shown_count(forward, plan) <= plan.limit,
        0 <= open_count(forward, plan) <= forward.len(),
        keyset_page(in_direction(forward, plan.direction), plan) == page_by_places(forward, plan),
{
    lemma_shown_is_range(forward, plan);
    let got = fetched(in_direction(forward, plan.direction), plan, plan.limit + 1);
    let page = shown(got, plan.limit as int, plan.direction);
    let lo = page_start(forward, plan);
    let hi = page_end(forward, plan);
    let told = page_by_places(forward, plan);
    let made = keyset_page(in_direction(forward, plan.direction), plan);
    assert(made == response_spec(got, plan.limit as int, plan.direction, plan.use_cursor));
    assert(page.len() == hi - lo);
    if lo < hi {
        assert(page.last() == forward[hi - 1]);
        assert(page.first() == forward[lo]);
    }
    assert(made.items == told.items);
    assert(made.has_next == told.has_next);
    assert(made.has_prev == told.has_prev);
    assert(made.next_cursor == told.next_cursor);
    assert(made.prev_cursor == told.prev_cursor);
}

/// What a page shows is the run of the forward ranking from `page_start` up
/// to `page_end`, and more than a page full was fetched exactly where more
/// than a page full was still to show.
pub proof fn lemma_shown_is_range<P>(forward: Seq<ScoredItem<P>>, plan: KeysetPlan)
    requires
        ordered(forward, KeysetDirection::Next),
        1 <= plan.limit,
    ensures
        0 <= page_start(forward, plan) <= page_end(forward, plan) <= forward.len(),
        page_end(forward, plan) - page_start(forward, plan) == shown_count(forward, plan),
        shown_count(forward, plan) <= plan.limit,
        0 <= open_count(forward, plan) <= forward.len(),
        shown(
            fetched(in_direction(forward, plan.direction), plan, plan.limit + 1),
            plan.limit as int,
            plan.direction,
        ) == forward.subrange(page_start(forward, plan), page_end(forward, plan)),
        fetched(in_direction(forward, plan.direction), plan, plan.limit + 1).len() > plan.limit
            <==> open_count(forward, plan) > plan.limit,
{
    let entries = in_direction(forward, plan.direction);
    let n = forward.len() as int;
    if plan.direction == KeysetDirection::Prev {
        lemma_mirrored_is_ordered(forward, KeysetDirection::Next);
    }
    lemma_kept_is_range(entries, plan);
    let count = shown_count(forward, plan);
    let start = n - open_count(forward, plan);
    let stay = kept(fetched(entries, plan, plan.limit + 1), plan.limit as int);
    let page = shown(fetched(entries, plan, plan.limit + 1), plan.limit as int, plan.direction);
    let lo = page_start(forward, plan);
    let hi = page_end(forward, plan);
    assert(stay == entries.subrange(start, start + count));
    if plan.direction == KeysetDirection::Prev {
        assert(page == mirrored(stay));
        assert forall|i: int| 0 <= i < count implies page[i] == forward.subrange(lo, hi)[i] by {
            assert(page[i] == stay[count - 1 - i]);
            assert(stay[count - 1 - i] == entries[start + count - 1 - i]);
            assert(entries[start + count - 1 - i] == forward[n - 1 - (start + count - 1 - i)]);
        }
        assert(page =~= forward.subrange(lo, hi));
    } else {
        assert(page == stay);
        assert(page =~= forward.subrange(lo, hi));
    }
}

/// What stays on the page of a sequence in the order of the plan's
/// direction: the first entries that the plan may still show, a page full of
/// them at most; and more than a page full was fetched exactly where more
/// than a page full was still to show.
pub proof fn lemma_kept_is_range<P>(entries: Seq<ScoredItem<P>>, plan: KeysetPlan)
    requires
        ordered(entries, plan.direction),
        1 <= plan.limit,
    ensures
        candidates(entries, plan).len() <= entries.len(),
        kept(fetched(entries, plan, plan.limit + 1), plan.limit as int) == entries.subrange(
            entries.len() - candidates(entries, plan).len(),
            entries.len() - candidates(entries, plan).len() + if candidates(entries, plan).len()
                > plan.limit {
                plan.limit as int
            } else {
                candidates(entries, plan).len() as int
            },
        ),
        fetched(entries, plan, plan.limit + 1).len() > plan.limit <==> candidates(
            entries,
            plan,
        ).len() > plan.limit,
{
    lemma_candidates_are_tail(entries, plan);
    let open = candidates(entries, plan);
    let got = fetched(entries, plan, plan.limit + 1);
    let stay = kept(got, plan.limit as int);
    let start = entries.len() - open.len();
    if open.len() > plan.limit {
        assert(got.len() > plan.limit);
        assert(stay =~= entries.subrange(start, start + plan.limit));
    } else {
        assert(got == open);
        assert(stay == open);
    }
}

/// The split of the forward ranking at a key of its own: the entries after
/// the entry at `at`, on a forward walk, are those from `at + 1` on; the
/// entries strictly before it are those up to `at`.
proof fn lemma_open_after_own_key<P>(forward: Seq<ScoredItem<P>>, at: int, plan: KeysetPlan)
    requires
        ordered(forward, KeysetDirection::Next),
        0 <= at < forward.len(),
        plan.use_cursor,
        plan.last == forward[at].key(),
    ensures
        plan.direction == KeysetDirection::Next ==> open_count(forward, plan) == forward.len() - (at
            + 1),
        plan.direction == KeysetDirection::Prev ==> open_count(forward, plan) == at,
{
    let n = forward.len() as int;
    let entries = in_direction(forward, plan.direction);
    if plan.direction == KeysetDirection::Prev {
        lemma_mirrored_is_ordered(forward, KeysetDirection::Next);
    }
    lemma_candidates_are_tail(entries, plan);
    let start = n - candidates(entries, plan).len();
    let expected = if plan.direction == KeysetDirection::Next {
        at + 1
    } else {
        n - at
    };
    assert forall|k: int| 0 <= k < expected implies !comes_before(
        plan.direction,
        plan.last,
        (#[trigger] entries[k]).key(),
    ) by {
        if plan.direction == KeysetDirection::Next {
            if k < at {
                assert(comes_before(KeysetDirection::Next, forward[k].key(), forward[at].key()));
            }
        } else {
            assert(entries[k] == forward[n - 1 - k]);
            if n - 1 - k > at {
                assert(comes_before(
                    KeysetDirection::Next,
                    forward[at].key(),
                    forward[n - 1 - k].key(),
                ));
            }
        }
    }
    assert forall|k: int| expected <= k < n implies comes_before(
        plan.direction,
        plan.last,
        (#[trigger] entries[k]).key(),
    ) by {
        if plan.direction == KeysetDirection::Next {
            assert(comes_before(KeysetDirection::Next, forward[at].key(), forward[k].key()));
        } else {
            assert(entries[k] == forward[n - 1 - k]);
            assert(comes_before(
                KeysetDirection::Next,
                forward[n - 1 - k].key(),
                forward[at].key(),
            ));
        }
    }
    lemma_split_point_is_unique(entries, plan.direction, plan.last, start, expected);
}

/// Round trip, forwards: replaying the `next_cursor` of a page gives the
/// entries that follow the page in the forward ranking, beginning right
/// where the page ends, with none left out and none repeated.
pub proof fn lemma_next_cursor_continues<P>(
    forward: Seq<ScoredItem<P>>,
    plan: KeysetPlan,
    cursor: KeysetPageCursor,
    limit: i64,
)
    requires
        ordered(forward, KeysetDirection::Next),
        1 <= plan.limit,
        1 <= limit,
        keyset_page(in_direction(forward, plan.direction), plan).next_cursor == Some(cursor),
    ensures
        cursor.direction == KeysetDirection::Next,
        keyset_page(in_direction(forward, plan.direction), plan).items == items_of(
            forward.subrange(page_start(forward, plan), page_end(forward, plan)),
        ),
        page_start(forward, replayed(cursor, limit)) == page_end(forward, plan),
        page_end(forward, replayed(cursor, limit)) == if page_end(forward, plan) + limit
            < forward.len() {
            page_end(forward, plan) + limit
        } else {
            forward.len() as int
        },
        keyset_page(forward, replayed(cursor, limit)).items == items_of(
            forward.subrange(
                page_end(forward, plan),
                page_end(forward, replayed(cursor, limit)),
            ),
        ),
        keyset_page(forward, replayed(cursor, limit)).has_prev,
{
    lemma_page_is_range(forward, plan);
    let hi = page_end(forward, plan);
    let again = replayed(cursor, limit);
    assert(cursor == boundary(KeysetDirection::Next, forward[hi - 1], plan.limit as int));
    lemma_open_after_own_key(forward, hi - 1, again);
    lemma_page_is_range(forward, again);
}

/// Round trip, backwards: replaying the `prev_cursor` of a page gives the
/// entries that precede the page in the forward ranking, ending right where
/// the page begins, with none left out and none repeated.
pub proof fn lemma_prev_cursor_continues<P>(
    forward: Seq<ScoredItem<P>>,
    plan: KeysetPlan,
    cursor: KeysetPageCursor,
    limit: i64,
)
    requires
        ordered(forward, KeysetDirection::Next),
        1 <= plan.limit,
        1 <= limit,
        keyset_page(in_direction(forward, plan.direction), plan).prev_cursor == Some(cursor),
    ensures
        cursor.direction == KeysetDirection::Prev,
        keyset_page(in_direction(forward, plan.direction), plan).items == items_of(
            forward.subrange(page_start(forward, plan), page_end(forward, plan)),
        ),
        page_end(forward, replayed(cursor, limit)) == page_start(forward, plan),
        page_start(forward, replayed(cursor, limit)) == if page_start(forward, plan) - limit > 0 {
            page_start(forward, plan) - limit
        } else {
            0
        },
        keyset_page(mirrored(forward), replayed(cursor, limit)).items == items_of(
            forward.subrange(
                page_start(forward, replayed(cursor, limit)),
                page_start(forward, plan),
            ),
        ),
        keyset_page(mirrored(forward), replayed(cursor, limit)).has_next,
{
    lemma_page_is_range(forward, plan);
    let lo = page_start(forward, plan);
    let again = replayed(cursor, limit);
    assert(cursor == boundary(KeysetDirection::Prev, forward[lo], plan.limit as int));
    lemma_open_after_own_key(forward, lo, again);
    lemma_page_is_range(forward, again);
}

/// Stability: a page depends on nothing but the entries that the plan may
/// still show. Whatever is added or removed elsewhere in the ranking, the
/// page is the same.
pub proof fn lemma_page_depends_on_what_is_open<P>(
    before: Seq<ScoredItem<P>>,
    after: Seq<ScoredItem<P>>,
    plan: KeysetPlan,
)
    requires
        candidates(before, plan) == candidates(after, plan),
    ensures
        keyset_page(before, plan) == keyset_page(after, plan),
{
}

/// Stability under insertion: an entry that comes to stand anywhere but
/// strictly beyond the cursor leaves the page of a request with a cursor as
/// it was.
pub proof fn lemma_insert_elsewhere_keeps_page<P>(
    entries: Seq<ScoredItem<P>>,
    entry: ScoredItem<P>,
    at: int,
    plan: KeysetPlan,
)
    requires
        0 <= at <= entries.len(),
        plan.use_cursor,
        !comes_before(plan.direction, plan.last, entry.key()),
    ensures
        keyset_page(entries.insert(at, entry), plan) == keyset_page(entries, plan),
{
    let keep = after_cursor::<P>(plan.direction, plan.last);
    let head = entries.subrange(0, at);
    let tail = entries.subrange(at, entries.len() as int);
    let one = seq![entry];
    assert(one.filter(keep) =~= Seq::<ScoredItem<P>>::empty()) by {
        reveal(Seq::filter);
        assert(one.drop_last().filter(keep) =~= Seq::<ScoredItem<P>>::empty());
    }
    assert(entries =~= head + tail);
    assert(entries.insert(at, entry) =~= head + one + tail);
    Seq::filter_distributes_over_add(head, tail, keep);
    Seq::filter_distributes_over_add(head, one, keep);
    Seq::filter_distributes_over_add(head + one, tail, keep);
    assert(head.filter(keep) + one.filter(keep) =~= head.filter(keep));
}

/// Stability under removal: taking out an entry that does not stand
/// strictly beyond the cursor leaves the page of a request with a cursor as
/// it was.
pub proof fn lemma_remove_elsewhere_keeps_page<P>(
    entries: Seq<ScoredItem<P>>,
    at: int,
    plan: KeysetPlan,
)
    requires
        0 <= at < entries.len(),
        plan.use_cursor,
        !comes_before(plan.direction, plan.last, entries[at].key()),
    ensures
        keyset_page(entries.remove(at), plan) == keyset_page(entries, plan),
{
    assert(entries.remove(at).insert(at, entries[at]) =~= entries);
    lemma_insert_elsewhere_keeps_page(entries.remove(at), entries[at], at, plan);
}

/// Over-fetch: on a forward walk `has_next` says exactly whether more than
/// `limit` entries were still open. With exactly `limit` of them left the
/// page shows them all and `has_next` is false.
pub proof fn lemma_has_next_counts_what_is_left<P>(forward: Seq<ScoredItem<P>>, plan: KeysetPlan)
    requires
        ordered(forward, KeysetDirection::Next),
        plan.direction == KeysetDirection::Next,
        1 <= plan.limit,
    ensures
        keyset_page(forward, plan).has_next == (candidates(forward, plan).len() > plan.limit),
        candidates(forward, plan).len() == plan.limit ==> !keyset_page(forward, plan).has_next
            && keyset_page(forward, plan).items == items_of(candidates(forward, plan))
            && keyset_page(forward, plan).next_cursor is None,
{
    lemma_page_is_range(forward, plan);
    lemma_candidates_are_tail(forward, plan);
}

} // verus!
