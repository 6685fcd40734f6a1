//! What holds of the answers of a catalogue, whatever it holds and whatever
//! is asked.

use crate::catalog::{
    is_ranking, keyset_answer, lemma_mirrored_ranking, lemma_ranking_found, no_filter,
    offset_answer, passes, ranking, scored_at, shows_keyset, shows_offset, TaggedItem,
};
use crate::keyset::{
    candidates, plan_spec, replay_spec, resolved_limit, KeysetCursor, KeysetPageCursor,
    KeysetPageView,
};
use crate::offset::OffsetPageView;
use crate::page_lemmas::{
    in_direction, lemma_has_next_counts_what_is_left, lemma_next_cursor_continues,
    lemma_page_is_range, lemma_prev_cursor_continues, page_by_places, page_end, page_start,
    replayed,
};
use crate::query::TagQueryView;
use crate::ranking::{
    comes_before, items_of, lemma_mirrored_is_ordered, mirrored, KeysetDirection, ScoredItem,
};
use vstd::prelude::*;

verus! {

/// The result for a walk in `direction` is the forward result, read in that
/// direction.
pub proof fn lemma_ranking_in_direction<T>(
    forward: Seq<ScoredItem<usize>>,
    items: Seq<TaggedItem<T>>,
    query: TagQueryView,
    needle: Seq<char>,
    direction: KeysetDirection,
)
    requires
        is_ranking(forward, items, query, needle, KeysetDirection::Next),
    ensures
        ranking(items, query, needle, direction) == in_direction(forward, direction),
{
    match direction {
        KeysetDirection::Next => {
            lemma_ranking_found(forward, items, query, needle, direction);
        },
        KeysetDirection::Prev => {
            lemma_mirrored_ranking(forward, items, query, needle);
            lemma_ranking_found(mirrored(forward), items, query, needle, direction);
        },
    }
}

/// Total order: among results of equal score a forward walk meets strictly
/// decreasing identifiers, and the result of a backward walk is the result
/// of the forward walk read from its end.
pub proof fn lemma_ranking_is_stable<T>(
    forward: Seq<ScoredItem<usize>>,
    backward: Seq<ScoredItem<usize>>,
    items: Seq<TaggedItem<T>>,
    query: TagQueryView,
    needle: Seq<char>,
)
    requires
        is_ranking(forward, items, query, needle, KeysetDirection::Next),
        is_ranking(backward, items, query, needle, KeysetDirection::Prev),
    ensures
        forall|i: int, j: int|
            0 <= i < j < forward.len() && (#[trigger] forward[i]).score == (
            #[trigger] forward[j]).score ==> forward[i].id > forward[j].id,
        backward == mirrored(forward),
        forward == mirrored(backward),
{
    assert forall|i: int, j: int|
        0 <= i < j < forward.len() && (#[trigger] forward[i]).score == (
        #[trigger] forward[j]).score implies forward[i].id > forward[j].id by {
        assert(comes_before(KeysetDirection::Next, forward[i].key(), forward[j].key()));
    }
    lemma_ranking_in_direction(forward, items, query, needle, KeysetDirection::Prev);
    lemma_ranking_found(backward, items, query, needle, KeysetDirection::Prev);
    lemma_mirrored_is_ordered(forward, KeysetDirection::Next);
}

/// Without a filter every item is in the result, every score is 0, and a
/// forward walk meets strictly decreasing identifiers.
pub proof fn lemma_unfiltered_is_by_id<T>(
    forward: Seq<ScoredItem<usize>>,
    items: Seq<TaggedItem<T>>,
)
    requires
        is_ranking(forward, items, no_filter(), Seq::<char>::empty(), KeysetDirection::Next),
    ensures
        forall|k: int| 0 <= k < forward.len() ==> (#[trigger] forward[k]).score == 0,
        forall|i: int, j: int|
            0 <= i < j < forward.len() ==> (#[trigger] forward[i]).id > (#[trigger] forward[j]).id,
        forall|p: int|
            0 <= p < items.len() ==> forward.contains(#[trigger] scored_at(items, p, no_filter())),
{
    assert forall|k: int| 0 <= k < forward.len() implies (#[trigger] forward[k]).score == 0 by {
        let tags = items[forward[k].item as int].tag_set();
        assert(tags.intersect(Set::<Seq<char>>::empty()) =~= Set::<Seq<char>>::empty());
    }
    assert forall|i: int, j: int| 0 <= i < j < forward.len() implies (#[trigger] forward[i]).id > (
    #[trigger] forward[j]).id by {
        assert(comes_before(KeysetDirection::Next, forward[i].key(), forward[j].key()));
    }
    assert forall|p: int| 0 <= p < items.len() implies forward.contains(
        #[trigger] scored_at(items, p, no_filter()),
    ) by {
        let tags = items[p].tag_set();
        assert(Set::<Seq<char>>::empty().intersect(tags) =~= Set::<Seq<char>>::empty());
        assert(passes(items[p], no_filter(), Seq::<char>::empty()));
    }
}

/// Every keyset answer is a run of consecutive entries of the forward
/// result, a page full of them at most, whichever way the walk goes; its
/// flags and cursors are those of `page_by_places`.
pub proof fn lemma_answer_is_range<T>(
    forward: Seq<ScoredItem<usize>>,
    items: Seq<TaggedItem<T>>,
    query: TagQueryView,
    needle: Seq<char>,
    cursor: KeysetCursor,
    filtered: bool,
)
    requires
        is_ranking(forward, items, query, needle, KeysetDirection::Next),
    ensures
        0 <= page_start(forward, plan_spec(cursor, filtered)) <= page_end(
            forward,
            plan_spec(cursor, filtered),
        ) <= forward.len(),
        page_end(forward, plan_spec(cursor, filtered)) - page_start(
            forward,
            plan_spec(cursor, filtered),
        ) <= resolved_limit(cursor.limit),
        keyset_answer(items, query, needle, cursor, filtered) == page_by_places(
            forward,
            plan_spec(cursor, filtered),
        ),
{
    let plan = plan_spec(cursor, filtered);
    lemma_ranking_in_direction(forward, items, query, needle, plan.direction);
    lemma_page_is_range(forward, plan);
}

/// The plan of a replayed marker. A walk without a filter needs the scores
/// to be 0, which they are where the query has no `should` clause.
proof fn lemma_replayed_plan<T>(
    forward: Seq<ScoredItem<usize>>,
    items: Seq<TaggedItem<T>>,
    query: TagQueryView,
    needle: Seq<char>,
    at: int,
    marker: KeysetPageCursor,
    limit: Option<i64>,
    filtered: bool,
)
    requires
        is_ranking(forward, items, query, needle, KeysetDirection::Next),
        !filtered ==> query.should == Set::<Seq<char>>::empty(),
        0 <= at < forward.len(),
        marker.last_score == forward[at].score,
    ensures
        plan_spec(replay_spec(marker, limit), filtered) == replayed(
            marker,
            resolved_limit(limit) as i64,
        ),
{
    if !filtered {
        let tags = items[forward[at].item as int].tag_set();
        assert(tags.intersect(Set::<Seq<char>>::empty()) =~= Set::<Seq<char>>::empty());
    }
}

/// Round trip, forwards: the request that replays the `next_cursor` of an
/// answer is answered with the entries of the forward result that follow
/// that answer, from the place where it ends, up to a page full of them.
pub proof fn lemma_next_page_follows<T>(
    forward: Seq<ScoredItem<usize>>,
    items: Seq<TaggedItem<T>>,
    query: TagQueryView,
    needle: Seq<char>,
    first: KeysetCursor,
    filtered: bool,
    marker: KeysetPageCursor,
    limit: Option<i64>,
)
    requires
        is_ranking(forward, items, query, needle, KeysetDirection::Next),
        !filtered ==> query.should == Set::<Seq<char>>::empty(),
        keyset_answer(items, query, needle, first, filtered).next_cursor == Some(marker),
    ensures
        keyset_answer(items, query, needle, first, filtered).items == items_of(
            forward.subrange(
                page_start(forward, plan_spec(first, filtered)),
                page_end(forward, plan_spec(first, filtered)),
            ),
        ),
        keyset_answer(items, query, needle, replay_spec(marker, limit), filtered).items
            == items_of(
            forward.subrange(
                page_end(forward, plan_spec(first, filtered)),
                if page_end(forward, plan_spec(first, filtered)) + resolved_limit(limit)
                    < forward.len() {
                    page_end(forward, plan_spec(first, filtered)) + resolved_limit(limit)
                } else {
                    forward.len() as int
                },
            ),
        ),
        keyset_answer(items, query, needle, replay_spec(marker, limit), filtered).has_prev,
{
    let plan = plan_spec(first, filtered);
    let size = resolved_limit(limit) as i64;
    lemma_ranking_in_direction(forward, items, query, needle, plan.direction);
    lemma_ranking_in_direction(forward, items, query, needle, KeysetDirection::Next);
    lemma_page_is_range(forward, plan);
    lemma_next_cursor_continues(forward, plan, marker, size);
    lemma_replayed_plan(
        forward,
        items,
        query,
        needle,
        page_end(forward, plan) - 1,
        marker,
        limit,
        filtered,
    );
}

/// Round trip, backwards: the request that replays the `prev_cursor` of an
/// answer is answered with the entries of the forward result that precede
/// that answer, up to the place where it begins, a page full of them at
/// most.
pub proof fn lemma_prev_page_precedes<T>(
    forward: Seq<ScoredItem<usize>>,
    items: Seq<TaggedItem<T>>,
    query: TagQueryView,
    needle: Seq<char>,
    first: KeysetCursor,
    filtered: bool,
    marker: KeysetPageCursor,
    limit: Option<i64>,
)
    requires
        is_ranking(forward, items, query, needle, KeysetDirection::Next),
        !filtered ==> query.should == Set::<Seq<char>>::empty(),
        keyset_answer(items, query, needle, first, filtered).prev_cursor == Some(marker),
    ensures
        keyset_answer(items, query, needle, first, filtered).items == items_of(
            forward.subrange(
                page_start(forward, plan_spec(first, filtered)),
                page_end(forward, plan_spec(first, filtered)),
            ),
        ),
        keyset_answer(items, query, needle, replay_spec(marker, limit), filtered).items
            == items_of(
            forward.subrange(
                if page_start(forward, plan_spec(first, filtered)) - resolved_limit(limit) > 0 {
                    page_start(forward, plan_spec(first, filtered)) - resolved_limit(limit)
                } else {
                    0
                },
                page_start(forward, plan_spec(first, filtered)),
            ),
        ),
        keyset_answer(items, query, needle, replay_spec(marker, limit), filtered).has_next,
{
    let plan = plan_spec(first, filtered);
    let size = resolved_limit(limit) as i64;
    lemma_ranking_in_direction(forward, items, query, needle, plan.direction);
    lemma_ranking_in_direction(forward, items, query, needle, KeysetDirection::Prev);
    lemma_page_is_range(forward, plan);
    lemma_prev_cursor_continues(forward, plan, marker, size);
    lemma_replayed_plan(
        forward,
        items,
        query,
        needle,
        page_start(forward, plan),
        marker,
        limit,
        filtered,
    );
}

/// Over-fetch: where exactly a page full of entries is left beyond the
/// cursor of a forward walk, the answer shows them all and `has_next` is
/// false; `has_next` is true exactly where more than a page full is left.
pub proof fn lemma_last_full_page_has_no_next<T>(
    forward: Seq<ScoredItem<usize>>,
    items: Seq<TaggedItem<T>>,
    query: TagQueryView,
    needle: Seq<char>,
    cursor: KeysetCursor,
    filtered: bool,
)
    requires
        is_ranking(forward, items, query, needle, KeysetDirection::Next),
        plan_spec(cursor, filtered).direction == KeysetDirection::Next,
    ensures
        keyset_answer(items, query, needle, cursor, filtered).has_next == (candidates(
            forward,
            plan_spec(cursor, filtered),
        ).len() > resolved_limit(cursor.limit)),
        candidates(forward, plan_spec(cursor, filtered)).len() == resolved_limit(cursor.limit)
            ==> !keyset_answer(items, query, needle, cursor, filtered).has_next && keyset_answer(
            items,
            query,
            needle,
            cursor,
            filtered,
        ).items == items_of(candidates(forward, plan_spec(cursor, filtered))),
{
    let plan = plan_spec(cursor, filtered);
    lemma_ranking_in_direction(forward, items, query, needle, KeysetDirection::Next);
    lemma_has_next_counts_what_is_left(forward, plan);
}

/// Idempotence: two keyset pages that answer the same request on the same
/// catalogue are the same page.
pub proof fn lemma_same_request_same_page<T>(
    items: Seq<TaggedItem<T>>,
    query: TagQueryView,
    needle: Seq<char>,
    cursor: KeysetCursor,
    filtered: bool,
    once: KeysetPageView<&TaggedItem<T>>,
    again: KeysetPageView<&TaggedItem<T>>,
)
    requires
        shows_keyset(items, keyset_answer(items, query, needle, cursor, filtered), once),
        shows_keyset(items, keyset_answer(items, query, needle, cursor, filtered), again),
    ensures
        once == again,
{
    let picked = keyset_answer(items, query, needle, cursor, filtered);
    assert forall|i: int| 0 <= i < once.items.len() implies once.items[i] == again.items[i] by {
        assert(picked.items[i] < items.len());
        assert(*once.items[i] == items[picked.items[i] as int]);
        assert(*again.items[i] == items[picked.items[i] as int]);
    }
    assert(once.items =~= again.items);
}

/// Idempotence: two offset pages that answer the same request on the same
/// catalogue are the same page.
pub proof fn lemma_same_request_same_offset_page<T>(
    items: Seq<TaggedItem<T>>,
    query: TagQueryView,
    needle: Seq<char>,
    page: int,
    once: OffsetPageView<&TaggedItem<T>>,
    again: OffsetPageView<&TaggedItem<T>>,
)
    requires
        shows_offset(items, offset_answer(items, query, needle, page), once),
        shows_offset(items, offset_answer(items, query, needle, page), again),
    ensures
        once == again,
{
    let picked = offset_answer(items, query, needle, page);
    assert forall|i: int| 0 <= i < once.items.len() implies once.items[i] == again.items[i] by {
        assert(picked.items[i] < items.len());
        assert(*once.items[i] == items[picked.items[i] as int]);
        assert(*again.items[i] == items[picked.items[i] as int]);
    }
    assert(once.items =~= again.items);
}

} // verus!
