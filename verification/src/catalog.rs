//! An in-memory catalogue of tagged items: the store that the pagers read,
//! and the filtered, scored and ordered sequence that every page is cut from.

use crate::ids::ItemId;
use crate::keyset::{
    build_keyset_response, fetch_window, keyset_page, plan_keyset, plan_spec, KeysetCursor,
    KeysetPage, KeysetPageView, KeysetPlan,
};
use crate::model::RepoError;
use crate::offset::{
    offset_page, offset_page_spec, offset_window, served_page, Cursor, OffsetPage, OffsetPageView,
    OFFSET_LIMIT,
};
use crate::page_lemmas::{in_direction, lemma_page_is_range, page_end, page_start};
use crate::query::{
    lemma_name_set_contains, matches_spec, name_set, score, score_spec, PlaylistQuery, TagQuery,
    TagQueryView,
};
use crate::ranking::{
    insert_ranked, items_of, lemma_insert_keeps_order, lemma_split_point,
    lemma_mirrored_is_ordered, lemma_ordered_same_entries, mirrored, ordered, reversed,
    KeysetDirection, ScoredItem,
};
use crate::text::{has_substring, is_substring, lowercase_of, lowercased, trimmed, trimmed_of};
use vstd::prelude::*;

verus! {

/// An entity that owns a set of tags: a post or a playlist. The engine reads
/// the identifier, the tag names and the two text fields; `payload` is what
/// else the entity holds.
#[derive(Debug)]
pub struct TaggedItem<T> {
    pub id: ItemId,
    pub tags: Vec<String>,
    pub title: String,
    pub description: String,
    pub payload: T,
}

impl<T> TaggedItem<T> {
    /// The distinct tag names on the item.
    pub open spec fn tag_set(self) -> Set<Seq<char>> {
        name_set(self.tags@)
    }
}

/// The text filter: an empty needle lets everything through, and otherwise
/// the needle has to occur in the title or in the description, letter case
/// aside.
pub open spec fn text_passes(title: Seq<char>, description: Seq<char>, needle: Seq<char>) -> bool {
    needle.len() == 0 || is_substring(lowercase_of(needle), lowercase_of(title)) || is_substring(
        lowercase_of(needle),
        lowercase_of(description),
    )
}

/// `item` survives the tag query and the text filter.
pub open spec fn passes<T>(item: TaggedItem<T>, query: TagQueryView, needle: Seq<char>) -> bool {
    matches_spec(item.tag_set(), query) && text_passes(item.title@, item.description@, needle)
}

/// The entry that stands for the item at `position`.
pub open spec fn scored_at<T>(
    items: Seq<TaggedItem<T>>,
    position: int,
    query: TagQueryView,
) -> ScoredItem<usize> {
    ScoredItem {
        item: position as usize,
        id: items[position].id,
        score: score_spec(items[position].tag_set(), query) as u64,
    }
}

/// Some item has the identifier `id`.
pub open spec fn has_id<T>(items: Seq<TaggedItem<T>>, id: ItemId) -> bool {
    exists|k: int| 0 <= k < items.len() && (#[trigger] items[k]).id == id
}

/// No two items share an identifier.
pub open spec fn distinct_ids<T>(items: Seq<TaggedItem<T>>) -> bool {
    forall|i: int, j: int|
        0 <= i < items.len() && 0 <= j < items.len() && i != j ==> (#[trigger] items[i]).id != (
        #[trigger] items[j]).id
}

/// `ranked` is the result of the query on `items` for a walk in `direction`:
/// it holds one entry for each item that passes, each with the item's place
/// in `items`, its identifier and its score, and it is strictly ordered.
pub open spec fn is_ranking<T>(
    ranked: Seq<ScoredItem<usize>>,
    items: Seq<TaggedItem<T>>,
    query: TagQueryView,
    needle: Seq<char>,
    direction: KeysetDirection,
) -> bool {
    &&& ordered(ranked, direction)
    &&& forall|k: int|
        0 <= k < ranked.len() ==> {
            let entry = #[trigger] ranked[k];
            &&& entry.item < items.len()
            &&& passes(items[entry.item as int], query, needle)
            &&& entry == scored_at(items, entry.item as int, query)
        }
    &&& forall|p: int|
        0 <= p < items.len() && passes(#[trigger] items[p], query, needle) ==> ranked.contains(
            scored_at(items, p, query),
        )
}

/// The result of the query on `items` for a walk in `direction`.
pub open spec fn ranking<T>(
    items: Seq<TaggedItem<T>>,
    query: TagQueryView,
    needle: Seq<char>,
    direction: KeysetDirection,
) -> Seq<ScoredItem<usize>> {
    choose|ranked: Seq<ScoredItem<usize>>| is_ranking(ranked, items, query, needle, direction)
}

/// A query has at most one result.
pub proof fn lemma_ranking_is_unique<T>(
    a: Seq<ScoredItem<usize>>,
    b: Seq<ScoredItem<usize>>,
    items: Seq<TaggedItem<T>>,
    query: TagQueryView,
    needle: Seq<char>,
    direction: KeysetDirection,
)
    requires
        is_ranking(a, items, query, needle, direction),
        is_ranking(b, items, query, needle, direction),
    ensures
        a == b,
{
    assert forall|e: ScoredItem<usize>| a.contains(e) <==> b.contains(e) by {
        if a.contains(e) {
            let k = choose|k: int| 0 <= k < a.len() && a[k] == e;
            assert(passes(items[a[k].item as int], query, needle));
        }
        if b.contains(e) {
            let k = choose|k: int| 0 <= k < b.len() && b[k] == e;
            assert(passes(items[b[k].item as int], query, needle));
        }
    }
    lemma_ordered_same_entries(a, b, direction);
}

/// Whatever meets `is_ranking` is the `ranking`.
pub proof fn lemma_ranking_found<T>(
    ranked: Seq<ScoredItem<usize>>,
    items: Seq<TaggedItem<T>>,
    query: TagQueryView,
    needle: Seq<char>,
    direction: KeysetDirection,
)
    requires
        is_ranking(ranked, items, query, needle, direction),
    ensures
        ranked == ranking(items, query, needle, direction),
        is_ranking(ranking(items, query, needle, direction), items, query, needle, direction),
{
    lemma_ranking_is_unique(
        ranked,
        ranking(items, query, needle, direction),
        items,
        query,
        needle,
        direction,
    );
}

/// The result for a walk backwards is the result for a walk forwards, read
/// from its end.
pub proof fn lemma_mirrored_ranking<T>(
    ranked: Seq<ScoredItem<usize>>,
    items: Seq<TaggedItem<T>>,
    query: TagQueryView,
    needle: Seq<char>,
)
    requires
        is_ranking(ranked, items, query, needle, KeysetDirection::Next),
    ensures
        is_ranking(mirrored(ranked), items, query, needle, KeysetDirection::Prev),
{
    let back = mirrored(ranked);
    lemma_mirrored_is_ordered(ranked, KeysetDirection::Next);
    assert forall|k: int| 0 <= k < back.len() implies {
        let entry = #[trigger] back[k];
        &&& entry.item < items.len()
        &&& passes(items[entry.item as int], query, needle)
        &&& entry == scored_at(items, entry.item as int, query)
    } by {
        assert(back[k] == ranked[ranked.len() - 1 - k]);
    }
    assert forall|p: int|
        0 <= p < items.len() && passes(#[trigger] items[p], query, needle) implies back.contains(
        scored_at(items, p, query),
    ) by {
        let e = scored_at(items, p, query);
        assert(ranked.contains(e));
        let k = choose|k: int| 0 <= k < ranked.len() && ranked[k] == e;
        assert(back[ranked.len() - 1 - k] == e);
    }
}

proof fn lemma_ranking_skips<T>(
    ranked: Seq<ScoredItem<usize>>,
    items: Seq<TaggedItem<T>>,
    seen: int,
    query: TagQueryView,
    needle: Seq<char>,
)
    requires
        0 <= seen < items.len(),
        is_ranking(ranked, items.take(seen), query, needle, KeysetDirection::Next),
        !passes(items[seen], query, needle),
    ensures
        is_ranking(ranked, items.take(seen + 1), query, needle, KeysetDirection::Next),
{
    let old_items = items.take(seen);
    let new_items = items.take(seen + 1);
    assert forall|k: int| 0 <= k < ranked.len() implies {
        let entry = #[trigger] ranked[k];
        &&& entry.item < new_items.len()
        &&& passes(new_items[entry.item as int], query, needle)
        &&& entry == scored_at(new_items, entry.item as int, query)
    } by {
        let entry = ranked[k];
        assert(old_items[entry.item as int] == new_items[entry.item as int]);
        assert(entry == scored_at(old_items, entry.item as int, query));
    }
    assert forall|p: int|
        0 <= p < new_items.len() && passes(
            #[trigger] new_items[p],
            query,
            needle,
        ) implies ranked.contains(scored_at(new_items, p, query)) by {
        assert(p < seen);
        assert(old_items[p] == new_items[p]);
        assert(ranked.contains(scored_at(old_items, p, query)));
    }
}

proof fn lemma_ranking_grows<T>(
    before: Seq<ScoredItem<usize>>,
    after: Seq<ScoredItem<usize>>,
    items: Seq<TaggedItem<T>>,
    seen: int,
    at: int,
    query: TagQueryView,
    needle: Seq<char>,
)
    requires
        0 <= seen < items.len(),
        0 <= at <= before.len(),
        is_ranking(before, items.take(seen), query, needle, KeysetDirection::Next),
        passes(items[seen], query, needle),
        after == before.insert(at, scored_at(items, seen, query)),
        ordered(after, KeysetDirection::Next),
        seen <= usize::MAX,
    ensures
        is_ranking(after, items.take(seen + 1), query, needle, KeysetDirection::Next),
{
    let old_items = items.take(seen);
    let new_items = items.take(seen + 1);
    let added = scored_at(items, seen, query);
    assert(new_items[seen] == items[seen]);
    assert(added == scored_at(new_items, seen, query));
    assert forall|k: int| 0 <= k < after.len() implies {
        let entry = #[trigger] after[k];
        &&& entry.item < new_items.len()
        &&& passes(new_items[entry.item as int], query, needle)
        &&& entry == scored_at(new_items, entry.item as int, query)
    } by {
        if k == at {
            assert(after[k] == added);
        } else {
            let j = if k < at {
                k
            } else {
                k - 1
            };
            assert(after[k] == before[j]);
            let entry = before[j];
            assert(old_items[entry.item as int] == new_items[entry.item as int]);
            assert(entry == scored_at(old_items, entry.item as int, query));
        }
    }
    assert forall|p: int|
        0 <= p < new_items.len() && passes(
            #[trigger] new_items[p],
            query,
            needle,
        ) implies after.contains(scored_at(new_items, p, query)) by {
        if p == seen {
            assert(after[at] == added);
        } else {
            assert(old_items[p] == new_items[p]);
            let e = scored_at(old_items, p, query);
            assert(before.contains(e));
            let k = choose|k: int| 0 <= k < before.len() && before[k] == e;
            if k < at {
                assert(after[k] == e);
            } else {
                assert(after[k + 1] == e);
            }
        }
    }
}

/// Every list of items with distinct identifiers has a result for every
/// query.
pub proof fn lemma_ranking_exists<T>(
    items: Seq<TaggedItem<T>>,
    query: TagQueryView,
    needle: Seq<char>,
) -> (forward: Seq<ScoredItem<usize>>)
    requires
        distinct_ids(items),
        items.len() <= usize::MAX,
    ensures
        is_ranking(forward, items, query, needle, KeysetDirection::Next),
        is_ranking(mirrored(forward), items, query, needle, KeysetDirection::Prev),
        forward == ranking(items, query, needle, KeysetDirection::Next),
        mirrored(forward) == ranking(items, query, needle, KeysetDirection::Prev),
{
    let forward = lemma_forward_ranking_exists(items, items.len() as int, query, needle);
    assert(items.take(items.len() as int) =~= items);
    lemma_mirrored_ranking(forward, items, query, needle);
    lemma_ranking_found(forward, items, query, needle, KeysetDirection::Next);
    lemma_ranking_found(mirrored(forward), items, query, needle, KeysetDirection::Prev);
    forward
}

proof fn lemma_forward_ranking_exists<T>(
    items: Seq<TaggedItem<T>>,
    seen: int,
    query: TagQueryView,
    needle: Seq<char>,
) -> (forward: Seq<ScoredItem<usize>>)
    requires
        distinct_ids(items),
        0 <= seen <= items.len() <= usize::MAX,
    ensures
        is_ranking(forward, items.take(seen), query, needle, KeysetDirection::Next),
    decreases seen,
{
    if seen == 0 {
        Seq::empty()
    } else {
        let before = lemma_forward_ranking_exists(items, seen - 1, query, needle);
        if passes(items[seen - 1], query, needle) {
            let entry = scored_at(items, seen - 1, query);
            assert forall|k: int| 0 <= k < before.len() implies (#[trigger] before[k]).key()
                != entry.key() by {
                let other = before[k];
                assert(items.take(seen - 1)[other.item as int] == items[other.item as int]);
                assert(items[other.item as int].id != items[seen - 1].id);
            }
            let at = lemma_split_point(before, KeysetDirection::Next, entry.key());
            lemma_insert_keeps_order(before, entry, at);
            let after = before.insert(at, entry);
            lemma_ranking_grows(before, after, items, seen - 1, at, query, needle);
            after
        } else {
            lemma_ranking_skips(before, items, seen - 1, query, needle);
            before
        }
    }
}

/// Every place that a keyset page names is a place of the catalogue.
pub proof fn lemma_answer_places_exist<T>(
    ranked: Seq<ScoredItem<usize>>,
    items: Seq<TaggedItem<T>>,
    query: TagQueryView,
    needle: Seq<char>,
    plan: KeysetPlan,
)
    requires
        is_ranking(ranked, items, query, needle, plan.direction),
        1 <= plan.limit,
    ensures
        forall|i: int|
            0 <= i < keyset_page(ranked, plan).items.len() ==> (#[trigger] keyset_page(
                ranked,
                plan,
            ).items[i]) < items.len(),
{
    let forward = in_direction(ranked, plan.direction);
    lemma_mirrored_is_ordered(ranked, plan.direction);
    if plan.direction == KeysetDirection::Prev {
        lemma_mirrored_is_ordered(forward, KeysetDirection::Next);
    }
    assert(in_direction(forward, plan.direction) == ranked);
    lemma_page_is_range(forward, plan);
    let lo = page_start(forward, plan);
    let hi = page_end(forward, plan);
    let answer = keyset_page(ranked, plan);
    assert(answer.items == items_of(forward.subrange(lo, hi)));
    assert forall|i: int| 0 <= i < answer.items.len() implies (#[trigger] answer.items[i])
        < items.len() by {
        assert(answer.items[i] == forward.subrange(lo, hi)[i].item);
        assert(forward.subrange(lo, hi)[i] == forward[lo + i]);
        if plan.direction == KeysetDirection::Prev {
            assert(forward[lo + i] == ranked[ranked.len() - 1 - (lo + i)]);
        } else {
            assert(forward[lo + i] == ranked[lo + i]);
        }
    }
}

/// Whether `item` survives `query` and the text filter. `needle_lower` is
/// the needle in lower case, made once for all items.
fn item_passes<T>(
    item: &TaggedItem<T>,
    query: &TagQuery,
    needle: &str,
    needle_lower: &str,
) -> (pass: bool)
    requires
        needle_lower@ == lowercase_of(needle@),
    ensures
        pass == passes(*item, query@, needle@),
{
    if !crate::query::matches(&item.tags, query) {
        return false;
    }
    if needle.is_empty() {
        return true;
    }
    let title = lowercased(item.title.as_str());
    if has_substring(title.as_str(), needle_lower) {
        return true;
    }
    let description = lowercased(item.description.as_str());
    has_substring(description.as_str(), needle_lower)
}

/// An in-memory store of tagged items. No two of its items share an
/// identifier.
pub struct Catalog<T> {
    items: Vec<TaggedItem<T>>,
}

impl<T> View for Catalog<T> {
    type V = Seq<TaggedItem<T>>;

    closed spec fn view(&self) -> Seq<TaggedItem<T>> {
        self.items@
    }
}

/// What a page of places in the catalogue shows once each place is replaced
/// by the item that stands there.
pub open spec fn shows_keyset<T>(
    items: Seq<TaggedItem<T>>,
    picked: KeysetPageView<usize>,
    page: KeysetPageView<&TaggedItem<T>>,
) -> bool {
    &&& page.has_next == picked.has_next
    &&& page.has_prev == picked.has_prev
    &&& page.next_cursor == picked.next_cursor
    &&& page.prev_cursor == picked.prev_cursor
    &&& page.items.len() == picked.items.len()
    &&& forall|i: int|
        0 <= i < page.items.len() ==> (#[trigger] picked.items[i]) < items.len() && *page.items[i]
            == items[picked.items[i] as int]
}

/// The same for an offset page.
pub open spec fn shows_offset<T>(
    items: Seq<TaggedItem<T>>,
    picked: OffsetPageView<usize>,
    page: OffsetPageView<&TaggedItem<T>>,
) -> bool {
    &&& page.total_pages == picked.total_pages
    &&& page.items.len() == picked.items.len()
    &&& forall|i: int|
        0 <= i < page.items.len() ==> (#[trigger] picked.items[i]) < items.len() && *page.items[i]
            == items[picked.items[i] as int]
}

/// The query that lets every item through and gives every item score 0.
pub open spec fn no_filter() -> TagQueryView {
    TagQueryView { must: Set::empty(), should: Set::empty(), must_not: Set::empty() }
}

/// The keyset page that `cursor` asks for, as places in `items`. A retrieval
/// that is not `filtered` is one without any tag or text filter.
pub open spec fn keyset_answer<T>(
    items: Seq<TaggedItem<T>>,
    query: TagQueryView,
    needle: Seq<char>,
    cursor: KeysetCursor,
    filtered: bool,
) -> KeysetPageView<usize> {
    let plan = plan_spec(cursor, filtered);
    keyset_page(ranking(items, query, needle, plan.direction), plan)
}

/// The offset page `page`, as places in `items`.
pub open spec fn offset_answer<T>(
    items: Seq<TaggedItem<T>>,
    query: TagQueryView,
    needle: Seq<char>,
    page: int,
) -> OffsetPageView<usize> {
    offset_page_spec(ranking(items, query, needle, KeysetDirection::Next), page)
}

/// A list without names stands for the empty set.
pub proof fn lemma_no_names(names: Seq<String>)
    requires
        names.len() == 0,
    ensures
        name_set(names) == Set::<Seq<char>>::empty(),
{
    assert forall|name: Seq<char>| !name_set(names).contains(name) by {
        lemma_name_set_contains(names, name);
    }
    assert(name_set(names) =~= Set::<Seq<char>>::empty());
}

impl<T> Catalog<T> {
    /// The invariant of the catalogue.
    pub open spec fn wf(&self) -> bool {
        distinct_ids(self@)
    }

    /// A catalogue without items.
    pub fn new() -> (catalog: Catalog<T>)
        ensures
            catalog.wf(),
            catalog@ == Seq::<TaggedItem<T>>::empty(),
    {
        Catalog { items: Vec::new() }
    }

    /// The number of items.
    pub fn len(&self) -> (count: usize)
        ensures
            count == self@.len(),
    {
        self.items.len()
    }

    /// The item at `place`, counted in the order of insertion, or `None`
    /// beyond the last item.
    pub fn item_at(&self, place: usize) -> (found: Option<&TaggedItem<T>>)
        ensures
            match found {
                Some(item) => place < self@.len() && *item == self@[place as int],
                None => place >= self@.len(),
            },
    {
        if place < self.items.len() {
            Some(&self.items[place])
        } else {
            None
        }
    }

    /// The place of the item with identifier `id`, if there is one.
    pub fn position_of(&self, id: ItemId) -> (place: Option<usize>)
        ensures
            match place {
                Some(p) => p < self@.len() && self@[p as int].id == id,
                None => !has_id(self@, id),
            },
    {
        let mut i: usize = 0;
        while i < self.items.len()
            invariant
                0 <= i <= self.items@.len(),
                forall|k: int| 0 <= k < i ==> (#[trigger] self.items@[k]).id != id,
            decreases self.items@.len() - i,
        {
            if self.items[i].id == id {
                return Some(i);
            }
            i += 1;
        }
        None
    }

    /// Adds `item` at the end. An identifier that is already taken is
    /// refused with `StorageError`, and the catalogue stays as it was.
    pub fn insert(&mut self, item: TaggedItem<T>) -> (outcome: Result<(), RepoError>)
        requires
            old(self).wf(),
        ensures
            final(self).wf(),
            match outcome {
                Ok(_) => !has_id(old(self)@, item.id) && final(self)@ == old(self)@.push(item),
                Err(error) => has_id(old(self)@, item.id) && error == RepoError::StorageError
                    && final(self)@ == old(self)@,
            },
    {
        match self.position_of(item.id) {
            Some(_) => Err(RepoError::StorageError),
            None => {
                self.items.push(item);
                Ok(())
            },
        }
    }

    /// The item with identifier `id`, or `NotFound`.
    pub fn get(&self, id: ItemId) -> (outcome: Result<&TaggedItem<T>, RepoError>)
        ensures
            match outcome {
                Ok(item) => item.id == id && self@.contains(*item),
                Err(error) => !has_id(self@, id) && error == RepoError::NotFound,
            },
    {
        match self.position_of(id) {
            Some(place) => {
                assert(self@[place as int] == self.items@[place as int]);
                Ok(&self.items[place])
            },
            None => Err(RepoError::NotFound),
        }
    }

    /// Takes the item with identifier `id` out, or answers `NotFound` and
    /// leaves the catalogue as it was.
    pub fn delete(&mut self, id: ItemId) -> (outcome: Result<(), RepoError>)
        requires
            old(self).wf(),
        ensures
            final(self).wf(),
            match outcome {
                Ok(_) => exists|place: int|
                    0 <= place < old(self)@.len() && (#[trigger] old(self)@[place]).id == id
                        && final(self)@ == old(self)@.remove(place),
                Err(error) => !has_id(old(self)@, id) && error == RepoError::NotFound
                    && final(self)@ == old(self)@,
            },
    {
        match self.position_of(id) {
            Some(place) => {
                let ghost before = self.items@;
                let _ = self.items.remove(place);
                proof {
                    let after = self.items@;
                    assert forall|i: int, j: int|
                        0 <= i < after.len() && 0 <= j < after.len() && i != j implies (
                    #[trigger] after[i]).id != (#[trigger] after[j]).id by {
                        let oi = if i < place {
                            i
                        } else {
                            i + 1
                        };
                        let oj = if j < place {
                            j
                        } else {
                            j + 1
                        };
                        assert(after[i] == before[oi] && after[j] == before[oj]);
                    }
                    assert(before[place as int].id == id);
                }
                Ok(())
            },
            None => Err(RepoError::NotFound),
        }
    }

    /// The ranked retriever: the items that pass `query` and whose title or
    /// description holds `needle` (where it is not empty), each with its
    /// score, in the order of a walk in `direction`.
    pub fn rank(&self, query: &TagQuery, needle: &str, direction: KeysetDirection) -> (ranked: Vec<
        ScoredItem<usize>,
    >)
        requires
            self.wf(),
        ensures
            is_ranking(ranked@, self@, query@, needle@, direction),
            ranked@ == ranking(self@, query@, needle@, direction),
    {
        let needle_lower = lowercased(needle);
        let mut ranked: Vec<ScoredItem<usize>> = Vec::new();
        let mut i: usize = 0;
        while i < self.items.len()
            invariant
                0 <= i <= self.items@.len(),
                self.wf(),
                needle_lower@ == lowercase_of(needle@),
                is_ranking(
                    ranked@,
                    self.items@.take(i as int),
                    query@,
                    needle@,
                    KeysetDirection::Next,
                ),
            decreases self.items@.len() - i,
        {
            let item = &self.items[i];
            if item_passes(item, query, needle, needle_lower.as_str()) {
                let points = score(&item.tags, query);
                let entry = ScoredItem { item: i, id: item.id, score: points };
                let ghost before = ranked@;
                proof {
                    assert(entry == scored_at(self.items@, i as int, query@));
                    assert forall|k: int| 0 <= k < before.len() implies (#[trigger] before[k]).key()
                        != entry.key() by {
                        let other = before[k];
                        assert(self.items@.take(i as int)[other.item as int]
                            == self.items@[other.item as int]);
                        assert(self@[other.item as int].id != self@[i as int].id);
                    }
                }
                insert_ranked(&mut ranked, entry);
                proof {
                    let at = choose|at: int|
                        0 <= at <= before.len() && ranked@ == #[trigger] before.insert(at, entry);
                    lemma_ranking_grows(
                        before,
                        ranked@,
                        self.items@,
                        i as int,
                        at,
                        query@,
                        needle@,
                    );
                }
            } else {
                proof {
                    lemma_ranking_skips(ranked@, self.items@, i as int, query@, needle@);
                }
            }
            i += 1;
        }
        proof {
            assert(self.items@.take(self.items@.len() as int) =~= self.items@);
        }
        match direction {
            KeysetDirection::Next => {
                proof {
                    lemma_ranking_found(ranked@, self@, query@, needle@, direction);
                }
                ranked
            },
            KeysetDirection::Prev => {
                let back = reversed(ranked);
                proof {
                    lemma_mirrored_ranking(ranked@, self@, query@, needle@);
                    lemma_ranking_found(back@, self@, query@, needle@, direction);
                }
                back
            },
        }
    }

    /// The items at `places`, in that order.
    fn resolve<'a>(&'a self, places: Vec<usize>) -> (found: Vec<&'a TaggedItem<T>>)
        requires
            forall|i: int| 0 <= i < places@.len() ==> (#[trigger] places@[i]) < self@.len(),
        ensures
            found@.len() == places@.len(),
            forall|i: int|
                0 <= i < found@.len() ==> *(#[trigger] found@[i]) == self@[places@[i] as int],
    {
        let mut found: Vec<&'a TaggedItem<T>> = Vec::new();
        let mut i: usize = 0;
        while i < places.len()
            invariant
                0 <= i <= places@.len(),
                found@.len() == i,
                forall|k: int|
                    0 <= k < places@.len() ==> (#[trigger] places@[k]) < self.items@.len(),
                forall|k: int|
                    0 <= k < i ==> *(#[trigger] found@[k]) == self.items@[places@[k] as int],
            decreases places@.len() - i,
        {
            let place = places[i];
            found.push(&self.items[place]);
            i += 1;
        }
        found
    }

    /// One keyset page of the items that pass `query` and hold `needle`.
    /// `filtered` says whether the retrieval is a ranked one, whose cursor
    /// needs a score, or a plain walk by identifier.
    fn keyset_walk<'a>(
        &'a self,
        query: &TagQuery,
        needle: &str,
        cursor: &KeysetCursor,
        filtered: bool,
    ) -> (page: KeysetPage<&'a TaggedItem<T>>)
        requires
            self.wf(),
        ensures
            shows_keyset(self@, keyset_answer(self@, query@, needle@, *cursor, filtered), page@),
    {
        let plan = plan_keyset(cursor, filtered);
        let ranked = self.rank(query, needle, plan.direction);
        proof {
            lemma_answer_places_exist(ranked@, self@, query@, needle@, plan);
        }
        let ghost all = ranked@;
        let window = fetch_window(ranked, &plan, (plan.limit + 1) as usize);
        let picked = build_keyset_response(window, plan.limit, plan.direction, plan.use_cursor);
        proof {
            assert(picked@ == keyset_page(all, plan));
            assert(picked.items@ == keyset_page(all, plan).items);
        }
        let items = self.resolve(picked.items);
        KeysetPage {
            items,
            has_next: picked.has_next,
            has_prev: picked.has_prev,
            next_cursor: picked.next_cursor,
            prev_cursor: picked.prev_cursor,
        }
    }

    /// One offset page of the items that pass `query` and hold `needle`.
    fn offset_walk<'a>(&'a self, query: &TagQuery, needle: &str, cursor: &Cursor) -> (page:
        OffsetPage<&'a TaggedItem<T>>)
        requires
            self.wf(),
        ensures
            shows_offset(self@, offset_answer(self@, query@, needle@, cursor.page as int), page@),
    {
        let ranked = self.rank(query, needle, KeysetDirection::Next);
        let ghost all = ranked@;
        let picked = offset_page(ranked, cursor);
        proof {
            let window = offset_window(all, cursor.page as int, OFFSET_LIMIT as int);
            assert forall|i: int| 0 <= i < picked.items@.len() implies (#[trigger] picked.items@[i])
                < self@.len() by {
                let offset = served_page(cursor.page as int) * OFFSET_LIMIT;
                assert(window[i] == all[offset + i]);
            }
        }
        let items = self.resolve(picked.items);
        OffsetPage { items, total_pages: picked.total_pages }
    }

    /// Offset search by tags: page `cursor.page` of the items that pass
    /// `query`, best score first.
    pub fn search<'a>(&'a self, query: &TagQuery, cursor: &Cursor) -> (page: OffsetPage<
        &'a TaggedItem<T>,
    >)
        requires
            self.wf(),
        ensures
            shows_offset(
                self@,
                offset_answer(self@, query@, Seq::<char>::empty(), cursor.page as int),
                page@,
            ),
    {
        let none = String::new();
        self.offset_walk(query, none.as_str(), cursor)
    }

    /// Offset listing without a filter: page `cursor.page` of all items,
    /// latest first.
    pub fn get_all<'a>(&'a self, cursor: &Cursor) -> (page: OffsetPage<&'a TaggedItem<T>>)
        requires
            self.wf(),
        ensures
            shows_offset(
                self@,
                offset_answer(self@, no_filter(), Seq::<char>::empty(), cursor.page as int),
                page@,
            ),
    {
        let none = String::new();
        let query = TagQuery::empty();
        proof {
            lemma_no_names(query.must@);
            lemma_no_names(query.should@);
            lemma_no_names(query.must_not@);
        }
        self.offset_walk(&query, none.as_str(), cursor)
    }

    /// Keyset search by tags: the page that `cursor` asks for of the items
    /// that pass `query`, best score first.
    pub fn search_keyset<'a>(&'a self, query: &TagQuery, cursor: &KeysetCursor) -> (page:
        KeysetPage<&'a TaggedItem<T>>)
        requires
            self.wf(),
        ensures
            shows_keyset(
                self@,
                keyset_answer(self@, query@, Seq::<char>::empty(), *cursor, true),
                page@,
            ),
    {
        let none = String::new();
        self.keyset_walk(query, none.as_str(), cursor, true)
    }

    /// Keyset listing without a filter: the page that `cursor` asks for of
    /// all items, latest first. The cursor needs an identifier only.
    pub fn get_all_keyset<'a>(&'a self, cursor: &KeysetCursor) -> (page: KeysetPage<
        &'a TaggedItem<T>,
    >)
        requires
            self.wf(),
        ensures
            shows_keyset(
                self@,
                keyset_answer(self@, no_filter(), Seq::<char>::empty(), *cursor, false),
                page@,
            ),
    {
        let none = String::new();
        let query = TagQuery::empty();
        proof {
            lemma_no_names(query.must@);
            lemma_no_names(query.should@);
            lemma_no_names(query.must_not@);
        }
        self.keyset_walk(&query, none.as_str(), cursor, false)
    }

    /// Keyset search by text and tags: as `search_keyset`, and where the
    /// text of `query` is more than white space, only items whose title or
    /// description holds it, letter case aside.
    pub fn search_text<'a>(&'a self, query: &PlaylistQuery, cursor: &KeysetCursor) -> (page:
        KeysetPage<&'a TaggedItem<T>>)
        requires
            self.wf(),
        ensures
            shows_keyset(
                self@,
                keyset_answer(self@, query.tags@, trimmed_of(query.text@), *cursor, true),
                page@,
            ),
    {
        let needle = trimmed(query.text.as_str());
        self.keyset_walk(&query.tags, needle, cursor, true)
    }
}

} // verus!
