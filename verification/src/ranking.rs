//! The order of ranked results: higher score first, and among equal scores
//! the larger identifier first. Walking backwards uses the exact mirror.

use crate::ids::ItemId;
use vstd::prelude::*;

verus! {

/// The way a keyset page is walked.
#[derive(Clone, Copy, Debug, PartialEq, Eq, Structural)]
pub enum KeysetDirection {
    Next,
    Prev,
}

impl Default for KeysetDirection {
    fn default() -> (direction: KeysetDirection)
        ensures
            direction == KeysetDirection::Next,
    {
        KeysetDirection::Next
    }
}

/// What a result is ordered by.
#[derive(Clone, Copy, Debug, PartialEq, Eq, Structural)]
pub struct RankKey {
    pub score: u64,
    pub id: ItemId,
}

/// An item with the score a query gave it. `id` is the identifier of `item`.
#[derive(Debug)]
pub struct ScoredItem<P> {
    pub item: P,
    pub id: ItemId,
    pub score: u64,
}

/// `a` stands before `b` in forward order: higher score, or equal score and
/// larger identifier.
pub open spec fn ranks_before(a: RankKey, b: RankKey) -> bool {
    a.score > b.score || (a.score == b.score && a.id > b.id)
}

/// `a` stands before `b` when walking in `direction`.
pub open spec fn comes_before(direction: KeysetDirection, a: RankKey, b: RankKey) -> bool {
    match direction {
        KeysetDirection::Next => ranks_before(a, b),
        KeysetDirection::Prev => ranks_before(b, a),
    }
}

/// The direction that walks the other way.
pub open spec fn opposite(direction: KeysetDirection) -> KeysetDirection {
    match direction {
        KeysetDirection::Next => KeysetDirection::Prev,
        KeysetDirection::Prev => KeysetDirection::Next,
    }
}

impl<P> ScoredItem<P> {
    pub open spec fn key(self) -> RankKey {
        RankKey { score: self.score, id: self.id }
    }

    /// The key this entry is ordered by.
    pub fn rank_key(&self) -> (key: RankKey)
        ensures
            key == self.key(),
    {
        RankKey { score: self.score, id: self.id }
    }
}

/// `entries` is strictly ordered for a walk in `direction`.
pub open spec fn ordered<P>(entries: Seq<ScoredItem<P>>, direction: KeysetDirection) -> bool {
    forall|i: int, j: int|
        0 <= i < j < entries.len() ==> comes_before(
            direction,
            (#[trigger] entries[i]).key(),
            (#[trigger] entries[j]).key(),
        )
}

/// `s` read from its end to its start.
pub open spec fn mirrored<A>(s: Seq<A>) -> Seq<A> {
    Seq::new(s.len(), |i: int| s[s.len() - 1 - i])
}

/// The payloads of `entries`, in order.
pub open spec fn items_of<P>(entries: Seq<ScoredItem<P>>) -> Seq<P> {
    Seq::new(entries.len(), |i: int| entries[i].item)
}

/// Whether `a` stands before `b` in forward order.
pub fn key_ranks_before(a: RankKey, b: RankKey) -> (before: bool)
    ensures
        before == ranks_before(a, b),
{
    a.score > b.score || (a.score == b.score && a.id > b.id)
}

/// Whether `a` stands before `b` when walking in `direction`.
pub fn key_comes_before(direction: KeysetDirection, a: RankKey, b: RankKey) -> (before: bool)
    ensures
        before == comes_before(direction, a, b),
{
    match direction {
        KeysetDirection::Next => key_ranks_before(a, b),
        KeysetDirection::Prev => key_ranks_before(b, a),
    }
}

/// Two different keys are ordered one way or the other, never both.
pub proof fn lemma_order_is_total(direction: KeysetDirection, a: RankKey, b: RankKey)
    ensures
        a != b ==> (comes_before(direction, a, b) || comes_before(direction, b, a)),
        !(comes_before(direction, a, b) && comes_before(direction, b, a)),
        !comes_before(direction, a, a),
{
}

/// The order is transitive.
pub proof fn lemma_order_is_transitive(
    direction: KeysetDirection,
    a: RankKey,
    b: RankKey,
    c: RankKey,
)
    requires
        comes_before(direction, a, b),
        comes_before(direction, b, c),
    ensures
        comes_before(direction, a, c),
{
}

/// Among results of equal score, a forward walk meets strictly decreasing
/// identifiers.
pub proof fn lemma_equal_scores_descend_by_id<P>(entries: Seq<ScoredItem<P>>, i: int, j: int)
    requires
        ordered(entries, KeysetDirection::Next),
        0 <= i < j < entries.len(),
        entries[i].score == entries[j].score,
    ensures
        entries[i].id > entries[j].id,
{
    assert(comes_before(KeysetDirection::Next, entries[i].key(), entries[j].key()));
}

/// Reading an ordered sequence backwards gives the order of the opposite
/// walk, and reading it backwards twice gives it back.
pub proof fn lemma_mirrored_is_ordered<P>(entries: Seq<ScoredItem<P>>, direction: KeysetDirection)
    requires
        ordered(entries, direction),
    ensures
        ordered(mirrored(entries), opposite(direction)),
        mirrored(mirrored(entries)) == entries,
{
    let back = mirrored(entries);
    assert forall|i: int, j: int| 0 <= i < j < back.len() implies comes_before(
        opposite(direction),
        (#[trigger] back[i]).key(),
        (#[trigger] back[j]).key(),
    ) by {
        let hi = entries.len() - 1 - i;
        let lo = entries.len() - 1 - j;
        assert(comes_before(direction, entries[lo].key(), entries[hi].key()));
    }
    assert(mirrored(back) =~= entries);
}

/// Two strictly ordered sequences that hold the same entries are the same
/// sequence.
pub proof fn lemma_ordered_same_entries<P>(
    a: Seq<ScoredItem<P>>,
    b: Seq<ScoredItem<P>>,
    direction: KeysetDirection,
)
    requires
        ordered(a, direction),
        ordered(b, direction),
        forall|e: ScoredItem<P>| a.contains(e) <==> b.contains(e),
    ensures
        a == b,
    decreases a.len(),
{
    if a.len() == 0 {
        if b.len() > 0 {
            assert(b.contains(b[0]));
            assert(a.contains(b[0]));
        }
        assert(a =~= b);
    } else {
        let la = a.last();
        assert(a.contains(la));
        assert(b.contains(la));
        assert(b.len() > 0);
        let lb = b.last();
        assert(b.contains(lb));
        assert(a.contains(lb));
        let ka = choose|k: int| 0 <= k < b.len() && b[k] == la;
        let kb = choose|k: int| 0 <= k < a.len() && a[k] == lb;
        if ka < b.len() - 1 {
            assert(comes_before(direction, b[ka].key(), b[b.len() - 1].key()));
            if kb < a.len() - 1 {
                assert(comes_before(direction, a[kb].key(), a[a.len() - 1].key()));
            }
            assert(false);
        }
        assert(la == lb);
        let a0 = a.drop_last();
        let b0 = b.drop_last();
        assert forall|e: ScoredItem<P>| a0.contains(e) <==> b0.contains(e) by {
            if a0.contains(e) {
                let k = choose|k: int| 0 <= k < a0.len() && a0[k] == e;
                assert(a[k] == e);
                assert(comes_before(direction, a[k].key(), a[a.len() - 1].key()));
                assert(a.contains(e));
                let m = choose|m: int| 0 <= m < b.len() && b[m] == e;
                assert(m < b.len() - 1);
                assert(b0[m] == e);
            }
            if b0.contains(e) {
                let k = choose|k: int| 0 <= k < b0.len() && b0[k] == e;
                assert(b[k] == e);
                assert(comes_before(direction, b[k].key(), b[b.len() - 1].key()));
                assert(b.contains(e));
                let m = choose|m: int| 0 <= m < a.len() && a[m] == e;
                assert(m < a.len() - 1);
                assert(a0[m] == e);
            }
        }
        assert(ordered(a0, direction)) by {
            assert forall|i: int, j: int| 0 <= i < j < a0.len() implies comes_before(
                direction,
                (#[trigger] a0[i]).key(),
                (#[trigger] a0[j]).key(),
            ) by {
                assert(a0[i] == a[i] && a0[j] == a[j]);
            }
        }
        assert(ordered(b0, direction)) by {
            assert forall|i: int, j: int| 0 <= i < j < b0.len() implies comes_before(
                direction,
                (#[trigger] b0[i]).key(),
                (#[trigger] b0[j]).key(),
            ) by {
                assert(b0[i] == b[i] && b0[j] == b[j]);
            }
        }
        lemma_ordered_same_entries(a0, b0, direction);
        assert(a =~= a0.push(la));
        assert(b =~= b0.push(lb));
    }
}

/// `at` is where the entries strictly beyond `last` begin on a walk in
/// `direction`: no entry before `at` lies beyond `last`, and every entry
/// from `at` on does.
pub open spec fn splits_at<P>(
    entries: Seq<ScoredItem<P>>,
    direction: KeysetDirection,
    last: RankKey,
    at: int,
) -> bool {
    &&& 0 <= at <= entries.len()
    &&& forall|k: int|
        0 <= k < at ==> !comes_before(direction, last, (#[trigger] entries[k]).key())
    &&& forall|k: int|
        at <= k < entries.len() ==> comes_before(direction, last, (#[trigger] entries[k]).key())
}

/// In an ordered sequence the entries strictly beyond a key form a tail.
pub proof fn lemma_split_point<P>(
    entries: Seq<ScoredItem<P>>,
    direction: KeysetDirection,
    last: RankKey,
) -> (start: int)
    requires
        ordered(entries, direction),
    ensures
        splits_at(entries, direction, last, start),
    decreases entries.len(),
{
    if entries.len() == 0 {
        0
    } else {
        let front = entries.drop_last();
        assert(ordered(front, direction)) by {
            assert forall|i: int, j: int| 0 <= i < j < front.len() implies comes_before(
                direction,
                (#[trigger] front[i]).key(),
                (#[trigger] front[j]).key(),
            ) by {
                assert(front[i] == entries[i] && front[j] == entries[j]);
            }
        }
        let inner = lemma_split_point(front, direction, last);
        assert forall|k: int| 0 <= k < front.len() implies front[k] == entries[k] by {}
        if comes_before(direction, last, entries.last().key()) {
            assert forall|k: int| inner <= k < entries.len() implies comes_before(
                direction,
                last,
                (#[trigger] entries[k]).key(),
            ) by {
                if k < front.len() {
                    assert(front[k] == entries[k]);
                }
            }
            assert forall|k: int| 0 <= k < inner implies !comes_before(
                direction,
                last,
                (#[trigger] entries[k]).key(),
            ) by {
                assert(front[k] == entries[k]);
            }
            inner
        } else {
            assert forall|k: int| 0 <= k < entries.len() implies !comes_before(
                direction,
                last,
                (#[trigger] entries[k]).key(),
            ) by {
                if k < front.len() {
                    assert(comes_before(
                        direction,
                        entries[k].key(),
                        entries[entries.len() - 1].key(),
                    ));
                }
            }
            entries.len() as int
        }
    }
}

/// The place where the entries strictly beyond a key begin is fixed by the
/// key.
pub proof fn lemma_split_point_is_unique<P>(
    entries: Seq<ScoredItem<P>>,
    direction: KeysetDirection,
    last: RankKey,
    a: int,
    b: int,
)
    requires
        splits_at(entries, direction, last, a),
        splits_at(entries, direction, last, b),
    ensures
        a == b,
{
    if a < b {
        assert(comes_before(direction, last, entries[a].key()));
    }
    if b < a {
        assert(comes_before(direction, last, entries[b].key()));
    }
}

/// An entry with a key of its own, put where the entries beyond its key
/// begin, leaves the sequence ordered.
pub proof fn lemma_insert_keeps_order<P>(ranked: Seq<ScoredItem<P>>, entry: ScoredItem<P>, at: int)
    requires
        ordered(ranked, KeysetDirection::Next),
        splits_at(ranked, KeysetDirection::Next, entry.key(), at),
        forall|k: int| 0 <= k < ranked.len() ==> (#[trigger] ranked[k]).key() != entry.key(),
    ensures
        ordered(ranked.insert(at, entry), KeysetDirection::Next),
{
    let after = ranked.insert(at, entry);
    assert forall|k: int| 0 <= k < at implies ranks_before(
        (#[trigger] ranked[k]).key(),
        entry.key(),
    ) by {
        lemma_order_is_total(KeysetDirection::Next, ranked[k].key(), entry.key());
    }
    assert forall|i: int, j: int| 0 <= i < j < after.len() implies comes_before(
        KeysetDirection::Next,
        (#[trigger] after[i]).key(),
        (#[trigger] after[j]).key(),
    ) by {
        if j < at {
            assert(after[i] == ranked[i] && after[j] == ranked[j]);
        } else if j == at {
            assert(after[i] == ranked[i]);
        } else if i < at {
            assert(after[i] == ranked[i] && after[j] == ranked[j - 1]);
        } else if i == at {
            assert(after[j] == ranked[j - 1]);
        } else {
            assert(after[i] == ranked[i - 1] && after[j] == ranked[j - 1]);
        }
    }
}

/// The index of the first entry strictly beyond `last` on a walk in
/// `direction`, or the length where there is none.
pub fn seek<P>(ranked: &Vec<ScoredItem<P>>, direction: KeysetDirection, last: RankKey) -> (start:
    usize)
    requires
        ordered(ranked@, direction),
    ensures
        splits_at(ranked@, direction, last, start as int),
{
    let mut lo: usize = 0;
    let mut hi: usize = ranked.len();
    while lo < hi
        invariant
            0 <= lo <= hi <= ranked@.len(),
            ordered(ranked@, direction),
            forall|k: int|
                0 <= k < lo ==> !comes_before(direction, last, (#[trigger] ranked@[k]).key()),
            forall|k: int|
                hi <= k < ranked@.len() ==> comes_before(
                    direction,
                    last,
                    (#[trigger] ranked@[k]).key(),
                ),
        decreases hi - lo,
    {
        let mid = lo + (hi - lo) / 2;
        let probe = ranked[mid].rank_key();
        if key_comes_before(direction, last, probe) {
            proof {
                assert forall|k: int| mid <= k < ranked@.len() implies comes_before(
                    direction,
                    last,
                    (#[trigger] ranked@[k]).key(),
                ) by {
                    if k > mid {
                        assert(comes_before(
                            direction,
                            ranked@[mid as int].key(),
                            ranked@[k].key(),
                        ));
                    }
                }
            }
            hi = mid;
        } else {
            proof {
                assert forall|k: int| 0 <= k < mid + 1 implies !comes_before(
                    direction,
                    last,
                    (#[trigger] ranked@[k]).key(),
                ) by {
                    if k < mid {
                        assert(comes_before(
                            direction,
                            ranked@[k].key(),
                            ranked@[mid as int].key(),
                        ));
                    }
                }
            }
            lo = mid + 1;
        }
    }
    lo
}

/// Puts `entry` into the forward-ordered `ranked` at the place its key asks
/// for: before the first entry that its key ranks before.
pub fn insert_ranked<P>(ranked: &mut Vec<ScoredItem<P>>, entry: ScoredItem<P>)
    requires
        ordered(old(ranked)@, KeysetDirection::Next),
        forall|k: int|
            0 <= k < old(ranked)@.len() ==> (#[trigger] old(ranked)@[k]).key() != entry.key(),
    ensures
        ordered(final(ranked)@, KeysetDirection::Next),
        exists|at: int|
            splits_at(old(ranked)@, KeysetDirection::Next, entry.key(), at) && final(ranked)@
                == #[trigger] old(ranked)@.insert(at, entry),
{
    let at = seek(ranked, KeysetDirection::Next, entry.rank_key());
    proof {
        lemma_insert_keeps_order(ranked@, entry, at as int);
    }
    ranked.insert(at, entry);
}

/// The same elements read from the end to the start.
pub fn reversed<A>(list: Vec<A>) -> (back: Vec<A>)
    ensures
        back@ == mirrored(list@),
{
    let mut rest = list;
    let mut back: Vec<A> = Vec::new();
    while rest.len() > 0
        invariant
            rest@.len() + back@.len() == list@.len(),
            forall|i: int| 0 <= i < rest@.len() ==> rest@[i] == list@[i],
            forall|i: int| 0 <= i < back@.len() ==> back@[i] == list@[list@.len() - 1 - i],
        decreases rest@.len(),
    {
        let last = rest.pop();
        match last {
            Some(element) => {
                back.push(element);
            },
            None => {},
        }
    }
    proof {
        assert(back@ =~= mirrored(list@));
    }
    back
}

} // verus!
