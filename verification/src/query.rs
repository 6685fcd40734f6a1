//! Tag queries: the filter that decides whether an item survives a query and
//! the scorer that ranks the survivors.

use vstd::prelude::*;

verus! {

/// A boolean tag expression: every `must` name has to be present on an item,
/// no `must_not` name may be present, and `should` names only add to the score.
/// Names are compared exactly.
#[derive(Debug)]
pub struct TagQuery {
    pub must: Vec<String>,
    pub should: Vec<String>,
    pub must_not: Vec<String>,
}

/// A tag query together with a free-text needle for title and description.
#[derive(Debug)]
pub struct PlaylistQuery {
    pub tags: TagQuery,
    pub text: String,
}

/// The three clauses of a tag query as sets of names.
pub struct TagQueryView {
    pub must: Set<Seq<char>>,
    pub should: Set<Seq<char>>,
    pub must_not: Set<Seq<char>>,
}

/// The view of one tag name.
pub open spec fn name_of(name: String) -> Seq<char> {
    name@
}

/// The set of names that a list of tag names stands for; repeated entries
/// collapse into one.
pub open spec fn name_set(names: Seq<String>) -> Set<Seq<char>> {
    names.map_values(|name: String| name_of(name)).to_set()
}

impl View for TagQuery {
    type V = TagQueryView;

    open spec fn view(&self) -> TagQueryView {
        TagQueryView {
            must: name_set(self.must@),
            should: name_set(self.should@),
            must_not: name_set(self.must_not@),
        }
    }
}

/// An item with tag set `tags` passes `query` when it carries every `must`
/// name and none of the `must_not` names.
pub open spec fn matches_spec(tags: Set<Seq<char>>, query: TagQueryView) -> bool {
    query.must.subset_of(tags) && query.must_not.intersect(tags) == Set::<Seq<char>>::empty()
}

/// The relevance of an item with tag set `tags`: how many distinct names it
/// shares with the `should` clause.
pub open spec fn score_spec(tags: Set<Seq<char>>, query: TagQueryView) -> nat {
    tags.intersect(query.should).len()
}

/// A name is in `name_set(names)` exactly when some entry of `names` spells it.
pub proof fn lemma_name_set_contains(names: Seq<String>, name: Seq<char>)
    ensures
        name_set(names).contains(name) <==> exists|i: int|
            0 <= i < names.len() && (#[trigger] names[i])@ == name,
        name_set(names).finite(),
{
    let views = names.map_values(|name: String| name_of(name));
    vstd::seq_lib::seq_to_set_is_finite(views);
    if name_set(names).contains(name) {
        let i = choose|i: int| 0 <= i < views.len() && views[i] == name;
        assert(names[i]@ == name);
    }
    if exists|i: int| 0 <= i < names.len() && (#[trigger] names[i])@ == name {
        let i = choose|i: int| 0 <= i < names.len() && (#[trigger] names[i])@ == name;
        assert(views[i] == name);
        assert(views.contains(name));
    }
}

/// Taking one more entry of `names` adds that entry's name to the set.
pub proof fn lemma_name_set_take_next(names: Seq<String>, n: int)
    requires
        0 <= n < names.len(),
    ensures
        name_set(names.take(n + 1)) == name_set(names.take(n)).insert(names[n]@),
{
    let whole = name_set(names.take(n + 1));
    let grown = name_set(names.take(n)).insert(names[n]@);
    assert forall|name: Seq<char>| whole.contains(name) <==> grown.contains(name) by {
        lemma_name_set_contains(names.take(n + 1), name);
        lemma_name_set_contains(names.take(n), name);
        if whole.contains(name) {
            let i = choose|i: int|
                0 <= i < names.take(n + 1).len() && (#[trigger] names.take(n + 1)[i])@ == name;
            if i < n {
                assert(names.take(n)[i]@ == name);
            }
        }
        if grown.contains(name) {
            if name == names[n]@ {
                assert(names.take(n + 1)[n]@ == name);
            } else {
                let i = choose|i: int|
                    0 <= i < names.take(n).len() && (#[trigger] names.take(n)[i])@ == name;
                assert(names.take(n + 1)[i]@ == name);
            }
        }
    }
    assert(whole =~= grown);
}

/// Whether `name` occurs among the first `upto` entries of `names`.
pub fn prefix_contains_name(names: &Vec<String>, upto: usize, name: &String) -> (found: bool)
    requires
        upto <= names.len(),
    ensures
        found == name_set(names@.take(upto as int)).contains(name@),
{
    let mut i: usize = 0;
    while i < upto
        invariant
            0 <= i <= upto <= names.len(),
            forall|k: int| 0 <= k < i ==> (#[trigger] names@[k])@ != name@,
        decreases upto - i,
    {
        if names[i] == *name {
            proof {
                lemma_name_set_contains(names@.take(upto as int), name@);
                assert(names@.take(upto as int)[i as int]@ == name@);
            }
            return true;
        }
        i += 1;
    }
    proof {
        lemma_name_set_contains(names@.take(upto as int), name@);
        assert forall|k: int| 0 <= k < names@.take(upto as int).len() implies (
        #[trigger] names@.take(upto as int)[k])@ != name@ by {
            assert(names@.take(upto as int)[k] == names@[k]);
        }
    }
    false
}

/// Whether `name` occurs in `names`.
pub fn contains_name(names: &Vec<String>, name: &String) -> (found: bool)
    ensures
        found == name_set(names@).contains(name@),
{
    proof {
        assert(names@.take(names@.len() as int) =~= names@);
    }
    prefix_contains_name(names, names.len(), name)
}

/// The filter: does an item carrying `tags` survive `query`?
pub fn matches(tags: &Vec<String>, query: &TagQuery) -> (pass: bool)
    ensures
        pass == matches_spec(name_set(tags@), query@),
{
    let ghost carried = name_set(tags@);
    let mut i: usize = 0;
    while i < query.must.len()
        invariant
            0 <= i <= query.must.len(),
            carried == name_set(tags@),
            forall|k: int| 0 <= k < i ==> carried.contains((#[trigger] query.must@[k])@),
        decreases query.must.len() - i,
    {
        if !contains_name(tags, &query.must[i]) {
            proof {
                lemma_name_set_contains(query.must@, query.must@[i as int]@);
                assert(query@.must.contains(query.must@[i as int]@));
            }
            return false;
        }
        i += 1;
    }
    proof {
        assert forall|name: Seq<char>| query@.must.contains(name) implies carried.contains(
            name,
        ) by {
            lemma_name_set_contains(query.must@, name);
        }
    }
    let mut j: usize = 0;
    while j < query.must_not.len()
        invariant
            0 <= j <= query.must_not.len(),
            carried == name_set(tags@),
            query@.must.subset_of(carried),
            forall|k: int| 0 <= k < j ==> !carried.contains((#[trigger] query.must_not@[k])@),
        decreases query.must_not.len() - j,
    {
        if contains_name(tags, &query.must_not[j]) {
            proof {
                let banned = query.must_not@[j as int]@;
                lemma_name_set_contains(query.must_not@, banned);
                assert(query@.must_not.intersect(carried).contains(banned));
            }
            return false;
        }
        j += 1;
    }
    proof {
        assert forall|name: Seq<char>| !query@.must_not.intersect(carried).contains(name) by {
            lemma_name_set_contains(query.must_not@, name);
        }
        assert(query@.must_not.intersect(carried) =~= Set::<Seq<char>>::empty());
    }
    true
}

/// The scorer: how many distinct names of `tags` the `should` clause of
/// `query` names.
pub fn score(tags: &Vec<String>, query: &TagQuery) -> (points: u64)
    ensures
        points == score_spec(name_set(tags@), query@),
{
    let ghost carried = name_set(tags@);
    let mut points: u64 = 0;
    let mut j: usize = 0;
    proof {
        assert(name_set(query.should@.take(0)) =~= Set::<Seq<char>>::empty()) by {
            assert forall|name: Seq<char>| !name_set(query.should@.take(0)).contains(name) by {
                lemma_name_set_contains(query.should@.take(0), name);
            }
        }
        assert(carried.intersect(Set::<Seq<char>>::empty()) =~= Set::<Seq<char>>::empty());
    }
    while j < query.should.len()
        invariant
            0 <= j <= query.should.len(),
            carried == name_set(tags@),
            points <= j,
            points == carried.intersect(name_set(query.should@.take(j as int))).len(),
        decreases query.should.len() - j,
    {
        let name = &query.should[j];
        let carried_here = contains_name(tags, name);
        let seen = prefix_contains_name(&query.should, j, name);
        proof {
            let before = name_set(query.should@.take(j as int));
            lemma_name_set_take_next(query.should@, j as int);
            lemma_name_set_contains(query.should@.take(j as int), name@);
            if carried_here && !seen {
                assert(carried.intersect(before.insert(name@)) =~= carried.intersect(
                    before,
                ).insert(name@));
            } else {
                assert(carried.intersect(before.insert(name@)) =~= carried.intersect(before));
            }
        }
        if carried_here && !seen {
            points += 1;
        }
        j += 1;
    }
    proof {
        assert(query.should@.take(query.should@.len() as int) =~= query.should@);
    }
    points
}

impl TagQuery {
    /// A query with three empty clauses: every item passes and scores 0.
    pub fn empty() -> (query: TagQuery)
        ensures
            query.must@.len() == 0,
            query.should@.len() == 0,
            query.must_not@.len() == 0,
    {
        TagQuery { must: Vec::new(), should: Vec::new(), must_not: Vec::new() }
    }
}

impl Default for TagQuery {
    fn default() -> (query: TagQuery)
        ensures
            query.must@.len() == 0,
            query.should@.len() == 0,
            query.must_not@.len() == 0,
    {
        TagQuery::empty()
    }
}

} // verus!
