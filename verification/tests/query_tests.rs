use media_catalog::query::{contains_name, score, TagQuery};

fn names(list: &[&str]) -> Vec<String> {
    list.iter().map(|name| name.to_string()).collect()
}

fn query_of(must: &[&str], should: &[&str], must_not: &[&str]) -> TagQuery {
    TagQuery { must: names(must), should: names(should), must_not: names(must_not) }
}

#[test]
fn empty_query_lets_everything_through() {
    let query = TagQuery::empty();
    assert!(media_catalog::query::matches(&names(&["x", "y"]), &query));
    assert!(media_catalog::query::matches(&names(&[]), &query));
    assert_eq!(score(&names(&["x", "y"]), &query), 0);
}

#[test]
fn default_query_has_three_empty_clauses() {
    let query = TagQuery::default();
    assert!(query.must.is_empty());
    assert!(query.should.is_empty());
    assert!(query.must_not.is_empty());
}

#[test]
fn must_asks_for_every_name() {
    let query = query_of(&["x", "y"], &[], &[]);
    assert!(media_catalog::query::matches(&names(&["y", "z", "x"]), &query));
    assert!(!media_catalog::query::matches(&names(&["x"]), &query));
    assert!(!media_catalog::query::matches(&names(&["y", "z"]), &query));
}

#[test]
fn item_without_tags_passes_only_an_empty_must() {
    let none = names(&[]);
    assert!(media_catalog::query::matches(&none, &query_of(&[], &["x"], &["y"])));
    assert!(!media_catalog::query::matches(&none, &query_of(&["x"], &[], &[])));
}

#[test]
fn must_not_bans_an_item_whatever_its_score() {
    let query = query_of(&[], &["banned", "x"], &["banned"]);
    let banned = names(&["banned", "x"]);
    assert_eq!(score(&banned, &query), 2);
    assert!(!media_catalog::query::matches(&banned, &query));
    assert!(media_catalog::query::matches(&names(&["x"]), &query));
}

#[test]
fn should_does_not_decide_on_passing() {
    let query = query_of(&["x"], &["nothing"], &[]);
    assert!(media_catalog::query::matches(&names(&["x"]), &query));
    assert_eq!(score(&names(&["x"]), &query), 0);
}

#[test]
fn names_are_matched_exactly() {
    let query = query_of(&["Cat"], &[], &[]);
    assert!(!media_catalog::query::matches(&names(&["cat"]), &query));
    assert!(!media_catalog::query::matches(&names(&["Cats"]), &query));
    assert!(media_catalog::query::matches(&names(&["Cat"]), &query));
}

#[test]
fn score_counts_shared_names() {
    let query = query_of(&[], &["x", "y", "z"], &[]);
    assert_eq!(score(&names(&["x", "y"]), &query), 2);
    assert_eq!(score(&names(&["y"]), &query), 1);
    assert_eq!(score(&names(&["q"]), &query), 0);
    assert_eq!(score(&names(&[]), &query), 0);
    assert_eq!(score(&names(&["z", "y", "x", "w"]), &query), 3);
}

#[test]
fn repeated_should_names_count_once() {
    let query = query_of(&[], &["x", "x", "y", "x"], &[]);
    assert_eq!(score(&names(&["x"]), &query), 1);
    assert_eq!(score(&names(&["x", "y"]), &query), 2);
}

#[test]
fn repeated_tags_count_once() {
    let query = query_of(&[], &["x", "y"], &[]);
    assert_eq!(score(&names(&["x", "x", "x"]), &query), 1);
    assert_eq!(score(&names(&["y", "x", "y", "x"]), &query), 2);
}

#[test]
fn contains_name_finds_exact_entries() {
    let list = names(&["a", "bb", "ccc"]);
    assert!(contains_name(&list, &"bb".to_string()));
    assert!(!contains_name(&list, &"b".to_string()));
    assert!(!contains_name(&names(&[]), &"a".to_string()));
}

#[test]
fn prefix_contains_name_looks_at_the_prefix_only() {
    let list = names(&["a", "b", "c"]);
    assert!(media_catalog::query::prefix_contains_name(&list, 2, &"b".to_string()));
    assert!(!media_catalog::query::prefix_contains_name(&list, 2, &"c".to_string()));
    assert!(!media_catalog::query::prefix_contains_name(&list, 0, &"a".to_string()));
}
